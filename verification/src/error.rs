use vstd::prelude::*;

verus! {

/// Why an operation of this library failed.
#[derive(Clone, Copy, Debug, PartialEq, Eq, Structural)]
pub enum GraphicsError {
    /// The firmware did not hand out the display-adapter service.
    ProtocolNotFound,
    /// A coordinate or a shape lies outside the addressable pixels.
    OutOfRange,
}

impl GraphicsError {
    /// The text that `message` returns.
    pub open spec fn spec_message(self) -> Seq<char> {
        match self {
            GraphicsError::ProtocolNotFound => "Failed to locate graphics output protocol"@,
            GraphicsError::OutOfRange => "Out of Range"@,
        }
    }

    /// A short text that says what went wrong.
    pub fn message(&self) -> (text: &'static str)
        ensures
            text@ == self.spec_message(),
    {
        match self {
            GraphicsError::ProtocolNotFound => "Failed to locate graphics output protocol",
            GraphicsError::OutOfRange => "Out of Range",
        }
    }
}

} // verus!
