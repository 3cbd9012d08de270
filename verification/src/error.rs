use vstd::prelude::*;
use vstd::string::*;

verus! {

/// The error vocabulary shared by splitting and validation.
#[derive(Debug)]
pub enum ChunkError {
    /// An underlying operating-system failure while opening, reading or
    /// writing a file, carrying its description.
    Io(String),
    /// A rejected input, carrying a fixed description of what was wrong.
    InvalidInput(&'static str),
}

impl ChunkError {
    /// The error's full description, for a caller to print.
    pub fn message(&self) -> (r: String)
        ensures
            self matches ChunkError::Io(m) ==> r@ == "IO error: "@ + m@,
            self matches ChunkError::InvalidInput(m) ==> r@ == "Invalid input: "@ + m@,
    {
        match self {
            ChunkError::Io(m) => String::from_str("IO error: ").concat(m.as_str()),
            ChunkError::InvalidInput(m) => String::from_str("Invalid input: ").concat(m),
        }
    }
}

} // verus!
