//! Error taxonomy for the codec and for the schema compiler.

use vstd::prelude::*;

verus! {

/// A recoverable error raised while encoding or decoding wire data.
///
/// Every runtime codec failure is reported through one of these variants;
/// schema validation failures use [`SchemaError`] instead and can only arise
/// while a record description is being compiled, never while encoding or
/// decoding valid data.
#[derive(Debug, Clone, Copy, PartialEq, Eq, Structural)]
pub enum BinaryError {
    /// A read required more bytes than remain in the buffer.
    UnexpectedEof,
    /// A write exceeded the capacity of a bounded sink.
    OutOfMemory,
    /// Decoded content failed a semantic check: an unknown enum discriminant,
    /// an unrecognized address-family tag, a variable-length integer whose
    /// continuation bit is still set after its maximum byte count, malformed
    /// UTF-8, or a conditional field whose directive could not be satisfied.
    InvalidData,
}

impl BinaryError {
    /// A human-readable description of the error.
    pub fn get_message(&self) -> (r: String)
        ensures
            r@.len() > 0,
    {
        match self {
            BinaryError::UnexpectedEof => {
                proof {
                    reveal_strlit("No more bytes left to be read in buffer");
                }
                "No more bytes left to be read in buffer".to_owned()
            },
            BinaryError::OutOfMemory => {
                proof {
                    reveal_strlit("Buffer is full, cannot write more bytes");
                }
                "Buffer is full, cannot write more bytes".to_owned()
            },
            BinaryError::InvalidData => {
                proof {
                    reveal_strlit("Decoded content failed a semantic check");
                }
                "Decoded content failed a semantic check".to_owned()
            },
        }
    }
}

} // verus!
