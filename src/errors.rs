//! Error kinds of the command processor and the status words that report them.

use vstd::prelude::*;

verus! {

/// Status word of a successful reply.
pub const STATUS_OK: u16 = 0x9000;

/// Why a command or a conversion was refused.
#[derive(Debug, Clone, Copy, PartialEq, Eq, Structural)]
pub enum Error {
    /// A byte slice has the wrong length for the scalar or point it should hold.
    IncorrectByteLength,
    /// The challenge bytes cannot be read as a scalar.
    InvalidChallenge,
    /// The bytes do not encode a group element.
    ConversionError,
    /// The command carries no payload where one is needed.
    NothingReceived,
    /// The opcode is not one of the known instructions.
    BadInstruction(u8),
    /// The session has ended with `Exit` and takes no more commands.
    SessionEnded,
}

/// The status word that reports `e`.
pub open spec fn status_word_of(e: Error) -> u16 {
    match e {
        Error::IncorrectByteLength => 0x69f0,
        Error::InvalidChallenge => 0x9210,
        Error::ConversionError => 0x6a88,
        Error::NothingReceived => 0x6982,
        Error::BadInstruction(_) => 0x6d00,
        Error::SessionEnded => 0x6985,
    }
}

impl Error {
    /// The status word sent back to the host for this error.
    pub fn status_word(&self) -> (r: u16)
        ensures
            r == status_word_of(*self),
            r != STATUS_OK,
    {
        match self {
            Error::IncorrectByteLength => 0x69f0,
            Error::InvalidChallenge => 0x9210,
            Error::ConversionError => 0x6a88,
            Error::NothingReceived => 0x6982,
            Error::BadInstruction(_) => 0x6d00,
            Error::SessionEnded => 0x6985,
        }
    }
}

} // verus!
