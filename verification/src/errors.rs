//! The closed taxonomy of decode, encode and pattern failures.

use vstd::prelude::*;

verus! {

/// Represents errors returned by `decode`, `encode` or pattern compilation.
///
/// Every failing operation of this library returns exactly one of these
/// kinds; malformed or adversarial input always surfaces as a typed error.
#[derive(Clone, Copy, Debug, PartialEq, Eq, Structural)]
pub enum OscError {
    /// Invalid text encoding inside an OSC string.
    StringError,
    /// The buffer was exhausted where more bytes were required.
    ReadError,
    /// A top-level packet is malformed: unrecognized leading byte or truncated.
    BadPacket,
    /// A message is malformed: missing address or type-tag/argument mismatch.
    BadMessage,
    /// An OSC string has a missing or misaligned terminator.
    BadString,
    /// An argument value is malformed for its declared type.
    BadArg,
    /// A bundle is malformed: missing marker or a bad size prefix.
    BadBundle,
    /// An address pattern has invalid syntax.
    BadAddressPattern,
    /// An address has invalid syntax.
    BadAddress,
    /// The pattern could not be translated into the matching engine.
    RegexError,
    /// A syntactically valid but unsupported type tag.
    Unimplemented,
}

/// The descriptive text that `OscError::message` returns for each kind.
pub open spec fn spec_error_message(e: OscError) -> Seq<char> {
    match e {
        OscError::StringError => "invalid text encoding in OSC string"@,
        OscError::ReadError => "buffer exhausted while reading"@,
        OscError::BadPacket => "bad OSC packet"@,
        OscError::BadMessage => "bad OSC message"@,
        OscError::BadString => "bad OSC string"@,
        OscError::BadArg => "bad OSC argument"@,
        OscError::BadBundle => "bad OSC bundle"@,
        OscError::BadAddressPattern => "bad OSC address pattern"@,
        OscError::BadAddress => "bad OSC address"@,
        OscError::RegexError => "OSC address pattern regex error"@,
        OscError::Unimplemented => "unimplemented type tag"@,
    }
}

impl OscError {
    /// A short human-readable description of the error kind.
    pub fn message(&self) -> (m: &'static str)
        ensures
            m@ == spec_error_message(*self),
    {
        match self {
            OscError::StringError => "invalid text encoding in OSC string",
            OscError::ReadError => "buffer exhausted while reading",
            OscError::BadPacket => "bad OSC packet",
            OscError::BadMessage => "bad OSC message",
            OscError::BadString => "bad OSC string",
            OscError::BadArg => "bad OSC argument",
            OscError::BadBundle => "bad OSC bundle",
            OscError::BadAddressPattern => "bad OSC address pattern",
            OscError::BadAddress => "bad OSC address",
            OscError::RegexError => "OSC address pattern regex error",
            OscError::Unimplemented => "unimplemented type tag",
        }
    }
}

} // verus!
