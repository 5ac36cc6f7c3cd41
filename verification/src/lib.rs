//! Valv vault format: header encoding and decoding, keystream handling,
//! vault file naming, mount-session bookkeeping and command-line decisions.
use vstd::prelude::*;

pub mod crypto;
pub mod text;
pub mod paths;
pub mod vault;
pub mod cli;

use crate::crypto::DecryptError;

verus! {

/// The standard I/O error type, carried through unchanged.
#[verifier::external_type_specification]
#[verifier::external_body]
pub struct ExIoError(std::io::Error);

/// Errors reported by the command-line front end.
#[derive(Debug)]
pub enum ValvError {
    InvalidPassword,
    Io(std::io::Error),
    Decrypt(DecryptError),
    Message(String, u8),
}

/// Process exit status for an error: 2 for a wrong password, the carried
/// code for a message, 1 otherwise.
pub open spec fn exit_status(e: ValvError) -> u8 {
    match e {
        ValvError::InvalidPassword => 2u8,
        ValvError::Io(_) => 1u8,
        ValvError::Decrypt(DecryptError::InvalidPassword) => 2u8,
        ValvError::Decrypt(_) => 1u8,
        ValvError::Message(_, c) => c,
    }
}

/// Whatever way a header error reaches the front end, a wrong password exits
/// with status 2 and every other header error with status 1.
pub proof fn lemma_header_error_status(e: DecryptError)
    ensures
        exit_status(<ValvError as vstd::std_specs::convert::FromSpec<DecryptError>>::from_spec(e)) == (if e is InvalidPassword {
            2u8
        } else {
            1u8
        }),
        exit_status(ValvError::Decrypt(e)) == (if e is InvalidPassword {
            2u8
        } else {
            1u8
        }),
{
}

impl ValvError {
    /// Process exit status for this error.
    pub fn exit_code(&self) -> (code: u8)
        ensures
            code == exit_status(*self),
    {
        match self {
            ValvError::InvalidPassword => 2,
            ValvError::Io(_) => 1,
            ValvError::Decrypt(DecryptError::InvalidPassword) => 2,
            ValvError::Decrypt(_) => 1,
            ValvError::Message(_, code) => *code,
        }
    }

    /// The text shown to the user for this error (for an I/O error, the
    /// error's own description).
    pub fn message(&self) -> (text: String)
        ensures
            match self {
                ValvError::InvalidPassword => text@ == "Incorrect password"@,
                ValvError::Io(_) => true,
                ValvError::Decrypt(e) => crypto::describes(*e, text@),
                ValvError::Message(m, _) => text@ == m@,
            },
    {
        match self {
            ValvError::InvalidPassword => "Incorrect password".to_owned(),
            ValvError::Io(e) => e.to_string(),
            ValvError::Decrypt(e) => e.message(),
            ValvError::Message(m, _) => m.clone(),
        }
    }
}

impl From<std::io::Error> for ValvError {
    fn from(e: std::io::Error) -> (r: Self) {
        ValvError::Io(e)
    }
}

impl vstd::std_specs::convert::FromSpecImpl<std::io::Error> for ValvError {
    open spec fn obeys_from_spec() -> bool {
        true
    }

    open spec fn from_spec(e: std::io::Error) -> Self {
        ValvError::Io(e)
    }
}

impl From<DecryptError> for ValvError {
    /// A wrong password and an I/O error keep their kind; other header
    /// errors are carried as they are.
    fn from(e: DecryptError) -> (r: Self) {
        match e {
            DecryptError::InvalidPassword => ValvError::InvalidPassword,
            DecryptError::Io(io_err) => ValvError::Io(io_err),
            other => ValvError::Decrypt(other),
        }
    }
}

impl vstd::std_specs::convert::FromSpecImpl<DecryptError> for ValvError {
    open spec fn obeys_from_spec() -> bool {
        true
    }

    open spec fn from_spec(e: DecryptError) -> Self {
        match e {
            DecryptError::InvalidPassword => ValvError::InvalidPassword,
            DecryptError::Io(io_err) => ValvError::Io(io_err),
            other => ValvError::Decrypt(other),
        }
    }
}

} // verus!
