//! The crate's error type and its conversions from collaborator errors.

use vstd::prelude::*;
use vstd::string::StringExecFns;

verus! {

/// `goblin::error::Error` is the failure a binary-container parse reports;
/// it is carried through opaquely.
#[verifier::external_type_specification]
#[verifier::external_body]
pub struct ExGoblinError(goblin::error::Error);

/// `std::io::Error` is the failure a file read reports; it is carried
/// through opaquely.
#[verifier::external_type_specification]
#[verifier::external_body]
pub struct ExIoError(std::io::Error);

/// Everything that can go wrong while scanning artifacts and assembling
/// the graph: an internal condition described by a message, a file-read
/// failure, or a binary-container parse failure.
#[derive(Debug)]
pub enum BingraphError {
    GeneralError(String),
    IOError(std::io::Error),
    GoblinError(goblin::error::Error),
}

/// Relies on the `Display` impl of `std::io::Error` for a human-readable
/// description of the failure.
#[verifier::external_body]
fn io_error_text(e: &std::io::Error) -> String {
    format!("{}", e)
}

/// Relies on the `Display` impl of `goblin::error::Error` for a
/// human-readable description of the failure.
#[verifier::external_body]
fn goblin_error_text(e: &goblin::error::Error) -> String {
    format!("{}", e)
}

impl BingraphError {
    /// The display form of the error: the message itself for a general
    /// error, and the collaborator's description behind an `io: ` or
    /// `goblin: ` prefix otherwise.
    pub fn message(&self) -> (r: String)
        ensures
            match self {
                BingraphError::GeneralError(s) => r@ == s@,
                BingraphError::IOError(_) => r@.len() >= 4 && r@.take(4) == "io: "@,
                BingraphError::GoblinError(_) => r@.len() >= 8 && r@.take(8) == "goblin: "@,
            },
    {
        match self {
            BingraphError::GeneralError(s) => s.clone(),
            BingraphError::IOError(e) => {
                let mut r = String::from_str("io: ");
                r.append(io_error_text(e).as_str());
                proof {
                    reveal_strlit("io: ");
                    assert(r@.take(4) =~= "io: "@);
                }
                r
            },
            BingraphError::GoblinError(e) => {
                let mut r = String::from_str("goblin: ");
                r.append(goblin_error_text(e).as_str());
                proof {
                    reveal_strlit("goblin: ");
                    assert(r@.take(8) =~= "goblin: "@);
                }
                r
            },
        }
    }
}

impl From<std::io::Error> for BingraphError {
    fn from(value: std::io::Error) -> (r: Self) {
        BingraphError::IOError(value)
    }
}

impl vstd::std_specs::convert::FromSpecImpl<std::io::Error> for BingraphError {
    open spec fn obeys_from_spec() -> bool {
        true
    }

    open spec fn from_spec(v: std::io::Error) -> Self {
        BingraphError::IOError(v)
    }
}

impl From<goblin::error::Error> for BingraphError {
    fn from(value: goblin::error::Error) -> (r: Self) {
        BingraphError::GoblinError(value)
    }
}

impl vstd::std_specs::convert::FromSpecImpl<goblin::error::Error> for BingraphError {
    open spec fn obeys_from_spec() -> bool {
        true
    }

    open spec fn from_spec(v: goblin::error::Error) -> Self {
        BingraphError::GoblinError(v)
    }
}

impl From<String> for BingraphError {
    fn from(value: String) -> (r: Self) {
        BingraphError::GeneralError(value)
    }
}

impl vstd::std_specs::convert::FromSpecImpl<String> for BingraphError {
    open spec fn obeys_from_spec() -> bool {
        true
    }

    open spec fn from_spec(v: String) -> Self {
        BingraphError::GeneralError(v)
    }
}

} // verus!
