//! Errors reported by the phonemizer.
use vstd::prelude::*;
use crate::text::concat;

verus! {

#[verifier::external_type_specification]
#[verifier::external_body]
pub struct ExIoError(std::io::Error);

/// Error type for phonemizer operations.
#[derive(Debug)]
pub enum PhonemizeError {
    /// Error loading dictionary files
    DictionaryLoad(String),
    /// Error loading rules files
    RulesLoad(String),
    /// Invalid dialect specification
    InvalidDialect(String),
    /// Invalid input provided
    InvalidInput(String),
    /// IO errors
    IoError(std::io::Error),
}

impl PhonemizeError {
    /// The human-readable description: the kind of error followed by its
    /// message. For an I/O error the message is the I/O error's own
    /// description, which this contract does not restate.
    pub fn message(&self) -> (r: String)
        ensures
            match self {
                PhonemizeError::DictionaryLoad(msg) => r@ == "Dictionary load error: "@ + msg@,
                PhonemizeError::RulesLoad(msg) => r@ == "Rules load error: "@ + msg@,
                PhonemizeError::InvalidDialect(msg) => r@ == "Invalid dialect: "@ + msg@,
                PhonemizeError::InvalidInput(msg) => r@ == "Invalid input: "@ + msg@,
                PhonemizeError::IoError(_) => exists|t: Seq<char>| r@ == "IO error: "@ + t,
            },
    {
        match self {
            PhonemizeError::DictionaryLoad(msg) => concat("Dictionary load error: ", msg.as_str()),
            PhonemizeError::RulesLoad(msg) => concat("Rules load error: ", msg.as_str()),
            PhonemizeError::InvalidDialect(msg) => concat("Invalid dialect: ", msg.as_str()),
            PhonemizeError::InvalidInput(msg) => concat("Invalid input: ", msg.as_str()),
            PhonemizeError::IoError(err) => {
                let text = err.to_string();
                let r = concat("IO error: ", text.as_str());
                assert(r@ == "IO error: "@ + text@);
                r
            },
        }
    }
}

impl From<std::io::Error> for PhonemizeError {
    fn from(err: std::io::Error) -> (r: Self)
        ensures
            r == PhonemizeError::IoError(err),
    {
        PhonemizeError::IoError(err)
    }
}

impl vstd::std_specs::convert::FromSpecImpl<std::io::Error> for PhonemizeError {
    open spec fn obeys_from_spec() -> bool {
        true
    }

    open spec fn from_spec(v: std::io::Error) -> Self {
        PhonemizeError::IoError(v)
    }
}

/// Result type for phonemizer operations.
pub type Result<T> = std::result::Result<T, PhonemizeError>;

} // verus!
