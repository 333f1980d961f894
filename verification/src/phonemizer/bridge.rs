//! Decisions around the native phonemizer engine: whether a text can be
//! handed to it, and how a failed load is reported. The engine itself is
//! foreign code driven from outside this library.
use vstd::prelude::*;
use crate::phonemizer::error::PhonemizeError;
use crate::text::{owned, str_has};

verus! {

/// What the engine reports when it could not be loaded at all.
pub open spec fn failed_load_text() -> Seq<char> {
    "phonemizer failed to load"@
}

/// The message for an engine that could not be loaded.
pub fn failed_load_message() -> (m: &'static str)
    ensures
        m@ == failed_load_text(),
{
    "phonemizer failed to load"
}

/// Whether `text` can be passed to the engine as a C string: it must not
/// hold a NUL character. Texts that cannot be passed are phonemized as the
/// empty string.
pub fn is_passable_text(text: &str) -> (r: bool)
    ensures
        r == !text@.contains('\0'),
{
    !str_has(text, '\0')
}

/// The outcome of loading the engine: success when it loaded, otherwise a
/// dictionary-load error carrying the engine's error text.
pub fn load_outcome(loaded: bool, error_text: &str) -> (r: Result<(), PhonemizeError>)
    ensures
        loaded ==> r is Ok,
        !loaded ==> (r matches Err(PhonemizeError::DictionaryLoad(m)) && m@ == error_text@),
{
    if loaded {
        Ok(())
    } else {
        Err(PhonemizeError::DictionaryLoad(owned(error_text)))
    }
}

} // verus!
