//! The rule-based phonemizer: dictionaries, rule matching, stress
//! placement, IPA conversion and tokenization.
pub mod error;
pub mod dictionaries;
pub mod bridge;
pub mod context;
pub mod tokenizer;
pub mod ipa;
pub mod stress;
pub mod rules;

pub use context::{ContextGroups, ContextMatchingEngine};
pub use tokenizer::{TextTokenizer, Tokenizer};
pub use ipa::{AmericanEnglishConverter, BritishEnglishConverter, IpaConverter};
pub use stress::{DefaultStressProcessor, StressConfig, StressPlace, StressProcessor};
pub use rules::{ContextMatcher, MatchScorer, RuleApplier, RuleMatch, RuleMatcher};
pub use error::{PhonemizeError, Result};
pub use dictionaries::{DictionaryContext, DictionarySet, StressFlags, WordFlags};
