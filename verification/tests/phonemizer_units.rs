use phonemica::phonemizer::context::ContextGroups;
use phonemica::phonemizer::dictionaries::{DictionarySet, StressFlags, WordFlags};
use phonemica::phonemizer::ipa::{AmericanEnglishConverter, BritishEnglishConverter, IpaConverter};
use phonemica::phonemizer::rules::RuleApplier;
use phonemica::phonemizer::stress::{DefaultStressProcessor, StressConfig, StressPlace, StressProcessor};
use phonemica::phonemizer::tokenizer::{TextTokenizer, Tokenizer};

#[test]
fn test_context_groups_vowels() {
    let groups = ContextGroups::new();
    assert!(groups.group_a.contains(&'a'));
    assert!(groups.group_a.contains(&'e'));
    assert!(!groups.group_a.contains(&'b'));
}

#[test]
fn test_context_groups_consonants() {
    let groups = ContextGroups::new();
    assert!(groups.group_b.contains(&'b'));
    assert!(groups.group_b.contains(&'t'));
    assert!(!groups.group_b.contains(&'a'));
}

#[test]
fn test_match_group() {
    let groups = ContextGroups::new();
    assert!(groups.match_group('A', "hello", 1)); // 'e' at pos 1
    assert!(groups.match_group('B', "hello", 0)); // 'h' at pos 0
    assert!(!groups.match_group('A', "hello", 0)); // 'h' is not vowel
}

#[test]
fn test_dictionary_set_creation() {
    let dict = DictionarySet::new();
    assert!(dict.general.is_empty());
    assert!(dict.verbs.is_empty());
    assert!(dict.unstressed_words.is_empty());
}

#[test]
fn test_stress_flags_conversion() {
    let flags = StressFlags {
        verb_form: true,
        vowel_change: true,
        ..Default::default()
    };
    let bits = flags.to_bits();
    let flags2 = StressFlags::from_bits(bits);
    assert_eq!(flags.verb_form, flags2.verb_form);
    assert_eq!(flags.vowel_change, flags2.vowel_change);
}

#[test]
fn test_word_flags_creation() {
    let flags = WordFlags::new();
    assert!(!flags.is_unstressed);
    assert!(!flags.is_abbreviation);
}

#[test]
fn test_american_conversion() {
    let converter = AmericanEnglishConverter::new();
    let result = converter.phonemes_to_ipa("'a");
    assert!(result.contains('ˈ')); // Primary stress marker
    assert!(result.contains('æ')); // American 'a'
}

#[test]
fn test_british_conversion() {
    let converter = BritishEnglishConverter::new();
    let result = converter.phonemes_to_ipa("'a");
    assert!(result.contains('ˈ')); // Primary stress marker
}

#[test]
fn test_vowel_detection_us() {
    let converter = AmericanEnglishConverter::new();
    assert!(converter.is_vowel("a"));
    assert!(converter.is_vowel("e"));
    assert!(!converter.is_vowel("b"));
}

#[test]
fn test_vowel_phoneme() {
    assert!(RuleApplier::is_vowel_phoneme('a'));
    assert!(RuleApplier::is_vowel_phoneme('@'));
    assert!(RuleApplier::is_vowel_phoneme('3'));
    assert!(!RuleApplier::is_vowel_phoneme('b'));
}

#[test]
fn test_vowel_letter() {
    assert!(RuleApplier::is_vowel_letter('a'));
    assert!(RuleApplier::is_vowel_letter('E'));
    assert!(RuleApplier::is_vowel_letter('y'));
    assert!(!RuleApplier::is_vowel_letter('b'));
}

#[test]
fn test_to_lower_ascii() {
    assert_eq!(RuleApplier::to_lower_ascii("Hello"), "hello");
    assert_eq!(RuleApplier::to_lower_ascii("WORLD"), "world");
}

#[test]
fn test_trim() {
    assert_eq!(RuleApplier::trim("  hello  "), "hello");
    assert_eq!(RuleApplier::trim("world"), "world");
}

#[test]
fn test_split_ws() {
    let result = RuleApplier::split_ws("hello world  test");
    assert_eq!(result.len(), 3);
    assert_eq!(result[0], "hello");
    assert_eq!(result[1], "world");
    assert_eq!(result[2], "test");
}

#[test]
fn test_stress_config_creation() {
    let config = StressConfig::new();
    assert!(config.use_stress_dict);
    assert!(config.use_final_stress);
}

#[test]
fn test_stress_place_variants() {
    assert_eq!(StressPlace::Primary, StressPlace::Primary);
    assert_ne!(StressPlace::Primary, StressPlace::Secondary);
}

#[test]
fn test_apply_stress_position() {
    let processor = DefaultStressProcessor::default();
    let result = processor.apply_stress_position("aeiou", 2);
    // Should place primary stress on second vowel 'e'
    assert!(result.contains('\''));
}

#[test]
fn test_apply_final_stress() {
    let processor = DefaultStressProcessor::default();
    let result = processor.apply_final_stress("aeiou");
    // Should place primary stress on last vowel 'u'
    assert!(result.ends_with('u') || result.ends_with("'u"));
}

#[test]
fn test_insert_last_resort_stress() {
    let processor = DefaultStressProcessor::default();
    let result = processor.insert_last_resort_stress("hello");
    assert!(result.contains('\''));
    // Stress should be inserted on first vowel ('e' at index 1)
    assert!(result.contains("h'e"));
}

#[test]
fn test_normalize() {
    let tokenizer = TextTokenizer::new();
    let result = tokenizer.normalize("Hello\nWorld\tTest");
    assert!(result.contains("Hello World Test"));
}

#[test]
fn test_tokenize_simple() {
    let tokenizer = TextTokenizer::new();
    let tokens = tokenizer.tokenize("Hello world");
    assert_eq!(tokens.len(), 2);
    assert_eq!(tokens[0].text, "Hello");
    assert_eq!(tokens[0].is_word, true);
    assert_eq!(tokens[1].text, "world");
}

#[test]
fn test_tokenize_with_punctuation() {
    let tokenizer = TextTokenizer::new();
    let tokens = tokenizer.tokenize("Hello, world!");
    // Tokens should be: ["Hello", ",", "world", "!"]
    assert_eq!(tokens[0].text, "Hello");
    assert_eq!(tokens[1].text, ",");
    assert_eq!(tokens[2].text, "world");
    assert_eq!(tokens[3].text, "!");
}

#[test]
fn test_tokenize_apostrophe() {
    let tokenizer = TextTokenizer::new();
    let tokens = tokenizer.tokenize("don't");
    assert_eq!(tokens[0].text, "don't");
    assert_eq!(tokens[0].is_word, true);
}

#[test]
fn test_tokenize_hyphenated() {
    let tokenizer = TextTokenizer::new();
    let tokens = tokenizer.tokenize("state-of-the-art");
    assert_eq!(tokens[0].text, "state-of-the-art");
    assert_eq!(tokens[0].is_word, true);
}
