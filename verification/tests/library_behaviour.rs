use std::path::PathBuf;

use phonemica::phonemizer::bridge::{failed_load_message, is_passable_text, load_outcome};
use phonemica::phonemizer::context::{ContextGroups, ContextMatchingEngine};
use phonemica::phonemizer::dictionaries::{DictionaryContext, DictionarySet, StressFlags, WordFlags};
use phonemica::phonemizer::ipa::{AmericanEnglishConverter, BritishEnglishConverter, IpaConverter};
use phonemica::phonemizer::rules::{MatchScorer, RuleApplier};
use phonemica::phonemizer::stress::{DefaultStressProcessor, StressConfig, StressProcessor};
use phonemica::phonemizer::tokenizer::{TextTokenizer, Tokenizer};
use phonemica::suffix_prefix::{PrefixHandler, SuffixFlags, SuffixHandler};
use phonemica::tables::{CharSet, StrMap, StrSet};
use phonemica::types::{LetterGroups, PhToken, PhTokenType, PhonemeRule, RuleSet};
use phonemica::{Downloader, PhonemizeError};

fn rule(left: &str, right: &str) -> PhonemeRule {
    PhonemeRule {
        left_ctx: left.to_string(),
        right_ctx: right.to_string(),
        ..Default::default()
    }
}

fn chars(s: &str) -> Vec<char> {
    s.chars().collect()
}

// ---------------------------------------------------------------------
// Tokenizer
// ---------------------------------------------------------------------

#[test]
fn tokens_record_attachment() {
    let tokens = TextTokenizer::new().tokenize("  Hello,world  !");
    let seen: Vec<(&str, bool, bool)> = tokens
        .iter()
        .map(|t| (t.text.as_str(), t.is_word, t.needs_space_before))
        .collect();
    assert_eq!(
        seen,
        vec![("Hello", true, false), (",", false, true), ("world", true, false), ("!", false, false)]
    );
}

#[test]
fn punctuation_runs_absorb_hyphens() {
    let tokens = TextTokenizer::new().tokenize("a!-b");
    let texts: Vec<&str> = tokens.iter().map(|t| t.text.as_str()).collect();
    assert_eq!(texts, vec!["a", "!-", "b"]);
    assert!(tokens[1].needs_space_before);
    assert!(tokens[2].needs_space_before);
}

#[test]
fn tokenizing_only_whitespace_gives_nothing() {
    assert!(TextTokenizer::new().tokenize(" \t\n ").is_empty());
    assert!(TextTokenizer::new().tokenize("").is_empty());
}

#[test]
fn tokens_drop_only_whitespace() {
    let text = "Well -- it's 3 o'clock, isn't it?";
    let tokens = TextTokenizer::new().tokenize(text);
    let joined: String = tokens.iter().map(|t| t.text.as_str()).collect();
    let expected: String = text.chars().filter(|c| !c.is_whitespace()).collect();
    assert_eq!(joined, expected);
    assert!(tokens.iter().all(|t| !t.text.is_empty()));
}

#[test]
fn normalize_replaces_every_whitespace() {
    let t = TextTokenizer::new();
    assert_eq!(t.normalize("a\u{a0}b\r\nc"), "a b  c");
}

// ---------------------------------------------------------------------
// Rule helpers and scoring
// ---------------------------------------------------------------------

#[test]
fn lowering_keeps_non_ascii() {
    assert_eq!(RuleApplier::to_lower_ascii("ÀBC-ü"), "Àbc-ü");
    let once = RuleApplier::to_lower_ascii("MiXeD Case");
    assert_eq!(RuleApplier::to_lower_ascii(&once), once);
}

#[test]
fn trim_edges() {
    assert_eq!(RuleApplier::trim("\t x y \n"), "x y");
    assert_eq!(RuleApplier::trim("   "), "");
    let once = RuleApplier::trim("  a b  ");
    assert_eq!(RuleApplier::trim(&once), once);
}

#[test]
fn split_edges() {
    assert!(RuleApplier::split_ws("").is_empty());
    assert!(RuleApplier::split_ws(" \t ").is_empty());
    assert_eq!(RuleApplier::split_ws("\ta\u{2003}b "), vec!["a", "b"]);
}

#[test]
fn scores_add_up() {
    let r = rule("_", "");
    assert_eq!(MatchScorer::score_match(2, 0, 2, &r, true, false), 150);
    let r = rule("", "S");
    assert_eq!(MatchScorer::score_match(1, 3, 10, &r, false, true), 1);
    let r = rule("ab", "ab");
    assert_eq!(MatchScorer::score_match(3, 2, 10, &r, true, true), 1 + 42 + 100 + 10 + 8);
    let r = rule("", "a_");
    assert_eq!(MatchScorer::score_match(1, 9, 10, &r, false, true), 1 + 3 + 20);
}

#[test]
fn score_validity() {
    assert!(MatchScorer::is_valid_match(0));
    assert!(MatchScorer::is_valid_match(150));
    assert!(!MatchScorer::is_valid_match(-1));
}

// ---------------------------------------------------------------------
// Context matching
// ---------------------------------------------------------------------

#[test]
fn left_context_cases() {
    let g = ContextGroups::new();
    let word = chars("bat");
    assert!(ContextMatchingEngine::check_left_context(&rule("_", ""), &word, 0, &g));
    assert!(!ContextMatchingEngine::check_left_context(&rule("_", ""), &word, 1, &g));
    assert!(ContextMatchingEngine::check_left_context(&rule("C", ""), &word, 1, &g));
    assert!(ContextMatchingEngine::check_left_context(&rule("_B", ""), &word, 1, &g));
    assert!(ContextMatchingEngine::check_left_context(&rule("_b", ""), &word, 1, &g));
    assert!(ContextMatchingEngine::check_left_context(&rule("_B", ""), &chars("Bat"), 1, &g));
    assert!(!ContextMatchingEngine::check_left_context(&rule("a", ""), &word, 1, &g));
    assert!(ContextMatchingEngine::check_left_context(&rule("", ""), &word, 3, &g));
    assert!(ContextMatchingEngine::check_left_context(&rule("-", ""), &chars("x-y"), 2, &g));
}

#[test]
fn right_context_cases() {
    let g = ContextGroups::new();
    let word = chars("cast");
    assert_eq!(ContextMatchingEngine::check_right_context(&rule("", "_"), &word, 4, "cast", &g), (true, 1));
    assert_eq!(ContextMatchingEngine::check_right_context(&rule("", "_"), &word, 4, "other", &g), (true, 1));
    assert_eq!(ContextMatchingEngine::check_right_context(&rule("", "_x"), &word, 4, "cast", &g), (false, 0));
    assert_eq!(ContextMatchingEngine::check_right_context(&rule("", "_"), &word, 2, "cast", &g), (false, 0));
    assert_eq!(ContextMatchingEngine::check_right_context(&rule("", "S_"), &word, 0, "cast", &g), (true, 0));
    assert_eq!(ContextMatchingEngine::check_right_context(&rule("", "@_"), &word, 2, "cast", &g), (true, 1));
    assert_eq!(ContextMatchingEngine::check_right_context(&rule("", "@"), &word, 1, "cast", &g), (false, 0));
    assert_eq!(ContextMatchingEngine::check_right_context(&rule("", "&A"), &word, 0, "cast", &g), (true, 0));
    assert_eq!(ContextMatchingEngine::check_right_context(&rule("", "ST"), &word, 2, "cast", &g), (true, 0));
    assert_eq!(ContextMatchingEngine::check_right_context(&rule("", "sT__"), &word, 2, "cast", &g), (true, 2));
}

#[test]
fn context_group_bounds() {
    let g = ContextGroups::new();
    assert!(!g.match_group('A', "hello", 10));
    assert!(!g.match_group('Q', "hello", 1));
    assert!(g.match_group('K', "box", 2));
}

// ---------------------------------------------------------------------
// Letter groups and rule sets
// ---------------------------------------------------------------------

#[test]
fn letter_groups_fold_case() {
    let g = LetterGroups::new();
    assert!(g.is_vowel('E'));
    assert!(!g.is_vowel('y'));
    assert!(g.match_group('A', "hEllo", 1));
    assert!(g.match_group('Y', "shY", 2));
    assert!(!g.match_group('A', "hello", 5));
    assert!(!g.match_group('Z', "hello", 1));
    // "é" is two bytes but one character: position 1 is inside the bytes
    // but past the characters, and is looked up as a space.
    assert!(!g.match_group('C', "é", 1));
    assert_eq!(g.lgroups.len(), 100);
    assert!(g.lgroups.iter().all(|v| v.is_empty()));
}

#[test]
fn rule_set_starts_empty() {
    let r = RuleSet::new();
    assert!(r.replacements.is_empty());
    assert!(r.rule_groups.is_empty());
    assert!(r.groups.group_k.contains('y'));
}

#[test]
fn ph_token_keeps_fields() {
    let t = PhToken::new(PhTokenType::Phoneme, "aI".to_string(), true);
    assert_eq!(t.token_type, PhTokenType::Phoneme);
    assert_eq!(t.code, "aI");
    assert!(t.is_vowel);
}

// ---------------------------------------------------------------------
// Stress
// ---------------------------------------------------------------------

#[test]
fn stress_by_position_exact() {
    let p = DefaultStressProcessor::new(StressConfig::new());
    assert_eq!(p.apply_stress_position("h'elo", 2), "h,el'o");
    assert_eq!(p.apply_stress_position("aeiou", 2), "a'eiou");
    assert_eq!(p.apply_stress_position("abc", 0), "abc");
    assert_eq!(p.apply_stress_position("abc", 5), "abc");
    assert_eq!(p.apply_stress_position("abc", 2), "abc");
    assert_eq!(p.apply_stress_position("abe", 2), "ab'e");
    assert_eq!(p.apply_stress_position("abe", 1), "'abe");
    assert_eq!(p.apply_stress_position("abe", -1), "abe");
    assert_eq!(p.apply_stress_position("", 1), "");
    let r = p.apply_stress_position("'a'e'i", 3);
    assert_eq!(r.matches('\'').count(), 1);
}

#[test]
fn final_and_first_stress_exact() {
    let p = DefaultStressProcessor::default();
    assert_eq!(p.apply_final_stress("hEllo"), "hEll'o");
    assert_eq!(p.apply_final_stress("aeiou"), "aeio'u");
    assert_eq!(p.apply_final_stress("brr"), "brr");
    assert_eq!(p.insert_last_resort_stress("str"), "str");
    assert_eq!(p.insert_last_resort_stress("hello"), "h'ello");
    assert_eq!(p.insert_last_resort_stress("h'ello"), "h'ello");
    assert_eq!(p.insert_last_resort_stress("h,ello"), "h,ello");
    assert_eq!(p.insert_last_resort_stress("%hello"), "%h'ello");
    assert_eq!(p.process_phoneme_string("word", "w3:d", true), "w3:d");
}

// ---------------------------------------------------------------------
// IPA
// ---------------------------------------------------------------------

#[test]
fn american_ipa_exact() {
    let c = AmericanEnglishConverter::new();
    assert_eq!(c.phonemes_to_ipa("'a"), "ˈæ");
    assert_eq!(c.phonemes_to_ipa("'3:r"), "ˈɜːɹ");
    assert_eq!(c.phonemes_to_ipa("r_"), "ɹ. ");
    assert_eq!(c.phonemes_to_ipa("a#"), "ɐ");
    assert_eq!(c.phonemes_to_ipa("#/|"), "");
    assert_eq!(c.phonemes_to_ipa("%,:"), "ˏˌː");
    assert_eq!(c.phonemes_to_ipa("i@3r"), "ɪɹ");
    assert_eq!(c.phonemes_to_ipa("hz"), "hz");
    assert_eq!(c.dialect(), "en-us");
}

#[test]
fn british_ipa_exact() {
    let c = BritishEnglishConverter::default();
    assert_eq!(c.phonemes_to_ipa("'a"), "ˈa");
    assert_eq!(c.phonemes_to_ipa("h@'loU"), "h@ˈləʊ");
    assert_eq!(c.phonemes_to_ipa("0"), "ɒ");
    assert_eq!(c.dialect(), "en-gb");
}

#[test]
fn ipa_words_convert_independently() {
    let us = AmericanEnglishConverter::new();
    let gb = BritishEnglishConverter::new();
    let pairs = [("h@'l", "oU"), ("'3:", "r"), ("i@3", "r"), ("a", "a"), ("", "'A@")];
    for (a, b) in pairs.iter() {
        let joined = format!("{} {}", a, b);
        assert_eq!(
            us.phonemes_to_ipa(&joined),
            format!("{} {}", us.phonemes_to_ipa(a), us.phonemes_to_ipa(b))
        );
        assert_eq!(
            gb.phonemes_to_ipa(&joined),
            format!("{} {}", gb.phonemes_to_ipa(a), gb.phonemes_to_ipa(b))
        );
    }
}

#[test]
fn ipa_stress_marks_become_symbols() {
    let us = AmericanEnglishConverter::new();
    let r = us.phonemes_to_ipa("h@'loU,wIR");
    assert!(r.contains('ˈ'));
    assert!(r.contains('ˌ'));
    assert!(!r.contains('\''));
    assert!(!r.contains(','));
}

#[test]
fn vowel_codes_by_dialect() {
    let us = AmericanEnglishConverter::new();
    let gb = BritishEnglishConverter::new();
    assert!(us.is_vowel("I#"));
    assert!(!gb.is_vowel("I#"));
    assert!(!us.is_vowel("3"));
    assert!(gb.is_vowel("oU"));
    assert!(!us.is_vowel("r"));
    assert!(us.is_vowel("Y"));
}

// ---------------------------------------------------------------------
// Suffixes and prefixes
// ---------------------------------------------------------------------

#[test]
fn stems_in_bytes() {
    assert_eq!(SuffixHandler::extract_stem("naïve", 1), "naïv");
    assert_eq!(SuffixHandler::extract_stem("test", -1), "");
    assert_eq!(SuffixHandler::extract_stem("test", 0), "test");
    assert_eq!(PrefixHandler::extract_suffix("unhappy", 2), "happy");
    assert_eq!(PrefixHandler::extract_suffix("ab", 5), "");
    assert_eq!(PrefixHandler::extract_suffix("naïve", 4), "ve");
    let w = "naïvety";
    let stem = SuffixHandler::extract_stem(w, 3);
    let suffix = PrefixHandler::extract_suffix(w, w.len() - 3);
    assert_eq!(format!("{}{}", stem, suffix), w);
}

#[test]
fn restored_stems() {
    let none = SuffixFlags::from_bits(0);
    assert_eq!(SuffixHandler::restore_stem("runn", none), "run");
    assert_eq!(SuffixHandler::restore_stem("sitt", none), "sit");
    assert_eq!(SuffixHandler::restore_stem("call", none), "cal");
    assert_eq!(SuffixHandler::restore_stem("walk", none), "walk");
    let add_e = SuffixFlags::from_bits(0x100);
    assert_eq!(SuffixHandler::restore_stem("mak", add_e), "make");
    assert_eq!(SuffixHandler::restore_stem("a", add_e), "a");
    let both = SuffixFlags::from_bits(0x300);
    assert_eq!(SuffixHandler::restore_stem("tri", both), "try");
}

#[test]
fn ed_endings() {
    assert_eq!(SuffixHandler::apply_ed_devoicing("play", "d"), "d");
    assert_eq!(SuffixHandler::apply_ed_devoicing("grab", "d"), "I#d");
    assert_eq!(SuffixHandler::apply_ed_devoicing("call", "d"), "I#d");
    assert_eq!(SuffixHandler::apply_ed_devoicing("ski", "d"), "d");
    assert_eq!(SuffixHandler::apply_ed_devoicing("1", "d"), "d");
    assert_eq!(SuffixHandler::apply_ed_devoicing("stop", "xyz"), "xyz");
    assert_eq!(SuffixHandler::apply_ed_devoicing("", "d"), "d");
    assert_eq!(SuffixHandler::apply_ed_devoicing("PASS", "Id"), "t");
    assert_eq!(SuffixHandler::apply_ed_devoicing("need", "t"), "I#d");
}

#[test]
fn suffix_flags_any() {
    assert!(!SuffixFlags::from_bits(0).has_any());
    assert!(SuffixFlags::from_bits(0x4000).has_any());
    assert!(SuffixFlags::from_bits(0x800).verb_form);
    assert!(!SuffixFlags::from_bits(0x400).has_any());
}

#[test]
fn vowel_group_counts() {
    assert_eq!(PrefixHandler::count_vowel_groups("aei"), 1);
    assert_eq!(PrefixHandler::count_vowel_groups("abc"), 1);
    assert_eq!(PrefixHandler::count_vowel_groups("@3a"), 1);
    assert_eq!(PrefixHandler::count_vowel_groups("bEtA"), 2);
    assert_eq!(PrefixHandler::count_vowel_groups(""), 0);
}

#[test]
fn stress_mark_counts() {
    assert_eq!(PrefixHandler::count_stress_marks("'',a,"), (1, 1));
    assert_eq!(PrefixHandler::count_stress_marks("%'a'b"), (2, 0));
}

#[test]
fn compound_stress_cases() {
    assert_eq!(
        PrefixHandler::apply_compound_stress("'Ando", "'mEnto"),
        (",Ando".to_string(), "'mEnto".to_string())
    );
    assert_eq!(
        PrefixHandler::apply_compound_stress("'An", "'dU,In"),
        (",An".to_string(), "dUIn".to_string())
    );
    assert_eq!(
        PrefixHandler::apply_compound_stress("prE", "sEnt"),
        ("prE".to_string(), "sEnt".to_string())
    );
    assert_eq!(
        PrefixHandler::apply_compound_stress("'prEfIks", "'sEnt"),
        (",prEfIks".to_string(), "sEnt".to_string())
    );
    assert_eq!(
        PrefixHandler::apply_compound_stress("prEfIks", "'mEnto"),
        ("prEfIks".to_string(), "'mEnto".to_string())
    );
    assert_eq!(
        PrefixHandler::apply_compound_stress("'prEfIks", "mEnto"),
        ("'prEfIks".to_string(), "mEnto".to_string())
    );
}

#[test]
fn affix_matches() {
    let mut r = PhonemeRule::default();
    r.match_str = "ing".to_string();
    assert!(!SuffixHandler::is_suffix_match(&r, "running", 4));
    r.is_suffix = true;
    assert!(SuffixHandler::is_suffix_match(&r, "running", 4));
    assert!(!SuffixHandler::is_suffix_match(&r, "running", 3));
    r.is_prefix = true;
    assert!(PrefixHandler::is_prefix_match(&r, 0));
    assert!(!PrefixHandler::is_prefix_match(&r, 1));
}

// ---------------------------------------------------------------------
// Dictionaries and flags
// ---------------------------------------------------------------------

#[test]
fn dictionary_lookup_by_context() {
    let mut d = DictionarySet::default();
    d.general.insert("read", "ri:d".to_string());
    d.verbs.insert("read", "rEd".to_string());
    assert_eq!(d.lookup("read", DictionaryContext::General).map(|s| s.as_str()), Some("ri:d"));
    assert_eq!(d.lookup("read", DictionaryContext::Verb).map(|s| s.as_str()), Some("rEd"));
    assert_eq!(d.lookup("read", DictionaryContext::Noun), None);
    d.general.insert("read", "rid".to_string());
    assert_eq!(d.lookup("read", DictionaryContext::General).map(|s| s.as_str()), Some("rid"));
    d.clear();
    assert_eq!(d.lookup("read", DictionaryContext::General), None);
    assert!(d.verbs.is_empty());
}

#[test]
fn finalize_orders_prefixes() {
    let mut d = DictionarySet::new();
    for (p, ph) in [("a", "1"), ("abc", "2"), ("ab", "3"), ("xyz", "4"), ("é", "5")] {
        d.compound_prefixes.push((p.to_string(), ph.to_string()));
    }
    d.unstressed_words.insert("made");
    d.unstressed_words.insert("the");
    d.finalize();
    let order: Vec<String> = d.compound_prefixes.iter().map(|e| e.0.clone()).collect();
    assert_eq!(order, vec!["abc", "xyz", "ab", "é", "a"]);
    assert!(!d.unstressed_words.contains("made"));
    assert!(d.unstressed_words.contains("the"));
    d.finalize();
    let again: Vec<String> = d.compound_prefixes.iter().map(|e| e.0.clone()).collect();
    assert_eq!(again, order);
}

#[test]
fn stress_flag_bits_roundtrip() {
    let all = StressFlags {
        verb_form: true,
        irregular_inflection: true,
        vowel_change: true,
        emphasis: true,
        doubling: true,
        quiet: true,
        pausal: true,
    };
    assert_eq!(all.to_bits(), 0x85F00);
    let back = StressFlags::from_bits(all.to_bits());
    assert!(back.verb_form && back.irregular_inflection && back.vowel_change);
    assert!(back.emphasis && back.doubling && back.quiet && back.pausal);
    assert_eq!(StressFlags::from_bits(-1).to_bits(), -1 & 0x85F00);
    assert_eq!(StressFlags::default().to_bits(), 0);
}

#[test]
fn word_flags_default_clear() {
    let f = WordFlags::default();
    assert!(!f.is_past_form && !f.is_capital && !f.is_at_end);
}

// ---------------------------------------------------------------------
// Tables
// ---------------------------------------------------------------------

#[test]
fn string_tables() {
    let mut m: StrMap<i32> = StrMap::new();
    assert!(m.is_empty());
    m.insert("one", 1);
    m.insert("two", 2);
    m.insert("one", 11);
    assert_eq!(m.get("one"), Some(&11));
    assert_eq!(m.get("two"), Some(&2));
    assert_eq!(m.get("three"), None);
    assert!(m.contains_key("two"));
    let copy = m.clone();
    assert_eq!(copy.get("one"), Some(&11));

    let mut s = StrSet::new();
    assert!(s.insert("x"));
    assert!(!s.insert("x"));
    assert!(s.contains("x"));
    assert!(s.remove("x"));
    assert!(!s.remove("x"));
    assert!(s.is_empty());

    let mut c = CharSet::new();
    c.insert_all("abca");
    assert!(c.contains('c'));
    assert!(!c.contains('d'));
    assert!(!c.insert('a'));
}

// ---------------------------------------------------------------------
// Errors, engine decisions and downloads
// ---------------------------------------------------------------------

#[test]
fn error_messages() {
    let e = PhonemizeError::DictionaryLoad("x".to_string());
    assert_eq!(e.message(), "Dictionary load error: x");
    assert_eq!(PhonemizeError::RulesLoad("r".to_string()).message(), "Rules load error: r");
    assert_eq!(PhonemizeError::InvalidDialect("d".to_string()).message(), "Invalid dialect: d");
    assert_eq!(PhonemizeError::InvalidInput("i".to_string()).message(), "Invalid input: i");
    let io = std::io::Error::new(std::io::ErrorKind::Other, "disk");
    let e: PhonemizeError = io.into();
    assert_eq!(e.message(), "IO error: disk");
}

#[test]
fn engine_decisions() {
    assert!(is_passable_text("hello"));
    assert!(!is_passable_text("a\0b"));
    assert_eq!(failed_load_message(), "phonemizer failed to load");
    assert!(load_outcome(true, "").is_ok());
    match load_outcome(false, "boom") {
        Err(PhonemizeError::DictionaryLoad(m)) => assert_eq!(m, "boom"),
        _ => panic!("expected a dictionary load error"),
    }
}

#[test]
fn downloader_paths() {
    let d = Downloader::new(PathBuf::from("cache"));
    assert_eq!(d.get_rules_path(), PathBuf::from("cache").join("en_rules"));
    assert_eq!(d.get_list_path(), PathBuf::from("cache").join("en_list"));
    assert!(d.rules_url().ends_with("/dictsource/en_rules"));
    assert!(d.list_url().ends_with("/dictsource/en_list"));
    let c = Downloader::with_custom_urls(PathBuf::from("c"), "r", "l");
    assert_eq!(c.rules_url(), "r");
    assert_eq!(c.list_url(), "l");
    assert_eq!(c.cache_dir(), &PathBuf::from("c"));
}
