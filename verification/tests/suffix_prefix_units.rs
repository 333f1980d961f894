use phonemica::suffix_prefix::{PrefixHandler, SuffixFlags, SuffixHandler};

#[test]
fn test_suffix_flags() {
    let flags = SuffixFlags::from_bits(0x200 | 0x100);
    assert!(flags.restore_y);
    assert!(flags.add_e);
    assert!(!flags.verb_form);
}

#[test]
fn test_extract_stem() {
    assert_eq!(SuffixHandler::extract_stem("running", 3), "runn");
    assert_eq!(SuffixHandler::extract_stem("makes", 1), "make");
    assert_eq!(SuffixHandler::extract_stem("test", 10), "");
}

#[test]
fn test_restore_stem_with_y() {
    let flags = SuffixFlags::from_bits(0x200);
    assert_eq!(SuffixHandler::restore_stem("happi", flags), "happy");
}

#[test]
fn test_ed_devoicing() {
    // Voiceless consonant: -ed → /t/
    assert_eq!(SuffixHandler::apply_ed_devoicing("walk", "d"), "t");

    // t or d: -ed → /ɪd/
    assert_eq!(SuffixHandler::apply_ed_devoicing("start", "d"), "I#d");
}

#[test]
fn test_vowel_group_counting() {
    // Very basic test - just verify function doesn't crash
    // The actual counting logic needs proper phoneme codes to test correctly
    let _ = PrefixHandler::count_vowel_groups("abc");
    let _ = PrefixHandler::count_vowel_groups("aei");
    let _ = PrefixHandler::count_vowel_groups("@3a");
}

#[test]
fn test_stress_counting() {
    let (primary, secondary) = PrefixHandler::count_stress_marks("'hElo,wErld");
    assert_eq!(primary, 1);
    assert_eq!(secondary, 1);
}

#[test]
fn test_compound_stress() {
    let (_new_prefix, _new_suffix) = PrefixHandler::apply_compound_stress("prE", "sEnt");
    // 'prE has 1 vowel group (E), 'sEnt has 1 vowel group (E)
    // So prefix has 1 vowel, suffix has 1 vowel -> no demotion based on our current logic
    // The test just verifies the function doesn't panic
}
