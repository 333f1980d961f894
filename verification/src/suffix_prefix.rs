//! Suffix and prefix handling for morphological phonemization: stripping
//! suffixes to recover stems, and combining the stress of compound words.
use vstd::prelude::*;
use crate::types::PhonemeRule;
use crate::text::{
    ascii_lower, byte_len, char_is_alphabetic, lemma_byte_len_concat, char_width, chars_of, is_unicode_alphabetic,
    lemma_byte_len_prefix_mono, lemma_byte_len_prefix_step, owned, push_char, str_byte_len,
    str_has, string_of, string_of_range, to_ascii_lower, utf8_width,
};

verus! {

/// Flags of a suffix rule.
#[derive(Debug, Copy, Clone)]
pub struct SuffixFlags {
    /// Restore 'y' from 'i' in the stem before the suffix.
    pub restore_y: bool,
    /// Add back a silent 'e' when the stem ends in vowel and consonant.
    pub add_e: bool,
    /// Apply -ed devoicing (use the verb form).
    pub verb_form: bool,
    /// Skip when already applied.
    pub skip_dup: bool,
}

impl SuffixFlags {
    /// The flags held by the bits `0x200` (restore y), `0x100` (add e),
    /// `0x800` (verb form) and `0x4000` (skip duplicates).
    pub fn from_bits(bits: i32) -> (f: Self)
        ensures
            f.restore_y == (bits & 0x200 != 0),
            f.add_e == (bits & 0x100 != 0),
            f.verb_form == (bits & 0x800 != 0),
            f.skip_dup == (bits & 0x4000 != 0),
    {
        Self {
            restore_y: (bits & 0x200) != 0,
            add_e: (bits & 0x100) != 0,
            verb_form: (bits & 0x800) != 0,
            skip_dup: (bits & 0x4000) != 0,
        }
    }

    /// Whether any flag is set.
    pub fn has_any(&self) -> (r: bool)
        ensures
            r == (self.restore_y || self.add_e || self.verb_form || self.skip_dup),
    {
        self.restore_y || self.add_e || self.verb_form || self.skip_dup
    }
}

/// Vowel letters (`y` included), in either ASCII case.
pub open spec fn is_vowel_letter(c: char) -> bool {
    let l = ascii_lower(c);
    l == 'a' || l == 'e' || l == 'i' || l == 'o' || l == 'u' || l == 'y'
}

/// Alphabetic characters that are not vowel letters.
pub open spec fn is_consonant_letter(c: char) -> bool {
    is_unicode_alphabetic(c) && !is_vowel_letter(c)
}

/// Whether `n` bytes into the UTF-8 encoding of `s` is a character
/// boundary.
pub open spec fn is_boundary(s: Seq<char>, n: int) -> bool {
    exists|k: int| 0 <= k <= s.len() && byte_len(#[trigger] s.take(k)) == n
}

/// The stem after restoring a `y` that became `i` (first step).
pub open spec fn stem_with_y(s: Seq<char>, flags: SuffixFlags) -> Seq<char> {
    if flags.restore_y && s.len() > 0 && s.last() == 'i' {
        s.drop_last().push('y')
    } else {
        s
    }
}

/// Whether the stem ends in vowel, consonant, and the same consonant
/// again (ignoring ASCII case).
pub open spec fn ends_doubled(s: Seq<char>) -> bool {
    s.len() >= 3 && {
        let last = ascii_lower(s[s.len() - 1]);
        let prev = ascii_lower(s[s.len() - 2]);
        let prev_prev = ascii_lower(s[s.len() - 3]);
        is_vowel_letter(prev_prev) && is_consonant_letter(prev) && last == prev
    }
}

/// The stem with a doubled final consonant undone (second step); only
/// stems of at least three bytes are considered.
pub open spec fn stem_undoubled(s: Seq<char>) -> Seq<char> {
    if byte_len(s) >= 3 && ends_doubled(s) {
        s.drop_last()
    } else {
        s
    }
}

/// The stem with a silent `e` restored after vowel and consonant (third
/// step); only stems of at least two bytes are considered.
pub open spec fn stem_with_e(s: Seq<char>, flags: SuffixFlags) -> Seq<char> {
    if flags.add_e && byte_len(s) >= 2 && s.len() >= 2 && is_vowel_letter(s[s.len() - 2])
        && is_consonant_letter(s[s.len() - 1]) {
        s.push('e')
    } else {
        s
    }
}

/// The restored stem.
pub open spec fn restored_stem(s: Seq<char>, flags: SuffixFlags) -> Seq<char> {
    stem_with_e(stem_undoubled(stem_with_y(s, flags)), flags)
}

/// Whether the stem has as many characters as each restoration step
/// expects from its byte length: three when it has three bytes or more,
/// and, when a silent `e` may be added, two when it has two bytes or more.
pub open spec fn restorable(s: Seq<char>, flags: SuffixFlags) -> bool {
    &&& byte_len(s) >= 3 ==> s.len() >= 3
    &&& flags.add_e && byte_len(s) >= 2 ==> s.len() >= 2
}

/// Restoring `y` for `i` keeps the length in bytes and in characters.
proof fn lemma_stem_with_y_lengths(s: Seq<char>, flags: SuffixFlags)
    ensures
        byte_len(stem_with_y(s, flags)) == byte_len(s),
        stem_with_y(s, flags).len() == s.len(),
{
    if flags.restore_y && s.len() > 0 && s.last() == 'i' {
        let d = s.drop_last();
        assert(s =~= d + seq!['i']);
        assert(stem_with_y(s, flags) =~= d + seq!['y']);
        lemma_byte_len_concat(d, seq!['i']);
        lemma_byte_len_concat(d, seq!['y']);
        reveal_with_fuel(byte_len, 2);
        assert(seq!['i'].drop_first() =~= Seq::<char>::empty());
        assert(seq!['y'].drop_first() =~= Seq::<char>::empty());
    }
}

/// Consonant letters after which `-ed` is voiceless: `p`, `k`, `f`, `s`,
/// `x` and `θ`.
pub open spec fn is_voiceless_letter(c: char) -> bool {
    c == 'p' || c == 'k' || c == 'f' || c == 's' || c == 'x' || c == 'θ'
}

/// The `-ed` ending after a stem whose last letter, lowercased, is `lc`:
/// `t` after a voiceless consonant, `I#d` after `t`, `d` or any other
/// (voiced) consonant; after a vowel or a non-letter the suffix is
/// unchanged, and suffixes without `d` or `t` are never changed.
pub open spec fn devoiced(stem: Seq<char>, suffix: Seq<char>) -> Seq<char> {
    if !suffix.contains('d') && !suffix.contains('t') {
        suffix
    } else if stem.len() == 0 {
        suffix
    } else {
        let lc = ascii_lower(stem.last());
        if is_voiceless_letter(lc) {
            seq!['t']
        } else if lc == 't' || lc == 'd' || is_consonant_letter(lc) {
            seq!['I', '#', 'd']
        } else {
            suffix
        }
    }
}

/// Suffix-rule matching and stem recovery.
pub struct SuffixHandler;

/// The number of leading characters of `chars` whose UTF-8 encoding is
/// `n` bytes long.
fn chars_for_bytes(chars: &Vec<char>, n: usize) -> (k: usize)
    requires
        is_boundary(chars@, n as int),
    ensures
        k <= chars@.len(),
        byte_len(chars@.take(k as int)) == n,
{
    let ghost s = chars@;
    let mut k: usize = 0;
    let mut acc: usize = 0;
    proof {
        assert(s.take(0) =~= Seq::<char>::empty());
    }
    while acc < n
        invariant
            s == chars@,
            is_boundary(s, n as int),
            k <= s.len(),
            acc <= n,
            acc == byte_len(s.take(k as int)),
        decreases n - acc,
    {
        proof {
            let kk = choose|kk: int| 0 <= kk <= s.len() && byte_len(#[trigger] s.take(kk)) == n;
            if kk <= k {
                lemma_byte_len_prefix_mono(s, kk, k as int);
            }
            assert(k < kk);
            lemma_byte_len_prefix_step(s, k as int);
            lemma_byte_len_prefix_mono(s, k as int + 1, kk);
        }
        assert(k < chars.len());
        acc = acc + char_width(chars[k]);
        k += 1;
    }
    k
}

impl SuffixHandler {
    /// Whether `rule` is a suffix rule whose match, starting at byte
    /// `match_pos`, reaches the end of `word` (lengths in bytes).
    pub fn is_suffix_match(rule: &PhonemeRule, word: &str, match_pos: usize) -> (r: bool)
        requires
            match_pos + byte_len(rule.match_str@) <= usize::MAX,
        ensures
            r == (rule.is_suffix && match_pos + byte_len(rule.match_str@) >= byte_len(word@)),
    {
        if !rule.is_suffix {
            return false;
        }
        match_pos + str_byte_len(rule.match_str.as_str()) >= str_byte_len(word)
    }

    /// `word` without its last `strip_len` bytes; empty when that is the
    /// whole word or more, or when `strip_len` is negative.
    pub fn extract_stem(word: &str, strip_len: i32) -> (r: String)
        requires
            strip_len < 0 || strip_len >= byte_len(word@) || is_boundary(word@, byte_len(word@) - strip_len),
        ensures
            strip_len < 0 || strip_len >= byte_len(word@) ==> r@.len() == 0,
            !(strip_len < 0 || strip_len >= byte_len(word@)) ==> {
                &&& byte_len(r@) == byte_len(word@) - strip_len
                &&& r@ == word@.take(r@.len() as int)
            },
    {
        let total = str_byte_len(word);
        if strip_len < 0 || strip_len as usize >= total {
            String::new()
        } else {
            let chars = chars_of(word);
            let k = chars_for_bytes(&chars, total - strip_len as usize);
            let r = string_of_range(chars.as_slice(), 0, k);
            assert(chars@.subrange(0, k as int) =~= chars@.take(k as int));
            r
        }
    }

    /// The stem with morphological changes undone: a final `i` turned back
    /// into `y` (restore flag), a doubled final consonant after a vowel
    /// made single, and a silent `e` added back after vowel and consonant
    /// (add-e flag).
    pub fn restore_stem(stem: &str, flags: SuffixFlags) -> (r: String)
        requires
            restorable(stem@, flags),
        ensures
            r@ == restored_stem(stem@, flags),
    {
        let mut chars = chars_of(stem);
        let ghost s = chars@;
        proof {
            lemma_stem_with_y_lengths(s, flags);
        }
        if flags.restore_y && chars.len() > 0 && chars[chars.len() - 1] == 'i' {
            chars.pop();
            chars.push('y');
        }
        assert(chars@ =~= stem_with_y(s, flags));
        let s1_bytes = str_byte_len(string_of(chars.as_slice()).as_str());
        if s1_bytes >= 3 {
            let len = chars.len();
            let last = to_ascii_lower(chars[len - 1]);
            let prev = to_ascii_lower(chars[len - 2]);
            let prev_prev = to_ascii_lower(chars[len - 3]);
            if Self::is_vowel(prev_prev) && Self::is_consonant(prev) && last == prev {
                chars.pop();
            }
        }
        assert(chars@ =~= stem_undoubled(stem_with_y(s, flags)));
        if flags.add_e {
            let s2_bytes = str_byte_len(string_of(chars.as_slice()).as_str());
            if s2_bytes >= 2 {
                let last = chars[chars.len() - 1];
                let prev = chars[chars.len() - 2];
                if Self::is_vowel(prev) && Self::is_consonant(last) {
                    chars.push('e');
                }
            }
        }
        assert(chars@ =~= restored_stem(s, flags));
        string_of(chars.as_slice())
    }

    /// The past-tense `-ed` ending after `stem`: `t` after a voiceless
    /// consonant, `I#d` after a voiced consonant and after `t` or `d` (see
    /// `devoiced`).
    pub fn apply_ed_devoicing(stem: &str, suffix_phoneme: &str) -> (r: String)
        ensures
            r@ == devoiced(stem@, suffix_phoneme@),
    {
        if !str_has(suffix_phoneme, 'd') && !str_has(suffix_phoneme, 't') {
            return owned(suffix_phoneme);
        }
        let chars = chars_of(stem);
        if chars.len() > 0 {
            let lc = to_ascii_lower(chars[chars.len() - 1]);
            if lc == 'p' || lc == 'k' || lc == 'f' || lc == 's' || lc == 'x' || lc == 'θ' {
                let mut r = String::new();
                push_char(&mut r, 't');
                return r;
            }
            if lc == 't' || lc == 'd' || Self::is_consonant(lc) {
                let mut r = String::new();
                push_char(&mut r, 'I');
                push_char(&mut r, '#');
                push_char(&mut r, 'd');
                return r;
            }
        }
        owned(suffix_phoneme)
    }

    fn is_vowel(c: char) -> (r: bool)
        ensures
            r == is_vowel_letter(c),
    {
        let l = to_ascii_lower(c);
        l == 'a' || l == 'e' || l == 'i' || l == 'o' || l == 'u' || l == 'y'
    }

    fn is_consonant(c: char) -> (r: bool)
        ensures
            r == is_consonant_letter(c),
    {
        char_is_alphabetic(c) && !Self::is_vowel(c)
    }
}

/// Phoneme characters that count as vowels when counting vowel groups.
pub open spec fn is_vowel_code(c: char) -> bool {
    c == 'a' || c == 'e' || c == 'i' || c == 'o' || c == 'u' || c == 'A' || c == 'E' || c == 'I'
        || c == 'O' || c == 'U' || c == '@' || c == '3'
}

/// Number of maximal runs of vowel codes in `s`.
pub open spec fn vowel_groups(s: Seq<char>) -> int
    decreases s.len(),
{
    if s.len() == 0 {
        0
    } else {
        vowel_groups(s.drop_last()) + if is_vowel_code(s.last()) && (s.len() == 1 || !is_vowel_code(
            s[s.len() - 2],
        )) {
            1int
        } else {
            0int
        }
    }
}

/// Primary and secondary stress marks.
pub open spec fn is_stress_mark(c: char) -> bool {
    c == '\'' || c == ','
}

/// Number of occurrences of the mark `m` in `s` that do not directly follow
/// another primary or secondary mark.
pub open spec fn marks_counted(s: Seq<char>, m: char) -> int
    decreases s.len(),
{
    if s.len() == 0 {
        0
    } else {
        marks_counted(s.drop_last(), m) + if s.last() == m && (s.len() == 1 || !is_stress_mark(
            s[s.len() - 2],
        )) {
            1int
        } else {
            0int
        }
    }
}

/// `s` with its first primary mark turned into a secondary one.
pub open spec fn first_primary_demoted(s: Seq<char>) -> Seq<char>
    decreases s.len(),
{
    if s.len() == 0 {
        s
    } else if s[0] == '\'' {
        seq![','] + s.drop_first()
    } else {
        seq![s[0]] + first_primary_demoted(s.drop_first())
    }
}

/// Stress marks of all kinds, the unstressed mark included.
pub open spec fn is_any_stress_mark(c: char) -> bool {
    c == '\'' || c == ',' || c == '%'
}

/// `s` without any stress marks.
pub open spec fn stress_removed(s: Seq<char>) -> Seq<char> {
    s.filter(|c: char| !is_any_stress_mark(c))
}

/// Whether `s` holds a counted primary or secondary stress mark.
pub open spec fn is_stressed(s: Seq<char>) -> bool {
    marks_counted(s, '\'') > 0 || marks_counted(s, ',') > 0
}

/// The prefix and suffix of a compound with their stress combined: when
/// both parts are stressed, the prefix's first primary stress becomes
/// secondary; the suffix loses all stress when it is monosyllabic (a
/// single vowel group), and also when the prefix is monosyllabic and the
/// suffix carries primary stress.
pub open spec fn compound_stress(prefix: Seq<char>, suffix: Seq<char>) -> (Seq<char>, Seq<char>) {
    let new_prefix = if is_stressed(prefix) && is_stressed(suffix) {
        first_primary_demoted(prefix)
    } else {
        prefix
    };
    let new_suffix = if vowel_groups(suffix) == 1 || (vowel_groups(prefix) == 1 && marks_counted(
        suffix,
        '\'',
    ) > 0) {
        stress_removed(suffix)
    } else {
        suffix
    };
    (new_prefix, new_suffix)
}

proof fn lemma_vowel_groups_prefix(s: Seq<char>, i: int, j: int)
    requires
        0 <= i <= j <= s.len(),
    ensures
        0 <= vowel_groups(s.take(i)) <= vowel_groups(s.take(j)),
    decreases j,
{
    if j > 0 {
        lemma_vowel_groups_prefix(s, if i == j { i - 1 } else { i }, j - 1);
        assert(s.take(j).drop_last() =~= s.take(j - 1));
    } else {
        assert(s.take(0).len() == 0);
    }
}

proof fn lemma_marks_counted_prefix(s: Seq<char>, m: char, i: int, j: int)
    requires
        0 <= i <= j <= s.len(),
    ensures
        0 <= marks_counted(s.take(i), m) <= marks_counted(s.take(j), m),
    decreases j,
{
    if j > 0 {
        lemma_marks_counted_prefix(s, m, if i == j { i - 1 } else { i }, j - 1);
        assert(s.take(j).drop_last() =~= s.take(j - 1));
    } else {
        assert(s.take(0).len() == 0);
    }
}

/// Removing stress marks leaves none: the result has no primary or
/// secondary mark to count.
pub proof fn lemma_stress_removed_unmarked(s: Seq<char>)
    ensures
        forall|i: int| 0 <= i < stress_removed(s).len() ==> !is_any_stress_mark(#[trigger] stress_removed(s)[i]),
        marks_counted(stress_removed(s), '\'') == 0,
        marks_counted(stress_removed(s), ',') == 0,
{
    let r = stress_removed(s);
    let pred = |c: char| !is_any_stress_mark(c);
    assert forall|i: int| 0 <= i < r.len() implies !is_any_stress_mark(#[trigger] r[i]) by {
        s.lemma_filter_pred(pred, i);
    }
    lemma_marks_absent(r, '\'');
    lemma_marks_absent(r, ',');
}

proof fn lemma_marks_absent(s: Seq<char>, m: char)
    requires
        m == '\'' || m == ',',
        forall|i: int| 0 <= i < s.len() ==> !is_any_stress_mark(#[trigger] s[i]),
    ensures
        marks_counted(s, m) == 0,
    decreases s.len(),
{
    if s.len() > 0 {
        assert(!is_any_stress_mark(s[s.len() - 1]));
        lemma_marks_absent(s.drop_last(), m);
    }
}

/// A stem cut at byte `n` and the suffix after byte `n` put back together
/// give the word: `extract_stem(w, len - n)` followed by
/// `extract_suffix(w, n)` is `w` (lengths in bytes).
pub proof fn lemma_stem_and_suffix_rejoin(w: Seq<char>, stem: Seq<char>, k: int, suffix: Seq<char>, n: int)
    requires
        stem == w.take(stem.len() as int),
        stem.len() <= w.len(),
        byte_len(stem) == n,
        0 <= k <= w.len(),
        byte_len(w.take(k)) == n,
        suffix == w.skip(k),
    ensures
        stem + suffix == w,
{
    let a = stem.len() as int;
    if a < k {
        lemma_byte_len_prefix_mono(w, a, k);
    } else if k < a {
        lemma_byte_len_prefix_mono(w, k, a);
    }
    assert(a == k);
    assert(w.take(k) + w.skip(k) =~= w);
}

/// Prefix-rule matching and compound stress.
pub struct PrefixHandler;

impl PrefixHandler {
    /// Whether `rule` is a prefix rule matched at the start of the word.
    pub fn is_prefix_match(rule: &PhonemeRule, match_pos: usize) -> (r: bool)
        ensures
            r == (rule.is_prefix && match_pos == 0),
    {
        rule.is_prefix && match_pos == 0
    }

    /// What follows the first `prefix_len` bytes of `word`; empty when that
    /// is the whole word or more.
    pub fn extract_suffix(word: &str, prefix_len: usize) -> (r: String)
        requires
            prefix_len >= byte_len(word@) || is_boundary(word@, prefix_len as int),
        ensures
            prefix_len >= byte_len(word@) ==> r@.len() == 0,
            prefix_len < byte_len(word@) ==> {
                let k = word@.len() - r@.len();
                &&& 0 <= k <= word@.len()
                &&& byte_len(word@.take(k)) == prefix_len
                &&& r@ == word@.skip(k)
            },
    {
        if prefix_len >= str_byte_len(word) {
            String::new()
        } else {
            let chars = chars_of(word);
            let k = chars_for_bytes(&chars, prefix_len);
            let r = string_of_range(chars.as_slice(), k, chars.len());
            assert(chars@.subrange(k as int, chars@.len() as int) =~= chars@.skip(k as int));
            r
        }
    }

    /// Number of maximal runs of vowel codes in `phonemes`.
    pub fn count_vowel_groups(phonemes: &str) -> (n: i32)
        requires
            vowel_groups(phonemes@) <= i32::MAX,
        ensures
            n as int == vowel_groups(phonemes@),
    {
        let chars = chars_of(phonemes);
        let ghost s = chars@;
        let mut count: i32 = 0;
        let mut in_vowel_group = false;
        let mut i: usize = 0;
        while i < chars.len()
            invariant
                s == chars@,
                vowel_groups(s) <= i32::MAX,
                i <= s.len(),
                count as int == vowel_groups(s.take(i as int)),
                in_vowel_group == (i > 0 && is_vowel_code(s[i - 1])),
            decreases s.len() - i,
        {
            proof {
                assert(s.take(i + 1).drop_last() =~= s.take(i as int));
                lemma_vowel_groups_prefix(s, i + 1, s.len() as int);
                lemma_vowel_groups_prefix(s, i as int, i + 1);
                assert(s.take(s.len() as int) =~= s);
            }
            if Self::is_vowel_code(chars[i]) {
                if !in_vowel_group {
                    count += 1;
                    in_vowel_group = true;
                }
            } else {
                in_vowel_group = false;
            }
            i += 1;
        }
        assert(s.take(s.len() as int) =~= s);
        count
    }

    /// The number of primary and of secondary stress marks in `phonemes`,
    /// a mark that directly follows another one not counted.
    pub fn count_stress_marks(phonemes: &str) -> (r: (i32, i32))
        requires
            marks_counted(phonemes@, '\'') <= i32::MAX,
            marks_counted(phonemes@, ',') <= i32::MAX,
        ensures
            r.0 as int == marks_counted(phonemes@, '\''),
            r.1 as int == marks_counted(phonemes@, ','),
    {
        let chars = chars_of(phonemes);
        let ghost s = chars@;
        let mut primary: i32 = 0;
        let mut secondary: i32 = 0;
        let mut prev_was_stress = false;
        let mut i: usize = 0;
        while i < chars.len()
            invariant
                s == chars@,
                marks_counted(s, '\'') <= i32::MAX,
                marks_counted(s, ',') <= i32::MAX,
                i <= s.len(),
                primary as int == marks_counted(s.take(i as int), '\''),
                secondary as int == marks_counted(s.take(i as int), ','),
                prev_was_stress == (i > 0 && is_stress_mark(s[i - 1])),
            decreases s.len() - i,
        {
            proof {
                assert(s.take(i + 1).drop_last() =~= s.take(i as int));
                assert(s.take(s.len() as int) =~= s);
                lemma_marks_counted_prefix(s, '\'', i + 1, s.len() as int);
                lemma_marks_counted_prefix(s, ',', i + 1, s.len() as int);
                lemma_marks_counted_prefix(s, '\'', i as int, i + 1);
                lemma_marks_counted_prefix(s, ',', i as int, i + 1);
            }
            let c = chars[i];
            if c == '\'' {
                if !prev_was_stress {
                    primary += 1;
                    prev_was_stress = true;
                }
            } else if c == ',' {
                if !prev_was_stress {
                    secondary += 1;
                    prev_was_stress = true;
                }
            } else {
                prev_was_stress = false;
            }
            i += 1;
        }
        assert(s.take(s.len() as int) =~= s);
        (primary, secondary)
    }

    /// Combined stress of a compound's prefix and suffix: a stressed
    /// prefix is demoted to secondary stress when the suffix is stressed
    /// too, and a monosyllabic suffix loses its stress (see
    /// `compound_stress`).
    pub fn apply_compound_stress(prefix_phonemes: &str, suffix_phonemes: &str) -> (r: (String, String))
        requires
            vowel_groups(prefix_phonemes@) <= i32::MAX,
            vowel_groups(suffix_phonemes@) <= i32::MAX,
            marks_counted(prefix_phonemes@, '\'') <= i32::MAX,
            marks_counted(prefix_phonemes@, ',') <= i32::MAX,
            marks_counted(suffix_phonemes@, '\'') <= i32::MAX,
            marks_counted(suffix_phonemes@, ',') <= i32::MAX,
        ensures
            (r.0@, r.1@) == compound_stress(prefix_phonemes@, suffix_phonemes@),
    {
        let prefix_vowels = Self::count_vowel_groups(prefix_phonemes);
        let suffix_vowels = Self::count_vowel_groups(suffix_phonemes);
        let (prefix_primary, prefix_secondary) = Self::count_stress_marks(prefix_phonemes);
        let (suffix_primary, suffix_secondary) = Self::count_stress_marks(suffix_phonemes);
        let mut new_prefix = owned(prefix_phonemes);
        let mut new_suffix = owned(suffix_phonemes);
        let prefix_stressed = prefix_primary > 0 || prefix_secondary > 0;
        let suffix_stressed = suffix_primary > 0 || suffix_secondary > 0;
        if prefix_stressed && suffix_stressed {
            new_prefix = Self::demote_primary_to_secondary(new_prefix.as_str());
        }
        if suffix_vowels == 1 || (prefix_vowels == 1 && suffix_primary > 0) {
            new_suffix = Self::remove_all_stress(new_suffix.as_str());
        }
        (new_prefix, new_suffix)
    }

    /// `phonemes` with its first primary mark made secondary.
    fn demote_primary_to_secondary(phonemes: &str) -> (r: String)
        ensures
            r@ == first_primary_demoted(phonemes@),
    {
        let chars = chars_of(phonemes);
        let ghost s = chars@;
        let mut result = String::new();
        let mut done = false;
        let mut i: usize = 0;
        assert(s.skip(0) =~= s);
        while i < chars.len()
            invariant
                s == chars@,
                i <= s.len(),
                done == exists|j: int| 0 <= j < i && s[j] == '\'',
                first_primary_demoted(s) == result@ + (if done {
                    s.skip(i as int)
                } else {
                    first_primary_demoted(s.skip(i as int))
                }),
            decreases s.len() - i,
        {
            let c = chars[i];
            proof {
                assert(s.skip(i as int).drop_first() =~= s.skip(i + 1));
                assert(s.skip(i as int) =~= seq![c] + s.skip(i + 1));
                assert(s.take(i + 1) =~= s.take(i as int).push(c));
            }
            if c == '\'' && !done {
                push_char(&mut result, ',');
                done = true;
                assert(s[i as int] == '\'');
            } else {
                push_char(&mut result, c);
            }
            i += 1;
        }
        proof {
            assert(s.skip(s.len() as int) =~= Seq::<char>::empty());
            assert(result@ + Seq::<char>::empty() =~= result@);
        }
        result
    }

    /// `phonemes` without stress marks (`'`, `,` and `%`).
    fn remove_all_stress(phonemes: &str) -> (r: String)
        ensures
            r@ == stress_removed(phonemes@),
    {
        let chars = chars_of(phonemes);
        let ghost s = chars@;
        let mut result = String::new();
        let mut i: usize = 0;
        while i < chars.len()
            invariant
                s == chars@,
                i <= s.len(),
                result@ == stress_removed(s.take(i as int)),
            decreases s.len() - i,
        {
            let c = chars[i];
            proof {
                reveal_with_fuel(Seq::<char>::filter, 1);
                assert(s.take(i + 1).drop_last() =~= s.take(i as int));
            }
            if c != '\'' && c != ',' && c != '%' {
                push_char(&mut result, c);
            }
            i += 1;
        }
        assert(s.take(s.len() as int) =~= s);
        result
    }

    fn is_vowel_code(c: char) -> (r: bool)
        ensures
            r == is_vowel_code(c),
    {
        c == 'a' || c == 'e' || c == 'i' || c == 'o' || c == 'u' || c == 'A' || c == 'E'
            || c == 'I' || c == 'O' || c == 'U' || c == '@' || c == '3'
    }
}

/// The past-tense ending depends on the stem's last letter, lowercased:
/// a suffix holding neither `d` nor `t` is never changed; after one of
/// the voiceless consonants `p`, `k`, `f`, `s`, `x`, `θ` the ending is
/// exactly `t`; after `t`, `d` or any other (voiced) consonant letter it
/// is exactly `I#d`; after a vowel letter or a non-letter, or with an
/// empty stem, the suffix is kept.
pub proof fn lemma_ed_ending_by_last_letter(stem: Seq<char>, suffix: Seq<char>)
    ensures
        !suffix.contains('d') && !suffix.contains('t') ==> devoiced(stem, suffix) == suffix,
        (suffix.contains('d') || suffix.contains('t')) && stem.len() > 0 ==> {
            let lc = ascii_lower(stem.last());
            &&& (lc == 'p' || lc == 'k' || lc == 'f' || lc == 's' || lc == 'x' || lc == 'θ')
                ==> devoiced(stem, suffix) == seq!['t']
            &&& (lc == 't' || lc == 'd') ==> devoiced(stem, suffix) == seq!['I', '#', 'd']
            &&& (is_unicode_alphabetic(lc) && !is_vowel_letter(lc) && !(lc == 'p' || lc == 'k' || lc == 'f'
                || lc == 's' || lc == 'x' || lc == 'θ')) ==> devoiced(stem, suffix) == seq!['I', '#', 'd']
            &&& (is_vowel_letter(lc) || !is_unicode_alphabetic(lc)) && lc != 't' && lc != 'd'
                && !(lc == 'p' || lc == 'k' || lc == 'f' || lc == 's' || lc == 'x' || lc == 'θ')
                ==> devoiced(stem, suffix) == suffix
        },
        stem.len() == 0 ==> devoiced(stem, suffix) == suffix,
{
}

/// With the `y` flag, a stem ending in `i` comes back with that `i` turned
/// into `y` and nothing else changed (`happi` gives `happy`): a final `y`
/// is a vowel letter, so neither undoubling nor a silent `e` applies.
/// Without the flag, and without the silent-`e` flag, restoring at most
/// drops the stem's last character.
pub proof fn lemma_restore_y(s: Seq<char>, flags: SuffixFlags)
    ensures
        flags.restore_y && s.len() > 0 && s.last() == 'i' ==> restored_stem(s, flags) == s.drop_last().push('y'),
        !flags.restore_y && !flags.add_e ==> restored_stem(s, flags) == s || restored_stem(s, flags)
            == s.drop_last(),
{
    if flags.restore_y && s.len() > 0 && s.last() == 'i' {
        let t = s.drop_last().push('y');
        assert(t[t.len() - 1] == 'y');
        assert(is_vowel_letter('y'));
        assert(!is_consonant_letter(t[t.len() - 1]));
        assert(!ends_doubled(t));
    }
}

/// A silent `e` comes back only after a vowel letter followed by a
/// consonant letter. Taking `t` as the stem after the `y` and undoubling
/// steps, the restored stem is `t` itself or `t` with an `e` appended, and
/// the `e` is appended only when the flag asks for it and `t` ends in a
/// vowel letter followed by a consonant letter; so a stem ending in two
/// consonants, such as `help`, comes back unchanged. When the flag is set,
/// `t` ends in a vowel letter and a consonant letter and has two bytes or
/// more, the `e` is appended.
pub proof fn lemma_silent_e_after_vowel_consonant(s: Seq<char>, flags: SuffixFlags)
    ensures
        ({
            let t = stem_undoubled(stem_with_y(s, flags));
            let r = restored_stem(s, flags);
            &&& r == t || r == t.push('e')
            &&& r != t ==> flags.add_e && t.len() >= 2 && is_vowel_letter(t[t.len() - 2])
                && is_consonant_letter(t[t.len() - 1])
            &&& t.len() >= 2 && is_consonant_letter(t[t.len() - 2]) ==> r == t
            &&& flags.add_e && byte_len(t) >= 2 && t.len() >= 2 && is_vowel_letter(t[t.len() - 2])
                && is_consonant_letter(t[t.len() - 1]) ==> r == t.push('e')
        }),
{
    let t = stem_undoubled(stem_with_y(s, flags));
    assert(t.push('e') != t) by {
        assert(t.push('e').len() != t.len());
    }
    if t.len() >= 2 && is_consonant_letter(t[t.len() - 2]) {
        assert(!is_vowel_letter(t[t.len() - 2]));
    }
}

/// A monosyllabic prefix takes the stress off a stressed suffix: when the
/// prefix has a single vowel group and the suffix a counted primary mark,
/// the suffix comes back with every stress mark (`'`, `,`, `%`) removed,
/// whatever marks the prefix carries. A suffix with a single vowel group
/// loses its stress marks in the same way, whatever the prefix. In every
/// other case the suffix comes back unchanged, and the prefix comes back
/// unchanged unless both parts carry a counted stress mark.
pub proof fn lemma_compound_suffix_unstressed(prefix: Seq<char>, suffix: Seq<char>)
    ensures
        (vowel_groups(prefix) == 1 && marks_counted(suffix, '\'') > 0) || vowel_groups(suffix) == 1
            ==> compound_stress(prefix, suffix).1 == suffix.filter(|c: char| c != '\'' && c != ',' && c != '%'),
        !((vowel_groups(prefix) == 1 && marks_counted(suffix, '\'') > 0) || vowel_groups(suffix) == 1)
            ==> compound_stress(prefix, suffix).1 == suffix,
        !((marks_counted(prefix, '\'') > 0 || marks_counted(prefix, ',') > 0) && (marks_counted(suffix, '\'') > 0
            || marks_counted(suffix, ',') > 0)) ==> compound_stress(prefix, suffix).0 == prefix,
{
    assert(suffix.filter(|c: char| c != '\'' && c != ',' && c != '%') =~= stress_removed(suffix)) by {
        let f1 = |c: char| c != '\'' && c != ',' && c != '%';
        let f2 = |c: char| !is_any_stress_mark(c);
        assert(f1 =~= f2);
    }
}

/// When both parts of a compound are stressed, the prefix's first primary
/// mark turns secondary and nothing else in it changes: the result has the
/// prefix's length, a `,` where the prefix had its first `'`, and every
/// other character as in the prefix.
pub proof fn lemma_compound_prefix_demoted(prefix: Seq<char>, suffix: Seq<char>, j: int)
    requires
        marks_counted(prefix, '\'') > 0 || marks_counted(prefix, ',') > 0,
        marks_counted(suffix, '\'') > 0 || marks_counted(suffix, ',') > 0,
        0 <= j < prefix.len(),
        prefix[j] == '\'',
        forall|i: int| 0 <= i < j ==> prefix[i] != '\'',
    ensures
        compound_stress(prefix, suffix).0.len() == prefix.len(),
        compound_stress(prefix, suffix).0[j] == ',',
        forall|i: int| 0 <= i < prefix.len() && i != j ==> #[trigger] compound_stress(prefix, suffix).0[i] == prefix[i],
{
    lemma_first_primary_demoted_at(prefix, j);
}

proof fn lemma_first_primary_demoted_at(s: Seq<char>, j: int)
    requires
        0 <= j < s.len(),
        s[j] == '\'',
        forall|i: int| 0 <= i < j ==> s[i] != '\'',
    ensures
        first_primary_demoted(s).len() == s.len(),
        first_primary_demoted(s)[j] == ',',
        forall|i: int| 0 <= i < s.len() && i != j ==> #[trigger] first_primary_demoted(s)[i] == s[i],
    decreases s.len(),
{
    if j == 0 {
        assert(first_primary_demoted(s) =~= seq![','] + s.drop_first());
    } else {
        let d = s.drop_first();
        assert(s[0] != '\'');
        lemma_first_primary_demoted_at(d, j - 1);
        assert(first_primary_demoted(s) == seq![s[0]] + first_primary_demoted(d));
    }
}

} // verus!
