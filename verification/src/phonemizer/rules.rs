//! Scoring rule matches and small helpers for applying rules.
use vstd::prelude::*;
use crate::types::PhonemeRule;
use crate::text::{
    ascii_lower, char_is_whitespace, chars_of, is_unicode_whitespace, lower_all, push_char, str_has,
    string_of_range, to_ascii_lower,
};

verus! {

/// Result of matching a single rule at a position.
#[derive(Debug, Clone)]
pub struct RuleMatch {
    pub phonemes: String,
    pub advance: usize,
    pub score: i32,
}

/// Matching pronunciation rules at positions of a word.
pub trait RuleMatcher {
    /// Try to match a rule at the given position in the word.
    fn match_rule_at_pos(&self, rule: &PhonemeRule, chars: &[char], pos: usize, word: &str) -> Option<RuleMatch>;
}

/// Matching the left and right contexts of rules.
pub trait ContextMatcher {
    /// Whether the left context of a rule matches at the given position.
    fn check_left_context(&self, rule: &PhonemeRule, chars: &[char], match_pos: usize) -> bool;

    /// Whether the right context of a rule matches at the given position,
    /// and how many letters it deletes forward.
    fn check_right_context(&self, rule: &PhonemeRule, chars: &[char], match_end: usize, word: &str) -> (bool, i32);
}

/// The score of a rule match: one point, 21 more for each matched letter
/// beyond the first (the letter count taken as an `i32`, as the scorer
/// computes it), 100 for matching two letters or more, 5 at the start
/// of the word, 3 at its end, 20 for a left context holding a word
/// boundary (10 for another left context), and 20 for a right context
/// holding a word boundary (8 for another right context without `S`).
pub open spec fn match_score(
    match_len: int,
    pos: int,
    total_len: int,
    left_ctx: Seq<char>,
    right_ctx: Seq<char>,
    has_left_context: bool,
    has_right_context: bool,
) -> int {
    let m: int = (match_len as i32) as int;
    let extra: int = if m > 1 { (m - 1) * 21 } else { 0 };
    let two: int = if match_len >= 2 { 100 } else { 0 };
    let start: int = if pos == 0 { 5 } else { 0 };
    let end: int = if pos + match_len >= total_len { 3 } else { 0 };
    let left: int = if has_left_context {
        if left_ctx.contains('_') { 20 } else { 10 }
    } else {
        0
    };
    let right: int = if has_right_context {
        if right_ctx.contains('_') {
            20
        } else if !right_ctx.contains('S') {
            8
        } else {
            0
        }
    } else {
        0
    };
    1 + extra + two + start + end + left + right
}

/// Scoring of rule matches; higher scores are preferred.
pub struct MatchScorer;

impl MatchScorer {
    /// The score of a match of `match_len` letters at `pos` in a word of
    /// `total_len` letters (see `match_score`).
    pub fn score_match(
        match_len: usize,
        pos: usize,
        total_len: usize,
        rule: &PhonemeRule,
        has_left_context: bool,
        has_right_context: bool,
    ) -> (score: i32)
        requires
            match_len as i32 != i32::MIN,
            pos + match_len <= usize::MAX,
            match_score(
                match_len as int,
                pos as int,
                total_len as int,
                rule.left_ctx@,
                rule.right_ctx@,
                has_left_context,
                has_right_context,
            ) <= i32::MAX,
        ensures
            score as int == match_score(
                match_len as int,
                pos as int,
                total_len as int,
                rule.left_ctx@,
                rule.right_ctx@,
                has_left_context,
                has_right_context,
            ),
    {
        let m: i32 = match_len as i32;
        let extra_chars: i32 = if m - 1 > 0 {
            (m - 1) * 21
        } else {
            0
        };
        let mut score: i32 = 1 + extra_chars;
        if match_len >= 2 {
            score += 100;
        }
        if pos == 0 {
            score += 5;
        }
        if pos + match_len >= total_len {
            score += 3;
        }
        if has_left_context {
            if str_has(rule.left_ctx.as_str(), '_') {
                score += 20;
            } else {
                score += 10;
            }
        }
        if has_right_context {
            if str_has(rule.right_ctx.as_str(), '_') {
                score += 20;
            } else if !str_has(rule.right_ctx.as_str(), 'S') {
                score += 8;
            }
        }
        score
    }

    /// Whether a score stands for a valid match.
    pub fn is_valid_match(score: i32) -> (r: bool)
        ensures
            r == (score >= 0),
    {
        score >= 0
    }
}

/// The phoneme characters that count as vowels.
pub open spec fn is_vowel_phoneme_char(c: char) -> bool {
    c == 'a' || c == 'e' || c == 'i' || c == 'o' || c == 'u' || c == 'y' || c == 'A' || c == 'E'
        || c == 'I' || c == 'O' || c == 'U' || c == '@' || c == '3' || c == '0'
}

/// Vowel letters, in either ASCII case, `y` included.
pub open spec fn is_vowel_letter_char(c: char) -> bool {
    let l = ascii_lower(c);
    l == 'a' || l == 'e' || l == 'i' || l == 'o' || l == 'u' || l == 'y'
}

/// First index at or after `i` that is not whitespace (or the length).
pub open spec fn skip_space(s: Seq<char>, i: int) -> int
    decreases s.len() - i,
{
    if 0 <= i < s.len() && is_unicode_whitespace(s[i]) {
        skip_space(s, i + 1)
    } else {
        i
    }
}

/// Smallest end `k <= j` such that `s[k..j]` is all whitespace.
pub open spec fn trim_end(s: Seq<char>, j: int) -> int
    decreases j,
{
    if 0 < j <= s.len() && is_unicode_whitespace(s[j - 1]) {
        trim_end(s, j - 1)
    } else {
        j
    }
}

/// `s` without its leading and trailing whitespace.
pub open spec fn trimmed(s: Seq<char>) -> Seq<char> {
    let start = skip_space(s, 0);
    if start >= s.len() {
        Seq::empty()
    } else {
        s.subrange(start, trim_end(s, s.len() as int))
    }
}

/// End of the run of non-whitespace characters starting at `i`.
pub open spec fn word_end(s: Seq<char>, i: int) -> int
    decreases s.len() - i,
{
    if 0 <= i < s.len() && !is_unicode_whitespace(s[i]) {
        word_end(s, i + 1)
    } else {
        i
    }
}

/// The maximal runs of non-whitespace characters of `s[i..]`.
pub open spec fn words_from(s: Seq<char>, i: int) -> Seq<Seq<char>>
    decreases s.len() - i,
{
    if i < 0 || i >= s.len() {
        Seq::empty()
    } else if is_unicode_whitespace(s[i]) {
        words_from(s, i + 1)
    } else {
        let e = word_end(s, i);
        if e <= i || e > s.len() {
            Seq::empty()
        } else {
            seq![s.subrange(i, e)] + words_from(s, e)
        }
    }
}

proof fn lemma_skip_space(s: Seq<char>, i: int)
    requires
        0 <= i <= s.len(),
    ensures
        i <= skip_space(s, i) <= s.len(),
        skip_space(s, i) < s.len() ==> !is_unicode_whitespace(s[skip_space(s, i)]),
    decreases s.len() - i,
{
    if i < s.len() && is_unicode_whitespace(s[i]) {
        lemma_skip_space(s, i + 1);
    }
}

proof fn lemma_trim_end(s: Seq<char>, j: int, lo: int)
    requires
        0 <= lo < j <= s.len(),
        !is_unicode_whitespace(s[lo]),
    ensures
        lo < trim_end(s, j) <= j,
        !is_unicode_whitespace(s[trim_end(s, j) - 1]),
    decreases j,
{
    if is_unicode_whitespace(s[j - 1]) {
        lemma_trim_end(s, j - 1, lo);
    }
}

proof fn lemma_trim_end_le(s: Seq<char>, j: int)
    ensures
        trim_end(s, j) <= j,
    decreases j,
{
    if 0 < j <= s.len() && is_unicode_whitespace(s[j - 1]) {
        lemma_trim_end_le(s, j - 1);
    }
}

proof fn lemma_word_end(s: Seq<char>, i: int)
    requires
        0 <= i <= s.len(),
    ensures
        i <= word_end(s, i) <= s.len(),
    decreases s.len() - i,
{
    if i < s.len() && !is_unicode_whitespace(s[i]) {
        lemma_word_end(s, i + 1);
    }
}

/// Every score is a valid match score: scores are at least 1.
pub proof fn lemma_scores_are_valid(
    match_len: int,
    pos: int,
    total_len: int,
    left_ctx: Seq<char>,
    right_ctx: Seq<char>,
    has_left_context: bool,
    has_right_context: bool,
)
    ensures
        match_score(match_len, pos, total_len, left_ctx, right_ctx, has_left_context, has_right_context) >= 1,
{
}

/// Trimming a trimmed string changes nothing.
pub proof fn lemma_trim_idempotent(s: Seq<char>)
    ensures
        trimmed(trimmed(s)) == trimmed(s),
{
    lemma_skip_space(s, 0);
    let a = skip_space(s, 0);
    if a < s.len() {
        lemma_trim_end(s, s.len() as int, a);
        let b = trim_end(s, s.len() as int);
        let t = s.subrange(a, b);
        assert(t[0] == s[a]);
        assert(t[t.len() - 1] == s[b - 1]);
        assert(skip_space(t, 0) == 0);
        assert(trim_end(t, t.len() as int) == t.len());
        assert(t.subrange(0, t.len() as int) =~= t);
    } else {
        assert(trimmed(Seq::<char>::empty()) =~= Seq::<char>::empty());
    }
}

/// A trimmed string neither starts nor ends with whitespace.
pub proof fn lemma_trimmed_ends(s: Seq<char>)
    ensures
        trimmed(s).len() > 0 ==> !is_unicode_whitespace(trimmed(s)[0]) && !is_unicode_whitespace(
            trimmed(s).last(),
        ),
{
    lemma_skip_space(s, 0);
    let a = skip_space(s, 0);
    if a < s.len() {
        lemma_trim_end(s, s.len() as int, a);
    }
}

/// The words split off a string are non-empty and hold no whitespace.
pub proof fn lemma_words_are_solid(s: Seq<char>, i: int)
    requires
        0 <= i,
    ensures
        forall|k: int| 0 <= k < words_from(s, i).len() ==> (#[trigger] words_from(s, i)[k]).len() > 0
            && forall|j: int| 0 <= j < words_from(s, i)[k].len() ==> !is_unicode_whitespace(words_from(s, i)[k][j]),
    decreases s.len() - i,
{
    if i < s.len() {
        if is_unicode_whitespace(s[i]) {
            lemma_words_are_solid(s, i + 1);
            assert(words_from(s, i) == words_from(s, i + 1));
        } else {
            lemma_word_end(s, i);
            let e = word_end(s, i);
            if e > i {
                lemma_words_are_solid(s, e);
                lemma_word_end_solid(s, i);
                let w = words_from(s, i);
                assert forall|k: int| 0 <= k < w.len() implies (#[trigger] w[k]).len() > 0
                    && forall|j: int| 0 <= j < w[k].len() ==> !is_unicode_whitespace(w[k][j]) by {
                    if k == 0 {
                        assert(w[0] == s.subrange(i, e));
                        assert forall|j: int| 0 <= j < w[0].len() implies !is_unicode_whitespace(w[0][j]) by {
                            assert(w[0][j] == s[i + j]);
                        }
                    } else {
                        assert(w[k] == words_from(s, e)[k - 1]);
                    }
                }
            }
        }
    }
}

proof fn lemma_word_end_solid(s: Seq<char>, i: int)
    requires
        0 <= i <= s.len(),
    ensures
        forall|j: int| i <= j < word_end(s, i) ==> !is_unicode_whitespace(#[trigger] s[j]),
    decreases s.len() - i,
{
    if i < s.len() && !is_unicode_whitespace(s[i]) {
        lemma_word_end_solid(s, i + 1);
    }
}

/// Lowering ASCII case twice is lowering it once.
pub proof fn lemma_lower_idempotent(s: Seq<char>)
    ensures
        lower_all(lower_all(s)) == lower_all(s),
{
    assert forall|i: int| 0 <= i < s.len() implies ascii_lower(ascii_lower(s[i])) == ascii_lower(s[i]) by {
        let c = s[i];
        if crate::text::is_ascii_upper(c) {
            let u = c as u32;
            assert(65 <= u <= 90);
            let l = ((u + 32) as u32) as char;
            assert(l as u32 == u + 32);
            assert(!crate::text::is_ascii_upper(l));
        }
    }
    assert(lower_all(lower_all(s)) =~= lower_all(s));
}

/// Helpers used when applying rules.
pub struct RuleApplier;

impl RuleApplier {
    /// Whether a character is a vowel in phoneme notation.
    pub fn is_vowel_phoneme(phoneme: char) -> (r: bool)
        ensures
            r == is_vowel_phoneme_char(phoneme),
    {
        phoneme == 'a' || phoneme == 'e' || phoneme == 'i' || phoneme == 'o' || phoneme == 'u'
            || phoneme == 'y' || phoneme == 'A' || phoneme == 'E' || phoneme == 'I'
            || phoneme == 'O' || phoneme == 'U' || phoneme == '@' || phoneme == '3'
            || phoneme == '0'
    }

    /// Whether a character is a vowel letter (`y` included), in either case.
    pub fn is_vowel_letter(c: char) -> (r: bool)
        ensures
            r == is_vowel_letter_char(c),
    {
        let c = to_ascii_lower(c);
        c == 'a' || c == 'e' || c == 'i' || c == 'o' || c == 'u' || c == 'y'
    }

    /// `s` with its ASCII capitals (the ASCII characters that are
    /// uppercase) made small; every other character is kept.
    pub fn to_lower_ascii(s: &str) -> (r: String)
        ensures
            r@ == lower_all(s@),
    {
        let chars = chars_of(s);
        let mut r = String::new();
        let mut i: usize = 0;
        while i < chars.len()
            invariant
                chars@ == s@,
                i <= chars@.len(),
                r@ == lower_all(chars@).take(i as int),
            decreases chars.len() - i,
        {
            let c = to_ascii_lower(chars[i]);
            push_char(&mut r, c);
            assert(lower_all(chars@).take(i + 1) =~= lower_all(chars@).take(i as int).push(c));
            i += 1;
        }
        assert(lower_all(chars@).take(chars@.len() as int) =~= lower_all(chars@));
        r
    }

    /// `s` without leading and trailing whitespace.
    pub fn trim(s: &str) -> (r: String)
        ensures
            r@ == trimmed(s@),
    {
        let chars = chars_of(s);
        let ghost v = chars@;
        let mut start: usize = 0;
        while start < chars.len() && char_is_whitespace(chars[start])
            invariant
                v == chars@,
                start <= v.len(),
                skip_space(v, 0) == skip_space(v, start as int),
            decreases v.len() - start,
        {
            start += 1;
        }
        if start >= chars.len() {
            return String::new();
        }
        let mut end: usize = chars.len();
        proof {
            lemma_trim_end(v, v.len() as int, start as int);
        }
        while end > start && char_is_whitespace(chars[end - 1])
            invariant
                v == chars@,
                start < v.len(),
                !is_unicode_whitespace(v[start as int]),
                start <= end <= v.len(),
                trim_end(v, v.len() as int) == trim_end(v, end as int),
                start < trim_end(v, v.len() as int) <= end,
            decreases end,
        {
            proof {
                lemma_trim_end_le(v, end - 1);
            }
            end -= 1;
        }
        assert(end as int == trim_end(v, v.len() as int));
        assert(start as int == skip_space(v, 0));
        string_of_range(chars.as_slice(), start, end)
    }

    /// The maximal runs of non-whitespace characters of `s`, in order.
    pub fn split_ws(s: &str) -> (r: Vec<String>)
        ensures
            r@.map_values(|w: String| w@) == words_from(s@, 0),
    {
        let chars = chars_of(s);
        let ghost v = chars@;
        let mut r: Vec<String> = Vec::new();
        let mut i: usize = 0;
        while i < chars.len()
            invariant
                v == chars@,
                v == s@,
                i <= v.len(),
                words_from(v, 0) == r@.map_values(|w: String| w@) + words_from(v, i as int),
            decreases v.len() - i,
        {
            if char_is_whitespace(chars[i]) {
                i += 1;
            } else {
                let start = i;
                proof {
                    lemma_word_end(v, i as int);
                }
                while i < chars.len() && !char_is_whitespace(chars[i])
                    invariant
                        v == chars@,
                        start <= i <= v.len(),
                        word_end(v, start as int) == word_end(v, i as int),
                    decreases v.len() - i,
                {
                    i += 1;
                }
                let w = string_of_range(chars.as_slice(), start, i);
                let ghost before = r@.map_values(|w: String| w@);
                r.push(w);
                proof {
                    assert(r@.map_values(|w: String| w@) =~= before.push(v.subrange(start as int, i as int)));
                    assert(words_from(v, start as int) =~= seq![v.subrange(start as int, i as int)] + words_from(v, i as int));
                }
            }
        }
        proof {
            assert(words_from(v, i as int) =~= Seq::<Seq<char>>::empty());
        }
        r
    }
}

} // verus!
