//! Placing stress marks in phoneme strings.
//!
//! In phoneme notation `'` marks primary stress, `,` secondary stress and
//! `%` an unstressed syllable; a mark stands before the vowel it applies to.
use vstd::prelude::*;
use crate::text::{chars_of, push_char, slice_has};

verus! {

/// Stress placement configuration.
#[derive(Debug, Clone, Copy)]
pub struct StressConfig {
    pub use_stress_dict: bool,
    pub use_final_stress: bool,
    pub default_to_final: bool,
}

impl StressConfig {
    /// Stress dictionary and final stress on, defaulting to final stress off.
    pub fn new() -> (c: Self)
        ensures
            c.use_stress_dict,
            c.use_final_stress,
            !c.default_to_final,
    {
        Self { use_stress_dict: true, use_final_stress: true, default_to_final: false }
    }
}

impl Default for StressConfig {
    fn default() -> (c: Self)
        ensures
            c.use_stress_dict,
            c.use_final_stress,
            !c.default_to_final,
    {
        Self::new()
    }
}

/// Kinds of stress marks.
#[derive(Debug, Clone, Copy, PartialEq, Eq)]
pub enum StressPlace {
    /// Primary stress (ˈ)
    Primary,
    /// Secondary stress (ˌ)
    Secondary,
    /// Unstressed (ˏ)
    Unstressed,
    /// No stress marker
    Unmarked,
}

/// The phoneme characters that count as vowels for stress placement.
pub open spec fn is_stress_vowel(c: char) -> bool {
    c == 'a' || c == 'e' || c == 'i' || c == 'o' || c == 'u' || c == 'y' || c == 'A' || c == 'E'
        || c == 'I' || c == 'O' || c == 'U' || c == '@' || c == '3' || c == '0'
}

/// A primary stress mark turned into a secondary one; other characters
/// are unchanged.
pub open spec fn demoted(c: char) -> char {
    if c == '\'' {
        ','
    } else {
        c
    }
}

/// Index of the `n`-th vowel (counting from 1) of `s` at or after `i`, or
/// -1 when there is none.
pub open spec fn nth_vowel_from(s: Seq<char>, i: int, n: int) -> int
    decreases s.len() - i,
{
    if i < 0 || i >= s.len() {
        -1
    } else if is_stress_vowel(s[i]) {
        if n == 1 {
            i
        } else {
            nth_vowel_from(s, i + 1, n - 1)
        }
    } else {
        nth_vowel_from(s, i + 1, n)
    }
}

/// Index of the last vowel of `s[..i]`, or -1 when there is none.
pub open spec fn last_vowel_before(s: Seq<char>, i: int) -> int
    decreases i,
{
    if i <= 0 {
        -1
    } else if is_stress_vowel(s[i - 1]) {
        i - 1
    } else {
        last_vowel_before(s, i - 1)
    }
}

/// `s` with a primary stress mark inserted at index `t`.
pub open spec fn mark_at(s: Seq<char>, t: int) -> Seq<char> {
    s.take(t) + seq!['\''] + s.skip(t)
}

/// Primary stress on the `pos`-th vowel (counting from 1), every other
/// primary mark demoted to secondary; `s` unchanged when there is no such
/// vowel.
pub open spec fn stress_at_position(s: Seq<char>, pos: int) -> Seq<char> {
    let t = nth_vowel_from(s, 0, pos);
    if t < 0 {
        s
    } else {
        mark_at(s.map_values(|c: char| demoted(c)), t)
    }
}

/// A primary stress mark before the last vowel; `s` unchanged when it has
/// no vowel.
pub open spec fn stress_final(s: Seq<char>) -> Seq<char> {
    let t = last_vowel_before(s, s.len() as int);
    if t < 0 {
        s
    } else {
        mark_at(s, t)
    }
}

/// Whether `s` holds a primary or secondary stress mark.
pub open spec fn has_stress(s: Seq<char>) -> bool {
    s.contains('\'') || s.contains(',')
}

/// A primary stress mark before the first vowel when `s` holds no stress
/// mark; `s` unchanged when it is already stressed or has no vowel.
pub open spec fn stress_first(s: Seq<char>) -> Seq<char> {
    let t = nth_vowel_from(s, 0, 1);
    if has_stress(s) || t < 0 {
        s
    } else {
        mark_at(s, t)
    }
}

proof fn lemma_nth_vowel_bounds(s: Seq<char>, i: int, n: int)
    requires
        0 <= i,
    ensures
        nth_vowel_from(s, i, n) == -1 || (i <= nth_vowel_from(s, i, n) < s.len() && is_stress_vowel(
            s[nth_vowel_from(s, i, n)],
        )),
    decreases s.len() - i,
{
    if i < s.len() {
        lemma_nth_vowel_bounds(s, i + 1, if is_stress_vowel(s[i]) { n - 1 } else { n });
    }
}

proof fn lemma_last_vowel_bounds(s: Seq<char>, i: int)
    requires
        i <= s.len(),
    ensures
        last_vowel_before(s, i) == -1 || (0 <= last_vowel_before(s, i) < i && is_stress_vowel(
            s[last_vowel_before(s, i)],
        )),
    decreases i,
{
    if i > 0 {
        lemma_last_vowel_bounds(s, i - 1);
    }
}

/// Strategies for placing stress in phoneme strings.
pub trait StressProcessor {
    /// Apply stress at a specific vowel position (1-based).
    fn apply_stress_position(&self, phoneme_str: &str, pos: i32) -> String;

    /// Apply stress to the final vowel.
    fn apply_final_stress(&self, phoneme_str: &str) -> String;

    /// Process a phoneme string and apply appropriate stress.
    fn process_phoneme_string(&self, word: &str, phoneme_str: &str, force_final_stress: bool) -> String;

    /// Insert last-resort stress on the first vowel if no stress is present.
    fn insert_last_resort_stress(&self, phoneme_str: &str) -> String;
}

/// The default stress placement.
pub struct DefaultStressProcessor {
    #[allow(dead_code)]
    config: StressConfig,
}

impl DefaultStressProcessor {
    /// The processor's configuration.
    pub closed spec fn configuration(&self) -> StressConfig {
        self.config
    }

    /// A processor with the given configuration.
    pub fn new(config: StressConfig) -> (p: Self)
        ensures
            p.configuration() == config,
    {
        Self { config }
    }

    fn is_vowel_phoneme_char(ch: char) -> (r: bool)
        ensures
            r == is_stress_vowel(ch),
    {
        ch == 'a' || ch == 'e' || ch == 'i' || ch == 'o' || ch == 'u' || ch == 'y' || ch == 'A'
            || ch == 'E' || ch == 'I' || ch == 'O' || ch == 'U' || ch == '@' || ch == '3'
            || ch == '0'
    }

    #[allow(dead_code)]
    fn parse_stress_marker(ch: char) -> (p: StressPlace)
        ensures
            p == (if ch == '\'' {
                StressPlace::Primary
            } else if ch == ',' {
                StressPlace::Secondary
            } else if ch == '%' {
                StressPlace::Unstressed
            } else {
                StressPlace::Unmarked
            }),
    {
        match ch {
            '\'' => StressPlace::Primary,
            ',' => StressPlace::Secondary,
            '%' => StressPlace::Unstressed,
            _ => StressPlace::Unmarked,
        }
    }

    /// `chars` with a primary mark inserted at `t`, demoting the other
    /// primary marks when `demote` is set.
    fn insert_mark(chars: &Vec<char>, t: usize, demote: bool) -> (r: String)
        requires
            t < chars@.len(),
        ensures
            r@ == mark_at(
                if demote {
                    chars@.map_values(|c: char| demoted(c))
                } else {
                    chars@
                },
                t as int,
            ),
    {
        let ghost d = if demote {
            chars@.map_values(|c: char| demoted(c))
        } else {
            chars@
        };
        let mut result = String::new();
        let mut i: usize = 0;
        while i < chars.len()
            invariant
                t < chars@.len(),
                i <= chars@.len(),
                d.len() == chars@.len(),
                d == (if demote { chars@.map_values(|c: char| demoted(c)) } else { chars@ }),
                result@ == if i <= t {
                    d.take(i as int)
                } else {
                    mark_at(d, t as int).take(i + 1)
                },
            decreases chars.len() - i,
        {
            let ch = chars[i];
            let ghost before = result@;
            if i == t {
                push_char(&mut result, '\'');
            }
            if demote && ch == '\'' {
                push_char(&mut result, ',');
            } else {
                push_char(&mut result, ch);
            }
            proof {
                let m = mark_at(d, t as int);
                if i < t {
                    assert(d.take(i + 1) =~= d.take(i as int).push(d[i as int]));
                } else if i == t {
                    assert(m.take(i + 2) =~= d.take(i as int).push('\'').push(d[i as int]));
                } else {
                    assert(m.take(i + 2) =~= m.take(i + 1).push(d[i as int]));
                }
            }
            i += 1;
        }
        assert(mark_at(d, t as int).take(chars@.len() as int + 1) =~= mark_at(d, t as int));
        result
    }
}

impl StressProcessor for DefaultStressProcessor {
    fn apply_stress_position(&self, phoneme_str: &str, pos: i32) -> (r: String)
        ensures
            r@ == stress_at_position(phoneme_str@, pos as int),
    {
        let chars = chars_of(phoneme_str);
        let ghost s = chars@;
        if pos <= 0 || chars.len() == 0 {
            proof {
                if pos <= 0 {
                    lemma_nth_vowel_not_positive(s, 0, pos as int);
                }
            }
            return crate::text::owned(phoneme_str);
        }
        let mut vowel_count: i32 = 0;
        let mut target: Option<usize> = None;
        let mut i: usize = 0;
        while i < chars.len()
            invariant_except_break
                target.is_none(),
                0 <= vowel_count < pos,
                nth_vowel_from(s, 0, pos as int) == nth_vowel_from(s, i as int, pos - vowel_count),
            invariant
                s == chars@,
                i <= s.len(),
            ensures
                target matches Some(t) ==> t < s.len() && t as int == nth_vowel_from(s, 0, pos as int),
                target.is_none() ==> nth_vowel_from(s, 0, pos as int) == -1,
            decreases s.len() - i,
        {
            if Self::is_vowel_phoneme_char(chars[i]) {
                vowel_count += 1;
                if vowel_count == pos {
                    target = Some(i);
                    break;
                }
            }
            i += 1;
        }
        match target {
            None => crate::text::owned(phoneme_str),
            Some(t) => Self::insert_mark(&chars, t, true),
        }
    }

    fn apply_final_stress(&self, phoneme_str: &str) -> (r: String)
        ensures
            r@ == stress_final(phoneme_str@),
    {
        let chars = chars_of(phoneme_str);
        let ghost s = chars@;
        let mut last: Option<usize> = None;
        let mut i: usize = 0;
        while i < chars.len()
            invariant
                s == chars@,
                i <= s.len(),
                match last {
                    Some(t) => t < i && t as int == last_vowel_before(s, i as int),
                    None => last_vowel_before(s, i as int) == -1,
                },
            decreases s.len() - i,
        {
            if Self::is_vowel_phoneme_char(chars[i]) {
                last = Some(i);
            }
            i += 1;
        }
        match last {
            None => crate::text::owned(phoneme_str),
            Some(t) => Self::insert_mark(&chars, t, false),
        }
    }

    fn process_phoneme_string(&self, _word: &str, phoneme_str: &str, _force_final_stress: bool) -> (r: String)
        ensures
            r@ == phoneme_str@,
    {
        crate::text::owned(phoneme_str)
    }

    fn insert_last_resort_stress(&self, phoneme_str: &str) -> (r: String)
        ensures
            r@ == stress_first(phoneme_str@),
    {
        let chars = chars_of(phoneme_str);
        let ghost s = chars@;
        if slice_has(&chars, '\'') || slice_has(&chars, ',') {
            return crate::text::owned(phoneme_str);
        }
        let mut i: usize = 0;
        while i < chars.len()
            invariant
                s == chars@,
                s == phoneme_str@,
                !has_stress(s),
                i <= s.len(),
                nth_vowel_from(s, 0, 1) == nth_vowel_from(s, i as int, 1),
            decreases s.len() - i,
        {
            if Self::is_vowel_phoneme_char(chars[i]) {
                assert(nth_vowel_from(s, i as int, 1) == i as int);
                return Self::insert_mark(&chars, i, false);
            }
            i += 1;
        }
        crate::text::owned(phoneme_str)
    }
}

/// With no vowel left to find (`n` not positive), there is no `n`-th vowel.
proof fn lemma_nth_vowel_not_positive(s: Seq<char>, i: int, n: int)
    requires
        n <= 0,
    ensures
        nth_vowel_from(s, i, n) == -1,
    decreases s.len() - i,
{
    if 0 <= i < s.len() {
        lemma_nth_vowel_not_positive(s, i + 1, if is_stress_vowel(s[i]) { n - 1 } else { n });
    }
}

/// Number of occurrences of `c` in `s`.
pub open spec fn occurrences(s: Seq<char>, c: char) -> nat
    decreases s.len(),
{
    if s.len() == 0 {
        0
    } else {
        occurrences(s.drop_last(), c) + if s.last() == c {
            1nat
        } else {
            0nat
        }
    }
}

proof fn lemma_occurrences_concat(a: Seq<char>, b: Seq<char>, c: char)
    ensures
        occurrences(a + b, c) == occurrences(a, c) + occurrences(b, c),
    decreases b.len(),
{
    if b.len() == 0 {
        assert(a + b =~= a);
    } else {
        assert((a + b).drop_last() =~= a + b.drop_last());
        lemma_occurrences_concat(a, b.drop_last(), c);
    }
}

proof fn lemma_occurrences_absent(s: Seq<char>, c: char)
    requires
        forall|i: int| 0 <= i < s.len() ==> s[i] != c,
    ensures
        occurrences(s, c) == 0,
    decreases s.len(),
{
    if s.len() > 0 {
        assert(s.last() != c);
        lemma_occurrences_absent(s.drop_last(), c);
    }
}

proof fn lemma_mark_at_occurrences(s: Seq<char>, t: int)
    requires
        0 <= t <= s.len(),
    ensures
        occurrences(mark_at(s, t), '\'') == occurrences(s, '\'') + 1,
        mark_at(s, t).len() == s.len() + 1,
{
    let a = s.take(t);
    let b = s.skip(t);
    assert(s =~= a + b);
    lemma_occurrences_concat(a, b, '\'');
    lemma_occurrences_concat(a, seq!['\''], '\'');
    lemma_occurrences_concat(a + seq!['\''], b, '\'');
    reveal_with_fuel(occurrences, 2);
    assert(seq!['\''].drop_last() =~= Seq::<char>::empty());
}

/// Stressing a vowel by position leaves exactly one primary stress mark:
/// the one before that vowel.
pub proof fn lemma_position_stress_single_primary(s: Seq<char>, pos: int)
    requires
        nth_vowel_from(s, 0, pos) >= 0,
    ensures
        occurrences(stress_at_position(s, pos), '\'') == 1,
        stress_at_position(s, pos).len() == s.len() + 1,
        stress_at_position(s, pos)[nth_vowel_from(s, 0, pos)] == '\'',
{
    lemma_nth_vowel_bounds(s, 0, pos);
    let d = s.map_values(|c: char| demoted(c));
    assert forall|i: int| 0 <= i < d.len() implies d[i] != '\'' by {}
    lemma_occurrences_absent(d, '\'');
    lemma_mark_at_occurrences(d, nth_vowel_from(s, 0, pos));
}

/// Number of vowels of `s` at or after index `i`.
pub open spec fn vowels_from(s: Seq<char>, i: int) -> int
    decreases s.len() - i,
{
    if i < 0 || i >= s.len() {
        0
    } else {
        vowels_from(s, i + 1) + if is_stress_vowel(s[i]) {
            1int
        } else {
            0int
        }
    }
}

proof fn lemma_nth_vowel_exists(s: Seq<char>, i: int, n: int)
    requires
        0 <= i,
    ensures
        vowels_from(s, i) >= 0,
        (nth_vowel_from(s, i, n) >= 0) == (1 <= n <= vowels_from(s, i)),
    decreases s.len() - i,
{
    if i < s.len() {
        lemma_nth_vowel_exists(s, i + 1, if is_stress_vowel(s[i]) { n - 1 } else { n });
        lemma_nth_vowel_exists(s, i + 1, n);
    }
}

/// Stress by position counts vowels from 1: positions 1 to the number of
/// vowels each get exactly one primary stress mark before their vowel, and
/// any other position leaves the string unchanged.
pub proof fn lemma_position_stress_by_vowel_count(s: Seq<char>, pos: int)
    ensures
        1 <= pos <= vowels_from(s, 0) ==> occurrences(stress_at_position(s, pos), '\'') == 1
            && stress_at_position(s, pos)[nth_vowel_from(s, 0, pos)] == '\''
            && is_stress_vowel(s[nth_vowel_from(s, 0, pos)]),
        !(1 <= pos <= vowels_from(s, 0)) ==> stress_at_position(s, pos) == s,
{
    lemma_nth_vowel_exists(s, 0, pos);
    lemma_nth_vowel_bounds(s, 0, pos);
    if 1 <= pos <= vowels_from(s, 0) {
        lemma_position_stress_single_primary(s, pos);
    }
}

/// Final stress adds exactly one primary stress mark when the string has a
/// vowel; last-resort stress does so when the string has a vowel and no
/// stress mark. Otherwise each changes nothing.
pub proof fn lemma_final_and_first_stress_add_one_primary(s: Seq<char>)
    ensures
        last_vowel_before(s, s.len() as int) >= 0 ==> occurrences(stress_final(s), '\'') == occurrences(s, '\'') + 1,
        last_vowel_before(s, s.len() as int) < 0 ==> stress_final(s) == s,
        !has_stress(s) && nth_vowel_from(s, 0, 1) >= 0 ==> occurrences(stress_first(s), '\'') == occurrences(s, '\'') + 1,
        has_stress(s) || nth_vowel_from(s, 0, 1) < 0 ==> stress_first(s) == s,
{
    lemma_last_vowel_bounds(s, s.len() as int);
    lemma_nth_vowel_bounds(s, 0, 1);
    if last_vowel_before(s, s.len() as int) >= 0 {
        lemma_mark_at_occurrences(s, last_vowel_before(s, s.len() as int));
    }
    if !has_stress(s) && nth_vowel_from(s, 0, 1) >= 0 {
        lemma_mark_at_occurrences(s, nth_vowel_from(s, 0, 1));
    }
}

/// A string has a first vowel exactly when it has a last vowel.
pub proof fn lemma_first_vowel_iff_last_vowel(s: Seq<char>)
    ensures
        (nth_vowel_from(s, 0, 1) >= 0) == (last_vowel_before(s, s.len() as int) >= 0),
{
    lemma_nth_vowel_bounds(s, 0, 1);
    lemma_last_vowel_bounds(s, s.len() as int);
    if nth_vowel_from(s, 0, 1) >= 0 {
        lemma_last_vowel_exists(s, s.len() as int, nth_vowel_from(s, 0, 1));
    }
    if last_vowel_before(s, s.len() as int) >= 0 {
        lemma_first_vowel_exists(s, 0, last_vowel_before(s, s.len() as int));
    }
}

proof fn lemma_last_vowel_exists(s: Seq<char>, i: int, v: int)
    requires
        0 <= v < i <= s.len(),
        is_stress_vowel(s[v]),
    ensures
        last_vowel_before(s, i) >= 0,
    decreases i,
{
    if !is_stress_vowel(s[i - 1]) {
        lemma_last_vowel_exists(s, i - 1, v);
    }
}

proof fn lemma_first_vowel_exists(s: Seq<char>, i: int, v: int)
    requires
        0 <= i <= v < s.len(),
        is_stress_vowel(s[v]),
    ensures
        nth_vowel_from(s, i, 1) >= 0,
    decreases s.len() - i,
{
    if !is_stress_vowel(s[i]) {
        lemma_first_vowel_exists(s, i + 1, v);
    }
}

impl Default for DefaultStressProcessor {
    fn default() -> (p: Self)
        ensures
            p.configuration().use_stress_dict,
            p.configuration().use_final_stress,
            !p.configuration().default_to_final,
    {
        Self::new(StressConfig::default())
    }
}

} // verus!
