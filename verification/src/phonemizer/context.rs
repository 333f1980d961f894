//! Matching the left and right contexts of pronunciation rules against a
//! word.
//!
//! A context is a string of pattern characters. `_` stands for the word
//! boundary, the capitals `A B C F G H Y K` for letter groups, `'` and `-`
//! for themselves, `&` and `@` (right context only) for a run of
//! consonants (of any length, or at least one), `S` (right context only)
//! ends the check successfully, and every other character matches that
//! letter without regard to ASCII case.
use vstd::prelude::*;
use crate::types::PhonemeRule;
use crate::text::{byte_len, chars_of, chars_eq_ignore_case, eq_ignore_case, slice_has, str_byte_len, string_of};

verus! {

/// Letter groups over phoneme-notation characters, used by rule contexts.
#[derive(Debug, Clone)]
pub struct ContextGroups {
    pub group_a: Vec<char>,
    pub group_b: Vec<char>,
    pub group_c: Vec<char>,
    pub group_f: Vec<char>,
    pub group_g: Vec<char>,
    pub group_h: Vec<char>,
    pub group_y: Vec<char>,
    pub group_k: Vec<char>,
}

/// Whether `c` names a letter group in a context pattern.
pub open spec fn is_group_letter(c: char) -> bool {
    c == 'A' || c == 'B' || c == 'C' || c == 'F' || c == 'G' || c == 'H' || c == 'Y' || c == 'K'
}

impl ContextGroups {
    /// Whether the group named `g` holds `c`; unknown names hold nothing.
    pub open spec fn group_has(&self, g: char, c: char) -> bool {
        if g == 'A' {
            self.group_a@.contains(c)
        } else if g == 'B' {
            self.group_b@.contains(c)
        } else if g == 'C' {
            self.group_c@.contains(c)
        } else if g == 'F' {
            self.group_f@.contains(c)
        } else if g == 'G' {
            self.group_g@.contains(c)
        } else if g == 'H' {
            self.group_h@.contains(c)
        } else if g == 'Y' {
            self.group_y@.contains(c)
        } else if g == 'K' {
            self.group_k@.contains(c)
        } else {
            false
        }
    }

    /// What `match_group` answers for the text `word` at position `pos`:
    /// positions at or past the byte length never match, and a position
    /// inside the byte length but past the last character is looked up as
    /// the NUL character.
    pub open spec fn group_at(&self, g: char, word: Seq<char>, pos: int) -> bool {
        pos < byte_len(word) && self.group_has(
            g,
            if pos < word.len() {
                word[pos]
            } else {
                '\0'
            },
        )
    }

    /// Whether every group holds its standard characters, in order.
    pub open spec fn is_standard(&self) -> bool {
        &&& self.group_a@ == seq!['a', 'e', 'i', 'o', 'u', 'y', 'A', 'E', 'I', 'O', 'U', '@', '3', '0']
        &&& self.group_b@ == seq![
            'b', 'c', 'd', 'f', 'g', 'h', 'j', 'k', 'l', 'm', 'n', 'p', 'q', 'r', 's',
            't', 'v', 'w', 'x', 'z', 'B', 'C', 'D', 'F', 'G', 'H', 'J', 'K', 'L', 'M',
            'N', 'P', 'Q', 'R', 'S', 'T', 'V', 'W', 'X', 'Z',
        ]
        &&& self.group_c@ == seq!['b', 'd', 'g', 'k', 'p', 't', 'B', 'D', 'G', 'K', 'P', 'T']
        &&& self.group_f@ == seq!['f', 'h', 's', 'v', 'z', 'F', 'H', 'S', 'V', 'Z', 'j', 'J']
        &&& self.group_g@ == seq!['w', 'y', 'W', 'Y']
        &&& self.group_h@ == seq!['l', 'r', 'L', 'R']
        &&& self.group_y@ == seq!['b', 'd', 'g', 'j', 'l', 'r', 'v', 'w', 'z']
        &&& self.group_k@ == seq!['g', 'k', 'x', 'G', 'K', 'X']
    }

    /// The standard groups.
    pub fn new() -> (g: Self)
        ensures
            g.is_standard(),
    {
        Self {
            group_a: vec![
                'a', 'e', 'i', 'o', 'u', 'y', 'A', 'E', 'I', 'O', 'U', '@', '3', '0',
            ],
            group_b: vec![
                'b', 'c', 'd', 'f', 'g', 'h', 'j', 'k', 'l', 'm', 'n', 'p', 'q', 'r', 's',
                't', 'v', 'w', 'x', 'z', 'B', 'C', 'D', 'F', 'G', 'H', 'J', 'K', 'L', 'M',
                'N', 'P', 'Q', 'R', 'S', 'T', 'V', 'W', 'X', 'Z',
            ],
            group_c: vec!['b', 'd', 'g', 'k', 'p', 't', 'B', 'D', 'G', 'K', 'P', 'T'],
            group_f: vec!['f', 'h', 's', 'v', 'z', 'F', 'H', 'S', 'V', 'Z', 'j', 'J'],
            group_g: vec!['w', 'y', 'W', 'Y'],
            group_h: vec!['l', 'r', 'L', 'R'],
            group_y: vec!['b', 'd', 'g', 'j', 'l', 'r', 'v', 'w', 'z'],
            group_k: vec!['g', 'k', 'x', 'G', 'K', 'X'],
        }
    }

    /// Whether the character at position `pos` of `word` is in the group
    /// named `group`.
    pub fn match_group(&self, group: char, word: &str, pos: usize) -> (r: bool)
        ensures
            r == self.group_at(group, word@, pos as int),
    {
        if pos >= str_byte_len(word) {
            return false;
        }
        let chars = chars_of(word);
        let ch = if pos < chars.len() {
            chars[pos]
        } else {
            '\0'
        };
        match group {
            'A' => slice_has(&self.group_a, ch),
            'B' => slice_has(&self.group_b, ch),
            'C' => slice_has(&self.group_c, ch),
            'F' => slice_has(&self.group_f, ch),
            'G' => slice_has(&self.group_g, ch),
            'H' => slice_has(&self.group_h, ch),
            'Y' => slice_has(&self.group_y, ch),
            'K' => slice_has(&self.group_k, ch),
            _ => false,
        }
    }
}

impl Default for ContextGroups {
    fn default() -> (g: Self)
        ensures
            g.is_standard(),
    {
        Self::new()
    }
}

/// Whether the context character `c` (not `_`) accepts the word position
/// `pos`, which is at least 0.
pub open spec fn accepts_at(groups: ContextGroups, c: char, chars: Seq<char>, pos: int) -> bool {
    if is_group_letter(c) {
        groups.group_at(c, chars, pos)
    } else if c == '\'' || c == '-' {
        chars[pos] == c
    } else {
        eq_ignore_case(chars[pos], c)
    }
}

/// The left context `ctx[..j]` read backwards against `chars`, its last
/// pattern character facing position `pos`: `_` needs `pos` to be before
/// the word and consumes nothing, every other pattern character needs an
/// accepted letter at `pos` and moves one position to the left.
pub open spec fn left_matches(groups: ContextGroups, ctx: Seq<char>, chars: Seq<char>, j: int, pos: int) -> bool
    decreases j,
{
    if j <= 0 {
        true
    } else {
        let c = ctx[j - 1];
        if c == '_' {
            pos < 0 && left_matches(groups, ctx, chars, j - 1, pos)
        } else {
            pos >= 0 && accepts_at(groups, c, chars, pos) && left_matches(groups, ctx, chars, j - 1, pos - 1)
        }
    }
}

/// Whether reading the left context `ctx[..j]` from position `pos` only
/// ever compares a literal pattern character with a position inside
/// `chars`.
pub open spec fn left_in_bounds(groups: ContextGroups, ctx: Seq<char>, chars: Seq<char>, j: int, pos: int) -> bool
    decreases j,
{
    if j <= 0 {
        true
    } else {
        let c = ctx[j - 1];
        if c == '_' {
            pos < 0 ==> left_in_bounds(groups, ctx, chars, j - 1, pos)
        } else if pos < 0 {
            true
        } else if is_group_letter(c) {
            groups.group_at(c, chars, pos) ==> left_in_bounds(groups, ctx, chars, j - 1, pos - 1)
        } else {
            pos < chars.len() && (accepts_at(groups, c, chars, pos) ==> left_in_bounds(groups, ctx, chars, j - 1, pos - 1))
        }
    }
}

/// The first position at or after `pos` that does not hold a letter of
/// group `B`.
pub open spec fn skip_group_b(groups: ContextGroups, chars: Seq<char>, pos: int) -> int
    decreases chars.len() - pos,
{
    if pos < chars.len() && groups.group_at('B', chars, pos) {
        skip_group_b(groups, chars, pos + 1)
    } else {
        pos
    }
}

/// The right context `ctx[k..]` read forwards against `chars` from
/// position `pos`, with `del` boundary marks already seen: the pair of
/// whether it matches and how many boundary marks (`_`) it held.
pub open spec fn right_matches(groups: ContextGroups, ctx: Seq<char>, chars: Seq<char>, k: int, pos: int, del: int) -> (bool, int)
    decreases ctx.len() - k,
{
    if k >= ctx.len() {
        (true, del)
    } else {
        let c = ctx[k];
        if c == 'S' {
            (true, 0)
        } else if c == '_' {
            if pos < chars.len() {
                (false, 0)
            } else {
                right_matches(groups, ctx, chars, k + 1, pos, del + 1)
            }
        } else if c == '&' || c == '@' {
            let next = skip_group_b(groups, chars, pos);
            if c == '@' && next == pos {
                (false, 0)
            } else {
                right_matches(groups, ctx, chars, k + 1, next, del)
            }
        } else if pos >= chars.len() || pos < 0 || !accepts_at(groups, c, chars, pos) {
            (false, 0)
        } else {
            right_matches(groups, ctx, chars, k + 1, pos + 1, del)
        }
    }
}

/// Number of word-boundary marks (`_`) in `ctx[k..]`.
pub open spec fn boundary_marks(ctx: Seq<char>, k: int) -> int
    decreases ctx.len() - k,
{
    if k < 0 || k >= ctx.len() {
        0
    } else {
        boundary_marks(ctx, k + 1) + if ctx[k] == '_' {
            1int
        } else {
            0int
        }
    }
}

/// How many word-boundary marks the scan of a right context counts from
/// context index `k` and word position `pos` before it stops, whether it
/// ends in a match or not.
pub open spec fn marks_scanned(groups: ContextGroups, ctx: Seq<char>, chars: Seq<char>, k: int, pos: int) -> int
    decreases ctx.len() - k,
{
    if k < 0 || k >= ctx.len() {
        0
    } else {
        let c = ctx[k];
        if c == 'S' {
            0
        } else if c == '_' {
            if pos < chars.len() {
                0
            } else {
                1 + marks_scanned(groups, ctx, chars, k + 1, pos)
            }
        } else if c == '&' || c == '@' {
            let next = skip_group_b(groups, chars, pos);
            if c == '@' && next == pos {
                0
            } else {
                marks_scanned(groups, ctx, chars, k + 1, next)
            }
        } else if pos >= chars.len() || pos < 0 || !accepts_at(groups, c, chars, pos) {
            0
        } else {
            marks_scanned(groups, ctx, chars, k + 1, pos + 1)
        }
    }
}

proof fn lemma_marks_scanned_bounds(groups: ContextGroups, ctx: Seq<char>, chars: Seq<char>, k: int, pos: int)
    ensures
        0 <= marks_scanned(groups, ctx, chars, k, pos) <= boundary_marks(ctx, k),
    decreases ctx.len() - k,
{
    if 0 <= k < ctx.len() {
        lemma_boundary_marks_nonneg(ctx, k + 1);
        lemma_marks_scanned_bounds(groups, ctx, chars, k + 1, pos);
        lemma_marks_scanned_bounds(groups, ctx, chars, k + 1, skip_group_b(groups, chars, pos));
        lemma_marks_scanned_bounds(groups, ctx, chars, k + 1, pos + 1);
    }
}

/// Every right-context scan reports what it counted: a match reports the
/// marks it scanned on top of those counted before, which never exceed the
/// context's word-boundary marks; a failed match reports none.
pub proof fn lemma_right_deletions_counted(groups: ContextGroups, ctx: Seq<char>, chars: Seq<char>, k: int, pos: int, del: int)
    requires
        0 <= k,
        0 <= del,
    ensures
        !right_matches(groups, ctx, chars, k, pos, del).0 ==> right_matches(groups, ctx, chars, k, pos, del).1 == 0,
        0 <= right_matches(groups, ctx, chars, k, pos, del).1 <= del + marks_scanned(groups, ctx, chars, k, pos),
        marks_scanned(groups, ctx, chars, k, pos) <= boundary_marks(ctx, k),
    decreases ctx.len() - k,
{
    lemma_marks_scanned_bounds(groups, ctx, chars, k, pos);
    if k < ctx.len() {
        lemma_right_deletions_counted(groups, ctx, chars, k + 1, pos, del + 1);
        lemma_right_deletions_counted(groups, ctx, chars, k + 1, skip_group_b(groups, chars, pos), del);
        lemma_right_deletions_counted(groups, ctx, chars, k + 1, pos + 1, del);
    }
}

/// Reading the part of a right context that follows a prefix `p` is
/// reading that part on its own.
proof fn lemma_right_matches_shift(groups: ContextGroups, p: Seq<char>, x: Seq<char>, chars: Seq<char>, k: int, pos: int, del: int)
    requires
        0 <= k,
    ensures
        right_matches(groups, p + x, chars, p.len() + k, pos, del) == right_matches(groups, x, chars, k, pos, del),
    decreases x.len() - k,
{
    if k < x.len() {
        assert((p + x)[p.len() + k] == x[k]);
        let next = skip_group_b(groups, chars, pos);
        lemma_right_matches_shift(groups, p, x, chars, k + 1, pos, del + 1);
        lemma_right_matches_shift(groups, p, x, chars, k + 1, next, del);
        lemma_right_matches_shift(groups, p, x, chars, k + 1, pos + 1, del);
    }
}

/// Whether the letters from `pos` up to `end` (exclusive) are all in the
/// word and in group `B`.
pub open spec fn is_group_b_run(groups: ContextGroups, chars: Seq<char>, pos: int, end: int) -> bool
    decreases end - pos,
{
    pos >= end || (pos < chars.len() && groups.group_at('B', chars, pos) && is_group_b_run(
        groups,
        chars,
        pos + 1,
        end,
    ))
}

/// A right-context `&` matches a run of zero or more group-`B` letters and
/// `@` a run of at least one: where the letter at `pos` is not in group
/// `B` (or the word has ended), `&` followed by a context `x` matches
/// exactly as `x` alone does from `pos`, with the same deletion count, and
/// `@` followed by anything fails with no deletions. Where the letters from
/// `pos` up to `end` are all in group `B` and the one at `end` is not (or
/// the word ends there), both `&` and `@` followed by `x` match as `x`
/// from `end`, provided the run is not empty for `@`.
pub proof fn lemma_consonant_run_contexts(groups: ContextGroups, x: Seq<char>, chars: Seq<char>, pos: int, end: int, del: int)
    requires
        0 <= pos <= end,
        is_group_b_run(groups, chars, pos, end),
        !(end < chars.len() && groups.group_at('B', chars, end)),
    ensures
        right_matches(groups, seq!['&'] + x, chars, 0, pos, del) == right_matches(groups, x, chars, 0, end, del),
        pos < end ==> right_matches(groups, seq!['@'] + x, chars, 0, pos, del) == right_matches(groups, x, chars, 0, end, del),
        pos == end ==> right_matches(groups, seq!['@'] + x, chars, 0, pos, del) == (false, 0int),
{
    lemma_skip_group_b_run(groups, chars, pos, end);
    lemma_right_matches_shift(groups, seq!['&'], x, chars, 0, end, del);
    lemma_right_matches_shift(groups, seq!['@'], x, chars, 0, end, del);
    assert((seq!['&'] + x)[0] == '&');
    assert((seq!['@'] + x)[0] == '@');
}

proof fn lemma_skip_group_b_run(groups: ContextGroups, chars: Seq<char>, pos: int, end: int)
    requires
        pos <= end,
        is_group_b_run(groups, chars, pos, end),
        !(end < chars.len() && groups.group_at('B', chars, end)),
    ensures
        skip_group_b(groups, chars, pos) == end,
    decreases end - pos,
{
    if pos < end {
        lemma_skip_group_b_run(groups, chars, pos + 1, end);
    }
}

proof fn lemma_boundary_marks_nonneg(ctx: Seq<char>, k: int)
    ensures
        boundary_marks(ctx, k) >= 0,
    decreases ctx.len() - k,
{
    if 0 <= k < ctx.len() {
        lemma_boundary_marks_nonneg(ctx, k + 1);
    }
}

/// A right context without `S` that matches deletes one letter for each
/// of its word-boundary marks; a right context that fails to match
/// deletes nothing.
pub proof fn lemma_right_deletions(groups: ContextGroups, ctx: Seq<char>, chars: Seq<char>, k: int, pos: int, del: int)
    requires
        0 <= k,
        forall|j: int| k <= j < ctx.len() ==> #[trigger] ctx[j] != 'S',
    ensures
        right_matches(groups, ctx, chars, k, pos, del).0 ==> right_matches(groups, ctx, chars, k, pos, del).1
            == del + boundary_marks(ctx, k),
        !right_matches(groups, ctx, chars, k, pos, del).0 ==> right_matches(groups, ctx, chars, k, pos, del).1 == 0,
    decreases ctx.len() - k,
{
    if k < ctx.len() {
        let c = ctx[k];
        assert(c != 'S');
        let next = skip_group_b(groups, chars, pos);
        lemma_right_deletions(groups, ctx, chars, k + 1, pos, del + 1);
        lemma_right_deletions(groups, ctx, chars, k + 1, next, del);
        lemma_right_deletions(groups, ctx, chars, k + 1, pos + 1, del);
    }
}

/// When the match starts inside the word, reading the left context never
/// leaves it.
pub proof fn lemma_left_in_bounds(groups: ContextGroups, ctx: Seq<char>, chars: Seq<char>, j: int, pos: int)
    requires
        pos < chars.len(),
    ensures
        left_in_bounds(groups, ctx, chars, j, pos),
    decreases j,
{
    if j > 0 {
        lemma_left_in_bounds(groups, ctx, chars, j - 1, pos);
        lemma_left_in_bounds(groups, ctx, chars, j - 1, pos - 1);
    }
}

/// How many pattern characters of a left context are read: its length,
/// taken as an `i32` as the matcher counts it.
pub open spec fn left_start(ctx: Seq<char>) -> int {
    (ctx.len() as i32) as int
}

/// Context checks over rules and words.
pub struct ContextMatchingEngine;

impl ContextMatchingEngine {
    /// Whether the rule's left context matches the letters before
    /// `match_pos`, read from right to left.
    pub fn check_left_context(rule: &PhonemeRule, chars: &[char], match_pos: usize, groups: &ContextGroups) -> (r: bool)
        requires
            match_pos as i32 != i32::MIN,
            rule.left_ctx@.len() as i32 != i32::MIN,
            left_in_bounds(*groups, rule.left_ctx@, chars@, left_start(rule.left_ctx@), (match_pos as i32) as int - 1),
        ensures
            r == left_matches(*groups, rule.left_ctx@, chars@, left_start(rule.left_ctx@), (match_pos as i32) as int - 1),
    {
        let ctx_chars = chars_of(rule.left_ctx.as_str());
        if ctx_chars.len() == 0 {
            return true;
        }
        let word = string_of(chars);
        let ghost ctx = ctx_chars@;
        let ghost n = left_start(ctx);
        let ghost start: int = (match_pos as i32) as int - 1;
        let len = ctx_chars.len();
        let mut char_pos: i32 = (match_pos as i32) - 1;
        let mut ctx_idx: i32 = (len as i32) - 1;
        proof {
            assert((len as i32) > 0 ==> (len as i32) as usize <= len) by (bit_vector);
        }
        while ctx_idx >= 0
            invariant
                ctx == rule.left_ctx@,
                ctx == ctx_chars@,
                word@ == chars@,
                n == left_start(ctx),
                ctx_idx < n,
                ctx_idx >= 0 ==> ctx_idx < ctx.len(),
                char_pos == start || char_pos >= -1,
                start == (match_pos as i32) as int - 1,
                left_matches(*groups, ctx, chars@, n, start)
                    == left_matches(*groups, ctx, chars@, ctx_idx + 1, char_pos as int),
                left_in_bounds(*groups, ctx, chars@, ctx_idx + 1, char_pos as int),
            decreases ctx_idx + 1,
        {
            let ctx_char = ctx_chars[ctx_idx as usize];
            if ctx_char == '_' {
                if char_pos >= 0 {
                    return false;
                }
                ctx_idx -= 1;
                if ctx_idx < 0 {
                    assert(left_matches(*groups, ctx, chars@, 0, char_pos as int));
                    return true;
                }
                continue;
            }
            if char_pos < 0 {
                return false;
            }
            if ctx_char == 'A' || ctx_char == 'B' || ctx_char == 'C' || ctx_char == 'F'
                || ctx_char == 'G' || ctx_char == 'H' || ctx_char == 'Y' || ctx_char == 'K' {
                if !groups.match_group(ctx_char, word.as_str(), char_pos as usize) {
                    return false;
                }
            } else if ctx_char == '\'' || ctx_char == '-' {
                if chars[char_pos as usize] != ctx_char {
                    return false;
                }
            } else {
                if !chars_eq_ignore_case(chars[char_pos as usize], ctx_char) {
                    return false;
                }
            }
            char_pos -= 1;
            ctx_idx -= 1;
        }
        true
    }

    /// Whether the rule's right context matches the letters from
    /// `match_end` on, and how many word-boundary marks it held (zero when
    /// it does not match or when it ends in `S`).
    pub fn check_right_context(
        rule: &PhonemeRule,
        chars: &[char],
        match_end: usize,
        _word: &str,
        groups: &ContextGroups,
    ) -> (r: (bool, i32))
        requires
            marks_scanned(*groups, rule.right_ctx@, chars@, 0, match_end as int) <= i32::MAX,
        ensures
            r.0 == right_matches(*groups, rule.right_ctx@, chars@, 0, match_end as int, 0).0,
            r.1 as int == right_matches(*groups, rule.right_ctx@, chars@, 0, match_end as int, 0).1,
    {
        let ctx_chars = chars_of(rule.right_ctx.as_str());
        if ctx_chars.len() == 0 {
            return (true, 0);
        }
        let word = string_of(chars);
        let ghost ctx = ctx_chars@;
        let mut char_pos: usize = match_end;
        let mut ctx_idx: usize = 0;
        let mut del_fwd: i32 = 0;
        while ctx_idx < ctx_chars.len()
            invariant
                ctx == rule.right_ctx@,
                ctx == ctx_chars@,
                word@ == chars@,
                marks_scanned(*groups, ctx, chars@, 0, match_end as int) <= i32::MAX,
                ctx_idx <= ctx.len(),
                0 <= del_fwd,
                del_fwd + marks_scanned(*groups, ctx, chars@, ctx_idx as int, char_pos as int)
                    == marks_scanned(*groups, ctx, chars@, 0, match_end as int),
                right_matches(*groups, ctx, chars@, 0, match_end as int, 0)
                    == right_matches(*groups, ctx, chars@, ctx_idx as int, char_pos as int, del_fwd as int),
            decreases ctx.len() - ctx_idx,
        {
            let ctx_char = ctx_chars[ctx_idx];
            proof {
                lemma_marks_scanned_bounds(*groups, ctx, chars@, ctx_idx + 1, char_pos as int);
            }
            if ctx_char == 'S' {
                return (true, 0);
            } else if ctx_char == '_' {
                if char_pos < chars.len() {
                    return (false, 0);
                }
                del_fwd += 1;
            } else if ctx_char == 'A' || ctx_char == 'B' || ctx_char == 'C' || ctx_char == 'F'
                || ctx_char == 'G' || ctx_char == 'H' || ctx_char == 'Y' || ctx_char == 'K' {
                if char_pos >= chars.len() {
                    return (false, 0);
                }
                if !groups.match_group(ctx_char, word.as_str(), char_pos) {
                    return (false, 0);
                }
                char_pos += 1;
            } else if ctx_char == '&' || ctx_char == '@' {
                let require_one = ctx_char == '@';
                let mut count: usize = 0;
                let ghost start = char_pos as int;
                while char_pos < chars.len() && groups.match_group('B', word.as_str(), char_pos)
                    invariant
                        word@ == chars@,
                        start <= char_pos,
                        count == char_pos - start,
                        count <= char_pos,
                        skip_group_b(*groups, chars@, start) == skip_group_b(*groups, chars@, char_pos as int),
                    decreases chars.len() - char_pos,
                {
                    count += 1;
                    char_pos += 1;
                }
                if require_one && count == 0 {
                    return (false, 0);
                }
            } else if ctx_char == '\'' || ctx_char == '-' {
                if char_pos >= chars.len() {
                    return (false, 0);
                }
                if chars[char_pos] != ctx_char {
                    return (false, 0);
                }
                char_pos += 1;
            } else {
                if char_pos >= chars.len() {
                    return (false, 0);
                }
                if !chars_eq_ignore_case(chars[char_pos], ctx_char) {
                    return (false, 0);
                }
                char_pos += 1;
            }
            ctx_idx += 1;
        }
        (true, del_fwd)
    }
}

} // verus!
