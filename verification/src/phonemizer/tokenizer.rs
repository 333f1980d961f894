//! Splitting text into words and punctuation.
//!
//! After every whitespace character is replaced by a space, the text is
//! cut into maximal runs: a run of word characters (alphabetic letters,
//! apostrophes and hyphens) is a word, and a run of characters that are
//! neither alphabetic nor whitespace is punctuation. Whitespace separates
//! runs and is dropped.
use vstd::prelude::*;
use crate::types::Token;
use crate::text::{char_is_alphabetic, char_is_whitespace, chars_of, is_unicode_alphabetic, is_unicode_whitespace, push_char};

verus! {

impl View for Token {
    type V = (Seq<char>, bool, bool);

    /// The token's text, whether it is a word, and whether it is written
    /// against the previous token.
    open spec fn view(&self) -> (Seq<char>, bool, bool) {
        (self.text@, self.is_word, self.needs_space_before)
    }
}

/// Whitespace, as the tokenizer sees it.
pub open spec fn is_space(c: char) -> bool {
    is_unicode_whitespace(c)
}

/// Characters that make up words: letters, apostrophes and hyphens.
pub open spec fn is_word_char(c: char) -> bool {
    is_unicode_alphabetic(c) || c == '\'' || c == '-'
}

/// Characters that make up punctuation runs: neither letters nor whitespace.
pub open spec fn is_punct_char(c: char) -> bool {
    !is_unicode_alphabetic(c) && !is_unicode_whitespace(c)
}

/// `s` with every whitespace character replaced by a space.
pub open spec fn normalized(s: Seq<char>) -> Seq<char> {
    s.map_values(|c: char| if is_space(c) { ' ' } else { c })
}

/// End of the run of word characters that starts at `i`.
pub open spec fn word_run_end(s: Seq<char>, i: int) -> int
    decreases s.len() - i,
{
    if 0 <= i < s.len() && is_word_char(s[i]) {
        word_run_end(s, i + 1)
    } else {
        i
    }
}

/// End of the run of punctuation characters that starts at `i`.
pub open spec fn punct_run_end(s: Seq<char>, i: int) -> int
    decreases s.len() - i,
{
    if 0 <= i < s.len() && is_punct_char(s[i]) {
        punct_run_end(s, i + 1)
    } else {
        i
    }
}

proof fn lemma_word_run_end(s: Seq<char>, i: int)
    requires
        0 <= i <= s.len(),
    ensures
        i <= word_run_end(s, i) <= s.len(),
        forall|j: int| i <= j < word_run_end(s, i) ==> is_word_char(#[trigger] s[j]),
        word_run_end(s, i) < s.len() ==> !is_word_char(s[word_run_end(s, i)]),
    decreases s.len() - i,
{
    if i < s.len() && is_word_char(s[i]) {
        lemma_word_run_end(s, i + 1);
    }
}

proof fn lemma_punct_run_end(s: Seq<char>, i: int)
    requires
        0 <= i <= s.len(),
    ensures
        i <= punct_run_end(s, i) <= s.len(),
        forall|j: int| i <= j < punct_run_end(s, i) ==> is_punct_char(#[trigger] s[j]),
        punct_run_end(s, i) < s.len() ==> !is_punct_char(s[punct_run_end(s, i)]),
    decreases s.len() - i,
{
    if i < s.len() && is_punct_char(s[i]) {
        lemma_punct_run_end(s, i + 1);
    }
}

/// The runs of `s[i..]`: start, end, and whether the run is a word.
pub open spec fn runs_from(s: Seq<char>, i: int) -> Seq<(int, int, bool)>
    decreases s.len() - i,
{
    if i < 0 || i >= s.len() {
        Seq::empty()
    } else if is_space(s[i]) {
        runs_from(s, i + 1)
    } else if is_word_char(s[i]) {
        let e = word_run_end(s, i);
        if e <= i || e > s.len() {
            Seq::empty()
        } else {
            seq![(i, e, true)] + runs_from(s, e)
        }
    } else {
        let e = punct_run_end(s, i);
        if e <= i || e > s.len() {
            Seq::empty()
        } else {
            seq![(i, e, false)] + runs_from(s, e)
        }
    }
}

/// Whether run `k` of `runs` is written against its neighbours: it
/// starts right where the previous run ends, and the next run (or the
/// end of the text, for the last run) starts right where it ends.
pub open spec fn attached(s: Seq<char>, runs: Seq<(int, int, bool)>, k: int) -> bool {
    &&& k > 0 && runs[k - 1].1 == runs[k].0
    &&& if k + 1 < runs.len() {
        runs[k + 1].0 == runs[k].1
    } else {
        runs[k].1 == s.len()
    }
}

/// The tokens of `s`, as `(text, is_word, needs_space_before)`.
pub open spec fn tokens_of(s: Seq<char>) -> Seq<(Seq<char>, bool, bool)> {
    let runs = runs_from(s, 0);
    Seq::new(runs.len(), |k: int| (s.subrange(runs[k].0, runs[k].1), runs[k].2, attached(s, runs, k)))
}

/// Whether position `p` lies inside one of `runs`.
pub open spec fn covered(runs: Seq<(int, int, bool)>, p: int) -> bool {
    exists|k: int| 0 <= k < runs.len() && #[trigger] runs[k].0 <= p && p < runs[k].1
}

/// The runs of a text are non-empty, in order and non-overlapping; a word
/// run holds only word characters and a punctuation run only punctuation
/// characters; and every character outside the runs is whitespace. So
/// tokenization drops whitespace and nothing else.
pub proof fn lemma_runs_partition(s: Seq<char>, i: int)
    requires
        0 <= i <= s.len(),
    ensures
        forall|k: int| 0 <= k < runs_from(s, i).len() ==> i <= (#[trigger] runs_from(s, i)[k]).0 < runs_from(s, i)[k].1 <= s.len(),
        forall|k: int| 0 <= k < runs_from(s, i).len() - 1 ==> (#[trigger] runs_from(s, i)[k]).1 <= runs_from(s, i)[k + 1].0,
        forall|k: int, j: int| 0 <= k < runs_from(s, i).len() && (#[trigger] runs_from(s, i)[k]).0 <= j < runs_from(s, i)[k].1
            ==> if runs_from(s, i)[k].2 { is_word_char(#[trigger] s[j]) } else { is_punct_char(s[j]) },
        forall|p: int| i <= p < s.len() && !covered(runs_from(s, i), p) ==> is_space(#[trigger] s[p]),
    decreases s.len() - i,
{
    let r = runs_from(s, i);
    if i < s.len() {
        if is_space(s[i]) {
            lemma_runs_partition(s, i + 1);
            assert(r == runs_from(s, i + 1));
        } else {
            let word = is_word_char(s[i]);
            let e = if word { word_run_end(s, i) } else { punct_run_end(s, i) };
            if word {
                lemma_word_run_end(s, i);
            } else {
                lemma_punct_run_end(s, i);
            }
            assert(e > i);
            lemma_runs_partition(s, e);
            let rest = runs_from(s, e);
            assert(r == seq![(i, e, word)] + rest);
            assert forall|k: int| 0 <= k < r.len() - 1 implies (#[trigger] r[k]).1 <= r[k + 1].0 by {
                if k == 0 {
                    assert(r[1] == rest[0]);
                } else {
                    assert(r[k] == rest[k - 1]);
                    assert(r[k + 1] == rest[k]);
                }
            }
            assert forall|k: int, j: int| 0 <= k < r.len() && (#[trigger] r[k]).0 <= j < r[k].1
                implies if r[k].2 { is_word_char(#[trigger] s[j]) } else { is_punct_char(s[j]) } by {
                if k > 0 {
                    assert(r[k] == rest[k - 1]);
                }
            }
            assert forall|p: int| i <= p < s.len() && !covered(r, p) implies is_space(#[trigger] s[p]) by {
                if p < e {
                    assert(r[0].0 <= p < r[0].1);
                } else {
                    if covered(rest, p) {
                        let k = choose|k: int| 0 <= k < rest.len() && #[trigger] rest[k].0 <= p && p < rest[k].1;
                        assert(r[k + 1] == rest[k]);
                    }
                }
            }
        }
    }
}

/// Normalizing twice is normalizing once.
pub proof fn lemma_normalize_idempotent(s: Seq<char>)
    ensures
        normalized(normalized(s)) == normalized(s),
{
    assert(normalized(normalized(s)) =~= normalized(s));
}

/// Breaking text into tokens.
pub trait Tokenizer {
    /// The words and punctuation runs of `text`.
    fn tokenize(&self, text: &str) -> Vec<Token>;

    /// `text` prepared for tokenization.
    fn normalize(&self, text: &str) -> String;
}

/// The standard tokenizer.
pub struct TextTokenizer;

impl TextTokenizer {
    /// A tokenizer.
    pub fn new() -> Self {
        Self
    }

    /// `text` with every whitespace character replaced by a space.
    fn normalize_text(text: &str) -> (r: String)
        ensures
            r@ == normalized(text@),
    {
        let mut r = String::new();
        let chars = chars_of(text);
        let mut i: usize = 0;
        while i < chars.len()
            invariant
                chars@ == text@,
                i <= chars@.len(),
                r@ == normalized(chars@).take(i as int),
            decreases chars.len() - i,
        {
            let c = chars[i];
            let out = if char_is_whitespace(c) {
                ' '
            } else {
                c
            };
            push_char(&mut r, out);
            assert(normalized(chars@).take(i + 1) =~= normalized(chars@).take(i as int).push(out));
            i += 1;
        }
        assert(normalized(chars@).take(chars@.len() as int) =~= normalized(chars@));
        r
    }

    /// The tokens of `text`.
    fn tokenize_text(text: &str) -> (tokens: Vec<Token>)
        ensures
            tokens@.map_values(|t: Token| t@) == tokens_of(text@),
    {
        let mut tokens: Vec<Token> = Vec::new();
        let chars = chars_of(text);
        let ghost s = chars@;
        let ghost mut done: Seq<(int, int, bool)> = Seq::empty();
        let mut i: usize = 0;
        let mut last_was_space = true;
        while i < chars.len()
            invariant
                s == chars@,
                s == text@,
                i <= s.len(),
                runs_from(s, 0) == done + runs_from(s, i as int),
                tokens@.len() == done.len(),
                done.len() > 0 ==> done[done.len() - 1].1 <= i,
                last_was_space == (done.len() == 0 || done[done.len() - 1].1 < i),
                forall|k: int| 0 <= k < done.len() ==> {
                    &&& 0 <= (#[trigger] done[k]).0 < done[k].1 <= i
                    &&& tokens@[k].text@ == s.subrange(done[k].0, done[k].1)
                    &&& tokens@[k].is_word == done[k].2
                },
                forall|k: int| 0 <= k < done.len() - 1 ==> (#[trigger] tokens@[k]).needs_space_before
                    == attached(s, done, k),
                done.len() > 0 ==> tokens@[done.len() - 1].needs_space_before == (
                    done.len() > 1 && done[done.len() - 2].1 == done[done.len() - 1].0
                    && i == done[done.len() - 1].1),
            decreases s.len() - i,
        {
            let c = chars[i];
            if char_is_whitespace(c) {
                if tokens.len() > 0 {
                    let mut t = tokens.pop().unwrap();
                    t.needs_space_before = false;
                    tokens.push(t);
                }
                last_was_space = true;
                i += 1;
                continue;
            }
            let is_word_start = char_is_alphabetic(c) || c == '\'' || c == '-';
            let start = i;
            if is_word_start {
                proof {
                    lemma_word_run_end(s, i as int);
                }
                let mut word = String::new();
                while i < chars.len() && (char_is_alphabetic(chars[i]) || chars[i] == '\'' || chars[i] == '-')
                    invariant
                        s == chars@,
                        start <= i <= s.len(),
                        word@ == s.subrange(start as int, i as int),
                        word_run_end(s, start as int) == word_run_end(s, i as int),
                    decreases s.len() - i,
                {
                    let wc = chars[i];
                    push_char(&mut word, wc);
                    assert(s.subrange(start as int, i + 1) =~= s.subrange(start as int, i as int).push(wc));
                    i += 1;
                }
                proof {
                    assert(i as int == word_run_end(s, start as int));
                    assert(runs_from(s, start as int) == seq![(start as int, i as int, true)] + runs_from(s, i as int));
                }
                tokens.push(Token { text: word, is_word: true, needs_space_before: !last_was_space });
                proof {
                    done = done.push((start as int, i as int, true));
                }
            } else {
                proof {
                    lemma_punct_run_end(s, i as int);
                }
                let mut punct = String::new();
                while i < chars.len() && !char_is_alphabetic(chars[i]) && !char_is_whitespace(chars[i])
                    invariant
                        s == chars@,
                        start <= i <= s.len(),
                        punct@ == s.subrange(start as int, i as int),
                        punct_run_end(s, start as int) == punct_run_end(s, i as int),
                    decreases s.len() - i,
                {
                    let pc = chars[i];
                    push_char(&mut punct, pc);
                    assert(s.subrange(start as int, i + 1) =~= s.subrange(start as int, i as int).push(pc));
                    i += 1;
                }
                proof {
                    assert(i as int == punct_run_end(s, start as int));
                    assert(runs_from(s, start as int) == seq![(start as int, i as int, false)] + runs_from(s, i as int));
                }
                tokens.push(Token { text: punct, is_word: false, needs_space_before: !last_was_space });
                proof {
                    done = done.push((start as int, i as int, false));
                }
            }
            last_was_space = false;
        }
        proof {
            assert(runs_from(s, s.len() as int) =~= Seq::<(int, int, bool)>::empty());
            assert(done =~= runs_from(s, 0));
            assert forall|k: int| 0 <= k < done.len() implies tokens@[k]@ == tokens_of(s)[k] by {
                if k == done.len() - 1 {
                    assert(tokens@[k].needs_space_before == attached(s, done, k));
                }
            }
            assert(tokens@.map_values(|t: Token| t@) =~= tokens_of(s));
        }
        tokens
    }
}

impl Default for TextTokenizer {
    fn default() -> Self {
        Self::new()
    }
}

impl Tokenizer for TextTokenizer {
    fn tokenize(&self, text: &str) -> (tokens: Vec<Token>)
        ensures
            tokens@.map_values(|t: Token| t@) == tokens_of(normalized(text@)),
    {
        let normalized_text = self.normalize(text);
        Self::tokenize_text(normalized_text.as_str())
    }

    fn normalize(&self, text: &str) -> (r: String)
        ensures
            r@ == normalized(text@),
    {
        Self::normalize_text(text)
    }
}

} // verus!
