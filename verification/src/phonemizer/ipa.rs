//! Converting phoneme codes to IPA text.
//!
//! Stress and length marks become their IPA symbols, separators are
//! dropped, `_` becomes a pause (". "), and the longest phoneme code of at
//! most four characters that the dialect's table knows is replaced by its
//! IPA spelling; any other character is copied.
use vstd::prelude::*;
use crate::tables::StrMap;
use crate::text::{ascii_lower, chars_of, owned, push_char, push_chars, to_ascii_lower};

verus! {

/// Conversion from phoneme codes to IPA for one dialect.
pub trait IpaConverter {
    /// The IPA spelling of a phoneme string.
    fn phonemes_to_ipa(&self, phoneme_str: &str) -> String;

    /// Whether a phoneme code is a vowel.
    fn is_vowel(&self, code: &str) -> bool;

    /// The dialect's name.
    fn dialect(&self) -> &str;
}

/// Length of the longest code of at most four characters that starts at
/// `i` and has an entry in `table`, or 0 when there is none.
pub open spec fn longest_code(table: Map<Seq<char>, Seq<char>>, s: Seq<char>, i: int) -> int {
    if i + 4 <= s.len() && table.contains_key(s.subrange(i, i + 4)) {
        4
    } else if i + 3 <= s.len() && table.contains_key(s.subrange(i, i + 3)) {
        3
    } else if i + 2 <= s.len() && table.contains_key(s.subrange(i, i + 2)) {
        2
    } else if i + 1 <= s.len() && table.contains_key(s.subrange(i, i + 1)) {
        1
    } else {
        0
    }
}

/// The IPA spelling of `s[i..]` under `table`.
pub open spec fn ipa_from(table: Map<Seq<char>, Seq<char>>, s: Seq<char>, i: int) -> Seq<char>
    decreases s.len() - i,
{
    if i < 0 || i >= s.len() {
        Seq::empty()
    } else {
        let c = s[i];
        if c == '\'' {
            seq!['ˈ'] + ipa_from(table, s, i + 1)
        } else if c == ',' {
            seq!['ˌ'] + ipa_from(table, s, i + 1)
        } else if c == '%' {
            seq!['ˏ'] + ipa_from(table, s, i + 1)
        } else if c == ':' {
            seq!['ː'] + ipa_from(table, s, i + 1)
        } else if c == '#' || c == '/' || c == '|' {
            ipa_from(table, s, i + 1)
        } else if c == '_' {
            seq!['.', ' '] + ipa_from(table, s, i + 1)
        } else {
            let n = longest_code(table, s, i);
            if n > 0 {
                table[s.subrange(i, i + n)] + ipa_from(table, s, i + n)
            } else {
                seq![c] + ipa_from(table, s, i + 1)
            }
        }
    }
}

/// The IPA spelling of `s` under `table`.
pub open spec fn ipa_of(table: Map<Seq<char>, Seq<char>>, s: Seq<char>) -> Seq<char> {
    ipa_from(table, s, 0)
}

/// Whether `c` is an ASCII vowel letter or `y`, in either case.
pub open spec fn is_ascii_vowel_letter(c: char) -> bool {
    let l = ascii_lower(c);
    l == 'a' || l == 'e' || l == 'i' || l == 'o' || l == 'u' || l == 'y'
}

/// IPA symbols that end a vowel in both dialects.
pub open spec fn is_ipa_vowel_symbol(c: char) -> bool {
    c == 'a' || c == 'e' || c == 'i' || c == 'o' || c == 'u' || c == 'y' || c == 'ə' || c == 'æ'
        || c == 'ɪ' || c == 'ʊ' || c == 'ɐ' || c == 'ɑ' || c == 'ɔ' || c == 'ʌ'
}

/// Whether a code is a vowel: a code with a table entry is a vowel when
/// its IPA spelling ends in a vowel symbol (an empty spelling counts as
/// ending in NUL), and any other code is a vowel when it holds an ASCII
/// vowel letter. `extended` adds `ᴜ` and `ᵻ` to the vowel symbols.
pub open spec fn code_is_vowel(table: Map<Seq<char>, Seq<char>>, code: Seq<char>, extended: bool) -> bool {
    if table.contains_key(code) {
        let ipa = table[code];
        let last = if ipa.len() > 0 {
            ipa.last()
        } else {
            '\0'
        };
        is_ipa_vowel_symbol(last) || (extended && (last == 'ᴜ' || last == 'ᵻ'))
    } else {
        exists|i: int| 0 <= i < code.len() && is_ascii_vowel_letter(#[trigger] code[i])
    }
}

/// `longest_code` at position `i` of `chars`.
fn longest_at(table: &StrMap<String>, chars: &[char], i: usize) -> (n: usize)
    requires
        i < chars@.len(),
    ensures
        n == longest_code(table@, chars@, i as int),
        n <= 4,
        i + n <= chars@.len(),
{
    let rest = chars.len() - i;
    if rest >= 4 && table.get_range(chars, i, i + 4).is_some() {
        4
    } else if rest >= 3 && table.get_range(chars, i, i + 3).is_some() {
        3
    } else if rest >= 2 && table.get_range(chars, i, i + 2).is_some() {
        2
    } else if table.get_range(chars, i, i + 1).is_some() {
        1
    } else {
        0
    }
}

/// The IPA spelling of `phoneme_str` under `table`.
fn convert(table: &StrMap<String>, phoneme_str: &str) -> (r: String)
    ensures
        r@ == ipa_of(table@, phoneme_str@),
{
    let mut result = String::new();
    let chars = chars_of(phoneme_str);
    let ghost s = chars@;
    let ghost tv = table@;
    let mut i: usize = 0;
    while i < chars.len()
        invariant
            s == chars@,
            s == phoneme_str@,
            tv == table@,
            i <= s.len(),
            ipa_of(tv, s) == result@ + ipa_from(tv, s, i as int),
        decreases s.len() - i,
    {
        let c = chars[i];
        if c == '\'' {
            push_char(&mut result, 'ˈ');
            i += 1;
        } else if c == ',' {
            push_char(&mut result, 'ˌ');
            i += 1;
        } else if c == '%' {
            push_char(&mut result, 'ˏ');
            i += 1;
        } else if c == ':' {
            push_char(&mut result, 'ː');
            i += 1;
        } else if c == '#' || c == '/' || c == '|' {
            i += 1;
        } else if c == '_' {
            push_char(&mut result, '.');
            push_char(&mut result, ' ');
            i += 1;
        } else {
            let n = longest_at(table, chars.as_slice(), i);
            if n > 0 {
                match table.get_range(chars.as_slice(), i, i + n) {
                    Some(ipa) => {
                        let ipa_chars = chars_of(ipa.as_str());
                        push_chars(&mut result, ipa_chars.as_slice());
                    },
                    None => {},
                }
                i += n;
            } else {
                push_char(&mut result, c);
                i += 1;
            }
        }
    }
    assert(result@ + ipa_from(tv, s, i as int) =~= result@);
    result
}

/// Whether `code` is a vowel under `table` (see `code_is_vowel`).
fn vowel_code(table: &StrMap<String>, code: &str, extended: bool) -> (r: bool)
    ensures
        r == code_is_vowel(table@, code@, extended),
{
    match table.get(code) {
        Some(ipa) => {
            let ipa_chars = chars_of(ipa.as_str());
            let last = if ipa_chars.len() > 0 {
                ipa_chars[ipa_chars.len() - 1]
            } else {
                '\0'
            };
            (last == 'a' || last == 'e' || last == 'i' || last == 'o' || last == 'u' || last == 'y'
                || last == 'ə' || last == 'æ' || last == 'ɪ' || last == 'ʊ' || last == 'ɐ'
                || last == 'ɑ' || last == 'ɔ' || last == 'ʌ')
                || (extended && (last == 'ᴜ' || last == 'ᵻ'))
        },
        None => {
            let chars = chars_of(code);
            let mut i: usize = 0;
            while i < chars.len()
                invariant
                    chars@ == code@,
                    !table@.contains_key(code@),
                    i <= chars@.len(),
                    forall|j: int| 0 <= j < i ==> !is_ascii_vowel_letter(#[trigger] chars@[j]),
                decreases chars.len() - i,
            {
                let l = to_ascii_lower(chars[i]);
                if l == 'a' || l == 'e' || l == 'i' || l == 'o' || l == 'u' || l == 'y' {
                    assert(!table@.contains_key(code@));
                    assert(is_ascii_vowel_letter(code@[i as int]));
                    assert(code_is_vowel(table@, code@, extended));
                    return true;
                }
                i += 1;
            }
            false
        },
    }
}

/// Whether no key of `table` holds a space.
pub open spec fn keys_spaceless(table: Map<Seq<char>, Seq<char>>) -> bool {
    forall|k: Seq<char>| #[trigger] table.contains_key(k) ==> !k.contains(' ')
}

/// Codes read inside `q` read the same when `q` follows `p`.
proof fn lemma_longest_code_shift(table: Map<Seq<char>, Seq<char>>, p: Seq<char>, q: Seq<char>, j: int)
    requires
        0 <= j,
    ensures
        longest_code(table, p + q, p.len() + j) == longest_code(table, q, j),
        forall|n: int| 1 <= n <= 4 && j + n <= q.len() ==> #[trigger] (p + q).subrange(p.len() + j, p.len() + j + n)
            == q.subrange(j, j + n),
{
    assert forall|n: int| 1 <= n <= 4 && j + n <= q.len() implies #[trigger] (p + q).subrange(
        p.len() + j,
        p.len() + j + n,
    ) == q.subrange(j, j + n) by {
        assert((p + q).subrange(p.len() + j, p.len() + j + n) =~= q.subrange(j, j + n));
    }
    assert((p + q).subrange(p.len() + j, p.len() + j + 1) == q.subrange(j, j + 1) || j + 1 > q.len());
    assert((p + q).subrange(p.len() + j, p.len() + j + 2) == q.subrange(j, j + 2) || j + 2 > q.len());
    assert((p + q).subrange(p.len() + j, p.len() + j + 3) == q.subrange(j, j + 3) || j + 3 > q.len());
    assert((p + q).subrange(p.len() + j, p.len() + j + 4) == q.subrange(j, j + 4) || j + 4 > q.len());
}

proof fn lemma_longest_code_bounds(table: Map<Seq<char>, Seq<char>>, s: Seq<char>, i: int)
    ensures
        0 <= longest_code(table, s, i) <= 4,
        longest_code(table, s, i) > 0 ==> i + longest_code(table, s, i) <= s.len(),
{
}

/// The IPA spelling of the part of `p + q` inside `q` is that of `q`.
proof fn lemma_ipa_from_shift(table: Map<Seq<char>, Seq<char>>, p: Seq<char>, q: Seq<char>, j: int)
    requires
        0 <= j,
    ensures
        ipa_from(table, p + q, p.len() + j) == ipa_from(table, q, j),
    decreases q.len() - j,
{
    if j < q.len() {
        lemma_longest_code_shift(table, p, q, j);
        lemma_longest_code_bounds(table, q, j);
        assert((p + q)[p.len() + j] == q[j]);
        lemma_ipa_from_shift(table, p, q, j + 1);
        let n = longest_code(table, q, j);
        if n > 0 {
            lemma_ipa_from_shift(table, p, q, j + n);
            assert((p + q).subrange(p.len() + j, p.len() + j + n) == q.subrange(j, j + n));
        }
    }
}

/// Before the space of `a + ' ' + b`, the spelling is that of `a`: no code
/// reaches across the space.
proof fn lemma_ipa_from_before_space(table: Map<Seq<char>, Seq<char>>, a: Seq<char>, b: Seq<char>, i: int)
    requires
        keys_spaceless(table),
        0 <= i <= a.len(),
    ensures
        ipa_from(table, a + seq![' '] + b, i) == ipa_from(table, a, i) + ipa_from(
            table,
            a + seq![' '] + b,
            a.len() as int,
        ),
    decreases a.len() - i,
{
    let s = a + seq![' '] + b;
    let rest = ipa_from(table, s, a.len() as int);
    if i < a.len() {
        assert(s[i] == a[i]);
        assert forall|n: int| 1 <= n <= 4 && i + n <= s.len() implies (#[trigger] table.contains_key(
            s.subrange(i, i + n),
        )) == (i + n <= a.len() && table.contains_key(a.subrange(i, i + n))) by {
            if i + n <= a.len() {
                assert(s.subrange(i, i + n) =~= a.subrange(i, i + n));
            } else {
                assert(s.subrange(i, i + n)[a.len() - i] == ' ');
                assert(s.subrange(i, i + n).contains(' '));
            }
        }
        assert(longest_code(table, s, i) == longest_code(table, a, i));
        lemma_longest_code_bounds(table, a, i);
        let n = longest_code(table, a, i);
        lemma_ipa_from_before_space(table, a, b, i + 1);
        if n > 0 {
            lemma_ipa_from_before_space(table, a, b, i + n);
            assert(s.subrange(i, i + n) =~= a.subrange(i, i + n));
        }
        let c = a[i];
        if c == '\'' || c == ',' || c == '%' || c == ':' || c == '_' {
            assert(ipa_from(table, s, i) =~= ipa_from(table, a, i) + rest);
        } else if c == '#' || c == '/' || c == '|' {
        } else if n > 0 {
            assert(ipa_from(table, s, i) =~= ipa_from(table, a, i) + rest);
        } else {
            assert(ipa_from(table, s, i) =~= ipa_from(table, a, i) + rest);
        }
    } else {
        assert(ipa_from(table, a, i) + rest =~= rest);
    }
}

/// Words separated by a space convert independently: when no code of the
/// table holds a space, the IPA spelling of `a`, a space and `b` is the
/// spelling of `a`, a space and the spelling of `b`.
pub proof fn lemma_ipa_words_independent(table: Map<Seq<char>, Seq<char>>, a: Seq<char>, b: Seq<char>)
    requires
        keys_spaceless(table),
    ensures
        ipa_of(table, a + seq![' '] + b) == ipa_of(table, a) + seq![' '] + ipa_of(table, b),
{
    let s = a + seq![' '] + b;
    lemma_ipa_from_before_space(table, a, b, 0);
    assert(s[a.len() as int] == ' ');
    assert forall|n: int| 1 <= n <= 4 && a.len() + n <= s.len() implies !#[trigger] table.contains_key(
        s.subrange(a.len() as int, a.len() + n),
    ) by {
        assert(s.subrange(a.len() as int, a.len() + n)[0] == ' ');
        assert(s.subrange(a.len() as int, a.len() + n).contains(' '));
    }
    assert(longest_code(table, s, a.len() as int) == 0);
    lemma_ipa_from_shift(table, a + seq![' '], b, 0);
    assert((a + seq![' ']).len() == a.len() + 1);
    assert(ipa_of(table, s) =~= ipa_of(table, a) + seq![' '] + ipa_of(table, b));
}

/// Whether no code and no spelling of `table` holds an ASCII stress mark
/// (`'` or `,`).
pub open spec fn marks_free(table: Map<Seq<char>, Seq<char>>) -> bool {
    forall|k: Seq<char>| #[trigger] table.contains_key(k) ==> {
        &&& !k.contains('\'') && !k.contains(',')
        &&& !table[k].contains('\'') && !table[k].contains(',')
    }
}

proof fn lemma_concat_contains(x: Seq<char>, y: Seq<char>, c: char)
    ensures
        (x + y).contains(c) == (x.contains(c) || y.contains(c)),
{
    if (x + y).contains(c) {
        let k = choose|k: int| 0 <= k < (x + y).len() && (x + y)[k] == c;
        if k < x.len() {
            assert(x[k] == c);
        } else {
            assert(y[k - x.len()] == c);
        }
    }
    if x.contains(c) {
        let k = choose|k: int| 0 <= k < x.len() && x[k] == c;
        assert((x + y)[k] == c);
    }
    if y.contains(c) {
        let k = choose|k: int| 0 <= k < y.len() && y[k] == c;
        assert((x + y)[x.len() + k] == c);
    }
}

proof fn lemma_ipa_from_no_ascii_marks(table: Map<Seq<char>, Seq<char>>, s: Seq<char>, i: int)
    requires
        marks_free(table),
    ensures
        !ipa_from(table, s, i).contains('\''),
        !ipa_from(table, s, i).contains(','),
    decreases s.len() - i,
{
    if 0 <= i < s.len() {
        let c = s[i];
        let n = longest_code(table, s, i);
        lemma_longest_code_bounds(table, s, i);
        lemma_ipa_from_no_ascii_marks(table, s, i + 1);
        let rest = ipa_from(table, s, i + 1);
        if c == '\'' || c == ',' || c == '%' || c == ':' {
            let sym = if c == '\'' { 'ˈ' } else if c == ',' { 'ˌ' } else if c == '%' { 'ˏ' } else { 'ː' };
            lemma_concat_contains(seq![sym], rest, '\'');
            lemma_concat_contains(seq![sym], rest, ',');
        } else if c == '#' || c == '/' || c == '|' {
        } else if c == '_' {
            lemma_concat_contains(seq!['.', ' '], rest, '\'');
            lemma_concat_contains(seq!['.', ' '], rest, ',');
        } else if n > 0 {
            lemma_ipa_from_no_ascii_marks(table, s, i + n);
            let k = s.subrange(i, i + n);
            assert(table.contains_key(k));
            lemma_concat_contains(table[k], ipa_from(table, s, i + n), '\'');
            lemma_concat_contains(table[k], ipa_from(table, s, i + n), ',');
        } else {
            lemma_concat_contains(seq![c], rest, '\'');
            lemma_concat_contains(seq![c], rest, ',');
        }
    }
}

proof fn lemma_ipa_from_keeps_mark(table: Map<Seq<char>, Seq<char>>, s: Seq<char>, i: int, j: int, m: char, sym: char)
    requires
        marks_free(table),
        0 <= i <= j < s.len(),
        s[j] == m,
        (m == '\'' && sym == 'ˈ') || (m == ',' && sym == 'ˌ'),
    ensures
        ipa_from(table, s, i).contains(sym),
    decreases j - i,
{
    let c = s[i];
    let n = longest_code(table, s, i);
    lemma_longest_code_bounds(table, s, i);
    if c == m {
        lemma_concat_contains(seq![sym], ipa_from(table, s, i + 1), sym);
        assert(seq![sym][0] == sym);
    } else {
        assert(i < j);
        lemma_ipa_from_keeps_mark(table, s, i + 1, j, m, sym);
        let rest = ipa_from(table, s, i + 1);
        if c == '\'' || c == ',' || c == '%' || c == ':' {
            let t = if c == '\'' { 'ˈ' } else if c == ',' { 'ˌ' } else if c == '%' { 'ˏ' } else { 'ː' };
            lemma_concat_contains(seq![t], rest, sym);
        } else if c == '#' || c == '/' || c == '|' {
        } else if c == '_' {
            lemma_concat_contains(seq!['.', ' '], rest, sym);
        } else if n > 0 {
            let k = s.subrange(i, i + n);
            assert(table.contains_key(k));
            if i + n > j {
                assert(k[j - i] == m);
                assert(k.contains(m));
                assert(false);
            }
            lemma_ipa_from_keeps_mark(table, s, i + n, j, m, sym);
            lemma_concat_contains(table[k], ipa_from(table, s, i + n), sym);
        } else {
            lemma_concat_contains(seq![c], rest, sym);
        }
    }
}

/// Stress marks come out as IPA stress symbols: a primary mark `'` in the
/// codes yields `ˈ` and a secondary mark `,` yields `ˌ`, and no ASCII
/// stress mark is left in the IPA spelling.
pub proof fn lemma_ipa_stress_symbols(table: Map<Seq<char>, Seq<char>>, s: Seq<char>)
    requires
        marks_free(table),
    ensures
        s.contains('\'') ==> ipa_of(table, s).contains('ˈ'),
        s.contains(',') ==> ipa_of(table, s).contains('ˌ'),
        !ipa_of(table, s).contains('\''),
        !ipa_of(table, s).contains(','),
{
    lemma_ipa_from_no_ascii_marks(table, s, 0);
    if s.contains('\'') {
        let j = choose|j: int| 0 <= j < s.len() && s[j] == '\'';
        lemma_ipa_from_keeps_mark(table, s, 0, j, '\'', 'ˈ');
    }
    if s.contains(',') {
        let j = choose|j: int| 0 <= j < s.len() && s[j] == ',';
        lemma_ipa_from_keeps_mark(table, s, 0, j, ',', 'ˌ');
    }
}

/// Phoneme-code spellings shared by both dialects, followed by the
/// American ones.
pub open spec fn american_table() -> Map<Seq<char>, Seq<char>> {
    map![
        "r"@ => "ɹ"@, "r-"@ => "ɹ"@, "n-"@ => "n̩"@, "m-"@ => "m̩"@, "3:r"@ => "ɜːɹ"@,
        "3:"@ => "ɜː"@, "@L"@ => "əl"@, "a#"@ => "ɐ"@, "e#"@ => "ɛ"@, "I#"@ => "ᵻ"@,
        "I2#"@ => "ᵻ"@, "w#"@ => "ʍ"@, "@2"@ => "ə"@, "@5"@ => "ə"@, "I2"@ => "ɪ"@,
        "3"@ => "ɚ"@, "a"@ => "æ"@, "aa"@ => "æ"@, "0"@ => "ɑː"@, "0#"@ => "ɑː"@,
        "A#"@ => "ɑː"@, "A@"@ => "ɑːɹ"@, "A:r"@ => "ɑːɹ"@, "e@"@ => "ɛɹ"@, "e@r"@ => "ɛɹ"@,
        "U@"@ => "ʊɹ"@, "O@"@ => "ɔːɹ"@, "O@r"@ => "ɔːɹ"@, "o@"@ => "oːɹ"@, "o@r"@ => "oːɹ"@,
        "i@"@ => "iə"@, "i@3"@ => "ɪɹ"@, "i@3r"@ => "ɪɹ"@, "aI@"@ => "aɪə"@, "aI3"@ => "aɪɚ"@,
        "aU@"@ => "aɪʊɹ"@, "IR"@ => "əɹ"@, "VR"@ => "ʌɹ"@, "02"@ => "ʌ"@, "i"@ => "i"@
    ]
}

/// Phoneme-code spellings shared by both dialects, followed by the
/// British (non-rhotic) ones.
pub open spec fn british_table() -> Map<Seq<char>, Seq<char>> {
    map![
        "r"@ => "ɹ"@, "r-"@ => "ɹ"@, "n-"@ => "n̩"@, "m-"@ => "m̩"@, "3:r"@ => "ɜːɹ"@,
        "3:"@ => "ɜː"@, "@L"@ => "əl"@, "a#"@ => "ɐ"@, "e#"@ => "ɛ"@, "I#"@ => "ᵻ"@,
        "I2#"@ => "ᵻ"@, "w#"@ => "ʍ"@, "@2"@ => "ə"@, "@5"@ => "ə"@, "I2"@ => "ɪ"@,
        "3"@ => "ɜ"@, "a"@ => "a"@, "aa"@ => "a"@, "0"@ => "ɒ"@, "oU"@ => "əʊ"@,
        "A@"@ => "ɑː"@, "IR"@ => "əɹ"@
    ]
}

/// No code of either dialect's table holds a space, so both converters
/// spell space-separated words independently; and no code or spelling
/// holds an ASCII stress mark, so both converters turn stress marks into
/// IPA stress symbols; every code has one to four characters and does
/// not start with a conversion mark.
pub proof fn lemma_dialect_tables_plain()
    ensures
        keys_spaceless(american_table()),
        keys_spaceless(british_table()),
        marks_free(american_table()),
        marks_free(british_table()),
        codes_lookup_sized(american_table()),
        codes_lookup_sized(british_table()),
{
    reveal_strlit("r");
    reveal_strlit("r-");
    reveal_strlit("n-");
    reveal_strlit("m-");
    reveal_strlit("3:r");
    reveal_strlit("3:");
    reveal_strlit("@L");
    reveal_strlit("a#");
    reveal_strlit("e#");
    reveal_strlit("I#");
    reveal_strlit("I2#");
    reveal_strlit("w#");
    reveal_strlit("@2");
    reveal_strlit("@5");
    reveal_strlit("I2");
    reveal_strlit("3");
    reveal_strlit("a");
    reveal_strlit("aa");
    reveal_strlit("0");
    reveal_strlit("0#");
    reveal_strlit("A#");
    reveal_strlit("A@");
    reveal_strlit("A:r");
    reveal_strlit("e@");
    reveal_strlit("e@r");
    reveal_strlit("U@");
    reveal_strlit("O@");
    reveal_strlit("O@r");
    reveal_strlit("o@");
    reveal_strlit("o@r");
    reveal_strlit("i@");
    reveal_strlit("i@3");
    reveal_strlit("i@3r");
    reveal_strlit("aI@");
    reveal_strlit("aI3");
    reveal_strlit("aU@");
    reveal_strlit("IR");
    reveal_strlit("VR");
    reveal_strlit("02");
    reveal_strlit("i");
    reveal_strlit("oU");
    reveal_strlit("ɹ");
    reveal_strlit("n̩");
    reveal_strlit("m̩");
    reveal_strlit("ɜːɹ");
    reveal_strlit("ɜː");
    reveal_strlit("əl");
    reveal_strlit("ɐ");
    reveal_strlit("ɛ");
    reveal_strlit("ᵻ");
    reveal_strlit("ʍ");
    reveal_strlit("ə");
    reveal_strlit("ɪ");
    reveal_strlit("ɚ");
    reveal_strlit("æ");
    reveal_strlit("ɑː");
    reveal_strlit("ɑːɹ");
    reveal_strlit("ɛɹ");
    reveal_strlit("ʊɹ");
    reveal_strlit("ɔːɹ");
    reveal_strlit("oːɹ");
    reveal_strlit("iə");
    reveal_strlit("ɪɹ");
    reveal_strlit("aɪə");
    reveal_strlit("aɪɚ");
    reveal_strlit("aɪʊɹ");
    reveal_strlit("əɹ");
    reveal_strlit("ʌɹ");
    reveal_strlit("ʌ");
    reveal_strlit("ɜ");
    reveal_strlit("ɒ");
    reveal_strlit("əʊ");
}

/// The characters that conversion handles before any table lookup: the
/// stress and length marks and the boundary and separator symbols.
pub open spec fn is_conversion_mark(c: char) -> bool {
    c == '\'' || c == ',' || c == '%' || c == ':' || c == '#' || c == '/' || c == '|' || c == '_'
}

/// Whether every code of `table` has one to four characters and does not
/// start with a conversion mark.
pub open spec fn codes_lookup_sized(table: Map<Seq<char>, Seq<char>>) -> bool {
    forall|k: Seq<char>| #[trigger] table.contains_key(k) ==> 1 <= k.len() <= 4 && !is_conversion_mark(k[0])
}

/// A code converted on its own comes out as exactly its table spelling:
/// the longest code is looked up first, so a code of one to four
/// characters is never split into shorter ones.
pub proof fn lemma_code_alone_is_its_spelling(table: Map<Seq<char>, Seq<char>>, k: Seq<char>)
    requires
        table.contains_key(k),
        1 <= k.len() <= 4,
        !is_conversion_mark(k[0]),
    ensures
        ipa_of(table, k) == table[k],
{
    assert(k.subrange(0, k.len() as int) =~= k);
    assert(longest_code(table, k, 0) == k.len());
    assert(ipa_from(table, k, k.len() as int) == Seq::<char>::empty());
    assert(ipa_of(table, k) =~= table[k] + Seq::<char>::empty());
}

/// Every code of either dialect's table, converted on its own, comes out
/// as exactly its spelling in that table (`aI3` as `aɪɚ`, `e@r` as `ɛɹ`).
pub proof fn lemma_dialect_codes_alone(k: Seq<char>)
    ensures
        american_table().contains_key(k) ==> ipa_of(american_table(), k) == american_table()[k],
        british_table().contains_key(k) ==> ipa_of(british_table(), k) == british_table()[k],
{
    lemma_dialect_tables_plain();
    if american_table().contains_key(k) {
        lemma_code_alone_is_its_spelling(american_table(), k);
    }
    if british_table().contains_key(k) {
        lemma_code_alone_is_its_spelling(british_table(), k);
    }
}

/// Adds the spellings shared by both dialects.
fn insert_common(t: &mut StrMap<String>)
    ensures
        final(t)@ == old(t)@.insert("r"@, "ɹ"@).insert("r-"@, "ɹ"@).insert("n-"@, "n̩"@).insert(
            "m-"@,
            "m̩"@,
        ).insert("3:r"@, "ɜːɹ"@).insert("3:"@, "ɜː"@).insert("@L"@, "əl"@).insert("a#"@, "ɐ"@).insert(
            "e#"@,
            "ɛ"@,
        ).insert("I#"@, "ᵻ"@).insert("I2#"@, "ᵻ"@).insert("w#"@, "ʍ"@).insert("@2"@, "ə"@).insert(
            "@5"@,
            "ə"@,
        ).insert("I2"@, "ɪ"@),
{
    t.insert("r", owned("ɹ"));
    t.insert("r-", owned("ɹ"));
    t.insert("n-", owned("n̩"));
    t.insert("m-", owned("m̩"));
    t.insert("3:r", owned("ɜːɹ"));
    t.insert("3:", owned("ɜː"));
    t.insert("@L", owned("əl"));
    t.insert("a#", owned("ɐ"));
    t.insert("e#", owned("ɛ"));
    t.insert("I#", owned("ᵻ"));
    t.insert("I2#", owned("ᵻ"));
    t.insert("w#", owned("ʍ"));
    t.insert("@2", owned("ə"));
    t.insert("@5", owned("ə"));
    t.insert("I2", owned("ɪ"));
}

/// IPA conversion for American English.
pub struct AmericanEnglishConverter {
    overrides: StrMap<String>,
}

impl AmericanEnglishConverter {
    /// The code spellings this converter uses.
    pub closed spec fn table(&self) -> Map<Seq<char>, Seq<char>> {
        self.overrides@
    }

    /// A converter with the American table.
    pub fn new() -> (c: Self)
        ensures
            c.table() == american_table(),
    {
        let mut overrides = StrMap::new();
        insert_common(&mut overrides);
        overrides.insert("3", owned("ɚ"));
        overrides.insert("a", owned("æ"));
        overrides.insert("aa", owned("æ"));
        overrides.insert("0", owned("ɑː"));
        overrides.insert("0#", owned("ɑː"));
        overrides.insert("A#", owned("ɑː"));
        overrides.insert("A@", owned("ɑːɹ"));
        overrides.insert("A:r", owned("ɑːɹ"));
        overrides.insert("e@", owned("ɛɹ"));
        overrides.insert("e@r", owned("ɛɹ"));
        overrides.insert("U@", owned("ʊɹ"));
        overrides.insert("O@", owned("ɔːɹ"));
        overrides.insert("O@r", owned("ɔːɹ"));
        overrides.insert("o@", owned("oːɹ"));
        overrides.insert("o@r", owned("oːɹ"));
        overrides.insert("i@", owned("iə"));
        overrides.insert("i@3", owned("ɪɹ"));
        overrides.insert("i@3r", owned("ɪɹ"));
        overrides.insert("aI@", owned("aɪə"));
        overrides.insert("aI3", owned("aɪɚ"));
        overrides.insert("aU@", owned("aɪʊɹ"));
        overrides.insert("IR", owned("əɹ"));
        overrides.insert("VR", owned("ʌɹ"));
        overrides.insert("02", owned("ʌ"));
        overrides.insert("i", owned("i"));
        Self { overrides }
    }
}

impl Default for AmericanEnglishConverter {
    fn default() -> (c: Self)
        ensures
            c.table() == american_table(),
    {
        Self::new()
    }
}

impl IpaConverter for AmericanEnglishConverter {
    fn phonemes_to_ipa(&self, phoneme_str: &str) -> (r: String)
        ensures
            r@ == ipa_of(self.table(), phoneme_str@),
    {
        convert(&self.overrides, phoneme_str)
    }

    fn is_vowel(&self, code: &str) -> (r: bool)
        ensures
            r == code_is_vowel(self.table(), code@, true),
    {
        vowel_code(&self.overrides, code, true)
    }

    fn dialect(&self) -> (d: &str)
        ensures
            d@ == "en-us"@,
    {
        "en-us"
    }
}

/// IPA conversion for British English.
pub struct BritishEnglishConverter {
    overrides: StrMap<String>,
}

impl BritishEnglishConverter {
    /// The code spellings this converter uses.
    pub closed spec fn table(&self) -> Map<Seq<char>, Seq<char>> {
        self.overrides@
    }

    /// A converter with the British table.
    pub fn new() -> (c: Self)
        ensures
            c.table() == british_table(),
    {
        let mut overrides = StrMap::new();
        insert_common(&mut overrides);
        overrides.insert("3", owned("ɜ"));
        overrides.insert("a", owned("a"));
        overrides.insert("aa", owned("a"));
        overrides.insert("0", owned("ɒ"));
        overrides.insert("oU", owned("əʊ"));
        overrides.insert("A@", owned("ɑː"));
        overrides.insert("IR", owned("əɹ"));
        Self { overrides }
    }
}

impl Default for BritishEnglishConverter {
    fn default() -> (c: Self)
        ensures
            c.table() == british_table(),
    {
        Self::new()
    }
}

impl IpaConverter for BritishEnglishConverter {
    fn phonemes_to_ipa(&self, phoneme_str: &str) -> (r: String)
        ensures
            r@ == ipa_of(self.table(), phoneme_str@),
    {
        convert(&self.overrides, phoneme_str)
    }

    fn is_vowel(&self, code: &str) -> (r: bool)
        ensures
            r == code_is_vowel(self.table(), code@, false),
    {
        vowel_code(&self.overrides, code, false)
    }

    fn dialect(&self) -> (d: &str)
        ensures
            d@ == "en-gb"@,
    {
        "en-gb"
    }
}

} // verus!
