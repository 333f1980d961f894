//! Character-level helpers shared by the phonemizer: string building,
//! ASCII case folding, UTF-8 widths and the Unicode character classes
//! that the tokenizer and the rule engine rely on.
use vstd::prelude::*;

verus! {

// ---------------------------------------------------------------------
// Unicode character classes
// ---------------------------------------------------------------------

/// Whether `c` has the Unicode `White_Space` property: tab, line feed,
/// vertical tab, form feed, carriage return, space, next line, no-break
/// space, ogham space mark, the spaces U+2000 to U+200A, line and
/// paragraph separators, narrow no-break space, medium mathematical space
/// and ideographic space.
pub open spec fn is_unicode_whitespace(c: char) -> bool {
    let u = c as u32;
    ||| 0x09 <= u <= 0x0D
    ||| u == 0x20
    ||| u == 0x85
    ||| u == 0xA0
    ||| u == 0x1680
    ||| 0x2000 <= u <= 0x200A
    ||| u == 0x2028
    ||| u == 0x2029
    ||| u == 0x202F
    ||| u == 0x205F
    ||| u == 0x3000
}

/// Whether `c` has the Unicode `Alphabetic` property.
pub uninterp spec fn is_unicode_alphabetic(c: char) -> bool;

/// Whether `c` is an ASCII letter.
pub open spec fn is_ascii_letter(c: char) -> bool {
    ('a' <= c && c <= 'z') || ('A' <= c && c <= 'Z')
}

/// `char::is_whitespace`: true exactly when `c` has the Unicode
/// `White_Space` property, whose members are listed in
/// `is_unicode_whitespace`.
#[verifier::external_body]
pub(crate) fn char_is_whitespace(c: char) -> (b: bool)
    ensures
        b == is_unicode_whitespace(c),
{
    c.is_whitespace()
}

/// `char::is_alphabetic`: true when `c` has the Unicode `Alphabetic`
/// property. Among ASCII characters exactly the letters have it; the
/// property's table beyond ASCII is not restated here.
#[verifier::external_body]
pub(crate) fn char_is_alphabetic(c: char) -> (b: bool)
    ensures
        b == is_unicode_alphabetic(c),
        (c as u32) < 128 ==> (b == is_ascii_letter(c)),
{
    c.is_alphabetic()
}

// ---------------------------------------------------------------------
// ASCII case folding
// ---------------------------------------------------------------------

/// Whether `c` is one of the ASCII capitals `A`..=`Z`.
pub open spec fn is_ascii_upper(c: char) -> bool {
    'A' <= c && c <= 'Z'
}

/// `c` with an ASCII capital mapped to its small letter; every other
/// character is unchanged.
pub open spec fn ascii_lower(c: char) -> char {
    if is_ascii_upper(c) {
        ((c as u32) + 32) as char
    } else {
        c
    }
}

/// ASCII-case-insensitive equality of two characters.
pub open spec fn eq_ignore_case(a: char, b: char) -> bool {
    ascii_lower(a) == ascii_lower(b)
}

/// `ascii_lower` applied to every character.
pub open spec fn lower_all(s: Seq<char>) -> Seq<char> {
    s.map_values(|c: char| ascii_lower(c))
}

/// Maps an ASCII capital to its small letter and leaves every other
/// character unchanged.
pub fn to_ascii_lower(c: char) -> (r: char)
    ensures
        r == ascii_lower(c),
{
    if 'A' <= c && c <= 'Z' {
        let u: u32 = (c as u32) + 32;
        let b: u8 = u as u8;
        b as char
    } else {
        c
    }
}

/// ASCII-case-insensitive equality of two characters.
pub fn chars_eq_ignore_case(a: char, b: char) -> (r: bool)
    ensures
        r == eq_ignore_case(a, b),
{
    to_ascii_lower(a) == to_ascii_lower(b)
}

// ---------------------------------------------------------------------
// Building strings
// ---------------------------------------------------------------------

/// Appends one character to a `String` (`String::push`).
/// Claims that the new contents are the old contents followed by `c`.
#[verifier::external_body]
pub(crate) fn push_char(s: &mut String, c: char)
    ensures
        final(s)@ == old(s)@.push(c),
{
    s.push(c);
}

/// The characters of `s`, in order.
pub fn chars_of(s: &str) -> (v: Vec<char>)
    ensures
        v@ == s@,
{
    let mut v: Vec<char> = Vec::new();
    for c in it: s.chars()
        invariant
            v@ == it.seq().take(it.index() as int),
            it.seq() == s@,
    {
        v.push(c);
    }
    v
}

/// A `String` holding the characters `v[from..to]`.
pub fn string_of_range(v: &[char], from: usize, to: usize) -> (s: String)
    requires
        from <= to <= v@.len(),
    ensures
        s@ == v@.subrange(from as int, to as int),
{
    let mut s = String::new();
    let mut i = from;
    while i < to
        invariant
            from <= i <= to <= v@.len(),
            s@ == v@.subrange(from as int, i as int),
        decreases to - i,
    {
        push_char(&mut s, v[i]);
        i += 1;
    }
    s
}

/// A `String` holding the characters of `v`.
pub fn string_of(v: &[char]) -> (s: String)
    ensures
        s@ == v@,
{
    let s = string_of_range(v, 0, v.len());
    assert(v@.subrange(0, v@.len() as int) == v@);
    s
}

/// A copy of `s` as an owned `String`.
pub fn owned(s: &str) -> (r: String)
    ensures
        r@ == s@,
{
    s.to_owned()
}

/// Whether two character slices are equal.
pub fn slices_eq(a: &[char], b: &[char]) -> (r: bool)
    ensures
        r == (a@ == b@),
{
    if a.len() != b.len() {
        return false;
    }
    let mut i: usize = 0;
    while i < a.len()
        invariant
            a@.len() == b@.len(),
            i <= a@.len(),
            forall|j: int| 0 <= j < i ==> a@[j] == b@[j],
        decreases a.len() - i,
    {
        if a[i] != b[i] {
            return false;
        }
        i += 1;
    }
    assert(a@ =~= b@);
    true
}

/// Whether `v[start..start + key.len()]` equals `key`.
pub fn range_eq(v: &[char], start: usize, key: &[char]) -> (r: bool)
    requires
        start + key@.len() <= v@.len(),
    ensures
        r == (v@.subrange(start as int, start + key@.len()) == key@),
{
    let mut i: usize = 0;
    while i < key.len()
        invariant
            start + key@.len() <= v@.len(),
            i <= key@.len(),
            forall|j: int| 0 <= j < i ==> v@[start + j] == key@[j],
        decreases key.len() - i,
    {
        assert(start + i < v.len());
        if v[start + i] != key[i] {
            assert(v@.subrange(start as int, start + key@.len())[i as int] != key@[i as int]);
            return false;
        }
        i += 1;
    }
    assert(v@.subrange(start as int, start + key@.len()) =~= key@);
    true
}

/// Whether `c` occurs in `v`.
pub fn slice_has(v: &[char], c: char) -> (r: bool)
    ensures
        r == v@.contains(c),
{
    let mut i: usize = 0;
    while i < v.len()
        invariant
            i <= v@.len(),
            forall|j: int| 0 <= j < i ==> v@[j] != c,
        decreases v.len() - i,
    {
        if v[i] == c {
            return true;
        }
        i += 1;
    }
    false
}

/// Whether the character `c` occurs in the string `s`.
pub fn str_has(s: &str, c: char) -> (r: bool)
    ensures
        r == s@.contains(c),
{
    let v = chars_of(s);
    slice_has(&v, c)
}

// ---------------------------------------------------------------------
// UTF-8 lengths
// ---------------------------------------------------------------------

/// Number of bytes in the UTF-8 encoding of `c`.
pub open spec fn utf8_width(c: char) -> nat {
    if (c as u32) <= 0x7F {
        1
    } else if (c as u32) <= 0x7FF {
        2
    } else if (c as u32) <= 0xFFFF {
        3
    } else {
        4
    }
}

/// Number of bytes in the UTF-8 encoding of `s`.
pub open spec fn byte_len(s: Seq<char>) -> nat
    decreases s.len(),
{
    if s.len() == 0 {
        0
    } else {
        utf8_width(s[0]) + byte_len(s.drop_first())
    }
}

/// `byte_len` is the length of vstd's UTF-8 encoding, which is what
/// `str::len` returns.
pub proof fn lemma_byte_len_encode(s: Seq<char>)
    ensures
        byte_len(s) == vstd::utf8::encode_utf8(s).len(),
    decreases s.len(),
{
    if s.len() > 0 {
        let c = s[0];
        vstd::utf8::char_is_scalar(c);
        lemma_byte_len_encode(s.drop_first());
    }
}

/// The byte length of a concatenation is the sum of the byte lengths.
pub proof fn lemma_byte_len_concat(a: Seq<char>, b: Seq<char>)
    ensures
        byte_len(a + b) == byte_len(a) + byte_len(b),
    decreases a.len(),
{
    if a.len() > 0 {
        assert((a + b).drop_first() =~= a.drop_first() + b);
        lemma_byte_len_concat(a.drop_first(), b);
    } else {
        assert(a + b =~= b);
    }
}

/// Extending a prefix by one character adds that character's width.
pub proof fn lemma_byte_len_prefix_step(s: Seq<char>, k: int)
    requires
        0 <= k < s.len(),
    ensures
        byte_len(s.take(k + 1)) == byte_len(s.take(k)) + utf8_width(s[k]),
{
    assert(s.take(k + 1) =~= s.take(k) + seq![s[k]]);
    lemma_byte_len_concat(s.take(k), seq![s[k]]);
    assert(byte_len(seq![s[k]]) == utf8_width(s[k])) by {
        reveal_with_fuel(byte_len, 2);
        assert(seq![s[k]].drop_first() =~= Seq::<char>::empty());
    }
}

/// Byte length of prefixes grows with the prefix.
pub proof fn lemma_byte_len_prefix_mono(s: Seq<char>, i: int, j: int)
    requires
        0 <= i <= j <= s.len(),
    ensures
        byte_len(s.take(i)) <= byte_len(s.take(j)),
        i < j ==> byte_len(s.take(i)) < byte_len(s.take(j)),
    decreases j - i,
{
    if i < j {
        lemma_byte_len_prefix_mono(s, i, j - 1);
        lemma_byte_len_prefix_step(s, j - 1);
    }
}

/// The UTF-8 width of `c`, computed from its scalar value.
pub fn char_width(c: char) -> (w: usize)
    ensures
        w == utf8_width(c),
{
    let u: u32 = c as u32;
    if u <= 0x7F {
        1
    } else if u <= 0x7FF {
        2
    } else if u <= 0xFFFF {
        3
    } else {
        4
    }
}

/// The byte length of `s` (`str::len`), tied to `byte_len`.
pub fn str_byte_len(s: &str) -> (n: usize)
    ensures
        n == byte_len(s@),
{
    proof {
        lemma_byte_len_encode(s@);
    }
    let bytes: &[u8] = s.as_bytes();
    bytes.len()
}

/// Appends the characters of `t` to `s`.
pub fn push_chars(s: &mut String, t: &[char])
    ensures
        final(s)@ == old(s)@ + t@,
{
    let mut i: usize = 0;
    while i < t.len()
        invariant
            i <= t@.len(),
            s@ == old(s)@ + t@.take(i as int),
        decreases t.len() - i,
    {
        push_char(s, t[i]);
        assert(t@.take(i + 1) =~= t@.take(i as int).push(t@[i as int]));
        i += 1;
    }
    assert(t@.take(t@.len() as int) =~= t@);
}

/// `a` followed by `b`.
pub fn concat(a: &str, b: &str) -> (r: String)
    ensures
        r@ == a@ + b@,
{
    let mut r = owned(a);
    let vb = chars_of(b);
    push_chars(&mut r, vb.as_slice());
    r
}

} // verus!
