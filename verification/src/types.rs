//! Core data types of the phonemizer: phoneme tokens, text tokens,
//! pronunciation rules and the letter groups that rule contexts refer to.
use vstd::prelude::*;
use crate::tables::{CharSet, StrMap};
use crate::text::{ascii_lower, byte_len, chars_of, str_byte_len, to_ascii_lower};

verus! {

/// Kind of a phoneme-level token.
#[derive(Debug, Clone, Copy, PartialEq, Eq)]
pub enum PhTokenType {
    StressPrimary,
    StressSecondary,
    Phoneme,
    Pause,
    Syllable,
}

/// A phoneme-level token: its kind, its phoneme code and whether it is a vowel.
#[derive(Debug, Clone)]
pub struct PhToken {
    pub token_type: PhTokenType,
    pub code: String,
    pub is_vowel: bool,
}

impl PhToken {
    /// A token with the given fields.
    pub fn new(token_type: PhTokenType, code: String, is_vowel: bool) -> (t: Self)
        ensures
            t.token_type == token_type,
            t.code@ == code@,
            t.is_vowel == is_vowel,
    {
        Self { token_type, code, is_vowel }
    }
}

/// A text token: a word or a run of punctuation, and whether it is written
/// directly against the previous token.
pub struct Token {
    pub text: String,
    pub is_word: bool,
    pub needs_space_before: bool,
}

/// A textual replacement applied before phonemization.
#[derive(Debug, Clone)]
pub struct ReplaceRule {
    pub from: String,
    pub to: String,
}

/// One pronunciation rule: the letters it matches, the contexts around
/// them and the phonemes it produces.
#[derive(Debug, Default, Clone)]
pub struct PhonemeRule {
    pub condition: i32,
    pub condition_negated: bool,
    pub left_ctx: String,
    pub match_str: String,
    pub right_ctx: String,
    pub phonemes: String,
    pub del_fwd: i32,
    pub is_prefix: bool,
    pub is_suffix: bool,
    pub suffix_strip_len: i32,
    pub suffix_flags: i32,
}

/// Letters of group `A`: the vowels.
pub open spec fn letters_a() -> Set<char> {
    "aeiou"@.to_set()
}

/// Letters of group `B`.
pub open spec fn letters_b() -> Set<char> {
    "bcdfgjklmnpqstvxz"@.to_set()
}

/// Letters of group `C`: the consonants.
pub open spec fn letters_c() -> Set<char> {
    "bcdfghjklmnpqrstvwxz"@.to_set()
}

/// Letters of group `H`.
pub open spec fn letters_h() -> Set<char> {
    "hlmnr"@.to_set()
}

/// Letters of group `F`.
pub open spec fn letters_f() -> Set<char> {
    "cfhkpqstx"@.to_set()
}

/// Letters of group `G`.
pub open spec fn letters_g() -> Set<char> {
    "bdgjlmnrvwyz"@.to_set()
}

/// Letters of group `Y`: the vowels and `y`.
pub open spec fn letters_y() -> Set<char> {
    "aeiouy"@.to_set()
}

/// Letters of group `K`: the consonants and `y`.
pub open spec fn letters_k() -> Set<char> {
    "bcdfghjklmnpqrstvwxyz"@.to_set()
}

/// Named letter groups used by rule contexts.
pub struct LetterGroups {
    pub group_a: CharSet,
    pub group_b: CharSet,
    pub group_c: CharSet,
    pub group_f: CharSet,
    pub group_g: CharSet,
    pub group_h: CharSet,
    pub group_y: CharSet,
    pub group_k: CharSet,
    pub lgroups: Vec<Vec<String>>,
}

/// Number of numbered letter-group slots a fresh `LetterGroups` has.
pub const LGROUP_SLOTS: usize = 100;

impl LetterGroups {
    /// Whether the group named `g` holds `c`; unknown names hold nothing.
    pub open spec fn group_has(&self, g: char, c: char) -> bool {
        if g == 'A' {
            self.group_a@.contains(c)
        } else if g == 'B' {
            self.group_b@.contains(c)
        } else if g == 'C' {
            self.group_c@.contains(c)
        } else if g == 'F' {
            self.group_f@.contains(c)
        } else if g == 'G' {
            self.group_g@.contains(c)
        } else if g == 'H' {
            self.group_h@.contains(c)
        } else if g == 'Y' {
            self.group_y@.contains(c)
        } else if g == 'K' {
            self.group_k@.contains(c)
        } else {
            false
        }
    }

    /// Whether every group holds exactly its standard letters.
    pub open spec fn is_standard(&self) -> bool {
        &&& self.group_a@ == letters_a()
        &&& self.group_b@ == letters_b()
        &&& self.group_c@ == letters_c()
        &&& self.group_f@ == letters_f()
        &&& self.group_g@ == letters_g()
        &&& self.group_h@ == letters_h()
        &&& self.group_y@ == letters_y()
        &&& self.group_k@ == letters_k()
    }

    /// Groups holding their standard letters, with `LGROUP_SLOTS` empty
    /// numbered groups.
    pub fn new() -> (g: Self)
        ensures
            g.is_standard(),
            g.lgroups@.len() == LGROUP_SLOTS,
            forall|i: int| 0 <= i < LGROUP_SLOTS ==> (#[trigger] g.lgroups@[i])@.len() == 0,
    {
        let mut lgroups: Vec<Vec<String>> = Vec::new();
        let mut i: usize = 0;
        while i < LGROUP_SLOTS
            invariant
                i <= LGROUP_SLOTS,
                lgroups@.len() == i,
                forall|j: int| 0 <= j < i ==> (#[trigger] lgroups@[j])@.len() == 0,
            decreases LGROUP_SLOTS - i,
        {
            lgroups.push(Vec::new());
            i += 1;
        }
        let mut groups = Self {
            group_a: CharSet::new(),
            group_b: CharSet::new(),
            group_c: CharSet::new(),
            group_f: CharSet::new(),
            group_g: CharSet::new(),
            group_h: CharSet::new(),
            group_y: CharSet::new(),
            group_k: CharSet::new(),
            lgroups,
        };
        groups.init();
        proof {
            assert(Set::<char>::empty().union(letters_a()) =~= letters_a());
            assert(Set::<char>::empty().union(letters_b()) =~= letters_b());
            assert(Set::<char>::empty().union(letters_c()) =~= letters_c());
            assert(Set::<char>::empty().union(letters_f()) =~= letters_f());
            assert(Set::<char>::empty().union(letters_g()) =~= letters_g());
            assert(Set::<char>::empty().union(letters_h()) =~= letters_h());
            assert(Set::<char>::empty().union(letters_y()) =~= letters_y());
            assert(Set::<char>::empty().union(letters_k()) =~= letters_k());
        }
        groups
    }

    /// Adds the standard letters to each group.
    pub fn init(&mut self)
        ensures
            final(self).group_a@ == old(self).group_a@.union(letters_a()),
            final(self).group_b@ == old(self).group_b@.union(letters_b()),
            final(self).group_c@ == old(self).group_c@.union(letters_c()),
            final(self).group_f@ == old(self).group_f@.union(letters_f()),
            final(self).group_g@ == old(self).group_g@.union(letters_g()),
            final(self).group_h@ == old(self).group_h@.union(letters_h()),
            final(self).group_y@ == old(self).group_y@.union(letters_y()),
            final(self).group_k@ == old(self).group_k@.union(letters_k()),
            final(self).lgroups@ == old(self).lgroups@,
    {
        self.group_a.insert_all("aeiou");
        self.group_b.insert_all("bcdfgjklmnpqstvxz");
        self.group_c.insert_all("bcdfghjklmnpqrstvwxz");
        self.group_h.insert_all("hlmnr");
        self.group_f.insert_all("cfhkpqstx");
        self.group_g.insert_all("bdgjlmnrvwyz");
        self.group_y.insert_all("aeiouy");
        self.group_k.insert_all("bcdfghjklmnpqrstvwxyz");
    }

    /// Whether `c`, ASCII-lowercased, is in group `A`.
    pub fn is_vowel(&self, c: char) -> (r: bool)
        ensures
            r == self.group_a@.contains(ascii_lower(c)),
    {
        self.group_a.contains(to_ascii_lower(c))
    }

    /// Whether the character at position `pos` of `word`, ASCII-lowercased,
    /// is in the group named `group_char`. A position at or past the byte
    /// length of `word` never matches; a position inside the byte length
    /// but past the last character is looked up as a space.
    pub fn match_group(&self, group_char: char, word: &str, pos: usize) -> (r: bool)
        ensures
            r == (pos < byte_len(word@) && self.group_has(
                group_char,
                if pos < word@.len() {
                    ascii_lower(word@[pos as int])
                } else {
                    ' '
                },
            )),
    {
        if pos >= str_byte_len(word) {
            return false;
        }
        let chars = chars_of(word);
        let c = if pos < chars.len() {
            to_ascii_lower(chars[pos])
        } else {
            ' '
        };
        match group_char {
            'A' => self.group_a.contains(c),
            'B' => self.group_b.contains(c),
            'C' => self.group_c.contains(c),
            'F' => self.group_f.contains(c),
            'G' => self.group_g.contains(c),
            'H' => self.group_h.contains(c),
            'Y' => self.group_y.contains(c),
            'K' => self.group_k.contains(c),
            _ => false,
        }
    }
}

impl Default for LetterGroups {
    fn default() -> (g: Self)
        ensures
            g.is_standard(),
            g.lgroups@.len() == LGROUP_SLOTS,
            forall|i: int| 0 <= i < LGROUP_SLOTS ==> (#[trigger] g.lgroups@[i])@.len() == 0,
    {
        Self::new()
    }
}

/// A complete rule set: letter groups, replacements and rules grouped by
/// the letters they start with.
pub struct RuleSet {
    pub groups: LetterGroups,
    pub replacements: Vec<ReplaceRule>,
    pub rule_groups: StrMap<Vec<PhonemeRule>>,
}

impl RuleSet {
    /// Standard letter groups, no replacements and no rules.
    pub fn new() -> (r: Self)
        ensures
            r.groups.is_standard(),
            r.groups.lgroups@.len() == LGROUP_SLOTS,
            r.replacements@.len() == 0,
            r.rule_groups@ == Map::<Seq<char>, Seq<PhonemeRule>>::empty(),
    {
        Self { groups: LetterGroups::new(), replacements: Vec::new(), rule_groups: StrMap::new() }
    }
}

impl Default for RuleSet {
    fn default() -> (r: Self)
        ensures
            r.groups.is_standard(),
            r.replacements@.len() == 0,
            r.rule_groups@ == Map::<Seq<char>, Seq<PhonemeRule>>::empty(),
    {
        Self::new()
    }
}

} // verus!
