//! Pronunciation dictionaries and word flags.
use vstd::prelude::*;
use crate::phonemizer::Result;
use crate::tables::{StrMap, StrSet};
use crate::text::{byte_len, str_byte_len};

verus! {

/// All dictionary data: pronunciations by context, word lists with
/// special handling, stress positions and compound prefixes.
#[derive(Debug, Clone)]
pub struct DictionarySet {
    /// Main general dictionary word -> phonemes
    pub general: StrMap<String>,
    /// Verbs dictionary
    pub verbs: StrMap<String>,
    /// Nouns dictionary
    pub nouns: StrMap<String>,
    /// Words that should be at start of utterance
    pub at_start: StrMap<String>,
    /// Words that should be at end of utterance
    pub at_end: StrMap<String>,
    /// Capitalized word pronunciations
    pub capital: StrMap<String>,
    /// One-syllable word dictionary
    pub onlys_bare: StrMap<String>,
    /// Phrase definitions (two-word phrases)
    pub phrases: StrMap<String>,
    /// Phrase split definitions (can split pronunciation)
    pub phrase_splits: StrMap<(String, String)>,
    pub past_form_words: StrSet,
    pub noun_form_words: StrSet,
    pub verb_form_words: StrSet,
    pub unstressed_words: StrSet,
    pub unstressed_end_words: StrSet,
    pub abbreviation_words: StrSet,
    pub only_ones_words: StrSet,
    pub only_words: StrSet,
    pub onlys_words: StrSet,
    pub compound_prefixes_words: StrSet,
    pub comma_stress_end2_words: StrSet,
    pub u2_stress_end2_words: StrSet,
    pub u_plus_secondary_words: StrSet,
    pub keepu2_phrase_keys: StrSet,
    pub noun_form_stress: StrSet,
    pub verb_flag_words: StrSet,
    /// word -> stress position (1-6)
    pub stress_positions: StrMap<i32>,
    /// word -> alt form flags
    pub word_alt_flags: StrMap<i32>,
    /// (prefix, phonemes), longest prefix first once finalized
    pub compound_prefixes: Vec<(String, String)>,
}

/// The views of a list of string pairs.
pub open spec fn pair_views(v: Seq<(String, String)>) -> Seq<(Seq<char>, Seq<char>)> {
    v.map_values(|e: (String, String)| (e.0@, e.1@))
}

/// The sort key of a compound prefix entry: the byte length of the prefix.
pub open spec fn prefix_key(e: (Seq<char>, Seq<char>)) -> nat {
    byte_len(e.0)
}

/// The entries of `s` whose key is `k`, in order.
pub open spec fn with_key(s: Seq<(Seq<char>, Seq<char>)>, k: nat) -> Seq<(Seq<char>, Seq<char>)>
    decreases s.len(),
{
    if s.len() == 0 {
        s
    } else if prefix_key(s.last()) == k {
        with_key(s.drop_last(), k).push(s.last())
    } else {
        with_key(s.drop_last(), k)
    }
}

/// Whether the keys of `s` never increase.
pub open spec fn keys_descending(s: Seq<(Seq<char>, Seq<char>)>) -> bool {
    forall|i: int, j: int| 0 <= i < j < s.len() ==> prefix_key(#[trigger] s[i]) >= prefix_key(#[trigger] s[j])
}

/// `f` is `o` sorted by descending key, entries with equal keys kept in
/// the order they had before.
pub open spec fn stably_sorted_desc(o: Seq<(Seq<char>, Seq<char>)>, f: Seq<(Seq<char>, Seq<char>)>) -> bool {
    &&& keys_descending(f)
    &&& forall|k: nat| #[trigger] with_key(f, k) == with_key(o, k)
}

proof fn lemma_with_key_concat(a: Seq<(Seq<char>, Seq<char>)>, b: Seq<(Seq<char>, Seq<char>)>, k: nat)
    ensures
        with_key(a + b, k) == with_key(a, k) + with_key(b, k),
    decreases b.len(),
{
    if b.len() == 0 {
        assert(a + b =~= a);
        assert(with_key(a, k) + with_key(b, k) =~= with_key(a, k));
    } else {
        assert((a + b).drop_last() =~= a + b.drop_last());
        assert((a + b).last() == b.last());
        lemma_with_key_concat(a, b.drop_last(), k);
        if prefix_key(b.last()) == k {
            assert(with_key(a, k) + with_key(b.drop_last(), k).push(b.last()) =~= (with_key(a, k)
                + with_key(b.drop_last(), k)).push(b.last()));
        }
    }
}

proof fn lemma_with_key_none(s: Seq<(Seq<char>, Seq<char>)>, k: nat)
    requires
        forall|i: int| 0 <= i < s.len() ==> prefix_key(#[trigger] s[i]) != k,
    ensures
        with_key(s, k) == Seq::<(Seq<char>, Seq<char>)>::empty(),
    decreases s.len(),
{
    if s.len() > 0 {
        assert(prefix_key(s[s.len() - 1]) != k);
        lemma_with_key_none(s.drop_last(), k);
    }
}

proof fn lemma_with_key_single(e: (Seq<char>, Seq<char>), k: nat)
    ensures
        with_key(seq![e], k) == if prefix_key(e) == k {
            seq![e]
        } else {
            Seq::<(Seq<char>, Seq<char>)>::empty()
        },
{
    let s = seq![e];
    reveal_with_fuel(with_key, 2);
    assert(s.drop_last() =~= Seq::<(Seq<char>, Seq<char>)>::empty());
    assert(s.last() == e);
    if prefix_key(e) == k {
        assert(Seq::<(Seq<char>, Seq<char>)>::empty().push(e) =~= seq![e]);
    }
}

/// Inserting `x` at `p` into a descending list whose entries before `p`
/// have keys at least `x`'s and whose entries from `p` on have smaller
/// keys keeps it descending and adds `x` at the end of its key's entries.
proof fn lemma_insert_sorted(out: Seq<(Seq<char>, Seq<char>)>, x: (Seq<char>, Seq<char>), p: int)
    requires
        0 <= p <= out.len(),
        keys_descending(out),
        forall|i: int| 0 <= i < p ==> prefix_key(#[trigger] out[i]) >= prefix_key(x),
        forall|i: int| p <= i < out.len() ==> prefix_key(#[trigger] out[i]) < prefix_key(x),
    ensures
        keys_descending(out.insert(p, x)),
        forall|k: nat| #[trigger] with_key(out.insert(p, x), k) == if prefix_key(x) == k {
            with_key(out, k).push(x)
        } else {
            with_key(out, k)
        },
{
    let r = out.insert(p, x);
    assert forall|i: int, j: int| 0 <= i < j < r.len() implies prefix_key(#[trigger] r[i]) >= prefix_key(#[trigger] r[j]) by {
        if j < p {
            assert(r[i] == out[i] && r[j] == out[j]);
        } else if j == p {
            assert(r[i] == out[i]);
        } else if i < p {
            assert(r[i] == out[i] && r[j] == out[j - 1]);
        } else if i == p {
            assert(r[j] == out[j - 1]);
        } else {
            assert(r[i] == out[i - 1] && r[j] == out[j - 1]);
        }
    }
    assert forall|k: nat| #[trigger] with_key(r, k) == if prefix_key(x) == k {
        with_key(out, k).push(x)
    } else {
        with_key(out, k)
    } by {
        let a = out.take(p);
        let b = out.skip(p);
        assert(r =~= a + seq![x] + b);
        assert(out =~= a + b);
        lemma_with_key_concat(a + seq![x], b, k);
        lemma_with_key_concat(a, seq![x], k);
        lemma_with_key_concat(a, b, k);
        lemma_with_key_single(x, k);
        if prefix_key(x) == k {
            assert forall|i: int| 0 <= i < b.len() implies prefix_key(#[trigger] b[i]) != k by {
                assert(b[i] == out[p + i]);
            }
            lemma_with_key_none(b, k);
            assert(with_key(a, k) + seq![x] + Seq::<(Seq<char>, Seq<char>)>::empty() =~= (with_key(a, k)
                + Seq::<(Seq<char>, Seq<char>)>::empty()).push(x));
        } else {
            assert(with_key(a, k) + Seq::<(Seq<char>, Seq<char>)>::empty() =~= with_key(a, k));
        }
    }
}

proof fn lemma_with_key_nonempty(s: Seq<(Seq<char>, Seq<char>)>, k: nat)
    requires
        with_key(s, k).len() > 0,
    ensures
        exists|i: int| 0 <= i < s.len() && prefix_key(#[trigger] s[i]) == k,
    decreases s.len(),
{
    if s.len() > 0 {
        if prefix_key(s.last()) == k {
            assert(prefix_key(s[s.len() - 1]) == k);
        } else {
            lemma_with_key_nonempty(s.drop_last(), k);
            let i = choose|i: int| 0 <= i < s.drop_last().len() && prefix_key(#[trigger] s.drop_last()[i]) == k;
            assert(prefix_key(s[i]) == k);
        }
    }
}

/// Two descending lists with the same entries for every key are equal.
proof fn lemma_same_key_classes(f1: Seq<(Seq<char>, Seq<char>)>, f2: Seq<(Seq<char>, Seq<char>)>)
    requires
        keys_descending(f1),
        keys_descending(f2),
        forall|k: nat| #[trigger] with_key(f1, k) == with_key(f2, k),
    ensures
        f1 == f2,
    decreases f1.len() + f2.len(),
{
    if f1.len() == 0 && f2.len() == 0 {
        assert(f1 =~= f2);
    } else if f1.len() == 0 {
        let k = prefix_key(f2.last());
        assert(with_key(f2, k).len() > 0);
        assert(with_key(f1, k).len() == 0);
    } else if f2.len() == 0 {
        let k = prefix_key(f1.last());
        assert(with_key(f1, k).len() > 0);
        assert(with_key(f2, k).len() == 0);
    } else {
        let m1 = prefix_key(f1.last());
        let m2 = prefix_key(f2.last());
        assert(with_key(f1, m1).len() > 0);
        lemma_with_key_nonempty(f2, m1);
        let i2 = choose|i: int| 0 <= i < f2.len() && prefix_key(#[trigger] f2[i]) == m1;
        if i2 < f2.len() - 1 {
            assert(prefix_key(f2[i2]) >= prefix_key(f2[f2.len() - 1]));
        }
        assert(m2 <= m1);
        assert(with_key(f2, m2).len() > 0);
        lemma_with_key_nonempty(f1, m2);
        let i1 = choose|i: int| 0 <= i < f1.len() && prefix_key(#[trigger] f1[i]) == m2;
        if i1 < f1.len() - 1 {
            assert(prefix_key(f1[i1]) >= prefix_key(f1[f1.len() - 1]));
        }
        assert(m1 == m2);
        assert(with_key(f1, m1) == with_key(f1.drop_last(), m1).push(f1.last()));
        assert(with_key(f2, m1) == with_key(f2.drop_last(), m1).push(f2.last()));
        assert(f1.last() == with_key(f1, m1).last());
        assert(f1.last() == f2.last());
        let g1 = f1.drop_last();
        let g2 = f2.drop_last();
        assert forall|k: nat| #[trigger] with_key(g1, k) == with_key(g2, k) by {
            if k == m1 {
                assert(with_key(g1, k) =~= with_key(f1, k).drop_last());
                assert(with_key(g2, k) =~= with_key(f2, k).drop_last());
            } else {
                assert(with_key(g1, k) == with_key(f1, k));
                assert(with_key(g2, k) == with_key(f2, k));
            }
        }
        assert forall|i: int, j: int| 0 <= i < j < g1.len() implies prefix_key(#[trigger] g1[i]) >= prefix_key(#[trigger] g1[j]) by {
            assert(g1[i] == f1[i] && g1[j] == f1[j]);
        }
        assert forall|i: int, j: int| 0 <= i < j < g2.len() implies prefix_key(#[trigger] g2[i]) >= prefix_key(#[trigger] g2[j]) by {
            assert(g2[i] == f2[i] && g2[j] == f2[j]);
        }
        lemma_same_key_classes(g1, g2);
        assert(f1 =~= g1.push(f1.last()));
        assert(f2 =~= g2.push(f2.last()));
    }
}

/// The order that `finalize` gives the compound prefixes is determined:
/// any two stable descending sorts of the same list are equal.
pub proof fn lemma_stable_sort_unique(
    o: Seq<(Seq<char>, Seq<char>)>,
    f1: Seq<(Seq<char>, Seq<char>)>,
    f2: Seq<(Seq<char>, Seq<char>)>,
)
    requires
        stably_sorted_desc(o, f1),
        stably_sorted_desc(o, f2),
    ensures
        f1 == f2,
{
    lemma_same_key_classes(f1, f2);
}

/// A list already in descending order is its own stable sort, so
/// finalizing twice orders the compound prefixes as finalizing once.
pub proof fn lemma_sorted_is_fixed(o: Seq<(Seq<char>, Seq<char>)>, f: Seq<(Seq<char>, Seq<char>)>)
    requires
        keys_descending(o),
        stably_sorted_desc(o, f),
    ensures
        f == o,
{
    lemma_same_key_classes(f, o);
}

/// `v` sorted by descending byte length of the prefix, stably.
fn sort_prefixes(v: &Vec<(String, String)>) -> (out: Vec<(String, String)>)
    ensures
        stably_sorted_desc(pair_views(v@), pair_views(out@)),
{
    let ghost vv = pair_views(v@);
    let mut out: Vec<(String, String)> = Vec::new();
    let mut i: usize = 0;
    while i < v.len()
        invariant
            vv == pair_views(v@),
            i <= v@.len(),
            keys_descending(pair_views(out@)),
            forall|k: nat| #[trigger] with_key(pair_views(out@), k) == with_key(vv.take(i as int), k),
        decreases v.len() - i,
    {
        let kx = str_byte_len(v[i].0.as_str());
        let ghost x = vv[i as int];
        let mut p: usize = 0;
        let ghost ov = pair_views(out@);
        while p < out.len() && str_byte_len(out[p].0.as_str()) >= kx
            invariant
                ov == pair_views(out@),
                p <= out@.len(),
                kx == prefix_key(x),
                forall|j: int| 0 <= j < p ==> prefix_key(#[trigger] ov[j]) >= kx,
            decreases out.len() - p,
        {
            p += 1;
        }
        proof {
            assert forall|j: int| p <= j < ov.len() implies prefix_key(#[trigger] ov[j]) < kx by {
                assert(prefix_key(ov[p as int]) < kx);
                if j > p {
                    assert(prefix_key(ov[p as int]) >= prefix_key(ov[j]));
                }
            }
            lemma_insert_sorted(ov, x, p as int);
        }
        let e = (v[i].0.clone(), v[i].1.clone());
        out.insert(p, e);
        proof {
            assert(pair_views(out@) =~= ov.insert(p as int, x));
            assert forall|k: nat| #[trigger] with_key(pair_views(out@), k) == with_key(vv.take(i + 1), k) by {
                assert(vv.take(i + 1).drop_last() =~= vv.take(i as int));
                assert(vv.take(i + 1).last() == x);
            }
        }
        i += 1;
    }
    assert(vv.take(v@.len() as int) =~= vv);
    out
}

impl DictionarySet {
    /// Whether every dictionary, word list and mapping is empty.
    pub open spec fn is_blank(&self) -> bool {
        &&& self.general@ == Map::<Seq<char>, Seq<char>>::empty()
        &&& self.verbs@ == Map::<Seq<char>, Seq<char>>::empty()
        &&& self.nouns@ == Map::<Seq<char>, Seq<char>>::empty()
        &&& self.at_start@ == Map::<Seq<char>, Seq<char>>::empty()
        &&& self.at_end@ == Map::<Seq<char>, Seq<char>>::empty()
        &&& self.capital@ == Map::<Seq<char>, Seq<char>>::empty()
        &&& self.onlys_bare@ == Map::<Seq<char>, Seq<char>>::empty()
        &&& self.phrases@ == Map::<Seq<char>, Seq<char>>::empty()
        &&& self.phrase_splits@ == Map::<Seq<char>, (Seq<char>, Seq<char>)>::empty()
        &&& self.past_form_words@ == Set::<Seq<char>>::empty()
        &&& self.noun_form_words@ == Set::<Seq<char>>::empty()
        &&& self.verb_form_words@ == Set::<Seq<char>>::empty()
        &&& self.unstressed_words@ == Set::<Seq<char>>::empty()
        &&& self.unstressed_end_words@ == Set::<Seq<char>>::empty()
        &&& self.abbreviation_words@ == Set::<Seq<char>>::empty()
        &&& self.only_ones_words@ == Set::<Seq<char>>::empty()
        &&& self.only_words@ == Set::<Seq<char>>::empty()
        &&& self.onlys_words@ == Set::<Seq<char>>::empty()
        &&& self.compound_prefixes_words@ == Set::<Seq<char>>::empty()
        &&& self.comma_stress_end2_words@ == Set::<Seq<char>>::empty()
        &&& self.u2_stress_end2_words@ == Set::<Seq<char>>::empty()
        &&& self.u_plus_secondary_words@ == Set::<Seq<char>>::empty()
        &&& self.keepu2_phrase_keys@ == Set::<Seq<char>>::empty()
        &&& self.noun_form_stress@ == Set::<Seq<char>>::empty()
        &&& self.verb_flag_words@ == Set::<Seq<char>>::empty()
        &&& self.stress_positions@ == Map::<Seq<char>, i32>::empty()
        &&& self.word_alt_flags@ == Map::<Seq<char>, i32>::empty()
        &&& self.compound_prefixes@.len() == 0
    }

    /// Whether `self` and `other` agree on everything but the unstressed
    /// words and the compound prefixes.
    pub open spec fn agrees_elsewhere(&self, other: &Self) -> bool {
        &&& self.general@ == other.general@
        &&& self.verbs@ == other.verbs@
        &&& self.nouns@ == other.nouns@
        &&& self.at_start@ == other.at_start@
        &&& self.at_end@ == other.at_end@
        &&& self.capital@ == other.capital@
        &&& self.onlys_bare@ == other.onlys_bare@
        &&& self.phrases@ == other.phrases@
        &&& self.phrase_splits@ == other.phrase_splits@
        &&& self.past_form_words@ == other.past_form_words@
        &&& self.noun_form_words@ == other.noun_form_words@
        &&& self.verb_form_words@ == other.verb_form_words@
        &&& self.unstressed_end_words@ == other.unstressed_end_words@
        &&& self.abbreviation_words@ == other.abbreviation_words@
        &&& self.only_ones_words@ == other.only_ones_words@
        &&& self.only_words@ == other.only_words@
        &&& self.onlys_words@ == other.onlys_words@
        &&& self.compound_prefixes_words@ == other.compound_prefixes_words@
        &&& self.comma_stress_end2_words@ == other.comma_stress_end2_words@
        &&& self.u2_stress_end2_words@ == other.u2_stress_end2_words@
        &&& self.u_plus_secondary_words@ == other.u_plus_secondary_words@
        &&& self.keepu2_phrase_keys@ == other.keepu2_phrase_keys@
        &&& self.noun_form_stress@ == other.noun_form_stress@
        &&& self.verb_flag_words@ == other.verb_flag_words@
        &&& self.stress_positions@ == other.stress_positions@
        &&& self.word_alt_flags@ == other.word_alt_flags@
    }

    /// The pronunciation dictionary used in `context`.
    pub open spec fn dictionary(&self, context: DictionaryContext) -> Map<Seq<char>, Seq<char>> {
        match context {
            DictionaryContext::General => self.general@,
            DictionaryContext::Verb => self.verbs@,
            DictionaryContext::Noun => self.nouns@,
            DictionaryContext::AtStart => self.at_start@,
            DictionaryContext::AtEnd => self.at_end@,
            DictionaryContext::Capital => self.capital@,
        }
    }

    /// Empty dictionaries.
    pub fn new() -> (d: Self)
        ensures
            d.is_blank(),
    {
        Self {
            general: StrMap::new(),
            verbs: StrMap::new(),
            nouns: StrMap::new(),
            at_start: StrMap::new(),
            at_end: StrMap::new(),
            capital: StrMap::new(),
            onlys_bare: StrMap::new(),
            phrases: StrMap::new(),
            phrase_splits: StrMap::new(),
            past_form_words: StrSet::new(),
            noun_form_words: StrSet::new(),
            verb_form_words: StrSet::new(),
            unstressed_words: StrSet::new(),
            unstressed_end_words: StrSet::new(),
            abbreviation_words: StrSet::new(),
            only_ones_words: StrSet::new(),
            only_words: StrSet::new(),
            onlys_words: StrSet::new(),
            compound_prefixes_words: StrSet::new(),
            comma_stress_end2_words: StrSet::new(),
            u2_stress_end2_words: StrSet::new(),
            u_plus_secondary_words: StrSet::new(),
            keepu2_phrase_keys: StrSet::new(),
            noun_form_stress: StrSet::new(),
            verb_flag_words: StrSet::new(),
            stress_positions: StrMap::new(),
            word_alt_flags: StrMap::new(),
            compound_prefixes: Vec::new(),
        }
    }

    /// Empties every dictionary, word list and mapping.
    pub fn clear(&mut self)
        ensures
            final(self).is_blank(),
    {
        self.general.clear();
        self.verbs.clear();
        self.nouns.clear();
        self.at_start.clear();
        self.at_end.clear();
        self.capital.clear();
        self.onlys_bare.clear();
        self.phrases.clear();
        self.phrase_splits.clear();
        self.past_form_words.clear();
        self.noun_form_words.clear();
        self.verb_form_words.clear();
        self.unstressed_words.clear();
        self.unstressed_end_words.clear();
        self.abbreviation_words.clear();
        self.only_ones_words.clear();
        self.only_words.clear();
        self.onlys_words.clear();
        self.compound_prefixes_words.clear();
        self.comma_stress_end2_words.clear();
        self.u2_stress_end2_words.clear();
        self.u_plus_secondary_words.clear();
        self.keepu2_phrase_keys.clear();
        self.noun_form_stress.clear();
        self.verb_flag_words.clear();
        self.stress_positions.clear();
        self.word_alt_flags.clear();
        self.compound_prefixes.clear();
    }

    /// The pronunciation of `word` in the dictionary for `context`.
    pub fn lookup(&self, word: &str, context: DictionaryContext) -> (r: Option<&String>)
        ensures
            match r {
                Some(p) => self.dictionary(context).contains_key(word@) && p@ == self.dictionary(
                    context,
                )[word@],
                None => !self.dictionary(context).contains_key(word@),
            },
    {
        match context {
            DictionaryContext::General => self.general.get(word),
            DictionaryContext::Verb => self.verbs.get(word),
            DictionaryContext::Noun => self.nouns.get(word),
            DictionaryContext::AtStart => self.at_start.get(word),
            DictionaryContext::AtEnd => self.at_end.get(word),
            DictionaryContext::Capital => self.capital.get(word),
        }
    }

    /// Orders the compound prefixes longest first (stably) and takes
    /// "made" out of the unstressed words.
    pub fn finalize(&mut self)
        ensures
            stably_sorted_desc(pair_views(old(self).compound_prefixes@), pair_views(final(self).compound_prefixes@)),
            final(self).unstressed_words@ == old(self).unstressed_words@.remove("made"@),
            final(self).agrees_elsewhere(&*old(self)),
    {
        let sorted = sort_prefixes(&self.compound_prefixes);
        self.compound_prefixes = sorted;
        self.unstressed_words.remove("made");
    }
}

impl Default for DictionarySet {
    fn default() -> (d: Self)
        ensures
            d.is_blank(),
    {
        Self::new()
    }
}

/// Context for dictionary lookups.
#[derive(Debug, Clone, Copy, PartialEq, Eq)]
pub enum DictionaryContext {
    General,
    Verb,
    Noun,
    AtStart,
    AtEnd,
    Capital,
}

/// Flags associated with dictionary words.
#[derive(Debug, Clone, Copy)]
pub struct WordFlags {
    pub is_past_form: bool,
    pub is_noun_form: bool,
    pub is_verb_form: bool,
    pub is_unstressed: bool,
    pub is_abbreviation: bool,
    pub is_capital: bool,
    pub is_at_start: bool,
    pub is_at_end: bool,
}

impl WordFlags {
    /// Whether no flag is set.
    pub open spec fn is_clear(&self) -> bool {
        !self.is_past_form && !self.is_noun_form && !self.is_verb_form && !self.is_unstressed
            && !self.is_abbreviation && !self.is_capital && !self.is_at_start && !self.is_at_end
    }

    /// No flags set.
    pub fn new() -> (f: Self)
        ensures
            f.is_clear(),
    {
        Self {
            is_past_form: false,
            is_noun_form: false,
            is_verb_form: false,
            is_unstressed: false,
            is_abbreviation: false,
            is_capital: false,
            is_at_start: false,
            is_at_end: false,
        }
    }
}

impl Default for WordFlags {
    fn default() -> (f: Self)
        ensures
            f.is_clear(),
    {
        Self::new()
    }
}

/// Stress-related flags for words.
#[derive(Debug, Clone, Copy, Default)]
pub struct StressFlags {
    pub verb_form: bool,
    pub irregular_inflection: bool,
    pub vowel_change: bool,
    pub emphasis: bool,
    pub doubling: bool,
    pub quiet: bool,
    pub pausal: bool,
}

/// `bit` when `on`, otherwise 0.
pub open spec fn bit_if(on: bool, bit: i32) -> i32 {
    if on {
        bit
    } else {
        0
    }
}

/// The bits that stand for stress flags.
pub open spec fn stress_flag_mask() -> i32 {
    0x85F00
}

impl StressFlags {
    /// The bit encoding of the flags: verb form `0x800`, irregular
    /// inflection `0x200`, vowel change `0x100`, emphasis `0x400`, doubling
    /// `0x1000`, quiet `0x4000`, pausal `0x80000`.
    pub open spec fn bits(&self) -> i32 {
        bit_if(self.verb_form, 0x800) | bit_if(self.irregular_inflection, 0x200) | bit_if(
            self.vowel_change,
            0x100,
        ) | bit_if(self.emphasis, 0x400) | bit_if(self.doubling, 0x1000) | bit_if(self.quiet, 0x4000)
            | bit_if(self.pausal, 0x80000)
    }

    /// The flags whose bits are set in `bits` (see `bits`).
    pub open spec fn of_bits(bits: i32) -> StressFlags {
        StressFlags {
            verb_form: bits & 0x800 != 0,
            irregular_inflection: bits & 0x200 != 0,
            vowel_change: bits & 0x100 != 0,
            emphasis: bits & 0x400 != 0,
            doubling: bits & 0x1000 != 0,
            quiet: bits & 0x4000 != 0,
            pausal: bits & 0x80000 != 0,
        }
    }

    /// The flags whose bits are set in `bits`.
    pub fn from_bits(bits: i32) -> (f: Self)
        ensures
            f == Self::of_bits(bits),
    {
        Self {
            verb_form: (bits & 0x800) != 0,
            irregular_inflection: (bits & 0x200) != 0,
            vowel_change: (bits & 0x100) != 0,
            emphasis: (bits & 0x400) != 0,
            doubling: (bits & 0x1000) != 0,
            quiet: (bits & 0x4000) != 0,
            pausal: (bits & 0x80000) != 0,
        }
    }

    /// The bit encoding of the flags (see `bits`).
    pub fn to_bits(&self) -> (b: i32)
        ensures
            b == self.bits(),
    {
        let verb: i32 = if self.verb_form { 0x800 } else { 0 };
        let irregular: i32 = if self.irregular_inflection { 0x200 } else { 0 };
        let vowel: i32 = if self.vowel_change { 0x100 } else { 0 };
        let emphasis: i32 = if self.emphasis { 0x400 } else { 0 };
        let doubling: i32 = if self.doubling { 0x1000 } else { 0 };
        let quiet: i32 = if self.quiet { 0x4000 } else { 0 };
        let pausal: i32 = if self.pausal { 0x80000 } else { 0 };
        verb | irregular | vowel | emphasis | doubling | quiet | pausal
    }
}

/// Encoding flags as bits and decoding them gives the same flags back.
pub proof fn lemma_stress_flags_roundtrip(f: StressFlags)
    ensures
        StressFlags::of_bits(f.bits()) == f,
{
    let (a, b, c, d, e, g, h) = (
        f.verb_form,
        f.irregular_inflection,
        f.vowel_change,
        f.emphasis,
        f.doubling,
        f.quiet,
        f.pausal,
    );
    let x = f.bits();
    assert(x == (bit_if(a, 0x800) | bit_if(b, 0x200) | bit_if(c, 0x100) | bit_if(d, 0x400) | bit_if(
        e,
        0x1000,
    ) | bit_if(g, 0x4000) | bit_if(h, 0x80000)));
    assert({
        &&& (x & 0x800 != 0) == a
        &&& (x & 0x200 != 0) == b
        &&& (x & 0x100 != 0) == c
        &&& (x & 0x400 != 0) == d
        &&& (x & 0x1000 != 0) == e
        &&& (x & 0x4000 != 0) == g
        &&& (x & 0x80000 != 0) == h
    }) by (bit_vector)
        requires
            x == ((if a { 0x800i32 } else { 0i32 }) | (if b { 0x200i32 } else { 0i32 }) | (if c {
                0x100i32
            } else {
                0i32
            }) | (if d { 0x400i32 } else { 0i32 }) | (if e { 0x1000i32 } else { 0i32 }) | (if g {
                0x4000i32
            } else {
                0i32
            }) | (if h { 0x80000i32 } else { 0i32 })),
    ;
}

/// Decoding bits as flags and encoding them again keeps exactly the bits
/// that stand for flags.
pub proof fn lemma_stress_bits_roundtrip(x: i32)
    ensures
        StressFlags::of_bits(x).bits() == x & stress_flag_mask(),
{
    let f = StressFlags::of_bits(x);
    assert(f.bits() == (bit_if(x & 0x800 != 0, 0x800) | bit_if(x & 0x200 != 0, 0x200) | bit_if(
        x & 0x100 != 0,
        0x100,
    ) | bit_if(x & 0x400 != 0, 0x400) | bit_if(x & 0x1000 != 0, 0x1000) | bit_if(
        x & 0x4000 != 0,
        0x4000,
    ) | bit_if(x & 0x80000 != 0, 0x80000)));
    assert(((if x & 0x800 != 0 { 0x800i32 } else { 0i32 }) | (if x & 0x200 != 0 {
        0x200i32
    } else {
        0i32
    }) | (if x & 0x100 != 0 { 0x100i32 } else { 0i32 }) | (if x & 0x400 != 0 {
        0x400i32
    } else {
        0i32
    }) | (if x & 0x1000 != 0 { 0x1000i32 } else { 0i32 }) | (if x & 0x4000 != 0 {
        0x4000i32
    } else {
        0i32
    }) | (if x & 0x80000 != 0 { 0x80000i32 } else { 0i32 })) == x & 0x85F00i32) by (bit_vector);
}

/// Loading dictionaries from files or bytes.
pub trait DictionaryLoader {
    /// Load dictionary from a file path.
    fn load_from_path(&mut self, path: &str) -> Result<()>;

    /// Load dictionary from bytes.
    fn load_from_bytes(&mut self, bytes: &[u8]) -> Result<()>;
}

} // verus!
