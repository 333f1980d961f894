//! Small lookup tables keyed by text or by single characters.
//!
//! Word lists and pronunciation tables are keyed by strings; these tables
//! keep their entries in a vector and are specified by the set or map of
//! character sequences they hold.
use vstd::prelude::*;
use crate::text::{chars_of, range_eq, slices_eq};

verus! {

// ---------------------------------------------------------------------
// Sets of characters
// ---------------------------------------------------------------------

/// A set of characters.
#[derive(Debug, Clone)]
pub struct CharSet {
    items: Vec<char>,
}

impl View for CharSet {
    type V = Set<char>;

    closed spec fn view(&self) -> Set<char> {
        Set::new(|c: char| self.items@.contains(c))
    }
}

impl CharSet {
    /// An empty set.
    pub fn new() -> (s: CharSet)
        ensures
            s@ == Set::<char>::empty(),
    {
        let s = CharSet { items: Vec::new() };
        assert(s@ =~= Set::<char>::empty());
        s
    }

    /// Whether `c` is in the set.
    pub fn contains(&self, c: char) -> (r: bool)
        ensures
            r == self@.contains(c),
    {
        crate::text::slice_has(self.items.as_slice(), c)
    }

    /// Adds `c`; returns whether it was absent before.
    pub fn insert(&mut self, c: char) -> (added: bool)
        ensures
            final(self)@ == old(self)@.insert(c),
            added == !old(self)@.contains(c),
    {
        if self.contains(c) {
            assert(self@.insert(c) =~= self@);
            false
        } else {
            let ghost before = self.items@;
            self.items.push(c);
            proof {
                assert forall|x: char| self.items@.contains(x) <==> before.contains(x) || x == c by {
                    if self.items@.contains(x) {
                        let k = choose|k: int| 0 <= k < self.items@.len() && self.items@[k] == x;
                        if k < before.len() {
                            assert(before[k] == x);
                        }
                    }
                    if before.contains(x) {
                        let k = choose|k: int| 0 <= k < before.len() && before[k] == x;
                        assert(self.items@[k] == x);
                    }
                    if x == c {
                        assert(self.items@[before.len() as int] == c);
                    }
                }
                assert(self@ =~= old(self)@.insert(c));
            }
            true
        }
    }

    /// Adds every character of `s`.
    pub fn insert_all(&mut self, s: &str)
        ensures
            final(self)@ == old(self)@.union(s@.to_set()),
    {
        let v = chars_of(s);
        let mut i: usize = 0;
        while i < v.len()
            invariant
                v@ == s@,
                i <= v@.len(),
                forall|x: char| self@.contains(x) <==> old(self)@.contains(x)
                    || exists|j: int| 0 <= j < i && v@[j] == x,
            decreases v.len() - i,
        {
            self.insert(v[i]);
            i += 1;
        }
        proof {
            assert forall|x: char| self@.contains(x) <==> old(self)@.union(s@.to_set()).contains(x) by {
                if exists|j: int| 0 <= j < v@.len() && v@[j] == x {
                    let j = choose|j: int| 0 <= j < v@.len() && v@[j] == x;
                    assert(s@.contains(x));
                }
            }
            assert(self@ =~= old(self)@.union(s@.to_set()));
        }
    }

    /// Whether the set is empty.
    pub fn is_empty(&self) -> (r: bool)
        ensures
            r == (self@ == Set::<char>::empty()),
    {
        if self.items.len() == 0 {
            assert(self@ =~= Set::<char>::empty());
            true
        } else {
            assert(self@.contains(self.items@[0]));
            false
        }
    }
}

// ---------------------------------------------------------------------
// Sets of strings
// ---------------------------------------------------------------------

/// Whether one of `items` holds exactly the characters `k`.
pub open spec fn holds_key(items: Seq<Vec<char>>, k: Seq<char>) -> bool {
    exists|i: int| 0 <= i < items.len() && #[trigger] items[i]@ == k
}

/// A set of strings, specified by the character sequences it holds.
#[derive(Debug, Clone)]
pub struct StrSet {
    items: Vec<Vec<char>>,
}

impl View for StrSet {
    type V = Set<Seq<char>>;

    closed spec fn view(&self) -> Set<Seq<char>> {
        Set::new(|k: Seq<char>| holds_key(self.items@, k))
    }
}

/// Index of the first key equal to `key`, if any.
fn find_key(items: &Vec<Vec<char>>, key: &[char]) -> (r: Option<usize>)
    ensures
        match r {
            Some(i) => i < items@.len() && items@[i as int]@ == key@
                && forall|j: int| 0 <= j < i ==> items@[j]@ != key@,
            None => !holds_key(items@, key@),
        },
{
    let mut i: usize = 0;
    while i < items.len()
        invariant
            i <= items@.len(),
            forall|j: int| 0 <= j < i ==> items@[j]@ != key@,
        decreases items.len() - i,
    {
        if slices_eq(items[i].as_slice(), key) {
            return Some(i);
        }
        i += 1;
    }
    None
}

impl StrSet {
    /// An empty set.
    pub fn new() -> (s: StrSet)
        ensures
            s@ == Set::<Seq<char>>::empty(),
    {
        let s = StrSet { items: Vec::new() };
        assert(s@ =~= Set::<Seq<char>>::empty());
        s
    }

    /// Whether `word` is in the set.
    pub fn contains(&self, word: &str) -> (r: bool)
        ensures
            r == self@.contains(word@),
    {
        let key = chars_of(word);
        let found = find_key(&self.items, key.as_slice());
        found.is_some()
    }

    /// Adds `word`; returns whether it was absent before.
    pub fn insert(&mut self, word: &str) -> (added: bool)
        ensures
            final(self)@ == old(self)@.insert(word@),
            added == !old(self)@.contains(word@),
    {
        let key = chars_of(word);
        if self.contains(word) {
            assert(self@.insert(word@) =~= self@);
            false
        } else {
            let ghost before = self.items@;
            self.items.push(key);
            proof {
                assert forall|x: Seq<char>| holds_key(self.items@, x) <==> holds_key(before, x) || x == word@ by {
                    if holds_key(self.items@, x) {
                        let k = choose|k: int| 0 <= k < self.items@.len() && #[trigger] self.items@[k]@ == x;
                        if k < before.len() {
                            assert(before[k]@ == x);
                        }
                    }
                    if holds_key(before, x) {
                        let k = choose|k: int| 0 <= k < before.len() && #[trigger] before[k]@ == x;
                        assert(self.items@[k]@ == x);
                    }
                    if x == word@ {
                        assert(self.items@[before.len() as int]@ == x);
                    }
                }
                assert(self@ =~= old(self)@.insert(word@));
            }
            true
        }
    }

    /// Removes `word`; returns whether it was present.
    pub fn remove(&mut self, word: &str) -> (removed: bool)
        ensures
            final(self)@ == old(self)@.remove(word@),
            removed == old(self)@.contains(word@),
    {
        let key = chars_of(word);
        let removed = self.contains(word);
        let mut kept: Vec<Vec<char>> = Vec::new();
        let mut i: usize = 0;
        while i < self.items.len()
            invariant
                i <= self.items@.len(),
                key@ == word@,
                forall|x: Seq<char>| holds_key(kept@, x) <==>
                    (x != word@ && exists|j: int| 0 <= j < i && #[trigger] self.items@[j]@ == x),
            decreases self.items.len() - i,
        {
            if !slices_eq(self.items[i].as_slice(), key.as_slice()) {
                let ghost before = kept@;
                kept.push(self.items[i].clone());
                proof {
                    assert forall|x: Seq<char>| holds_key(kept@, x) <==>
                        (x != word@ && exists|j: int| 0 <= j < i + 1 && #[trigger] self.items@[j]@ == x) by {
                        if holds_key(kept@, x) {
                            let k = choose|k: int| 0 <= k < kept@.len() && #[trigger] kept@[k]@ == x;
                            if k < before.len() {
                                assert(before[k]@ == x);
                                assert(holds_key(before, x));
                            }
                        }
                        if x != word@ && exists|j: int| 0 <= j < i + 1 && #[trigger] self.items@[j]@ == x {
                            let j = choose|j: int| 0 <= j < i + 1 && #[trigger] self.items@[j]@ == x;
                            if j < i {
                                assert(holds_key(before, x));
                                let k = choose|k: int| 0 <= k < before.len() && #[trigger] before[k]@ == x;
                                assert(kept@[k]@ == x);
                            } else {
                                assert(kept@[before.len() as int]@ == x);
                            }
                        }
                    }
                }
            } else {
                proof {
                    assert forall|x: Seq<char>| holds_key(kept@, x) <==>
                        (x != word@ && exists|j: int| 0 <= j < i + 1 && #[trigger] self.items@[j]@ == x) by {
                        if x != word@ && exists|j: int| 0 <= j < i + 1 && #[trigger] self.items@[j]@ == x {
                            let j = choose|j: int| 0 <= j < i + 1 && #[trigger] self.items@[j]@ == x;
                            if j == i {
                                assert(false);
                            }
                        }
                    }
                }
            }
            i += 1;
        }
        let ghost old_items = self.items@;
        self.items = kept;
        proof {
            assert forall|x: Seq<char>| self@.contains(x) <==> old(self)@.remove(word@).contains(x) by {
                if old(self)@.contains(x) && x != word@ {
                    let j = choose|j: int| 0 <= j < old_items.len() && #[trigger] old_items[j]@ == x;
                    assert(exists|j: int| 0 <= j < old_items.len() && #[trigger] old_items[j]@ == x);
                }
            }
            assert(self@ =~= old(self)@.remove(word@));
        }
        removed
    }

    /// Removes every string.
    pub fn clear(&mut self)
        ensures
            final(self)@ == Set::<Seq<char>>::empty(),
    {
        self.items = Vec::new();
        assert(self@ =~= Set::<Seq<char>>::empty());
    }

    /// Whether the set is empty.
    pub fn is_empty(&self) -> (r: bool)
        ensures
            r == (self@ == Set::<Seq<char>>::empty()),
    {
        if self.items.len() == 0 {
            assert(self@ =~= Set::<Seq<char>>::empty());
            true
        } else {
            assert(self@.contains(self.items@[0]@));
            false
        }
    }
}

// ---------------------------------------------------------------------
// Maps from strings
// ---------------------------------------------------------------------

/// A map from strings to values, specified by a map from character
/// sequences to the values' views. No key occurs twice.
#[derive(Debug)]
pub struct StrMap<V> {
    entries: Vec<(Vec<char>, V)>,
}

impl<V> StrMap<V> {
    #[verifier::type_invariant]
    closed spec fn keys_distinct(self) -> bool {
        forall|i: int, j: int|
            0 <= i < self.entries@.len() && 0 <= j < self.entries@.len() && i != j
                ==> #[trigger] self.entries@[i].0@ != #[trigger] self.entries@[j].0@
    }

    /// Whether some entry has key `k`.
    pub closed spec fn has_key(self, k: Seq<char>) -> bool {
        exists|i: int| 0 <= i < self.entries@.len() && #[trigger] self.entries@[i].0@ == k
    }

    closed spec fn index_of(self, k: Seq<char>) -> int {
        choose|i: int| 0 <= i < self.entries@.len() && #[trigger] self.entries@[i].0@ == k
    }
}

impl<V: View> View for StrMap<V> {
    type V = Map<Seq<char>, V::V>;

    closed spec fn view(&self) -> Map<Seq<char>, V::V> {
        Map::new(|k: Seq<char>| self.has_key(k), |k: Seq<char>| self.entries@[self.index_of(k)].1@)
    }
}

impl<V: View> StrMap<V> {
    /// An empty map.
    pub fn new() -> (m: StrMap<V>)
        ensures
            m@ == Map::<Seq<char>, V::V>::empty(),
    {
        let m = StrMap { entries: Vec::new() };
        assert(m@ =~= Map::<Seq<char>, V::V>::empty());
        m
    }

    /// Position of the entry whose key is `v[from..to]`, if any.
    fn position(&self, v: &[char], from: usize, to: usize) -> (r: Option<usize>)
        requires
            from <= to <= v@.len(),
        ensures
            match r {
                Some(i) => i < self.entries@.len() && self.entries@[i as int].0@ == v@.subrange(
                    from as int,
                    to as int,
                ),
                None => !self.has_key(v@.subrange(from as int, to as int)),
            },
    {
        let mut i: usize = 0;
        while i < self.entries.len()
            invariant
                from <= to <= v@.len(),
                i <= self.entries@.len(),
                forall|j: int| 0 <= j < i ==> self.entries@[j].0@ != v@.subrange(from as int, to as int),
            decreases self.entries.len() - i,
        {
            let key = &self.entries[i].0;
            if key.len() == to - from && range_eq(v, from, key.as_slice()) {
                return Some(i);
            }
            i += 1;
        }
        None
    }

    /// The value stored under the key `v[from..to]`.
    pub fn get_range(&self, v: &[char], from: usize, to: usize) -> (r: Option<&V>)
        requires
            from <= to <= v@.len(),
        ensures
            match r {
                Some(x) => self@.contains_key(v@.subrange(from as int, to as int))
                    && x@ == self@[v@.subrange(from as int, to as int)],
                None => !self@.contains_key(v@.subrange(from as int, to as int)),
            },
    {
        proof {
            use_type_invariant(self);
        }
        match self.position(v, from, to) {
            Some(i) => {
                let ghost k = v@.subrange(from as int, to as int);
                assert(self.has_key(k));
                assert(self.index_of(k) == i as int);
                Some(&self.entries[i].1)
            },
            None => None,
        }
    }

    /// The value stored under `key`.
    pub fn get(&self, key: &str) -> (r: Option<&V>)
        ensures
            match r {
                Some(x) => self@.contains_key(key@) && x@ == self@[key@],
                None => !self@.contains_key(key@),
            },
    {
        let v = chars_of(key);
        assert(v@.subrange(0, v@.len() as int) == v@);
        self.get_range(v.as_slice(), 0, v.len())
    }

    /// Whether `key` has a value.
    pub fn contains_key(&self, key: &str) -> (r: bool)
        ensures
            r == self@.contains_key(key@),
    {
        self.get(key).is_some()
    }

    /// Stores `value` under `key`, replacing any earlier value.
    pub fn insert(&mut self, key: &str, value: V)
        ensures
            final(self)@ == old(self)@.insert(key@, value@),
    {
        proof {
            use_type_invariant(&*self);
        }
        let v = chars_of(key);
        assert(v@.subrange(0, v@.len() as int) == v@);
        let pos = self.position(v.as_slice(), 0, v.len());
        let ghost before = self.entries@;
        let mut entries: Vec<(Vec<char>, V)> = Vec::new();
        std::mem::swap(&mut entries, &mut self.entries);
        match pos {
            Some(i) => {
                entries.set(i, (v, value));
                self.entries = entries;
                proof {
                    assert forall|k: Seq<char>| self.has_key(k) <==> (old(self).has_key(k) || k == key@) by {
                        if self.has_key(k) {
                            let j = choose|j: int| 0 <= j < self.entries@.len() && #[trigger] self.entries@[j].0@ == k;
                            assert(before[j].0@ == k);
                        }
                        if old(self).has_key(k) {
                            let j = choose|j: int| 0 <= j < before.len() && #[trigger] before[j].0@ == k;
                            assert(self.entries@[j].0@ == k);
                        }
                    }
                    assert forall|k: Seq<char>| #[trigger] self.has_key(k) && k != key@ implies
                        self.index_of(k) == old(self).index_of(k) by {
                        let a = self.index_of(k);
                        let b = old(self).index_of(k);
                        assert(old(self).has_key(k));
                        assert(before[a].0@ == k);
                    }
                    assert(self.has_key(key@));
                    assert(self.index_of(key@) == i as int);
                    assert(self@ =~= old(self)@.insert(key@, value@));
                }
            },
            None => {
                entries.push((v, value));
                self.entries = entries;
                proof {
                    let n = before.len() as int;
                    assert forall|k: Seq<char>| self.has_key(k) <==> (old(self).has_key(k) || k == key@) by {
                        if self.has_key(k) {
                            let j = choose|j: int| 0 <= j < self.entries@.len() && #[trigger] self.entries@[j].0@ == k;
                            if j < n {
                                assert(before[j].0@ == k);
                            }
                        }
                        if old(self).has_key(k) {
                            let j = choose|j: int| 0 <= j < before.len() && #[trigger] before[j].0@ == k;
                            assert(self.entries@[j].0@ == k);
                        }
                        if k == key@ {
                            assert(self.entries@[n].0@ == k);
                        }
                    }
                    assert forall|k: Seq<char>| #[trigger] self.has_key(k) && k != key@ implies
                        self.index_of(k) == old(self).index_of(k) by {
                        let a = self.index_of(k);
                        assert(old(self).has_key(k));
                        let b = old(self).index_of(k);
                        if a == n {
                            assert(false);
                        }
                        assert(self.entries@[b].0@ == k);
                    }
                    assert(self.index_of(key@) == n);
                    assert(self@ =~= old(self)@.insert(key@, value@));
                }
            },
        }
    }

    /// Removes every entry.
    pub fn clear(&mut self)
        ensures
            final(self)@ == Map::<Seq<char>, V::V>::empty(),
    {
        self.entries = Vec::new();
        assert(self@ =~= Map::<Seq<char>, V::V>::empty());
    }

    /// Whether the map is empty.
    pub fn is_empty(&self) -> (r: bool)
        ensures
            r == (self@ == Map::<Seq<char>, V::V>::empty()),
    {
        if self.entries.len() == 0 {
            assert(self@ =~= Map::<Seq<char>, V::V>::empty());
            true
        } else {
            assert(self.has_key(self.entries@[0].0@));
            assert(self@.contains_key(self.entries@[0].0@));
            false
        }
    }
}

impl<V: View + Clone> Clone for StrMap<V> {
    /// A copy with the same keys; each value is copied with `V::clone`.
    fn clone(&self) -> (r: Self)
        ensures
            r@.dom() == self@.dom(),
    {
        proof {
            use_type_invariant(self);
        }
        let mut entries: Vec<(Vec<char>, V)> = Vec::new();
        let mut i: usize = 0;
        while i < self.entries.len()
            invariant
                i <= self.entries@.len(),
                entries@.len() == i,
                forall|j: int| 0 <= j < i ==> #[trigger] entries@[j].0@ == self.entries@[j].0@,
                forall|a: int, b: int|
                    0 <= a < self.entries@.len() && 0 <= b < self.entries@.len() && a != b
                        ==> #[trigger] self.entries@[a].0@ != #[trigger] self.entries@[b].0@,
            decreases self.entries.len() - i,
        {
            let key = self.entries[i].0.clone();
            let value = self.entries[i].1.clone();
            entries.push((key, value));
            i += 1;
        }
        let r = StrMap { entries };
        proof {
            assert forall|k: Seq<char>| r.has_key(k) <==> self.has_key(k) by {
                if r.has_key(k) {
                    let j = choose|j: int| 0 <= j < r.entries@.len() && #[trigger] r.entries@[j].0@ == k;
                    assert(self.entries@[j].0@ == k);
                }
                if self.has_key(k) {
                    let j = choose|j: int| 0 <= j < self.entries@.len() && #[trigger] self.entries@[j].0@ == k;
                    assert(r.entries@[j].0@ == k);
                }
            }
            assert(r@.dom() =~= self@.dom());
        }
        r
    }
}

/// Reading a string map after a write: the written key reads back the
/// written value, and every other key reads as before.
pub proof fn lemma_map_read_after_write<V>(m: Map<Seq<char>, V>, k: Seq<char>, v: V, other: Seq<char>)
    ensures
        m.insert(k, v).contains_key(k),
        m.insert(k, v)[k] == v,
        other != k ==> m.insert(k, v).contains_key(other) == m.contains_key(other),
        other != k && m.contains_key(other) ==> m.insert(k, v)[other] == m[other],
{
}

/// A string set after an insertion holds the inserted string; after a
/// removal it no longer holds the removed one; other strings are
/// unaffected either way.
pub proof fn lemma_set_insert_remove(s: Set<Seq<char>>, w: Seq<char>, other: Seq<char>)
    ensures
        s.insert(w).contains(w),
        !s.remove(w).contains(w),
        other != w ==> s.insert(w).contains(other) == s.contains(other),
        other != w ==> s.remove(w).contains(other) == s.contains(other),
{
}

} // verus!
