//! A map keyed by string slices, kept as a list of entries with distinct keys.

use vstd::prelude::*;
use vstd::utf8::{encode_utf8, encode_utf8_decode_utf8};

verus! {

/// The map that a list of entries stands for when each entry is inserted in turn:
/// of two entries with one key, the later one stays.
pub open spec fn index_of<V>(entries: Seq<(Seq<char>, V)>) -> Map<Seq<char>, V>
    decreases entries.len(),
{
    if entries.len() == 0 {
        Map::empty()
    } else {
        index_of(entries.drop_last()).insert(entries.last().0, entries.last().1)
    }
}

/// Whether two string slices hold the same text.
pub fn same_text(a: &str, b: &str) -> (r: bool)
    ensures
        r == (a@ == b@),
{
    let x = a.as_bytes();
    let y = b.as_bytes();
    assert(x@ == encode_utf8(a@) && y@ == encode_utf8(b@));
    if x.len() != y.len() {
        return false;
    }
    let mut i: usize = 0;
    while i < x.len()
        invariant
            x.len() == y.len(),
            i <= x.len(),
            x@ == encode_utf8(a@),
            y@ == encode_utf8(b@),
            forall|j: int| 0 <= j < i ==> x@[j] == y@[j],
        decreases x.len() - i,
    {
        if x[i] != y[i] {
            return false;
        }
        i += 1;
    }
    proof {
        assert(x@ =~= y@);
        encode_utf8_decode_utf8(a@);
        encode_utf8_decode_utf8(b@);
    }
    true
}

/// The keys and values of `entries`, each taken by its view.
pub open spec fn entry_views<'a, V: View>(entries: Seq<(&'a str, V)>) -> Seq<(Seq<char>, V::V)> {
    Seq::new(entries.len(), |i: int| (entries[i].0@, entries[i].1@))
}

/// Whether no key occurs twice in `entries`.
pub open spec fn distinct_keys<V>(entries: Seq<(Seq<char>, V)>) -> bool {
    forall|i: int, j: int|
        0 <= i < j < entries.len() ==> (#[trigger] entries[i]).0 != (#[trigger] entries[j]).0
}

/// Whether some entry of `entries` has the key `k`.
pub open spec fn has_key<V>(entries: Seq<(Seq<char>, V)>, k: Seq<char>) -> bool {
    exists|i: int| 0 <= i < entries.len() && (#[trigger] entries[i]).0 == k
}

/// Whether the entry at `i` is the last one of `entries` with its key.
pub open spec fn is_last_with_key<V>(entries: Seq<(Seq<char>, V)>, i: int) -> bool {
    &&& 0 <= i < entries.len()
    &&& forall|j: int| i < j < entries.len() ==> (#[trigger] entries[j]).0 != entries[i].0
}

/// The domain of `index_of(entries)` is finite, no larger than `entries`, and holds
/// exactly the keys of `entries`.
pub proof fn lemma_index_keys<V>(entries: Seq<(Seq<char>, V)>)
    ensures
        index_of(entries).dom().finite(),
        index_of(entries).dom().len() <= entries.len(),
        forall|k: Seq<char>| #[trigger] index_of(entries).dom().contains(k) <==> has_key(entries, k),
    decreases entries.len(),
{
    if entries.len() > 0 {
        let front = entries.drop_last();
        let last = entries.last();
        lemma_index_keys(front);
        assert forall|k: Seq<char>| #[trigger]
            index_of(entries).dom().contains(k) <==> has_key(entries, k) by {
            if index_of(entries).dom().contains(k) {
                if k == last.0 {
                    assert(entries[entries.len() - 1].0 == k);
                } else {
                    assert(has_key(front, k));
                    let i = choose|i: int| 0 <= i < front.len() && (#[trigger] front[i]).0 == k;
                    assert(entries[i].0 == k);
                }
            }
            if has_key(entries, k) {
                let i = choose|i: int| 0 <= i < entries.len() && (#[trigger] entries[i]).0 == k;
                if i < front.len() {
                    assert(front[i].0 == k);
                    assert(has_key(front, k));
                }
            }
        }
    }
}

/// In `index_of(entries)` a key maps to the value of the last entry that has it.
pub proof fn lemma_index_last_wins<V>(entries: Seq<(Seq<char>, V)>, i: int)
    requires
        is_last_with_key(entries, i),
    ensures
        index_of(entries).dom().contains(entries[i].0),
        index_of(entries)[entries[i].0] == entries[i].1,
    decreases entries.len(),
{
    let front = entries.drop_last();
    if i < front.len() {
        assert(entries[entries.len() - 1].0 != entries[i].0);
        assert(front[i] == entries[i]);
        assert forall|j: int| i < j < front.len() implies (#[trigger] front[j]).0
            != front[i].0 by {
            assert(front[j] == entries[j]);
        }
        lemma_index_last_wins(front, i);
    }
}

/// Where no key occurs twice, `index_of(entries)` has as many keys as `entries` has
/// entries.
pub proof fn lemma_index_distinct<V>(entries: Seq<(Seq<char>, V)>)
    requires
        distinct_keys(entries),
    ensures
        index_of(entries).dom().finite(),
        index_of(entries).dom().len() == entries.len(),
    decreases entries.len(),
{
    lemma_index_keys(entries);
    if entries.len() > 0 {
        let front = entries.drop_last();
        let last = entries.last();
        assert forall|i: int, j: int| 0 <= i < j < front.len() implies (#[trigger] front[i]).0
            != (#[trigger] front[j]).0 by {
            assert(front[i] == entries[i] && front[j] == entries[j]);
        }
        lemma_index_distinct(front);
        lemma_index_keys(front);
        if index_of(front).dom().contains(last.0) {
            assert(has_key(front, last.0));
            let i = choose|i: int| 0 <= i < front.len() && (#[trigger] front[i]).0 == last.0;
            assert(front[i] == entries[i]);
            assert(entries[i].0 == entries[entries.len() - 1].0);
        }
    }
}

/// The keys of `entries`, in their order.
pub open spec fn keys_of<V>(entries: Seq<(Seq<char>, V)>) -> Seq<Seq<char>> {
    Seq::new(entries.len(), |i: int| entries[i].0)
}

/// `index_of(entries)` has exactly the distinct keys of `entries`: as many keys as
/// `entries` has entries where none repeats, and fewer where one does.
pub proof fn lemma_index_counts_distinct_keys<V>(entries: Seq<(Seq<char>, V)>)
    ensures
        index_of(entries).dom().finite(),
        index_of(entries).dom() == keys_of(entries).to_set(),
        index_of(entries).dom().len() <= entries.len(),
        distinct_keys(entries) <==> index_of(entries).dom().len() == entries.len(),
{
    lemma_index_keys(entries);
    let keys = keys_of(entries);
    assert forall|k: Seq<char>| #[trigger]
        index_of(entries).dom().contains(k) <==> keys.to_set().contains(k) by {
        if has_key(entries, k) {
            let i = choose|i: int| 0 <= i < entries.len() && (#[trigger] entries[i]).0 == k;
            assert(keys[i] == k);
        }
        if keys.to_set().contains(k) {
            let i = choose|i: int| 0 <= i < keys.len() && keys[i] == k;
            assert(entries[i].0 == k);
        }
    }
    assert(index_of(entries).dom() =~= keys.to_set());
    if distinct_keys(entries) {
        lemma_index_distinct(entries);
    } else {
        lemma_index_repeated(entries);
    }
}

/// Where a key occurs twice, `index_of(entries)` has fewer keys than `entries` has
/// entries.
pub proof fn lemma_index_repeated<V>(entries: Seq<(Seq<char>, V)>)
    requires
        !distinct_keys(entries),
    ensures
        index_of(entries).dom().len() < entries.len(),
    decreases entries.len(),
{
    let front = entries.drop_last();
    let last = entries.last();
    lemma_index_keys(front);
    lemma_index_keys(entries);
    if distinct_keys(front) {
        let (i, j) = choose|i: int, j: int|
            0 <= i < j < entries.len() && (#[trigger] entries[i]).0 == (#[trigger] entries[j]).0;
        if j < front.len() {
            assert(front[i].0 == front[j].0);
        }
        assert(front[i].0 == last.0);
        assert(has_key(front, last.0));
        assert(index_of(entries) =~= index_of(front).insert(last.0, last.1));
        assert(index_of(entries).dom() =~= index_of(front).dom());
    } else {
        lemma_index_repeated(front);
    }
}

/// Where no key occurs twice, `index_of(entries)` maps the key of each entry to that
/// entry's value.
pub proof fn lemma_index_lookup<V>(entries: Seq<(Seq<char>, V)>, i: int)
    requires
        distinct_keys(entries),
        0 <= i < entries.len(),
    ensures
        index_of(entries).dom().contains(entries[i].0),
        index_of(entries)[entries[i].0] == entries[i].1,
{
    assert forall|j: int| i < j < entries.len() implies (#[trigger] entries[j]).0
        != entries[i].0 by {
        assert(entries[i].0 != entries[j].0);
    }
    lemma_index_last_wins(entries, i);
}

/// Where no key occurs twice, giving the entry at `i` a new value under its old key is
/// an insertion under that key.
pub proof fn lemma_index_update<V>(entries: Seq<(Seq<char>, V)>, i: int, v: V)
    requires
        distinct_keys(entries),
        0 <= i < entries.len(),
    ensures
        distinct_keys(entries.update(i, (entries[i].0, v))),
        index_of(entries.update(i, (entries[i].0, v))) == index_of(entries).insert(entries[i].0, v),
{
    let k = entries[i].0;
    let after = entries.update(i, (k, v));
    assert forall|a: int, b: int| 0 <= a < b < after.len() implies (#[trigger] after[a]).0
        != (#[trigger] after[b]).0 by {
        assert(entries[a].0 != entries[b].0);
    }
    lemma_index_keys(entries);
    lemma_index_keys(after);
    assert forall|k2: Seq<char>| #[trigger]
        index_of(after).dom().contains(k2) <==> index_of(entries).insert(k, v).dom().contains(
            k2,
        ) by {
        if has_key(after, k2) {
            let j = choose|j: int| 0 <= j < after.len() && (#[trigger] after[j]).0 == k2;
            assert(entries[j].0 == k2);
        }
        if has_key(entries, k2) {
            let j = choose|j: int| 0 <= j < entries.len() && (#[trigger] entries[j]).0 == k2;
            assert(after[j].0 == k2);
        }
        if k2 == k {
            assert(after[i].0 == k2);
        }
    }
    assert forall|k2: Seq<char>| #[trigger] index_of(after).dom().contains(k2) implies index_of(
        after,
    )[k2] == index_of(entries).insert(k, v)[k2] by {
        let j = choose|j: int| 0 <= j < after.len() && (#[trigger] after[j]).0 == k2;
        lemma_index_lookup(after, j);
        if j != i {
            assert(entries[j].0 != entries[i].0);
            lemma_index_lookup(entries, j);
        }
    }
    assert(index_of(after) =~= index_of(entries).insert(k, v));
}

/// A map from string slices to values.
///
/// The order in which [`StrMap::key_at`] and [`StrMap::value_at`] walk the entries is
/// that of each key's first insertion.
#[derive(Debug)]
pub struct StrMap<'a, V: View> {
    entries: Vec<(&'a str, V)>,
}

impl<'a, V: View> View for StrMap<'a, V> {
    type V = Map<Seq<char>, V::V>;

    closed spec fn view(&self) -> Map<Seq<char>, V::V> {
        index_of(entry_views(self.entries@))
    }
}

impl<'a, V: View> StrMap<'a, V> {
    #[verifier::type_invariant]
    closed spec fn distinct(&self) -> bool {
        distinct_keys(entry_views(self.entries@))
    }

    /// The keys in the order in which the map walks them.
    pub closed spec fn keys(&self) -> Seq<Seq<char>> {
        Seq::new(self.entries@.len(), |i: int| self.entries@[i].0@)
    }

    /// An empty map.
    pub fn new() -> (m: Self)
        ensures
            m@ == Map::<Seq<char>, V::V>::empty(),
            m.keys() == Seq::<Seq<char>>::empty(),
    {
        let m = StrMap { entries: Vec::new() };
        assert(m.keys() =~= Seq::<Seq<char>>::empty());
        m
    }

    /// The number of keys. The walk passes each key of the map once.
    pub fn len(&self) -> (n: usize)
        ensures
            self@.dom().finite(),
            n == self@.dom().len(),
            n == self.keys().len(),
            self.keys().no_duplicates(),
            self.keys().to_set() == self@.dom(),
    {
        proof {
            use_type_invariant(self);
            let views = entry_views(self.entries@);
            lemma_index_distinct(views);
            lemma_index_counts_distinct_keys(views);
            assert(self.keys() =~= keys_of(views));
            assert forall|i: int, j: int|
                0 <= i < self.keys().len() && 0 <= j < self.keys().len() && i != j implies self.keys()[i]
                != self.keys()[j] by {
                if i < j {
                    assert(views[i].0 != views[j].0);
                } else {
                    assert(views[j].0 != views[i].0);
                }
            }
        }
        self.entries.len()
    }

    /// Whether the map has no key.
    pub fn is_empty(&self) -> (r: bool)
        ensures
            r == (self@.dom() == Set::<Seq<char>>::empty()),
            r == (self.keys().len() == 0),
    {
        proof {
            use_type_invariant(self);
            lemma_index_distinct(entry_views(self.entries@));
            assert(self.keys().len() == self.entries@.len());
            if self.entries@.len() == 0 {
                assert(self@.dom() =~= Set::<Seq<char>>::empty());
            }
        }
        self.entries.len() == 0
    }

    /// Where `key` stands among the entries.
    fn position(&self, key: &str) -> (r: Option<usize>)
        ensures
            match r {
                Some(i) => i < self.entries@.len() && self.entries@[i as int].0@ == key@,
                None => forall|j: int| 0 <= j < self.entries@.len() ==> self.entries@[j].0@ != key@,
            },
    {
        let mut i: usize = 0;
        while i < self.entries.len()
            invariant
                i <= self.entries@.len(),
                forall|j: int| 0 <= j < i ==> self.entries@[j].0@ != key@,
            decreases self.entries@.len() - i,
        {
            if same_text(self.entries[i].0, key) {
                return Some(i);
            }
            i += 1;
        }
        None
    }

    /// The value under `key`, if the map has that key.
    pub fn get(&self, key: &str) -> (r: Option<&V>)
        ensures
            match r {
                Some(v) => self@.dom().contains(key@) && self@[key@] == v@,
                None => !self@.dom().contains(key@),
            },
    {
        proof {
            use_type_invariant(self);
            lemma_index_keys(entry_views(self.entries@));
        }
        match self.position(key) {
            Some(i) => {
                proof {
                    lemma_index_lookup(entry_views(self.entries@), i as int);
                }
                Some(&self.entries[i].1)
            },
            None => {
                proof {
                    let views = entry_views(self.entries@);
                    if has_key(views, key@) {
                        let j = choose|j: int| 0 <= j < views.len() && (#[trigger] views[j]).0 == key@;
                        assert(self.entries@[j].0@ == key@);
                    }
                }
                None
            },
        }
    }

    /// Whether the map has `key`.
    pub fn contains_key(&self, key: &str) -> (r: bool)
        ensures
            r == self@.dom().contains(key@),
    {
        self.get(key).is_some()
    }

    /// Puts `value` under `key`, in place of the value that was there, if any.
    pub fn insert(&mut self, key: &'a str, value: V)
        ensures
            final(self)@ == old(self)@.insert(key@, value@),
            final(self).keys() == if old(self)@.dom().contains(key@) {
                old(self).keys()
            } else {
                old(self).keys().push(key@)
            },
    {
        proof {
            use_type_invariant(&*self);
            lemma_index_keys(entry_views(self.entries@));
        }
        let ghost before = entry_views(self.entries@);
        let ghost keys_before = self.keys();
        let found = self.position(key);
        let mut entries: Vec<(&'a str, V)> = Vec::new();
        core::mem::swap(&mut self.entries, &mut entries);
        match found {
            Some(i) => {
                entries.set(i, (key, value));
                proof {
                    assert(before[i as int].0 == key@);
                    assert(has_key(before, key@));
                    lemma_index_update(before, i as int, value@);
                    assert(entry_views(entries@) =~= before.update(i as int, (key@, value@)));
                }
            },
            None => {
                entries.push((key, value));
                proof {
                    let after = entry_views(entries@);
                    assert(after =~= before.push((key@, value@)));
                    assert(after.drop_last() =~= before);
                    assert forall|a: int, b: int| 0 <= a < b < after.len() implies (
                    #[trigger] after[a]).0 != (#[trigger] after[b]).0 by {
                        if b < before.len() {
                            assert(before[a].0 != before[b].0);
                        } else {
                            assert(old(self).entries@[a].0@ != key@);
                        }
                    }
                    if has_key(before, key@) {
                        let j = choose|j: int|
                            0 <= j < before.len() && (#[trigger] before[j]).0 == key@;
                        assert(old(self).entries@[j].0@ == key@);
                    }
                }
            },
        }
        core::mem::swap(&mut self.entries, &mut entries);
        proof {
            if found is Some {
                assert(self.keys() =~= keys_before);
            } else {
                assert(self.keys() =~= keys_before.push(key@));
            }
        }
    }

    /// The key at position `i` of the walk.
    pub fn key_at(&self, i: usize) -> (k: &'a str)
        requires
            i < self.keys().len(),
        ensures
            k@ == self.keys()[i as int],
    {
        self.entries[i].0
    }

    /// The value at position `i` of the walk: the one under [`StrMap::key_at`] of `i`.
    pub fn value_at(&self, i: usize) -> (v: &V)
        requires
            i < self.keys().len(),
        ensures
            self@.dom().contains(self.keys()[i as int]),
            v@ == self@[self.keys()[i as int]],
    {
        proof {
            use_type_invariant(self);
            lemma_index_lookup(entry_views(self.entries@), i as int);
        }
        &self.entries[i].1
    }
}

} // verus!
