//! An association list from 128-bit identifiers to values, with unique keys.
//! It stands in for a hash map so that both the key-to-value mapping and the
//! scan order of the entries can be reasoned about: the abstract view is a
//! `Map`, while `seq()` exposes a stable entry order for iteration.

use vstd::prelude::*;

verus! {

#[derive(Debug)]
pub struct IdMap<T> {
    pub entries: Vec<(u128, T)>,
}

/// No identifier occurs twice in the entry list.
pub open spec fn entries_unique<T>(s: Seq<(u128, T)>) -> bool {
    forall|i: int, j: int| 0 <= i < j < s.len() ==> s[i].0 != s[j].0
}

/// The map an entry list stands for. A later entry for a key would win,
/// though a well-formed `IdMap` never holds two entries for one key.
pub open spec fn entries_to_map<T>(s: Seq<(u128, T)>) -> Map<u128, T>
    decreases s.len(),
{
    if s.len() == 0 {
        Map::empty()
    } else {
        entries_to_map(s.drop_last()).insert(s.last().0, s.last().1)
    }
}

/// A key is in the map exactly when some entry carries it.
pub proof fn lemma_entries_to_map_domain<T>(s: Seq<(u128, T)>, k: u128)
    ensures
        entries_to_map(s).contains_key(k) <==> exists|i: int| 0 <= i < s.len() && s[i].0 == k,
    decreases s.len(),
{
    if s.len() > 0 {
        lemma_entries_to_map_domain(s.drop_last(), k);
        if s.last().0 == k {
            assert(s[s.len() - 1].0 == k);
        } else if entries_to_map(s).contains_key(k) {
            let i = choose|i: int|
                0 <= i < s.drop_last().len() && s.drop_last()[i].0 == k;
            assert(s[i].0 == k);
        } else if exists|i: int| 0 <= i < s.len() && s[i].0 == k {
            let i = choose|i: int| 0 <= i < s.len() && s[i].0 == k;
            assert(s.drop_last()[i].0 == k);
        }
    }
}

/// With unique keys, the map sends each entry's key to that entry's value.
pub proof fn lemma_entries_to_map_index<T>(s: Seq<(u128, T)>, i: int)
    requires
        entries_unique(s),
        0 <= i < s.len(),
    ensures
        entries_to_map(s).contains_key(s[i].0),
        entries_to_map(s)[s[i].0] == s[i].1,
    decreases s.len(),
{
    if i < s.len() - 1 {
        assert(entries_unique(s.drop_last()));
        lemma_entries_to_map_index(s.drop_last(), i);
        assert(s.drop_last()[i] == s[i]);
    }
}

proof fn lemma_entries_to_map_push<T>(s: Seq<(u128, T)>, k: u128, v: T)
    ensures
        entries_to_map(s.push((k, v))) == entries_to_map(s).insert(k, v),
{
    assert(s.push((k, v)).drop_last() =~= s);
}

proof fn lemma_entries_to_map_update<T>(s: Seq<(u128, T)>, i: int, k: u128, v: T)
    requires
        entries_unique(s),
        0 <= i < s.len(),
        s[i].0 == k,
    ensures
        entries_to_map(s.update(i, (k, v))) == entries_to_map(s).insert(k, v),
        entries_unique(s.update(i, (k, v))),
    decreases s.len(),
{
    let u = s.update(i, (k, v));
    if i == s.len() - 1 {
        assert(u.drop_last() =~= s.drop_last());
        assert(entries_to_map(u) == entries_to_map(s.drop_last()).insert(k, v));
        assert(entries_to_map(s.drop_last()).insert(s.last().0, s.last().1).insert(k, v)
            =~= entries_to_map(s.drop_last()).insert(k, v));
    } else {
        assert(entries_unique(s.drop_last()));
        lemma_entries_to_map_update(s.drop_last(), i, k, v);
        assert(u.drop_last() =~= s.drop_last().update(i, (k, v)));
        assert(u.last() == s.last());
        // the two inserts commute because the keys differ
        assert(s.last().0 != k);
        assert(entries_to_map(s.drop_last()).insert(k, v).insert(s.last().0, s.last().1)
            =~= entries_to_map(s.drop_last()).insert(s.last().0, s.last().1).insert(k, v));
    }
}

impl<T> View for IdMap<T> {
    type V = Map<u128, T>;

    open spec fn view(&self) -> Map<u128, T> {
        entries_to_map(self.entries@)
    }
}

impl<T> IdMap<T> {
    /// The entries in scan order.
    pub open spec fn seq(&self) -> Seq<(u128, T)> {
        self.entries@
    }

    /// Keys are unique.
    pub open spec fn wf(&self) -> bool {
        entries_unique(self.entries@)
    }

    pub fn new() -> (r: Self)
        ensures
            r.wf(),
            r.seq() == Seq::<(u128, T)>::empty(),
            r@ == Map::<u128, T>::empty(),
    {
        let r = IdMap { entries: Vec::new() };
        proof {
            assert(r@ =~= Map::<u128, T>::empty());
        }
        r
    }

    pub fn len(&self) -> (n: usize)
        ensures
            n == self.seq().len(),
    {
        self.entries.len()
    }

    /// The entry at a scan position.
    pub fn entry_at(&self, i: usize) -> (r: &(u128, T))
        requires
            i < self.seq().len(),
        ensures
            *r == self.seq()[i as int],
    {
        &self.entries[i]
    }

    pub fn contains_key(&self, k: u128) -> (r: bool)
        ensures
            r == exists|i: int| 0 <= i < self.seq().len() && self.seq()[i].0 == k,
            r == self@.contains_key(k),
    {
        proof {
            lemma_entries_to_map_domain(self.entries@, k);
        }
        let n = self.entries.len();
        let mut i: usize = 0;
        while i < n
            invariant
                n == self.seq().len(),
                i <= n,
                forall|j: int| 0 <= j < i ==> self.seq()[j].0 != k,
            decreases n - i,
        {
            if self.entries[i].0 == k {
                proof {
                    lemma_entries_to_map_domain(self.entries@, k);
                    assert(self.seq()[i as int].0 == k);
                }
                return true;
            }
            i += 1;
        }
        false
    }

    pub fn get(&self, k: u128) -> (r: Option<&T>)
        requires
            self.wf(),
        ensures
            match r {
                Some(v) => self@.contains_key(k) && *v == self@[k],
                None => !self@.contains_key(k),
            },
    {
        proof {
            lemma_entries_to_map_domain(self.entries@, k);
        }
        let n = self.entries.len();
        let mut i: usize = 0;
        while i < n
            invariant
                self.wf(),
                n == self.seq().len(),
                i <= n,
                forall|j: int| 0 <= j < i ==> self.seq()[j].0 != k,
            decreases n - i,
        {
            if self.entries[i].0 == k {
                proof {
                    lemma_entries_to_map_domain(self.entries@, k);
                    assert(self.seq()[i as int].0 == k);
                    lemma_entries_to_map_index(self.entries@, i as int);
                }
                return Some(&self.entries[i].1);
            }
            i += 1;
        }
        None
    }

    /// Inserts or overwrites the entry for `k`. A fresh key is appended at
    /// the end of the scan order; an existing key keeps its position.
    pub fn insert(&mut self, k: u128, v: T)
        requires
            old(self).wf(),
        ensures
            final(self).wf(),
            final(self)@ == old(self)@.insert(k, v),
            old(self)@.contains_key(k) ==> exists|j: int|
                0 <= j < old(self).seq().len() && old(self).seq()[j].0 == k && final(self).seq()
                    == old(self).seq().update(j, (k, v)),
            !old(self)@.contains_key(k) ==> final(self).seq() == old(self).seq().push((k, v)),
            forall|i: int|
                0 <= i < old(self).seq().len() && old(self).seq()[i].0 != k
                    ==> final(self).seq()[i] == old(self).seq()[i],
    {
        proof {
            lemma_entries_to_map_domain(self.entries@, k);
        }
        let n = self.entries.len();
        let mut i: usize = 0;
        while i < n
            invariant
                self == old(self),
                self.wf(),
                n == self.seq().len(),
                i <= n,
                forall|j: int| 0 <= j < i ==> self.seq()[j].0 != k,
            decreases n - i,
        {
            if self.entries[i].0 == k {
                proof {
                    lemma_entries_to_map_domain(self.entries@, k);
                    assert(self.seq()[i as int].0 == k);
                    lemma_entries_to_map_update(self.entries@, i as int, k, v);
                }
                self.entries[i] = (k, v);
                return;
            }
            i += 1;
        }
        proof {
            lemma_entries_to_map_domain(self.entries@, k);
            lemma_entries_to_map_push(self.entries@, k, v);
        }
        self.entries.push((k, v));
    }
}

} // verus!
