//! Small verified map and set containers used by the relabeling passes.
//!
//! The passes key their scratch tables by numeric label identifiers, by
//! offsets, and by label names.  These containers store the entries in a
//! vector with pairwise-distinct keys and present a mathematical `Map` or
//! `Set` as their value.

use vstd::prelude::*;

verus! {

/// Mathematical content of an entry vector, later entries winning.
pub open spec fn entries_map<K, V>(s: Seq<(K, V)>) -> Map<K, V>
    decreases s.len(),
{
    if s.len() == 0 {
        Map::empty()
    } else {
        entries_map(s.drop_last()).insert(s.last().0, s.last().1)
    }
}

/// Mathematical content of an element vector.
pub open spec fn elems_set<T>(s: Seq<T>) -> Set<T>
    decreases s.len(),
{
    if s.len() == 0 {
        Set::empty()
    } else {
        elems_set(s.drop_last()).insert(s.last())
    }
}

proof fn lemma_entries_map_contains<K, V>(s: Seq<(K, V)>, k: K)
    ensures
        entries_map(s).contains_key(k) <==> exists|i: int| 0 <= i < s.len() && s[i].0 == k,
    decreases s.len(),
{
    if s.len() > 0 {
        lemma_entries_map_contains(s.drop_last(), k);
        if entries_map(s).contains_key(k) {
            if s.last().0 == k {
                assert(s[s.len() - 1].0 == k);
            } else {
                let i = choose|i: int| 0 <= i < s.drop_last().len() && s.drop_last()[i].0 == k;
                assert(s[i].0 == k);
            }
        }
        if exists|i: int| 0 <= i < s.len() && s[i].0 == k {
            let i = choose|i: int| 0 <= i < s.len() && s[i].0 == k;
            if i < s.len() - 1 {
                assert(s.drop_last()[i].0 == k);
            }
        }
    }
}

/// With pairwise-distinct keys, each entry is the one its key maps to.
proof fn lemma_entries_map_at<K, V>(s: Seq<(K, V)>, i: int)
    requires
        forall|p: int, q: int| 0 <= p < q < s.len() ==> s[p].0 != s[q].0,
        0 <= i < s.len(),
    ensures
        entries_map(s).contains_key(s[i].0),
        entries_map(s)[s[i].0] == s[i].1,
    decreases s.len(),
{
    lemma_entries_map_contains(s, s[i].0);
    if i < s.len() - 1 {
        assert(s[i].0 != s.last().0);
        assert(s.drop_last()[i] == s[i]);
        lemma_entries_map_at(s.drop_last(), i);
    }
}

proof fn lemma_entries_map_len<K, V>(s: Seq<(K, V)>)
    requires
        forall|p: int, q: int| 0 <= p < q < s.len() ==> s[p].0 != s[q].0,
    ensures
        entries_map(s).dom().finite(),
        entries_map(s).dom().len() == s.len(),
    decreases s.len(),
{
    if s.len() > 0 {
        lemma_entries_map_len(s.drop_last());
        lemma_entries_map_contains(s.drop_last(), s.last().0);
        assert(forall|i: int| 0 <= i < s.drop_last().len() ==> s.drop_last()[i] == s[i]);
        assert(!entries_map(s.drop_last()).contains_key(s.last().0));
        assert(entries_map(s).dom() =~= entries_map(s.drop_last()).dom().insert(s.last().0));
    }
}

proof fn lemma_elems_set_contains<T>(s: Seq<T>, x: T)
    ensures
        elems_set(s).contains(x) <==> s.contains(x),
    decreases s.len(),
{
    if s.len() > 0 {
        lemma_elems_set_contains(s.drop_last(), x);
        if s.contains(x) {
            let i = choose|i: int| 0 <= i < s.len() && s[i] == x;
            if i < s.len() - 1 {
                assert(s.drop_last()[i] == x);
            }
        }
        if s.drop_last().contains(x) {
            let i = choose|i: int| 0 <= i < s.drop_last().len() && s.drop_last()[i] == x;
            assert(s[i] == x);
        }
    }
}

/// A map from numeric identifiers to numeric values.  Inserting an existing
/// key overwrites its value, as a hash map would.
#[derive(Debug)]
pub struct IdMap {
    entries: Vec<(usize, usize)>,
}

impl View for IdMap {
    type V = Map<usize, usize>;

    closed spec fn view(&self) -> Map<usize, usize> {
        entries_map(self.entries@)
    }
}

impl IdMap {
    /// The stored keys are pairwise distinct; established by `new` and
    /// preserved by every operation.
    pub closed spec fn wf(self) -> bool {
        forall|p: int, q: int|
            0 <= p < q < self.entries@.len() ==> self.entries@[p].0 != self.entries@[q].0
    }

    pub fn new() -> (r: IdMap)
        ensures
            r.wf(),
            r@ == Map::<usize, usize>::empty(),
    {
        IdMap { entries: Vec::new() }
    }

    /// The value stored at `k`, if any.
    pub fn get(&self, k: usize) -> (r: Option<usize>)
        requires
            self.wf(),
        ensures
            r == (if self@.contains_key(k) {
                Some(self@[k])
            } else {
                None::<usize>
            }),
    {
        proof {
            lemma_entries_map_contains(self.entries@, k);
        }
        let n = self.entries.len();
        let mut j: usize = 0;
        while j < n
            invariant
                self.wf(),
                n == self.entries@.len(),
                0 <= j <= n,
                forall|i: int| 0 <= i < j ==> self.entries@[i].0 != k,
            decreases n - j,
        {
            let (ek, ev) = self.entries[j];
            if ek == k {
                proof {
                    lemma_entries_map_at(self.entries@, j as int);
                }
                return Some(ev);
            }
            j += 1;
        }
        proof {
            lemma_entries_map_contains(self.entries@, k);
        }
        None
    }

    pub fn contains_key(&self, k: usize) -> (r: bool)
        requires
            self.wf(),
        ensures
            r == self@.contains_key(k),
    {
        match self.get(k) {
            Some(_) => true,
            None => false,
        }
    }

    /// Bind `k` to `v`, replacing any previous binding.
    pub fn insert(&mut self, k: usize, v: usize)
        requires
            old(self).wf(),
        ensures
            final(self).wf(),
            final(self)@ == old(self)@.insert(k, v),
    {
        proof {
            lemma_entries_map_contains(self.entries@, k);
        }
        let n = self.entries.len();
        let mut j: usize = 0;
        while j < n
            invariant
                self.wf(),
                n == self.entries@.len(),
                0 <= j <= n,
                self.entries@ == old(self).entries@,
                forall|i: int| 0 <= i < j ==> self.entries@[i].0 != k,
            decreases n - j,
        {
            let (ek, _) = self.entries[j];
            if ek == k {
                proof {
                    lemma_entries_update(self.entries@, j as int, k, v);
                }
                self.entries.set(j, (k, v));
                return ;
            }
            j += 1;
        }
        self.entries.push((k, v));
        proof {
            assert(self.entries@.drop_last() =~= old(self).entries@);
        }
    }

    /// The number of keys.
    pub fn len(&self) -> (r: usize)
        requires
            self.wf(),
        ensures
            r == self@.dom().len(),
            self@.dom().finite(),
    {
        proof {
            lemma_entries_map_len(self.entries@);
        }
        self.entries.len()
    }

    pub fn is_empty(&self) -> (r: bool)
        requires
            self.wf(),
        ensures
            r == (self@.dom().len() == 0),
            self@.dom().finite(),
    {
        let n = self.len();
        n == 0
    }
}

/// Updating the entry holding key `k` updates the map at `k` alone.
proof fn lemma_entries_update<K, V>(s: Seq<(K, V)>, j: int, k: K, v: V)
    requires
        forall|p: int, q: int| 0 <= p < q < s.len() ==> s[p].0 != s[q].0,
        0 <= j < s.len(),
        s[j].0 == k,
    ensures
        entries_map(s.update(j, (k, v))) == entries_map(s).insert(k, v),
    decreases s.len(),
{
    let s2 = s.update(j, (k, v));
    assert(forall|p: int, q: int| 0 <= p < q < s2.len() ==> s2[p].0 != s2[q].0);
    assert forall|x: K| #[trigger] entries_map(s2).contains_key(x)
        <==> entries_map(s).insert(k, v).contains_key(x) by {
        lemma_entries_map_contains(s2, x);
        lemma_entries_map_contains(s, x);
        assert forall|i: int| 0 <= i < s.len() implies (s2[i].0 == x <==> s[i].0 == x) by {}
    }
    assert forall|x: K| entries_map(s2).contains_key(x) implies #[trigger] entries_map(s2)[x]
        == entries_map(s).insert(k, v)[x] by {
        lemma_entries_map_contains(s2, x);
        let i = choose|i: int| 0 <= i < s2.len() && s2[i].0 == x;
        lemma_entries_map_at(s2, i);
        if i != j {
            lemma_entries_map_at(s, i);
        }
    }
    assert(entries_map(s2) =~= entries_map(s).insert(k, v));
}

/// A set of numeric identifiers.
#[derive(Debug)]
pub struct IdSet {
    elems: Vec<usize>,
}

impl View for IdSet {
    type V = Set<usize>;

    closed spec fn view(&self) -> Set<usize> {
        elems_set(self.elems@)
    }
}

impl IdSet {
    /// The stored elements are pairwise distinct; established by `new` and
    /// preserved by every operation.
    pub closed spec fn wf(self) -> bool {
        forall|p: int, q: int| 0 <= p < q < self.elems@.len() ==> self.elems@[p] != self.elems@[q]
    }

    pub fn new() -> (r: IdSet)
        ensures
            r.wf(),
            r@ == Set::<usize>::empty(),
    {
        IdSet { elems: Vec::new() }
    }

    pub fn contains(&self, x: usize) -> (r: bool)
        requires
            self.wf(),
        ensures
            r == self@.contains(x),
    {
        proof {
            lemma_elems_set_contains(self.elems@, x);
        }
        let n = self.elems.len();
        let mut j: usize = 0;
        while j < n
            invariant
                n == self.elems@.len(),
                0 <= j <= n,
                forall|i: int| 0 <= i < j ==> self.elems@[i] != x,
            decreases n - j,
        {
            if self.elems[j] == x {
                proof {
                    assert(self.elems@[j as int] == x);
                    lemma_elems_set_contains(self.elems@, x);
                }
                return true;
            }
            j += 1;
        }
        proof {
            assert(!self.elems@.contains(x));
            lemma_elems_set_contains(self.elems@, x);
        }
        false
    }

    /// Add `x`; adding an element twice leaves the set unchanged.
    pub fn insert(&mut self, x: usize)
        requires
            old(self).wf(),
        ensures
            final(self).wf(),
            final(self)@ == old(self)@.insert(x),
    {
        let present = self.contains(x);
        if !present {
            proof {
                lemma_elems_set_contains(self.elems@, x);
            }
            self.elems.push(x);
            proof {
                assert(self.elems@.drop_last() =~= old(self).elems@);
                assert(forall|i: int|
                    0 <= i < old(self).elems@.len() ==> old(self).elems@[i]
                        == self.elems@[i]);
                lemma_elems_set_contains(old(self).elems@, x);
            }
        } else {
            proof {
                assert(old(self)@.insert(x) =~= old(self)@);
            }
        }
    }
}


/// A map from label names to numeric values, keyed by the name's character
/// sequence.
#[derive(Debug)]
pub struct NamedMap {
    entries: Vec<(String, usize)>,
}

/// The entry list with each name abstracted to its character sequence.
pub open spec fn named_entries(s: Seq<(String, usize)>) -> Seq<(Seq<char>, usize)> {
    s.map_values(|p: (String, usize)| (p.0@, p.1))
}

impl View for NamedMap {
    type V = Map<Seq<char>, usize>;

    closed spec fn view(&self) -> Map<Seq<char>, usize> {
        entries_map(named_entries(self.entries@))
    }
}

impl NamedMap {
    /// The stored names are pairwise distinct; established by `new` and
    /// preserved by every operation.
    pub closed spec fn wf(self) -> bool {
        forall|p: int, q: int|
            0 <= p < q < self.entries@.len() ==> self.entries@[p].0@ != self.entries@[q].0@
    }

    pub fn new() -> (r: NamedMap)
        ensures
            r.wf(),
            r@ == Map::<Seq<char>, usize>::empty(),
    {
        let r = NamedMap { entries: Vec::new() };
        proof {
            assert(named_entries(r.entries@) =~= Seq::<(Seq<char>, usize)>::empty());
        }
        r
    }

    /// The value stored under `name`, if any.
    pub fn get(&self, name: &String) -> (r: Option<usize>)
        requires
            self.wf(),
        ensures
            r == (if self@.contains_key(name@) {
                Some(self@[name@])
            } else {
                None::<usize>
            }),
    {
        proof {
            lemma_entries_map_contains(named_entries(self.entries@), name@);
        }
        let ghost ne = named_entries(self.entries@);
        let n = self.entries.len();
        let mut j: usize = 0;
        while j < n
            invariant
                self.wf(),
                n == self.entries@.len(),
                0 <= j <= n,
                ne == named_entries(self.entries@),
                ne.len() == n,
                forall|i: int| 0 <= i < j ==> #[trigger] ne[i].0 != name@,
            decreases n - j,
        {
            let hit = self.entries[j].0 == *name;
            proof {
                assert(ne[j as int] == (self.entries@[j as int].0@, self.entries@[j as int].1));
            }
            if hit {
                let (_, ev) = &self.entries[j];
                proof {
                    lemma_entries_map_at(ne, j as int);
                }
                return Some(*ev);
            }
            j += 1;
        }
        proof {
            lemma_entries_map_contains(named_entries(self.entries@), name@);
        }
        None
    }

    /// Bind `name` to `v`, replacing any previous binding.
    pub fn insert(&mut self, name: String, v: usize)
        requires
            old(self).wf(),
        ensures
            final(self).wf(),
            final(self)@ == old(self)@.insert(name@, v),
    {
        proof {
            lemma_entries_map_contains(named_entries(self.entries@), name@);
        }
        let ghost ne = named_entries(self.entries@);
        let n = self.entries.len();
        let mut j: usize = 0;
        while j < n
            invariant
                self.wf(),
                n == self.entries@.len(),
                0 <= j <= n,
                self.entries@ == old(self).entries@,
                ne == named_entries(self.entries@),
                ne.len() == n,
                forall|i: int| 0 <= i < j ==> #[trigger] ne[i].0 != name@,
            decreases n - j,
        {
            let hit = self.entries[j].0 == *(&name);
            proof {
                assert(ne[j as int] == (self.entries@[j as int].0@, self.entries@[j as int].1));
            }
            if hit {
                proof {
                    lemma_entries_update(ne, j as int, name@, v);
                }
                self.entries.set(j, (name, v));
                proof {
                    assert(named_entries(self.entries@) =~= ne.update(j as int, (name@, v)));
                }
                return ;
            }
            j += 1;
        }
        self.entries.push((name, v));
        proof {
            assert(named_entries(self.entries@).drop_last() =~= ne);
            assert(named_entries(self.entries@).last() == (name@, v));
            assert forall|p: int| 0 <= p < n implies self.entries@[p].0@ != name@ by {
                assert(ne[p] == (old(self).entries@[p].0@, old(self).entries@[p].1));
                assert(self.entries@[p] == old(self).entries@[p]);
            }
        }
    }

    /// The number of names.
    pub fn len(&self) -> (r: usize)
        requires
            self.wf(),
        ensures
            r == self@.dom().len(),
            self@.dom().finite(),
    {
        proof {
            lemma_entries_map_len(named_entries(self.entries@));
        }
        self.entries.len()
    }

    pub fn is_empty(&self) -> (r: bool)
        requires
            self.wf(),
        ensures
            r == (self@.dom().len() == 0),
            self@.dom().finite(),
    {
        let n = self.len();
        n == 0
    }
}

} // verus!
