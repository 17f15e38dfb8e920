//! The variable cache: which generated variable stands for each port.
use vstd::prelude::*;
use crate::port::{PortIdentifier, PortAddr};

verus! {

/// Mapping from port to the name of the generated variable holding its value.
///
/// Entries are kept in a vector of unique keys; the map that they describe
/// is the view.
pub struct VarCache {
    entries: Vec<(PortIdentifier, String)>,
    contents: Ghost<Map<PortAddr, Seq<char>>>,
}

/// `entries` lists the bindings of `m`, each key once.
spec fn describes(entries: Seq<(PortIdentifier, String)>, m: Map<PortAddr, Seq<char>>) -> bool {
    &&& forall|i: int|
        0 <= i < entries.len() ==> #[trigger] m.contains_key(entries[i].0@) && m[entries[i].0@]
            == entries[i].1@
    &&& forall|k: PortAddr| #[trigger]
        m.contains_key(k) ==> exists|i: int| 0 <= i < entries.len() && entries[i].0@ == k
    &&& forall|i: int, j: int| 0 <= i < j < entries.len() ==> entries[i].0@ != entries[j].0@
}

impl View for VarCache {
    type V = Map<PortAddr, Seq<char>>;

    closed spec fn view(&self) -> Map<PortAddr, Seq<char>> {
        self.contents@
    }
}

impl VarCache {
    /// The entries describe the view exactly, each key once.
    #[verifier::type_invariant]
    spec fn wf(&self) -> bool {
        describes(self.entries@, self.contents@)
    }

    /// An empty cache.
    pub fn new() -> (r: VarCache)
        ensures
            r@ == Map::<PortAddr, Seq<char>>::empty(),
    {
        VarCache { entries: Vec::new(), contents: Ghost(Map::empty()) }
    }

    /// Position of the entry for `k`, if any.
    fn find(&self, k: &PortIdentifier) -> (r: Option<usize>)
        ensures
            r is None <==> !self@.contains_key(k@),
            r matches Some(i) ==> i < self.entries@.len() && self.entries@[i as int].0@ == k@,
    {
        proof { use_type_invariant(self); }
        let mut i: usize = 0;
        while i < self.entries.len()
            invariant
                self.wf(),
                i <= self.entries@.len(),
                forall|j: int| 0 <= j < i ==> self.entries@[j].0@ != k@,
            decreases self.entries@.len() - i,
        {
            if self.entries[i].0.same_as(k) {
                assert(self.contents@.contains_key(self.entries@[i as int].0@));
                return Some(i);
            }
            i = i + 1;
        }
        proof {
            if self@.contains_key(k@) {
                let j = choose|j: int| 0 <= j < self.entries@.len() && self.entries@[j].0@ == k@;
                assert(self.entries@[j].0@ != k@);
            }
        }
        None
    }

    /// The variable bound to `k`, if any.
    pub fn get(&self, k: &PortIdentifier) -> (r: Option<String>)
        ensures
            r is None <==> !self@.contains_key(k@),
            r matches Some(v) ==> v@ == self@[k@],
    {
        proof { use_type_invariant(self); }
        match self.find(k) {
            Some(i) => Some(self.entries[i].1.clone()),
            None => None,
        }
    }

    /// Whether `k` is bound.
    pub fn contains_key(&self, k: &PortIdentifier) -> (r: bool)
        ensures
            r == self@.contains_key(k@),
    {
        self.find(k).is_some()
    }

    /// Binds `k` to `v`, replacing an earlier binding.
    pub fn insert(&mut self, k: PortIdentifier, v: String)
        ensures
            final(self)@ == old(self)@.insert(k@, v@),
    {
        proof { use_type_invariant(&*self); }
        let ghost kv = k@;
        let ghost vv = v@;
        let ghost before = *self;
        let found = self.find(&k);
        let mut taken = VarCache::new();
        std::mem::swap(self, &mut taken);
        let VarCache { mut entries, contents } = taken;
        let ghost at: int;
        match found {
            Some(i) => {
                entries.set(i, (k, v));
                proof { at = i as int; }
            },
            None => {
                entries.push((k, v));
                proof { at = entries@.len() - 1; }
            },
        }
        let ghost m = contents@.insert(kv, vv);
        assert(entries@[at].0@ == kv);
        assert forall|key: PortAddr| #[trigger] m.contains_key(key) implies exists|i: int|
            0 <= i < entries@.len() && entries@[i].0@ == key by {
            if key != kv {
                let j = choose|j: int|
                    0 <= j < before.entries@.len() && before.entries@[j].0@ == key;
                assert(entries@[j].0@ == key);
            } else {
                assert(entries@[at].0@ == key);
            }
        }
        assert forall|i: int| 0 <= i < entries@.len() && i != at implies entries@[i].0@ != kv
            && entries@[i] == before.entries@[i] by {
            assert(before.contents@.contains_key(before.entries@[i].0@));
        }
        assert forall|i: int| 0 <= i < entries@.len() implies #[trigger] m.contains_key(entries@[i].0@)
            && m[entries@[i].0@] == entries@[i].1@ by {
            if i != at {
                assert(before.contents@.contains_key(before.entries@[i].0@));
            }
        }
        assert forall|i: int, j: int| 0 <= i < j < entries@.len() implies entries@[i].0@ != entries@[j].0@ by {
            if i != at && j != at {
                assert(before.entries@[i].0@ != before.entries@[j].0@);
            }
        }
        assert(describes(entries@, m));
        *self = VarCache { entries, contents: Ghost(m) };
    }

    /// Removes every binding.
    pub fn clear(&mut self)
        ensures
            final(self)@ == Map::<PortAddr, Seq<char>>::empty(),
    {
        *self = VarCache::new();
    }

    /// An independent copy with the same bindings.
    pub fn snapshot(&self) -> (r: VarCache)
        ensures
            r@ == self@,
    {
        proof { use_type_invariant(self); }
        let mut entries: Vec<(PortIdentifier, String)> = Vec::new();
        let mut i: usize = 0;
        while i < self.entries.len()
            invariant
                i <= self.entries@.len(),
                entries@.len() == i,
                forall|j: int|
                    0 <= j < i ==> #[trigger] entries@[j].0@ == self.entries@[j].0@
                        && entries@[j].1@ == self.entries@[j].1@,
            decreases self.entries@.len() - i,
        {
            let e = &self.entries[i];
            entries.push((e.0.duplicate(), e.1.clone()));
            i = i + 1;
        }
        assert forall|k: PortAddr| #[trigger] self.contents@.contains_key(k) implies exists|i: int|
            0 <= i < entries@.len() && entries@[i].0@ == k by {
            let j = choose|j: int| 0 <= j < self.entries@.len() && self.entries@[j].0@ == k;
            assert(entries@[j].0@ == k);
        }
        assert forall|i: int| 0 <= i < entries@.len() implies #[trigger] self.contents@.contains_key(entries@[i].0@)
            && self.contents@[entries@[i].0@] == entries@[i].1@ by {
            assert(entries@[i].0@ == self.entries@[i].0@);
            assert(self.contents@.contains_key(self.entries@[i].0@));
        }
        assert forall|i: int, j: int| 0 <= i < j < entries@.len() implies entries@[i].0@ != entries@[j].0@ by {
            assert(entries@[i].0@ == self.entries@[i].0@);
            assert(entries@[j].0@ == self.entries@[j].0@);
        }
        assert(describes(entries@, self.contents@));
        VarCache { entries, contents: Ghost(self.contents@) }
    }

    /// Number of bindings.
    pub fn len(&self) -> (r: usize)
        ensures
            r == self@.dom().len(),
    {
        proof {
            use_type_invariant(self);
            self.lemma_len();
        }
        self.entries.len()
    }

    proof fn lemma_len(&self)
        requires
            self.wf(),
        ensures
            self.entries@.len() == self@.dom().len(),
    {
        let keys = self.entries@.map_values(|e: (PortIdentifier, String)| e.0@);
        assert(keys.no_duplicates()) by {
            assert forall|i: int, j: int| 0 <= i < keys.len() && 0 <= j < keys.len() && i != j
                implies keys[i] != keys[j] by {
                if i < j {
                } else {
                }
            }
        }
        keys.unique_seq_to_set();
        assert(keys.to_set() =~= self@.dom()) by {
            assert forall|k: PortAddr| keys.to_set().contains(k) implies self@.dom().contains(k) by {
                let i = choose|i: int| 0 <= i < keys.len() && keys[i] == k;
                assert(self.contents@.contains_key(self.entries@[i].0@));
            }
            assert forall|k: PortAddr| self@.dom().contains(k) implies keys.to_set().contains(k) by {
                assert(self.contents@.contains_key(k));
                let i = choose|i: int| 0 <= i < self.entries@.len() && self.entries@[i].0@ == k;
                assert(keys[i] == k);
            }
        }
    }
}

} // verus!
