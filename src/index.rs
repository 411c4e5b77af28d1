use vstd::prelude::*;

verus! {

/// The log recorded under `key`, empty where nothing was ever appended.
pub open spec fn log_of(m: Map<Seq<char>, Seq<u64>>, key: Seq<char>) -> Seq<u64> {
    if m.dom().contains(key) {
        m[key]
    } else {
        Seq::empty()
    }
}

/// Ordered, append-only logs of product IDs, one per key of a dimension
/// (an owner's address, an origin's name). Position `p` (1-based) of a key's
/// log is the `p`-th ID appended under that key.
pub struct KeyedIndex {
    keys: Vec<String>,
    logs: Vec<Vec<u64>>,
}

impl KeyedIndex {
    /// Keys and logs line up, and no key is listed twice.
    pub closed spec fn wf(&self) -> bool {
        &&& self.keys.len() == self.logs.len()
        &&& forall|i: int, j: int|
            0 <= i < j < self.keys.len() ==> self.keys[i]@ != self.keys[j]@
    }

    spec fn slot(&self, key: Seq<char>) -> int {
        choose|i: int| 0 <= i < self.keys.len() && self.keys[i]@ == key
    }

    pub closed spec fn view(&self) -> Map<Seq<char>, Seq<u64>> {
        Map::new(
            |k: Seq<char>| exists|i: int| 0 <= i < self.keys.len() && self.keys[i]@ == k,
            |k: Seq<char>| self.logs[self.slot(k)]@,
        )
    }

    proof fn lemma_slot(&self, i: int)
        requires
            self.wf(),
            0 <= i < self.keys.len(),
        ensures
            self.slot(self.keys[i]@) == i,
            self@.dom().contains(self.keys[i]@),
            self@[self.keys[i]@] == self.logs[i]@,
    {
        let k = self.keys[i]@;
        assert(exists|j: int| 0 <= j < self.keys.len() && self.keys[j]@ == k);
    }

    pub fn new() -> (r: KeyedIndex)
        ensures
            r.wf(),
            r@ == Map::<Seq<char>, Seq<u64>>::empty(),
    {
        let r = KeyedIndex { keys: Vec::new(), logs: Vec::new() };
        assert(r@ =~= Map::<Seq<char>, Seq<u64>>::empty());
        r
    }

    fn find(&self, key: &String) -> (r: Option<usize>)
        requires
            self.wf(),
        ensures
            match r {
                Some(i) => i < self.keys.len() && self.keys[i as int]@ == key@,
                None => !self@.dom().contains(key@),
            },
    {
        let mut i: usize = 0;
        while i < self.keys.len()
            invariant
                self.wf(),
                i <= self.keys.len(),
                forall|j: int| 0 <= j < i ==> self.keys[j]@ != key@,
            decreases self.keys.len() - i,
        {
            if self.keys[i] == *key {
                return Some(i);
            }
            i = i + 1;
        }
        None
    }

    /// The log recorded under `key`.
    pub fn log(&self, key: &String) -> (r: Vec<u64>)
        requires
            self.wf(),
        ensures
            r@ == log_of(self@, key@),
    {
        match self.find(key) {
            Some(i) => {
                proof {
                    self.lemma_slot(i as int);
                }
                self.logs[i].clone()
            },
            None => Vec::new(),
        }
    }

    /// Records `id` at the next position of `key`'s log.
    pub fn append(&mut self, key: &String, id: u64)
        requires
            old(self).wf(),
        ensures
            final(self).wf(),
            final(self)@ == old(self)@.insert(key@, log_of(old(self)@, key@).push(id)),
    {
        let ghost pre = *self;
        match self.find(key) {
            Some(i) => {
                proof {
                    pre.lemma_slot(i as int);
                }
                self.logs[i].push(id);
                assert forall|k: Seq<char>| #[trigger] self@.dom().contains(k) implies
                    pre@.dom().contains(k) by {
                    let j = choose|j: int| 0 <= j < self.keys.len() && self.keys[j]@ == k;
                }
                assert forall|j: int| 0 <= j < self.keys.len() implies
                    #[trigger] self@[self.keys[j]@] == pre@.insert(key@, pre@[key@].push(id))[self.keys[j]@] by {
                    self.lemma_slot(j);
                    pre.lemma_slot(j);
                }
                assert(self@ =~= pre@.insert(key@, log_of(pre@, key@).push(id)));
            },
            None => {
                let mut log: Vec<u64> = Vec::new();
                log.push(id);
                self.keys.push(key.clone());
                self.logs.push(log);
                assert forall|j: int| 0 <= j < self.keys.len() implies
                    #[trigger] self@[self.keys[j]@] == pre@.insert(key@, seq![id])[self.keys[j]@] by {
                    self.lemma_slot(j);
                    if j < pre.keys.len() {
                        pre.lemma_slot(j);
                    }
                }
                assert forall|k: Seq<char>| #[trigger] pre@.insert(key@, seq![id]).dom().contains(k) implies
                    self@.dom().contains(k) by {
                    if k == key@ {
                        self.lemma_slot(pre.keys.len() as int);
                    } else {
                        let j = choose|j: int| 0 <= j < pre.keys.len() && pre.keys[j]@ == k;
                        self.lemma_slot(j);
                    }
                }
                assert(self@ =~= pre@.insert(key@, log_of(pre@, key@).push(id)));
            },
        }
    }
}

} // verus!
