use vstd::prelude::*;

verus! {

/// Whether some entry of `entries` is `e`.
pub open spec fn listed(entries: Seq<(u64, String)>, e: (u64, Seq<char>)) -> bool {
    exists|i: int| 0 <= i < entries.len() && entries[i].0 == e.0 && entries[i].1@ == e.1
}

/// The delegated authorization entries: a flag per (product ID, address),
/// present only while granted. Ownership is not recorded here.
pub struct AuthStore {
    entries: Vec<(u64, String)>,
}

impl AuthStore {
    pub closed spec fn view(&self) -> Set<(u64, Seq<char>)> {
        Set::new(
|e: (u64, Seq<char>)| listed(self.entries@, e))
    }

    pub fn new() -> (r: AuthStore)
        ensures
            r@ == Set::<(u64, Seq<char>)>::empty(),
    {
        let r = AuthStore { entries: Vec::new() };
        assert(r@ =~= Set::<(u64, Seq<char>)>::empty());
        r
    }

    /// Whether an entry for (`id`, `actor`) is present.
    pub fn contains(&self, id: u64, actor: &String) -> (r: bool)
        ensures
            r == self@.contains((id, actor@)),
    {
        let mut i: usize = 0;
        while i < self.entries.len()
            invariant
                i <= self.entries.len(),
                forall|j: int|
                    0 <= j < i ==> !(self.entries[j].0 == id && self.entries[j].1@ == actor@),
            decreases self.entries.len() - i,
        {
            if self.entries[i].0 == id && self.entries[i].1 == *actor {
                assert(self@.contains((id, actor@)));
                return true;
            }
            i = i + 1;
        }
        false
    }

    /// Sets the entry for (`id`, `actor`).
    pub fn grant(&mut self, id: u64, actor: &String)
        ensures
            final(self)@ == old(self)@.insert((id, actor@)),
    {
        if !self.contains(id, actor) {
            let ghost pre = *self;
            self.entries.push((id, actor.clone()));
            assert forall|e: (u64, Seq<char>)| #[trigger] self@.contains(e) implies
                pre@.insert((id, actor@)).contains(e) by {
                let i = choose|i: int|
                    0 <= i < self.entries.len() && self.entries[i].0 == e.0
                        && self.entries[i].1@ == e.1;
                if i < pre.entries.len() {
                    assert(pre.entries[i] == self.entries[i]);
                }
            }
            assert forall|e: (u64, Seq<char>)| #[trigger] pre@.insert((id, actor@)).contains(e)
                implies self@.contains(e) by {
                if e != (id, actor@) {
                    let i = choose|i: int|
                        0 <= i < pre.entries.len() && pre.entries[i].0 == e.0
                            && pre.entries[i].1@ == e.1;
                    assert(self.entries[i] == pre.entries[i]);
                } else {
                    assert(self.entries[pre.entries.len() as int].1@ == actor@);
                }
            }
            assert(self@ =~= pre@.insert((id, actor@)));
        } else {
            assert(self@ =~= old(self)@.insert((id, actor@)));
        }
    }

    /// Clears the entry for (`id`, `actor`), if any.
    pub fn revoke(&mut self, id: u64, actor: &String)
        ensures
            final(self)@ == old(self)@.remove((id, actor@)),
    {
        let ghost pre = *self;
        let ghost gone = (id, actor@);
        let mut kept: Vec<(u64, String)> = Vec::new();
        let mut i: usize = 0;
        while i < self.entries.len()
            invariant
                i <= self.entries.len(),
                *self == pre,
                gone == (id, actor@),
                forall|e: (u64, Seq<char>)|
                    #[trigger] listed(kept@, e) <==> (e != gone && listed(
                        self.entries@.take(i as int),
                        e,
                    )),
            decreases self.entries.len() - i,
        {
            let ghost kept0 = kept@;
            if !(self.entries[i].0 == id && self.entries[i].1 == *actor) {
                let s = self.entries[i].1.clone();
                kept.push((self.entries[i].0, s));
            }
            let ghost dropped = self.entries[i as int].0 == id && self.entries[i as int].1@ == actor@;
            assert(dropped ==> kept@ == kept0);
            assert(!dropped ==> kept.len() == kept0.len() + 1 && kept[kept0.len() as int].0
                == self.entries[i as int].0 && kept[kept0.len() as int].1@ == self.entries[i as int].1@);
            assert(forall|k: int| 0 <= k < kept0.len() ==> kept[k] == kept0[k]);
            assert forall|e: (u64, Seq<char>)|
                #[trigger] listed(kept@, e) <==> (e != gone && listed(
                    self.entries@.take(i + 1),
                    e,
                )) by {
                let prefix = self.entries@.take(i + 1);
                assert(self.entries@.take(i as int) =~= prefix.take(i as int));
                if listed(kept@, e) {
                    let j = choose|j: int| 0 <= j < kept.len() && kept[j].0 == e.0 && kept[j].1@ == e.1;
                    if j < kept0.len() {
                        assert(kept0[j] == kept[j]);
                        assert(listed(kept0, e));
                        let k = choose|k: int| 0 <= k < i && self.entries[k].0 == e.0 && self.entries[k].1@ == e.1;
                        assert(prefix[k] == self.entries[k]);
                    } else {
                        assert(prefix[i as int] == self.entries[i as int]);
                        assert(!dropped);
                    }
                }
                if e != gone && listed(prefix, e) {
                    let j = choose|j: int| 0 <= j < prefix.len() && prefix[j].0 == e.0 && prefix[j].1@ == e.1;
                    if j < i {
                        assert(self.entries@.take(i as int)[j] == prefix[j]);
                        assert(listed(kept0, e));
                        let k = choose|k: int| 0 <= k < kept0.len() && kept0[k].0 == e.0 && kept0[k].1@ == e.1;
                        assert(kept[k] == kept0[k]);
                    } else {
                        assert(prefix[j] == self.entries[i as int]);
                        assert(!dropped);
                    }
                }
            }
            i = i + 1;
        }
        self.entries = kept;
        assert(pre.entries@.take(pre.entries.len() as int) =~= pre.entries@);
        assert(self@ =~= pre@.remove(gone));
    }
}

} // verus!
