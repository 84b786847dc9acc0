use vstd::prelude::*;
use crate::core64::image::{SOChunk, ChunkModel};
use crate::core64::symbols::bytes_eq;

verus! {

/// Loaded objects by name, each name once.
pub struct ObjectMap<'a> {
    entries: Vec<(Vec<u8>, SOChunk<'a>)>,
}

impl<'a> View for ObjectMap<'a> {
    type V = Map<Seq<u8>, ChunkModel>;

    closed spec fn view(&self) -> Map<Seq<u8>, ChunkModel> {
        Map::new(
            |n: Seq<u8>| exists|i: int| 0 <= i < self.entries@.len() && (#[trigger] self.entries@[i]).0@ == n,
            |n: Seq<u8>| {
                let i = choose|i: int| 0 <= i < self.entries@.len() && (#[trigger] self.entries@[i]).0@ == n;
                self.entries@[i].1@
            },
        )
    }
}

impl<'a> ObjectMap<'a> {
    pub closed spec fn wf(self) -> bool {
        forall|i: int, j: int| 0 <= i < self.entries@.len() && 0 <= j < self.entries@.len() && i != j
            ==> (#[trigger] self.entries@[i]).0@ != (#[trigger] self.entries@[j]).0@
    }

    /// The names, in the order they were added.
    pub closed spec fn names(self) -> Seq<Seq<u8>> {
        self.entries@.map_values(|e: (Vec<u8>, SOChunk<'a>)| e.0@)
    }

    pub proof fn lemma_names(self)
        requires
            self.wf(),
        ensures
            self.names().no_duplicates(),
            forall|n: Seq<u8>| self@.contains_key(n) <==> self.names().contains(n),
            self.names().len() == self.len(),
    {
        assert forall|n: Seq<u8>| self@.contains_key(n) <==> self.names().contains(n) by {
            if self@.contains_key(n) {
                let i = choose|i: int| 0 <= i < self.entries@.len() && (#[trigger] self.entries@[i]).0@ == n;
                assert(self.names()[i] == n);
            }
            if self.names().contains(n) {
                let i = choose|i: int| 0 <= i < self.names().len() && self.names()[i] == n;
                assert(self.entries@[i].0@ == n);
            }
        }
    }

    pub proof fn lemma_dom_finite(self)
        requires
            self.wf(),
        ensures
            self@.dom().finite(),
    {
        self.lemma_names();
        assert(self@.dom() =~= self.names().to_set());
        vstd::seq_lib::seq_to_set_is_finite(self.names());
    }

    pub closed spec fn len(self) -> nat {
        self.entries@.len()
    }

    pub fn new() -> (r: Self)
        ensures
            r.wf(),
            r@ == Map::<Seq<u8>, ChunkModel>::empty(),
            r.names() == Seq::<Seq<u8>>::empty(),
    {
        let r = ObjectMap { entries: Vec::new() };
        assert(r@ =~= Map::<Seq<u8>, ChunkModel>::empty());
        assert(r.names() =~= Seq::<Seq<u8>>::empty());
        r
    }

    fn find(&self, name: &[u8]) -> (r: Option<usize>)
        ensures
            r matches Some(i) ==> i < self.entries@.len() && self.entries@[i as int].0@ == name@,
            r is None ==> forall|i: int| 0 <= i < self.entries@.len() ==> (#[trigger] self.entries@[i]).0@ != name@,
    {
        let mut i: usize = 0;
        while i < self.entries.len()
            invariant
                i <= self.entries@.len(),
                forall|j: int| 0 <= j < i ==> (#[trigger] self.entries@[j]).0@ != name@,
            decreases self.entries@.len() - i,
        {
            if bytes_eq(self.entries[i].0.as_slice(), name) {
                return Some(i);
            }
            i = i + 1;
        }
        None
    }

    pub fn contains(&self, name: &[u8]) -> (r: bool)
        ensures
            r == self@.contains_key(name@),
    {
        match self.find(name) {
            Some(i) => {
                assert(self.entries@[i as int].0@ == name@);
                true
            },
            None => false,
        }
    }

    /// The names needed by the object `name`.
    pub fn needed_of(&self, name: &[u8]) -> (r: &Vec<Vec<u8>>)
        requires
            self.wf(),
            self@.contains_key(name@),
        ensures
            r@.map_values(|v: Vec<u8>| v@) == self@[name@].needed,
    {
        match self.find(name) {
            Some(i) => {
                proof {
                    let k = choose|k: int| 0 <= k < self.entries@.len() && (#[trigger] self.entries@[k]).0@ == name@;
                    assert(k == i);
                }
                &self.entries[i].1.needed
            },
            None => {
                proof {
                    let k = choose|k: int| 0 <= k < self.entries@.len() && (#[trigger] self.entries@[k]).0@ == name@;
                    assert(self.entries@[k].0@ == name@);
                }
                &self.entries[0].1.needed
            },
        }
    }

    /// The number of objects.
    pub fn count(&self) -> (r: usize)
        ensures
            r == self.len(),
    {
        self.entries.len()
    }

    /// The needed names of the `i`-th object added, with its name.
    pub fn entry_needed(&self, i: usize) -> (r: (&Vec<u8>, &Vec<Vec<u8>>))
        requires
            self.wf(),
            i < self.len(),
        ensures
            r.0@ == self.names()[i as int],
            self@.contains_key(r.0@),
            r.1@.map_values(|v: Vec<u8>| v@) == self@[r.0@].needed,
    {
        proof {
            let n = self.entries@[i as int].0@;
            assert(self@.contains_key(n));
            let k = choose|k: int| 0 <= k < self.entries@.len() && (#[trigger] self.entries@[k]).0@ == n;
            assert(k == i);
        }
        (&self.entries[i].0, &self.entries[i].1.needed)
    }

    /// Adds the object `name`, which is not there yet.
    pub fn insert(&mut self, name: Vec<u8>, chunk: SOChunk<'a>)
        requires
            old(self).wf(),
            !old(self)@.contains_key(name@),
        ensures
            final(self).wf(),
            final(self)@ == old(self)@.insert(name@, chunk@),
            final(self).names() == old(self).names().push(name@),
    {
        let ghost old_map = self@;
        let ghost key = name@;
        let ghost cm = chunk@;
        proof {
            assert forall|i: int| 0 <= i < old(self).entries@.len() implies (#[trigger] old(self).entries@[i]).0@ != key by {
                if old(self).entries@[i].0@ == key {
                    assert(old_map.contains_key(key));
                }
            }
        }
        self.entries.push((name, chunk));
        proof {
            let last = self.entries@.len() - 1;
            assert forall|n: Seq<u8>| #[trigger] self@.contains_key(n) <==> old_map.insert(key, cm).contains_key(n) by {
                if n != key {
                    if old_map.contains_key(n) {
                        let k = choose|k: int| 0 <= k < old(self).entries@.len() && (#[trigger] old(self).entries@[k]).0@ == n;
                        assert(self.entries@[k] == old(self).entries@[k]);
                    }
                    if self@.contains_key(n) {
                        let k = choose|k: int| 0 <= k < self.entries@.len() && (#[trigger] self.entries@[k]).0@ == n;
                        assert(self.entries@[k] == old(self).entries@[k]);
                    }
                } else {
                    assert(self.entries@[last].0@ == key);
                }
            }
            assert forall|n: Seq<u8>| #[trigger] self@.contains_key(n) implies self@[n] == old_map.insert(key, cm)[n] by {
                let k = choose|k: int| 0 <= k < self.entries@.len() && (#[trigger] self.entries@[k]).0@ == n;
                if n != key {
                    assert(k != last);
                    assert(self.entries@[k] == old(self).entries@[k]);
                    assert(old(self).entries@[k].0@ == n);
                } else {
                    assert(k == last);
                }
            }
            assert(self@ =~= old_map.insert(key, cm));
            assert(self.names() =~= old(self).names().push(key));
        }
    }

    /// Takes the object `name` out.
    pub fn remove(&mut self, name: &[u8]) -> (r: Option<SOChunk<'a>>)
        requires
            old(self).wf(),
        ensures
            final(self).wf(),
            old(self)@.contains_key(name@) ==> (r matches Some(c) && c@ == old(self)@[name@]),
            !old(self)@.contains_key(name@) ==> r is None,
            final(self)@ == old(self)@.remove(name@),
    {
        let ghost old_map = self@;
        let ghost key = name@;
        match self.find(name) {
            None => {
                assert(self@ =~= old_map.remove(key));
                None
            },
            Some(i) => {
                proof {
                    let k = choose|k: int| 0 <= k < self.entries@.len() && (#[trigger] self.entries@[k]).0@ == key;
                    assert(k == i);
                }
                let (_, chunk) = self.entries.remove(i);
                proof {
                    assert forall|n: Seq<u8>| #[trigger] self@.contains_key(n) <==> old_map.remove(key).contains_key(n) by {
                        if self@.contains_key(n) {
                            let k = choose|k: int| 0 <= k < self.entries@.len() && (#[trigger] self.entries@[k]).0@ == n;
                            if k < i { assert(self.entries@[k] == old(self).entries@[k]); }
                            else { assert(self.entries@[k] == old(self).entries@[k + 1]); }
                        }
                        if old_map.remove(key).contains_key(n) {
                            let k = choose|k: int| 0 <= k < old(self).entries@.len() && (#[trigger] old(self).entries@[k]).0@ == n;
                            assert(k != i);
                            if k < i { assert(self.entries@[k] == old(self).entries@[k]); }
                            else { assert(self.entries@[k - 1] == old(self).entries@[k]); }
                        }
                    }
                    assert forall|n: Seq<u8>| #[trigger] self@.contains_key(n) implies self@[n] == old_map.remove(key)[n] by {
                        let k = choose|k: int| 0 <= k < self.entries@.len() && (#[trigger] self.entries@[k]).0@ == n;
                        let ko = if k < i { k } else { k + 1 };
                        assert(self.entries@[k] == old(self).entries@[ko]);
                        assert(old(self).entries@[ko].0@ == n);
                    }
                    assert(self@ =~= old_map.remove(key));
                    assert forall|a: int, b: int| 0 <= a < self.entries@.len() && 0 <= b < self.entries@.len() && a != b
                        implies (#[trigger] self.entries@[a]).0@ != (#[trigger] self.entries@[b]).0@ by {
                        let ao = if a < i { a } else { a + 1 };
                        let bo = if b < i { b } else { b + 1 };
                        assert(self.entries@[a] == old(self).entries@[ao]);
                        assert(self.entries@[b] == old(self).entries@[bo]);
                    }
                }
                Some(chunk)
            },
        }
    }
}

} // verus!
