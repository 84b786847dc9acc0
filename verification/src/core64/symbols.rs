use vstd::prelude::*;
use crate::core64::elf_file::Sym;
use crate::core64::loader::Relocation;

verus! {

/// `a` and `b` hold the same bytes.
pub fn bytes_eq(a: &[u8], b: &[u8]) -> (r: bool)
    ensures
        r == (a@ == b@),
{
    if a.len() != b.len() {
        return false;
    }
    let mut i: usize = 0;
    while i < a.len()
        invariant
            a@.len() == b@.len(),
            i <= a@.len(),
            forall|j: int| 0 <= j < i ==> a@[j] == b@[j],
        decreases a@.len() - i,
    {
        if a[i] != b[i] {
            return false;
        }
        i = i + 1;
    }
    assert(a@ =~= b@);
    true
}

/// The symbols defined so far, each name once, with the object that defines it.
pub struct SymbolMap {
    entries: Vec<(Vec<u8>, Sym, Relocation)>,
}

impl View for SymbolMap {
    type V = Map<Seq<u8>, (Sym, Relocation)>;

    closed spec fn view(&self) -> Map<Seq<u8>, (Sym, Relocation)> {
        Map::new(
            |n: Seq<u8>| exists|i: int| 0 <= i < self.entries@.len() && (#[trigger] self.entries@[i]).0@ == n,
            |n: Seq<u8>| {
                let i = choose|i: int| 0 <= i < self.entries@.len() && (#[trigger] self.entries@[i]).0@ == n;
                (self.entries@[i].1, self.entries@[i].2)
            },
        )
    }
}

impl SymbolMap {
    pub closed spec fn wf(self) -> bool {
        forall|i: int, j: int| 0 <= i < self.entries@.len() && 0 <= j < self.entries@.len() && i != j
            ==> (#[trigger] self.entries@[i]).0@ != (#[trigger] self.entries@[j]).0@
    }

    pub fn new() -> (r: Self)
        ensures
            r.wf(),
            r@ == Map::<Seq<u8>, (Sym, Relocation)>::empty(),
    {
        let r = SymbolMap { entries: Vec::new() };
        assert(r@ =~= Map::<Seq<u8>, (Sym, Relocation)>::empty());
        r
    }

    fn find(&self, name: &[u8]) -> (r: Option<usize>)
        requires
            self.wf(),
        ensures
            r matches Some(i) ==> i < self.entries@.len() && self.entries@[i as int].0@ == name@,
            r is None ==> forall|i: int| 0 <= i < self.entries@.len() ==> (#[trigger] self.entries@[i]).0@ != name@,
    {
        let mut i: usize = 0;
        while i < self.entries.len()
            invariant
                i <= self.entries@.len(),
                forall|j: int| 0 <= j < i ==> (#[trigger] self.entries@[j]).0@ != name@,
            decreases self.entries@.len() - i,
        {
            if bytes_eq(self.entries[i].0.as_slice(), name) {
                return Some(i);
            }
            i = i + 1;
        }
        None
    }

    /// The definition recorded for `name`, if any.
    pub fn get(&self, name: &[u8]) -> (r: Option<(Sym, Relocation)>)
        requires
            self.wf(),
        ensures
            r == if self@.contains_key(name@) { Some(self@[name@]) } else { None::<(Sym, Relocation)> },
    {
        match self.find(name) {
            Some(i) => {
                proof {
                    assert(self@.contains_key(name@));
                    let k = choose|k: int| 0 <= k < self.entries@.len() && (#[trigger] self.entries@[k]).0@ == name@;
                    assert(k == i);
                }
                Some((self.entries[i].1, self.entries[i].2))
            },
            None => None,
        }
    }

    /// Records (or replaces) the definition of `name`.
    pub fn insert(&mut self, name: Vec<u8>, sym: Sym, reloc: Relocation)
        requires
            old(self).wf(),
        ensures
            final(self).wf(),
            final(self)@ == old(self)@.insert(name@, (sym, reloc)),
    {
        let ghost old_map = self@;
        let ghost key = name@;
        match self.find(name.as_slice()) {
            Some(i) => {
                self.entries.set(i, (name, sym, reloc));
                proof {
                    assert forall|n: Seq<u8>| #[trigger] self@.contains_key(n) <==> old_map.insert(key, (sym, reloc)).contains_key(n) by {
                        if n != key {
                            if old_map.contains_key(n) {
                                let k = choose|k: int| 0 <= k < old(self).entries@.len() && (#[trigger] old(self).entries@[k]).0@ == n;
                                assert(self.entries@[k] == old(self).entries@[k]);
                            }
                            if self@.contains_key(n) {
                                let k = choose|k: int| 0 <= k < self.entries@.len() && (#[trigger] self.entries@[k]).0@ == n;
                                assert(self.entries@[k] == old(self).entries@[k]);
                            }
                        } else {
                            assert(self.entries@[i as int].0@ == key);
                        }
                    }
                    assert forall|n: Seq<u8>| #[trigger] self@.contains_key(n) implies self@[n] == old_map.insert(key, (sym, reloc))[n] by {
                        let k = choose|k: int| 0 <= k < self.entries@.len() && (#[trigger] self.entries@[k]).0@ == n;
                        if n != key {
                            assert(self.entries@[k] == old(self).entries@[k]);
                            assert(old(self).entries@[k].0@ == n);
                        }
                    }
                    assert(self@ =~= old_map.insert(key, (sym, reloc)));
                }
            },
            None => {
                self.entries.push((name, sym, reloc));
                proof {
                    let last = self.entries@.len() - 1;
                    assert forall|n: Seq<u8>| #[trigger] self@.contains_key(n) <==> old_map.insert(key, (sym, reloc)).contains_key(n) by {
                        if n != key {
                            if old_map.contains_key(n) {
                                let k = choose|k: int| 0 <= k < old(self).entries@.len() && (#[trigger] old(self).entries@[k]).0@ == n;
                                assert(self.entries@[k] == old(self).entries@[k]);
                            }
                            if self@.contains_key(n) {
                                let k = choose|k: int| 0 <= k < self.entries@.len() && (#[trigger] self.entries@[k]).0@ == n;
                                assert(self.entries@[k] == old(self).entries@[k]);
                            }
                        } else {
                            assert(self.entries@[last].0@ == key);
                        }
                    }
                    assert forall|n: Seq<u8>| #[trigger] self@.contains_key(n) implies self@[n] == old_map.insert(key, (sym, reloc))[n] by {
                        let k = choose|k: int| 0 <= k < self.entries@.len() && (#[trigger] self.entries@[k]).0@ == n;
                        if n != key {
                            assert(k != last);
                            assert(self.entries@[k] == old(self).entries@[k]);
                            assert(old(self).entries@[k].0@ == n);
                        } else {
                            assert(k == last);
                        }
                    }
                    assert(self@ =~= old_map.insert(key, (sym, reloc)));
                }
            },
        }
    }
}


/// A definition recorded under a name is what a later lookup of that name gives; every other
/// name gives what it gave before.
pub proof fn lemma_get_after_insert(
    m: Map<Seq<u8>, (Sym, Relocation)>,
    name: Seq<u8>,
    val: (Sym, Relocation),
    other: Seq<u8>,
)
    ensures
        m.insert(name, val).contains_key(name),
        m.insert(name, val)[name] == val,
        other != name ==> (m.insert(name, val).contains_key(other) == m.contains_key(other)),
        other != name && m.contains_key(other) ==> m.insert(name, val)[other] == m[other],
{
}

} // verus!
