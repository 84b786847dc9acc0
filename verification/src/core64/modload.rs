//! Loading a module: the objects it needs, in dependency order, each loaded once and linked.
use vstd::prelude::*;
use vstd::string::StringSliceAdditionalSpecFns;
use crate::core64::dynamic::names_view;
use crate::core64::elf_file::Sym;
use crate::core64::image::{ChunkModel, SOChunk, elf_outcome, try_parse_elf};
use crate::core64::kalloc::SimpleAllocator;
use crate::core64::link::{bind_syms, apply_rels, try_relocate_mod};
use crate::core64::loader::Relocation;
use crate::core64::objects::ObjectMap;
use crate::core64::symbols::{SymbolMap, bytes_eq};

verus! {

/// `a` sorts strictly before `b` (byte-wise, a proper prefix first), as `str` does.
pub open spec fn lex_lt(a: Seq<u8>, b: Seq<u8>) -> bool
    decreases a.len(),
{
    if a.len() == 0 {
        b.len() > 0
    } else if b.len() == 0 {
        false
    } else if a[0] < b[0] {
        true
    } else if a[0] > b[0] {
        false
    } else {
        lex_lt(a.drop_first(), b.drop_first())
    }
}

/// Position of the smallest name (the first of equal ones).
pub open spec fn min_pos(s: Seq<Seq<u8>>) -> int
    decreases s.len(),
{
    if s.len() <= 1 {
        0
    } else {
        let j = min_pos(s.drop_last());
        if lex_lt(s.last(), s[j]) { s.len() - 1 } else { j }
    }
}

/// The bytes of the object called `name`, if it is there.
pub open spec fn image_of(images: Seq<(Seq<u8>, Seq<u8>)>, name: Seq<u8>) -> Option<Seq<u8>>
    decreases images.len(),
{
    if images.len() == 0 {
        None
    } else if images[0].0 == name {
        Some(images[0].1)
    } else {
        image_of(images.drop_first(), name)
    }
}

pub open spec fn image_names(images: Seq<(Seq<u8>, Seq<u8>)>) -> Set<Seq<u8>> {
    images.map_values(|p: (Seq<u8>, Seq<u8>)| p.0).to_set()
}

/// `acc` with the names of `ns` that are neither in it nor loaded yet, in order.
pub open spec fn add_pending(acc: Seq<Seq<u8>>, ns: Seq<Seq<u8>>, all: Map<Seq<u8>, ChunkModel>) -> Seq<Seq<u8>>
    decreases ns.len(),
{
    if ns.len() == 0 {
        acc
    } else {
        let a = add_pending(acc, ns.drop_last(), all);
        if a.contains(ns.last()) || all.contains_key(ns.last()) { a } else { a.push(ns.last()) }
    }
}

pub proof fn lemma_image_of_name(images: Seq<(Seq<u8>, Seq<u8>)>, name: Seq<u8>)
    ensures
        image_of(images, name) is Some ==> image_names(images).contains(name),
        image_names(images).finite(),
    decreases images.len(),
{
    let ns = images.map_values(|p: (Seq<u8>, Seq<u8>)| p.0);
    vstd::seq_lib::seq_to_set_is_finite(ns);
    if images.len() > 0 {
        if images[0].0 == name {
            assert(ns[0] == name);
        } else {
            lemma_image_of_name(images.drop_first(), name);
            if image_of(images, name) is Some {
                let ns2 = images.drop_first().map_values(|p: (Seq<u8>, Seq<u8>)| p.0);
                let k = choose|k: int| 0 <= k < ns2.len() && ns2[k] == name;
                assert(ns[k + 1] == name);
            }
        }
    }
}

pub proof fn lemma_pending_shrinks(images: Seq<(Seq<u8>, Seq<u8>)>, all: Map<Seq<u8>, ChunkModel>, leaf: Seq<u8>, c: ChunkModel)
    requires
        image_of(images, leaf) is Some,
        !all.contains_key(leaf),
    ensures
        image_names(images).difference(all.insert(leaf, c).dom()).len()
            < image_names(images).difference(all.dom()).len(),
{
    lemma_image_of_name(images, leaf);
    let d = image_names(images).difference(all.dom());
    assert(image_names(images).difference(all.insert(leaf, c).dom()) =~= d.remove(leaf));
    assert(d.contains(leaf));
}

/// Loads every object the pending names reach, the smallest name first, each once; `None`
/// where an object is missing or does not load.
pub open spec fn closure(images: Seq<(Seq<u8>, Seq<u8>)>, leaves: Seq<Seq<u8>>, all: Map<Seq<u8>, ChunkModel>, dp: u32)
    -> Option<(Map<Seq<u8>, ChunkModel>, u32)>
    decreases image_names(images).difference(all.dom()).len(), leaves.len(),
{
    if leaves.len() == 0 {
        Some((all, dp))
    } else {
        let leaf = leaves[min_pos(leaves)];
        let rest = leaves.remove(min_pos(leaves));
        if all.contains_key(leaf) {
            None
        } else {
            match image_of(images, leaf) {
                None => None,
                Some(code) => match elf_outcome(code, dp) {
                    (Some(Ok(c)), dp2) => {
                        proof { lemma_pending_shrinks(images, all, leaf, c); }
                        closure(images, add_pending(rest, c.needed, all.insert(leaf, c)), all.insert(leaf, c), dp2)
                    },
                    _ => None,
                },
            }
        }
    }
}

/// Every object that needs `target` is already in the order.
pub open spec fn ready(all: Map<Seq<u8>, ChunkModel>, target: Seq<u8>, out: Seq<Seq<u8>>) -> bool {
    forall|k: Seq<u8>| #[trigger] all.contains_key(k) && all[k].needed.contains(target) ==> out.contains(k)
}

/// `acc` with the names of `ns` that are ready and not in it yet, in order.
pub open spec fn add_heads(acc: Seq<Seq<u8>>, ns: Seq<Seq<u8>>, all: Map<Seq<u8>, ChunkModel>, out: Seq<Seq<u8>>) -> Seq<Seq<u8>>
    decreases ns.len(),
{
    if ns.len() == 0 {
        acc
    } else {
        let a = add_heads(acc, ns.drop_last(), all, out);
        if ready(all, ns.last(), out) && !a.contains(ns.last()) { a.push(ns.last()) } else { a }
    }
}

pub proof fn lemma_order_shrinks(all: Map<Seq<u8>, ChunkModel>, out: Seq<Seq<u8>>, curr: Seq<u8>)
    requires
        all.dom().finite(),
        all.contains_key(curr),
        !out.contains(curr),
    ensures
        all.dom().difference(out.push(curr).to_set()).len() < all.dom().difference(out.to_set()).len(),
{
    let d = all.dom().difference(out.to_set());
    assert(out.push(curr).to_set() =~= out.to_set().insert(curr)) by {
        assert forall|x: Seq<u8>| out.push(curr).to_set().contains(x) <==> out.to_set().insert(curr).contains(x) by {
            if out.push(curr).contains(x) && x != curr {
                let k = choose|k: int| 0 <= k < out.push(curr).len() && out.push(curr)[k] == x;
                assert(out[k] == x);
            }
            if out.contains(x) {
                let k = choose|k: int| 0 <= k < out.len() && out[k] == x;
                assert(out.push(curr)[k] == x);
            }
            if x == curr {
                assert(out.push(curr)[out.len() as int] == x);
            }
        }
    }
    assert(all.dom().difference(out.push(curr).to_set()) =~= d.remove(curr));
    assert(d.contains(curr));
}

/// The dependency order: starting from the heads, the smallest ready name first; an object
/// becomes ready once every object that needs it is placed. `None` where a name would be
/// placed twice or is not loaded.
pub open spec fn order(all: Map<Seq<u8>, ChunkModel>, heads: Seq<Seq<u8>>, out: Seq<Seq<u8>>) -> Option<Seq<Seq<u8>>>
    decreases all.dom().difference(out.to_set()).len(), heads.len(),
{
    if heads.len() == 0 {
        Some(out)
    } else {
        let curr = heads[min_pos(heads)];
        let rest = heads.remove(min_pos(heads));
        if out.contains(curr) || !all.contains_key(curr) || !all.dom().finite() {
            None
        } else {
            proof { lemma_order_shrinks(all, out, curr); }
            order(all, add_heads(rest, all[curr].needed, all, out.push(curr)), out.push(curr))
        }
    }
}

/// A linked module, as a value.
pub struct ModuleModel {
    pub allocations: Seq<Seq<u8>>,
    pub bases: Seq<u32>,
    pub init_fns: Seq<u32>,
    pub fini_fns: Seq<u32>,
    pub symbols: Map<Seq<u8>, (Sym, Relocation)>,
}

/// Links the objects of `order` in turn into `acc`; `None` where linking one fails.
pub open spec fn link_all(all: Map<Seq<u8>, ChunkModel>, order: Seq<Seq<u8>>, acc: ModuleModel) -> Option<ModuleModel>
    decreases order.len(),
{
    if order.len() == 0 {
        Some(acc)
    } else {
        let val = order[0];
        if !all.contains_key(val) {
            None
        } else {
            let c = all[val];
            let (m, e) = bind_syms(c.strtab, c.baseaddr, acc.symbols, c.syms);
            if e is Some {
                None
            } else {
                match apply_rels(c.syms, c.strtab, c.baseaddr, m, c.image, c.rel_array + c.jmprel_array) {
                    Some((img, None)) => link_all(all.remove(val), order.drop_first(), ModuleModel {
                        allocations: acc.allocations.push(img),
                        bases: acc.bases.push(c.baseaddr.new_baseaddr),
                        init_fns: acc.init_fns + c.init_fns,
                        fini_fns: acc.fini_fns + c.fini_fns,
                        symbols: m,
                    }),
                    _ => None,
                }
            }
        }
    }
}

pub open spec fn empty_module() -> ModuleModel {
    ModuleModel { allocations: seq![], bases: seq![], init_fns: seq![], fini_fns: seq![], symbols: Map::empty() }
}

/// Loading the module `name` from `images` with the allocator at `dp`: the module and where the
/// allocator ends, or `None` where loading does not give a module.
pub open spec fn load_outcome(images: Seq<(Seq<u8>, Seq<u8>)>, name: Seq<u8>, dp: u32) -> Option<(ModuleModel, u32)> {
    match closure(images, seq![name], Map::empty(), dp) {
        None => None,
        Some((all, dp2)) => match order(all, seq![name], seq![]) {
            None => None,
            Some(out) => if !(forall|k: Seq<u8>| all.contains_key(k) ==> out.contains(k)) {
                None
            } else {
                match link_all(all, out.reverse(), empty_module()) {
                    None => None,
                    Some(mm) => Some((mm, dp2)),
                }
            },
        },
    }
}


/// A loaded and linked module: the images of its objects (in linking order) and the addresses
/// they are loaded at, their init and fini functions, and the symbols they define.
pub struct Module {
    pub allocations: Vec<Vec<u8>>,
    pub bases: Vec<u32>,
    pub init_fns: Vec<u32>,
    pub fini_fns: Vec<u32>,
    pub symbols: SymbolMap,
}

impl View for Module {
    type V = ModuleModel;

    open spec fn view(&self) -> ModuleModel {
        ModuleModel {
            allocations: names_view(self.allocations@),
            bases: self.bases@,
            init_fns: self.init_fns@,
            fini_fns: self.fini_fns@,
            symbols: self.symbols@,
        }
    }
}

/// The named images, as values.
pub open spec fn images_view(images: Seq<(Vec<u8>, Vec<u8>)>) -> Seq<(Seq<u8>, Seq<u8>)> {
    images.map_values(|p: (Vec<u8>, Vec<u8>)| (p.0@, p.1@))
}

/// A copy of `a`.
pub fn copy_bytes(a: &[u8]) -> (r: Vec<u8>)
    ensures
        r@ == a@,
{
    let mut r: Vec<u8> = Vec::new();
    let mut i: usize = 0;
    while i < a.len()
        invariant
            i <= a@.len(),
            r@ == a@.take(i as int),
        decreases a@.len() - i,
    {
        r.push(a[i]);
        i = i + 1;
        assert(r@ =~= a@.take(i as int));
    }
    assert(a@.take(a@.len() as int) =~= a@);
    r
}

/// `a` sorts strictly before `b`.
pub fn bytes_lt(a: &[u8], b: &[u8]) -> (r: bool)
    ensures
        r == lex_lt(a@, b@),
{
    let mut i: usize = 0;
    assert(a@.skip(0) =~= a@);
    assert(b@.skip(0) =~= b@);
    loop
        invariant
            i <= a@.len(),
            i <= b@.len(),
            lex_lt(a@, b@) == lex_lt(a@.skip(i as int), b@.skip(i as int)),
        decreases a@.len() - i,
    {
        if i == a.len() {
            return i < b.len();
        }
        if i == b.len() {
            return false;
        }
        if a[i] < b[i] {
            return true;
        }
        if a[i] > b[i] {
            return false;
        }
        assert(a@.skip(i as int).drop_first() =~= a@.skip(i as int + 1));
        assert(b@.skip(i as int).drop_first() =~= b@.skip(i as int + 1));
        i = i + 1;
    }
}

/// Position of the smallest name of `s`.
fn min_index(s: &Vec<Vec<u8>>) -> (r: usize)
    requires
        s@.len() > 0,
    ensures
        r as int == min_pos(names_view(s@)),
        r < s@.len(),
{
    let ghost v = names_view(s@);
    let mut cur: usize = 0;
    let mut j: usize = 1;
    assert(v.take(1).len() == 1);
    while j < s.len()
        invariant
            v == names_view(s@),
            1 <= j <= s@.len(),
            cur < j,
            cur as int == min_pos(v.take(j as int)),
        decreases s@.len() - j,
    {
        assert(v.take(j as int + 1).drop_last() =~= v.take(j as int));
        assert(v.take(j as int + 1).last() == v[j as int]);
        assert(v.take(j as int + 1)[cur as int] == v[cur as int]);
        if bytes_lt(s[j].as_slice(), s[cur].as_slice()) {
            cur = j;
        }
        j = j + 1;
    }
    assert(v.take(s@.len() as int) =~= v);
    cur
}

/// `s` holds the name `n`.
fn contains_name(s: &Vec<Vec<u8>>, n: &[u8]) -> (r: bool)
    ensures
        r == names_view(s@).contains(n@),
{
    let mut i: usize = 0;
    while i < s.len()
        invariant
            i <= s@.len(),
            forall|j: int| 0 <= j < i ==> s@[j]@ != n@,
        decreases s@.len() - i,
    {
        if bytes_eq(s[i].as_slice(), n) {
            assert(names_view(s@)[i as int] == n@);
            return true;
        }
        i = i + 1;
    }
    false
}

/// Index of the first image called `name`.
fn find_image(images: &Vec<(Vec<u8>, Vec<u8>)>, name: &[u8]) -> (r: Option<usize>)
    ensures
        match image_of(images_view(images@), name@) {
            None => r is None,
            Some(code) => (r matches Some(i) && i < images@.len() && images@[i as int].1@ == code),
        },
{
    let ghost iv = images_view(images@);
    let mut i: usize = 0;
    assert(iv.skip(0) =~= iv);
    while i < images.len()
        invariant
            iv == images_view(images@),
            i <= images@.len(),
            image_of(iv, name@) == image_of(iv.skip(i as int), name@),
        decreases images@.len() - i,
    {
        assert(iv.skip(i as int)[0] == iv[i as int]);
        assert(iv.skip(i as int).drop_first() =~= iv.skip(i as int + 1));
        if bytes_eq(images[i].0.as_slice(), name) {
            return Some(i);
        }
        i = i + 1;
    }
    None
}

proof fn lemma_names_view_remove(s: Seq<Vec<u8>>, i: int)
    requires
        0 <= i < s.len(),
    ensures
        names_view(s.remove(i)) == names_view(s).remove(i),
{
    assert(names_view(s.remove(i)) =~= names_view(s).remove(i));
}

proof fn lemma_names_view_push(s: Seq<Vec<u8>>, x: Vec<u8>)
    ensures
        names_view(s.push(x)) == names_view(s).push(x@),
{
    assert(names_view(s.push(x)) =~= names_view(s).push(x@));
}

/// Adds to `acc` the names of `ns` that are neither pending nor loaded; see `add_pending`.
fn push_pending(acc: &mut Vec<Vec<u8>>, ns: &Vec<Vec<u8>>, all: &ObjectMap)
    ensures
        names_view(final(acc)@) == add_pending(names_view(old(acc)@), names_view(ns@), all@),
{
    let ghost a0 = names_view(acc@);
    let ghost nv = names_view(ns@);
    let mut k: usize = 0;
    assert(nv.take(0) =~= seq![]);
    while k < ns.len()
        invariant
            nv == names_view(ns@),
            a0 == names_view(old(acc)@),
            k <= ns@.len(),
            names_view(acc@) == add_pending(a0, nv.take(k as int), all@),
        decreases ns@.len() - k,
    {
        assert(nv.take(k as int + 1).drop_last() =~= nv.take(k as int));
        assert(nv.take(k as int + 1).last() == ns@[k as int]@);
        let n = &ns[k];
        if !contains_name(acc, n.as_slice()) && !all.contains(n.as_slice()) {
            let ghost before = acc@;
            acc.push(copy_bytes(n.as_slice()));
            proof { lemma_names_view_push(before, acc@.last()); assert(acc@ == before.push(acc@.last())); }
        }
        k = k + 1;
    }
    assert(nv.take(ns@.len() as int) =~= nv);
}

/// Every object that needs `target` is in `out`; see `ready`.
fn is_ready(all: &ObjectMap, target: &[u8], out: &Vec<Vec<u8>>) -> (r: bool)
    requires
        all.wf(),
    ensures
        r == ready(all@, target@, names_view(out@)),
{
    proof { all.lemma_names(); }
    let n = all.count();
    let mut i: usize = 0;
    while i < n
        invariant
            n == all.len(),
            all.wf(),
            i <= n,
            forall|j: int| 0 <= j < i ==> {
                let k = #[trigger] all.names()[j];
                all@[k].needed.contains(target@) ==> names_view(out@).contains(k)
            },
        decreases n - i,
    {
        let (name, needed) = all.entry_needed(i);
        if contains_name(needed, target) && !contains_name(out, name.as_slice()) {
            return false;
        }
        i = i + 1;
    }
    assert forall|k: Seq<u8>| #[trigger] all@.contains_key(k) && all@[k].needed.contains(target@)
        implies names_view(out@).contains(k) by {
        assert(all.names().contains(k));
        let j = choose|j: int| 0 <= j < all.names().len() && all.names()[j] == k;
    }
    true
}

/// Adds to `acc` the names of `ns` that are ready and not there yet; see `add_heads`.
fn push_heads(acc: &mut Vec<Vec<u8>>, ns: &Vec<Vec<u8>>, all: &ObjectMap, out: &Vec<Vec<u8>>)
    requires
        all.wf(),
    ensures
        names_view(final(acc)@) == add_heads(names_view(old(acc)@), names_view(ns@), all@, names_view(out@)),
{
    let ghost a0 = names_view(acc@);
    let ghost nv = names_view(ns@);
    let mut k: usize = 0;
    assert(nv.take(0) =~= seq![]);
    while k < ns.len()
        invariant
            all.wf(),
            nv == names_view(ns@),
            a0 == names_view(old(acc)@),
            k <= ns@.len(),
            names_view(acc@) == add_heads(a0, nv.take(k as int), all@, names_view(out@)),
        decreases ns@.len() - k,
    {
        assert(nv.take(k as int + 1).drop_last() =~= nv.take(k as int));
        assert(nv.take(k as int + 1).last() == ns@[k as int]@);
        let n = &ns[k];
        if is_ready(all, n.as_slice(), out) && !contains_name(acc, n.as_slice()) {
            let ghost before = acc@;
            acc.push(copy_bytes(n.as_slice()));
            proof { lemma_names_view_push(before, acc@.last()); assert(acc@ == before.push(acc@.last())); }
        }
        k = k + 1;
    }
    assert(nv.take(ns@.len() as int) =~= nv);
}


proof fn lemma_reverse_pop(s: Seq<Seq<u8>>)
    requires
        s.len() > 0,
    ensures
        s.reverse()[0] == s.last(),
        s.reverse().drop_first() == s.drop_last().reverse(),
        s.reverse().len() > 0,
{
    assert(s.reverse().drop_first() =~= s.drop_last().reverse());
}

/// Loads the module `name` from the named ELF images: loads every object it needs (the
/// smallest pending name first, each object once, taking its pages from `a`), orders them so
/// that an object comes after all that need it, and links them in reverse of that order.
/// `None` where that does not give a module: an object missing, failing to load or to link, or
/// objects that need each other. An object that a later object needs again after it was loaded
/// is not loaded a second time: the one image is linked and shared, and a cycle of objects that
/// need each other ends in `None` instead of loading forever.
pub fn try_load_mod<'a>(name: &str, images: &'a Vec<(Vec<u8>, Vec<u8>)>, a: &mut SimpleAllocator) -> (r: Option<Module>)
    ensures
        match load_outcome(images_view(images@), name.spec_bytes(), old(a).dataptr) {
            None => r is None,
            Some((mm, dp)) => (r matches Some(m) && m@ == mm && m.symbols.wf()) && final(a).dataptr == dp,
        },
{
    let ghost iv = images_view(images@);
    let root = copy_bytes(name.as_bytes());
    let ghost rn = root@;
    let ghost dp0 = a.dataptr;
    // The objects it needs, each loaded once.
    let mut leaves: Vec<Vec<u8>> = Vec::new();
    leaves.push(copy_bytes(root.as_slice()));
    let mut all: ObjectMap<'a> = ObjectMap::new();
    assert(names_view(leaves@) =~= seq![rn]);
    while leaves.len() > 0
        invariant
            iv == images_view(images@),
            all.wf(),
            closure(iv, names_view(leaves@), all@, a.dataptr) == closure(iv, seq![rn], Map::empty(), dp0),
            rn == name.spec_bytes(),
            dp0 == old(a).dataptr,
        decreases image_names(iv).difference(all@.dom()).len(), leaves@.len(),
    {
        let i = min_index(&leaves);
        let ghost lv = leaves@;
        let leaf = leaves.remove(i);
        proof { lemma_names_view_remove(lv, i as int); }
        if all.contains(leaf.as_slice()) {
            return None;
        }
        let idx = match find_image(images, leaf.as_slice()) {
            None => { return None; },
            Some(idx) => idx,
        };
        let code: &'a [u8] = images[idx].1.as_slice();
        let ghost dp = a.dataptr;
        let chunk = match try_parse_elf(code, a) {
            Some(Ok(c)) => c,
            _ => { return None; },
        };
        proof { lemma_pending_shrinks(iv, all@, leaf@, chunk@); }
        let key = copy_bytes(leaf.as_slice());
        all.insert(key, chunk);
        push_pending(&mut leaves, all.needed_of(leaf.as_slice()), &all);
    }
    // Their order.
    proof { all.lemma_dom_finite(); }
    let ghost dp1 = a.dataptr;
    assert(closure(iv, seq![rn], Map::empty(), dp0) == Some((all@, dp1)));
    let mut heads: Vec<Vec<u8>> = Vec::new();
    heads.push(copy_bytes(root.as_slice()));
    let mut out: Vec<Vec<u8>> = Vec::new();
    assert(names_view(heads@) =~= seq![rn]);
    assert(names_view(out@) =~= seq![]);
    let ghost all0 = all@;
    while heads.len() > 0
        invariant
            all.wf(),
            all@ == all0,
            all0.dom().finite(),
            order(all0, names_view(heads@), names_view(out@)) == order(all0, seq![rn], seq![]),
            closure(iv, seq![rn], Map::empty(), dp0) == Some((all0, dp1)),
            a.dataptr == dp1,
            rn == name.spec_bytes(),
            iv == images_view(images@),
            dp0 == old(a).dataptr,
        decreases all0.dom().difference(names_view(out@).to_set()).len(), heads@.len(),
    {
        let i = min_index(&heads);
        let ghost hv = heads@;
        let curr = heads.remove(i);
        proof { lemma_names_view_remove(hv, i as int); }
        if contains_name(&out, curr.as_slice()) || !all.contains(curr.as_slice()) {
            return None;
        }
        let ghost ov = out@;
        out.push(copy_bytes(curr.as_slice()));
        proof {
            lemma_names_view_push(ov, out@.last());
            assert(out@ == ov.push(out@.last()));
            lemma_order_shrinks(all0, names_view(ov), curr@);
        }
        push_heads(&mut heads, all.needed_of(curr.as_slice()), &all, &out);
    }
    // Every object placed.
    proof { all.lemma_names(); }
    assert(order(all0, seq![rn], seq![]) == Some(names_view(out@)));
    let n = all.count();
    let mut i: usize = 0;
    while i < n
        invariant
            all.wf(),
            all@ == all0,
            n == all.len(),
            i <= n,
            forall|j: int| 0 <= j < i ==> names_view(out@).contains(#[trigger] all.names()[j]),
            order(all0, seq![rn], seq![]) == Some(names_view(out@)),
            closure(iv, seq![rn], Map::empty(), dp0) == Some((all0, dp1)),
            a.dataptr == dp1,
            rn == name.spec_bytes(),
            iv == images_view(images@),
            dp0 == old(a).dataptr,
        decreases n - i,
    {
        let (nm, _) = all.entry_needed(i);
        if !contains_name(&out, nm.as_slice()) {
            assert(all0.contains_key(nm@) && !names_view(out@).contains(nm@));
            return None;
        }
        i = i + 1;
    }
    assert forall|k: Seq<u8>| all0.contains_key(k) implies names_view(out@).contains(k) by {
        assert(all.names().contains(k));
        let j = choose|j: int| 0 <= j < all.names().len() && all.names()[j] == k;
    }
    // Linking, in reverse order.
    let mut symbols = SymbolMap::new();
    let mut init_fns: Vec<u32> = Vec::new();
    let mut fini_fns: Vec<u32> = Vec::new();
    let mut allocations: Vec<Vec<u8>> = Vec::new();
    let mut bases: Vec<u32> = Vec::new();
    let ghost out0 = names_view(out@);
    proof {
        assert(names_view(allocations@) =~= seq![]);
        assert(bases@ =~= seq![]);
        assert(init_fns@ =~= seq![]);
        assert(fini_fns@ =~= seq![]);
    }
    while out.len() > 0
        invariant
            all.wf(),
            symbols.wf(),
            link_all(all0, out0.reverse(), empty_module())
                == link_all(all@, names_view(out@).reverse(), ModuleModel {
                    allocations: names_view(allocations@),
                    bases: bases@,
                    init_fns: init_fns@,
                    fini_fns: fini_fns@,
                    symbols: symbols@,
                }),
            order(all0, seq![rn], seq![]) == Some(out0),
            forall|k: Seq<u8>| all0.contains_key(k) ==> out0.contains(k),
            closure(iv, seq![rn], Map::empty(), dp0) == Some((all0, dp1)),
            a.dataptr == dp1,
            rn == name.spec_bytes(),
            iv == images_view(images@),
            dp0 == old(a).dataptr,
        decreases out@.len(),
    {
        let ghost ov = names_view(out@);
        let val = match out.pop() { Some(v) => v, None => { return None; } };
        proof {
            lemma_reverse_pop(ov);
            assert(names_view(out@) =~= ov.drop_last());
            assert(ov.last() == val@);
        }
        let mut object = match all.remove(val.as_slice()) {
            Some(o) => o,
            None => { return None; },
        };
        match try_relocate_mod(&mut object, &mut symbols) {
            Some(Ok(())) => {},
            _ => { return None; },
        }
        let ghost before_alloc = allocations@;
        init_fns.append(&mut object.init_fns);
        fini_fns.append(&mut object.fini_fns);
        bases.push(object.baseaddr.new_baseaddr);
        allocations.push(object.allocation);
        proof { lemma_names_view_push(before_alloc, allocations@.last()); assert(allocations@ == before_alloc.push(allocations@.last())); }
    }
    proof { assert(names_view(out@).reverse() =~= seq![]); }
    Some(Module { allocations, bases, init_fns, fini_fns, symbols })
}

/// Loads the module `name`; see `try_load_mod`. It must load: a module whose objects are
/// missing, do not load or link, or need each other, does not load.
pub fn load_mod<'a>(name: &str, images: &'a Vec<(Vec<u8>, Vec<u8>)>, a: &mut SimpleAllocator) -> (r: Module)
    requires
        load_outcome(images_view(images@), name.spec_bytes(), old(a).dataptr) is Some,
    ensures
        ({
            let (mm, dp) = load_outcome(images_view(images@), name.spec_bytes(), old(a).dataptr)->0;
            r@ == mm && r.symbols.wf() && final(a).dataptr == dp
        }),
{
    match try_load_mod(name, images, a) {
        Some(m) => m,
        None => {
            proof { assert(false); }
            Module { allocations: Vec::new(), bases: Vec::new(), init_fns: Vec::new(), fini_fns: Vec::new(), symbols: SymbolMap::new() }
        },
    }
}

/// Object `k` is loaded and needs `t`.
pub open spec fn needs(all: Map<Seq<u8>, ChunkModel>, k: Seq<u8>, t: Seq<u8>) -> bool {
    all.contains_key(k) && all[k].needed.contains(t)
}

/// Every object that needs the `i`-th object of `out` comes before it in `out`.
pub open spec fn needers_before(all: Map<Seq<u8>, ChunkModel>, out: Seq<Seq<u8>>, i: int) -> bool {
    forall|k: Seq<u8>| #[trigger] needs(all, k, out[i]) ==> out.take(i).contains(k)
}

proof fn lemma_min_pos_bounds(s: Seq<Seq<u8>>)
    requires
        s.len() > 0,
    ensures
        0 <= min_pos(s) < s.len(),
    decreases s.len(),
{
    if s.len() > 1 {
        lemma_min_pos_bounds(s.drop_last());
    }
}

proof fn lemma_add_heads(acc: Seq<Seq<u8>>, ns: Seq<Seq<u8>>, all: Map<Seq<u8>, ChunkModel>, out: Seq<Seq<u8>>, x: Seq<u8>)
    ensures
        add_heads(acc, ns, all, out).contains(x) ==> acc.contains(x) || ready(all, x, out),
        acc.contains(x) ==> add_heads(acc, ns, all, out).contains(x),
        ns.contains(x) && ready(all, x, out) ==> add_heads(acc, ns, all, out).contains(x),
    decreases ns.len(),
{
    if ns.len() > 0 {
        let a = add_heads(acc, ns.drop_last(), all, out);
        lemma_add_heads(acc, ns.drop_last(), all, out, x);
        if ready(all, ns.last(), out) && !a.contains(ns.last()) {
            let b = a.push(ns.last());
            if b.contains(x) && !a.contains(x) {
                let j = choose|j: int| 0 <= j < b.len() && b[j] == x;
                if j < a.len() {
                    assert(a[j] == x);
                }
            }
            if a.contains(x) {
                let j = choose|j: int| 0 <= j < a.len() && a[j] == x;
                assert(b[j] == x);
            }
            assert(b[a.len() as int] == ns.last());
        }
        if ns.contains(x) && x != ns.last() {
            let j = choose|j: int| 0 <= j < ns.len() && ns[j] == x;
            assert(ns.drop_last()[j] == x);
        }
    }
}

proof fn lemma_remove_keeps(s: Seq<Seq<u8>>, i: int, x: Seq<u8>)
    requires
        0 <= i < s.len(),
    ensures
        s.remove(i).contains(x) ==> s.contains(x),
        s.contains(x) && s[i] != x ==> s.remove(i).contains(x),
{
    if s.remove(i).contains(x) {
        let j = choose|j: int| 0 <= j < s.remove(i).len() && s.remove(i)[j] == x;
        if j < i {
            assert(s[j] == x);
        } else {
            assert(s[j + 1] == x);
        }
    }
    if s.contains(x) && s[i] != x {
        let j = choose|j: int| 0 <= j < s.len() && s[j] == x;
        if j < i {
            assert(s.remove(i)[j] == x);
        } else {
            assert(s.remove(i)[j - 1] == x);
        }
    }
}

proof fn lemma_push_contains(s: Seq<Seq<u8>>, y: Seq<u8>, x: Seq<u8>)
    ensures
        s.push(y).contains(x) <==> s.contains(x) || x == y,
{
    if s.contains(x) {
        let j = choose|j: int| 0 <= j < s.len() && s[j] == x;
        assert(s.push(y)[j] == x);
    }
    if s.push(y).contains(x) && x != y {
        let j = choose|j: int| 0 <= j < s.push(y).len() && s.push(y)[j] == x;
        assert(s[j] == x);
    }
    assert(s.push(y)[s.len() as int] == y);
}

/// What each step of `order` keeps: the objects placed so far come after the objects that need
/// them (the root aside), every pending head other than the root is ready, and while an object
/// that needs the root is placed, either the root is pending again or some object that needs it
/// is not placed yet.
proof fn lemma_order_topo(
    all: Map<Seq<u8>, ChunkModel>,
    heads: Seq<Seq<u8>>,
    out: Seq<Seq<u8>>,
    root: Seq<u8>,
    fin: Seq<Seq<u8>>,
)
    requires
        order(all, heads, out) == Some(fin),
        out.len() == 0 ==> heads == seq![root],
        out.len() > 0 ==> out.contains(root),
        forall|i: int| 0 <= i < out.len() && out[i] != root ==> #[trigger] needers_before(all, out, i),
        forall|h: Seq<u8>| #[trigger] heads.contains(h) && h != root ==> ready(all, h, out),
        (exists|k: Seq<u8>| #[trigger] needs(all, k, root) && out.contains(k)) ==> (heads.contains(root)
            || exists|k: Seq<u8>| #[trigger] needs(all, k, root) && !out.contains(k)),
    ensures
        forall|i: int| 0 <= i < fin.len() && fin[i] != root ==> #[trigger] needers_before(all, fin, i),
        (exists|k: Seq<u8>| #[trigger] needs(all, k, root) && fin.contains(k)) ==> exists|k: Seq<u8>|
            #[trigger] needs(all, k, root) && !fin.contains(k),
    decreases all.dom().difference(out.to_set()).len(), heads.len(),
{
    if heads.len() == 0 {
        return;
    }
    lemma_min_pos_bounds(heads);
    let mp = min_pos(heads);
    let curr = heads[mp];
    let rest = heads.remove(mp);
    let out2 = out.push(curr);
    let heads2 = add_heads(rest, all[curr].needed, all, out2);
    assert(!out.contains(curr) && all.contains_key(curr) && all.dom().finite());
    lemma_order_shrinks(all, out, curr);
    assert(order(all, heads2, out2) == Some(fin));
    assert(heads.contains(curr));
    // The placed objects.
    assert forall|i: int| 0 <= i < out2.len() && out2[i] != root implies #[trigger] needers_before(all, out2, i) by {
        if i < out.len() {
            assert(out2.take(i) =~= out.take(i));
            assert(out2[i] == out[i]);
            assert(needers_before(all, out, i));
        } else {
            assert(out2.take(i) =~= out);
            assert(ready(all, curr, out));
        }
    }
    // The pending heads.
    assert forall|h: Seq<u8>| #[trigger] heads2.contains(h) && h != root implies ready(all, h, out2) by {
        lemma_add_heads(rest, all[curr].needed, all, out2, h);
        if rest.contains(h) {
            lemma_remove_keeps(heads, mp, h);
            assert(ready(all, h, out));
            assert forall|k: Seq<u8>| #[trigger] all.contains_key(k) && all[k].needed.contains(h) implies out2.contains(k) by {
                lemma_push_contains(out, curr, k);
            }
        }
    }
    // The root.
    lemma_push_contains(out, root, curr);
    if out.len() == 0 {
        assert(curr == root);
    } else {
        lemma_push_contains(out, curr, root);
    }
    if exists|k: Seq<u8>| #[trigger] needs(all, k, root) && out2.contains(k) {
        let k = choose|k: Seq<u8>| #[trigger] needs(all, k, root) && out2.contains(k);
        lemma_push_contains(out, curr, k);
        lemma_add_heads(rest, all[curr].needed, all, out2, root);
        if ready(all, root, out2) {
            if k == curr {
                assert(heads2.contains(root));
            } else if heads.contains(root) {
                if curr == root {
                    assert(out.len() > 0);
                    assert(false);
                }
                lemma_remove_keeps(heads, mp, root);
                assert(heads2.contains(root));
            } else {
                let k2 = choose|k2: Seq<u8>| #[trigger] needs(all, k2, root) && !out.contains(k2);
                lemma_push_contains(out, curr, k2);
                if k2 == curr {
                    assert(heads2.contains(root));
                } else {
                    assert(needs(all, k2, root) && !out2.contains(k2));
                }
            }
        } else {
            let k3 = choose|k3: Seq<u8>| all.contains_key(k3) && all[k3].needed.contains(root) && !out2.contains(k3);
            assert(needs(all, k3, root) && !out2.contains(k3));
        }
    }
    lemma_order_topo(all, heads2, out2, root, fin);
}

/// The link order is a topological order: with `out` the order `load_mod` places the objects
/// in (it links them last first), every object that needs the `i`-th object is placed before
/// it, so the `i`-th object is linked before every object that needs it. Holds whenever every
/// loaded object is placed, as `load_mod` requires before it links.
pub proof fn lemma_link_order_topological(all: Map<Seq<u8>, ChunkModel>, name: Seq<u8>, out: Seq<Seq<u8>>)
    requires
        order(all, seq![name], seq![]) == Some(out),
        forall|k: Seq<u8>| all.contains_key(k) ==> out.contains(k),
    ensures
        forall|i: int, k: Seq<u8>| 0 <= i < out.len() && #[trigger] needs(all, k, out[i]) ==> out.take(i).contains(k),
{
    lemma_order_topo(all, seq![name], seq![], name, out);
    assert forall|i: int, k: Seq<u8>| 0 <= i < out.len() && #[trigger] needs(all, k, out[i]) implies out.take(i).contains(k) by {
        if out[i] != name {
            assert(needers_before(all, out, i));
        } else {
            assert(needs(all, k, name) && out.contains(k));
            let k2 = choose|k2: Seq<u8>| #[trigger] needs(all, k2, name) && !out.contains(k2);
            assert(out.contains(k2));
        }
    }
}

/// The functions `f` picks out of each object of `order`, one object after another.
pub open spec fn gathered(all: Map<Seq<u8>, ChunkModel>, order: Seq<Seq<u8>>, f: spec_fn(ChunkModel) -> Seq<u32>) -> Seq<u32>
    decreases order.len(),
{
    if order.len() == 0 {
        seq![]
    } else {
        f(all[order[0]]) + gathered(all, order.drop_first(), f)
    }
}

proof fn lemma_gathered_remove(all: Map<Seq<u8>, ChunkModel>, v: Seq<u8>, order: Seq<Seq<u8>>, f: spec_fn(ChunkModel) -> Seq<u32>)
    requires
        forall|i: int| 0 <= i < order.len() ==> order[i] != v,
    ensures
        gathered(all.remove(v), order, f) == gathered(all, order, f),
    decreases order.len(),
{
    if order.len() > 0 {
        assert forall|i: int| 0 <= i < order.drop_first().len() implies order.drop_first()[i] != v by {
            assert(order.drop_first()[i] == order[i + 1]);
        }
        lemma_gathered_remove(all, v, order.drop_first(), f);
    }
}

/// Linking a module collects, in link order, the init functions and the fini functions of every
/// object it links, one image and one load address per object, and links only loaded objects.
pub proof fn lemma_link_all_collects(all: Map<Seq<u8>, ChunkModel>, order: Seq<Seq<u8>>, acc: ModuleModel)
    requires
        link_all(all, order, acc) is Some,
    ensures
        ({
            let mm = link_all(all, order, acc)->0;
            &&& mm.init_fns == acc.init_fns + gathered(all, order, |c: ChunkModel| c.init_fns)
            &&& mm.fini_fns == acc.fini_fns + gathered(all, order, |c: ChunkModel| c.fini_fns)
            &&& mm.allocations.len() == acc.allocations.len() + order.len()
            &&& mm.bases.len() == acc.bases.len() + order.len()
            &&& forall|i: int| 0 <= i < order.len() ==> #[trigger] all.contains_key(order[i])
            &&& forall|i: int| 0 <= i < order.len() ==> mm.bases[acc.bases.len() + i] == #[trigger] all[order[i]].baseaddr.new_baseaddr
            &&& forall|k: int| 0 <= k < acc.bases.len() ==> #[trigger] mm.bases[k] == acc.bases[k]
        }),
    decreases order.len(),
{
    if order.len() > 0 {
        let val = order[0];
        let c = all[val];
        let (m, e) = bind_syms(c.strtab, c.baseaddr, acc.symbols, c.syms);
        let applied = apply_rels(c.syms, c.strtab, c.baseaddr, m, c.image, c.rel_array + c.jmprel_array)->0;
        let img = applied.0;
        let acc2 = ModuleModel {
            allocations: acc.allocations.push(img),
            bases: acc.bases.push(c.baseaddr.new_baseaddr),
            init_fns: acc.init_fns + c.init_fns,
            fini_fns: acc.fini_fns + c.fini_fns,
            symbols: m,
        };
        let rest = order.drop_first();
        let all2 = all.remove(val);
        assert(link_all(all, order, acc) == link_all(all2, rest, acc2));
        lemma_link_all_collects(all2, rest, acc2);
        assert forall|i: int| 0 <= i < rest.len() implies rest[i] != val by {
            assert(all2.contains_key(rest[i]));
        }
        lemma_gathered_remove(all, val, rest, |c: ChunkModel| c.init_fns);
        lemma_gathered_remove(all, val, rest, |c: ChunkModel| c.fini_fns);
        let mm = link_all(all, order, acc)->0;
        assert(mm.init_fns =~= acc.init_fns + gathered(all, order, |c: ChunkModel| c.init_fns));
        assert(mm.fini_fns =~= acc.fini_fns + gathered(all, order, |c: ChunkModel| c.fini_fns));
        assert forall|i: int| 0 <= i < order.len() implies #[trigger] all.contains_key(order[i]) by {
            if i > 0 {
                assert(order[i] == rest[i - 1]);
                assert(all2.contains_key(rest[i - 1]));
            }
        }
        assert forall|i: int| 0 <= i < order.len() implies mm.bases[acc.bases.len() + i] == #[trigger] all[order[i]].baseaddr.new_baseaddr by {
            if i > 0 {
                assert(order[i] == rest[i - 1]);
                assert(rest[i - 1] != val);
                assert(mm.bases[acc2.bases.len() + (i - 1)] == all2[rest[i - 1]].baseaddr.new_baseaddr);
            } else {
                assert(mm.bases[acc.bases.len() as int] == acc2.bases[acc.bases.len() as int]);
            }
        }
        assert forall|k: int| 0 <= k < acc.bases.len() implies #[trigger] mm.bases[k] == acc.bases[k] by {
            assert(mm.bases[k] == acc2.bases[k]);
        }
    }
}

} // verus!
