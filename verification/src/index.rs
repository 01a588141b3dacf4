//! Lookup structures over one symbol graph: by fully qualified name, by
//! local id, `Contains` children and `Inherits` parent of each symbol.
use vstd::prelude::*;
use std::collections::HashMap;
use vstd::string::StringSliceAdditionalSpecFns;
use crate::model::{Relation, RelationKind, Symbol, SymbolGraph, SymbolKind};
use crate::text::str_eq;

verus! {

broadcast use vstd::std_specs::hash::group_hash_axioms;

/// Position of the last symbol whose fqn is `f`, or -1.
pub open spec fn last_fqn_pos(syms: Seq<Symbol>, f: Seq<char>) -> int
    decreases syms.len(),
{
    if syms.len() == 0 {
        -1
    } else if syms.last().fqn@ == f {
        syms.len() - 1
    } else {
        last_fqn_pos(syms.drop_last(), f)
    }
}

/// Position of the last symbol whose local id is `id`, or -1.
pub open spec fn last_id_pos(syms: Seq<Symbol>, id: u32) -> int
    decreases syms.len(),
{
    if syms.len() == 0 {
        -1
    } else if syms.last().local_id == id {
        syms.len() - 1
    } else {
        last_id_pos(syms.drop_last(), id)
    }
}

/// Targets of the `Contains` relations from `id`, in relation order.
pub open spec fn children_of(rels: Seq<Relation>, id: u32) -> Seq<u32>
    decreases rels.len(),
{
    if rels.len() == 0 {
        Seq::empty()
    } else {
        let rest = children_of(rels.drop_last(), id);
        if rels.last().kind == RelationKind::Contains && rels.last().from == id {
            rest.push(rels.last().to)
        } else {
            rest
        }
    }
}

/// Target of the last `Inherits` relation from `id`.
pub open spec fn parent_of(rels: Seq<Relation>, id: u32) -> Option<u32>
    decreases rels.len(),
{
    if rels.len() == 0 {
        None
    } else if rels.last().kind == RelationKind::Inherits && rels.last().from == id {
        Some(rels.last().to)
    } else {
        parent_of(rels.drop_last(), id)
    }
}

/// No two symbols share a local id.
pub open spec fn ids_unique(syms: Seq<Symbol>) -> bool {
    forall|i: int, j: int|
        0 <= i < syms.len() && 0 <= j < syms.len() && i != j ==> syms[i].local_id
            != syms[j].local_id
}

pub proof fn lemma_last_fqn_pos(syms: Seq<Symbol>, f: Seq<char>)
    ensures
        -1 <= last_fqn_pos(syms, f) < syms.len(),
        last_fqn_pos(syms, f) >= 0 ==> syms[last_fqn_pos(syms, f)].fqn@ == f,
        forall|k: int|
            last_fqn_pos(syms, f) < k < syms.len() ==> #[trigger] syms[k].fqn@ != f,
    decreases syms.len(),
{
    if syms.len() > 0 && syms.last().fqn@ != f {
        lemma_last_fqn_pos(syms.drop_last(), f);
        assert forall|k: int| last_fqn_pos(syms, f) < k < syms.len() implies #[trigger] syms[k].fqn@
            != f by {
            if k < syms.len() - 1 {
                assert(syms.drop_last()[k] == syms[k]);
            }
        }
    }
}

/// A position with fqn `f` and nothing later with it is `last_fqn_pos`.
pub proof fn lemma_last_fqn_pos_char(syms: Seq<Symbol>, f: Seq<char>, p: int)
    requires
        -1 <= p < syms.len(),
        p >= 0 ==> syms[p].fqn@ == f,
        forall|k: int| p < k < syms.len() ==> #[trigger] syms[k].fqn@ != f,
    ensures
        last_fqn_pos(syms, f) == p,
{
    lemma_last_fqn_pos(syms, f);
    let q = last_fqn_pos(syms, f);
    if q < p {
        assert(syms[p].fqn@ != f);
    } else if q > p {
        assert(syms[q].fqn@ != f);
    }
}

pub proof fn lemma_last_id_pos(syms: Seq<Symbol>, id: u32)
    ensures
        -1 <= last_id_pos(syms, id) < syms.len(),
        last_id_pos(syms, id) >= 0 ==> syms[last_id_pos(syms, id)].local_id == id,
        forall|k: int| last_id_pos(syms, id) < k < syms.len() ==> #[trigger] syms[k].local_id != id,
    decreases syms.len(),
{
    if syms.len() > 0 && syms.last().local_id != id {
        lemma_last_id_pos(syms.drop_last(), id);
        assert forall|k: int| last_id_pos(syms, id) < k < syms.len() implies #[trigger] syms[k].local_id
            != id by {
            if k < syms.len() - 1 {
                assert(syms.drop_last()[k] == syms[k]);
            }
        }
    }
}

pub proof fn lemma_last_id_pos_unique(syms: Seq<Symbol>, p: int)
    requires
        ids_unique(syms),
        0 <= p < syms.len(),
    ensures
        last_id_pos(syms, syms[p].local_id) == p,
{
    lemma_last_id_pos(syms, syms[p].local_id);
}

// ---------------------------------------------------------------------------
// Hash of a text (FNV-1a over its UTF-8 bytes)
// ---------------------------------------------------------------------------

pub open spec fn fnv_step(h: u64, b: u8) -> u64 {
    (h ^ (b as u64)).wrapping_mul(0x100000001b3u64)
}

pub open spec fn fnv(bytes: Seq<u8>) -> u64
    decreases bytes.len(),
{
    if bytes.len() == 0 {
        0xcbf29ce484222325u64
    } else {
        fnv_step(fnv(bytes.drop_last()), bytes.last())
    }
}

pub open spec fn text_hash(s: Seq<char>) -> u64 {
    fnv(vstd::utf8::encode_utf8(s))
}

pub fn hash_text(s: &str) -> (r: u64)
    ensures
        r == text_hash(s@),
{
    let b = s.as_bytes();
    let mut h: u64 = 0xcbf29ce484222325u64;
    let mut i: usize = 0;
    while i < b.len()
        invariant
            b@ == s.spec_bytes(),
            i <= b@.len(),
            h == fnv(b@.take(i as int)),
        decreases b@.len() - i,
    {
        proof {
            assert(b@.take(i + 1).drop_last() =~= b@.take(i as int));
        }
        h = (h ^ (b[i] as u64)).wrapping_mul(0x100000001b3u64);
        i = i + 1;
    }
    proof {
        assert(b@.take(i as int) =~= b@);
    }
    h
}

// ---------------------------------------------------------------------------
// Text index: symbols found by fqn, or by the name of a type
// ---------------------------------------------------------------------------

/// Classes, structs and enums.
pub open spec fn is_type_kind(k: SymbolKind) -> bool {
    k == SymbolKind::Class || k == SymbolKind::Struct || k == SymbolKind::Enum
}

/// The text a symbol is found by: its fqn; or, in an index by name, the
/// name of a class, struct or enum (other symbols are left out).
pub open spec fn key_of(s: Symbol, by_name: bool) -> Option<Seq<char>> {
    if by_name {
        if is_type_kind(s.kind) {
            Some(s.name@)
        } else {
            None
        }
    } else {
        Some(s.fqn@)
    }
}

/// Position of the last symbol found by `f`, or -1.
pub open spec fn last_key_pos(syms: Seq<Symbol>, by_name: bool, f: Seq<char>) -> int
    decreases syms.len(),
{
    if syms.len() == 0 {
        -1
    } else if key_of(syms.last(), by_name) == Some(f) {
        syms.len() - 1
    } else {
        last_key_pos(syms.drop_last(), by_name, f)
    }
}

pub proof fn lemma_last_key_pos(syms: Seq<Symbol>, by_name: bool, f: Seq<char>)
    ensures
        -1 <= last_key_pos(syms, by_name, f) < syms.len(),
        last_key_pos(syms, by_name, f) >= 0 ==> key_of(
            syms[last_key_pos(syms, by_name, f)],
            by_name,
        ) == Some(f),
        forall|k: int|
            last_key_pos(syms, by_name, f) < k < syms.len() ==> key_of(#[trigger] syms[k], by_name)
                != Some(f),
    decreases syms.len(),
{
    if syms.len() > 0 && key_of(syms.last(), by_name) != Some(f) {
        lemma_last_key_pos(syms.drop_last(), by_name, f);
        assert forall|k: int| last_key_pos(syms, by_name, f) < k < syms.len() implies key_of(
            #[trigger] syms[k],
            by_name,
        ) != Some(f) by {
            if k < syms.len() - 1 {
                assert(syms.drop_last()[k] == syms[k]);
            }
        }
    }
}

pub proof fn lemma_last_key_pos_char(syms: Seq<Symbol>, by_name: bool, f: Seq<char>, p: int)
    requires
        -1 <= p < syms.len(),
        p >= 0 ==> key_of(syms[p], by_name) == Some(f),
        forall|k: int| p < k < syms.len() ==> key_of(#[trigger] syms[k], by_name) != Some(f),
    ensures
        last_key_pos(syms, by_name, f) == p,
{
    lemma_last_key_pos(syms, by_name, f);
    let q = last_key_pos(syms, by_name, f);
    if q < p {
        assert(key_of(syms[p], by_name) != Some(f));
    } else if q > p {
        assert(key_of(syms[q], by_name) != Some(f));
    }
}

/// Symbols with the same fqns are found at the same positions.
pub proof fn lemma_last_fqn_pos_same(a: Seq<Symbol>, b: Seq<Symbol>, f: Seq<char>)
    requires
        a.len() == b.len(),
        forall|p: int| 0 <= p < a.len() ==> (#[trigger] a[p]).fqn == b[p].fqn,
    ensures
        last_fqn_pos(a, f) == last_fqn_pos(b, f),
    decreases a.len(),
{
    if a.len() > 0 {
        assert(a.last().fqn == b.last().fqn);
        assert forall|p: int| 0 <= p < a.drop_last().len() implies (#[trigger] a.drop_last()[p]).fqn
            == b.drop_last()[p].fqn by {
            assert(a.drop_last()[p] == a[p]);
            assert(b.drop_last()[p] == b[p]);
        }
        lemma_last_fqn_pos_same(a.drop_last(), b.drop_last(), f);
    }
}

/// Found by fqn is `last_fqn_pos`.
pub proof fn lemma_key_pos_fqn(syms: Seq<Symbol>, f: Seq<char>)
    ensures
        last_key_pos(syms, false, f) == last_fqn_pos(syms, f),
    decreases syms.len(),
{
    if syms.len() > 0 {
        lemma_key_pos_fqn(syms.drop_last(), f);
    }
}

/// The hash of the key of the symbol, if it has one.
pub open spec fn key_hash(s: Symbol, by_name: bool) -> Option<u64> {
    match key_of(s, by_name) {
        Some(k) => Some(text_hash(k)),
        None => None,
    }
}

/// Positions of the symbols grouped by the hash of their key.
pub struct TextIndex {
    by_name: bool,
    slots: HashMap<u64, usize>,
    buckets: Vec<Vec<usize>>,
}

impl TextIndex {
    /// Whether symbols are found by type name rather than by fqn.
    pub closed spec fn keyed_by_name(&self) -> bool {
        self.by_name
    }

    /// Every position with a key sits in the bucket of its key's hash,
    /// each bucket holds increasing positions of that hash, and no two
    /// hashes share a bucket.
    #[verifier::opaque]
    pub closed spec fn wf(&self, syms: Seq<Symbol>) -> bool {
        &&& forall|h: u64| #[trigger]
            self.slots@.contains_key(h) ==> self.slots@[h] < self.buckets@.len()
        &&& forall|p: int|
            0 <= p < syms.len() && #[trigger] key_hash(syms[p], self.by_name) is Some ==> {
                let h = key_hash(syms[p], self.by_name)->0;
                self.slots@.contains_key(h) && self.buckets@[self.slots@[h] as int]@.contains(
                    p as usize,
                )
            }
        &&& forall|h: u64, k: int|
            #![trigger self.buckets@[self.slots@[h] as int]@[k]]
            self.slots@.contains_key(h) && 0 <= k < self.buckets@[self.slots@[h] as int]@.len()
                ==> {
                let q = self.buckets@[self.slots@[h] as int]@[k] as int;
                &&& 0 <= q < syms.len()
                &&& key_hash(syms[q], self.by_name) == Some(h)
            }
        &&& forall|h: u64, k1: int, k2: int|
            #![trigger self.buckets@[self.slots@[h] as int]@[k1], self.buckets@[self.slots@[h] as int]@[k2]]
            self.slots@.contains_key(h) && 0 <= k1 < k2 < self.buckets@[self.slots@[
                h
            ] as int]@.len() ==> self.buckets@[self.slots@[h] as int]@[k1]
                < self.buckets@[self.slots@[h] as int]@[k2]
        &&& forall|h1: u64, h2: u64|
            #[trigger] self.slots@.contains_key(h1) && #[trigger] self.slots@.contains_key(h2) && h1
                != h2 ==> self.slots@[h1] != self.slots@[h2]
    }

    /// An index of no symbols.
    pub fn new(by_name: bool) -> (r: TextIndex)
        ensures
            r.wf(Seq::empty()),
            r.keyed_by_name() == by_name,
    {
        let r = TextIndex { by_name, slots: HashMap::new(), buckets: Vec::new() };
        proof {
            reveal(TextIndex::wf);
        }
        r
    }

    /// Adds the symbol at position `p`, the first one not yet indexed.
    pub fn add(&mut self, syms: &Vec<Symbol>, p: usize)
        requires
            old(self).wf(syms@.take(p as int)),
            p < syms@.len(),
        ensures
            final(self).wf(syms@.take(p + 1)),
            final(self).keyed_by_name() == old(self).keyed_by_name(),
    {
        proof {
            reveal(TextIndex::wf);
        }
        let ghost old_slots = self.slots@;
        let ghost old_buckets = self.buckets@;
        let ghost pre = syms@.take(p as int);
        let ghost post = syms@.take(p + 1);
        let ghost bn = self.by_name;
        assert forall|q: int| 0 <= q < pre.len() implies #[trigger] pre[q] == post[q] by {}
        let key: Option<&str> = if self.by_name {
            let k = syms[p].kind;
            if k == SymbolKind::Class || k == SymbolKind::Struct || k == SymbolKind::Enum {
                Some(syms[p].name.as_str())
            } else {
                None
            }
        } else {
            Some(syms[p].fqn.as_str())
        };
        match key {
            None => {
                proof {
                    assert(key_hash(post[p as int], bn) is None);
                    assert forall|q: int|
                        0 <= q < post.len() && #[trigger] key_hash(post[q], bn) is Some implies {
                        let h = key_hash(post[q], bn)->0;
                        self.slots@.contains_key(h) && self.buckets@[self.slots@[
                            h
                        ] as int]@.contains(q as usize)
                    } by {
                        assert(q < p);
                        assert(key_hash(pre[q], bn) is Some);
                    }
                    assert forall|hh: u64, k: int|
                        #![trigger self.buckets@[self.slots@[hh] as int]@[k]]
                        self.slots@.contains_key(hh) && 0 <= k < self.buckets@[self.slots@[
                            hh
                        ] as int]@.len() implies {
                        let q = self.buckets@[self.slots@[hh] as int]@[k] as int;
                        &&& 0 <= q < post.len()
                        &&& key_hash(post[q], bn) == Some(hh)
                    } by {
                        let q = self.buckets@[self.slots@[hh] as int]@[k] as int;
                        assert(pre[q] == post[q]);
                    }
                }
            },
            Some(key) => {
                let h = hash_text(key);
                assert(key_hash(post[p as int], bn) == Some(h));
                match self.slots.get(&h) {
                    Some(s) => {
                        let s = *s;
                        let mut b = Vec::new();
                        std::mem::swap(&mut b, &mut self.buckets[s]);
                        b.push(p);
                        self.buckets.set(s, b);
                    },
                    None => {
                        let s = self.buckets.len();
                        let mut v: Vec<usize> = Vec::new();
                        v.push(p);
                        self.buckets.push(v);
                        self.slots.insert(h, s);
                    },
                }
                proof {
                    assert forall|q: int|
                        0 <= q < post.len() && #[trigger] key_hash(post[q], bn) is Some implies {
                        let hq = key_hash(post[q], bn)->0;
                        self.slots@.contains_key(hq) && self.buckets@[self.slots@[
                            hq
                        ] as int]@.contains(q as usize)
                    } by {
                        if q < p {
                            assert(pre[q] == post[q]);
                            let hq = key_hash(pre[q], bn)->0;
                            assert(old_slots.contains_key(hq));
                            let k = choose|k: int|
                                0 <= k < old_buckets[old_slots[hq] as int]@.len()
                                    && old_buckets[old_slots[hq] as int]@[k] == q as usize;
                            assert(self.buckets@[self.slots@[hq] as int]@[k] == q as usize);
                        } else {
                            let s = self.slots@[h] as int;
                            assert(self.buckets@[s]@.last() == p);
                        }
                    }
                    assert forall|hh: u64, k: int|
                        #![trigger self.buckets@[self.slots@[hh] as int]@[k]]
                        self.slots@.contains_key(hh) && 0 <= k < self.buckets@[self.slots@[
                            hh
                        ] as int]@.len() implies {
                        let q = self.buckets@[self.slots@[hh] as int]@[k] as int;
                        &&& 0 <= q < post.len()
                        &&& key_hash(post[q], bn) == Some(hh)
                    } by {
                        let q = self.buckets@[self.slots@[hh] as int]@[k] as int;
                        if hh == h && k == self.buckets@[self.slots@[hh] as int]@.len() - 1 {
                            assert(q == p);
                        } else {
                            assert(old_slots.contains_key(hh));
                            assert(self.buckets@[self.slots@[hh] as int]@[k] == old_buckets[old_slots[
                                hh
                            ] as int]@[k]);
                            assert(pre[q] == post[q]);
                        }
                    }
                    assert forall|hh: u64, k1: int, k2: int|
                        #![trigger self.buckets@[self.slots@[hh] as int]@[k1], self.buckets@[self.slots@[hh] as int]@[k2]]
                        self.slots@.contains_key(hh) && 0 <= k1 < k2 < self.buckets@[self.slots@[
                            hh
                        ] as int]@.len() implies self.buckets@[self.slots@[hh] as int]@[k1]
                        < self.buckets@[self.slots@[hh] as int]@[k2] by {
                        if hh == h && k2 == self.buckets@[self.slots@[hh] as int]@.len() - 1 {
                            if old_slots.contains_key(hh) {
                                let ob = old_buckets[old_slots[hh] as int]@;
                                assert(self.buckets@[self.slots@[hh] as int]@[k1] == ob[k1]);
                                assert(ob[k1] < pre.len());
                            }
                        } else {
                            assert(old_slots.contains_key(hh));
                            assert(self.buckets@[self.slots@[hh] as int]@[k1] == old_buckets[old_slots[
                                hh
                            ] as int]@[k1]);
                            assert(self.buckets@[self.slots@[hh] as int]@[k2] == old_buckets[old_slots[
                                hh
                            ] as int]@[k2]);
                        }
                    }
                }
            },
        }
    }

    /// An index of all the symbols.
    pub fn build(syms: &Vec<Symbol>, by_name: bool) -> (r: TextIndex)
        ensures
            r.wf(syms@),
            r.keyed_by_name() == by_name,
    {
        let mut idx = TextIndex::new(by_name);
        proof {
            assert(syms@.take(0) =~= Seq::<Symbol>::empty());
        }
        let mut p: usize = 0;
        while p < syms.len()
            invariant
                p <= syms@.len(),
                idx.wf(syms@.take(p as int)),
                idx.keyed_by_name() == by_name,
            decreases syms@.len() - p,
        {
            idx.add(syms, p);
            p = p + 1;
        }
        proof {
            assert(syms@.take(p as int) =~= syms@);
        }
        idx
    }

    /// The index stays good for symbols with the same keys.
    pub proof fn lemma_same_keys(&self, a: Seq<Symbol>, b: Seq<Symbol>)
        requires
            self.wf(a),
            a.len() == b.len(),
            forall|p: int|
                0 <= p < a.len() ==> key_of(#[trigger] a[p], self.keyed_by_name()) == key_of(
                    b[p],
                    self.keyed_by_name(),
                ),
        ensures
            self.wf(b),
    {
        reveal(TextIndex::wf);
        assert forall|p: int| 0 <= p < b.len() implies #[trigger] key_hash(b[p], self.by_name)
            == key_hash(a[p], self.by_name) by {
            assert(key_of(a[p], self.by_name) == key_of(b[p], self.by_name));
        }
    }

    proof fn lemma_bucket(&self, syms: Seq<Symbol>, h: u64)
        requires
            self.wf(syms),
            self.slots@.contains_key(h),
        ensures
            self.slots@[h] < self.buckets@.len(),
            forall|k: int|
                0 <= k < self.buckets@[self.slots@[h] as int]@.len() ==> {
                    let q = #[trigger] self.buckets@[self.slots@[h] as int]@[k] as int;
                    &&& 0 <= q < syms.len()
                    &&& key_hash(syms[q], self.by_name) == Some(h)
                },
            forall|k1: int, k2: int|
                0 <= k1 < k2 < self.buckets@[self.slots@[h] as int]@.len() ==> #[trigger] self.buckets@[self.slots@[
                    h
                ] as int]@[k1] < #[trigger] self.buckets@[self.slots@[h] as int]@[k2],
            forall|p: int|
                0 <= p < syms.len() && #[trigger] key_hash(syms[p], self.by_name) == Some(h)
                    ==> self.buckets@[self.slots@[h] as int]@.contains(p as usize),
    {
        reveal(TextIndex::wf);
    }

    proof fn lemma_absent(&self, syms: Seq<Symbol>, h: u64)
        requires
            self.wf(syms),
            !self.slots@.contains_key(h),
        ensures
            forall|p: int| 0 <= p < syms.len() ==> #[trigger] key_hash(syms[p], self.by_name) != Some(h),
    {
        reveal(TextIndex::wf);
    }

    /// Position of the last symbol found by `f`.
    pub fn lookup(&self, syms: &Vec<Symbol>, f: &str) -> (r: Option<usize>)
        requires
            self.wf(syms@),
        ensures
            r is None <==> last_key_pos(syms@, self.keyed_by_name(), f@) == -1,
            r matches Some(p) ==> p as int == last_key_pos(syms@, self.keyed_by_name(), f@),
    {
        proof {
            lemma_last_key_pos(syms@, self.by_name, f@);
        }
        let h = hash_text(f);
        let s = match self.slots.get(&h) {
            Some(s) => *s,
            None => {
                proof {
                    self.lemma_absent(syms@, h);
                    let q = last_key_pos(syms@, self.by_name, f@);
                    if q >= 0 {
                        assert(key_hash(syms@[q], self.by_name) == Some(h));
                    }
                }
                return None;
            },
        };
        proof {
            self.lemma_bucket(syms@, h);
            assert(bucket_ok(syms@, self.by_name, f@, self.buckets@[s as int]@));
        }
        let bucket = &self.buckets[s];
        let total = syms.len();
        let mut k = bucket.len();
        while k > 0
            invariant
                k <= bucket@.len(),
                total == syms@.len(),
                bucket_ok(syms@, self.by_name, f@, bucket@),
                forall|m: int|
                    k <= m < bucket@.len() ==> key_of(syms@[#[trigger] bucket@[m] as int], self.by_name)
                        != Some(f@),
            decreases k,
        {
            k = k - 1;
            let q = bucket[k];
            proof {
                assert(0 <= bucket@[k as int] < syms@.len());
            }
            let hit = if self.by_name {
                let kd = syms[q].kind;
                (kd == SymbolKind::Class || kd == SymbolKind::Struct || kd == SymbolKind::Enum)
                    && str_eq(syms[q].name.as_str(), f)
            } else {
                str_eq(syms[q].fqn.as_str(), f)
            };
            if hit {
                proof {
                    lemma_bucket_found(syms@, self.by_name, f@, bucket@, k as int);
                }
                return Some(q);
            }
        }
        proof {
            lemma_bucket_none(syms@, self.by_name, f@, bucket@);
        }
        None
    }
}

/// A bucket for the hash of `f`: valid increasing positions, holding every
/// position whose key has that hash.
pub open spec fn bucket_ok(syms: Seq<Symbol>, by_name: bool, f: Seq<char>, bucket: Seq<usize>) -> bool {
    &&& forall|kk: int| 0 <= kk < bucket.len() ==> 0 <= #[trigger] bucket[kk] < syms.len()
    &&& forall|k1: int, k2: int|
        0 <= k1 < k2 < bucket.len() ==> #[trigger] bucket[k1] < #[trigger] bucket[k2]
    &&& forall|p: int|
        0 <= p < syms.len() && #[trigger] key_hash(syms[p], by_name) == Some(text_hash(f))
            ==> bucket.contains(p as usize)
}

proof fn lemma_bucket_found(
    syms: Seq<Symbol>,
    by_name: bool,
    f: Seq<char>,
    bucket: Seq<usize>,
    k: int,
)
    requires
        bucket_ok(syms, by_name, f, bucket),
        syms.len() <= usize::MAX,
        0 <= k < bucket.len(),
        key_of(syms[bucket[k] as int], by_name) == Some(f),
        forall|m: int|
            k < m < bucket.len() ==> key_of(syms[#[trigger] bucket[m] as int], by_name) != Some(f),
    ensures
        last_key_pos(syms, by_name, f) == bucket[k] as int,
{
    let q = bucket[k] as int;
    assert forall|m: int| q < m < syms.len() implies key_of(#[trigger] syms[m], by_name) != Some(f) by {
        if key_of(syms[m], by_name) == Some(f) {
            assert(key_hash(syms[m], by_name) == Some(text_hash(f)));
            assert(bucket.contains(m as usize));
            let kk = choose|kk: int| 0 <= kk < bucket.len() && bucket[kk] == m as usize;
            if kk < k {
                assert(bucket[kk] < bucket[k]);
            } else if kk > k {
                assert(key_of(syms[bucket[kk] as int], by_name) != Some(f));
            }
        }
    }
    lemma_last_key_pos_char(syms, by_name, f, q);
}

proof fn lemma_bucket_none(syms: Seq<Symbol>, by_name: bool, f: Seq<char>, bucket: Seq<usize>)
    requires
        bucket_ok(syms, by_name, f, bucket),
        syms.len() <= usize::MAX,
        forall|m: int|
            0 <= m < bucket.len() ==> key_of(syms[#[trigger] bucket[m] as int], by_name) != Some(f),
    ensures
        last_key_pos(syms, by_name, f) == -1,
{
    lemma_last_key_pos(syms, by_name, f);
    let q = last_key_pos(syms, by_name, f);
    if q >= 0 {
        assert(key_hash(syms[q], by_name) == Some(text_hash(f)));
        assert(bucket.contains(q as usize));
        let kk = choose|kk: int| 0 <= kk < bucket.len() && bucket[kk] == q as usize;
        assert(key_of(syms[bucket[kk] as int], by_name) != Some(f));
    }
}

// ---------------------------------------------------------------------------
// Graph index
// ---------------------------------------------------------------------------

/// Whether no two of the symbols share a local id.
pub fn local_ids_unique(syms: &Vec<Symbol>) -> (r: bool)
    ensures
        r == ids_unique(syms@),
{
    let index = IdIndex::build(syms);
    let mut p: usize = 0;
    while p < syms.len()
        invariant
            index.wf(syms@),
            p <= syms@.len(),
            forall|q: int| 0 <= q < p ==> last_id_pos(syms@, (#[trigger] syms@[q]).local_id) == q,
        decreases syms@.len() - p,
    {
        match index.position(syms, syms[p].local_id) {
            Some(q) => {
                if q != p {
                    proof {
                        lemma_last_id_pos(syms@, syms@[p as int].local_id);
                        assert(syms@[q as int].local_id == syms@[p as int].local_id);
                    }
                    return false;
                }
            },
            None => {
                proof {
                    lemma_last_id_pos(syms@, syms@[p as int].local_id);
                }
                return false;
            },
        }
        p = p + 1;
    }
    proof {
        assert forall|i: int, j: int|
            0 <= i < syms@.len() && 0 <= j < syms@.len() && i != j implies syms@[i].local_id
            != syms@[j].local_id by {
            assert(last_id_pos(syms@, syms@[i].local_id) == i);
            assert(last_id_pos(syms@, syms@[j].local_id) == j);
        }
    }
    true
}

/// Positions of symbols by local id.
pub struct IdIndex {
    pos: HashMap<u32, usize>,
}

impl IdIndex {
    pub closed spec fn wf(&self, syms: Seq<Symbol>) -> bool {
        &&& forall|id: u32| #[trigger] self.pos@.contains_key(id) == (last_id_pos(syms, id) >= 0)
        &&& forall|id: u32| #[trigger]
            self.pos@.contains_key(id) ==> self.pos@[id] as int == last_id_pos(syms, id)
    }

    pub fn build(syms: &Vec<Symbol>) -> (r: IdIndex)
        ensures
            r.wf(syms@),
    {
        let n = syms.len();
        let mut pos: HashMap<u32, usize> = HashMap::new();
        let mut p: usize = 0;
        while p < n
            invariant
                n == syms@.len(),
                p <= n,
                forall|id: u32| #[trigger]
                    pos@.contains_key(id) == (last_id_pos(syms@.take(p as int), id) >= 0),
                forall|id: u32| #[trigger]
                    pos@.contains_key(id) ==> pos@[id] as int == last_id_pos(
                        syms@.take(p as int),
                        id,
                    ),
            decreases n - p,
        {
            proof {
                assert(syms@.take(p + 1).drop_last() =~= syms@.take(p as int));
            }
            pos.insert(syms[p].local_id, p);
            p = p + 1;
        }
        proof {
            assert(syms@.take(n as int) =~= syms@);
        }
        IdIndex { pos }
    }

    /// Position of the last symbol with local id `id`.
    pub fn position(&self, syms: &Vec<Symbol>, id: u32) -> (r: Option<usize>)
        requires
            self.wf(syms@),
        ensures
            r is None <==> last_id_pos(syms@, id) == -1,
            r matches Some(p) ==> p as int == last_id_pos(syms@, id) && p < syms@.len(),
    {
        proof {
            lemma_last_id_pos(syms@, id);
        }
        match self.pos.get(&id) {
            Some(p) => Some(*p),
            None => None,
        }
    }
}

/// Per-graph lookups used by the diff engine.
pub struct GraphIndex {
    pub fqns: TextIndex,
    pos: HashMap<u32, usize>,
    /// By symbol position: its `Contains` children.
    children: Vec<Vec<u32>>,
    /// By symbol position: its `Inherits` parent.
    parent: Vec<Option<u32>>,
}

impl GraphIndex {
    pub closed spec fn wf(&self, g: SymbolGraph) -> bool {
        &&& self.fqns.wf(g.symbols@)
        &&& !self.fqns.keyed_by_name()
        &&& forall|id: u32| #[trigger]
            self.pos@.contains_key(id) == (last_id_pos(g.symbols@, id) >= 0)
        &&& forall|id: u32| #[trigger]
            self.pos@.contains_key(id) ==> self.pos@[id] as int == last_id_pos(g.symbols@, id)
        &&& self.children@.len() == g.symbols@.len()
        &&& self.parent@.len() == g.symbols@.len()
        &&& forall|p: int|
            0 <= p < g.symbols@.len() ==> #[trigger] self.children@[p]@ == children_of(
                g.relations@,
                g.symbols@[p].local_id,
            )
        &&& forall|p: int|
            0 <= p < g.symbols@.len() ==> #[trigger] self.parent@[p] == parent_of(
                g.relations@,
                g.symbols@[p].local_id,
            )
    }

    pub fn build(g: &SymbolGraph) -> (r: GraphIndex)
        requires
            ids_unique(g.symbols@),
        ensures
            r.wf(*g),
    {
        let fqns = TextIndex::build(&g.symbols, false);
        let n = g.symbols.len();
        let mut pos: HashMap<u32, usize> = HashMap::new();
        let mut children: Vec<Vec<u32>> = Vec::new();
        let mut parent: Vec<Option<u32>> = Vec::new();
        let mut p: usize = 0;
        while p < n
            invariant
                n == g.symbols@.len(),
                p <= n,
                children@.len() == p,
                parent@.len() == p,
                forall|q: int| 0 <= q < p ==> (#[trigger] children@[q])@.len() == 0,
                forall|q: int| 0 <= q < p ==> (#[trigger] parent@[q]) is None,
                forall|id: u32| #[trigger]
                    pos@.contains_key(id) == (last_id_pos(g.symbols@.take(p as int), id) >= 0),
                forall|id: u32| #[trigger]
                    pos@.contains_key(id) ==> pos@[id] as int == last_id_pos(
                        g.symbols@.take(p as int),
                        id,
                    ),
            decreases n - p,
        {
            proof {
                assert(g.symbols@.take(p + 1).drop_last() =~= g.symbols@.take(p as int));
            }
            pos.insert(g.symbols[p].local_id, p);
            children.push(Vec::new());
            parent.push(None);
            p = p + 1;
        }
        proof {
            assert(g.symbols@.take(n as int) =~= g.symbols@);
        }
        let m = g.relations.len();
        let mut k: usize = 0;
        while k < m
            invariant
                n == g.symbols@.len(),
                m == g.relations@.len(),
                ids_unique(g.symbols@),
                k <= m,
                children@.len() == n,
                parent@.len() == n,
                forall|id: u32| #[trigger]
                    pos@.contains_key(id) == (last_id_pos(g.symbols@, id) >= 0),
                forall|id: u32| #[trigger]
                    pos@.contains_key(id) ==> pos@[id] as int == last_id_pos(g.symbols@, id),
                forall|q: int|
                    0 <= q < n ==> #[trigger] children@[q]@ == children_of(
                        g.relations@.take(k as int),
                        g.symbols@[q].local_id,
                    ),
                forall|q: int|
                    0 <= q < n ==> #[trigger] parent@[q] == parent_of(
                        g.relations@.take(k as int),
                        g.symbols@[q].local_id,
                    ),
            decreases m - k,
        {
            let r = g.relations[k];
            let ghost pre = g.relations@.take(k as int);
            let ghost post = g.relations@.take(k + 1);
            proof {
                assert(post.drop_last() =~= pre);
                assert(post.last() == r);
            }
            match pos.get(&r.from) {
                Some(q) => {
                    let q = *q;
                    proof {
                        lemma_last_id_pos(g.symbols@, r.from);
                    }
                    if r.kind == RelationKind::Contains {
                        children[q].push(r.to);
                    } else if r.kind == RelationKind::Inherits {
                        parent.set(q, Some(r.to));
                    }
                    proof {
                        assert forall|qq: int| 0 <= qq < n implies #[trigger] children@[qq]@
                            == children_of(post, g.symbols@[qq].local_id) by {
                            if qq != q {
                                assert(g.symbols@[qq].local_id != r.from);
                            }
                        }
                        assert forall|qq: int| 0 <= qq < n implies #[trigger] parent@[qq]
                            == parent_of(post, g.symbols@[qq].local_id) by {
                            if qq != q {
                                assert(g.symbols@[qq].local_id != r.from);
                            }
                        }
                    }
                },
                None => {
                    proof {
                        assert forall|qq: int| 0 <= qq < n implies #[trigger] children@[qq]@
                            == children_of(post, g.symbols@[qq].local_id) by {
                            lemma_last_id_pos_unique(g.symbols@, qq);
                        }
                        assert forall|qq: int| 0 <= qq < n implies #[trigger] parent@[qq]
                            == parent_of(post, g.symbols@[qq].local_id) by {
                            lemma_last_id_pos_unique(g.symbols@, qq);
                        }
                    }
                },
            }
            k = k + 1;
        }
        proof {
            assert(g.relations@.take(m as int) =~= g.relations@);
        }
        GraphIndex { fqns, pos, children, parent }
    }

    /// Position of the last symbol whose fqn is `f`.
    pub fn by_fqn(&self, g: &SymbolGraph, f: &str) -> (r: Option<usize>)
        requires
            self.wf(*g),
        ensures
            r is None <==> last_fqn_pos(g.symbols@, f@) == -1,
            r matches Some(p) ==> p as int == last_fqn_pos(g.symbols@, f@),
            r matches Some(p) ==> p < g.symbols@.len() && g.symbols@[p as int].fqn@ == f@,
    {
        proof {
            lemma_last_fqn_pos(g.symbols@, f@);
            lemma_key_pos_fqn(g.symbols@, f@);
        }
        self.fqns.lookup(&g.symbols, f)
    }

    /// Position of the symbol with local id `id`.
    pub fn position(&self, g: &SymbolGraph, id: u32) -> (r: Option<usize>)
        requires
            self.wf(*g),
        ensures
            r is None <==> last_id_pos(g.symbols@, id) == -1,
            r matches Some(p) ==> p as int == last_id_pos(g.symbols@, id),
            r matches Some(p) ==> p < g.symbols@.len() && g.symbols@[p as int].local_id == id,
    {
        proof {
            lemma_last_id_pos(g.symbols@, id);
        }
        match self.pos.get(&id) {
            Some(p) => Some(*p),
            None => None,
        }
    }

    /// The `Contains` children of the symbol at position `p`.
    pub fn children_at(&self, g: &SymbolGraph, p: usize) -> (r: &Vec<u32>)
        requires
            self.wf(*g),
            p < g.symbols@.len(),
        ensures
            r@ == children_of(g.relations@, g.symbols@[p as int].local_id),
    {
        &self.children[p]
    }

    /// The `Inherits` parent of the symbol at position `p`.
    pub fn parent_at(&self, g: &SymbolGraph, p: usize) -> (r: Option<u32>)
        requires
            self.wf(*g),
            p < g.symbols@.len(),
        ensures
            r == parent_of(g.relations@, g.symbols@[p as int].local_id),
    {
        self.parent[p]
    }
}

} // verus!
