//! The graph under construction while the files of a dump are parsed,
//! and the resolution of type names to symbols once they are.
use vstd::prelude::*;
use crate::index::{
    key_of, last_fqn_pos, last_key_pos, lemma_key_pos_fqn, lemma_last_fqn_pos,
    lemma_last_key_pos, TextIndex,
};
use crate::model::{Relation, RelationKind, Symbol, SymbolKind, TypeModifiers, TypeRef};

verus! {

/// Every symbol's local id is its position, every relation joins two
/// symbols of the graph, and every top-level `Local` type reference
/// names one.
pub open spec fn graph_ok(syms: Seq<Symbol>, rels: Seq<Relation>) -> bool {
    &&& syms.len() <= u32::MAX
    &&& forall|p: int| 0 <= p < syms.len() ==> (#[trigger] syms[p]).local_id == p
    &&& forall|k: int|
        0 <= k < rels.len() ==> (#[trigger] rels[k]).from < syms.len() && rels[k].to < syms.len()
    &&& forall|p: int|
        0 <= p < syms.len() ==> ((#[trigger] syms[p]).type_ref matches Some(
            TypeRef::Local { local_id, .. },
        ) ==> local_id < syms.len())
}

/// Accumulates the symbols and relations of all parsed files.
pub struct GraphBuilder {
    pub symbols: Vec<Symbol>,
    pub relations: Vec<Relation>,
    /// The next local id to hand out.
    pub next_id: u32,
    /// Symbols by fqn, to resolve type names and parents.
    pub fqn_index: TextIndex,
    /// Positions of the symbols whose type reference still awaits
    /// resolution, in increasing order.
    pub pending_type_resolutions: Vec<usize>,
}

impl GraphBuilder {
    /// The builder's invariant with `allocated` ids handed out but not yet
    /// used by a symbol.
    pub open spec fn wf_with(&self, allocated: nat) -> bool {
        &&& graph_ok(self.symbols@, self.relations@)
        &&& self.next_id == self.symbols@.len() + allocated
        &&& self.fqn_index.wf(self.symbols@)
        &&& !self.fqn_index.keyed_by_name()
        &&& forall|k: int|
            0 <= k < self.pending_type_resolutions@.len() ==> #[trigger] self.pending_type_resolutions@[k]
                < self.symbols@.len()
        &&& forall|k1: int, k2: int|
            0 <= k1 < k2 < self.pending_type_resolutions@.len()
                ==> #[trigger] self.pending_type_resolutions@[k1]
                < #[trigger] self.pending_type_resolutions@[k2]
    }

    pub open spec fn wf(&self) -> bool {
        self.wf_with(0)
    }

    /// `self` holds what `older` held, in place, and perhaps more.
    pub open spec fn extends(&self, older: &GraphBuilder) -> bool {
        &&& older.symbols@.len() <= self.symbols@.len()
        &&& forall|p: int| 0 <= p < older.symbols@.len() ==> #[trigger] self.symbols@[p] == older.symbols@[p]
        &&& older.relations@.len() <= self.relations@.len()
        &&& forall|k: int|
            0 <= k < older.relations@.len() ==> #[trigger] self.relations@[k] == older.relations@[k]
    }

    /// An empty builder.
    pub fn new() -> (r: GraphBuilder)
        ensures
            r.wf(),
            r.symbols@.len() == 0,
            r.relations@.len() == 0,
            r.pending_type_resolutions@.len() == 0,
    {
        GraphBuilder {
            symbols: Vec::new(),
            relations: Vec::new(),
            next_id: 0,
            fqn_index: TextIndex::new(false),
            pending_type_resolutions: Vec::new(),
        }
    }

    /// Hands out the next local id, which the next pushed symbol must carry.
    pub fn alloc_id(&mut self) -> (r: u32)
        requires
            old(self).wf(),
            old(self).symbols@.len() < u32::MAX,
        ensures
            final(self).wf_with(1),
            r == old(self).symbols@.len(),
            final(self).symbols == old(self).symbols,
            final(self).relations == old(self).relations,
            final(self).pending_type_resolutions == old(self).pending_type_resolutions,
    {
        let id = self.next_id;
        self.next_id = self.next_id + 1;
        id
    }

    /// Appends a symbol carrying the id just handed out; returns that id.
    pub fn push_symbol(&mut self, sym: Symbol) -> (r: u32)
        requires
            old(self).wf_with(1),
            sym.local_id == old(self).symbols@.len(),
            !(sym.type_ref matches Some(TypeRef::Local { .. })),
        ensures
            final(self).wf(),
            r == sym.local_id,
            final(self).symbols@ == old(self).symbols@.push(sym),
            final(self).relations == old(self).relations,
            final(self).pending_type_resolutions@ == if sym.type_ref is Some {
                old(self).pending_type_resolutions@.push(old(self).symbols@.len() as usize)
            } else {
                old(self).pending_type_resolutions@
            },
    {
        let id = sym.local_id;
        let n = self.symbols.len();
        let has_type = sym.type_ref.is_some();
        self.symbols.push(sym);
        proof {
            assert(self.symbols@.take(n as int) =~= old(self).symbols@);
        }
        self.fqn_index.add(&self.symbols, n);
        proof {
            assert(self.symbols@.take(n + 1) =~= self.symbols@);
        }
        if has_type {
            self.pending_type_resolutions.push(n);
        }
        proof {
            let s = self.symbols@;
            assert forall|p: int| 0 <= p < s.len() implies (#[trigger] s[p]).local_id == p by {
                if p < n {
                    assert(s[p] == old(self).symbols@[p]);
                }
            }
            assert forall|p: int| 0 <= p < s.len() implies ((#[trigger] s[p]).type_ref matches Some(
                TypeRef::Local { local_id, .. },
            ) ==> local_id < s.len()) by {
                if p < n {
                    assert(s[p] == old(self).symbols@[p]);
                }
            }
        }
        id
    }

    /// Appends the relation `from -kind-> to` between two symbols.
    pub fn add_relation(&mut self, from: u32, to: u32, kind: RelationKind)
        requires
            old(self).wf(),
            from < old(self).symbols@.len(),
            to < old(self).symbols@.len(),
        ensures
            final(self).wf(),
            final(self).symbols == old(self).symbols,
            final(self).relations@ == old(self).relations@.push(Relation { from, to, kind }),
            final(self).pending_type_resolutions == old(self).pending_type_resolutions,
    {
        self.relations.push(Relation { from, to, kind });
    }

    /// Position (and local id) of the last symbol whose fqn is `f`.
    pub fn lookup_fqn(&self, f: &str) -> (r: Option<u32>)
        requires
            self.fqn_index.wf(self.symbols@),
            !self.fqn_index.keyed_by_name(),
            self.symbols@.len() <= u32::MAX,
        ensures
            r is None <==> last_fqn_pos(self.symbols@, f@) < 0,
            r matches Some(p) ==> p as int == last_fqn_pos(self.symbols@, f@) && p
                < self.symbols@.len(),
    {
        proof {
            lemma_key_pos_fqn(self.symbols@, f@);
            lemma_last_fqn_pos(self.symbols@, f@);
        }
        match self.fqn_index.lookup(&self.symbols, f) {
            Some(p) => Some(p as u32),
            None => None,
        }
    }
}

// ---------------------------------------------------------------------------
// Resolution of type references
// ---------------------------------------------------------------------------

/// The modifiers agree apart from the template arguments, of which both
/// have as many.
pub open spec fn same_modifiers(a: TypeModifiers, b: TypeModifiers) -> bool {
    &&& a.pointer_depth == b.pointer_depth
    &&& a.is_reference == b.is_reference
    &&& a.is_const == b.is_const
    &&& a.array_dim == b.array_dim
    &&& a.template_args@.len() == b.template_args@.len()
}

/// `r` is `t` with every unresolved name that is the fqn of a symbol of
/// `syms` replaced by a reference to the last such symbol; failing that,
/// one that is the name of a class, struct or enum of `syms` by a
/// reference to the last of those; at the top and in every template
/// argument.
pub open spec fn resolved_as(t: TypeRef, r: TypeRef, syms: Seq<Symbol>) -> bool
    decreases t, 1int,
{
    &&& same_modifiers(t.spec_modifiers(), r.spec_modifiers())
    &&& forall|i: int|
        0 <= i < t.spec_modifiers().template_args@.len() ==> #[trigger] resolved_arg(t, r, syms, i)
    &&& match t {
        TypeRef::Unresolved { name, .. } => {
            let p = last_fqn_pos(syms, name@);
            let q = last_key_pos(syms, true, name@);
            if p >= 0 {
                r matches TypeRef::Local { local_id, .. } && local_id == p
            } else if q >= 0 {
                r matches TypeRef::Local { local_id, .. } && local_id == q
            } else {
                r matches TypeRef::Unresolved { name: n2, .. } && n2 == name
            }
        },
        TypeRef::Local { local_id, .. } => r matches TypeRef::Local { local_id: l2, .. } && l2
            == local_id,
        TypeRef::Builtin { name, .. } => r matches TypeRef::Builtin { name: n2, .. } && n2 == name,
    }
}

pub open spec fn resolved_arg(t: TypeRef, r: TypeRef, syms: Seq<Symbol>, i: int) -> bool
    decreases t, 0int,
{
    let a = t.spec_modifiers().template_args@;
    let b = r.spec_modifiers().template_args@;
    if 0 <= i < a.len() {
        resolved_as(a[i], b[i], syms)
    } else {
        true
    }
}

fn resolve_type_ref(t: &TypeRef, b: &GraphBuilder, names: &TextIndex) -> (r: TypeRef)
    requires
        b.fqn_index.wf(b.symbols@),
        !b.fqn_index.keyed_by_name(),
        names.wf(b.symbols@),
        names.keyed_by_name(),
        b.symbols@.len() <= u32::MAX,
    ensures
        resolved_as(*t, r, b.symbols@),
        r matches TypeRef::Local { local_id, .. } ==> local_id < b.symbols@.len() || t matches TypeRef::Local { .. },
    decreases t,
{
    let m = t.modifiers();
    let mut args: Vec<TypeRef> = Vec::new();
    let mut i: usize = 0;
    while i < m.template_args.len()
        invariant
            b.fqn_index.wf(b.symbols@),
            !b.fqn_index.keyed_by_name(),
            names.wf(b.symbols@),
            names.keyed_by_name(),
            b.symbols@.len() <= u32::MAX,
            *m == t.spec_modifiers(),
            i <= m.template_args@.len(),
            args@.len() == i,
            forall|k: int|
                0 <= k < i ==> resolved_as(m.template_args@[k], #[trigger] args@[k], b.symbols@),
        decreases m.template_args@.len() - i,
    {
        proof {
            assert(decreases_to!(*t => t.spec_modifiers().template_args@[i as int]));
        }
        let a = resolve_type_ref(&m.template_args[i], b, names);
        args.push(a);
        i = i + 1;
    }
    let mods = TypeModifiers {
        pointer_depth: m.pointer_depth,
        is_reference: m.is_reference,
        is_const: m.is_const,
        array_dim: m.array_dim,
        template_args: args,
    };
    let r = match t {
        TypeRef::Unresolved { name, .. } => match b.lookup_fqn(name.as_str()) {
            Some(id) => TypeRef::Local { local_id: id, modifiers: mods },
            None => match names.lookup(&b.symbols, name.as_str()) {
                Some(q) => {
                    proof {
                        lemma_last_key_pos(b.symbols@, true, name@);
                    }
                    TypeRef::Local { local_id: q as u32, modifiers: mods }
                },
                None => TypeRef::Unresolved { name: name.clone(), modifiers: mods },
            },
        },
        TypeRef::Local { local_id, .. } => TypeRef::Local { local_id: *local_id, modifiers: mods },
        TypeRef::Builtin { name, .. } => TypeRef::Builtin { name: name.clone(), modifiers: mods },
    };
    proof {
        assert forall|k: int| 0 <= k < t.spec_modifiers().template_args@.len() implies #[trigger] resolved_arg(
            *t,
            r,
            b.symbols@,
            k,
        ) by {
            assert(r.spec_modifiers().template_args@[k] == args@[k]);
        }
    }
    r
}

/// `OfType` relations of the first `k` symbols: to the symbol a `Local`
/// type names, or to the last class, struct or enum whose name is an
/// unresolved type's name.
pub open spec fn of_type_upto(syms: Seq<Symbol>, k: nat) -> Seq<Relation>
    decreases k,
{
    if k == 0 {
        Seq::empty()
    } else {
        let prev = of_type_upto(syms, (k - 1) as nat);
        let s = syms[k - 1];
        match s.type_ref {
            Some(TypeRef::Local { local_id, .. }) => prev.push(
                Relation { from: s.local_id, to: local_id, kind: RelationKind::OfType },
            ),
            Some(TypeRef::Unresolved { name, .. }) => {
                let q = last_key_pos(syms, true, name@);
                if q >= 0 {
                    prev.push(
                        Relation { from: s.local_id, to: syms[q].local_id, kind: RelationKind::OfType },
                    )
                } else {
                    prev
                }
            },
            _ => prev,
        }
    }
}

/// The symbols after resolving the type references of the positions in
/// `pending` (increasing) against `syms`.
pub open spec fn resolution_of(syms: Seq<Symbol>, pending: Seq<usize>, out: Seq<Symbol>) -> bool {
    &&& out.len() == syms.len()
    &&& forall|p: int|
        0 <= p < syms.len() ==> {
            let s = #[trigger] syms[p];
            let o = out[p];
            &&& o.local_id == s.local_id
            &&& o.fqn == s.fqn
            &&& o.name == s.name
            &&& o.kind == s.kind
            &&& o.module == s.module
            &&& o.size == s.size
            &&& o.align == s.align
            &&& o.offset == s.offset
            &&& o.vtable_slot == s.vtable_slot
            &&& o.flags == s.flags
            &&& o.source_loc == s.source_loc
            &&& if pending.contains(p as usize) && s.type_ref is Some {
                o.type_ref matches Some(r) && resolved_as(s.type_ref->0, r, syms)
            } else {
                o.type_ref == s.type_ref
            }
        }
}

impl GraphBuilder {
    /// Resolves the pending type references (an unresolved name that is
    /// the fqn of a symbol, or else the name of a class, struct or enum,
    /// becomes a reference to it), then appends an
    /// `OfType` relation for every symbol whose type names a symbol.
    pub fn resolve_references(&mut self)
        requires
            old(self).wf(),
        ensures
            final(self).wf(),
            resolution_of(
                old(self).symbols@,
                old(self).pending_type_resolutions@,
                final(self).symbols@,
            ),
            final(self).relations@ == old(self).relations@ + of_type_upto(
                final(self).symbols@,
                final(self).symbols@.len(),
            ),
            final(self).pending_type_resolutions@.len() == 0,
    {
        let ghost syms0 = self.symbols@;
        let ghost pend = self.pending_type_resolutions@;
        let n = self.symbols.len();
        let names = TextIndex::build(&self.symbols, true);
        let mut resolved: Vec<Option<TypeRef>> = Vec::new();
        let mut k: usize = 0;
        while k < self.pending_type_resolutions.len()
            invariant
                self.wf(),
                self.symbols@ == syms0,
                self.pending_type_resolutions@ == pend,
                n == syms0.len(),
                names.wf(syms0),
                names.keyed_by_name(),
                k <= pend.len(),
                resolved@.len() == k,
                forall|j: int|
                    0 <= j < k ==> match syms0[#[trigger] pend[j] as int].type_ref {
                        Some(t) => resolved@[j] matches Some(r) && resolved_as(t, r, syms0),
                        None => resolved@[j] is None,
                    },
                forall|j: int|
                    0 <= j < k ==> ((#[trigger] resolved@[j]) matches Some(
                        TypeRef::Local { local_id, .. },
                    ) ==> local_id < n),
            decreases pend.len() - k,
        {
            let p = self.pending_type_resolutions[k];
            let r = match &self.symbols[p].type_ref {
                Some(t) => Some(resolve_type_ref(t, self, &names)),
                None => None,
            };
            resolved.push(r);
            proof {
                assert(resolved@[k as int] == r);
            }
            k = k + 1;
        }
        let mut pending: Vec<usize> = Vec::new();
        std::mem::swap(&mut pending, &mut self.pending_type_resolutions);
        let ghost r0 = resolved@;
        let mut j = pending.len();
        proof {
            assert(pend.subrange(j as int, pend.len() as int) =~= Seq::<usize>::empty());
        }
        while j > 0
            invariant
                pending@ == pend,
                j <= pend.len(),
                resolved@ == r0.take(j as int),
                r0.len() == pend.len(),
                n == syms0.len(),
                self.symbols@.len() == syms0.len(),
                forall|i: int| 0 <= i < pend.len() ==> #[trigger] pend[i] < syms0.len(),
                forall|i1: int, i2: int|
                    0 <= i1 < i2 < pend.len() ==> #[trigger] pend[i1] < #[trigger] pend[i2],
                forall|i: int|
                    0 <= i < pend.len() ==> match syms0[#[trigger] pend[i] as int].type_ref {
                        Some(t) => r0[i] matches Some(r) && resolved_as(t, r, syms0),
                        None => r0[i] is None,
                    },
                forall|i: int|
                    0 <= i < pend.len() ==> ((#[trigger] r0[i]) matches Some(
                        TypeRef::Local { local_id, .. },
                    ) ==> local_id < n),
                graph_ok(syms0, old(self).relations@),
                names.wf(syms0),
                names.keyed_by_name(),
                self.fqn_index == old(self).fqn_index,
                self.fqn_index.wf(syms0),
                !self.fqn_index.keyed_by_name(),
                self.next_id == n,
                self.relations == old(self).relations,
                self.pending_type_resolutions@.len() == 0,
                resolution_of(syms0, pend.subrange(j as int, pend.len() as int), self.symbols@),
                forall|q: int|
                    0 <= q < self.symbols@.len() ==> ((#[trigger] self.symbols@[q]).type_ref matches Some(
                        TypeRef::Local { local_id, .. },
                    ) ==> local_id < n),
            decreases j,
        {
            j = j - 1;
            let p = pending[j];
            let r = resolved.pop().unwrap();
            proof {
                assert(r == r0[j as int]);
            }
            self.symbols[p].type_ref = r;
            proof {
                let pre = pend.subrange(j + 1, pend.len() as int);
                let post = pend.subrange(j as int, pend.len() as int);
                assert forall|q: usize| #[trigger] post.contains(q) <==> (q == p || pre.contains(q)) by {
                    if post.contains(q) {
                        let w = choose|w: int| 0 <= w < post.len() && post[w] == q;
                        if w > 0 {
                            assert(pre[w - 1] == post[w]);
                        }
                    }
                    if pre.contains(q) {
                        let w = choose|w: int| 0 <= w < pre.len() && pre[w] == q;
                        assert(post[w + 1] == pre[w]);
                    }
                    assert(post[0] == p);
                }
            }
        }
        proof {
            assert(pend.subrange(0, pend.len() as int) =~= pend);
            let s1 = self.symbols@;
            assert forall|q: int| 0 <= q < syms0.len() implies key_of(#[trigger] syms0[q], false)
                == key_of(s1[q], false) by {}
            self.fqn_index.lemma_same_keys(syms0, s1);
            assert forall|q: int| 0 <= q < syms0.len() implies key_of(#[trigger] syms0[q], true)
                == key_of(s1[q], true) by {}
            names.lemma_same_keys(syms0, s1);
            assert forall|q: int| 0 <= q < s1.len() implies (#[trigger] s1[q]).local_id == q by {
                assert(s1[q].local_id == syms0[q].local_id);
            }
        }
        let ghost rels0 = self.relations@;
        let ghost s1 = self.symbols@;
        let mut p: usize = 0;
        proof {
            assert(rels0 + of_type_upto(s1, 0) =~= rels0);
        }
        while p < self.symbols.len()
            invariant
                self.symbols@ == s1,
                s1.len() == n,
                n <= u32::MAX,
                self.fqn_index.wf(s1),
                !self.fqn_index.keyed_by_name(),
                self.next_id == n,
                self.pending_type_resolutions@.len() == 0,
                names.wf(s1),
                names.keyed_by_name(),
                p <= n,
                forall|q: int| 0 <= q < s1.len() ==> (#[trigger] s1[q]).local_id == q,
                forall|q: int|
                    0 <= q < s1.len() ==> ((#[trigger] s1[q]).type_ref matches Some(
                        TypeRef::Local { local_id, .. },
                    ) ==> local_id < n),
                forall|i: int|
                    0 <= i < rels0.len() ==> (#[trigger] rels0[i]).from < n && rels0[i].to < n,
                self.relations@ == rels0 + of_type_upto(s1, p as nat),
            decreases n - p,
        {
            let from = self.symbols[p].local_id;
            let ghost before = self.relations@;
            match &self.symbols[p].type_ref {
                Some(TypeRef::Local { local_id, .. }) => {
                    self.relations.push(
                        Relation { from, to: *local_id, kind: RelationKind::OfType },
                    );
                },
                Some(TypeRef::Unresolved { name, .. }) => {
                    match names.lookup(&self.symbols, name.as_str()) {
                        Some(q) => {
                            proof {
                                lemma_last_key_pos(s1, true, name@);
                            }
                            let to = self.symbols[q].local_id;
                            self.relations.push(
                                Relation { from, to, kind: RelationKind::OfType },
                            );
                        },
                        None => {},
                    }
                },
                _ => {},
            }
            proof {
                assert(self.relations@ =~= rels0 + of_type_upto(s1, (p + 1) as nat));
            }
            p = p + 1;
        }
        proof {
            let rels = self.relations@;
            lemma_of_type_bounds(s1, n as nat);
            assert forall|i: int| 0 <= i < rels.len() implies (#[trigger] rels[i]).from < n
                && rels[i].to < n by {
                if i >= rels0.len() {
                    assert(rels[i] == of_type_upto(s1, n as nat)[i - rels0.len()]);
                }
            }
        }
    }
}

proof fn lemma_of_type_bounds(syms: Seq<Symbol>, k: nat)
    requires
        k <= syms.len(),
        forall|q: int| 0 <= q < syms.len() ==> (#[trigger] syms[q]).local_id == q,
        forall|q: int|
            0 <= q < syms.len() ==> ((#[trigger] syms[q]).type_ref matches Some(
                TypeRef::Local { local_id, .. },
            ) ==> local_id < syms.len()),
    ensures
        forall|i: int|
            0 <= i < of_type_upto(syms, k).len() ==> (#[trigger] of_type_upto(syms, k)[i]).from
                < syms.len() && of_type_upto(syms, k)[i].to < syms.len(),
    decreases k,
{
    if k > 0 {
        lemma_of_type_bounds(syms, (k - 1) as nat);
        let s = syms[k - 1];
        match s.type_ref {
            Some(TypeRef::Unresolved { name, .. }) => {
                lemma_last_key_pos(syms, true, name@);
            },
            _ => {},
        }
    }
}

} // verus!
