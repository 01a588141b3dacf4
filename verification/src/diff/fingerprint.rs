//! Structural fingerprints of classes and structs, and the similarity
//! score between two fingerprints used for rename detection.
use vstd::prelude::*;
use crate::diff::types::{DiffConfig, JACCARD_ONE, SAME_PARENT_BONUS};
use crate::index::{children_of, last_id_pos, lemma_last_id_pos, parent_of, GraphIndex};
use crate::model::{Symbol, SymbolGraph, SymbolKind, TypeRef};
use crate::text::{concat, decimal, starts_with, text_starts_with, u32_decimal};

verus! {

pub open spec fn texts(v: Seq<String>) -> Seq<Seq<char>> {
    v.map_values(|s: String| s@)
}

/// The text a type reference is compared by: `b:NAME`, `u:NAME` or
/// `l:LOCAL_ID`.
pub open spec fn canon_type(t: TypeRef) -> Seq<char> {
    match t {
        TypeRef::Builtin { name, .. } => seq!['b', ':'] + name@,
        TypeRef::Unresolved { name, .. } => seq!['u', ':'] + name@,
        TypeRef::Local { local_id, .. } => seq!['l', ':'] + decimal(local_id as nat),
    }
}

pub open spec fn add_unique(s: Seq<Seq<char>>, x: Seq<char>) -> Seq<Seq<char>> {
    if s.contains(x) {
        s
    } else {
        s.push(x)
    }
}

pub open spec fn ignored(name: Seq<char>, prefixes: Seq<String>) -> bool {
    exists|k: int| 0 <= k < prefixes.len() && text_starts_with(name, #[trigger] prefixes[k]@)
}

pub ghost struct FingerprintV {
    pub parent: Option<Seq<char>>,
    pub module: Seq<char>,
    pub names: Seq<Seq<char>>,
    pub types: Seq<Seq<char>>,
}

/// Distinct member names and member types, in first-seen order, of the
/// field and function children listed in `kids`.
pub open spec fn fp_members(syms: Seq<Symbol>, kids: Seq<u32>, prefixes: Seq<String>) -> (
    Seq<Seq<char>>,
    Seq<Seq<char>>,
)
    decreases kids.len(),
{
    if kids.len() == 0 {
        (Seq::empty(), Seq::empty())
    } else {
        let prev = fp_members(syms, kids.drop_last(), prefixes);
        let q = last_id_pos(syms, kids.last());
        if q < 0 {
            prev
        } else {
            let c = syms[q];
            if !(c.kind == SymbolKind::Field || c.kind == SymbolKind::Function) || ignored(
                c.name@,
                prefixes,
            ) {
                prev
            } else {
                (
                    add_unique(prev.0, c.name@),
                    match c.type_ref {
                        Some(t) => add_unique(prev.1, canon_type(t)),
                        None => prev.1,
                    },
                )
            }
        }
    }
}

/// Fqn of the `Inherits` parent of the symbol at `p`, if that parent is
/// a symbol of the graph.
pub open spec fn parent_fqn_at(g: SymbolGraph, p: int) -> Option<Seq<char>> {
    match parent_of(g.relations@, g.symbols@[p].local_id) {
        Some(pid) => {
            let q = last_id_pos(g.symbols@, pid);
            if q >= 0 {
                Some(g.symbols@[q].fqn@)
            } else {
                None
            }
        },
        None => None,
    }
}

pub open spec fn fingerprint_of(g: SymbolGraph, p: int, prefixes: Seq<String>) -> FingerprintV {
    let m = fp_members(
        g.symbols@,
        children_of(g.relations@, g.symbols@[p].local_id),
        prefixes,
    );
    FingerprintV {
        parent: parent_fqn_at(g, p),
        module: g.symbols@[p].module@,
        names: m.0,
        types: m.1,
    }
}

/// Number of elements of `a` that occur in `b`.
pub open spec fn inter_count(a: Seq<Seq<char>>, b: Seq<Seq<char>>) -> nat
    decreases a.len(),
{
    if a.len() == 0 {
        0
    } else {
        inter_count(a.drop_last(), b) + if b.contains(a.last()) {
            1nat
        } else {
            0nat
        }
    }
}

/// Jaccard similarity of two duplicate-free lists, in millionths
/// (rounded down); 1.0 when both are empty.
pub open spec fn jaccard(a: Seq<Seq<char>>, b: Seq<Seq<char>>) -> int {
    if a.len() == 0 && b.len() == 0 {
        JACCARD_ONE as int
    } else {
        let i = inter_count(a, b) as int;
        let u = a.len() + b.len() - i;
        if u <= 0 {
            0
        } else {
            i * (JACCARD_ONE as int) / u
        }
    }
}

/// Similarity score of two fingerprints, in billionths.
pub open spec fn pair_score(a: FingerprintV, b: FingerprintV, cfg: DiffConfig) -> int {
    cfg.member_name_weight * jaccard(a.names, b.names) + cfg.member_type_weight * jaccard(
        a.types,
        b.types,
    ) + (if a.module == b.module {
        cfg.same_module_bonus * JACCARD_ONE
    } else {
        0
    }) + (if a.parent == b.parent {
        SAME_PARENT_BONUS * JACCARD_ONE
    } else {
        0
    })
}

pub struct Fingerprint {
    pub parent_fqn: Option<String>,
    pub module: String,
    pub member_names: Vec<String>,
    pub member_types: Vec<String>,
}

impl Fingerprint {
    /// Member names and member types hold no duplicates.
    pub open spec fn wf(&self) -> bool {
        self@.names.no_duplicates() && self@.types.no_duplicates()
    }
}

impl View for Fingerprint {
    type V = FingerprintV;

    open spec fn view(&self) -> FingerprintV {
        FingerprintV {
            parent: match self.parent_fqn {
                Some(s) => Some(s@),
                None => None,
            },
            module: self.module@,
            names: texts(self.member_names@),
            types: texts(self.member_types@),
        }
    }
}

/// Whether `x` is among the texts of `v`.
pub fn contains_text(v: &Vec<String>, x: &String) -> (r: bool)
    ensures
        r == texts(v@).contains(x@),
{
    let mut i: usize = 0;
    while i < v.len()
        invariant
            i <= v@.len(),
            forall|k: int| 0 <= k < i ==> v@[k]@ != x@,
        decreases v@.len() - i,
    {
        if v[i] == *x {
            proof {
                assert(texts(v@)[i as int] == x@);
            }
            return true;
        }
        i = i + 1;
    }
    proof {
        if texts(v@).contains(x@) {
            let k = choose|k: int| 0 <= k < texts(v@).len() && texts(v@)[k] == x@;
            assert(v@[k]@ == x@);
        }
    }
    false
}

fn push_unique(v: &mut Vec<String>, x: String)
    ensures
        texts(final(v)@) == add_unique(texts(old(v)@), x@),
{
    if !contains_text(v, &x) {
        v.push(x);
        proof {
            assert(texts(final(v)@) =~= texts(old(v)@).push(x@));
        }
    }
}

/// The text a type reference is compared by.
pub fn canonical_type(t: &TypeRef) -> (r: String)
    ensures
        r@ == canon_type(*t),
{
    proof {
        reveal_strlit("b:");
        reveal_strlit("u:");
        reveal_strlit("l:");
    }
    match t {
        TypeRef::Builtin { name, .. } => concat("b:", name.as_str()),
        TypeRef::Unresolved { name, .. } => concat("u:", name.as_str()),
        TypeRef::Local { local_id, .. } => {
            let d = u32_decimal(*local_id);
            concat("l:", d.as_str())
        },
    }
}

fn is_ignored(name: &String, prefixes: &Vec<String>) -> (r: bool)
    ensures
        r == ignored(name@, prefixes@),
{
    let mut k: usize = 0;
    while k < prefixes.len()
        invariant
            k <= prefixes@.len(),
            forall|j: int| 0 <= j < k ==> !text_starts_with(name@, #[trigger] prefixes@[j]@),
        decreases prefixes@.len() - k,
    {
        if starts_with(name.as_str(), prefixes[k].as_str()) {
            return true;
        }
        k = k + 1;
    }
    false
}

/// The fingerprint of the symbol at position `p`.
pub fn fingerprint(g: &SymbolGraph, idx: &GraphIndex, p: usize, prefixes: &Vec<String>) -> (r:
    Fingerprint)
    requires
        idx.wf(*g),
        p < g.symbols@.len(),
    ensures
        r@ == fingerprint_of(*g, p as int, prefixes@),
        r.wf(),
{
    let parent_fqn = match idx.parent_at(g, p) {
        Some(pid) => match idx.position(g, pid) {
            Some(q) => Some(g.symbols[q].fqn.clone()),
            None => None,
        },
        None => None,
    };
    let kids = idx.children_at(g, p);
    let ghost ks = kids@;
    let mut names: Vec<String> = Vec::new();
    let mut types: Vec<String> = Vec::new();
    let mut k: usize = 0;
    while k < kids.len()
        invariant
            idx.wf(*g),
            ks == kids@,
            k <= ks.len(),
            (texts(names@), texts(types@)) == fp_members(g.symbols@, ks.take(k as int), prefixes@),
        decreases ks.len() - k,
    {
        proof {
            assert(ks.take(k + 1).drop_last() =~= ks.take(k as int));
            assert(ks.take(k + 1).last() == ks[k as int]);
        }
        let c = kids[k];
        match idx.position(g, c) {
            Some(q) => {
                proof {
                    lemma_last_id_pos(g.symbols@, c);
                }
                let child = &g.symbols[q];
                if (child.kind == SymbolKind::Field || child.kind == SymbolKind::Function)
                    && !is_ignored(&child.name, prefixes) {
                    push_unique(&mut names, child.name.clone());
                    match &child.type_ref {
                        Some(t) => {
                            let ct = canonical_type(t);
                            push_unique(&mut types, ct);
                        },
                        None => {},
                    }
                }
            },
            None => {},
        }
        k = k + 1;
    }
    proof {
        assert(ks.take(k as int) =~= ks);
        lemma_fp_members_no_dup(g.symbols@, ks, prefixes@);
    }
    Fingerprint { parent_fqn, module: g.symbols[p].module.clone(), member_names: names, member_types: types }
}

pub proof fn lemma_add_unique_no_dup(s: Seq<Seq<char>>, x: Seq<char>)
    requires
        s.no_duplicates(),
    ensures
        add_unique(s, x).no_duplicates(),
        add_unique(s, x).contains(x),
{
    if !s.contains(x) {
        let t = s.push(x);
        assert(t[t.len() - 1] == x);
        assert forall|i: int, j: int| 0 <= i < t.len() && 0 <= j < t.len() && i != j implies t[i]
            != t[j] by {
            if i < s.len() && j < s.len() {
                assert(t[i] == s[i] && t[j] == s[j]);
            } else if i < s.len() {
                assert(t[i] == s[i]);
            } else if j < s.len() {
                assert(t[j] == s[j]);
            }
        }
    }
}

/// Member names and member types of a fingerprint are duplicate-free.
pub proof fn lemma_fp_members_no_dup(syms: Seq<Symbol>, kids: Seq<u32>, prefixes: Seq<String>)
    ensures
        fp_members(syms, kids, prefixes).0.no_duplicates(),
        fp_members(syms, kids, prefixes).1.no_duplicates(),
    decreases kids.len(),
{
    if kids.len() > 0 {
        let prev = fp_members(syms, kids.drop_last(), prefixes);
        lemma_fp_members_no_dup(syms, kids.drop_last(), prefixes);
        let q = last_id_pos(syms, kids.last());
        if q >= 0 {
            let c = syms[q];
            lemma_add_unique_no_dup(prev.0, c.name@);
            match c.type_ref {
                Some(t) => lemma_add_unique_no_dup(prev.1, canon_type(t)),
                None => {},
            }
        }
    }
}

proof fn lemma_inter_count_congruent(a: Seq<Seq<char>>, b: Seq<Seq<char>>, c: Seq<Seq<char>>)
    requires
        forall|k: int| 0 <= k < a.len() ==> (b.contains(#[trigger] a[k]) <==> c.contains(a[k])),
    ensures
        inter_count(a, b) == inter_count(a, c),
    decreases a.len(),
{
    if a.len() > 0 {
        let a2 = a.drop_last();
        assert forall|k: int| 0 <= k < a2.len() implies (b.contains(#[trigger] a2[k])
            <==> c.contains(a2[k])) by {
            assert(a2[k] == a[k]);
        }
        lemma_inter_count_congruent(a2, b, c);
        assert(a.last() == a[a.len() - 1]);
    }
}

/// A duplicate-free list has at most as many elements in `b` as `b` has.
pub proof fn lemma_inter_count_le_other(a: Seq<Seq<char>>, b: Seq<Seq<char>>)
    requires
        a.no_duplicates(),
    ensures
        inter_count(a, b) <= b.len(),
    decreases a.len(),
{
    if a.len() > 0 {
        let a2 = a.drop_last();
        let x = a.last();
        assert(a2.no_duplicates()) by {
            assert forall|i: int, j: int| 0 <= i < a2.len() && 0 <= j < a2.len() && i != j implies a2[i]
                != a2[j] by {
                assert(a2[i] == a[i] && a2[j] == a[j]);
            }
        }
        if b.contains(x) {
            let i = choose|i: int| 0 <= i < b.len() && b[i] == x;
            let b2 = b.remove(i);
            assert forall|k: int| 0 <= k < a2.len() implies (b.contains(#[trigger] a2[k])
                <==> b2.contains(a2[k])) by {
                let y = a2[k];
                assert(a2[k] == a[k]);
                assert(a[a.len() - 1] == x);
                assert(y != x);
                if b.contains(y) {
                    let j = choose|j: int| 0 <= j < b.len() && b[j] == y;
                    if j < i {
                        assert(b2[j] == y);
                    } else {
                        assert(b2[j - 1] == y);
                    }
                }
                if b2.contains(y) {
                    let j = choose|j: int| 0 <= j < b2.len() && b2[j] == y;
                    if j < i {
                        assert(b[j] == y);
                    } else {
                        assert(b[j + 1] == y);
                    }
                }
            }
            lemma_inter_count_congruent(a2, b, b2);
            lemma_inter_count_le_other(a2, b2);
        } else {
            lemma_inter_count_le_other(a2, b);
        }
    }
}

pub proof fn lemma_inter_count_le(a: Seq<Seq<char>>, b: Seq<Seq<char>>)
    ensures
        inter_count(a, b) <= a.len(),
    decreases a.len(),
{
    if a.len() > 0 {
        lemma_inter_count_le(a.drop_last(), b);
    }
}

/// Jaccard similarity of two name lists, in millionths.
pub fn jaccard_of(a: &Vec<String>, b: &Vec<String>) -> (r: u64)
    requires
        texts(a@).no_duplicates(),
    ensures
        r as int == jaccard(texts(a@), texts(b@)),
        r <= JACCARD_ONE,
{
    if a.len() == 0 && b.len() == 0 {
        return JACCARD_ONE;
    }
    let mut inter: usize = 0;
    let mut i: usize = 0;
    while i < a.len()
        invariant
            i <= a@.len(),
            inter as int == inter_count(texts(a@).take(i as int), texts(b@)),
            inter <= i,
        decreases a@.len() - i,
    {
        proof {
            assert(texts(a@).take(i + 1).drop_last() =~= texts(a@).take(i as int));
            assert(texts(a@).take(i + 1).last() == a@[i as int]@);
        }
        if contains_text(b, &a[i]) {
            inter = inter + 1;
        }
        i = i + 1;
    }
    proof {
        assert(texts(a@).take(i as int) =~= texts(a@));
        lemma_inter_count_le(texts(a@), texts(b@));
        lemma_inter_count_le_other(texts(a@), texts(b@));
    }
    let union: u128 = a.len() as u128 + b.len() as u128 - inter as u128;
    if union == 0 {
        return 0;
    }
    let j: u128 = (inter as u128) * (JACCARD_ONE as u128) / union;
    proof {
        assert(inter as int <= union as int);
        assert((inter as int) * (JACCARD_ONE as int) <= (union as int) * (JACCARD_ONE as int))
            by (nonlinear_arith)
            requires
                inter as int <= union as int,
        ;
        assert((inter as int) * (JACCARD_ONE as int) / (union as int) <= JACCARD_ONE as int)
            by (nonlinear_arith)
            requires
                (inter as int) * (JACCARD_ONE as int) <= (union as int) * (JACCARD_ONE as int),
                union as int > 0,
        ;
    }
    j as u64
}

/// Similarity score of two fingerprints, in billionths.
pub fn score(a: &Fingerprint, b: &Fingerprint, cfg: &DiffConfig) -> (r: u64)
    requires
        a.wf(),
    ensures
        r as int == pair_score(a@, b@, *cfg),
{
    let jn = jaccard_of(&a.member_names, &b.member_names);
    let jt = jaccard_of(&a.member_types, &b.member_types);
    let same_module = a.module == b.module;
    let same_parent = match (&a.parent_fqn, &b.parent_fqn) {
        (Some(x), Some(y)) => *x == *y,
        (None, None) => true,
        _ => false,
    };
    proof {
        assert(cfg.member_name_weight * jn <= 4294967295u64 * 1000000u64) by (nonlinear_arith)
            requires
                cfg.member_name_weight <= 4294967295u64,
                jn <= 1000000u64,
        ;
        assert(cfg.member_type_weight * jt <= 4294967295u64 * 1000000u64) by (nonlinear_arith)
            requires
                cfg.member_type_weight <= 4294967295u64,
                jt <= 1000000u64,
        ;
    }
    let mut s: u64 = (cfg.member_name_weight as u64) * jn + (cfg.member_type_weight as u64) * jt;
    if same_module {
        s = s + (cfg.same_module_bonus as u64) * JACCARD_ONE;
    }
    if same_parent {
        s = s + (SAME_PARENT_BONUS as u64) * JACCARD_ONE;
    }
    s
}

} // verus!
