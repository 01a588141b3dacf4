//! Member-level classification of one matched (base, head) pair: parent
//! change, removed and added members, offset, size, type, vtable slot and
//! signature changes.
use vstd::prelude::*;
use crate::diff::fingerprint::{canon_type, canonical_type, parent_fqn_at};
use crate::diff::types::{changes_view, opt_text, ChangeKind, ChangeV, FieldChange, FieldChangeV};
use crate::index::{children_of, last_id_pos, lemma_last_id_pos, GraphIndex};
use crate::model::{Symbol, SymbolGraph, SymbolKind, TypeRef};

verus! {

pub open spec fn ints(v: Seq<usize>) -> Seq<int> {
    v.map_values(|x: usize| x as int)
}

/// Positions of the symbols whose ids are listed in `kids`, in order,
/// skipping ids that name no symbol.
pub open spec fn member_positions(syms: Seq<Symbol>, kids: Seq<u32>) -> Seq<int>
    decreases kids.len(),
{
    if kids.len() == 0 {
        Seq::empty()
    } else {
        let prev = member_positions(syms, kids.drop_last());
        let q = last_id_pos(syms, kids.last());
        if q >= 0 {
            prev.push(q)
        } else {
            prev
        }
    }
}

/// Index in `ms` of the last member named `n`, or -1.
pub open spec fn last_named(syms: Seq<Symbol>, ms: Seq<int>, n: Seq<char>) -> int
    decreases ms.len(),
{
    if ms.len() == 0 {
        -1
    } else if syms[ms.last()].name@ == n {
        ms.len() - 1
    } else {
        last_named(syms, ms.drop_last(), n)
    }
}

pub open spec fn opt_canon(t: Option<TypeRef>) -> Option<Seq<char>> {
    match t {
        Some(t) => Some(canon_type(t)),
        None => None,
    }
}

pub open spec fn or_empty(o: Option<Seq<char>>) -> Seq<char> {
    match o {
        Some(s) => s,
        None => Seq::empty(),
    }
}

pub open spec fn change_at(hf: Seq<char>, c: ChangeV) -> FieldChangeV {
    FieldChangeV { parent_fqn: hf, change: c }
}

pub open spec fn differ(a: Option<u32>, b: Option<u32>) -> bool {
    a is Some && b is Some && a->0 != b->0
}

/// Changes between a base member and the head member of the same name.
pub open spec fn pair_changes(hf: Seq<char>, b: Symbol, h: Symbol) -> Seq<FieldChangeV> {
    let bt = opt_canon(b.type_ref);
    let ht = opt_canon(h.type_ref);
    if b.kind == SymbolKind::Field {
        (if differ(b.offset, h.offset) {
            seq![
                change_at(
                    hf,
                    ChangeV::OffsetChanged {
                        field: b.name@,
                        old_offset: b.offset->0,
                        new_offset: h.offset->0,
                    },
                ),
            ]
        } else {
            Seq::empty()
        }) + (if differ(b.size, h.size) {
            seq![
                change_at(
                    hf,
                    ChangeV::SizeChanged {
                        field: b.name@,
                        old_size: b.size->0,
                        new_size: h.size->0,
                    },
                ),
            ]
        } else {
            Seq::empty()
        }) + (if bt != ht {
            seq![
                change_at(
                    hf,
                    ChangeV::FieldTypeSubstituted {
                        field: b.name@,
                        old_type: or_empty(bt),
                        new_type: or_empty(ht),
                    },
                ),
            ]
        } else {
            Seq::empty()
        })
    } else if b.kind == SymbolKind::Function {
        (if differ(b.vtable_slot, h.vtable_slot) {
            seq![
                change_at(
                    hf,
                    ChangeV::VtableShift {
                        fn_name: b.name@,
                        old_slot: b.vtable_slot->0,
                        new_slot: h.vtable_slot->0,
                    },
                ),
            ]
        } else {
            Seq::empty()
        }) + (if bt != ht {
            seq![
                change_at(
                    hf,
                    ChangeV::FunctionSignatureChanged {
                        fn_name: b.name@,
                        old_return: bt,
                        new_return: ht,
                    },
                ),
            ]
        } else {
            Seq::empty()
        })
    } else {
        Seq::empty()
    }
}

/// Changes found walking the base members: removed members, and the
/// changes of each member against the last head member of its name.
pub open spec fn base_side(
    hf: Seq<char>,
    bs: Seq<Symbol>,
    bms: Seq<int>,
    hs: Seq<Symbol>,
    hms: Seq<int>,
) -> Seq<FieldChangeV>
    decreases bms.len(),
{
    if bms.len() == 0 {
        Seq::empty()
    } else {
        let prev = base_side(hf, bs, bms.drop_last(), hs, hms);
        let b = bs[bms.last()];
        let k = last_named(hs, hms, b.name@);
        prev + if k < 0 {
            seq![change_at(hf, ChangeV::FieldRemoved { field: b.name@ })]
        } else {
            pair_changes(hf, b, hs[hms[k]])
        }
    }
}

/// Head fields and functions whose name no base member has.
pub open spec fn head_side(
    hf: Seq<char>,
    bs: Seq<Symbol>,
    bms: Seq<int>,
    hs: Seq<Symbol>,
    hms: Seq<int>,
) -> Seq<FieldChangeV>
    decreases hms.len(),
{
    if hms.len() == 0 {
        Seq::empty()
    } else {
        let prev = head_side(hf, bs, bms, hs, hms.drop_last());
        let h = hs[hms.last()];
        if last_named(bs, bms, h.name@) < 0 && (h.kind == SymbolKind::Field || h.kind
            == SymbolKind::Function) {
            prev.push(change_at(hf, ChangeV::FieldAdded { field: h.name@ }))
        } else {
            prev
        }
    }
}

pub open spec fn members_at(g: SymbolGraph, p: int) -> Seq<int> {
    member_positions(g.symbols@, children_of(g.relations@, g.symbols@[p].local_id))
}

/// All member-level changes of the pair (base symbol at `p`, head symbol
/// at `q`), reported under the head's fqn `hf`.
pub open spec fn classify_spec(
    hf: Seq<char>,
    base: SymbolGraph,
    p: int,
    head: SymbolGraph,
    q: int,
) -> Seq<FieldChangeV> {
    let bp = parent_fqn_at(base, p);
    let hp = parent_fqn_at(head, q);
    let bms = members_at(base, p);
    let hms = members_at(head, q);
    (if bp != hp {
        seq![change_at(hf, ChangeV::ParentClassChanged { old_parent: bp, new_parent: hp })]
    } else {
        Seq::empty()
    }) + base_side(hf, base.symbols@, bms, head.symbols@, hms) + head_side(
        hf,
        base.symbols@,
        bms,
        head.symbols@,
        hms,
    )
}

pub proof fn lemma_member_positions(syms: Seq<Symbol>, kids: Seq<u32>)
    ensures
        forall|k: int|
            0 <= k < member_positions(syms, kids).len() ==> 0 <= #[trigger] member_positions(
                syms,
                kids,
            )[k] < syms.len(),
    decreases kids.len(),
{
    if kids.len() > 0 {
        let prev = member_positions(syms, kids.drop_last());
        lemma_member_positions(syms, kids.drop_last());
        lemma_last_id_pos(syms, kids.last());
        let cur = member_positions(syms, kids);
        assert forall|k: int| 0 <= k < cur.len() implies 0 <= #[trigger] cur[k] < syms.len() by {
            if k < prev.len() {
                assert(cur[k] == prev[k]);
            }
        }
    }
}

pub proof fn lemma_last_named(syms: Seq<Symbol>, ms: Seq<int>, n: Seq<char>)
    ensures
        -1 <= last_named(syms, ms, n) < ms.len(),
        last_named(syms, ms, n) >= 0 ==> syms[ms[last_named(syms, ms, n)]].name@ == n,
    decreases ms.len(),
{
    if ms.len() > 0 && syms[ms.last()].name@ != n {
        lemma_last_named(syms, ms.drop_last(), n);
    }
}

/// Positions of the members of the symbol at `p`.
fn member_positions_at(g: &SymbolGraph, idx: &GraphIndex, p: usize) -> (r: Vec<usize>)
    requires
        idx.wf(*g),
        p < g.symbols@.len(),
    ensures
        ints(r@) == members_at(*g, p as int),
        forall|k: int| 0 <= k < r@.len() ==> #[trigger] r@[k] < g.symbols@.len(),
{
    let kids = idx.children_at(g, p);
    let ghost ks = kids@;
    let mut out: Vec<usize> = Vec::new();
    let mut k: usize = 0;
    while k < kids.len()
        invariant
            idx.wf(*g),
            ks == kids@,
            k <= ks.len(),
            ints(out@) == member_positions(g.symbols@, ks.take(k as int)),
            forall|j: int| 0 <= j < out@.len() ==> #[trigger] out@[j] < g.symbols@.len(),
        decreases ks.len() - k,
    {
        proof {
            assert(ks.take(k + 1).drop_last() =~= ks.take(k as int));
            assert(ks.take(k + 1).last() == ks[k as int]);
        }
        match idx.position(g, kids[k]) {
            Some(q) => {
                proof {
                    lemma_last_id_pos(g.symbols@, kids[k as int]);
                }
                out.push(q);
                proof {
                    assert(ints(out@) =~= member_positions(g.symbols@, ks.take(k as int)).push(
                        q as int,
                    ));
                }
            },
            None => {},
        }
        k = k + 1;
    }
    proof {
        assert(ks.take(k as int) =~= ks);
    }
    out
}

/// Index in `ms` of the last member named `n`.
fn find_last_named(syms: &Vec<Symbol>, ms: &Vec<usize>, n: &String) -> (r: Option<usize>)
    requires
        forall|k: int| 0 <= k < ms@.len() ==> #[trigger] ms@[k] < syms@.len(),
    ensures
        r is None <==> last_named(syms@, ints(ms@), n@) < 0,
        r matches Some(k) ==> k as int == last_named(syms@, ints(ms@), n@),
{
    let ghost m = ints(ms@);
    let mut found: Option<usize> = None;
    let mut i: usize = 0;
    while i < ms.len()
        invariant
            m == ints(ms@),
            i <= ms@.len(),
            forall|k: int| 0 <= k < ms@.len() ==> #[trigger] ms@[k] < syms@.len(),
            found is None <==> last_named(syms@, m.take(i as int), n@) < 0,
            found matches Some(k) ==> k as int == last_named(syms@, m.take(i as int), n@),
        decreases ms@.len() - i,
    {
        proof {
            assert(m.take(i + 1).drop_last() =~= m.take(i as int));
            assert(m.take(i + 1).last() == ms@[i as int] as int);
            lemma_last_named(syms@, m.take(i as int), n@);
        }
        if syms[ms[i]].name == *n {
            found = Some(i);
        }
        i = i + 1;
    }
    proof {
        assert(m.take(i as int) =~= m);
    }
    found
}

fn opt_canonical(t: &Option<TypeRef>) -> (r: Option<String>)
    ensures
        opt_text(r) == opt_canon(*t),
{
    match t {
        Some(t) => Some(canonical_type(t)),
        None => None,
    }
}

fn opt_text_eq(a: &Option<String>, b: &Option<String>) -> (r: bool)
    ensures
        r == (opt_text(*a) == opt_text(*b)),
{
    match (a, b) {
        (Some(x), Some(y)) => *x == *y,
        (None, None) => true,
        _ => false,
    }
}

fn text_or_empty(o: Option<String>) -> (r: String)
    ensures
        r@ == or_empty(opt_text(o)),
{
    match o {
        Some(s) => s,
        None => String::new(),
    }
}

fn push_change(out: &mut Vec<FieldChange>, hf: &String, c: ChangeKind)
    ensures
        changes_view(final(out)@) == changes_view(old(out)@).push(change_at(hf@, c@)),
{
    out.push(FieldChange { parent_fqn: hf.clone(), change: c });
    proof {
        assert(changes_view(final(out)@) =~= changes_view(old(out)@).push(change_at(hf@, c@)));
    }
}

/// Appends the changes between base member `b` and head member `h`.
fn push_pair_changes(out: &mut Vec<FieldChange>, hf: &String, b: &Symbol, h: &Symbol)
    ensures
        changes_view(final(out)@) == changes_view(old(out)@) + pair_changes(hf@, *b, *h),
{
    let ghost start = changes_view(out@);
    let bt = opt_canonical(&b.type_ref);
    let ht = opt_canonical(&h.type_ref);
    let same_type = opt_text_eq(&bt, &ht);
    match b.kind {
        SymbolKind::Field => {
            let ghost s1 = if differ(b.offset, h.offset) {
                seq![
                    change_at(
                        hf@,
                        ChangeV::OffsetChanged {
                            field: b.name@,
                            old_offset: b.offset->0,
                            new_offset: h.offset->0,
                        },
                    ),
                ]
            } else {
                Seq::<FieldChangeV>::empty()
            };
            match (b.offset, h.offset) {
                (Some(bo), Some(ho)) => {
                    if bo != ho {
                        push_change(
                            out,
                            hf,
                            ChangeKind::OffsetChanged {
                                field: b.name.clone(),
                                old_offset: bo,
                                new_offset: ho,
                            },
                        );
                    }
                },
                _ => {},
            }
            assert(changes_view(out@) =~= start + s1);
            let ghost s2 = if differ(b.size, h.size) {
                seq![
                    change_at(
                        hf@,
                        ChangeV::SizeChanged {
                            field: b.name@,
                            old_size: b.size->0,
                            new_size: h.size->0,
                        },
                    ),
                ]
            } else {
                Seq::<FieldChangeV>::empty()
            };
            match (b.size, h.size) {
                (Some(bs), Some(hs)) => {
                    if bs != hs {
                        push_change(
                            out,
                            hf,
                            ChangeKind::SizeChanged {
                                field: b.name.clone(),
                                old_size: bs,
                                new_size: hs,
                            },
                        );
                    }
                },
                _ => {},
            }
            assert(changes_view(out@) =~= start + s1 + s2);
            let ghost s3 = if opt_text(bt) != opt_text(ht) {
                seq![
                    change_at(
                        hf@,
                        ChangeV::FieldTypeSubstituted {
                            field: b.name@,
                            old_type: or_empty(opt_text(bt)),
                            new_type: or_empty(opt_text(ht)),
                        },
                    ),
                ]
            } else {
                Seq::<FieldChangeV>::empty()
            };
            if !same_type {
                let old_type = text_or_empty(bt);
                let new_type = text_or_empty(ht);
                push_change(
                    out,
                    hf,
                    ChangeKind::FieldTypeSubstituted { field: b.name.clone(), old_type, new_type },
                );
            }
            assert(changes_view(out@) =~= start + (s1 + s2 + s3));
        },
        SymbolKind::Function => {
            let ghost s1 = if differ(b.vtable_slot, h.vtable_slot) {
                seq![
                    change_at(
                        hf@,
                        ChangeV::VtableShift {
                            fn_name: b.name@,
                            old_slot: b.vtable_slot->0,
                            new_slot: h.vtable_slot->0,
                        },
                    ),
                ]
            } else {
                Seq::<FieldChangeV>::empty()
            };
            match (b.vtable_slot, h.vtable_slot) {
                (Some(bs), Some(hs)) => {
                    if bs != hs {
                        push_change(
                            out,
                            hf,
                            ChangeKind::VtableShift {
                                fn_name: b.name.clone(),
                                old_slot: bs,
                                new_slot: hs,
                            },
                        );
                    }
                },
                _ => {},
            }
            assert(changes_view(out@) =~= start + s1);
            let ghost s2 = if opt_text(bt) != opt_text(ht) {
                seq![
                    change_at(
                        hf@,
                        ChangeV::FunctionSignatureChanged {
                            fn_name: b.name@,
                            old_return: opt_text(bt),
                            new_return: opt_text(ht),
                        },
                    ),
                ]
            } else {
                Seq::<FieldChangeV>::empty()
            };
            if !same_type {
                push_change(
                    out,
                    hf,
                    ChangeKind::FunctionSignatureChanged {
                        fn_name: b.name.clone(),
                        old_return: bt,
                        new_return: ht,
                    },
                );
            }
            assert(changes_view(out@) =~= start + (s1 + s2));
        },
        _ => {
            assert(changes_view(out@) =~= start + Seq::<FieldChangeV>::empty());
        },
    }
}

/// Member-level changes between the base symbol at `p` and the head
/// symbol at `q`, reported under `head_fqn`.
pub fn classify_field_changes(
    head_fqn: &String,
    base: &SymbolGraph,
    bidx: &GraphIndex,
    p: usize,
    head: &SymbolGraph,
    hidx: &GraphIndex,
    q: usize,
) -> (r: Vec<FieldChange>)
    requires
        bidx.wf(*base),
        hidx.wf(*head),
        p < base.symbols@.len(),
        q < head.symbols@.len(),
    ensures
        changes_view(r@) == classify_spec(head_fqn@, *base, p as int, *head, q as int),
{
    let mut out: Vec<FieldChange> = Vec::new();
    let base_parent = match bidx.parent_at(base, p) {
        Some(pid) => match bidx.position(base, pid) {
            Some(i) => Some(base.symbols[i].fqn.clone()),
            None => None,
        },
        None => None,
    };
    let head_parent = match hidx.parent_at(head, q) {
        Some(pid) => match hidx.position(head, pid) {
            Some(i) => Some(head.symbols[i].fqn.clone()),
            None => None,
        },
        None => None,
    };
    assert(opt_text(base_parent) == parent_fqn_at(*base, p as int));
    assert(opt_text(head_parent) == parent_fqn_at(*head, q as int));
    if !opt_text_eq(&base_parent, &head_parent) {
        push_change(
            &mut out,
            head_fqn,
            ChangeKind::ParentClassChanged { old_parent: base_parent, new_parent: head_parent },
        );
    }
    let ghost start = changes_view(out@);
    assert(start =~= (if parent_fqn_at(*base, p as int) != parent_fqn_at(*head, q as int) {
        seq![
            change_at(
                head_fqn@,
                ChangeV::ParentClassChanged {
                    old_parent: parent_fqn_at(*base, p as int),
                    new_parent: parent_fqn_at(*head, q as int),
                },
            ),
        ]
    } else {
        Seq::empty()
    }));
    let bms = member_positions_at(base, bidx, p);
    let hms = member_positions_at(head, hidx, q);
    let ghost bm = ints(bms@);
    let ghost hm = ints(hms@);
    let mut i: usize = 0;
    while i < bms.len()
        invariant
            bm == ints(bms@),
            hm == ints(hms@),
            i <= bms@.len(),
            forall|k: int| 0 <= k < bms@.len() ==> #[trigger] bms@[k] < base.symbols@.len(),
            forall|k: int| 0 <= k < hms@.len() ==> #[trigger] hms@[k] < head.symbols@.len(),
            changes_view(out@) == start + base_side(
                head_fqn@,
                base.symbols@,
                bm.take(i as int),
                head.symbols@,
                hm,
            ),
        decreases bms@.len() - i,
    {
        proof {
            assert(bm.take(i + 1).drop_last() =~= bm.take(i as int));
            assert(bm.take(i + 1).last() == bms@[i as int] as int);
        }
        let b = &base.symbols[bms[i]];
        let ghost before = changes_view(out@);
        match find_last_named(&head.symbols, &hms, &b.name) {
            None => {
                push_change(&mut out, head_fqn, ChangeKind::FieldRemoved { field: b.name.clone() });
            },
            Some(k) => {
                proof {
                    lemma_last_named(head.symbols@, hm, b.name@);
                }
                push_pair_changes(&mut out, head_fqn, b, &head.symbols[hms[k]]);
            },
        }
        proof {
            assert(changes_view(out@) =~= start + base_side(
                head_fqn@,
                base.symbols@,
                bm.take(i + 1),
                head.symbols@,
                hm,
            ));
        }
        i = i + 1;
    }
    proof {
        assert(bm.take(i as int) =~= bm);
    }
    let ghost mid = changes_view(out@);
    let mut j: usize = 0;
    while j < hms.len()
        invariant
            bm == ints(bms@),
            hm == ints(hms@),
            j <= hms@.len(),
            forall|k: int| 0 <= k < bms@.len() ==> #[trigger] bms@[k] < base.symbols@.len(),
            forall|k: int| 0 <= k < hms@.len() ==> #[trigger] hms@[k] < head.symbols@.len(),
            changes_view(out@) == mid + head_side(
                head_fqn@,
                base.symbols@,
                bm,
                head.symbols@,
                hm.take(j as int),
            ),
        decreases hms@.len() - j,
    {
        proof {
            assert(hm.take(j + 1).drop_last() =~= hm.take(j as int));
            assert(hm.take(j + 1).last() == hms@[j as int] as int);
        }
        let h = &head.symbols[hms[j]];
        let absent = find_last_named(&base.symbols, &bms, &h.name).is_none();
        if absent && (h.kind == SymbolKind::Field || h.kind == SymbolKind::Function) {
            push_change(&mut out, head_fqn, ChangeKind::FieldAdded { field: h.name.clone() });
        }
        proof {
            assert(changes_view(out@) =~= mid + head_side(
                head_fqn@,
                base.symbols@,
                bm,
                head.symbols@,
                hm.take(j + 1),
            ));
        }
        j = j + 1;
    }
    proof {
        assert(hm.take(j as int) =~= hm);
    }
    out
}

} // verus!
