//! What a read gives back of a write: the rows an ingest stores for a
//! parsed graph load back as that graph.
use vstd::prelude::*;
use crate::index::{last_id_pos, lemma_last_id_pos};
use crate::model::{
    kind_code, law_flags_round_trip, packed_flags, relation_code, Symbol, SymbolGraph,
};
use crate::parser::builder::graph_ok;
use crate::storage::ingest::relation_plan;
use crate::storage::rows::{
    last_row_with, loaded_from, rel_triples, relations_upto, row_ok, StoredRelation, StoredSymbol,
};

verus! {

/// Row `r` holds symbol `s` under the persistent id `id`, as an ingest
/// writes it.
pub open spec fn stores(r: StoredSymbol, s: Symbol, id: Seq<u8>) -> bool {
    &&& r.id@ == id
    &&& r.fqn == s.fqn
    &&& r.name == s.name
    &&& r.kind == kind_code(s.kind)
    &&& r.module == s.module
    &&& r.size == s.size
    &&& r.align == s.align
    &&& r.offset == s.offset
    &&& r.vtable_slot == s.vtable_slot
    &&& r.type_ref == s.type_ref
    &&& r.flags == packed_flags(s.flags) as i64
    &&& match s.source_loc {
        Some(l) => r.source_file == Some(l.file) && r.source_line == Some(l.line),
        None => r.source_file is None,
    }
}

/// No two rows share a persistent id.
pub open spec fn ids_distinct(rows: Seq<StoredSymbol>) -> bool {
    forall|i: int, j: int| 0 <= i < j < rows.len() ==> rows[i].id@ != rows[j].id@
}

/// Stored relation `r` is the planned row of relation `j` of `g`.
pub open spec fn rel_row_of(r: StoredRelation, g: SymbolGraph, ids: Seq<Vec<u8>>, j: int) -> bool {
    &&& r.from@ == ids[g.relations@[j].from as int]@
    &&& r.to@ == ids[g.relations@[j].to as int]@
    &&& r.kind == relation_code(g.relations@[j].kind)
}

proof fn lemma_last_row_distinct(rows: Seq<StoredSymbol>, p: int, n: int)
    requires
        ids_distinct(rows),
        0 <= p < n <= rows.len(),
    ensures
        last_row_with(rows, rows[p].id@, n) == p,
    decreases n,
{
    if n - 1 > p {
        assert(rows[p].id@ != rows[n - 1].id@);
        lemma_last_row_distinct(rows, p, n - 1);
    }
}

proof fn lemma_position_of_id(syms: Seq<Symbol>, rels: Seq<crate::model::Relation>, id: u32)
    requires
        graph_ok(syms, rels),
        id < syms.len(),
    ensures
        last_id_pos(syms, id) == id,
{
    lemma_last_id_pos(syms, id);
    let q = last_id_pos(syms, id);
    assert(syms[id as int].local_id == id);
    if q >= 0 {
        assert(syms[q].local_id == q);
    }
}

proof fn lemma_plan_rows(g: SymbolGraph, ids: Seq<Vec<u8>>, k: nat)
    requires
        graph_ok(g.symbols@, g.relations@),
        ids.len() == g.symbols@.len(),
        k <= g.relations@.len(),
    ensures
        relation_plan(g, ids, k).0.len() == k,
        forall|j: int|
            0 <= j < k ==> #[trigger] relation_plan(g, ids, k).0[j] == (
                ids[g.relations@[j].from as int]@,
                ids[g.relations@[j].to as int]@,
                relation_code(g.relations@[j].kind),
            ),
    decreases k,
{
    if k > 0 {
        lemma_plan_rows(g, ids, (k - 1) as nat);
        let r = g.relations@[k - 1];
        assert(r.from < g.symbols@.len() && r.to < g.symbols@.len());
        lemma_position_of_id(g.symbols@, g.relations@, r.from);
        lemma_position_of_id(g.symbols@, g.relations@, r.to);
        let prev = relation_plan(g, ids, (k - 1) as nat);
        assert forall|j: int| 0 <= j < k implies #[trigger] relation_plan(g, ids, k).0[j] == (
            ids[g.relations@[j].from as int]@,
            ids[g.relations@[j].to as int]@,
            relation_code(g.relations@[j].kind),
        ) by {
            if j < k - 1 {
                assert(relation_plan(g, ids, k).0[j] == prev.0[j]);
            }
        }
    }
}

proof fn lemma_loaded_relations(
    g: SymbolGraph,
    ids: Seq<Vec<u8>>,
    stored: Seq<StoredSymbol>,
    rels: Seq<StoredRelation>,
    k: nat,
)
    requires
        graph_ok(g.symbols@, g.relations@),
        ids.len() == g.symbols@.len(),
        stored.len() == g.symbols@.len(),
        ids_distinct(stored),
        forall|p: int| 0 <= p < stored.len() ==> (#[trigger] stored[p]).id@ == ids[p]@,
        rels.len() == g.relations@.len(),
        forall|j: int| 0 <= j < rels.len() ==> rel_row_of(#[trigger] rels[j], g, ids, j),
        k <= rels.len(),
    ensures
        relations_upto(stored, rels, k) == rel_triples(g.relations@).take(k as int),
    decreases k,
{
    if k > 0 {
        lemma_loaded_relations(g, ids, stored, rels, (k - 1) as nat);
        let r = g.relations@[k - 1];
        assert(rel_row_of(rels[k - 1], g, ids, k - 1));
        assert(stored[r.from as int].id@ == ids[r.from as int]@);
        assert(stored[r.to as int].id@ == ids[r.to as int]@);
        lemma_last_row_distinct(stored, r.from as int, stored.len() as int);
        lemma_last_row_distinct(stored, r.to as int, stored.len() as int);
        assert(rel_triples(g.relations@).take(k as int) =~= rel_triples(g.relations@).take(
            k - 1,
        ).push((r.from as int, r.to as int, relation_code(r.kind))));
    }
}

/// Storing a parsed graph and loading it back gives the graph: every row
/// loads (so the load succeeds), the symbol loaded from each row is the
/// symbol stored there, and the relations loaded from the planned
/// relation rows are the graph's relations, in order. This holds when
/// no two symbols share a persistent id (two symbols of the same fqn and
/// kind do, and the database keeps only the first).
pub proof fn law_stored_graph_loads_back(
    g: SymbolGraph,
    ids: Seq<Vec<u8>>,
    stored: Seq<StoredSymbol>,
    rels: Seq<StoredRelation>,
)
    requires
        graph_ok(g.symbols@, g.relations@),
        ids.len() == g.symbols@.len(),
        stored.len() == g.symbols@.len(),
        forall|p: int| 0 <= p < stored.len() ==> stores(#[trigger] stored[p], g.symbols@[p], ids[p]@),
        ids_distinct(stored),
        rels.len() == relation_plan(g, ids, g.relations@.len()).0.len(),
        forall|j: int|
            0 <= j < rels.len() ==> (#[trigger] rels[j].from@, rels[j].to@, rels[j].kind)
                == relation_plan(g, ids, g.relations@.len()).0[j],
    ensures
        forall|p: int| 0 <= p < stored.len() ==> row_ok(stored, p),
        forall|p: int, s: Symbol|
            0 <= p < stored.len() && #[trigger] loaded_from(s, stored[p], p) ==> s
                == g.symbols@[p],
        relations_upto(stored, rels, rels.len()) == rel_triples(g.relations@),
{
    lemma_plan_rows(g, ids, g.relations@.len());
    assert forall|p: int| 0 <= p < stored.len() implies row_ok(stored, p) by {
        assert(stores(stored[p], g.symbols@[p], ids[p]@));
    }
    assert forall|p: int, s: Symbol|
        0 <= p < stored.len() && #[trigger] loaded_from(s, stored[p], p) implies s
        == g.symbols@[p] by {
        let t = g.symbols@[p];
        assert(stores(stored[p], t, ids[p]@));
        law_flags_round_trip(t.flags);
        assert(t.local_id == p);
        assert(s.kind == t.kind);
        assert(s.flags == t.flags);
        assert(s.source_loc == t.source_loc);
    }
    assert forall|p: int| 0 <= p < stored.len() implies (#[trigger] stored[p]).id@ == ids[p]@ by {
        assert(stores(stored[p], g.symbols@[p], ids[p]@));
    }
    assert forall|j: int| 0 <= j < rels.len() implies rel_row_of(#[trigger] rels[j], g, ids, j) by {
        assert(relation_plan(g, ids, g.relations@.len()).0[j] == (
            ids[g.relations@[j].from as int]@,
            ids[g.relations@[j].to as int]@,
            relation_code(g.relations@[j].kind),
        ));
    }
    lemma_loaded_relations(g, ids, stored, rels, rels.len());
    assert(rel_triples(g.relations@).take(rels.len() as int) =~= rel_triples(g.relations@));
}

} // verus!
