//! Planning an ingest: persistent ids, relation rows, and the report.
//!
//! A symbol's persistent id is the first 16 bytes of the BLAKE3 hash of
//! its fqn, `:`, its kind code and `:` and the dump id (both as 8
//! little-endian bytes), so the same fqn in two dumps gets two ids.
use vstd::prelude::*;
use vstd::utf8::encode_utf8;
use crate::digest::{blake3_digest, blake3_hash};
use crate::index::{last_id_pos, IdIndex};
use crate::model::{kind_code, relation_code, Symbol, SymbolGraph};
use crate::text::{concat, u32_decimal};

verus! {

pub const ID_LEN: usize = 16;

/// The 8 little-endian bytes of `v` in two's complement.
pub open spec fn le_bytes(v: i64) -> Seq<u8> {
    Seq::new(8, |k: int| (((v as u64) >> ((8 * k) as u64)) & 0xff) as u8)
}

/// What is hashed for a symbol's id.
pub open spec fn id_message(fqn: Seq<char>, kind: i64, dump_id: i64) -> Seq<u8> {
    encode_utf8(fqn) + seq![58u8] + le_bytes(kind) + seq![58u8] + le_bytes(dump_id)
}

/// The persistent id of a symbol of kind code `kind` in dump `dump_id`.
pub open spec fn symbol_id_of(dump_id: i64, fqn: Seq<char>, kind: i64) -> Seq<u8> {
    blake3_digest(id_message(fqn, kind, dump_id)).take(16)
}

fn push_le_bytes(out: &mut Vec<u8>, v: i64)
    ensures
        final(out)@ == old(out)@ + le_bytes(v),
{
    let x = v as u64;
    let mut k: u64 = 0;
    while k < 8
        invariant
            k <= 8,
            x == v as u64,
            out@ == old(out)@ + le_bytes(v).take(k as int),
        decreases 8 - k,
    {
        let b = ((x >> (8 * k)) & 0xff) as u8;
        out.push(b);
        k = k + 1;
        proof {
            assert(out@ =~= old(out)@ + le_bytes(v).take(k as int));
        }
    }
    proof {
        assert(le_bytes(v).take(8) =~= le_bytes(v));
    }
}

/// The bytes hashed for the persistent id of `sym` in dump `dump_id`:
/// its fqn, `:`, its kind code, `:` and the dump id (both as 8
/// little-endian bytes).
pub fn symbol_id_input(dump_id: i64, sym: &Symbol) -> (r: Vec<u8>)
    ensures
        r@ == id_message(sym.fqn@, kind_code(sym.kind), dump_id),
{
    let mut msg: Vec<u8> = Vec::new();
    let fqn_bytes = sym.fqn.as_str().as_bytes();
    let mut i: usize = 0;
    while i < fqn_bytes.len()
        invariant
            i <= fqn_bytes@.len(),
            msg@ == fqn_bytes@.take(i as int),
        decreases fqn_bytes@.len() - i,
    {
        msg.push(fqn_bytes[i]);
        i = i + 1;
        proof {
            assert(msg@ =~= fqn_bytes@.take(i as int));
        }
    }
    proof {
        assert(fqn_bytes@.take(i as int) =~= fqn_bytes@);
    }
    msg.push(58);
    push_le_bytes(&mut msg, sym.kind.as_i64());
    msg.push(58);
    push_le_bytes(&mut msg, dump_id);
    proof {
        assert(msg@ =~= id_message(sym.fqn@, kind_code(sym.kind), dump_id));
    }
    msg
}

/// The persistent id of `sym` in dump `dump_id`.
pub fn symbol_id(dump_id: i64, sym: &Symbol) -> (r: Vec<u8>)
    ensures
        r@ == symbol_id_of(dump_id, sym.fqn@, kind_code(sym.kind)),
        r@.len() == ID_LEN,
{
    let msg = symbol_id_input(dump_id, sym);
    let full = blake3_hash(msg.as_slice());
    id_from_digest(&full)
}

/// A symbol id from the 32-byte digest of its id message: its first
/// `ID_LEN` bytes.
pub fn id_from_digest(full: &Vec<u8>) -> (r: Vec<u8>)
    requires
        full@.len() == 32,
    ensures
        r@ == full@.take(ID_LEN as int),
        r@.len() == ID_LEN,
{
    let mut out: Vec<u8> = Vec::new();
    let mut k: usize = 0;
    while k < ID_LEN
        invariant
            k <= ID_LEN,
            full@.len() == 32,
            out@ == full@.take(k as int),
        decreases ID_LEN - k,
    {
        out.push(full[k]);
        k = k + 1;
        proof {
            assert(out@ =~= full@.take(k as int));
        }
    }
    out
}

/// The persistent ids of all the symbols, by position.
pub fn symbol_ids(dump_id: i64, graph: &SymbolGraph) -> (r: Vec<Vec<u8>>)
    ensures
        r@.len() == graph.symbols@.len(),
        forall|p: int|
            0 <= p < r@.len() ==> (#[trigger] r@[p])@ == symbol_id_of(
                dump_id,
                graph.symbols@[p].fqn@,
                kind_code(graph.symbols@[p].kind),
            ),
{
    let mut out: Vec<Vec<u8>> = Vec::new();
    let mut p: usize = 0;
    while p < graph.symbols.len()
        invariant
            p <= graph.symbols@.len(),
            out@.len() == p,
            forall|q: int|
                0 <= q < p ==> (#[trigger] out@[q])@ == symbol_id_of(
                    dump_id,
                    graph.symbols@[q].fqn@,
                    kind_code(graph.symbols@[q].kind),
                ),
        decreases graph.symbols@.len() - p,
    {
        out.push(symbol_id(dump_id, &graph.symbols[p]));
        p = p + 1;
    }
    out
}

/// A relation row: the persistent ids of both ends and the kind code.
pub struct RelationRow {
    pub from: Vec<u8>,
    pub to: Vec<u8>,
    pub kind: i64,
}

pub open spec fn row_view(r: RelationRow) -> (Seq<u8>, Seq<u8>, i64) {
    (r.from@, r.to@, r.kind)
}

/// Relation rows and warnings for the first `k` relations: an end whose
/// local id names no symbol skips the relation with a warning.
pub open spec fn relation_plan(g: SymbolGraph, ids: Seq<Vec<u8>>, k: nat) -> (
    Seq<(Seq<u8>, Seq<u8>, i64)>,
    Seq<Seq<char>>,
)
    decreases k,
{
    if k == 0 {
        (Seq::empty(), Seq::empty())
    } else {
        let prev = relation_plan(g, ids, (k - 1) as nat);
        let r = g.relations@[k - 1];
        let f = last_id_pos(g.symbols@, r.from);
        let t = last_id_pos(g.symbols@, r.to);
        if f < 0 {
            (
                prev.0,
                prev.1.push(
                    "relation skipped: from local_id "@ + crate::text::decimal(r.from as nat)
                        + " not found in graph"@,
                ),
            )
        } else if t < 0 {
            (
                prev.0,
                prev.1.push(
                    "relation skipped: to local_id "@ + crate::text::decimal(r.to as nat)
                        + " not found in graph"@,
                ),
            )
        } else {
            (prev.0.push((ids[f]@, ids[t]@, relation_code(r.kind))), prev.1)
        }
    }
}

fn skipped_warning(prefix: &str, id: u32) -> (r: String)
    ensures
        r@ == prefix@ + crate::text::decimal(id as nat) + " not found in graph"@,
{
    let d = u32_decimal(id);
    let a = concat(prefix, d.as_str());
    concat(a.as_str(), " not found in graph")
}

/// Each relation planned gives either a row or a warning.
pub proof fn lemma_relation_plan_len(g: SymbolGraph, ids: Seq<Vec<u8>>, k: nat)
    ensures
        relation_plan(g, ids, k).0.len() + relation_plan(g, ids, k).1.len() == k,
    decreases k,
{
    if k > 0 {
        lemma_relation_plan_len(g, ids, (k - 1) as nat);
    }
}

/// The relation rows to write, with a warning for each relation skipped.
pub fn plan_relations(graph: &SymbolGraph, ids: &Vec<Vec<u8>>) -> (r: (Vec<RelationRow>, Vec<String>))
    requires
        ids@.len() == graph.symbols@.len(),
    ensures
        (r.0@.map_values(|x: RelationRow| row_view(x)), r.1@.map_values(|w: String| w@))
            == relation_plan(*graph, ids@, graph.relations@.len()),
        r.0@.len() + r.1@.len() == graph.relations@.len(),
{
    proof {
        lemma_relation_plan_len(*graph, ids@, graph.relations@.len());
    }
    let index = IdIndex::build(&graph.symbols);
    let mut rows: Vec<RelationRow> = Vec::new();
    let mut warnings: Vec<String> = Vec::new();
    let mut k: usize = 0;
    while k < graph.relations.len()
        invariant
            index.wf(graph.symbols@),
            ids@.len() == graph.symbols@.len(),
            k <= graph.relations@.len(),
            (rows@.map_values(|x: RelationRow| row_view(x)), warnings@.map_values(|w: String| w@))
                == relation_plan(*graph, ids@, k as nat),
        decreases graph.relations@.len() - k,
    {
        let rel = &graph.relations[k];
        let ghost prev_rows = rows@;
        let ghost prev_w = warnings@;
        match index.position(&graph.symbols, rel.from) {
            None => {
                warnings.push(skipped_warning("relation skipped: from local_id ", rel.from));
            },
            Some(f) => match index.position(&graph.symbols, rel.to) {
                None => {
                    warnings.push(skipped_warning("relation skipped: to local_id ", rel.to));
                },
                Some(t) => {
                    rows.push(
                        RelationRow {
                            from: ids[f].clone(),
                            to: ids[t].clone(),
                            kind: rel.kind.as_i64(),
                        },
                    );
                },
            },
        }
        proof {
            assert(rows@.map_values(|x: RelationRow| row_view(x)) =~= relation_plan(
                *graph,
                ids@,
                (k + 1) as nat,
            ).0);
            assert(warnings@.map_values(|w: String| w@) =~= relation_plan(
                *graph,
                ids@,
                (k + 1) as nat,
            ).1);
        }
        k = k + 1;
    }
    (rows, warnings)
}

/// How many entries are 1 (a row written) among the first `k`.
pub open spec fn ones(v: Seq<usize>, k: nat) -> nat
    decreases k,
{
    if k == 0 {
        0
    } else {
        ones(v, (k - 1) as nat) + if v[k - 1] == 1 {
            1nat
        } else {
            0nat
        }
    }
}

proof fn lemma_ones_le(v: Seq<usize>, k: nat)
    ensures
        ones(v, k) <= k,
    decreases k,
{
    if k > 0 {
        lemma_ones_le(v, (k - 1) as nat);
    }
}

/// Rows written (a change count of 1) and rows skipped (anything else),
/// from the change counts of `INSERT OR IGNORE` statements.
pub fn tally(changed: &Vec<usize>) -> (r: (u64, u64))
    ensures
        r.0 == ones(changed@, changed@.len()),
        r.0 + r.1 == changed@.len(),
{
    let mut ins: u64 = 0;
    let mut skip: u64 = 0;
    let mut k: usize = 0;
    while k < changed.len()
        invariant
            k <= changed@.len(),
            ins == ones(changed@, k as nat),
            ins + skip == k,
        decreases changed@.len() - k,
    {
        proof {
            lemma_ones_le(changed@, k as nat);
        }
        if changed[k] == 1 {
            ins = ins + 1;
        } else {
            skip = skip + 1;
        }
        k = k + 1;
    }
    (ins, skip)
}

/// The result of an ingest.
pub struct IngestReport {
    pub dump_id: i64,
    pub game_id: String,
    pub game_version: String,
    pub parser: String,
    pub symbols_inserted: u64,
    pub symbols_skipped: u64,
    pub relations_inserted: u64,
    pub relations_skipped: u64,
    pub warnings: Vec<String>,
}

/// The report of an ingest of `graph` as dump `dump_id`, from the change
/// counts of the symbol inserts (one per symbol) and of the relation
/// inserts (one per relation row planned; the other relations each gave
/// one of the `warnings`).
pub fn ingest_report(
    dump_id: i64,
    graph: &SymbolGraph,
    symbol_changes: &Vec<usize>,
    relation_changes: &Vec<usize>,
    warnings: Vec<String>,
) -> (r: IngestReport)
    requires
        symbol_changes@.len() == graph.symbols@.len(),
        relation_changes@.len() + warnings@.len() == graph.relations@.len(),
    ensures
        r.symbols_inserted + r.symbols_skipped == graph.symbols@.len(),
        r.relations_inserted + r.relations_skipped + r.warnings@.len() == graph.relations@.len(),
        r.dump_id == dump_id,
        r.game_id@ == graph.source.game_id@,
        r.game_version@ == graph.source.game_version@,
        r.parser@ == graph.source.parser@,
        r.symbols_inserted == ones(symbol_changes@, symbol_changes@.len()),
        r.symbols_inserted + r.symbols_skipped == symbol_changes@.len(),
        r.relations_inserted == ones(relation_changes@, relation_changes@.len()),
        r.relations_inserted + r.relations_skipped == relation_changes@.len(),
        r.warnings == warnings,
{
    let (si, ss) = tally(symbol_changes);
    let (ri, rs) = tally(relation_changes);
    IngestReport {
        dump_id,
        game_id: graph.source.game_id.clone(),
        game_version: graph.source.game_version.clone(),
        parser: graph.source.parser.clone(),
        symbols_inserted: si,
        symbols_skipped: ss,
        relations_inserted: ri,
        relations_skipped: rs,
        warnings,
    }
}

} // verus!
