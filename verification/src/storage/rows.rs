//! A graph rebuilt from the stored rows of one dump: symbols get fresh
//! local ids in row order, and relations are tied to them by the
//! persistent ids of their ends.
use vstd::prelude::*;
use std::collections::HashMap;
use crate::clock::now_rfc3339;
use crate::index::ids_unique;
use crate::error::AppError;
use crate::model::{
    kind_code, relation_code, unpacked_flags, Relation, RelationKind, SourceLoc, SourceMeta,
    Symbol, SymbolFlags, SymbolGraph, SymbolKind, TypeRef,
};
use crate::text::{concat, decimal, u64_decimal};

verus! {

broadcast use vstd::std_specs::hash::group_hash_axioms;

/// A stored symbol row (its type reference already read back).
pub struct StoredSymbol {
    pub id: Vec<u8>,
    pub fqn: String,
    pub name: String,
    pub kind: i64,
    pub module: String,
    pub size: Option<u32>,
    pub align: Option<u32>,
    pub offset: Option<u32>,
    pub vtable_slot: Option<u32>,
    pub type_ref: Option<TypeRef>,
    pub flags: i64,
    pub source_file: Option<String>,
    pub source_line: Option<u32>,
}

/// A stored relation row: the persistent ids of its ends and its kind.
pub struct StoredRelation {
    pub from: Vec<u8>,
    pub to: Vec<u8>,
    pub kind: i64,
}

/// The stored description of a dump.
pub struct DumpMeta {
    pub game_id: String,
    pub game_version: String,
    pub parser: String,
    pub parser_version: String,
    pub sdk_root: String,
    pub ingested_at: String,
}

/// The UTC form of an RFC 3339 timestamp, if the text is one.
pub uninterp spec fn rfc3339_utc(s: Seq<char>) -> Option<Seq<char>>;

/// Calls `chrono::DateTime::parse_from_rfc3339`, converts to UTC and
/// calls `to_rfc3339`. Claims: the result depends on the text alone.
#[verifier::external_body]
fn parse_rfc3339_utc(s: &str) -> (r: Option<String>)
    ensures
        match r {
            Some(t) => rfc3339_utc(s@) == Some(t@),
            None => rfc3339_utc(s@) is None,
        },
{
    match chrono::DateTime::parse_from_rfc3339(s) {
        Ok(d) => Some(d.with_timezone(&chrono::Utc).to_rfc3339()),
        Err(_) => None,
    }
}

/// `i64` in decimal, with a leading `-` when negative.
pub open spec fn signed_decimal(v: int) -> Seq<char> {
    if v < 0 {
        seq!['-'] + decimal((-v) as nat)
    } else {
        decimal(v as nat)
    }
}

fn i64_decimal(v: i64) -> (r: String)
    ensures
        r@ == signed_decimal(v as int),
{
    if v < 0 {
        let mag: u64 = (-(v as i128)) as u64;
        let d = u64_decimal(mag);
        proof {
            reveal_strlit("-");
            assert("-"@ =~= seq!['-']);
        }
        concat("-", d.as_str())
    } else {
        u64_decimal(v as u64)
    }
}

/// The little-endian value of the bytes.
pub open spec fn le_value(s: Seq<u8>) -> nat
    decreases s.len(),
{
    if s.len() == 0 {
        0
    } else {
        s[0] as nat + 256 * le_value(s.drop_first())
    }
}

pub open spec fn pow256(k: nat) -> nat
    decreases k,
{
    if k == 0 {
        1
    } else {
        256 * pow256((k - 1) as nat)
    }
}

proof fn lemma_le_value_injective(a: Seq<u8>, b: Seq<u8>)
    requires
        a.len() == b.len(),
        le_value(a) == le_value(b),
    ensures
        a == b,
    decreases a.len(),
{
    if a.len() > 0 {
        let x = a[0] as nat;
        let y = b[0] as nat;
        let u = le_value(a.drop_first());
        let v = le_value(b.drop_first());
        assert(x == y && u == v) by (nonlinear_arith)
            requires
                x < 256,
                y < 256,
                x + 256 * u == y + 256 * v,
        ;
        lemma_le_value_injective(a.drop_first(), b.drop_first());
        assert(a =~= b) by {
            assert forall|k: int| 0 <= k < a.len() implies a[k] == b[k] by {
                if k > 0 {
                    assert(a.drop_first()[k - 1] == a[k]);
                    assert(b.drop_first()[k - 1] == b[k]);
                }
            }
        }
    }
}

/// The bytes of a 16-byte id as one number.
fn key16(b: &Vec<u8>) -> (r: u128)
    requires
        b@.len() == 16,
    ensures
        r as nat == le_value(b@),
{
    let mut acc: u128 = 0;
    let mut k: usize = 16;
    proof {
        assert(b@.subrange(16, 16) =~= Seq::<u8>::empty());
    }
    while k > 0
        invariant
            b@.len() == 16,
            k <= 16,
            acc as nat == le_value(b@.subrange(k as int, 16)),
            (acc as nat) < pow256((16 - k) as nat),
        decreases k,
    {
        k = k - 1;
        let ghost s = b@.subrange(k as int, 16);
        assert(s.drop_first() =~= b@.subrange(k + 1, 16));
        assert(s[0] == b@[k as int]);
        let ghost p = pow256((15 - k) as nat);
        assert(pow256((16 - k) as nat) == 256 * p);
        proof {
            reveal_with_fuel(pow256, 17);
            assert(pow256(16) == 0x1_0000_0000_0000_0000_0000_0000_0000_0000);
            lemma_pow256_mono((16 - k) as nat, 16);
        }
        assert((acc as nat) * 256 + (b@[k as int] as nat) < 256 * p) by (nonlinear_arith)
            requires
                (acc as nat) < p,
                (b@[k as int] as nat) < 256,
        ;
        acc = acc * 256 + b[k] as u128;
    }
    assert(b@.subrange(0, 16) =~= b@);
    acc
}

proof fn lemma_pow256_mono(i: nat, j: nat)
    requires
        i <= j,
    ensures
        pow256(i) <= pow256(j),
    decreases j,
{
    if i < j {
        lemma_pow256_mono(i, (j - 1) as nat);
        assert(pow256(j) == 256 * pow256((j - 1) as nat));
    }
}

/// Position of the last row among the first `n` whose id is `id`, or -1.
pub open spec fn last_row_with(rows: Seq<StoredSymbol>, id: Seq<u8>, n: int) -> int
    decreases n,
{
    if n <= 0 {
        -1
    } else if rows[n - 1].id@ == id {
        n - 1
    } else {
        last_row_with(rows, id, n - 1)
    }
}

/// Position of the last row among the first `n` with a 16-byte id whose
/// value is `key`, or -1.
pub open spec fn last_row_keyed(rows: Seq<StoredSymbol>, key: nat, n: int) -> int
    decreases n,
{
    if n <= 0 {
        -1
    } else if rows[n - 1].id@.len() == 16 && le_value(rows[n - 1].id@) == key {
        n - 1
    } else {
        last_row_keyed(rows, key, n - 1)
    }
}

proof fn lemma_keyed_is_with(rows: Seq<StoredSymbol>, id: Seq<u8>, n: int)
    requires
        id.len() == 16,
        n <= rows.len(),
    ensures
        last_row_keyed(rows, le_value(id), n) == last_row_with(rows, id, n),
    decreases n,
{
    if n > 0 {
        let r = rows[n - 1].id@;
        if r.len() == 16 && le_value(r) == le_value(id) {
            lemma_le_value_injective(r, id);
        }
        lemma_keyed_is_with(rows, id, n - 1);
    }
}

proof fn lemma_last_row_with(rows: Seq<StoredSymbol>, id: Seq<u8>, n: int)
    requires
        0 <= n <= rows.len(),
    ensures
        -1 <= last_row_with(rows, id, n) < n,
        last_row_with(rows, id, n) >= 0 ==> rows[last_row_with(rows, id, n)].id@ == id,
    decreases n,
{
    if n > 0 {
        lemma_last_row_with(rows, id, n - 1);
    }
}

/// Rows by id: 16-byte ids through a map, any other length by a scan.
struct RowIndex {
    map16: HashMap<u128, u32>,
}

impl RowIndex {
    spec fn wf(&self, rows: Seq<StoredSymbol>) -> bool {
        &&& rows.len() <= u32::MAX + 1
        &&& forall|key: u128| #[trigger]
            self.map16@.contains_key(key) == (last_row_keyed(rows, key as nat, rows.len() as int)
                >= 0)
        &&& forall|key: u128| #[trigger]
            self.map16@.contains_key(key) ==> self.map16@[key] as int == last_row_keyed(
                rows,
                key as nat,
                rows.len() as int,
            )
    }

    fn build(rows: &Vec<StoredSymbol>) -> (r: RowIndex)
        requires
            rows@.len() <= u32::MAX + 1,
        ensures
            r.wf(rows@),
    {
        let mut map16: HashMap<u128, u32> = HashMap::new();
        let mut k: usize = 0;
        while k < rows.len()
            invariant
                k <= rows@.len(),
                rows@.len() <= u32::MAX + 1,
                forall|key: u128| #[trigger]
                    map16@.contains_key(key) == (last_row_keyed(rows@, key as nat, k as int) >= 0),
                forall|key: u128| #[trigger]
                    map16@.contains_key(key) ==> map16@[key] as int == last_row_keyed(
                        rows@,
                        key as nat,
                        k as int,
                    ),
            decreases rows@.len() - k,
        {
            if rows[k].id.len() == 16 {
                let key = key16(&rows[k].id);
                map16.insert(key, k as u32);
            }
            proof {
                assert forall|key: u128| #[trigger]
                    map16@.contains_key(key) == (last_row_keyed(rows@, key as nat, k + 1) >= 0) by {}
            }
            k = k + 1;
        }
        RowIndex { map16 }
    }

    fn find(&self, rows: &Vec<StoredSymbol>, id: &Vec<u8>) -> (r: Option<u32>)
        requires
            self.wf(rows@),
        ensures
            r is None <==> last_row_with(rows@, id@, rows@.len() as int) < 0,
            r matches Some(p) ==> p as int == last_row_with(rows@, id@, rows@.len() as int),
    {
        proof {
            lemma_last_row_with(rows@, id@, rows@.len() as int);
        }
        if id.len() == 16 {
            let key = key16(id);
            proof {
                lemma_keyed_is_with(rows@, id@, rows@.len() as int);
            }
            match self.map16.get(&key) {
                Some(p) => Some(*p),
                None => None,
            }
        } else {
            let mut k = rows.len();
            while k > 0
                invariant
                    k <= rows@.len(),
                    rows@.len() <= u32::MAX + 1,
                    last_row_with(rows@, id@, rows@.len() as int) == last_row_with(
                        rows@,
                        id@,
                        k as int,
                    ),
                decreases k,
            {
                k = k - 1;
                if rows[k].id.len() == id.len() && bytes_equal(&rows[k].id, id) {
                    return Some(k as u32);
                }
            }
            None
        }
    }
}

fn bytes_equal(a: &Vec<u8>, b: &Vec<u8>) -> (r: bool)
    ensures
        r == (a@ == b@),
{
    if a.len() != b.len() {
        return false;
    }
    let mut k: usize = 0;
    while k < a.len()
        invariant
            a@.len() == b@.len(),
            k <= a@.len(),
            forall|j: int| 0 <= j < k ==> a@[j] == b@[j],
        decreases a@.len() - k,
    {
        if a[k] != b[k] {
            return false;
        }
        k = k + 1;
    }
    assert(a@ =~= b@);
    true
}

pub open spec fn row_ok(rows: Seq<StoredSymbol>, k: int) -> bool {
    k <= u32::MAX && 0 <= rows[k].kind <= 7
}

/// The message for the first row that cannot be loaded.
pub open spec fn row_error(rows: Seq<StoredSymbol>, k: int) -> Seq<char> {
    if k > u32::MAX {
        "dump has more than u32::MAX symbols"@
    } else {
        "invalid symbol kind "@ + signed_decimal(rows[k].kind as int) + " for "@ + rows[k].fqn@
    }
}

/// `s` is the symbol loaded from row `r` at position `k`.
pub open spec fn loaded_from(s: Symbol, r: StoredSymbol, k: int) -> bool {
    &&& s.local_id == k
    &&& s.fqn == r.fqn
    &&& s.name == r.name
    &&& kind_code(s.kind) == r.kind
    &&& s.module == r.module
    &&& s.size == r.size
    &&& s.align == r.align
    &&& s.offset == r.offset
    &&& s.vtable_slot == r.vtable_slot
    &&& s.type_ref == r.type_ref
    &&& s.flags == unpacked_flags(r.flags as u32)
    &&& s.source_loc == match (r.source_file, r.source_line) {
        (Some(f), Some(l)) => Some(SourceLoc { file: f, line: l }),
        _ => None,
    }
}

/// The relations loaded from the first `k` stored relations: both ends
/// found among the rows (the last row of each id) and a known kind.
pub open spec fn relations_upto(rows: Seq<StoredSymbol>, rels: Seq<StoredRelation>, k: nat) -> Seq<
    (int, int, i64),
>
    decreases k,
{
    if k == 0 {
        Seq::empty()
    } else {
        let prev = relations_upto(rows, rels, (k - 1) as nat);
        let r = rels[k - 1];
        let f = last_row_with(rows, r.from@, rows.len() as int);
        let t = last_row_with(rows, r.to@, rows.len() as int);
        if f >= 0 && t >= 0 && 0 <= r.kind <= 5 {
            prev.push((f, t, r.kind))
        } else {
            prev
        }
    }
}

pub open spec fn rel_triples(v: Seq<Relation>) -> Seq<(int, int, i64)> {
    v.map_values(|r: Relation| (r.from as int, r.to as int, relation_code(r.kind)))
}

fn load_relations(rows: &Vec<StoredSymbol>, rels: &Vec<StoredRelation>) -> (r: Vec<Relation>)
    requires
        rows@.len() <= u32::MAX + 1,
    ensures
        rel_triples(r@) == relations_upto(rows@, rels@, rels@.len()),
{
    let index = RowIndex::build(rows);
    let mut out: Vec<Relation> = Vec::new();
    let mut k: usize = 0;
    while k < rels.len()
        invariant
            index.wf(rows@),
            k <= rels@.len(),
            rel_triples(out@) == relations_upto(rows@, rels@, k as nat),
        decreases rels@.len() - k,
    {
        let r = &rels[k];
        match (index.find(rows, &r.from), index.find(rows, &r.to), RelationKind::from_i64(r.kind)) {
            (Some(f), Some(t), Some(kind)) => {
                out.push(Relation { from: f, to: t, kind });
                proof {
                    assert(rel_triples(out@) =~= relations_upto(rows@, rels@, (k + 1) as nat));
                }
            },
            _ => {
                proof {
                    assert(rel_triples(out@) =~= relations_upto(rows@, rels@, (k + 1) as nat));
                }
            },
        }
        k = k + 1;
    }
    out
}

proof fn lemma_last_row_same_ids(a: Seq<StoredSymbol>, b: Seq<StoredSymbol>, id: Seq<u8>, n: int)
    requires
        a.len() == b.len(),
        n <= a.len(),
        forall|j: int| 0 <= j < a.len() ==> (#[trigger] a[j]).id == b[j].id,
    ensures
        last_row_with(a, id, n) == last_row_with(b, id, n),
    decreases n,
{
    if n > 0 {
        assert(a[n - 1].id == b[n - 1].id);
        lemma_last_row_same_ids(a, b, id, n - 1);
    }
}

proof fn lemma_relations_same_ids(
    a: Seq<StoredSymbol>,
    b: Seq<StoredSymbol>,
    rels: Seq<StoredRelation>,
    k: nat,
)
    requires
        a.len() == b.len(),
        k <= rels.len(),
        forall|j: int| 0 <= j < a.len() ==> (#[trigger] a[j]).id == b[j].id,
    ensures
        relations_upto(a, rels, k) == relations_upto(b, rels, k),
    decreases k,
{
    if k > 0 {
        lemma_relations_same_ids(a, b, rels, (k - 1) as nat);
        lemma_last_row_same_ids(a, b, rels[k - 1].from@, a.len() as int);
        lemma_last_row_same_ids(a, b, rels[k - 1].to@, a.len() as int);
    }
}

/// The graph of a stored dump: symbols in row order with their positions
/// as local ids, and the relations whose ends and kind are known. The
/// first row past the last local id or with an unknown kind fails the
/// load.
pub fn graph_from_rows(meta: DumpMeta, stored: Vec<StoredSymbol>, rels: &Vec<StoredRelation>) -> (r:
    Result<SymbolGraph, AppError>)
    ensures
        r is Ok <==> forall|k: int| 0 <= k < stored@.len() ==> row_ok(stored@, k),
        r matches Ok(g) ==> {
            &&& g.symbols@.len() == stored@.len()
            &&& forall|k: int| 0 <= k < stored@.len() ==> loaded_from(#[trigger] g.symbols@[k], stored@[k], k)
            &&& ids_unique(g.symbols@)
            &&& rel_triples(g.relations@) == relations_upto(stored@, rels@, rels@.len())
            &&& g.source.game_id == meta.game_id
            &&& g.source.game_version == meta.game_version
            &&& g.source.parser == meta.parser
            &&& g.source.parser_version == meta.parser_version
            &&& g.source.sdk_root == meta.sdk_root
            &&& (rfc3339_utc(meta.ingested_at@) matches Some(t) ==> g.source.ingested_at@ == t)
        },
        r matches Err(e) ==> exists|k: int|
            0 <= k < stored@.len() && !row_ok(stored@, k) && (forall|j: int|
                0 <= j < k ==> row_ok(stored@, j)) && (e matches AppError::Internal(m) && m@
                == row_error(stored@, k)),
{
    let ghost rows0 = stored@;
    let mut rows = stored;
    let mut symbols: Vec<Symbol> = Vec::new();
    let mut k: usize = 0;
    while k < rows.len()
        invariant
            rows0 == stored@,
            rows@.len() == rows0.len(),
            forall|j: int| 0 <= j < rows0.len() ==> (#[trigger] rows@[j]).id == rows0[j].id,
            forall|j: int| 0 <= j < rows0.len() ==> (#[trigger] rows@[j]).kind == rows0[j].kind,
            forall|j: int| 0 <= j < rows0.len() ==> (#[trigger] rows@[j]).fqn == rows0[j].fqn,
            forall|j: int| k <= j < rows0.len() ==> #[trigger] rows@[j] == rows0[j],
            k <= rows0.len(),
            symbols@.len() == k,
            forall|j: int| 0 <= j < k ==> row_ok(rows0, j),
            forall|j: int| 0 <= j < k ==> loaded_from(#[trigger] symbols@[j], rows0[j], j),
        decreases rows0.len() - k,
    {
        if k > 4294967295usize {
            assert(!row_ok(rows0, k as int));
            return Err(AppError::Internal(String::from_str("dump has more than u32::MAX symbols")));
        }
        let kind = match SymbolKind::from_i64(rows[k].kind) {
            Some(kind) => kind,
            None => {
                assert(rows@[k as int] == rows0[k as int]);
                assert(!row_ok(rows0, k as int));
                let d = i64_decimal(rows[k].kind);
                let a = concat("invalid symbol kind ", d.as_str());
                let b = concat(a.as_str(), " for ");
                let m = concat(b.as_str(), rows[k].fqn.as_str());
                return Err(AppError::Internal(m));
            },
        };
        let mut t: Option<TypeRef> = None;
        std::mem::swap(&mut t, &mut rows[k].type_ref);
        let r = &rows[k];
        let source_loc = match (&r.source_file, r.source_line) {
            (Some(f), Some(l)) => Some(SourceLoc { file: f.clone(), line: l }),
            _ => None,
        };
        symbols.push(
            Symbol {
                local_id: k as u32,
                fqn: r.fqn.clone(),
                name: r.name.clone(),
                kind,
                module: r.module.clone(),
                size: r.size,
                align: r.align,
                offset: r.offset,
                vtable_slot: r.vtable_slot,
                type_ref: t,
                flags: SymbolFlags::from_packed(r.flags as u32),
                source_loc,
            },
        );
        k = k + 1;
    }
    proof {
        if rows0.len() > 0 {
            assert(row_ok(rows0, rows0.len() - 1));
        }
        lemma_relations_same_ids(rows@, rows0, rels@, rels@.len());
        assert forall|i: int, j: int|
            0 <= i < symbols@.len() && 0 <= j < symbols@.len() && i != j implies symbols@[i].local_id
            != symbols@[j].local_id by {
            assert(loaded_from(symbols@[i], rows0[i], i));
            assert(loaded_from(symbols@[j], rows0[j], j));
        }
    }
    let relations = load_relations(&rows, rels);
    let ingested_at = match parse_rfc3339_utc(meta.ingested_at.as_str()) {
        Some(t) => t,
        None => now_rfc3339(),
    };
    Ok(
        SymbolGraph {
            source: SourceMeta {
                parser: meta.parser,
                parser_version: meta.parser_version,
                game_id: meta.game_id,
                game_version: meta.game_version,
                ingested_at,
                sdk_root: meta.sdk_root,
            },
            symbols,
            relations,
        },
    )
}

} // verus!
