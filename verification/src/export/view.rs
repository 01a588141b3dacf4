//! What a template sees of each selected symbol.
use vstd::prelude::*;
use crate::clock::now_rfc3339;
use crate::error::AtlasError;
use crate::export::hex::{decode_hex, decoded_id, hex_prefixed, hex_upper, zero_pad};
use crate::model::{kind_code, SymbolKind};
use crate::text::concat;
use vstd::string::StringSliceAdditionalSpecFns;
use vstd::utf8::encode_utf8;

verus! {

pub open spec fn kind_text(k: SymbolKind) -> Seq<char> {
    match k {
        SymbolKind::Module => "module"@,
        SymbolKind::Class => "class"@,
        SymbolKind::Struct => "struct"@,
        SymbolKind::Enum => "enum"@,
        SymbolKind::EnumValue => "enum_value"@,
        SymbolKind::Function => "function"@,
        SymbolKind::Field => "field"@,
        SymbolKind::Parameter => "parameter"@,
    }
}

/// The lowercase word templates use for a kind.
pub fn kind_label(k: SymbolKind) -> (r: &'static str)
    ensures
        r@ == kind_text(k),
{
    match k {
        SymbolKind::Module => "module",
        SymbolKind::Class => "class",
        SymbolKind::Struct => "struct",
        SymbolKind::Enum => "enum",
        SymbolKind::EnumValue => "enum_value",
        SymbolKind::Function => "function",
        SymbolKind::Field => "field",
        SymbolKind::Parameter => "parameter",
    }
}

/// A stored symbol as the export reads it, with the fqn of the class
/// that contains it.
pub struct SymbolRecord {
    pub fqn: String,
    pub name: String,
    pub kind: i64,
    pub module: String,
    pub size: Option<u32>,
    pub align: Option<u32>,
    pub offset: Option<u32>,
    pub vtable_slot: Option<u32>,
    pub parent_fqn: Option<String>,
}

/// A symbol as templates see it: flat, with offsets also in hex.
pub struct SymbolView {
    pub id_hex: String,
    pub fqn: String,
    pub name: String,
    pub kind: String,
    pub kind_i: i64,
    pub module: String,
    pub size: Option<u32>,
    pub align: Option<u32>,
    pub offset: Option<u32>,
    pub offset_hex: Option<String>,
    pub vtable_slot: Option<u32>,
    pub vtable_slot_hex: Option<String>,
    /// For a member: the fqn of the class it belongs to.
    pub parent_fqn: Option<String>,
    pub type_display: Option<String>,
    /// Set for fields, where the user still has to supply a pointer chain.
    pub todo_chain: bool,
}

/// The kind a stored code stands for; unknown codes read as `Module`.
pub open spec fn kind_or_module(code: i64) -> SymbolKind {
    if exists|k: SymbolKind| kind_code(k) == code {
        choose|k: SymbolKind| kind_code(k) == code
    } else {
        SymbolKind::Module
    }
}

pub open spec fn opt_text(o: Option<String>) -> Option<Seq<char>> {
    match o {
        Some(s) => Some(s@),
        None => None,
    }
}

pub open spec fn opt_hex(o: Option<u32>, width: nat) -> Option<Seq<char>> {
    match o {
        Some(n) => Some(seq!['0', 'x'] + zero_pad(hex_upper(n as nat), width)),
        None => None,
    }
}

/// `v` is the view of record `r` under id `id`.
pub open spec fn is_view_of(v: SymbolView, id: Seq<char>, r: SymbolRecord) -> bool {
    let k = kind_or_module(r.kind);
    &&& v.id_hex@ == id
    &&& v.fqn@ == r.fqn@
    &&& v.name@ == r.name@
    &&& v.kind@ == kind_text(k)
    &&& v.kind_i == r.kind
    &&& v.module@ == r.module@
    &&& v.size == r.size
    &&& v.align == r.align
    &&& v.offset == r.offset
    &&& opt_text(v.offset_hex) == opt_hex(r.offset, 0)
    &&& v.vtable_slot == r.vtable_slot
    &&& opt_text(v.vtable_slot_hex) == opt_hex(r.vtable_slot, 2)
    &&& opt_text(v.parent_fqn) == opt_text(r.parent_fqn)
    &&& v.type_display is None
    &&& v.todo_chain == (k == SymbolKind::Field)
}

fn clone_opt(o: &Option<String>) -> (r: Option<String>)
    ensures
        opt_text(r) == opt_text(*o),
{
    match o {
        Some(s) => Some(s.clone()),
        None => None,
    }
}

/// The view of a stored symbol.
pub fn symbol_view(id_hex: &String, r: &SymbolRecord) -> (v: SymbolView)
    ensures
        is_view_of(v, id_hex@, *r),
{
    let k = match SymbolKind::from_i64(r.kind) {
        Some(k) => k,
        None => SymbolKind::Module,
    };
    assert(k == kind_or_module(r.kind));
    SymbolView {
        id_hex: id_hex.clone(),
        fqn: r.fqn.clone(),
        name: r.name.clone(),
        kind: String::from_str(kind_label(k)),
        kind_i: r.kind,
        module: r.module.clone(),
        size: r.size,
        align: r.align,
        offset: r.offset,
        offset_hex: match r.offset {
            Some(o) => Some(hex_prefixed(o, 0)),
            None => None,
        },
        vtable_slot: r.vtable_slot,
        vtable_slot_hex: match r.vtable_slot {
            Some(s) => Some(hex_prefixed(s, 2)),
            None => None,
        },
        parent_fqn: clone_opt(&r.parent_fqn),
        type_display: None,
        todo_chain: k == SymbolKind::Field,
    }
}

pub open spec fn id_bytes(s: String) -> Seq<u8> {
    encode_utf8(s@)
}

/// The ids decoded, in order; the first id that is not 32 hex digits
/// fails the whole selection with `bad id_hex: <id>`.
pub fn decode_ids(ids: &Vec<String>) -> (r: Result<Vec<Vec<u8>>, AtlasError>)
    ensures
        r is Ok <==> forall|k: int|
            0 <= k < ids@.len() ==> decoded_id(id_bytes(#[trigger] ids@[k])) is Some,
        r matches Ok(v) ==> v@.len() == ids@.len() && forall|k: int|
            0 <= k < ids@.len() ==> decoded_id(id_bytes(#[trigger] ids@[k])) == Some(v@[k]@),
        r matches Err(e) ==> exists|k: int|
            0 <= k < ids@.len() && decoded_id(id_bytes(#[trigger] ids@[k])) is None && (forall|j: int|
                0 <= j < k ==> decoded_id(id_bytes(#[trigger] ids@[j])) is Some) && (e matches AtlasError::Export(m)
                && m@ == "bad id_hex: "@ + ids@[k]@),
{
    let mut out: Vec<Vec<u8>> = Vec::new();
    let mut k: usize = 0;
    while k < ids.len()
        invariant
            k <= ids@.len(),
            out@.len() == k,
            forall|j: int|
                0 <= j < k ==> decoded_id(id_bytes(#[trigger] ids@[j])) == Some(out@[j]@),
        decreases ids@.len() - k,
    {
        match decode_hex(ids[k].as_str()) {
            Some(b) => {
                out.push(b);
            },
            None => {
                let m = concat("bad id_hex: ", ids[k].as_str());
                return Err(AtlasError::Export(m));
            },
        }
        k = k + 1;
    }
    Ok(out)
}

pub open spec fn views_upto(ids: Seq<String>, recs: Seq<Option<SymbolRecord>>, k: nat) -> Seq<
    (Seq<char>, SymbolRecord),
>
    decreases k,
{
    if k == 0 {
        Seq::empty()
    } else {
        let prev = views_upto(ids, recs, (k - 1) as nat);
        match recs[k - 1] {
            Some(r) => prev.push((ids[k - 1]@, r)),
            None => prev,
        }
    }
}

/// The views of the records found, in the order of the ids; an id whose
/// record was not found is left out.
pub fn assemble_views(ids: &Vec<String>, records: &Vec<Option<SymbolRecord>>) -> (r: Vec<
    SymbolView,
>)
    requires
        records@.len() == ids@.len(),
    ensures
        r@.len() == views_upto(ids@, records@, ids@.len()).len(),
        forall|k: int|
            0 <= k < r@.len() ==> is_view_of(
                #[trigger] r@[k],
                views_upto(ids@, records@, ids@.len())[k].0,
                views_upto(ids@, records@, ids@.len())[k].1,
            ),
{
    let mut out: Vec<SymbolView> = Vec::new();
    let mut k: usize = 0;
    while k < ids.len()
        invariant
            records@.len() == ids@.len(),
            k <= ids@.len(),
            out@.len() == views_upto(ids@, records@, k as nat).len(),
            forall|j: int|
                0 <= j < out@.len() ==> is_view_of(
                    #[trigger] out@[j],
                    views_upto(ids@, records@, k as nat)[j].0,
                    views_upto(ids@, records@, k as nat)[j].1,
                ),
        decreases ids@.len() - k,
    {
        match &records[k] {
            Some(r) => {
                let v = symbol_view(&ids[k], r);
                out.push(v);
            },
            None => {},
        }
        k = k + 1;
    }
    out
}

/// Everything a template render receives.
pub struct ExportContext {
    pub atlas_version: String,
    pub generated_at: String,
    pub game_id: String,
    pub game_version: String,
    pub dump_id: i64,
    pub project_name: String,
    pub trainer_class_name: String,
    pub process_name: String,
    pub symbols: Vec<SymbolView>,
}

/// The version written into exports and sidecars.
pub const ATLAS_VERSION: &'static str = "0.1.0";

/// The context of one export, stamped with the current time.
pub fn export_context(
    game_id: String,
    game_version: String,
    dump_id: i64,
    project_name: &str,
    trainer_class_name: &str,
    process_name: &str,
    symbols: Vec<SymbolView>,
) -> (r: ExportContext)
    ensures
        r.atlas_version@ == ATLAS_VERSION@,
        r.game_id == game_id,
        r.game_version == game_version,
        r.dump_id == dump_id,
        r.project_name@ == project_name@,
        r.trainer_class_name@ == trainer_class_name@,
        r.process_name@ == process_name@,
        r.symbols == symbols,
{
    ExportContext {
        atlas_version: String::from_str(ATLAS_VERSION),
        generated_at: now_rfc3339(),
        game_id,
        game_version,
        dump_id,
        project_name: String::from_str(project_name),
        trainer_class_name: String::from_str(trainer_class_name),
        process_name: String::from_str(process_name),
        symbols,
    }
}

} // verus!
