//! The operations the user interface calls, as far as they decide
//! anything: the ping reply, the search limit, id parsing, fqn
//! resolution results and edits of the watched roots.
use vstd::prelude::*;
use vstd::utf8::encode_utf8;
use crate::clock::now_rfc3339;
use crate::error::AppError;
use crate::export::hex::{decode_hex, decoded_id, hex_encode, hex_text};
use crate::export::view::ATLAS_VERSION;
use crate::text::concat;

verus! {

#[derive(Debug)]
pub struct PingResponse {
    pub pong: String,
    pub echoed: Option<String>,
    pub timestamp: String,
    pub version: String,
}

/// The reply to a ping: `pong`, the message echoed, the current time and
/// the version.
pub fn ping(message: Option<String>) -> (r: Result<PingResponse, AppError>)
    ensures
        r matches Ok(p) && p.pong@ == "pong"@ && p.echoed == message && p.version@
            == ATLAS_VERSION@,
{
    Ok(
        PingResponse {
            pong: String::from_str("pong"),
            echoed: message,
            timestamp: now_rfc3339(),
            version: String::from_str(ATLAS_VERSION),
        },
    )
}

/// A dump as the dump list shows it.
pub struct DumpListItem {
    pub id: i64,
    pub game_id: String,
    pub game_version: String,
    pub parser: String,
    pub symbol_count: i64,
    pub ingested_at: String,
}

/// What opening a dump reports.
pub struct OpenDumpInfo {
    pub id: i64,
    pub game_id: String,
    pub game_version: String,
    pub symbol_count: i64,
    pub modules: Vec<String>,
}

/// The number of hits a search returns: 100 unless asked, and within
/// 1 to 1000.
pub fn search_limit(limit: Option<u32>) -> (r: usize)
    ensures
        r == match limit {
            None => 100,
            Some(l) => if l < 1 {
                1
            } else if l > 1000 {
                1000
            } else {
                l as int
            },
        },
{
    match limit {
        None => 100,
        Some(l) => if l < 1 {
            1
        } else if l > 1000 {
            1000
        } else {
            l as usize
        },
    }
}

/// A symbol id from the interface: 32 hex digits, else
/// `invalid id_hex: <text>`.
pub fn parse_symbol_id(id_hex: &String) -> (r: Result<Vec<u8>, AppError>)
    ensures
        match r {
            Ok(v) => decoded_id(encode_utf8(id_hex@)) == Some(v@),
            Err(e) => decoded_id(encode_utf8(id_hex@)) is None && (e matches AppError::Internal(m)
                && m@ == "invalid id_hex: "@ + id_hex@),
        },
{
    match decode_hex(id_hex.as_str()) {
        Some(v) => Ok(v),
        None => Err(AppError::Internal(concat("invalid id_hex: ", id_hex.as_str()))),
    }
}

/// An fqn the interface asked about, with the id and kind of the symbol
/// of that fqn when the dump has one.
pub struct ResolvedSymbol {
    pub fqn: String,
    pub id_hex: Option<String>,
    pub kind_i: Option<i64>,
}

pub fn resolved_symbol(fqn: String, row: Option<(Vec<u8>, i64)>) -> (r: ResolvedSymbol)
    ensures
        r.fqn == fqn,
        match row {
            Some(x) => (r.id_hex matches Some(h) && h@ == hex_text(x.0@)) && r.kind_i == Some(x.1),
            None => r.id_hex is None && r.kind_i is None,
        },
{
    match row {
        Some((bytes, kind)) => ResolvedSymbol {
            fqn,
            id_hex: Some(hex_encode(bytes.as_slice())),
            kind_i: Some(kind),
        },
        None => ResolvedSymbol { fqn, id_hex: None, kind_i: None },
    }
}

/// What the interface sends to preview or write an export.
pub struct ExportRequest {
    pub dump_id: i64,
    pub symbol_ids_hex: Vec<String>,
    pub template_name: String,
    pub project_name: String,
    pub trainer_class_name: String,
    pub process_name: String,
}

pub struct WriteRequest {
    pub req: ExportRequest,
    pub dest_dir: String,
    pub output_filename: String,
}

pub struct WriteResult {
    pub rendered_path: String,
    pub sidecar_path: String,
}

pub open spec fn texts(v: Seq<String>) -> Seq<Seq<char>> {
    v.map_values(|s: String| s@)
}

/// The watched roots with `root` added at the end unless already there.
pub fn add_watcher_root(roots: Vec<String>, root: String) -> (r: Vec<String>)
    ensures
        texts(roots@).contains(root@) ==> r@ == roots@,
        !texts(roots@).contains(root@) ==> r@ == roots@.push(root),
{
    let mut k: usize = 0;
    while k < roots.len()
        invariant
            k <= roots@.len(),
            forall|j: int| 0 <= j < k ==> roots@[j]@ != root@,
        decreases roots@.len() - k,
    {
        if roots[k] == root {
            proof {
                assert(texts(roots@)[k as int] == root@);
            }
            return roots;
        }
        k = k + 1;
    }
    proof {
        if texts(roots@).contains(root@) {
            let j = choose|j: int| 0 <= j < texts(roots@).len() && texts(roots@)[j] == root@;
            assert(roots@[j]@ == root@);
        }
    }
    let mut out = roots;
    out.push(root);
    out
}

/// The watched roots without `root`, in order.
pub fn remove_watcher_root(roots: &Vec<String>, root: &String) -> (r: Vec<String>)
    ensures
        texts(r@) == texts(roots@).filter(|s: Seq<char>| s != root@),
{
    let mut out: Vec<String> = Vec::new();
    let mut k: usize = 0;
    while k < roots.len()
        invariant
            k <= roots@.len(),
            texts(out@) == texts(roots@.take(k as int)).filter(|s: Seq<char>| s != root@),
        decreases roots@.len() - k,
    {
        proof {
            assert(roots@.take(k + 1).drop_last() =~= roots@.take(k as int));
            assert(texts(roots@.take(k + 1)).drop_last() =~= texts(roots@.take(k as int)));
            reveal_with_fuel(Seq::filter, 1);
        }
        if roots[k] != *root {
            out.push(roots[k].clone());
        }
        proof {
            assert(texts(out@) =~= texts(roots@.take(k + 1)).filter(|s: Seq<char>| s != root@));
        }
        k = k + 1;
    }
    proof {
        assert(roots@.take(k as int) =~= roots@);
    }
    out
}

} // verus!
