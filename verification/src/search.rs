//! The search side that does not touch the index: the schema marker, the
//! query plan, and how a stored document becomes a hit.
use vstd::prelude::*;
use crate::export::hex::{hex_encode, hex_text};
use crate::text::{decimal, str_eq, trim_chars, trim_str, u32_decimal};

verus! {

/// Bumped whenever the index schema changes; an index written under
/// another version is rebuilt.
pub const SCHEMA_VERSION: u32 = 1;

/// Name of the marker file holding the schema version of an index.
pub const SCHEMA_FILE_NAME: &'static str = ".schema-version";

/// The text written into the marker file.
pub fn schema_marker_text() -> (r: String)
    ensures
        r@ == decimal(SCHEMA_VERSION as nat),
{
    u32_decimal(SCHEMA_VERSION)
}

/// Whether a marker file's text names the current schema version
/// (surrounding white space ignored).
pub fn schema_marker_current(raw: &str) -> (r: bool)
    ensures
        r == (trim_chars(raw@) == decimal(SCHEMA_VERSION as nat)),
{
    let t = trim_str(raw);
    let v = u32_decimal(SCHEMA_VERSION);
    str_eq(t, v.as_str())
}

/// Filters: all facets must hold; within one, any value may match.
pub struct SearchFacets {
    pub kinds: Vec<i64>,
    pub modules: Vec<String>,
}

impl Default for SearchFacets {
    fn default() -> (r: SearchFacets)
        ensures
            r.kinds@.len() == 0,
            r.modules@.len() == 0,
    {
        SearchFacets { kinds: Vec::new(), modules: Vec::new() }
    }
}

/// What a search asks the index: a free-text query over fqn and name
/// (`None`: every document), and the facet values (an empty list is no
/// filter).
pub struct QueryPlan {
    pub text: Option<String>,
    pub kinds: Vec<i64>,
    pub modules: Vec<String>,
}

fn copy_texts(v: &Vec<String>) -> (r: Vec<String>)
    ensures
        r@ == v@,
{
    let mut out: Vec<String> = Vec::new();
    let mut k: usize = 0;
    while k < v.len()
        invariant
            k <= v@.len(),
            out@ == v@.take(k as int),
        decreases v@.len() - k,
    {
        out.push(v[k].clone());
        k = k + 1;
        proof {
            assert(out@ =~= v@.take(k as int));
        }
    }
    proof {
        assert(v@.take(k as int) =~= v@);
    }
    out
}

fn copy_codes(v: &Vec<i64>) -> (r: Vec<i64>)
    ensures
        r@ == v@,
{
    let mut out: Vec<i64> = Vec::new();
    let mut k: usize = 0;
    while k < v.len()
        invariant
            k <= v@.len(),
            out@ == v@.take(k as int),
        decreases v@.len() - k,
    {
        out.push(v[k]);
        k = k + 1;
        proof {
            assert(out@ =~= v@.take(k as int));
        }
    }
    proof {
        assert(v@.take(k as int) =~= v@);
    }
    out
}

/// The plan of a search: a blank query matches everything.
pub fn query_plan(query: &str, facets: &SearchFacets) -> (r: QueryPlan)
    ensures
        trim_chars(query@).len() == 0 ==> r.text is None,
        trim_chars(query@).len() > 0 ==> (r.text matches Some(t) && t@ == query@),
        r.kinds@ == facets.kinds@,
        r.modules@ == facets.modules@,
{
    let t = trim_str(query);
    let blank = t.unicode_len() == 0;
    QueryPlan {
        text: if blank {
            None
        } else {
            Some(String::from_str(query))
        },
        kinds: copy_codes(&facets.kinds),
        modules: copy_texts(&facets.modules),
    }
}

/// The fields of a search hit, from what the document stored.
pub struct HitFields {
    pub id_hex: String,
    pub fqn: String,
    pub kind_i: i64,
    pub module: String,
}

/// A hit's fields; a missing id reads as no bytes, a missing fqn or
/// module as empty text, a missing kind as -1.
pub fn hit_fields(id: Option<Vec<u8>>, fqn: Option<String>, kind: Option<i64>, module: Option<
    String,
>) -> (r: HitFields)
    ensures
        r.id_hex@ == hex_text(
            match id {
                Some(b) => b@,
                None => Seq::empty(),
            },
        ),
        r.fqn@ == match fqn {
            Some(s) => s@,
            None => Seq::empty(),
        },
        r.kind_i == match kind {
            Some(k) => k,
            None => -1i64,
        },
        r.module@ == match module {
            Some(s) => s@,
            None => Seq::empty(),
        },
{
    let bytes: Vec<u8> = match id {
        Some(b) => b,
        None => Vec::new(),
    };
    HitFields {
        id_hex: hex_encode(bytes.as_slice()),
        fqn: match fqn {
            Some(s) => s,
            None => String::new(),
        },
        kind_i: match kind {
            Some(k) => k,
            None => -1,
        },
        module: match module {
            Some(s) => s,
            None => String::new(),
        },
    }
}

/// A stored symbol row, as a lookup by id returns it.
pub struct SymbolRow {
    pub id: Vec<u8>,
    pub dump_id: i64,
    pub fqn: String,
    pub name: String,
    pub kind: i64,
    pub module: String,
    pub size: Option<u32>,
    pub align: Option<u32>,
    pub offset: Option<u32>,
    pub vtable_slot: Option<u32>,
    pub type_ref_json: Option<String>,
    pub flags: i64,
    pub source_file: Option<String>,
    pub source_line: Option<u32>,
}

} // verus!
