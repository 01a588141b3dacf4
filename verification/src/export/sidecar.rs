//! The `_atlas.json` sidecar written next to every export, and the saved
//! selection it records.
use vstd::prelude::*;
use vstd::string::StringSliceAdditionalSpecFns;
use crate::clock::now_rfc3339;
use crate::digest::{blake3_digest, blake3_hash};
use crate::export::hex::{hex_encode, hex_text};
use crate::text::concat;

verus! {

pub struct SelectionRules {
    /// Also include each picked symbol's parent class.
    pub include_parents: bool,
    /// How deep to follow the types of selected fields; 0 is off.
    pub type_depth: u32,
}

pub struct Selection {
    /// Hex ids of the symbols the user picked.
    pub symbol_ids_hex: Vec<String>,
    pub rules: SelectionRules,
}

impl Default for Selection {
    fn default() -> (r: Selection)
        ensures
            r.symbol_ids_hex@.len() == 0,
            !r.rules.include_parents,
            r.rules.type_depth == 0,
    {
        Selection {
            symbol_ids_hex: Vec::new(),
            rules: SelectionRules { include_parents: false, type_depth: 0 },
        }
    }
}

/// A saved selection and template pairing the user can run again.
pub struct ExportProject {
    pub id: Option<i64>,
    pub name: String,
    pub dump_id: i64,
    pub template_name: String,
    pub selection: Selection,
}

pub struct SelectionRulesSidecar {
    pub include_parents: bool,
    pub type_depth: u32,
}

pub struct AtlasSidecar {
    pub atlas_version: String,
    pub exported_at: String,
    pub game_id: String,
    pub game_version: String,
    pub dump_id: i64,
    pub template: String,
    /// `blake3:` and the hex digest of the template source.
    pub template_version: String,
    pub symbols: Vec<String>,
    pub selection_rules: SelectionRulesSidecar,
}

/// The version tag of a template source.
pub open spec fn template_version_of(source: Seq<u8>) -> Seq<char> {
    "blake3:"@ + hex_text(blake3_digest(source))
}

/// `blake3:` followed by the lowercase hex BLAKE3 digest of the source.
pub fn template_version(source: &str) -> (r: String)
    ensures
        r@ == template_version_of(source.spec_bytes()),
{
    let d = blake3_hash(source.as_bytes());
    version_from_digest(d.as_slice())
}

/// The version tag for a template whose digest is `digest`: `blake3:`
/// followed by the digest in lowercase hex.
pub fn version_from_digest(digest: &[u8]) -> (r: String)
    ensures
        r@ == "blake3:"@ + hex_text(digest@),
{
    let h = hex_encode(digest);
    concat("blake3:", h.as_str())
}

fn copy_texts(v: &Vec<String>) -> (r: Vec<String>)
    ensures
        r@ == v@,
{
    let mut out: Vec<String> = Vec::new();
    let mut k: usize = 0;
    while k < v.len()
        invariant
            k <= v@.len(),
            out@ == v@.take(k as int),
        decreases v@.len() - k,
    {
        out.push(v[k].clone());
        k = k + 1;
        proof {
            assert(out@ =~= v@.take(k as int));
        }
    }
    proof {
        assert(v@.take(k as int) =~= v@);
    }
    out
}

impl AtlasSidecar {
    /// The sidecar of an export, stamped with the current time.
    pub fn build(
        atlas_version: String,
        game_id: String,
        game_version: String,
        dump_id: i64,
        template_name: String,
        template_source: &str,
        selection: &Selection,
    ) -> (r: AtlasSidecar)
        ensures
            r.atlas_version == atlas_version,
            r.game_id == game_id,
            r.game_version == game_version,
            r.dump_id == dump_id,
            r.template == template_name,
            r.template_version@ == template_version_of(template_source.spec_bytes()),
            r.symbols@ == selection.symbol_ids_hex@,
            r.selection_rules.include_parents == selection.rules.include_parents,
            r.selection_rules.type_depth == selection.rules.type_depth,
    {
        AtlasSidecar {
            atlas_version,
            exported_at: now_rfc3339(),
            game_id,
            game_version,
            dump_id,
            template: template_name,
            template_version: template_version(template_source),
            symbols: copy_texts(&selection.symbol_ids_hex),
            selection_rules: SelectionRulesSidecar {
                include_parents: selection.rules.include_parents,
                type_depth: selection.rules.type_depth,
            },
        }
    }
}

} // verus!
