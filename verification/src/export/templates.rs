//! The templates shipped with the application, and the choice between a
//! user's override and the shipped source.
use vstd::prelude::*;
use crate::error::AtlasError;
use crate::text::{concat, str_eq};

verus! {

/// A template the user can export with.
pub struct TemplateInfo {
    pub name: String,
    pub description: String,
    /// Suggested output file name.
    pub default_filename: String,
    /// Loaded from the user's template directory rather than shipped.
    pub overridden: bool,
}

/// How many templates ship with the application.
pub const BUNDLED_COUNT: usize = 4;

/// Name, description and suggested file name of the shipped template at
/// `k`.
pub open spec fn bundled_entry(k: int) -> (Seq<char>, Seq<char>, Seq<char>) {
    if k == 0 {
        (
            "Trainer.cs"@,
            "C# trainer scaffold (single-file console app, matches 2HighInternal style)."@,
            "Trainer.cs"@,
        )
    } else if k == 1 {
        ("Offsets.h"@, "Flat C++ header of static constexpr offsets."@, "Offsets.h"@)
    } else if k == 2 {
        ("IDA-Mapping"@, "IDA mapping snippet (FQN + offset, one per line)."@, "atlas-ida.txt"@)
    } else {
        (
            "Sigscan"@,
            "Pseudo-sigscan snippet — name + offset pairs (placeholder bytes left for user)."@,
            "atlas-sigs.txt"@,
        )
    }
}

/// Name, description and suggested file name of a shipped template.
pub fn bundled_template(k: usize) -> (r: (&'static str, &'static str, &'static str))
    requires
        k < BUNDLED_COUNT,
    ensures
        (r.0@, r.1@, r.2@) == bundled_entry(k as int),
{
    if k == 0 {
        (
            "Trainer.cs",
            "C# trainer scaffold (single-file console app, matches 2HighInternal style).",
            "Trainer.cs",
        )
    } else if k == 1 {
        ("Offsets.h", "Flat C++ header of static constexpr offsets.", "Offsets.h")
    } else if k == 2 {
        ("IDA-Mapping", "IDA mapping snippet (FQN + offset, one per line).", "atlas-ida.txt")
    } else {
        (
            "Sigscan",
            "Pseudo-sigscan snippet — name + offset pairs (placeholder bytes left for user).",
            "atlas-sigs.txt",
        )
    }
}

/// The shipped templates in order, each marked overridden when the
/// user's template directory holds a file of its name.
pub fn available_templates(overridden: &Vec<bool>) -> (r: Result<Vec<TemplateInfo>, AtlasError>)
    requires
        overridden@.len() == BUNDLED_COUNT,
    ensures
        r matches Ok(v) && v@.len() == BUNDLED_COUNT && forall|k: int|
            0 <= k < BUNDLED_COUNT ==> {
                let t = #[trigger] v@[k];
                &&& (t.name@, t.description@, t.default_filename@) == bundled_entry(k)
                &&& t.overridden == overridden@[k]
            },
{
    let mut out: Vec<TemplateInfo> = Vec::new();
    let mut k: usize = 0;
    while k < BUNDLED_COUNT
        invariant
            overridden@.len() == BUNDLED_COUNT,
            k <= BUNDLED_COUNT,
            out@.len() == k,
            forall|j: int|
                0 <= j < k ==> {
                    let t = #[trigger] out@[j];
                    &&& (t.name@, t.description@, t.default_filename@) == bundled_entry(j)
                    &&& t.overridden == overridden@[j]
                },
        decreases BUNDLED_COUNT - k,
    {
        let (name, desc, fname) = bundled_template(k);
        out.push(
            TemplateInfo {
                name: String::from_str(name),
                description: String::from_str(desc),
                default_filename: String::from_str(fname),
                overridden: overridden[k],
            },
        );
        k = k + 1;
    }
    Ok(out)
}

/// Position of the shipped template called `name`.
pub fn bundled_position(name: &str) -> (r: Option<usize>)
    ensures
        r matches Some(k) ==> k < BUNDLED_COUNT && bundled_entry(k as int).0 == name@,
        r is None ==> forall|k: int| 0 <= k < BUNDLED_COUNT ==> bundled_entry(k).0 != name@,
{
    let mut k: usize = 0;
    while k < BUNDLED_COUNT
        invariant
            k <= BUNDLED_COUNT,
            forall|j: int| 0 <= j < k ==> bundled_entry(j).0 != name@,
        decreases BUNDLED_COUNT - k,
    {
        let (n, _, _) = bundled_template(k);
        if str_eq(n, name) {
            return Some(k);
        }
        k = k + 1;
    }
    None
}

/// The source of template `name`: the user's override when there is one
/// (marked `true`), else the shipped source (`false`); an unknown name is
/// an export error.
pub fn load_template_from(name: &str, user_override: Option<String>, bundled_sources: &Vec<String>) -> (r:
    Result<(String, bool), AtlasError>)
    requires
        bundled_sources@.len() == BUNDLED_COUNT,
    ensures
        user_override matches Some(s) ==> r == Ok::<(String, bool), AtlasError>((s, true)),
        user_override is None ==> match r {
            Ok(p) => exists|k: int|
                0 <= k < BUNDLED_COUNT && bundled_entry(k).0 == name@ && p.0@ == bundled_sources@[k]@
                    && !p.1,
            Err(e) => (forall|k: int| 0 <= k < BUNDLED_COUNT ==> bundled_entry(k).0 != name@) && (e matches AtlasError::Export(m)
                && m@ == "unknown template: "@ + name@),
        },
{
    match user_override {
        Some(s) => Ok((s, true)),
        None => match bundled_position(name) {
            Some(k) => Ok((bundled_sources[k].clone(), false)),
            None => Err(AtlasError::Export(concat("unknown template: ", name))),
        },
    }
}

} // verus!
