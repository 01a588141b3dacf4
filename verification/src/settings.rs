//! Persistent user settings and the data-directory layout.
use vstd::prelude::*;
use crate::text::{char_to_string, concat, concat3, u64_decimal};

verus! {

/// Settings file name inside the data directory.
pub const SETTINGS_FILENAME: &'static str = "settings.json";

pub struct AtlasSettings {
    /// Directories the folder watcher monitors for new dumps.
    pub watcher_roots: Vec<String>,
    /// How long a path must stay unchanged before the watcher looks at it.
    pub watcher_debounce_ms: u64,
}

/// Five seconds.
pub fn default_debounce_ms() -> (r: u64)
    ensures
        r == 5000,
{
    5000
}

impl Default for AtlasSettings {
    fn default() -> (r: AtlasSettings)
        ensures
            r.watcher_roots@.len() == 0,
            r.watcher_debounce_ms == 5000,
    {
        AtlasSettings { watcher_roots: Vec::new(), watcher_debounce_ms: default_debounce_ms() }
    }
}

impl AtlasSettings {
    /// The debounce the watcher uses: the setting, but never under half a
    /// second.
    pub fn effective_debounce_ms(&self) -> (r: u64)
        ensures
            r == if self.watcher_debounce_ms < 500 {
                500
            } else {
                self.watcher_debounce_ms
            },
    {
        if self.watcher_debounce_ms < 500 {
            500
        } else {
            self.watcher_debounce_ms
        }
    }
}

/// `dir` joined with the relative name `name`: the separator `sep` goes
/// between them unless `dir` is empty or already ends with one (`/` is a
/// separator on every platform).
pub open spec fn path_join(dir: Seq<char>, name: Seq<char>, sep: char) -> Seq<char> {
    if dir.len() == 0 || dir.last() == '/' || dir.last() == sep {
        dir + name
    } else {
        dir + seq![sep] + name
    }
}

/// `r` is `dir` joined with `name` by the platform's separator, `/` or `\\`.
pub open spec fn joined(r: Seq<char>, dir: Seq<char>, name: Seq<char>) -> bool {
    exists|sep: char|
        (sep == '/' || sep == '\\') && #[trigger] path_join(dir, name, sep) == r
}

/// Calls `std::path::MAIN_SEPARATOR`: the platform's path separator, `/`
/// or, on Windows, `\\`.
#[verifier::external_body]
fn main_separator() -> (r: char)
    ensures
        r == '/' || r == '\\',
{
    std::path::MAIN_SEPARATOR
}

/// `dir` joined with the relative name `name`, as `Path::join` joins a
/// name that has no separator, prefix or root of its own.
pub fn join_path(dir: &str, name: &str) -> (r: String)
    ensures
        joined(r@, dir@, name@),
{
    let sep = main_separator();
    let n = dir.unicode_len();
    if n == 0 || dir.get_char(n - 1) == '/' || dir.get_char(n - 1) == sep {
        let r = concat(dir, name);
        assert(path_join(dir@, name@, sep) == r@);
        r
    } else {
        let s = char_to_string(sep);
        let r = concat3(dir, s.as_str(), name);
        assert(path_join(dir@, name@, sep) =~= r@);
        r
    }
}

/// The database file in the data directory.
pub fn db_path(data_dir: &str) -> (r: String)
    ensures
        joined(r@, data_dir@, "atlas.sqlite"@),
{
    join_path(data_dir, "atlas.sqlite")
}

/// The log directory in the data directory.
pub fn log_dir(data_dir: &str) -> (r: String)
    ensures
        joined(r@, data_dir@, "logs"@),
{
    join_path(data_dir, "logs")
}

/// The search index root in the data directory.
pub fn index_dir(data_dir: &str) -> (r: String)
    ensures
        joined(r@, data_dir@, "index"@),
{
    join_path(data_dir, "index")
}

/// The user's template directory in the data directory.
pub fn templates_dir(data_dir: &str) -> (r: String)
    ensures
        joined(r@, data_dir@, "templates"@),
{
    join_path(data_dir, "templates")
}

/// The settings file in the data directory.
pub fn settings_path(data_dir: &str) -> (r: String)
    ensures
        joined(r@, data_dir@, SETTINGS_FILENAME@),
{
    join_path(data_dir, SETTINGS_FILENAME)
}

/// The index directory of one dump under the index root.
pub fn dump_index_dir(index_root: &str, dump_id: u64) -> (r: String)
    ensures
        joined(r@, index_root@, crate::text::decimal(dump_id as nat)),
{
    let d = u64_decimal(dump_id);
    join_path(index_root, d.as_str())
}

} // verus!
