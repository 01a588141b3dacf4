//! Error types: `AtlasError` for the core, `AppError` for the layer that
//! serves the user interface, which wraps it.
use vstd::prelude::*;
use crate::text::concat;

verus! {

#[derive(Debug)]
pub enum AtlasError {
    Parser(String),
    Storage(String),
    Search(String),
    Diff(String),
    Export(String),
    Io(String),
    InvalidInput(String),
    NotFound(String),
}

/// The category word an error is shown with.
pub open spec fn atlas_label(e: AtlasError) -> Seq<char> {
    match e {
        AtlasError::Parser(_) => "parser: "@,
        AtlasError::Storage(_) => "storage: "@,
        AtlasError::Search(_) => "search: "@,
        AtlasError::Diff(_) => "diff: "@,
        AtlasError::Export(_) => "export: "@,
        AtlasError::Io(_) => "io: "@,
        AtlasError::InvalidInput(_) => "invalid input: "@,
        AtlasError::NotFound(_) => "not found: "@,
    }
}

pub open spec fn atlas_message(e: AtlasError) -> Seq<char> {
    match e {
        AtlasError::Parser(m) => m@,
        AtlasError::Storage(m) => m@,
        AtlasError::Search(m) => m@,
        AtlasError::Diff(m) => m@,
        AtlasError::Export(m) => m@,
        AtlasError::Io(m) => m@,
        AtlasError::InvalidInput(m) => m@,
        AtlasError::NotFound(m) => m@,
    }
}

/// The text of an error: its category, a colon, and its message.
pub open spec fn atlas_text(e: AtlasError) -> Seq<char> {
    atlas_label(e) + atlas_message(e)
}

impl AtlasError {
    /// The error as text, such as `storage: constraint violated`.
    pub fn to_string(&self) -> (r: String)
        ensures
            r@ == atlas_text(*self),
    {
        match self {
            AtlasError::Parser(m) => concat("parser: ", m.as_str()),
            AtlasError::Storage(m) => concat("storage: ", m.as_str()),
            AtlasError::Search(m) => concat("search: ", m.as_str()),
            AtlasError::Diff(m) => concat("diff: ", m.as_str()),
            AtlasError::Export(m) => concat("export: ", m.as_str()),
            AtlasError::Io(m) => concat("io: ", m.as_str()),
            AtlasError::InvalidInput(m) => concat("invalid input: ", m.as_str()),
            AtlasError::NotFound(m) => concat("not found: ", m.as_str()),
        }
    }
}

/// The error type of the operations the user interface calls.
#[derive(Debug)]
pub enum AppError {
    /// An error of the core, shown as is.
    Atlas(AtlasError),
    /// An error of the application shell.
    Tauri(String),
    Internal(String),
}

pub open spec fn app_text(e: AppError) -> Seq<char> {
    match e {
        AppError::Atlas(a) => atlas_text(a),
        AppError::Tauri(m) => "tauri: "@ + m@,
        AppError::Internal(m) => "internal: "@ + m@,
    }
}

impl AppError {
    pub fn to_string(&self) -> (r: String)
        ensures
            r@ == app_text(*self),
    {
        match self {
            AppError::Atlas(a) => a.to_string(),
            AppError::Tauri(m) => concat("tauri: ", m.as_str()),
            AppError::Internal(m) => concat("internal: ", m.as_str()),
        }
    }

    /// Wraps an error of the core.
    pub fn from_atlas(e: AtlasError) -> (r: AppError)
        ensures
            r == AppError::Atlas(e),
    {
        AppError::Atlas(e)
    }
}

} // verus!
