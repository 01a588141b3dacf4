//! Inputs and outputs of the diff engine, with their mathematical views.
//!
//! Scores are integers: weights and thresholds are in thousandths, and a
//! score is in billionths (a Jaccard similarity in millionths times a
//! weight in thousandths), so `SCORE_ONE` stands for a score of 1.0.
use vstd::prelude::*;
use crate::model::{Symbol, SymbolKind};

verus! {

/// A score of 1.0.
pub const SCORE_ONE: u64 = 1_000_000_000;

/// A Jaccard similarity of 1.0.
pub const JACCARD_ONE: u64 = 1_000_000;

/// Bonus, in thousandths, when both classes inherit from the same parent.
pub const SAME_PARENT_BONUS: u32 = 50;

pub struct DiffConfig {
    /// Score (in thousandths) from which a pair becomes a rename suggestion.
    pub fingerprint_suggestion_threshold: u32,
    /// Score (in thousandths) from which a pair is matched without asking.
    pub fingerprint_confidence_threshold: u32,
    /// Weight (in thousandths) of the member-name similarity.
    pub member_name_weight: u32,
    /// Weight (in thousandths) of the member-type similarity.
    pub member_type_weight: u32,
    /// Bonus (in thousandths) when both symbols sit in the same module.
    pub same_module_bonus: u32,
    /// Member-name prefixes left out of fingerprints (padding fields).
    pub fingerprint_ignore_prefixes: Vec<String>,
}

impl DiffConfig {
    /// Suggestion at 0.70, confidence at 0.90, names 0.6, types 0.3,
    /// same module 0.1; `Pad_` and `UnknownData_` members ignored.
    pub fn standard() -> (r: DiffConfig)
        ensures
            r.fingerprint_suggestion_threshold == 700,
            r.fingerprint_confidence_threshold == 900,
            r.member_name_weight == 600,
            r.member_type_weight == 300,
            r.same_module_bonus == 100,
            r.fingerprint_ignore_prefixes@.len() == 2,
            r.fingerprint_ignore_prefixes@[0]@ == seq!['P', 'a', 'd', '_'],
            r.fingerprint_ignore_prefixes@[1]@ == seq![
                'U', 'n', 'k', 'n', 'o', 'w', 'n', 'D', 'a', 't', 'a', '_'
            ],
    {
        let mut prefixes: Vec<String> = Vec::new();
        proof {
            reveal_strlit("Pad_");
            reveal_strlit("UnknownData_");
        }
        prefixes.push(String::from_str("Pad_"));
        prefixes.push(String::from_str("UnknownData_"));
        DiffConfig {
            fingerprint_suggestion_threshold: 700,
            fingerprint_confidence_threshold: 900,
            member_name_weight: 600,
            member_type_weight: 300,
            same_module_bonus: 100,
            fingerprint_ignore_prefixes: prefixes,
        }
    }
}

impl Default for DiffConfig {
    fn default() -> (r: DiffConfig)
        ensures
            r.fingerprint_suggestion_threshold == 700,
            r.fingerprint_confidence_threshold == 900,
            r.member_name_weight == 600,
            r.member_type_weight == 300,
            r.same_module_bonus == 100,
            r.fingerprint_ignore_prefixes@.len() == 2,
    {
        DiffConfig::standard()
    }
}

#[derive(Debug, Clone, Copy, PartialEq, Eq, Structural)]
pub enum Decision {
    Match,
    Reject,
}

/// A user decision on a (base, head) pair that survives re-running the diff.
pub struct RenameOverride {
    pub base_fqn: String,
    pub head_fqn: String,
    pub decision: Decision,
}

#[derive(Debug)]
pub struct SymbolRef {
    pub fqn: String,
    pub kind: SymbolKind,
    pub module: String,
}

#[derive(Debug, Clone, Copy, PartialEq, Eq, Structural)]
pub enum MatchMethod {
    Exact,
    Fingerprint,
    UserOverride,
}

#[derive(Debug)]
pub struct SymbolMatch {
    pub base: SymbolRef,
    pub head: SymbolRef,
    pub method: MatchMethod,
    /// In billionths (`SCORE_ONE` is 1.0).
    pub score: u64,
}

#[derive(Debug)]
pub struct RenameSuggestion {
    pub base: SymbolRef,
    pub head: SymbolRef,
    /// In billionths (`SCORE_ONE` is 1.0).
    pub score: u64,
}

#[derive(Debug)]
pub enum ChangeKind {
    OffsetChanged { field: String, old_offset: u32, new_offset: u32 },
    SizeChanged { field: String, old_size: u32, new_size: u32 },
    VtableShift { fn_name: String, old_slot: u32, new_slot: u32 },
    ParentClassChanged { old_parent: Option<String>, new_parent: Option<String> },
    FieldAdded { field: String },
    FieldRemoved { field: String },
    FunctionSignatureChanged {
        fn_name: String,
        old_return: Option<String>,
        new_return: Option<String>,
    },
    FieldTypeSubstituted { field: String, old_type: String, new_type: String },
}

#[derive(Debug)]
pub struct FieldChange {
    pub parent_fqn: String,
    pub change: ChangeKind,
}

#[derive(Debug)]
pub struct Diff {
    pub game_id: String,
    pub base_version: String,
    pub head_version: String,
    pub matches: Vec<SymbolMatch>,
    pub added: Vec<SymbolRef>,
    pub removed: Vec<SymbolRef>,
    pub renamed_suggestions: Vec<RenameSuggestion>,
    pub field_changes: Vec<FieldChange>,
}

pub struct ChangeSummary {
    pub matches: usize,
    pub added: usize,
    pub removed: usize,
    pub renamed_suggestions: usize,
    pub field_changes: usize,
}

impl Diff {
    /// Counts of each section.
    pub fn change_summary(&self) -> (r: ChangeSummary)
        ensures
            r.matches == self.matches@.len(),
            r.added == self.added@.len(),
            r.removed == self.removed@.len(),
            r.renamed_suggestions == self.renamed_suggestions@.len(),
            r.field_changes == self.field_changes@.len(),
    {
        ChangeSummary {
            matches: self.matches.len(),
            added: self.added.len(),
            removed: self.removed.len(),
            renamed_suggestions: self.renamed_suggestions.len(),
            field_changes: self.field_changes.len(),
        }
    }
}

// ---------------------------------------------------------------------------
// Views
// ---------------------------------------------------------------------------

pub ghost struct RefV {
    pub fqn: Seq<char>,
    pub kind: SymbolKind,
    pub module: Seq<char>,
}

pub ghost struct MatchV {
    pub base: RefV,
    pub head: RefV,
    pub method: MatchMethod,
    pub score: int,
}

pub ghost struct SuggestionV {
    pub base: RefV,
    pub head: RefV,
    pub score: int,
}

pub ghost enum ChangeV {
    OffsetChanged { field: Seq<char>, old_offset: u32, new_offset: u32 },
    SizeChanged { field: Seq<char>, old_size: u32, new_size: u32 },
    VtableShift { fn_name: Seq<char>, old_slot: u32, new_slot: u32 },
    ParentClassChanged { old_parent: Option<Seq<char>>, new_parent: Option<Seq<char>> },
    FieldAdded { field: Seq<char> },
    FieldRemoved { field: Seq<char> },
    FunctionSignatureChanged {
        fn_name: Seq<char>,
        old_return: Option<Seq<char>>,
        new_return: Option<Seq<char>>,
    },
    FieldTypeSubstituted { field: Seq<char>, old_type: Seq<char>, new_type: Seq<char> },
}

pub ghost struct FieldChangeV {
    pub parent_fqn: Seq<char>,
    pub change: ChangeV,
}

pub ghost struct DiffV {
    pub game_id: Seq<char>,
    pub base_version: Seq<char>,
    pub head_version: Seq<char>,
    pub matches: Seq<MatchV>,
    pub added: Seq<RefV>,
    pub removed: Seq<RefV>,
    pub suggestions: Seq<SuggestionV>,
    pub field_changes: Seq<FieldChangeV>,
}

pub open spec fn opt_text(o: Option<String>) -> Option<Seq<char>> {
    match o {
        Some(s) => Some(s@),
        None => None,
    }
}

impl View for SymbolRef {
    type V = RefV;

    open spec fn view(&self) -> RefV {
        RefV { fqn: self.fqn@, kind: self.kind, module: self.module@ }
    }
}

impl View for SymbolMatch {
    type V = MatchV;

    open spec fn view(&self) -> MatchV {
        MatchV { base: self.base@, head: self.head@, method: self.method, score: self.score as int }
    }
}

impl View for RenameSuggestion {
    type V = SuggestionV;

    open spec fn view(&self) -> SuggestionV {
        SuggestionV { base: self.base@, head: self.head@, score: self.score as int }
    }
}

impl View for ChangeKind {
    type V = ChangeV;

    open spec fn view(&self) -> ChangeV {
        match self {
            ChangeKind::OffsetChanged { field, old_offset, new_offset } => ChangeV::OffsetChanged {
                field: field@,
                old_offset: *old_offset,
                new_offset: *new_offset,
            },
            ChangeKind::SizeChanged { field, old_size, new_size } => ChangeV::SizeChanged {
                field: field@,
                old_size: *old_size,
                new_size: *new_size,
            },
            ChangeKind::VtableShift { fn_name, old_slot, new_slot } => ChangeV::VtableShift {
                fn_name: fn_name@,
                old_slot: *old_slot,
                new_slot: *new_slot,
            },
            ChangeKind::ParentClassChanged { old_parent, new_parent } =>
                ChangeV::ParentClassChanged {
                    old_parent: opt_text(*old_parent),
                    new_parent: opt_text(*new_parent),
                },
            ChangeKind::FieldAdded { field } => ChangeV::FieldAdded { field: field@ },
            ChangeKind::FieldRemoved { field } => ChangeV::FieldRemoved { field: field@ },
            ChangeKind::FunctionSignatureChanged { fn_name, old_return, new_return } =>
                ChangeV::FunctionSignatureChanged {
                    fn_name: fn_name@,
                    old_return: opt_text(*old_return),
                    new_return: opt_text(*new_return),
                },
            ChangeKind::FieldTypeSubstituted { field, old_type, new_type } =>
                ChangeV::FieldTypeSubstituted {
                    field: field@,
                    old_type: old_type@,
                    new_type: new_type@,
                },
        }
    }
}

impl View for FieldChange {
    type V = FieldChangeV;

    open spec fn view(&self) -> FieldChangeV {
        FieldChangeV { parent_fqn: self.parent_fqn@, change: self.change@ }
    }
}

pub open spec fn refs_view(s: Seq<SymbolRef>) -> Seq<RefV> {
    s.map_values(|r: SymbolRef| r@)
}

pub open spec fn matches_view(s: Seq<SymbolMatch>) -> Seq<MatchV> {
    s.map_values(|m: SymbolMatch| m@)
}

pub open spec fn suggestions_view(s: Seq<RenameSuggestion>) -> Seq<SuggestionV> {
    s.map_values(|m: RenameSuggestion| m@)
}

pub open spec fn changes_view(s: Seq<FieldChange>) -> Seq<FieldChangeV> {
    s.map_values(|m: FieldChange| m@)
}

impl View for Diff {
    type V = DiffV;

    open spec fn view(&self) -> DiffV {
        DiffV {
            game_id: self.game_id@,
            base_version: self.base_version@,
            head_version: self.head_version@,
            matches: matches_view(self.matches@),
            added: refs_view(self.added@),
            removed: refs_view(self.removed@),
            suggestions: suggestions_view(self.renamed_suggestions@),
            field_changes: changes_view(self.field_changes@),
        }
    }
}

pub open spec fn ref_of(s: Symbol) -> RefV {
    RefV { fqn: s.fqn@, kind: s.kind, module: s.module@ }
}

/// A reference to the symbol.
pub fn symbol_ref(s: &Symbol) -> (r: SymbolRef)
    ensures
        r@ == ref_of(*s),
{
    SymbolRef { fqn: s.fqn.clone(), kind: s.kind, module: s.module.clone() }
}

} // verus!
