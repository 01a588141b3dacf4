use atlas_core::diff::engine::diff;
use atlas_core::diff::types::{ChangeKind, Decision, DiffConfig, MatchMethod, RenameOverride};
use atlas_core::dumper7::{parse_sources, SdkInfo, SdkJson, SourceFile, PARSER_NAME, PARSER_VERSION};
use atlas_core::model::{RelationKind, SymbolGraph, SymbolKind, TypeRef};
use atlas_core::reporter::{CollectingReporter, NullReporter};
use atlas_core::storage::ingest::{
    ingest_report, plan_relations, symbol_id, symbol_id_input, symbol_ids,
};
use atlas_core::storage::rows::{graph_from_rows, DumpMeta, StoredRelation, StoredSymbol};

const V1_CLASSES: &str = r#"#pragma once

// Dumper-7 style dump of TinyGame (version 1.0.0)

namespace SDK
{

// Class TinyGame.UObject
// 0x0010 (0x0010 - 0x0000)
class UObject
{
public:
	int32_t                                       Flags;                                             // 0x0008(0x0004)(Edit, NativeAccessSpecifierPublic)
};

// Class TinyGame.AActor
// 0x0030 (0x0040 - 0x0010)
class AActor : public UObject
{
public:
	UObject*                                      Owner;                                             // 0x0010(0x0008)(NativeAccessSpecifierPublic)

	virtual void Tick(float DeltaSeconds); // [0x00] (Virtual)
	virtual void BeginPlay(); // [0x01] (Virtual)
};

// Class TinyGame.APawn
// 0x0010 (0x0050 - 0x0040)
class APawn : public AActor
{
public:
	int32_t                                       Speed;                                             // 0x0040(0x0004)(Edit, NativeAccessSpecifierPublic)
	int32_t                                       Health;                                            // 0x0044(0x0004)(Edit, NativeAccessSpecifierPublic)
};

// Class TinyGame.AItem
// 0x0008 (0x0048 - 0x0040)
class AItem : public AActor
{
public:
	int32_t                                       Value;                                             // 0x0018(0x0004)(Edit, NativeAccessSpecifierPublic)
	float                                         Weight;                                            // 0x001C(0x0004)(Edit, NativeAccessSpecifierPublic)
};

// Class TinyGame.APlayer
// 0x0008 (0x0058 - 0x0050)
class APlayer : public APawn
{
public:
	int32_t                                       Score;                                             // 0x0050(0x0004)(Edit, NativeAccessSpecifierPublic)
	int32_t                                       Lives;                                             // 0x0054(0x0004)(Edit, NativeAccessSpecifierPublic)
};

}
"#;

const V2_CLASSES: &str = r#"#pragma once

// Dumper-7 style dump of TinyGame (version 2.0.0)

namespace SDK
{

// Class TinyGame.UObject
class UObject
{
public:
	int32_t                                       Flags;                                             // 0x0008(0x0004)(Edit, NativeAccessSpecifierPublic)
};

// Class TinyGame.AActor
class AActor : public UObject
{
public:
	UObject*                                      Owner;                                             // 0x0010(0x0008)(NativeAccessSpecifierPublic)

	virtual void Tick(float DeltaSeconds); // [0x00] (Virtual)
	virtual void BeginPlay(); // [0x01] (Virtual)
};

// Class TinyGame.APawn
class APawn : public AActor
{
public:
	float                                         Speed;                                             // 0x0048(0x0004)(Edit, NativeAccessSpecifierPublic)
	int32_t                                       Health;                                            // 0x0044(0x0004)(Edit, NativeAccessSpecifierPublic)
};

// Class TinyGame.APickup
class APickup : public AActor
{
public:
	int32_t                                       Value;                                             // 0x0018(0x0004)(Edit, NativeAccessSpecifierPublic)
	float                                         Weight;                                            // 0x001C(0x0004)(Edit, NativeAccessSpecifierPublic)
};

// Class TinyGame.APlayer
class APlayer : public APawn
{
public:
	int32_t                                       Score;                                             // 0x0050(0x0004)(Edit, NativeAccessSpecifierPublic)
};

// Class TinyGame.ATrap
class ATrap : public AActor
{
public:
	uint8_t                                       Armed;                                             // 0x0018(0x0001)(Edit, NativeAccessSpecifierPublic)
};

}
"#;

const STRUCTS: &str = r#"#pragma once

namespace SDK
{

// Enum TinyGame.EColor
enum class EColor : uint8_t
{
	Red                                      = 0,
	Green                                    = 1,
	Blue                                     = 2,
	Yellow                                   = 3,
};

}
"#;

const SDK_MANIFEST: &str = r#"#pragma once

#include "SDK/TinyGame_classes.hpp"
#include "SDK/TinyGame_structs.hpp"
"#;

fn file(stem: &str, contents: &str) -> SourceFile {
    let basename = format!("{stem}.hpp");
    SourceFile {
        stem: stem.to_string(),
        basename: basename.clone(),
        display_path: format!("/fixtures/{basename}"),
        relative_path: basename,
        contents: Ok(contents.to_string()),
    }
}

fn fixture_files(version: u32) -> Vec<SourceFile> {
    let classes = if version == 1 { V1_CLASSES } else { V2_CLASSES };
    vec![
        file("SDK", SDK_MANIFEST),
        file("TinyGame_classes", classes),
        file("TinyGame_structs", STRUCTS),
    ]
}

fn synthetic(version: u32) -> SymbolGraph {
    let info = SdkInfo::from_json(SdkJson {
        game: None,
        flat_name: Some("TinyGame".to_string()),
        flat_version: Some(format!("{version}.0.0")),
    });
    let mut reporter = NullReporter;
    parse_sources(
        &fixture_files(version),
        info.game_name,
        info.game_version,
        format!("/fixtures/tiny-game-v{version}"),
        &mut reporter,
    )
    .expect("parse")
}

fn find<'a>(g: &'a SymbolGraph, fqn: &str) -> &'a atlas_core::model::Symbol {
    g.symbols.iter().find(|s| s.fqn == fqn).unwrap_or_else(|| panic!("{fqn} missing"))
}

// ----- parsing -----

#[test]
fn tiny_game_v1_parses_with_expected_top_level_counts() {
    let g = synthetic(1);
    assert_eq!(g.source.game_id, "TinyGame");
    assert_eq!(g.source.game_version, "1.0.0");
    let classes = g.symbols.iter().filter(|s| s.kind == SymbolKind::Class).count();
    assert_eq!(classes, 5, "expected 5 classes (UObject, AActor, APawn, AItem, APlayer)");
    let enums = g.symbols.iter().filter(|s| s.kind == SymbolKind::Enum).count();
    assert_eq!(enums, 1);
    let enum_values = g.symbols.iter().filter(|s| s.kind == SymbolKind::EnumValue).count();
    assert_eq!(enum_values, 4);
}

#[test]
fn tiny_game_v1_captures_field_offsets() {
    let g = synthetic(1);
    let speed = find(&g, "TinyGame.APawn.Speed");
    assert_eq!(speed.offset, Some(0x40));
    assert_eq!(speed.size, Some(4));
    assert_eq!(speed.kind, SymbolKind::Field);
}

#[test]
fn tiny_game_v1_captures_vtable_slots() {
    let g = synthetic(1);
    let tick = find(&g, "TinyGame.AActor.Tick");
    assert_eq!(tick.vtable_slot, Some(0));
    assert!(tick.flags.virtual_fn, "Tick should be virtual");
    let begin_play = find(&g, "TinyGame.AActor.BeginPlay");
    assert_eq!(begin_play.vtable_slot, Some(1));
}

#[test]
fn tiny_game_v1_captures_enum_values() {
    let g = synthetic(1);
    assert_eq!(find(&g, "TinyGame.EColor.Red").offset, Some(0));
    assert_eq!(find(&g, "TinyGame.EColor.Yellow").offset, Some(3));
}

#[test]
fn tiny_game_v1_records_inheritance_relation() {
    let g = synthetic(1);
    let apawn = find(&g, "TinyGame.APawn");
    let aactor = find(&g, "TinyGame.AActor");
    let found = g.relations.iter().any(|r| {
        r.from == apawn.local_id && r.to == aactor.local_id && r.kind == RelationKind::Inherits
    });
    assert!(found, "APawn should inherit from AActor");
}

#[test]
fn tiny_game_v2_has_new_class_and_renamed_class() {
    let g = synthetic(2);
    assert!(g.symbols.iter().any(|s| s.fqn == "TinyGame.ATrap"), "v2 should add ATrap");
    assert!(g.symbols.iter().any(|s| s.fqn == "TinyGame.APickup"), "v2 should have APickup");
    assert!(!g.symbols.iter().any(|s| s.fqn == "TinyGame.AItem"), "v2 should NOT have AItem");
}

#[test]
fn tiny_game_v2_has_speed_type_substituted_to_float() {
    let g = synthetic(2);
    let speed = find(&g, "TinyGame.APawn.Speed");
    match speed.type_ref.as_ref().expect("type_ref") {
        TypeRef::Builtin { name, .. } => assert_eq!(name, "float"),
        other => panic!("expected Builtin(float), got {other:?}"),
    }
}

#[test]
fn tiny_game_v1_no_warnings_on_clean_fixture() {
    let mut r = CollectingReporter::new();
    let info = SdkInfo::from_json(SdkJson {
        game: None,
        flat_name: Some("TinyGame".to_string()),
        flat_version: Some("1.0.0".to_string()),
    });
    let _ = parse_sources(
        &fixture_files(1),
        info.game_name,
        info.game_version,
        "/fixtures/tiny-game-v1".to_string(),
        &mut r,
    )
    .expect("parse");
    let warnings = r.take_warnings();
    assert!(warnings.is_empty(), "expected no parser warnings, got: {warnings:?}");
    assert!(r.progress_calls() >= 2);
}

#[test]
fn parsed_graph_is_closed_and_tagged() {
    let g = synthetic(1);
    assert_eq!(g.source.parser, PARSER_NAME);
    assert_eq!(g.source.parser_version, PARSER_VERSION);
    for (p, s) in g.symbols.iter().enumerate() {
        assert_eq!(s.local_id as usize, p);
        assert_eq!(s.module, "TinyGame");
    }
    for r in &g.relations {
        assert!((r.from as usize) < g.symbols.len());
        assert!((r.to as usize) < g.symbols.len());
    }
    let owner = find(&g, "TinyGame.AActor.Owner");
    assert_eq!(owner.offset, Some(0x10));
    assert_eq!(owner.type_ref.as_ref().unwrap().modifiers().pointer_depth, 1);
    let flags = find(&g, "TinyGame.UObject.Flags");
    assert!(flags.flags.public);
}

#[test]
fn unreadable_file_becomes_a_warning() {
    let mut files = fixture_files(1);
    files.push(SourceFile {
        stem: "Broken_classes".to_string(),
        basename: "Broken_classes.hpp".to_string(),
        display_path: "/fixtures/Broken_classes.hpp".to_string(),
        relative_path: "Broken_classes.hpp".to_string(),
        contents: Err("permission denied".to_string()),
    });
    let mut r = CollectingReporter::new();
    let g = parse_sources(&files, "G".to_string(), "1".to_string(), "/x".to_string(), &mut r)
        .expect("parse");
    let warnings = r.take_warnings();
    assert!(!warnings.is_empty());
    assert!(warnings[0].contains("permission denied"));
    assert!(!g.symbols.iter().any(|s| s.module == "Broken"));
    assert_eq!(warnings.last().map(String::as_str), Some("parser ran with 1 warning(s)"));
    // The manifest SDK.hpp is skipped before any progress is reported.
    assert_eq!(r.progress_calls(), (files.len() - 1) as u64);
}

// ----- diff -----

#[test]
fn exact_match_carries_most_symbols() {
    let d = diff(&synthetic(1), &synthetic(2), &DiffConfig::default(), &[]);
    let exact = d.matches.iter().filter(|m| matches!(m.method, MatchMethod::Exact)).count();
    assert!(exact >= 4, "expected at least 4 exact matches, got {exact}");
}

#[test]
fn added_class_atrap_appears_in_added_list() {
    let d = diff(&synthetic(1), &synthetic(2), &DiffConfig::default(), &[]);
    assert!(d.added.iter().any(|s| s.fqn == "TinyGame.ATrap"), "ATrap missing from added: {:?}", d.added);
}

#[test]
fn rename_aitem_to_apickup_is_detected() {
    let d = diff(&synthetic(1), &synthetic(2), &DiffConfig::default(), &[]);
    let confident = d.matches.iter().find(|m| {
        matches!(m.method, MatchMethod::Fingerprint)
            && m.base.fqn == "TinyGame.AItem"
            && m.head.fqn == "TinyGame.APickup"
    });
    let suggested = d
        .renamed_suggestions
        .iter()
        .find(|r| r.base.fqn == "TinyGame.AItem" && r.head.fqn == "TinyGame.APickup");
    assert!(
        confident.is_some() || suggested.is_some(),
        "expected AItem->APickup match or suggestion; matches={:?} suggestions={:?}",
        d.matches,
        d.renamed_suggestions
    );
}

#[test]
fn lower_threshold_produces_suggestion_not_match() {
    let cfg = DiffConfig { fingerprint_confidence_threshold: 1500, ..DiffConfig::default() };
    let d = diff(&synthetic(1), &synthetic(2), &cfg, &[]);
    assert!(
        d.renamed_suggestions
            .iter()
            .any(|r| r.base.fqn == "TinyGame.AItem" && r.head.fqn == "TinyGame.APickup"),
        "expected AItem->APickup in suggestions with raised threshold; got: {:?}",
        d.renamed_suggestions
    );
}

#[test]
fn user_override_match_short_circuits_suggestion() {
    let overrides = vec![RenameOverride {
        base_fqn: "TinyGame.AItem".into(),
        head_fqn: "TinyGame.APickup".into(),
        decision: Decision::Match,
    }];
    let d = diff(&synthetic(1), &synthetic(2), &DiffConfig::default(), &overrides);
    assert!(d.renamed_suggestions.is_empty());
    assert!(
        d.matches
            .iter()
            .any(|m| matches!(m.method, MatchMethod::UserOverride) && m.base.fqn == "TinyGame.AItem"),
        "override match missing"
    );
}

#[test]
fn user_override_reject_excludes_from_suggestions() {
    let overrides = vec![RenameOverride {
        base_fqn: "TinyGame.AItem".into(),
        head_fqn: "TinyGame.APickup".into(),
        decision: Decision::Reject,
    }];
    let d = diff(&synthetic(1), &synthetic(2), &DiffConfig::default(), &overrides);
    assert!(d
        .renamed_suggestions
        .iter()
        .all(|r| !(r.base.fqn == "TinyGame.AItem" && r.head.fqn == "TinyGame.APickup")));
}

#[test]
fn offset_shift_in_apawn_is_detected() {
    let d = diff(&synthetic(1), &synthetic(2), &DiffConfig::default(), &[]);
    let speed_offset = d.field_changes.iter().find(|fc| {
        fc.parent_fqn == "TinyGame.APawn"
            && matches!(&fc.change, ChangeKind::OffsetChanged { field, .. } if field == "Speed")
    });
    assert!(speed_offset.is_some(), "expected APawn.Speed offset shift, got: {:?}", d.field_changes);
}

#[test]
fn removed_field_lives_field_change() {
    let d = diff(&synthetic(1), &synthetic(2), &DiffConfig::default(), &[]);
    let removed = d.field_changes.iter().find(|fc| {
        fc.parent_fqn == "TinyGame.APlayer"
            && matches!(&fc.change, ChangeKind::FieldRemoved { field } if field == "Lives")
    });
    assert!(removed.is_some(), "expected APlayer.Lives removal, got: {:?}", d.field_changes);
}

#[test]
fn type_substitution_speed_int_to_float() {
    let d = diff(&synthetic(1), &synthetic(2), &DiffConfig::default(), &[]);
    let sub = d.field_changes.iter().find(|fc| {
        fc.parent_fqn == "TinyGame.APawn"
            && matches!(&fc.change, ChangeKind::FieldTypeSubstituted { field, .. } if field == "Speed")
    });
    assert!(sub.is_some(), "expected APawn.Speed type substitution, got: {:?}", d.field_changes);
}

#[test]
fn rename_score_is_names_types_module_and_parent() {
    let cfg = DiffConfig { fingerprint_confidence_threshold: 1500, ..DiffConfig::default() };
    let d = diff(&synthetic(1), &synthetic(2), &cfg, &[]);
    let s = d
        .renamed_suggestions
        .iter()
        .find(|r| r.base.fqn == "TinyGame.AItem")
        .expect("suggestion");
    // 0.6 (names) + 0.3 (types) + 0.1 (module) + 0.05 (parent) = 1.05
    assert_eq!(s.score, 1_050_000_000);
}

#[test]
fn confident_rename_with_default_thresholds() {
    let d = diff(&synthetic(1), &synthetic(2), &DiffConfig::default(), &[]);
    let m = d
        .matches
        .iter()
        .find(|m| m.base.fqn == "TinyGame.AItem")
        .expect("AItem matched");
    assert_eq!(m.head.fqn, "TinyGame.APickup");
    assert!(matches!(m.method, MatchMethod::Fingerprint));
    assert!(!d.removed.iter().any(|s| s.fqn == "TinyGame.AItem"));
    assert!(!d.added.iter().any(|s| s.fqn == "TinyGame.APickup"));
}

#[test]
fn self_diff_reports_nothing_changed() {
    let g = synthetic(1);
    let d = diff(&g, &synthetic(1), &DiffConfig::default(), &[]);
    assert!(d.added.is_empty());
    assert!(d.removed.is_empty());
    assert!(d.renamed_suggestions.is_empty());
    assert!(d.field_changes.is_empty());
    assert!(d.matches.iter().all(|m| matches!(m.method, MatchMethod::Exact) && m.base.fqn == m.head.fqn));
    let tops = g
        .symbols
        .iter()
        .filter(|s| matches!(s.kind, SymbolKind::Class | SymbolKind::Struct | SymbolKind::Enum))
        .count();
    assert_eq!(d.matches.len(), tops);
    let summary = d.change_summary();
    assert_eq!(summary.matches, tops);
    assert_eq!(summary.field_changes, 0);
}

#[test]
fn every_top_level_symbol_is_matched_or_listed() {
    let base = synthetic(1);
    let head = synthetic(2);
    let d = diff(&base, &head, &DiffConfig::default(), &[]);
    for s in base.symbols.iter().filter(|s| matches!(s.kind, SymbolKind::Class | SymbolKind::Struct | SymbolKind::Enum)) {
        let matched = d.matches.iter().any(|m| m.base.fqn == s.fqn);
        let removed = d.removed.iter().any(|r| r.fqn == s.fqn);
        assert!(matched != removed, "{} matched={matched} removed={removed}", s.fqn);
    }
    for s in head.symbols.iter().filter(|s| matches!(s.kind, SymbolKind::Class | SymbolKind::Struct | SymbolKind::Enum)) {
        let matched = d.matches.iter().any(|m| m.head.fqn == s.fqn);
        let added = d.added.iter().any(|r| r.fqn == s.fqn);
        assert!(matched != added, "{} matched={matched} added={added}", s.fqn);
    }
}

#[test]
fn swapping_graphs_mirrors_exact_matches() {
    let v1 = synthetic(1);
    let v2 = synthetic(2);
    let d12 = diff(&v1, &v2, &DiffConfig::default(), &[]);
    let d21 = diff(&v2, &v1, &DiffConfig::default(), &[]);
    let mut forward: Vec<String> = d12
        .matches
        .iter()
        .filter(|m| matches!(m.method, MatchMethod::Exact))
        .map(|m| m.base.fqn.clone())
        .collect();
    let mut backward: Vec<String> = d21
        .matches
        .iter()
        .filter(|m| matches!(m.method, MatchMethod::Exact))
        .map(|m| m.head.fqn.clone())
        .collect();
    forward.sort();
    backward.sort();
    assert_eq!(forward, backward);
    assert_eq!(forward.len(), 5);
}

#[test]
fn swapping_graphs_exchanges_added_and_removed() {
    let cfg = DiffConfig {
        fingerprint_suggestion_threshold: 2000,
        fingerprint_confidence_threshold: 2000,
        ..DiffConfig::default()
    };
    let v1 = synthetic(1);
    let v2 = synthetic(2);
    let d12 = diff(&v1, &v2, &cfg, &[]);
    let d21 = diff(&v2, &v1, &cfg, &[]);
    let fqns = |v: &Vec<atlas_core::diff::types::SymbolRef>| -> Vec<String> {
        v.iter().map(|r| r.fqn.clone()).collect()
    };
    assert_eq!(fqns(&d12.removed), vec!["TinyGame.AItem".to_string()]);
    assert_eq!(fqns(&d12.removed), fqns(&d21.added));
    assert_eq!(fqns(&d12.added), fqns(&d21.removed));
    assert_eq!(fqns(&d12.added), vec!["TinyGame.APickup".to_string(), "TinyGame.ATrap".to_string()]);
    assert!(d12.renamed_suggestions.is_empty() && d21.renamed_suggestions.is_empty());
}

// ----- ingest planning and loading back -----

#[test]
fn symbol_ids_depend_on_dump_fqn_and_kind() {
    let g = synthetic(1);
    let apawn = find(&g, "TinyGame.APawn");
    let a1 = symbol_id(1, apawn);
    let a1_again = symbol_id(1, apawn);
    let a2 = symbol_id(2, apawn);
    assert_eq!(a1.len(), 16);
    assert_eq!(a1, a1_again);
    assert_ne!(a1, a2);
    let ids = symbol_ids(1, &g);
    assert_eq!(ids.len(), g.symbols.len());
    let p = g.symbols.iter().position(|s| s.fqn == "TinyGame.APawn").unwrap();
    assert_eq!(ids[p], a1);
    assert_ne!(ids[p], symbol_id(1, find(&g, "TinyGame.AActor")));
}

#[test]
fn symbol_id_is_blake3_of_fqn_kind_and_dump() {
    let g = synthetic(1);
    let apawn = find(&g, "TinyGame.APawn");
    let mut expected = b"TinyGame.APawn:".to_vec();
    expected.extend_from_slice(&1i64.to_le_bytes());
    expected.push(b':');
    expected.extend_from_slice(&9i64.to_le_bytes());
    assert_eq!(symbol_id_input(9, apawn), expected);
    assert_eq!(symbol_id(9, apawn), blake3::hash(&expected).as_bytes()[..16].to_vec());
}

#[test]
fn relation_plan_skips_dangling_ends() {
    let mut g = synthetic(1);
    let n = g.symbols.len() as u32;
    g.relations.push(atlas_core::model::Relation { from: n + 5, to: 0, kind: RelationKind::Contains });
    let ids = symbol_ids(7, &g);
    let (rows, warnings) = plan_relations(&g, &ids);
    assert_eq!(rows.len(), g.relations.len() - 1);
    assert_eq!(warnings, vec![format!("relation skipped: from local_id {} not found in graph", n + 5)]);
    let first = &g.relations[0];
    assert_eq!(rows[0].from, ids[first.from as usize]);
    assert_eq!(rows[0].to, ids[first.to as usize]);
    assert_eq!(rows[0].kind, first.kind.as_i64());
    let sym_changes = vec![1usize; g.symbols.len()];
    let rel_changes: Vec<usize> = rows.iter().enumerate().map(|(k, _)| if k == 0 { 0 } else { 1 }).collect();
    let report = ingest_report(7, &g, &sym_changes, &rel_changes, warnings.clone());
    assert_eq!(report.dump_id, 7);
    assert_eq!(report.symbols_inserted as usize, g.symbols.len());
    assert_eq!(report.symbols_skipped, 0);
    assert_eq!(report.relations_skipped, 1);
    assert_eq!(report.relations_inserted as usize, rows.len() - 1);
    assert_eq!(report.game_id, "TinyGame");
    assert_eq!(report.warnings, warnings);
}

fn stored_rows(g: &SymbolGraph, dump_id: i64) -> (Vec<StoredSymbol>, Vec<StoredRelation>) {
    let ids = symbol_ids(dump_id, g);
    let symbols = g
        .symbols
        .iter()
        .zip(ids.iter())
        .map(|(s, id)| StoredSymbol {
            id: id.clone(),
            fqn: s.fqn.clone(),
            name: s.name.clone(),
            kind: s.kind.as_i64(),
            module: s.module.clone(),
            size: s.size,
            align: s.align,
            offset: s.offset,
            vtable_slot: s.vtable_slot,
            type_ref: None,
            flags: s.flags.to_packed() as i64,
            source_file: s.source_loc.as_ref().map(|l| l.file.clone()),
            source_line: s.source_loc.as_ref().map(|l| l.line),
        })
        .collect();
    let (rows, _) = plan_relations(g, &ids);
    let rels = rows
        .into_iter()
        .map(|r| StoredRelation { from: r.from, to: r.to, kind: r.kind })
        .collect();
    (symbols, rels)
}

fn meta(at: &str) -> DumpMeta {
    DumpMeta {
        game_id: "TinyGame".to_string(),
        game_version: "1.0.0".to_string(),
        parser: PARSER_NAME.to_string(),
        parser_version: PARSER_VERSION.to_string(),
        sdk_root: "/fixtures/tiny-game-v1".to_string(),
        ingested_at: at.to_string(),
    }
}

#[test]
fn stored_rows_load_back_into_the_same_graph() {
    // One file, so one module symbol: every persistent id is distinct.
    let mut reporter = NullReporter;
    let g = parse_sources(
        &vec![file("TinyGame_classes", V1_CLASSES)],
        "TinyGame".to_string(),
        "1.0.0".to_string(),
        "/fixtures/tiny-game-v1".to_string(),
        &mut reporter,
    )
    .expect("parse");
    let (symbols, rels) = stored_rows(&g, 3);
    let back = graph_from_rows(meta("2024-05-01T10:00:00+02:00"), symbols, &rels).expect("load");
    assert_eq!(back.symbols.len(), g.symbols.len());
    for (a, b) in g.symbols.iter().zip(back.symbols.iter()) {
        assert_eq!(a.fqn, b.fqn);
        assert_eq!(a.kind, b.kind);
        assert_eq!(a.offset, b.offset);
        assert_eq!(a.vtable_slot, b.vtable_slot);
        assert_eq!(a.flags, b.flags);
        assert_eq!(a.local_id, b.local_id);
    }
    assert_eq!(back.relations.len(), g.relations.len());
    for (a, b) in g.relations.iter().zip(back.relations.iter()) {
        assert_eq!(a, b);
    }
    assert_eq!(back.source.ingested_at, "2024-05-01T08:00:00+00:00");
    assert_eq!(back.source.game_id, "TinyGame");
    let d = diff(&g, &back, &DiffConfig::default(), &[]);
    assert!(d.added.is_empty() && d.removed.is_empty());
}

#[test]
fn unknown_stored_kind_fails_the_load() {
    let g = synthetic(1);
    let (mut symbols, rels) = stored_rows(&g, 3);
    symbols[2].kind = 42;
    let fqn = symbols[2].fqn.clone();
    let e = graph_from_rows(meta("not a time"), symbols, &rels).unwrap_err();
    assert_eq!(e.to_string(), format!("internal: invalid symbol kind 42 for {fqn}"));
}

#[test]
fn classes_with_matching_members_report_no_change() {
    let d = diff(&synthetic(1), &synthetic(2), &DiffConfig::default(), &[]);
    for fqn in ["TinyGame.UObject", "TinyGame.AActor"] {
        assert!(
            d.field_changes.iter().all(|fc| fc.parent_fqn != fqn),
            "unexpected change under {fqn}: {:?}",
            d.field_changes
        );
    }
}
