use atlas_core::clock::{signed_timestamp, ClockReading};
use atlas_core::lexer::tokenize;
use atlas_core::parser::cursor::Cursor;
use atlas_core::parser::decls::read_template_args;
use atlas_core::commands::{
    add_watcher_root, parse_symbol_id, ping, remove_watcher_root, resolved_symbol, search_limit,
};
use atlas_core::dumper7::{game_identity, module_name_from_stem, should_skip, SdkInfo, SdkJson};
use atlas_core::error::{AppError, AtlasError};
use atlas_core::export::render::render_to_string;
use atlas_core::export::hex::{decode_hex, hex_encode, hex_prefixed, nibble};
use atlas_core::export::sidecar::{template_version, AtlasSidecar, Selection, SelectionRules};
use atlas_core::export::templates::{
    available_templates, bundled_position, bundled_template, load_template_from, BUNDLED_COUNT,
};
use atlas_core::export::view::{
    assemble_views, decode_ids, export_context, kind_label, symbol_view, SymbolRecord,
    ATLAS_VERSION,
};
use atlas_core::model::{RelationKind, SymbolFlags, SymbolKind};
use atlas_core::parser::numbers::{
    apply_extra_flags, is_builtin, parse_field_annotation, parse_number, parse_vtable_annotation,
};
use atlas_core::reporter::{crate_smoke, CollectingReporter, NullReporter, ParserId, Reporter};
use atlas_core::search::{
    hit_fields, query_plan, schema_marker_current, schema_marker_text, SearchFacets,
    SCHEMA_FILE_NAME,
};
use atlas_core::settings::{
    db_path, default_debounce_ms, dump_index_dir, index_dir, join_path, log_dir, settings_path,
    templates_dir, AtlasSettings,
};
use atlas_core::storage::ingest::tally;
use atlas_core::unity::PARSER_NAME;
use atlas_core::watcher::{
    looks_like_dump, nearest_dir, parent_path, path_starts_with, pick_candidate, same_path,
    watched_root_for, WatchState,
};

fn path(parts: &[&str]) -> Vec<String> {
    parts.iter().map(|s| s.to_string()).collect()
}

fn bundled_sources() -> Vec<String> {
    (0..BUNDLED_COUNT).map(|k| format!("source {k}")).collect()
}

// ----- errors -----

#[test]
fn display_includes_category() {
    let e = AtlasError::Storage("constraint violated".into());
    assert_eq!(e.to_string(), "storage: constraint violated");
}

#[test]
fn every_error_category_has_its_label() {
    assert_eq!(AtlasError::Parser("x".into()).to_string(), "parser: x");
    assert_eq!(AtlasError::Search("x".into()).to_string(), "search: x");
    assert_eq!(AtlasError::Diff("x".into()).to_string(), "diff: x");
    assert_eq!(AtlasError::Export("x".into()).to_string(), "export: x");
    assert_eq!(AtlasError::Io("x".into()).to_string(), "io: x");
    assert_eq!(AtlasError::InvalidInput("x".into()).to_string(), "invalid input: x");
    assert_eq!(AtlasError::NotFound("x".into()).to_string(), "not found: x");
}

#[test]
fn app_error_wraps_core_error_text() {
    let e = AppError::from_atlas(AtlasError::NotFound("dump 3".into()));
    assert_eq!(e.to_string(), "not found: dump 3");
    assert_eq!(AppError::Tauri("window".into()).to_string(), "tauri: window");
    assert_eq!(AppError::Internal("oops".into()).to_string(), "internal: oops");
}

// ----- parser trait crate -----

#[test]
fn workspace_links() {
    assert_eq!(crate_smoke(), "atlas-parser-trait");
}

#[test]
fn smoke_returns_crate_name() {
    assert_eq!(crate_smoke(), "atlas-parser-trait");
}

#[test]
fn null_reporter_does_nothing_observable() {
    let mut r = NullReporter;
    r.started(Some(100));
    r.progress(10, "hi");
    r.warn("ignored");
    r.finished();
}

#[test]
fn collecting_reporter_buffers_warnings() {
    let mut r = CollectingReporter::new();
    r.warn("a");
    r.warn("b");
    r.progress(1, "x");
    assert_eq!(r.progress_calls(), 1);
    assert_eq!(r.take_warnings(), vec!["a".to_string(), "b".to_string()]);
    assert!(r.take_warnings().is_empty());
}

#[test]
fn parser_id_keeps_its_text() {
    let id = ParserId::new("dumper7-ue".to_string());
    assert_eq!(id.as_str(), "dumper7-ue");
}

#[test]
fn parser_name_is_stable() {
    assert_eq!(PARSER_NAME, "il2cpp-unity");
}

// ----- model -----

#[test]
fn flags_survive_packing() {
    let f = SymbolFlags {
        public: true,
        private: false,
        protected: true,
        virtual_fn: true,
        pure_virtual: false,
        static_member: false,
        const_member: true,
    };
    let p = f.to_packed();
    assert_eq!(p, 1 | 4 | 8 | 64);
    assert_eq!(SymbolFlags::from_packed(p), f);
    assert_eq!(SymbolFlags::none().to_packed(), 0);
    assert_eq!(SymbolFlags::public_only().to_packed(), 1);
}

#[test]
fn kind_codes_round_trip() {
    let kinds = [
        SymbolKind::Module,
        SymbolKind::Class,
        SymbolKind::Struct,
        SymbolKind::Enum,
        SymbolKind::EnumValue,
        SymbolKind::Function,
        SymbolKind::Field,
        SymbolKind::Parameter,
    ];
    for (code, k) in kinds.iter().enumerate() {
        assert_eq!(k.as_i64(), code as i64);
        assert_eq!(SymbolKind::from_i64(code as i64), Some(*k));
    }
    assert_eq!(SymbolKind::from_i64(8), None);
    assert_eq!(SymbolKind::from_i64(-1), None);
    assert_eq!(RelationKind::Contains.as_i64(), 1);
    assert_eq!(RelationKind::from_i64(0), Some(RelationKind::Inherits));
    assert_eq!(RelationKind::from_i64(6), None);
}

// ----- number and annotation parsing -----

#[test]
fn numbers_parse_in_both_radixes() {
    assert_eq!(parse_number("0x0040"), Some(64));
    assert_eq!(parse_number("0X1f"), Some(31));
    assert_eq!(parse_number("256"), Some(256));
    assert_eq!(parse_number("4294967295"), Some(u32::MAX));
    assert_eq!(parse_number("4294967296"), None);
    assert_eq!(parse_number("0x"), None);
    assert_eq!(parse_number("12a"), None);
    assert_eq!(parse_number(""), None);
}

#[test]
fn field_annotation_gives_offset_size_and_tags() {
    let (off, size, tags) = parse_field_annotation("0x0040(0x0004)(Edit, Const)");
    assert_eq!(off, Some(0x40));
    assert_eq!(size, Some(4));
    assert_eq!(tags, vec!["const".to_string(), "editable".to_string()]);
    let (off, size, tags) = parse_field_annotation("0x0010(0x0008)");
    assert_eq!((off, size), (Some(0x10), Some(8)));
    assert!(tags.is_empty());
    let (off, size, _) = parse_field_annotation("no numbers here");
    assert_eq!((off, size), (None, None));
}

#[test]
fn const_tag_sets_const_flag() {
    let mut f = SymbolFlags::public_only();
    apply_extra_flags(&mut f, &vec!["editable".to_string()]);
    assert!(!f.const_member);
    apply_extra_flags(&mut f, &vec!["editable".to_string(), "const".to_string()]);
    assert!(f.const_member);
    assert!(f.public);
}

#[test]
fn vtable_annotation_gives_slot() {
    assert_eq!(parse_vtable_annotation("[0x00] (Virtual)"), Some(0));
    assert_eq!(parse_vtable_annotation("[0x1A] (Virtual)"), Some(26));
    assert_eq!(parse_vtable_annotation("(Virtual)"), None);
}

#[test]
fn builtin_type_names() {
    assert!(is_builtin("int32_t"));
    assert!(is_builtin("float"));
    assert!(is_builtin("void"));
    assert!(!is_builtin("FString"));
    assert!(!is_builtin("AActor"));
}

// ----- dumper-7 helpers -----

#[test]
fn module_names_drop_known_suffixes() {
    assert_eq!(module_name_from_stem("TinyGame_classes"), "TinyGame");
    assert_eq!(module_name_from_stem("My_Game_functions"), "My_Game");
    assert_eq!(module_name_from_stem("Engine_structs"), "Engine");
    assert_eq!(module_name_from_stem("CoreUObject"), "CoreUObject");
}

#[test]
fn helper_headers_are_skipped() {
    assert!(should_skip("SDK.hpp", "SDK"));
    assert!(should_skip("Engine_parameters.hpp", "Engine_parameters"));
    assert!(!should_skip("TinyGame_classes.hpp", "TinyGame_classes"));
}

#[test]
fn sdk_info_prefers_nested_game_object() {
    let nested = SdkInfo::from_json(SdkJson {
        game: Some((Some("Nested".to_string()), None)),
        flat_name: Some("Flat".to_string()),
        flat_version: Some("9".to_string()),
    });
    assert_eq!(nested.game_name, "Nested");
    assert_eq!(nested.game_version, "unknown");
    let flat = SdkInfo::from_json(SdkJson {
        game: None,
        flat_name: Some("Flat".to_string()),
        flat_version: Some("9".to_string()),
    });
    assert_eq!(flat.game_name, "Flat");
    assert_eq!(flat.game_version, "9");
    let empty = SdkInfo::from_json(SdkJson { game: None, flat_name: None, flat_version: None });
    assert_eq!(empty.game_name, "UnknownGame");
}

#[test]
fn game_identity_falls_back_to_folder_name() {
    let (id, v) = game_identity(None, Some("MyDump".to_string()));
    assert_eq!((id.as_str(), v.as_str()), ("MyDump", "unknown"));
    let (id, _) = game_identity(None, None);
    assert_eq!(id, "UnknownGame");
    let info = SdkInfo { game_name: "G".to_string(), game_version: "2".to_string() };
    let (id, v) = game_identity(Some(info), Some("ignored".to_string()));
    assert_eq!((id.as_str(), v.as_str()), ("G", "2"));
}

// ----- hex -----

#[test]
fn hex_round_trip_on_bytes() {
    let bytes: Vec<u8> = (0u8..16).map(|b| b.wrapping_mul(37)).collect();
    let h = hex_encode(&bytes);
    assert_eq!(h.len(), 32);
    assert_eq!(decode_hex(&h), Some(bytes));
    assert_eq!(hex_encode(&[0x00, 0xab, 0xff]), "00abff");
}

#[test]
fn hex_decoding_rejects_bad_ids() {
    assert_eq!(decode_hex("00"), None);
    assert_eq!(decode_hex(&"zz".repeat(16)), None);
    let upper = "AB".repeat(16);
    assert_eq!(decode_hex(&upper), Some(vec![0xab; 16]));
    assert_eq!(nibble(b'f'), Some(15));
    assert_eq!(nibble(b'G'), None);
}

#[test]
fn prefixed_hex_pads_to_width() {
    assert_eq!(hex_prefixed(0x40, 0), "0x40");
    assert_eq!(hex_prefixed(3, 2), "0x03");
    assert_eq!(hex_prefixed(0x1abc, 2), "0x1ABC");
    assert_eq!(hex_prefixed(0, 0), "0x0");
}

// ----- export -----

#[test]
fn template_version_changes_with_source() {
    let sel = Selection::default();
    let a = AtlasSidecar::build(
        "v".to_string(),
        "g".to_string(),
        "1".to_string(),
        1,
        "t".to_string(),
        "alpha",
        &sel,
    );
    let b = AtlasSidecar::build(
        "v".to_string(),
        "g".to_string(),
        "1".to_string(),
        1,
        "t".to_string(),
        "beta",
        &sel,
    );
    assert_ne!(a.template_version, b.template_version);
}

#[test]
fn template_version_is_blake3_hex() {
    let v = template_version("");
    assert_eq!(v, "blake3:af1349b9f5f9a1a6a0404dea36dcc9499bcb25c9adc112b7cc9a93cae41f3262");
}

#[test]
fn sidecar_copies_selection() {
    let sel = Selection {
        symbol_ids_hex: vec!["00".repeat(16), "ff".repeat(16)],
        rules: SelectionRules { include_parents: true, type_depth: 1 },
    };
    let s = AtlasSidecar::build(
        "0.4.0".to_string(),
        "TestGame".to_string(),
        "1.0".to_string(),
        1,
        "Trainer.cs".to_string(),
        "hello",
        &sel,
    );
    assert_eq!(s.symbols, sel.symbol_ids_hex);
    assert_eq!(s.template, "Trainer.cs");
    assert!(s.selection_rules.include_parents);
    assert_eq!(s.selection_rules.type_depth, 1);
    assert!(!s.exported_at.is_empty());
}

#[test]
fn unknown_template_errors() {
    let e = load_template_from("DoesNotExist", None, &bundled_sources()).unwrap_err();
    assert!(matches!(e, AtlasError::Export(_)));
    assert_eq!(e.to_string(), "export: unknown template: DoesNotExist");
}

#[test]
fn bundled_and_overridden_templates_load() {
    let sources = bundled_sources();
    for k in 0..BUNDLED_COUNT {
        let (name, _, _) = bundled_template(k);
        assert_eq!(bundled_position(name), Some(k));
        let (src, overridden) = load_template_from(name, None, &sources).unwrap();
        assert_eq!(src, sources[k]);
        assert!(!overridden);
    }
    let (src, overridden) =
        load_template_from("Offsets.h", Some("mine".to_string()), &sources).unwrap();
    assert_eq!((src.as_str(), overridden), ("mine", true));
}

#[test]
fn template_list_keeps_shipped_order() {
    let list = available_templates(&vec![false, true, false, false]).unwrap();
    let names: Vec<&str> = list.iter().map(|t| t.name.as_str()).collect();
    assert_eq!(names, vec!["Trainer.cs", "Offsets.h", "IDA-Mapping", "Sigscan"]);
    assert!(list[1].overridden);
    assert!(!list[0].overridden);
    assert_eq!(list[2].default_filename, "atlas-ida.txt");
}

fn record(fqn: &str, kind: i64, offset: Option<u32>, slot: Option<u32>) -> SymbolRecord {
    SymbolRecord {
        fqn: fqn.to_string(),
        name: fqn.rsplit('.').next().unwrap().to_string(),
        kind,
        module: "TinyGame".to_string(),
        size: Some(4),
        align: None,
        offset,
        vtable_slot: slot,
        parent_fqn: Some("TinyGame.APawn".to_string()),
    }
}

#[test]
fn symbol_view_formats_offsets_in_hex() {
    let id = "ab".repeat(16);
    let v = symbol_view(&id, &record("TinyGame.APawn.Speed", 6, Some(0x40), None));
    assert_eq!(v.kind, "field");
    assert_eq!(v.kind_i, 6);
    assert_eq!(v.offset_hex.as_deref(), Some("0x40"));
    assert!(v.vtable_slot_hex.is_none());
    assert!(v.todo_chain);
    assert_eq!(v.parent_fqn.as_deref(), Some("TinyGame.APawn"));
    let f = symbol_view(&id, &record("TinyGame.AActor.Tick", 5, None, Some(1)));
    assert_eq!(f.vtable_slot_hex.as_deref(), Some("0x01"));
    assert_eq!(f.kind, "function");
    assert!(!f.todo_chain);
    let odd = symbol_view(&id, &record("X", 42, None, None));
    assert_eq!(odd.kind, kind_label(SymbolKind::Module));
}

#[test]
fn views_skip_missing_records() {
    let ids = vec!["00".repeat(16), "11".repeat(16), "22".repeat(16)];
    let records = vec![Some(record("A.B", 1, None, None)), None, Some(record("A.C", 1, None, None))];
    let views = assemble_views(&ids, &records);
    assert_eq!(views.len(), 2);
    assert_eq!(views[0].id_hex, ids[0]);
    assert_eq!(views[1].fqn, "A.C");
    let ctx = export_context("G".to_string(), "1".to_string(), 7, "P", "T", "proc.exe", views);
    assert_eq!(ctx.atlas_version, ATLAS_VERSION);
    assert_eq!(ctx.symbols.len(), 2);
    assert_eq!(ctx.process_name, "proc.exe");
}

#[test]
fn render_reads_the_context() {
    let id = "ab".repeat(16);
    let v = symbol_view(&id, &record("TinyGame.APawn.Speed", 6, Some(0x40), None));
    let ctx = export_context("TinyGame".to_string(), "1.0.0".to_string(), 7, "P", "T", "game.exe", vec![v]);
    let src = "{{ game_id }} {{ dump_id }} {% for s in symbols %}{{ s.name }}@{{ s.offset_hex }}{% if s.todo_chain %}!{% endif %}{% endfor %}";
    let out = render_to_string("t", src, ctx).unwrap();
    assert_eq!(out, "TinyGame 7 Speed@0x40!");
}

#[test]
fn render_failures_name_their_stage() {
    let ctx = export_context("G".to_string(), "1".to_string(), 1, "P", "T", "p.exe", Vec::new());
    let e = render_to_string("bad", "{% if %}", ctx).unwrap_err();
    assert!(e.to_string().starts_with("export: add_template: "));
    let ctx = export_context("G".to_string(), "1".to_string(), 1, "P", "T", "p.exe", Vec::new());
    let e = render_to_string("t", "{{ missing_variable }}", ctx).unwrap_err();
    assert!(e.to_string().starts_with("export: render: "));
}

#[test]
fn bad_id_fails_the_selection() {
    let ok = decode_ids(&vec!["01".repeat(16)]).unwrap();
    assert_eq!(ok, vec![vec![1u8; 16]]);
    let e = decode_ids(&vec!["01".repeat(16), "nothex".to_string()]).unwrap_err();
    assert_eq!(e.to_string(), "export: bad id_hex: nothex");
}

// ----- search -----

#[test]
fn schema_marker_matches_current_version() {
    assert_eq!(schema_marker_text(), "1");
    assert!(schema_marker_current(" 1\n"));
    assert!(!schema_marker_current("2"));
    assert!(!schema_marker_current(""));
    assert_eq!(SCHEMA_FILE_NAME, ".schema-version");
}

#[test]
fn blank_query_matches_everything() {
    let facets = SearchFacets { kinds: vec![1, 2], modules: vec!["Engine".to_string()] };
    let p = query_plan("   ", &facets);
    assert!(p.text.is_none());
    assert_eq!(p.kinds, vec![1, 2]);
    assert_eq!(p.modules, vec!["Engine".to_string()]);
    let p = query_plan("APawn", &SearchFacets::default());
    assert_eq!(p.text.as_deref(), Some("APawn"));
    assert!(p.kinds.is_empty());
}

#[test]
fn hit_fields_fill_missing_values() {
    let h = hit_fields(Some(vec![0xde, 0xad]), Some("A.B".to_string()), Some(6), None);
    assert_eq!(h.id_hex, "dead");
    assert_eq!(h.fqn, "A.B");
    assert_eq!(h.kind_i, 6);
    assert_eq!(h.module, "");
    let h = hit_fields(None, None, None, None);
    assert_eq!((h.id_hex.as_str(), h.kind_i), ("", -1));
}

// ----- settings and paths -----

#[test]
fn paths_join_with_one_slash() {
    assert_eq!(join_path("/data", "x"), "/data/x");
    assert_eq!(join_path("/data/", "x"), "/data/x");
    assert_eq!(join_path("", "x"), "x");
    assert_eq!(db_path("/d"), "/d/atlas.sqlite");
    assert_eq!(log_dir("/d"), "/d/logs");
    assert_eq!(index_dir("/d"), "/d/index");
    assert_eq!(templates_dir("/d"), "/d/templates");
    assert_eq!(settings_path("/d"), "/d/settings.json");
    assert_eq!(dump_index_dir("/d/index", 42), "/d/index/42");
}

#[test]
fn debounce_has_a_floor() {
    let s = AtlasSettings::default();
    assert_eq!(s.watcher_debounce_ms, 5000);
    assert_eq!(default_debounce_ms(), 5000);
    assert_eq!(s.effective_debounce_ms(), 5000);
    let fast = AtlasSettings { watcher_roots: vec![], watcher_debounce_ms: 10 };
    assert_eq!(fast.effective_debounce_ms(), 500);
}

// ----- watcher -----

#[test]
fn parent_of_a_path() {
    assert_eq!(parent_path(&path(&["/", "a", "b"])), Some(path(&["/", "a"])));
    assert_eq!(parent_path(&path(&["/"])), None);
    assert_eq!(parent_path(&path(&[])), None);
    assert_eq!(nearest_dir(&path(&["/", "a"]), true), Some(path(&["/", "a"])));
    assert_eq!(nearest_dir(&path(&["/", "a", "f.hpp"]), false), Some(path(&["/", "a"])));
}

#[test]
fn prefix_test_is_by_component() {
    assert!(path_starts_with(&path(&["/", "games", "x"]), &path(&["/", "games"])));
    assert!(!path_starts_with(&path(&["/", "gamesx"]), &path(&["/", "games"])));
    assert!(!path_starts_with(&path(&["/"]), &path(&["/", "games"])));
}

#[test]
fn dump_detection_and_candidate() {
    assert!(looks_like_dump(true, false, false, false, true));
    assert!(!looks_like_dump(false, true, true, true, true));
    assert!(!looks_like_dump(true, false, false, false, false));
    let roots = vec![path(&["/", "w"])];
    let chain = vec![path(&["/", "w", "d", "SDK"]), path(&["/", "w", "d"]), path(&["/", "w"]), path(&["/"])];
    assert_eq!(pick_candidate(&chain, &roots, &vec![false, true, false, false]), Some(1));
    assert_eq!(pick_candidate(&chain, &roots, &vec![false, false, false, true]), None);
    assert_eq!(watched_root_for(&path(&["/", "w", "d"]), &roots), path(&["/", "w"]));
    assert_eq!(watched_root_for(&path(&["/", "elsewhere"]), &roots), path(&["/", "elsewhere"]));
}

#[test]
fn a_dump_is_announced_once() {
    let roots = vec![path(&["/", "w"])];
    let dump = path(&["/", "w", "d"]);
    let mut st = WatchState::new();
    assert!(st.on_change(&dump));
    assert!(st.on_change(&dump));
    // The first quiet period to end takes the dump; a later one finds it gone.
    assert!(st.on_quiet(&dump));
    assert!(!st.on_quiet(&dump));
    let d = st.announce(&dump, &roots);
    assert_eq!(d.path, dump);
    assert_eq!(d.watched_root, roots[0]);
    assert!(!st.on_change(&dump));
    assert!(!st.on_quiet(&dump));
    let other = path(&["/", "w", "e"]);
    assert!(st.on_change(&other));
    assert!(same_path(&other, &path(&["/", "w", "e"])));
    assert!(!same_path(&other, &dump));
}

#[test]
fn watcher_roots_add_once_and_remove() {
    let roots = add_watcher_root(vec!["/a".to_string()], "/b".to_string());
    assert_eq!(roots, vec!["/a".to_string(), "/b".to_string()]);
    let again = add_watcher_root(roots.clone(), "/a".to_string());
    assert_eq!(again, roots);
    let removed = remove_watcher_root(&again, &"/a".to_string());
    assert_eq!(removed, vec!["/b".to_string()]);
}

// ----- commands -----

#[test]
fn ping_returns_pong_and_timestamp() {
    let r = ping(Some("hello".to_string())).unwrap();
    assert_eq!(r.pong, "pong");
    assert_eq!(r.echoed.as_deref(), Some("hello"));
    assert!(!r.timestamp.is_empty());
    assert!(!r.version.is_empty());
}

#[test]
fn ping_handles_empty_message() {
    let r = ping(None).unwrap();
    assert_eq!(r.pong, "pong");
    assert!(r.echoed.is_none());
}

#[test]
fn search_limit_is_clamped() {
    assert_eq!(search_limit(None), 100);
    assert_eq!(search_limit(Some(0)), 1);
    assert_eq!(search_limit(Some(50)), 50);
    assert_eq!(search_limit(Some(5000)), 1000);
}

#[test]
fn symbol_ids_from_the_interface() {
    assert_eq!(parse_symbol_id(&"0f".repeat(16)).unwrap(), vec![15u8; 16]);
    let e = parse_symbol_id(&"xyz".to_string()).unwrap_err();
    assert_eq!(e.to_string(), "internal: invalid id_hex: xyz");
    let r = resolved_symbol("A.B".to_string(), Some((vec![1, 2], 3)));
    assert_eq!(r.id_hex.as_deref(), Some("0102"));
    assert_eq!(r.kind_i, Some(3));
    let none = resolved_symbol("A.C".to_string(), None);
    assert!(none.id_hex.is_none() && none.kind_i.is_none());
}

// ----- ingest tally -----

#[test]
fn tally_counts_written_rows() {
    assert_eq!(tally(&vec![1, 0, 1, 1, 0]), (3, 2));
    assert_eq!(tally(&vec![]), (0, 0));
}

#[test]
fn template_args_are_read_until_the_closing_bracket() {
    let toks = tokenize("int32_t, FString*> x");
    let mut cur = Cursor::new(&toks);
    let args = read_template_args(&mut cur);
    assert_eq!(args.len(), 2);
    assert_eq!(toks[cur.pos].text, ">");
    let toks = tokenize("> x");
    let mut cur = Cursor::new(&toks);
    assert!(read_template_args(&mut cur).is_empty());
}

// ----- clock -----

#[test]
fn timestamps_before_and_after_1970() {

    assert_eq!(signed_timestamp(ClockReading::Since(5, 7)), Some((5, 7)));
    assert_eq!(signed_timestamp(ClockReading::Before(5, 0)), Some((-5, 0)));
    assert_eq!(signed_timestamp(ClockReading::Before(5, 250_000_000)), Some((-6, 750_000_000)));
    assert_eq!(signed_timestamp(ClockReading::Since(u64::MAX, 0)), None);
    assert_eq!(signed_timestamp(ClockReading::Before(1u64 << 63, 0)), Some((i64::MIN, 0)));
    assert_eq!(signed_timestamp(ClockReading::Before(1u64 << 63, 1)), None);
}
