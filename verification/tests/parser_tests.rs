use atlas_core::diff::engine::diff;
use atlas_core::diff::fingerprint::{score, Fingerprint};
use atlas_core::diff::types::{DiffConfig, SCORE_ONE};
use atlas_core::export::sidecar::version_from_digest;
use atlas_core::index::local_ids_unique;
use atlas_core::lexer::tokenize;
use atlas_core::model::{Relation, RelationKind, Symbol, SymbolFlags, SymbolKind, TypeRef};
use atlas_core::parser::builder::GraphBuilder;
use atlas_core::parser::cursor::Cursor;
use atlas_core::parser::decls::{
    parse_class_body, parse_class_or_struct, parse_enum, parse_module, read_type,
};
use atlas_core::storage::ingest::id_from_digest;

/// A builder holding the module symbol `M` (local id 0).
fn module_builder() -> GraphBuilder {
    let mut b = GraphBuilder::new();
    assert_eq!(parse_module("M", "f", &[], &mut b), Ok(0));
    b
}

fn triples(b: &GraphBuilder) -> Vec<(u32, u32, RelationKind)> {
    b.relations.iter().map(|r| (r.from, r.to, r.kind)).collect()
}

fn find<'a>(b: &'a GraphBuilder, fqn: &str) -> &'a Symbol {
    b.symbols.iter().find(|s| s.fqn == fqn).expect("symbol present")
}

fn public() -> SymbolFlags {
    SymbolFlags { public: true, ..SymbolFlags::none() }
}

#[test]
fn enum_values_carry_their_explicit_numbers() {
    let mut b = module_builder();
    let toks = tokenize("enum class EColor : uint8 { Red = 0, Green, Yellow = 0x3 };");
    let mut cur = Cursor::new(&toks);
    let mut w = 0u64;
    parse_enum(&mut cur, "M", "f", 0, &mut b, &mut w);
    assert_eq!(w, 0);
    assert!(cur.peek().is_none());
    let got: Vec<(u32, &str, SymbolKind, Option<u32>)> = b.symbols[1..]
        .iter()
        .map(|s| (s.local_id, s.fqn.as_str(), s.kind, s.offset))
        .collect();
    assert_eq!(
        got,
        vec![
            (1, "M.EColor", SymbolKind::Enum, None),
            (2, "M.EColor.Red", SymbolKind::EnumValue, Some(0)),
            (3, "M.EColor.Green", SymbolKind::EnumValue, None),
            (4, "M.EColor.Yellow", SymbolKind::EnumValue, Some(3)),
        ]
    );
    assert_eq!(
        triples(&b),
        vec![
            (0, 1, RelationKind::Contains),
            (1, 2, RelationKind::Contains),
            (1, 3, RelationKind::Contains),
            (1, 4, RelationKind::Contains),
        ]
    );
}

#[test]
fn enum_forward_declaration_adds_nothing() {
    let mut b = module_builder();
    let toks = tokenize("enum class EMode : uint8; int x;");
    let mut cur = Cursor::new(&toks);
    let mut w = 0u64;
    parse_enum(&mut cur, "M", "f", 0, &mut b, &mut w);
    assert_eq!(w, 0);
    assert_eq!(b.symbols.len(), 1);
    assert_eq!(cur.pos, 6);
}

#[test]
fn enum_without_a_name_counts_a_warning() {
    let mut b = module_builder();
    let toks = tokenize("enum { A };");
    let mut cur = Cursor::new(&toks);
    let mut w = 0u64;
    parse_enum(&mut cur, "M", "f", 0, &mut b, &mut w);
    assert_eq!(w, 1);
    assert_eq!(b.symbols.len(), 1);
    assert!(b.relations.is_empty());
}

#[test]
fn class_header_links_its_parent() {
    let mut b = GraphBuilder::new();
    assert_eq!(parse_module("M", "f", &tokenize("class AActor { };"), &mut b), Ok(0));
    let toks = tokenize("class APawn : public AActor { };");
    let mut cur = Cursor::new(&toks);
    let mut w = 0u64;
    parse_class_or_struct(&mut cur, "M", "f", true, 0, &mut b, &mut w);
    assert_eq!(w, 0);
    assert!(cur.peek().is_none());
    let pawn = &b.symbols[2];
    assert_eq!(pawn.local_id, 2);
    assert_eq!(pawn.fqn, "M.APawn");
    assert_eq!(pawn.name, "APawn");
    assert_eq!(pawn.kind, SymbolKind::Class);
    assert!(pawn.flags.public);
    assert_eq!(
        triples(&b),
        vec![
            (0, 1, RelationKind::Contains),
            (0, 2, RelationKind::Contains),
            (2, 1, RelationKind::Inherits),
        ]
    );
}

#[test]
fn struct_with_unknown_parent_tags_its_file() {
    let mut b = module_builder();
    let toks = tokenize("struct FVec : FBase { };");
    let mut cur = Cursor::new(&toks);
    let mut w = 0u64;
    parse_class_or_struct(&mut cur, "M", "f", false, 0, &mut b, &mut w);
    let s = &b.symbols[1];
    assert_eq!(s.kind, SymbolKind::Struct);
    assert!(!s.flags.public);
    assert_eq!(s.source_loc.as_ref().unwrap().file, "f#parent=FBase");
    assert_eq!(triples(&b), vec![(0, 1, RelationKind::Contains)]);
}

#[test]
fn class_forward_declaration_adds_nothing() {
    let mut b = module_builder();
    let toks = tokenize("class UWorld;");
    let mut cur = Cursor::new(&toks);
    let mut w = 0u64;
    parse_class_or_struct(&mut cur, "M", "f", true, 0, &mut b, &mut w);
    assert_eq!(w, 0);
    assert_eq!(b.symbols.len(), 1);
    assert!(cur.peek().is_none());
}

#[test]
fn access_labels_set_the_flags_of_later_members() {
    let mut b = module_builder();
    let toks = tokenize(
        "int32 A; private: int32 B; protected: virtual void F(); static UClass* StaticClass(); }",
    );
    let mut cur = Cursor::new(&toks);
    let mut w = 0u64;
    parse_class_body(&mut cur, "M", "f", 0, "C", &mut b, &mut w);
    assert_eq!(w, 0);
    assert_eq!(cur.peek().unwrap().text, "}");
    let got: Vec<(&str, SymbolKind, SymbolFlags)> =
        b.symbols[1..].iter().map(|s| (s.fqn.as_str(), s.kind, s.flags)).collect();
    assert_eq!(
        got,
        vec![
            ("M.C.A", SymbolKind::Field, public()),
            ("M.C.B", SymbolKind::Field, SymbolFlags { private: true, ..SymbolFlags::none() }),
            (
                "M.C.F",
                SymbolKind::Function,
                SymbolFlags { protected: true, virtual_fn: true, ..SymbolFlags::none() }
            ),
        ]
    );
    assert_eq!(
        triples(&b),
        vec![
            (0, 1, RelationKind::Contains),
            (0, 2, RelationKind::Contains),
            (0, 3, RelationKind::Contains),
        ]
    );
}

#[test]
fn method_qualifiers_and_vtable_slot_are_read() {
    let mut b = module_builder();
    let toks = tokenize("virtual int32 Get() const = 0; // [0x05] (Virtual)\n}");
    let mut cur = Cursor::new(&toks);
    let mut w = 0u64;
    parse_class_body(&mut cur, "M", "f", 0, "C", &mut b, &mut w);
    assert_eq!(w, 0);
    let m = &b.symbols[1];
    assert_eq!(m.fqn, "M.C.Get");
    assert_eq!(m.vtable_slot, Some(5));
    assert!(m.flags.virtual_fn && m.flags.const_member && m.flags.pure_virtual);
    assert!(!m.flags.static_member);
    match m.type_ref.as_ref().unwrap() {
        TypeRef::Builtin { name, .. } => assert_eq!(name, "int32"),
        other => panic!("unexpected type {other:?}"),
    }
}

#[test]
fn unparsable_member_counts_one_warning() {
    let mut b = module_builder();
    let toks = tokenize("int32 ; }");
    let mut cur = Cursor::new(&toks);
    let mut w = 0u64;
    parse_class_body(&mut cur, "M", "f", 0, "C", &mut b, &mut w);
    assert_eq!(w, 1);
    assert_eq!(b.symbols.len(), 1);
    assert_eq!(cur.peek().unwrap().text, "}");
}

#[test]
fn module_parse_keeps_namespaces_out_of_fqns() {
    let mut b = GraphBuilder::new();
    let toks = tokenize("namespace SDK { class A { int32 X; // 0x0028(0x0004)\n }; }");
    assert_eq!(parse_module("M", "f", &toks, &mut b), Ok(0));
    let got: Vec<(u32, &str, SymbolKind)> =
        b.symbols.iter().map(|s| (s.local_id, s.fqn.as_str(), s.kind)).collect();
    assert_eq!(
        got,
        vec![(0, "M", SymbolKind::Module), (1, "M.A", SymbolKind::Class), (2, "M.A.X", SymbolKind::Field)]
    );
    assert_eq!(b.symbols[0].name, "M");
    let x = &b.symbols[2];
    assert_eq!(x.offset, Some(0x28));
    assert_eq!(x.size, Some(4));
    match x.type_ref.as_ref().unwrap() {
        TypeRef::Builtin { name, .. } => assert_eq!(name, "int32"),
        other => panic!("unexpected type {other:?}"),
    }
    assert_eq!(triples(&b), vec![(0, 1, RelationKind::Contains), (1, 2, RelationKind::Contains)]);
}

#[test]
fn short_type_names_resolve_to_local_symbols() {
    let mut b = GraphBuilder::new();
    let toks = tokenize("class AActor { }; class B { AActor* Owner; };");
    assert_eq!(parse_module("M", "f", &toks, &mut b), Ok(0));
    let actor = find(&b, "M.AActor").local_id;
    let owner = find(&b, "M.B.Owner");
    match owner.type_ref.as_ref().unwrap() {
        TypeRef::Local { local_id, modifiers } => {
            assert_eq!(*local_id, actor);
            assert_eq!(modifiers.pointer_depth, 1);
        },
        other => panic!("unexpected type {other:?}"),
    }
    assert!(b.relations.contains(&Relation {
        from: owner.local_id,
        to: actor,
        kind: RelationKind::OfType
    }));
}

#[test]
fn unknown_type_names_stay_unresolved() {
    let mut b = GraphBuilder::new();
    let toks = tokenize("class B { FMissing Thing; };");
    assert_eq!(parse_module("M", "f", &toks, &mut b), Ok(0));
    match find(&b, "M.B.Thing").type_ref.as_ref().unwrap() {
        TypeRef::Unresolved { name, .. } => assert_eq!(name, "FMissing"),
        other => panic!("unexpected type {other:?}"),
    }
}

#[test]
fn read_type_reads_modifiers_and_template_arguments() {
    let toks = tokenize("const TMap<FString, int32*>& X");
    let mut cur = Cursor::new(&toks);
    let t = read_type(&mut cur).expect("a type");
    assert_eq!(toks[cur.pos].text, "X");
    match t {
        TypeRef::Unresolved { name, modifiers } => {
            assert_eq!(name, "TMap");
            assert!(modifiers.is_const && modifiers.is_reference);
            assert_eq!(modifiers.pointer_depth, 0);
            assert_eq!(modifiers.template_args.len(), 2);
            match &modifiers.template_args[1] {
                TypeRef::Builtin { name, modifiers } => {
                    assert_eq!(name, "int32");
                    assert_eq!(modifiers.pointer_depth, 1);
                },
                other => panic!("unexpected argument {other:?}"),
            }
        },
        other => panic!("unexpected type {other:?}"),
    }
}

#[test]
fn sign_words_join_the_base_name() {
    let toks = tokenize("unsigned char* p");
    let mut cur = Cursor::new(&toks);
    match read_type(&mut cur).expect("a type") {
        TypeRef::Unresolved { name, .. } => assert_eq!(name, "unsigned"),
        other => panic!("unexpected type {other:?}"),
    }
    assert_eq!(toks[cur.pos].text, "char");
    let toks = tokenize("; x");
    let mut cur = Cursor::new(&toks);
    assert!(read_type(&mut cur).is_none());
    assert_eq!(cur.pos, 0);
}

#[test]
fn symbol_id_is_the_digest_prefix() {
    let digest: Vec<u8> = (0u8..32).collect();
    assert_eq!(id_from_digest(&digest), (0u8..16).collect::<Vec<u8>>());
}

#[test]
fn template_version_is_the_prefixed_hex_digest() {
    assert_eq!(version_from_digest(&[0x00, 0xab, 0x10]), "blake3:00ab10");
    assert_eq!(version_from_digest(&[]), "blake3:");
}

#[test]
fn repeated_local_ids_are_detected() {
    let mut b = GraphBuilder::new();
    assert_eq!(parse_module("M", "f", &tokenize("class A { int32 X; };"), &mut b), Ok(0));
    assert!(local_ids_unique(&b.symbols));
    b.symbols[2].local_id = 0;
    assert!(!local_ids_unique(&b.symbols));
}

#[test]
fn newlines_are_counted_for_the_line_bound() {
    assert_eq!(atlas_core::lexer::newline_count(b"a\nb\n\nc"), 3);
    assert_eq!(atlas_core::lexer::newline_count(b""), 0);
    let long_line = "x".repeat(100_000);
    let toks = tokenize(&long_line);
    assert_eq!(toks.len(), 1);
    assert_eq!(toks[0].line, 1);
}

#[test]
fn self_diff_matches_each_type_once_with_score_one() {
    let mut b = GraphBuilder::new();
    let toks = tokenize("class A { int32 X; }; struct B { }; enum class E : uint8 { V };");
    assert_eq!(parse_module("M", "f", &toks, &mut b), Ok(0));
    let g = atlas_core::model::SymbolGraph {
        source: atlas_core::model::SourceMeta {
            parser: "p".to_string(),
            parser_version: "1".to_string(),
            game_id: "g".to_string(),
            game_version: "1".to_string(),
            ingested_at: String::new(),
            sdk_root: String::new(),
        },
        symbols: b.symbols,
        relations: b.relations,
    };
    let d = diff(&g, &g, &DiffConfig::default(), &[]);
    assert_eq!(d.matches.len(), 3);
    assert!(d.matches.iter().all(|m| m.score == SCORE_ONE));
    let mut bases: Vec<&str> = d.matches.iter().map(|m| m.base.fqn.as_str()).collect();
    bases.sort();
    bases.dedup();
    assert_eq!(bases, vec!["M.A", "M.B", "M.E"]);
}

#[test]
fn fingerprint_score_is_the_same_both_ways() {
    let a = Fingerprint {
        parent_fqn: Some("M.AActor".to_string()),
        module: "M".to_string(),
        member_names: vec!["Value".to_string(), "Weight".to_string()],
        member_types: vec!["b:int32".to_string(), "b:float".to_string()],
    };
    let b = Fingerprint {
        parent_fqn: None,
        module: "M".to_string(),
        member_names: vec!["Value".to_string(), "Armed".to_string(), "Weight".to_string()],
        member_types: vec!["b:uint8".to_string(), "b:int32".to_string()],
    };
    let cfg = DiffConfig::default();
    assert_eq!(score(&a, &b, &cfg), score(&b, &a, &cfg));
    assert!(score(&a, &b, &cfg) < score(&a, &a, &cfg));
}

#[test]
fn nested_struct_is_parsed_inside_its_class() {
    let mut b = GraphBuilder::new();
    let toks = tokenize(
        "class A { struct B { int32 X; // 0x0008(0x0004)\n }; int32 Y; // 0x0010(0x0004)\n };",
    );
    assert_eq!(parse_module("M", "f", &toks, &mut b), Ok(0));
    let got: Vec<(u32, &str, SymbolKind)> =
        b.symbols.iter().map(|s| (s.local_id, s.fqn.as_str(), s.kind)).collect();
    assert_eq!(
        got,
        vec![
            (0, "M", SymbolKind::Module),
            (1, "M.A", SymbolKind::Class),
            (2, "M.B", SymbolKind::Struct),
            (3, "M.B.X", SymbolKind::Field),
            (4, "M.A.Y", SymbolKind::Field),
        ]
    );
    assert_eq!(
        triples(&b),
        vec![
            (0, 1, RelationKind::Contains),
            (1, 2, RelationKind::Contains),
            (2, 3, RelationKind::Contains),
            (1, 4, RelationKind::Contains),
        ]
    );
}
