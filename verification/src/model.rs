//! The in-memory symbol graph that parsers produce and the diff engine,
//! the ingest planner and the exporters consume.
//!
//! A `SymbolGraph` is a flat list of symbols plus a flat list of typed
//! edges between them. Symbols are identified inside one graph by their
//! `local_id`; persistent ids are assigned by storage, never here.
use vstd::prelude::*;

verus! {

/// What a symbol is. The numeric codes (`as_i64`) are the values stored
/// in the `symbols.kind` column and used as the `kind_i` search facet.
#[derive(Debug, Clone, Copy, PartialEq, Eq, Hash, Structural)]
pub enum SymbolKind {
    Class,
    Struct,
    Enum,
    EnumValue,
    Function,
    Field,
    Parameter,
    Module,
}

pub open spec fn kind_code(k: SymbolKind) -> i64 {
    match k {
        SymbolKind::Module => 0,
        SymbolKind::Class => 1,
        SymbolKind::Struct => 2,
        SymbolKind::Enum => 3,
        SymbolKind::EnumValue => 4,
        SymbolKind::Function => 5,
        SymbolKind::Field => 6,
        SymbolKind::Parameter => 7,
    }
}

impl SymbolKind {
    /// Stable numeric code of the kind.
    pub fn as_i64(self) -> (r: i64)
        ensures
            r == kind_code(self),
    {
        match self {
            SymbolKind::Module => 0,
            SymbolKind::Class => 1,
            SymbolKind::Struct => 2,
            SymbolKind::Enum => 3,
            SymbolKind::EnumValue => 4,
            SymbolKind::Function => 5,
            SymbolKind::Field => 6,
            SymbolKind::Parameter => 7,
        }
    }

    /// Inverse of `as_i64`; `None` for codes outside `0..=7`.
    pub fn from_i64(v: i64) -> (r: Option<SymbolKind>)
        ensures
            r matches Some(k) ==> kind_code(k) == v,
            r is None <==> !(0 <= v <= 7),
    {
        if v == 0 {
            Some(SymbolKind::Module)
        } else if v == 1 {
            Some(SymbolKind::Class)
        } else if v == 2 {
            Some(SymbolKind::Struct)
        } else if v == 3 {
            Some(SymbolKind::Enum)
        } else if v == 4 {
            Some(SymbolKind::EnumValue)
        } else if v == 5 {
            Some(SymbolKind::Function)
        } else if v == 6 {
            Some(SymbolKind::Field)
        } else if v == 7 {
            Some(SymbolKind::Parameter)
        } else {
            None
        }
    }
}

/// Kind of an edge between two symbols. `as_i64` gives the value stored
/// in the `relations.kind` column (`Contains` is 1).
#[derive(Debug, Clone, Copy, PartialEq, Eq, Hash, Structural)]
pub enum RelationKind {
    Inherits,
    Contains,
    Returns,
    TakesParam,
    OfType,
    Overrides,
}

pub open spec fn relation_code(k: RelationKind) -> i64 {
    match k {
        RelationKind::Inherits => 0,
        RelationKind::Contains => 1,
        RelationKind::Returns => 2,
        RelationKind::TakesParam => 3,
        RelationKind::OfType => 4,
        RelationKind::Overrides => 5,
    }
}

impl RelationKind {
    pub fn as_i64(self) -> (r: i64)
        ensures
            r == relation_code(self),
    {
        match self {
            RelationKind::Inherits => 0,
            RelationKind::Contains => 1,
            RelationKind::Returns => 2,
            RelationKind::TakesParam => 3,
            RelationKind::OfType => 4,
            RelationKind::Overrides => 5,
        }
    }

    /// Inverse of `as_i64`; `None` for codes outside `0..=5`.
    pub fn from_i64(v: i64) -> (r: Option<RelationKind>)
        ensures
            r matches Some(k) ==> relation_code(k) == v,
            r is None <==> !(0 <= v <= 5),
    {
        if v == 0 {
            Some(RelationKind::Inherits)
        } else if v == 1 {
            Some(RelationKind::Contains)
        } else if v == 2 {
            Some(RelationKind::Returns)
        } else if v == 3 {
            Some(RelationKind::TakesParam)
        } else if v == 4 {
            Some(RelationKind::OfType)
        } else if v == 5 {
            Some(RelationKind::Overrides)
        } else {
            None
        }
    }
}

/// Access and qualifier flags of a symbol.
#[derive(Debug, Clone, Copy, PartialEq, Eq, Structural)]
pub struct SymbolFlags {
    pub public: bool,
    pub private: bool,
    pub protected: bool,
    pub virtual_fn: bool,
    pub pure_virtual: bool,
    pub static_member: bool,
    pub const_member: bool,
}

pub open spec fn bit_of(b: bool, i: u32) -> u32 {
    if b { (1u32 << i) as u32 } else { 0u32 }
}

/// Packed form: bit 0 `public`, bit 1 `private`, bit 2 `protected`,
/// bit 3 `virtual_fn`, bit 4 `pure_virtual`, bit 5 `static_member`,
/// bit 6 `const_member`.
pub open spec fn packed_flags(f: SymbolFlags) -> u32 {
    (bit_of(f.public, 0) | bit_of(f.private, 1) | bit_of(f.protected, 2) | bit_of(f.virtual_fn, 3)
        | bit_of(f.pure_virtual, 4) | bit_of(f.static_member, 5) | bit_of(f.const_member, 6)) as u32
}

pub open spec fn unpacked_flags(p: u32) -> SymbolFlags {
    SymbolFlags {
        public: p & 1 != 0,
        private: p & 2 != 0,
        protected: p & 4 != 0,
        virtual_fn: p & 8 != 0,
        pure_virtual: p & 16 != 0,
        static_member: p & 32 != 0,
        const_member: p & 64 != 0,
    }
}

impl SymbolFlags {
    /// All flags off.
    pub fn none() -> (r: SymbolFlags)
        ensures
            r == unpacked_flags(0),
    {
        assert(0u32 & 1 == 0 && 0u32 & 2 == 0 && 0u32 & 4 == 0 && 0u32 & 8 == 0 && 0u32 & 16 == 0
            && 0u32 & 32 == 0 && 0u32 & 64 == 0) by (bit_vector);
        SymbolFlags {
            public: false,
            private: false,
            protected: false,
            virtual_fn: false,
            pure_virtual: false,
            static_member: false,
            const_member: false,
        }
    }

    /// Only `public` set.
    pub fn public_only() -> (r: SymbolFlags)
        ensures
            r == unpacked_flags(1),
    {
        assert(1u32 & 1 != 0 && 1u32 & 2 == 0 && 1u32 & 4 == 0 && 1u32 & 8 == 0 && 1u32 & 16 == 0
            && 1u32 & 32 == 0 && 1u32 & 64 == 0) by (bit_vector);
        SymbolFlags {
            public: true,
            private: false,
            protected: false,
            virtual_fn: false,
            pure_virtual: false,
            static_member: false,
            const_member: false,
        }
    }

    /// Pack into the integer stored in the `symbols.flags` column.
    pub fn to_packed(&self) -> (r: u32)
        ensures
            r == packed_flags(*self),
    {
        let x0: u32 = if self.public { 1 } else { 0 };
        let x1: u32 = if self.private { 2 } else { 0 };
        let x2: u32 = if self.protected { 4 } else { 0 };
        let x3: u32 = if self.virtual_fn { 8 } else { 0 };
        let x4: u32 = if self.pure_virtual { 16 } else { 0 };
        let x5: u32 = if self.static_member { 32 } else { 0 };
        let x6: u32 = if self.const_member { 64 } else { 0 };
        assert((1u32 << 0u32) == 1 && (1u32 << 1u32) == 2 && (1u32 << 2u32) == 4 && (1u32 << 3u32)
            == 8 && (1u32 << 4u32) == 16 && (1u32 << 5u32) == 32 && (1u32 << 6u32) == 64)
            by (bit_vector);
        let p = x0 | x1 | x2 | x3 | x4 | x5 | x6;
        p
    }

    /// Unpack the integer stored in the `symbols.flags` column.
    pub fn from_packed(p: u32) -> (r: SymbolFlags)
        ensures
            r == unpacked_flags(p),
    {
        SymbolFlags {
            public: p & 1 != 0,
            private: p & 2 != 0,
            protected: p & 4 != 0,
            virtual_fn: p & 8 != 0,
            pure_virtual: p & 16 != 0,
            static_member: p & 32 != 0,
            const_member: p & 64 != 0,
        }
    }
}

/// `as_i64` and `from_i64` are inverse: no two kinds share a code.
pub proof fn law_kind_code_injective(a: SymbolKind, b: SymbolKind)
    ensures
        kind_code(a) == kind_code(b) ==> a == b,
{
}

/// No two relation kinds share a code.
pub proof fn law_relation_code_injective(a: RelationKind, b: RelationKind)
    ensures
        relation_code(a) == relation_code(b) ==> a == b,
{
}

/// Packing then unpacking the flags gives them back.
pub proof fn law_flags_round_trip(f: SymbolFlags)
    ensures
        unpacked_flags(packed_flags(f)) == f,
{
    let a = f.public;
    let b = f.private;
    let c = f.protected;
    let d = f.virtual_fn;
    let e = f.pure_virtual;
    let g = f.static_member;
    let h = f.const_member;
    assert((1u32 << 0u32) == 1 && (1u32 << 1u32) == 2 && (1u32 << 2u32) == 4 && (1u32 << 3u32) == 8
        && (1u32 << 4u32) == 16 && (1u32 << 5u32) == 32 && (1u32 << 6u32) == 64) by (bit_vector);
    let p = packed_flags(f);
    let x0: u32 = if a { 1 } else { 0 };
    let x1: u32 = if b { 2 } else { 0 };
    let x2: u32 = if c { 4 } else { 0 };
    let x3: u32 = if d { 8 } else { 0 };
    let x4: u32 = if e { 16 } else { 0 };
    let x5: u32 = if g { 32 } else { 0 };
    let x6: u32 = if h { 64 } else { 0 };
    assert(p == x0 | x1 | x2 | x3 | x4 | x5 | x6);
    assert((x0 == 0 || x0 == 1) && (x1 == 0 || x1 == 2) && (x2 == 0 || x2 == 4) && (x3 == 0 || x3
        == 8) && (x4 == 0 || x4 == 16) && (x5 == 0 || x5 == 32) && (x6 == 0 || x6 == 64) ==> {
        let q = x0 | x1 | x2 | x3 | x4 | x5 | x6;
        &&& (q & 1 != 0) == (x0 == 1)
        &&& (q & 2 != 0) == (x1 == 2)
        &&& (q & 4 != 0) == (x2 == 4)
        &&& (q & 8 != 0) == (x3 == 8)
        &&& (q & 16 != 0) == (x4 == 16)
        &&& (q & 32 != 0) == (x5 == 32)
        &&& (q & 64 != 0) == (x6 == 64)
    }) by (bit_vector);
}

/// Shape modifiers on a referenced type: `const TArray<FString>*&[4]`.
#[derive(Debug)]
pub struct TypeModifiers {
    pub pointer_depth: u8,
    pub is_reference: bool,
    pub is_const: bool,
    pub array_dim: Option<u32>,
    pub template_args: Vec<TypeRef>,
}

impl TypeModifiers {
    pub fn new() -> (r: TypeModifiers)
        ensures
            r.pointer_depth == 0,
            !r.is_reference,
            !r.is_const,
            r.array_dim is None,
            r.template_args@.len() == 0,
    {
        TypeModifiers {
            pointer_depth: 0,
            is_reference: false,
            is_const: false,
            array_dim: None,
            template_args: Vec::new(),
        }
    }
}

/// A reference to a type from a field, a return type or a template
/// argument.
#[derive(Debug)]
pub enum TypeRef {
    /// A C++ builtin such as `int32_t` or `float`.
    Builtin { name: String, modifiers: TypeModifiers },
    /// A name not (yet) tied to a symbol of the graph.
    Unresolved { name: String, modifiers: TypeModifiers },
    /// A symbol of the same graph.
    Local { local_id: u32, modifiers: TypeModifiers },
}

impl TypeRef {
    pub open spec fn spec_modifiers(&self) -> TypeModifiers {
        match self {
            TypeRef::Builtin { modifiers, .. } => *modifiers,
            TypeRef::Unresolved { modifiers, .. } => *modifiers,
            TypeRef::Local { modifiers, .. } => *modifiers,
        }
    }

    pub fn modifiers(&self) -> (r: &TypeModifiers)
        ensures
            *r == self.spec_modifiers(),
    {
        match self {
            TypeRef::Builtin { modifiers, .. } => modifiers,
            TypeRef::Unresolved { modifiers, .. } => modifiers,
            TypeRef::Local { modifiers, .. } => modifiers,
        }
    }
}

/// Where a symbol was declared.
#[derive(Debug)]
pub struct SourceLoc {
    pub file: String,
    pub line: u32,
}

/// One symbol of a graph.
#[derive(Debug)]
pub struct Symbol {
    /// Unique within its graph; not a database id.
    pub local_id: u32,
    pub fqn: String,
    pub name: String,
    pub kind: SymbolKind,
    pub module: String,
    pub size: Option<u32>,
    pub align: Option<u32>,
    /// Byte offset for fields, value for enum values.
    pub offset: Option<u32>,
    pub vtable_slot: Option<u32>,
    pub type_ref: Option<TypeRef>,
    pub flags: SymbolFlags,
    pub source_loc: Option<SourceLoc>,
}

/// A typed edge between two symbols of one graph, by `local_id`.
#[derive(Debug, Clone, Copy, PartialEq, Eq, Structural)]
pub struct Relation {
    pub from: u32,
    pub to: u32,
    pub kind: RelationKind,
}

/// Where a graph came from.
#[derive(Debug)]
pub struct SourceMeta {
    pub parser: String,
    pub parser_version: String,
    pub game_id: String,
    pub game_version: String,
    /// RFC 3339 timestamp of the parse.
    pub ingested_at: String,
    pub sdk_root: String,
}

/// Parser output: symbols plus relations.
#[derive(Debug)]
pub struct SymbolGraph {
    pub source: SourceMeta,
    pub symbols: Vec<Symbol>,
    pub relations: Vec<Relation>,
}

/// Errors a parser reports.
#[derive(Debug)]
pub enum ParseError {
    UnsupportedFormat { parser: String, reason: String },
    Syntax { file: String, line: u32, message: String },
    Io(String),
}

} // verus!
