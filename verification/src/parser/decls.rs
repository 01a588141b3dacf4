//! Declarations: namespaces, classes and structs with their fields and
//! methods, enums with their values, and type expressions.
//!
//! Every parsing function moves the cursor forward, appends to the graph
//! (never changing what is there), counts at most one warning and adds
//! at most one symbol per token it consumes, and keeps the graph closed:
//! each relation joins two of its symbols.
use vstd::prelude::*;
use crate::index::last_fqn_pos;
use crate::lexer::{Token, TokenKind};
use crate::model::{
    unpacked_flags, RelationKind, SourceLoc, Symbol, SymbolFlags, SymbolKind, TypeModifiers,
    TypeRef,
};
use crate::parser::builder::{of_type_upto, resolution_of, GraphBuilder};
use crate::parser::cursor::{balanced_end, is_ident_tok, is_punct_tok, lemma_balanced_end, Cursor};
use crate::parser::numbers::{
    annotation_scan, annotation_tags, apply_extra_flags, builtin_name, const_tag, edit_tag,
    is_builtin, number_value,
    parse_field_annotation, parse_number, parse_vtable_annotation, vtable_scan,
};
use vstd::utf8::encode_utf8;
use crate::text::{concat, dotted, dotted3, str_eq};

verus! {

/// What a parsing step needs: room for one symbol and one warning per
/// token left.
pub open spec fn step_pre(c: Cursor, b: GraphBuilder, w: u64) -> bool {
    &&& c.wf()
    &&& b.wf()
    &&& w + c.rest() <= u64::MAX
    &&& b.symbols@.len() + c.rest() < u32::MAX
}

/// What every parsing step guarantees.
pub open spec fn step_ok(
    c0: Cursor,
    c1: Cursor,
    b0: GraphBuilder,
    b1: GraphBuilder,
    w0: u64,
    w1: u64,
    module: Seq<char>,
) -> bool {
    &&& c1.tokens == c0.tokens
    &&& c0.pos <= c1.pos <= c0.tokens@.len()
    &&& b1.wf()
    &&& b1.extends(&b0)
    &&& b1.symbols@.len() - b0.symbols@.len() <= c1.pos - c0.pos
    &&& w0 <= w1
    &&& w1 - w0 <= c1.pos - c0.pos
    &&& forall|p: int|
        b0.symbols@.len() <= p < b1.symbols@.len() ==> (#[trigger] b1.symbols@[p]).module@
            == module
}

pub proof fn lemma_step_trans(
    c0: Cursor,
    c1: Cursor,
    c2: Cursor,
    b0: GraphBuilder,
    b1: GraphBuilder,
    b2: GraphBuilder,
    w0: u64,
    w1: u64,
    w2: u64,
    module: Seq<char>,
)
    requires
        step_ok(c0, c1, b0, b1, w0, w1, module),
        step_ok(c1, c2, b1, b2, w1, w2, module),
    ensures
        step_ok(c0, c2, b0, b2, w0, w2, module),
{
    assert forall|p: int| 0 <= p < b0.symbols@.len() implies #[trigger] b2.symbols@[p]
        == b0.symbols@[p] by {
        assert(b1.symbols@[p] == b0.symbols@[p]);
    }
    assert forall|k: int| 0 <= k < b0.relations@.len() implies #[trigger] b2.relations@[k]
        == b0.relations@[k] by {
        assert(b1.relations@[k] == b0.relations@[k]);
    }
    assert forall|p: int| b0.symbols@.len() <= p < b2.symbols@.len() implies (#[trigger] b2.symbols@[
        p
    ]).module@ == module by {
        if p < b1.symbols@.len() {
            assert(b2.symbols@[p] == b1.symbols@[p]);
        }
    }
}

/// The one-character literals the parser compares tokens with.
pub proof fn lemma_punct_literals()
    ensures
        ";"@ == seq![';'],
        "{"@ == seq!['{'],
        "}"@ == seq!['}'],
        "("@ == seq!['('],
        ":"@ == seq![':'],
        "="@ == seq!['='],
        ","@ == seq![','],
        "*"@ == seq!['*'],
        "&"@ == seq!['&'],
{
    reveal_strlit(";");
    reveal_strlit("{");
    reveal_strlit("}");
    reveal_strlit("(");
    reveal_strlit(":");
    reveal_strlit("=");
    reveal_strlit(",");
    reveal_strlit("*");
    reveal_strlit("&");
    assert(";"@ =~= seq![';']);
    assert("{"@ =~= seq!['{']);
    assert("}"@ =~= seq!['}']);
    assert("("@ =~= seq!['(']);
    assert(":"@ =~= seq![':']);
    assert("="@ =~= seq!['=']);
    assert(","@ =~= seq![',']);
    assert("*"@ =~= seq!['*']);
    assert("&"@ =~= seq!['&']);
}

fn tok_is(t: &Token, kind: TokenKind, s: &str) -> (r: bool)
    ensures
        r == (t.kind == kind && t.text@ == s@),
{
    t.kind == kind && str_eq(t.text.as_str(), s)
}

/// Where `skip_until_semi_or_braced` from `i` stops: one past the next
/// `;`, or past a braced block and the `;` after it.
pub open spec fn skip_semi_end(toks: Seq<Token>, i: int) -> int
    decreases toks.len() - i,
{
    if i < 0 || i >= toks.len() {
        toks.len() as int
    } else if is_punct_tok(toks[i], ';') {
        i + 1
    } else if is_punct_tok(toks[i], '{') {
        let e = balanced_end(toks, i, 0, '{', '}');
        if e < toks.len() && is_punct_tok(toks[e], ';') {
            e + 1
        } else {
            e
        }
    } else {
        skip_semi_end(toks, i + 1)
    }
}

pub proof fn lemma_skip_semi_end(toks: Seq<Token>, i: int)
    requires
        0 <= i,
    ensures
        i < toks.len() ==> i < skip_semi_end(toks, i) <= toks.len(),
        i >= toks.len() ==> skip_semi_end(toks, i) == toks.len(),
    decreases toks.len() - i,
{
    if i < toks.len() {
        if is_punct_tok(toks[i], '{') {
            lemma_balanced_end(toks, i, 0, '{', '}');
        } else if !is_punct_tok(toks[i], ';') {
            lemma_skip_semi_end(toks, i + 1);
        }
    }
}

/// Skips to the end of a statement: past the next `;`, or past a braced
/// block and the `;` that may follow it.
pub fn skip_until_semi_or_braced(cur: &mut Cursor)
    requires
        old(cur).wf(),
    ensures
        final(cur).tokens == old(cur).tokens,
        final(cur).pos == skip_semi_end(old(cur).tokens@, old(cur).pos as int),
{
    let ghost toks = cur.tokens@;
    let ghost t0 = cur.tokens;
    proof {
        lemma_skip_semi_end(toks, cur.pos as int);
    }
    while cur.pos < cur.tokens.len()
        invariant
            cur.tokens == t0,
            t0 == old(cur).tokens,
            t0@ == toks,
            cur.wf(),
            skip_semi_end(toks, cur.pos as int) == skip_semi_end(toks, old(cur).pos as int),
        decreases toks.len() - cur.pos,
    {
        proof {
            lemma_punct_literals();
        }
        let t = &cur.tokens[cur.pos];
        if tok_is(t, TokenKind::Punct, ";") {
            cur.advance();
            return;
        }
        if tok_is(t, TokenKind::Punct, "{") {
            assert(cur.at_punct_spec('{'));
            proof {
                lemma_balanced_end(cur.tokens@, cur.pos as int, 0, '{', '}');
            }
            cur.skip_balanced('{', '}');
            cur.eat_punct(';');
            return;
        }
        cur.advance();
    }
}

/// The shape of a member declaration, judged by its first `(`, `;` or `}`.
pub enum DeclShape {
    Field,
    Method,
    Unknown,
}

/// The shape judged from the token at `pos + i` on, looking at no token
/// past `pos + 64`.
pub open spec fn decl_shape_from(toks: Seq<Token>, pos: int, i: int) -> DeclShape
    decreases 65 - i,
{
    if i > 64 || i < 0 || pos + i >= toks.len() {
        DeclShape::Unknown
    } else if is_punct_tok(toks[pos + i], '(') {
        DeclShape::Method
    } else if is_punct_tok(toks[pos + i], ';') {
        DeclShape::Field
    } else if is_punct_tok(toks[pos + i], '}') {
        DeclShape::Unknown
    } else {
        decl_shape_from(toks, pos, i + 1)
    }
}

/// Whether the declaration under the cursor is a field or a method.
pub fn peek_decl_shape(cur: &Cursor) -> (r: DeclShape)
    requires
        cur.wf(),
    ensures
        r == decl_shape_from(cur.tokens@, cur.pos as int, 0),
{
    let mut i: usize = 0;
    while i <= 64
        invariant
            cur.wf(),
            i <= 65,
            decl_shape_from(cur.tokens@, cur.pos as int, i as int) == decl_shape_from(
                cur.tokens@,
                cur.pos as int,
                0,
            ),
        decreases 65 - i,
    {
        proof {
            lemma_punct_literals();
        }
        match cur.peek_at(i) {
            Some(t) => {
                if tok_is(t, TokenKind::Punct, "(") {
                    return DeclShape::Method;
                }
                if tok_is(t, TokenKind::Punct, ";") {
                    return DeclShape::Field;
                }
                if tok_is(t, TokenKind::Punct, "}") {
                    return DeclShape::Unknown;
                }
            },
            None => {
                return DeclShape::Unknown;
            },
        }
        i = i + 1;
    }
    DeclShape::Unknown
}

// ---------------------------------------------------------------------------
// Types
// ---------------------------------------------------------------------------

/// A type the reader produces: a builtin exactly when its name is one.
pub open spec fn read_type_ok(t: TypeRef) -> bool {
    match t {
        TypeRef::Builtin { name, .. } => builtin_name(name@),
        TypeRef::Unresolved { name, .. } => !builtin_name(name@),
        TypeRef::Local { .. } => false,
    }
}

/// The C++ builtin type names of a Dumper-7 dump: `void`, `bool`, the
/// character, integer and floating types, `size_t`, and the sized integer
/// names with and without `_t`.
pub open spec fn documented_builtin_types() -> Seq<Seq<char>> {
    seq![
        "void"@,
        "bool"@,
        "char"@,
        "int"@,
        "long"@,
        "short"@,
        "float"@,
        "double"@,
        "size_t"@,
        "uint8_t"@,
        "uint16_t"@,
        "uint32_t"@,
        "uint64_t"@,
        "int8_t"@,
        "int16_t"@,
        "int32_t"@,
        "int64_t"@,
        "uint8"@,
        "uint16"@,
        "uint32"@,
        "uint64"@,
        "int8"@,
        "int16"@,
        "int32"@,
        "int64"@,
    ]
}

/// The name a type reference carries.
pub open spec fn type_ref_name(t: TypeRef) -> Seq<char> {
    match t {
        TypeRef::Builtin { name, .. } => name@,
        TypeRef::Unresolved { name, .. } => name@,
        TypeRef::Local { .. } => Seq::empty(),
    }
}

/// A type the reader produces is a builtin exactly when its name is one
/// of the documented builtin type names, and unresolved otherwise.
pub proof fn law_read_types_are_builtin_by_the_list(t: TypeRef)
    requires
        read_type_ok(t),
    ensures
        t is Builtin <==> documented_builtin_types().contains(type_ref_name(t)),
        !(t is Builtin) ==> t is Unresolved,
{
    let l = documented_builtin_types();
    let n = type_ref_name(t);
    if builtin_name(n) {
        assert(l[0] == "void"@);
        assert(l[1] == "bool"@);
        assert(l[2] == "char"@);
        assert(l[3] == "int"@);
        assert(l[4] == "long"@);
        assert(l[5] == "short"@);
        assert(l[6] == "float"@);
        assert(l[7] == "double"@);
        assert(l[8] == "size_t"@);
        assert(l[9] == "uint8_t"@);
        assert(l[10] == "uint16_t"@);
        assert(l[11] == "uint32_t"@);
        assert(l[12] == "uint64_t"@);
        assert(l[13] == "int8_t"@);
        assert(l[14] == "int16_t"@);
        assert(l[15] == "int32_t"@);
        assert(l[16] == "int64_t"@);
        assert(l[17] == "uint8"@);
        assert(l[18] == "uint16"@);
        assert(l[19] == "uint32"@);
        assert(l[20] == "uint64"@);
        assert(l[21] == "int8"@);
        assert(l[22] == "int16"@);
        assert(l[23] == "int32"@);
        assert(l[24] == "int64"@);
    }
    if l.contains(n) {
        let i = choose|i: int| 0 <= i < l.len() && l[i] == n;
        assert(builtin_name(l[i]));
    }
}

/// A type expression starts at `i`: after any `const`, `*` and `&`
/// tokens comes an identifier (the base name or a sign word).
pub open spec fn type_start(toks: Seq<Token>, i: int) -> bool
    decreases toks.len() - i,
{
    if i < 0 || i >= toks.len() {
        false
    } else if is_ident_tok(toks[i], seq!['c', 'o', 'n', 's', 't']) || is_punct_tok(toks[i], '*')
        || is_punct_tok(toks[i], '&') {
        type_start(toks, i + 1)
    } else {
        toks[i].kind == TokenKind::Ident
    }
}

/// A type as read from the tokens: whether its name is a builtin, the
/// name, and its modifiers with the template arguments read.
pub ghost struct TypeV {
    pub builtin: bool,
    pub name: Seq<char>,
    pub pointer_depth: u8,
    pub is_reference: bool,
    pub is_const: bool,
    pub array_dim: Option<u32>,
    pub args: Seq<TypeV>,
}

/// The type reference `t` is the type `v`.
pub open spec fn type_is(t: TypeRef, v: TypeV) -> bool
    decreases t,
{
    let m = t.spec_modifiers();
    &&& match t {
        TypeRef::Builtin { name, .. } => v.builtin && name@ == v.name,
        TypeRef::Unresolved { name, .. } => !v.builtin && name@ == v.name,
        TypeRef::Local { .. } => false,
    }
    &&& m.pointer_depth == v.pointer_depth
    &&& m.is_reference == v.is_reference
    &&& m.is_const == v.is_const
    &&& m.array_dim == v.array_dim
    &&& m.template_args@.len() == v.args.len()
    &&& forall|i: int|
        #![trigger m.template_args@[i]]
        0 <= i < m.template_args@.len() ==> type_is(m.template_args@[i], v.args[i])
}

/// Each of `ts` is the type at the same place in `vs`.
pub open spec fn types_are(ts: Seq<TypeRef>, vs: Seq<TypeV>) -> bool {
    &&& ts.len() == vs.len()
    &&& forall|i: int| 0 <= i < ts.len() ==> type_is(#[trigger] ts[i], vs[i])
}

/// Where the reading of a type stands: `const` seen, the base name so
/// far, pointer depth, reference, template arguments, next token.
pub ghost struct TypeScan {
    pub is_const: bool,
    pub base: Option<Seq<char>>,
    pub pointer_depth: u8,
    pub is_reference: bool,
    pub args: Seq<TypeV>,
    pub pos: int,
}

pub open spec fn scan_start(i: int) -> TypeScan {
    TypeScan {
        is_const: false,
        base: None,
        pointer_depth: 0,
        is_reference: false,
        args: Seq::empty(),
        pos: i,
    }
}

pub open spec fn sign_word(s: Seq<char>) -> bool {
    s == seq!['u', 'n', 's', 'i', 'g', 'n', 'e', 'd'] || s == seq!['s', 'i', 'g', 'n', 'e', 'd']
}

/// The type a finished reading gives.
pub open spec fn scan_view(s: TypeScan) -> TypeV {
    TypeV {
        builtin: builtin_name(s.base->0),
        name: s.base->0,
        pointer_depth: s.pointer_depth,
        is_reference: s.is_reference,
        is_const: s.is_const,
        array_dim: None,
        args: s.args,
    }
}

/// Reads a type from `s.pos` on: `const` anywhere, sign words joined
/// with a space, one base name (the first other identifier) with its
/// template arguments between `<` and `>`, `*` (counted up to 255) and
/// `&`; it stops at any other token or at a second base name.
pub open spec fn type_scan(toks: Seq<Token>, s: TypeScan) -> TypeScan
    decreases toks.len() - s.pos, 0int,
{
    if s.pos < 0 || s.pos >= toks.len() {
        s
    } else {
        let t = toks[s.pos];
        if t.kind == TokenKind::Ident {
            if t.text@ == seq!['c', 'o', 'n', 's', 't'] {
                type_scan(toks, TypeScan { is_const: true, pos: s.pos + 1, ..s })
            } else if sign_word(t.text@) {
                let b = match s.base {
                    None => t.text@,
                    Some(prev) => prev + seq![' '] + t.text@,
                };
                type_scan(toks, TypeScan { base: Some(b), pos: s.pos + 1, ..s })
            } else if s.base is Some {
                s
            } else if s.pos + 1 < toks.len() && is_punct_tok(toks[s.pos + 1], '<') {
                let a = args_scan(toks, s.pos + 2, 0, Seq::empty());
                let e = if 0 <= a.1 < toks.len() && is_punct_tok(toks[a.1], '>') {
                    a.1 + 1
                } else {
                    a.1
                };
                if s.pos < e <= toks.len() {
                    type_scan(toks, TypeScan { base: Some(t.text@), args: a.0, pos: e, ..s })
                } else {
                    TypeScan { base: Some(t.text@), args: a.0, pos: e, ..s }
                }
            } else {
                type_scan(toks, TypeScan { base: Some(t.text@), pos: s.pos + 1, ..s })
            }
        } else if is_punct_tok(t, '*') {
            type_scan(
                toks,
                TypeScan {
                    pointer_depth: if s.pointer_depth < 255 {
                        (s.pointer_depth + 1) as u8
                    } else {
                        255u8
                    },
                    pos: s.pos + 1,
                    ..s
                },
            )
        } else if is_punct_tok(t, '&') {
            type_scan(toks, TypeScan { is_reference: true, pos: s.pos + 1, ..s })
        } else {
            s
        }
    }
}

/// Reads template arguments from `p` at nesting `depth` after those in
/// `acc`: a type, then `,` for the next, `>` to stop, `<` one level
/// deeper; any other token ends a top-level list and is skipped inside
/// a nested one. Gives the arguments and where the reading stops.
pub open spec fn args_scan(toks: Seq<Token>, p: int, depth: nat, acc: Seq<TypeV>) -> (Seq<TypeV>, int)
    decreases toks.len() - p, 1int,
{
    if p < 0 || p > toks.len() {
        (acc, p)
    } else {
        let r = type_scan(toks, scan_start(p));
        if r.base is None || !(p < r.pos <= toks.len()) {
            (acc, r.pos)
        } else {
            let acc2 = acc.push(scan_view(r));
            let q = r.pos;
            if q < toks.len() && is_punct_tok(toks[q], ',') {
                args_scan(toks, q + 1, depth, acc2)
            } else if q < toks.len() && is_punct_tok(toks[q], '>') {
                (acc2, q)
            } else if q < toks.len() && is_punct_tok(toks[q], '<') {
                args_scan(toks, q + 1, depth + 1, acc2)
            } else if depth == 0 || q >= toks.len() {
                (acc2, q)
            } else {
                args_scan(toks, q + 1, depth, acc2)
            }
        }
    }
}

/// The type read from `i`, if a base name was found.
pub open spec fn type_read(toks: Seq<Token>, i: int) -> Option<TypeV> {
    let s = type_scan(toks, scan_start(i));
    if s.base is Some {
        Some(scan_view(s))
    } else {
        None
    }
}

/// Where the reading of a type from `i` stops.
pub open spec fn type_end(toks: Seq<Token>, i: int) -> int {
    type_scan(toks, scan_start(i)).pos
}

pub open spec fn opt_text(o: Option<String>) -> Option<Seq<char>> {
    match o {
        Some(s) => Some(s@),
        None => None,
    }
}

/// Reads a C++ type expression: `const`, sign words, one base name with
/// optional template arguments, `*` and `&`.
pub fn read_type(cur: &mut Cursor) -> (r: Option<TypeRef>)
    requires
        old(cur).wf(),
    ensures
        final(cur).tokens == old(cur).tokens,
        old(cur).pos <= final(cur).pos <= old(cur).tokens@.len(),
        r matches Some(t) ==> read_type_ok(t) && final(cur).pos > old(cur).pos,
        r is Some <==> type_start(old(cur).tokens@, old(cur).pos as int),
        old(cur).pos < old(cur).tokens@.len() && old(cur).tokens@[old(cur).pos as int].kind
            == TokenKind::Ident ==> final(cur).pos > old(cur).pos,
        final(cur).pos == type_end(old(cur).tokens@, old(cur).pos as int),
        r is Some <==> type_read(old(cur).tokens@, old(cur).pos as int) is Some,
        r matches Some(t) ==> type_is(t, type_read(old(cur).tokens@, old(cur).pos as int)->0),
    decreases old(cur).rest(), 0int,
{
    let toks = cur.tokens;
    let ghost t0 = cur.tokens;
    let ghost p0 = cur.pos;
    let mut modifiers = TypeModifiers::new();
    let mut is_const = false;
    let mut base_name: Option<String> = None;
    let mut moved = false;
    let ghost mut args_v: Seq<TypeV> = Seq::empty();
    while cur.pos < cur.tokens.len()
        invariant
            type_scan(
                t0@,
                TypeScan {
                    is_const,
                    base: opt_text(base_name),
                    pointer_depth: modifiers.pointer_depth,
                    is_reference: modifiers.is_reference,
                    args: args_v,
                    pos: cur.pos as int,
                },
            ) == type_scan(t0@, scan_start(p0 as int)),
            types_are(modifiers.template_args@, args_v),
            modifiers.array_dim is None,
            cur.wf(),
            cur.tokens == t0,
            t0 == old(cur).tokens,
            p0 == old(cur).pos,
            p0 <= cur.pos,
            toks == t0,
            moved == (cur.pos > p0),
            base_name is Some ==> moved,
            cur.pos <= t0@.len(),
            base_name is None ==> type_start(t0@, p0 as int) == type_start(t0@, cur.pos as int),
            base_name is Some ==> type_start(t0@, p0 as int),
        ensures
            cur.wf(),
            cur.tokens == t0,
            p0 <= cur.pos <= t0@.len(),
            moved == (cur.pos > p0),
            base_name is Some ==> moved,
            cur.pos == p0 ==> !(p0 < t0@.len() && t0@[p0 as int].kind == TokenKind::Ident),
            base_name is None ==> type_start(t0@, p0 as int) == type_start(t0@, cur.pos as int),
            base_name is None ==> !type_start(t0@, cur.pos as int),
            base_name is Some ==> type_start(t0@, p0 as int),
            type_scan(t0@, scan_start(p0 as int)) == (TypeScan {
                is_const,
                base: opt_text(base_name),
                pointer_depth: modifiers.pointer_depth,
                is_reference: modifiers.is_reference,
                args: args_v,
                pos: cur.pos as int,
            }),
            types_are(modifiers.template_args@, args_v),
            modifiers.array_dim is None,
        decreases t0@.len() - cur.pos,
    {
        proof {
            reveal_strlit("const");
            assert("const"@ =~= seq!['c', 'o', 'n', 's', 't']);
            reveal_strlit("unsigned");
            assert("unsigned"@ =~= seq!['u', 'n', 's', 'i', 'g', 'n', 'e', 'd']);
            reveal_strlit("signed");
            assert("signed"@ =~= seq!['s', 'i', 'g', 'n', 'e', 'd']);
            reveal_strlit(" ");
            assert(" "@ =~= seq![' ']);
            lemma_punct_literals();
        }
        let ghost pc = cur.pos as int;
        let t = &toks[cur.pos];
        if t.kind == TokenKind::Ident {
            if str_eq(t.text.as_str(), "const") {
                assert(is_ident_tok(t0@[pc], seq!['c', 'o', 'n', 's', 't']));
                assert(type_start(t0@, pc) == type_start(t0@, pc + 1));
                is_const = true;
                cur.advance();
                moved = true;
                continue;
            }
            proof {
                assert(!is_ident_tok(t0@[pc], seq!['c', 'o', 'n', 's', 't']));
                assert(!is_punct_tok(t0@[pc], '*') && !is_punct_tok(t0@[pc], '&'));
                assert(type_start(t0@, pc));
            }
            if str_eq(t.text.as_str(), "unsigned") || str_eq(t.text.as_str(), "signed") {
                let word = t.text.clone();
                base_name = match base_name {
                    None => Some(word),
                    Some(prev) => {
                        let sp = concat(prev.as_str(), " ");
                        Some(concat(sp.as_str(), word.as_str()))
                    },
                };
                cur.advance();
                moved = true;
                continue;
            }
            if base_name.is_some() {
                break;
            }
            base_name = Some(t.text.clone());
            cur.advance();
            moved = true;
            if cur.at_punct('<') {
                cur.advance();
                let ghost pa = cur.pos as int;
                let args = read_template_args(cur);
                proof {
                    args_v = args_scan(t0@, pa, 0, Seq::empty()).0;
                }
                modifiers.template_args = args;
                cur.eat_punct('>');
            }
            continue;
        }
        if t.kind == TokenKind::Punct {
            if str_eq(t.text.as_str(), "*") {
                assert(is_punct_tok(t0@[pc], '*'));
                assert(type_start(t0@, pc) == type_start(t0@, pc + 1));
                modifiers.pointer_depth = if modifiers.pointer_depth < 255 {
                    modifiers.pointer_depth + 1
                } else {
                    255
                };
                cur.advance();
                moved = true;
                continue;
            }
            if str_eq(t.text.as_str(), "&") {
                assert(is_punct_tok(t0@[pc], '&'));
                assert(type_start(t0@, pc) == type_start(t0@, pc + 1));
                modifiers.is_reference = true;
                cur.advance();
                moved = true;
                continue;
            }
            break;
        }
        break;
    }
    modifiers.is_const = is_const;
    match base_name {
        None => None,
        Some(base) => {
            if is_builtin(base.as_str()) {
                Some(TypeRef::Builtin { name: base, modifiers })
            } else {
                Some(TypeRef::Unresolved { name: base, modifiers })
            }
        },
    }
}

/// Reads comma-separated template arguments up to the closing `>`.
pub fn read_template_args(cur: &mut Cursor) -> (r: Vec<TypeRef>)
    requires
        old(cur).wf(),
    ensures
        final(cur).tokens == old(cur).tokens,
        old(cur).pos <= final(cur).pos <= old(cur).tokens@.len(),
        forall|k: int| 0 <= k < r@.len() ==> read_type_ok(#[trigger] r@[k]),
        r@.len() > 0 <==> type_start(old(cur).tokens@, old(cur).pos as int),
        types_are(r@, args_scan(old(cur).tokens@, old(cur).pos as int, 0, Seq::empty()).0),
        final(cur).pos == args_scan(old(cur).tokens@, old(cur).pos as int, 0, Seq::empty()).1,
    decreases old(cur).rest(), 1int,
{
    let ghost t0 = cur.tokens;
    let ghost p0 = cur.pos;
    let mut args: Vec<TypeRef> = Vec::new();
    let mut depth: usize = 0;
    let ghost mut args_v: Seq<TypeV> = Seq::empty();
    loop
        invariant_except_break
            args@.len() == 0 ==> cur.pos == p0,
            args_scan(t0@, cur.pos as int, depth as nat, args_v) == args_scan(
                t0@,
                p0 as int,
                0,
                Seq::empty(),
            ),
        invariant
            types_are(args@, args_v),
            cur.wf(),
            cur.tokens == t0,
            t0 == old(cur).tokens,
            p0 == old(cur).pos,
            p0 <= cur.pos,
            depth <= cur.pos,
            forall|k: int| 0 <= k < args@.len() ==> read_type_ok(#[trigger] args@[k]),
            args@.len() > 0 ==> type_start(t0@, p0 as int),
        ensures
            args@.len() > 0 || !type_start(t0@, p0 as int),
            args_scan(t0@, p0 as int, 0, Seq::empty()) == (args_v, cur.pos as int),
        decreases t0@.len() - cur.pos,
    {
        proof {
            lemma_punct_literals();
        }
        let ghost pt = cur.pos as int;
        let t = match read_type(cur) {
            Some(t) => t,
            None => {
                break;
            },
        };
        let ghost prev = args_v;
        let ghost q = cur.pos as int;
        proof {
            args_v = args_v.push(type_read(t0@, pt)->0);
            let r = type_scan(t0@, scan_start(pt));
            assert(r.base is Some && pt < r.pos <= t0@.len() && r.pos == q);
            assert(args_v == prev.push(scan_view(r)));
        }
        args.push(t);
        if cur.at_punct(',') {
            cur.advance();
            assert(args_scan(t0@, pt, depth as nat, prev) == args_scan(t0@, q + 1, depth as nat, args_v));
            continue;
        }
        if cur.at_punct('>') {
            assert(args_scan(t0@, pt, depth as nat, prev) == (args_v, q));
            break;
        }
        if cur.at_punct('<') {
            depth = depth + 1;
            cur.advance();
            assert(args_scan(t0@, pt, (depth - 1) as nat, prev) == args_scan(t0@, q + 1, depth as nat, args_v));
            continue;
        }
        if depth == 0 {
            assert(args_scan(t0@, pt, depth as nat, prev) == (args_v, q));
            break;
        }
        cur.advance();
        proof {
            if q < t0@.len() {
                assert(args_scan(t0@, pt, depth as nat, prev) == args_scan(t0@, q + 1, depth as nat, args_v));
            } else {
                assert(args_scan(t0@, pt, depth as nat, prev) == (args_v, q));
                assert(type_scan(t0@, scan_start(q)) == scan_start(q));
                assert(args_scan(t0@, q, depth as nat, args_v) == (args_v, q));
            }
        }
    }
    args
}

// ---------------------------------------------------------------------------
// Members
// ---------------------------------------------------------------------------

/// Either nothing was added, or the first symbol added is a type of kind
/// `kind` whose fqn is `module.name`, and the first relation added is
/// `parent_id` containing it.
pub open spec fn type_added(
    b0: GraphBuilder,
    b1: GraphBuilder,
    module: Seq<char>,
    parent_id: u32,
    kind: SymbolKind,
) -> bool {
    ||| b1.symbols@ == b0.symbols@ && b1.relations@ == b0.relations@
    ||| b1.symbols@.len() > b0.symbols@.len() && b1.relations@.len() > b0.relations@.len() && {
        let s = b1.symbols@[b0.symbols@.len() as int];
        &&& s.kind == kind
        &&& s.fqn@ == module + seq!['.'] + s.name@
        &&& s.module@ == module
        &&& b1.relations@[b0.relations@.len() as int] == crate::model::Relation {
            from: parent_id,
            to: s.local_id,
            kind: RelationKind::Contains,
        }
    }
}

/// An access keyword: `public`, `private` or `protected`.
pub open spec fn access_kw(t: Token) -> bool {
    is_ident_tok(t, "public"@) || is_ident_tok(t, "private"@) || is_ident_tok(t, "protected"@)
}

/// The parent a class header starting at `i` names: after `class Name :`
/// and an optional access keyword, the next identifier.
pub open spec fn header_parent(toks: Seq<Token>, i: int) -> Option<Seq<char>> {
    if i + 2 < toks.len() && is_punct_tok(toks[i + 2], ':') {
        let j = if i + 3 < toks.len() && access_kw(toks[i + 3]) {
            i + 4
        } else {
            i + 3
        };
        if j < toks.len() && toks[j].kind == TokenKind::Ident {
            Some(toks[j].text@)
        } else {
            None
        }
    } else {
        None
    }
}

/// Past an optional `}` and then an optional `;` from `e`.
pub open spec fn close_end(toks: Seq<Token>, e: int) -> int {
    let e1 = if 0 <= e < toks.len() && is_punct_tok(toks[e], '}') {
        e + 1
    } else {
        e
    };
    if 0 <= e1 < toks.len() && is_punct_tok(toks[e1], ';') {
        e1 + 1
    } else {
        e1
    }
}

/// The header of the class from `i` names a parent that is the class
/// itself or a symbol of fqn `module.parent` among `syms`.
pub open spec fn parent_found(toks: Seq<Token>, i: int, module: Seq<char>, syms: Seq<Symbol>) -> bool {
    match header_parent(toks, i) {
        Some(pn) => pn == toks[i + 1].text@ || last_fqn_pos(syms, module + seq!['.'] + pn) >= 0,
        None => false,
    }
}

/// The class added first in `b1` inherits from the parent its header
/// names, when that parent is the class itself or a symbol of fqn
/// `module.parent` already in `b0`: the relation after the one that
/// contains the class says so.
pub open spec fn inherits_linked(
    b0: GraphBuilder,
    b1: GraphBuilder,
    module: Seq<char>,
    parent: Option<Seq<char>>,
) -> bool {
    let c = b1.symbols@[b0.symbols@.len() as int];
    match parent {
        Some(pn) => {
            let q = if pn == c.name@ {
                c.local_id as int
            } else {
                last_fqn_pos(b0.symbols@, module + seq!['.'] + pn)
            };
            q >= 0 ==> b1.relations@.len() > b0.relations@.len() + 1 && b1.relations@[b0.relations@.len()
                + 1int] == crate::model::Relation {
                from: c.local_id,
                to: q as u32,
                kind: RelationKind::Inherits,
            }
        },
        None => true,
    }
}

/// How a class or struct from `i` reads up to its body. `kind` is 0
/// when it is dropped with a warning, 1 for a forward declaration
/// (nothing added), 2 when a body follows; `name_pos` is its name, `end`
/// where the parsing stops (for a body, where the body starts).
pub open spec fn class_head(toks: Seq<Token>, i: int) -> EnumParse {
    let p = i + 1;
    if p >= toks.len() || toks[p].kind != TokenKind::Ident {
        EnumParse { kind: 0, end: p, name_pos: p, body: p }
    } else {
        let q = if p + 1 < toks.len() && is_punct_tok(toks[p + 1], ':') {
            let j = if p + 2 < toks.len() && access_kw(toks[p + 2]) {
                p + 3
            } else {
                p + 2
            };
            if j < toks.len() && toks[j].kind == TokenKind::Ident {
                j + 1
            } else {
                j
            }
        } else {
            p + 1
        };
        if q < toks.len() && is_punct_tok(toks[q], ';') {
            EnumParse { kind: 1, end: q + 1, name_pos: p, body: q }
        } else if !(q < toks.len() && is_punct_tok(toks[q], '{')) {
            EnumParse { kind: 0, end: skip_semi_end(toks, q), name_pos: p, body: q }
        } else {
            EnumParse { kind: 2, end: q + 1, name_pos: p, body: q + 1 }
        }
    }
}

/// The class or struct parsed from `i`: nothing when its header does not
/// open a body (a warning counted unless it is a forward declaration);
/// else first the class itself, named by its header, contained in
/// `parent_id`, public when it is a class, with the line of `i` and the
/// file (tagged with the parent's name when the header names a parent
/// that is not found).
pub open spec fn class_outcome(
    toks: Seq<Token>,
    i: int,
    module: Seq<char>,
    file: Seq<char>,
    is_class: bool,
    parent_id: u32,
    b0: GraphBuilder,
    b1: GraphBuilder,
    w0: u64,
    w1: u64,
) -> bool {
    let h = class_head(toks, i);
    let n0 = b0.symbols@.len();
    let r0 = b0.relations@.len();
    if h.kind != 2 {
        &&& w1 == w0 + (if h.kind == 0 { 1int } else { 0int })
        &&& b1.symbols@ == b0.symbols@
        &&& b1.relations@ == b0.relations@
    } else {
        let c = b1.symbols@[n0 as int];
        let name = toks[h.name_pos].text@;
        &&& b1.symbols@.len() > n0
        &&& b1.relations@.len() > r0
        &&& c.local_id == n0
        &&& c.name@ == name
        &&& c.fqn@ == module + seq!['.'] + name
        &&& c.kind == (if is_class { SymbolKind::Class } else { SymbolKind::Struct })
        &&& c.module@ == module
        &&& c.flags == SymbolFlags {
            public: is_class,
            private: false,
            protected: false,
            virtual_fn: false,
            pure_virtual: false,
            static_member: false,
            const_member: false,
        }
        &&& c.type_ref is None
        &&& c.offset is None
        &&& c.size is None
        &&& c.source_loc matches Some(l) && l.line == toks[i].line && l.file@ == match header_parent(
            toks,
            i,
        ) {
            Some(pn) => if pn != name && last_fqn_pos(b0.symbols@, module + seq!['.'] + pn) < 0 {
                file + "#parent="@ + pn
            } else {
                file
            },
            None => file,
        }
        &&& b1.relations@[r0 as int] == crate::model::Relation {
            from: parent_id,
            to: n0 as u32,
            kind: RelationKind::Contains,
        }
    }
}

/// After the enum at position `e0`, every symbol added is one of its
/// values: fqn `enum.value`, contained in the enum by the relation at the
/// same distance past `r0`.
pub open spec fn values_added(b: GraphBuilder, module: Seq<char>, e0: int, r0: int) -> bool {
    let e = b.symbols@[e0];
    &&& b.relations@.len() - r0 == b.symbols@.len() - e0
    &&& forall|p: int|
        e0 < p < b.symbols@.len() ==> {
            &&& (#[trigger] b.symbols@[p]).kind == SymbolKind::EnumValue
            &&& b.symbols@[p].fqn@ == module + seq!['.'] + e.name@ + seq!['.'] + b.symbols@[p].name@
            &&& b.relations@[r0 + (p - e0)] == crate::model::Relation {
                from: e.local_id,
                to: b.symbols@[p].local_id,
                kind: RelationKind::Contains,
            }
        }
}

/// The value of enum value `s` is none, or that of a number token among
/// the tokens from `lo` to `hi` it was read from.
pub open spec fn value_numbered(toks: Seq<Token>, lo: int, hi: int, s: Symbol) -> bool {
    ||| s.offset is None
    ||| exists|k: int|
        lo <= k < hi && (#[trigger] toks[k]).kind == TokenKind::Number && s.offset == number_value(
            encode_utf8(toks[k].text@),
        )
}

fn warn(warnings: &mut u64)
    requires
        *old(warnings) < u64::MAX,
    ensures
        *final(warnings) == *old(warnings) + 1,
{
    *warnings = *warnings + 1;
}

/// `t` with array dimension `dim`, the rest of the type kept.
pub open spec fn dim_set(t: TypeRef, dim: Option<u32>) -> TypeRef {
    match t {
        TypeRef::Local { local_id, modifiers } => TypeRef::Local {
            local_id,
            modifiers: TypeModifiers { array_dim: dim, ..modifiers },
        },
        TypeRef::Builtin { name, modifiers } => TypeRef::Builtin {
            name,
            modifiers: TypeModifiers { array_dim: dim, ..modifiers },
        },
        TypeRef::Unresolved { name, modifiers } => TypeRef::Unresolved {
            name,
            modifiers: TypeModifiers { array_dim: dim, ..modifiers },
        },
    }
}

/// Swaps in the array dimension, keeping the rest of the type.
fn with_array_dim(t: TypeRef, dim: Option<u32>) -> (r: TypeRef)
    ensures
        r == dim_set(t, dim),
        read_type_ok(t) ==> read_type_ok(r),
{
    match t {
        TypeRef::Local { local_id, modifiers } => {
            let mut m = modifiers;
            m.array_dim = dim;
            TypeRef::Local { local_id, modifiers: m }
        },
        TypeRef::Builtin { name, modifiers } => {
            let mut m = modifiers;
            m.array_dim = dim;
            TypeRef::Builtin { name, modifiers: m }
        },
        TypeRef::Unresolved { name, modifiers } => {
            let mut m = modifiers;
            m.array_dim = dim;
            TypeRef::Unresolved { name, modifiers: m }
        },
    }
}

/// The first `;` at or after `i`, or the end.
pub open spec fn semi_from(toks: Seq<Token>, i: int) -> int
    decreases toks.len() - i,
{
    if i < 0 || i >= toks.len() {
        toks.len() as int
    } else if is_punct_tok(toks[i], ';') {
        i
    } else {
        semi_from(toks, i + 1)
    }
}

/// An optional `[N]` from `i`: the dimension and the position after it.
pub open spec fn dim_parse(toks: Seq<Token>, i: int) -> (Option<u32>, int) {
    if 0 <= i < toks.len() && is_punct_tok(toks[i], '[') {
        let j = i + 1;
        let (d, k) = if j < toks.len() && toks[j].kind == TokenKind::Number {
            (number_value(encode_utf8(toks[j].text@)), j + 1)
        } else {
            (None, j)
        };
        if k < toks.len() && is_punct_tok(toks[k], ']') {
            (d, k + 1)
        } else {
            (d, k)
        }
    } else {
        (None, i)
    }
}

/// How a member declaration from `i` reads: whether it gives a symbol,
/// where the parsing stops, where its name is, the array dimension, and
/// the position of the annotation comment taken with it.
pub ghost struct MemberParse {
    pub ok: bool,
    pub end: int,
    pub name_pos: int,
    pub dim: Option<u32>,
    pub note: Option<int>,
}

pub open spec fn member_fail(end: int) -> MemberParse {
    MemberParse { ok: false, end, name_pos: 0, dim: None, note: None }
}

/// After the `;` at `semi` of a member named at `name_pos`: the member,
/// with the comment right after the `;` when it is on line `line`.
pub open spec fn member_done(
    toks: Seq<Token>,
    line: u32,
    name_pos: int,
    semi: int,
    dim: Option<u32>,
) -> MemberParse {
    let c = semi + 1;
    if c < toks.len() && toks[c].kind == TokenKind::Comment && toks[c].line == line {
        MemberParse { ok: true, end: c + 1, name_pos, dim, note: Some(c) }
    } else {
        MemberParse { ok: true, end: c, name_pos, dim, note: None }
    }
}

/// A field from `i`: a type, a name, an optional `[N]`, an optional
/// initializer up to the `;`, the `;`. When a part is missing the field
/// is dropped and the parsing skips to the end of the statement (or
/// stops at the end of the tokens, when no name follows the type).
pub open spec fn field_parse(toks: Seq<Token>, i: int) -> MemberParse {
    let e = type_end(toks, i);
    if type_read(toks, i) is None {
        member_fail(skip_semi_end(toks, e))
    } else if e >= toks.len() {
        member_fail(e)
    } else if toks[e].kind != TokenKind::Ident {
        member_fail(skip_semi_end(toks, e))
    } else {
        let (d, k) = dim_parse(toks, e + 1);
        let k2 = if k < toks.len() && is_punct_tok(toks[k], '=') {
            semi_from(toks, k)
        } else {
            k
        };
        if k2 < toks.len() && is_punct_tok(toks[k2], ';') {
            member_done(toks, toks[e].line, e, k2, d)
        } else {
            member_fail(skip_semi_end(toks, k2))
        }
    }
}

/// The bytes of the annotation comment a member took, if any.
pub open spec fn note_bytes(toks: Seq<Token>, m: MemberParse) -> Seq<u8> {
    match m.note {
        Some(c) => encode_utf8(toks[c].text@),
        None => Seq::empty(),
    }
}

/// What every member symbol parsed from `i` carries: its name, the fqn
/// `module.class.name`, the module, the file and line of `i`.
pub open spec fn member_base(
    toks: Seq<Token>,
    i: int,
    m: MemberParse,
    module: Seq<char>,
    file: Seq<char>,
    class_name: Seq<char>,
    s: Symbol,
) -> bool {
    let name = toks[m.name_pos].text@;
    &&& s.name@ == name
    &&& s.fqn@ == module + seq!['.'] + class_name + seq!['.'] + name
    &&& s.module@ == module
    &&& s.align is None
    &&& s.source_loc matches Some(l) && l.file@ == file && l.line == toks[i].line
}

/// The field symbol parsed from `i`: its type (with the dimension), the
/// offset and size of its annotation, and the access flags plus
/// `const_member` when the annotation tags it `Const`.
pub open spec fn field_symbol(
    toks: Seq<Token>,
    i: int,
    module: Seq<char>,
    file: Seq<char>,
    class_name: Seq<char>,
    access: SymbolFlags,
    s: Symbol,
) -> bool {
    let m = field_parse(toks, i);
    let b = note_bytes(toks, m);
    &&& member_base(toks, i, m, module, file, class_name, s)
    &&& s.kind == SymbolKind::Field
    &&& s.type_ref matches Some(t) && type_is(
        t,
        TypeV { array_dim: m.dim, ..type_read(toks, i)->0 },
    )
    &&& (s.offset, s.size) == (if m.note is Some {
        annotation_scan(b, 0, None)
    } else {
        (None, None)
    })
    &&& s.vtable_slot is None
    &&& s.flags == SymbolFlags {
        const_member: access.const_member || (m.note is Some && const_tag(b)),
        ..access
    }
}

/// A member parse added the symbol `s` at the end, contained in
/// `class_id`, and counted no warning; or, when it gives no symbol,
/// added nothing and counted one warning.
pub open spec fn member_outcome(
    ok: bool,
    b0: GraphBuilder,
    b1: GraphBuilder,
    w0: u64,
    w1: u64,
    class_id: u32,
) -> bool {
    if ok {
        &&& w1 == w0
        &&& b1.symbols@.len() == b0.symbols@.len() + 1
        &&& b1.symbols@.drop_last() == b0.symbols@
        &&& b1.relations@ == b0.relations@.push(
            crate::model::Relation {
                from: class_id,
                to: b0.symbols@.len() as u32,
                kind: RelationKind::Contains,
            },
        )
    } else {
        &&& w1 == w0 + 1
        &&& b1.symbols@ == b0.symbols@
        &&& b1.relations@ == b0.relations@
    }
}

/// Appends `sym`, under the next local id, as a member of `class_id`.
fn add_member(builder: &mut GraphBuilder, class_id: u32, sym: Symbol) -> (r: u32)
    requires
        old(builder).wf(),
        class_id < old(builder).symbols@.len(),
        old(builder).symbols@.len() + 1 < u32::MAX,
        !(sym.type_ref matches Some(TypeRef::Local { .. })),
    ensures
        final(builder).wf(),
        r == old(builder).symbols@.len(),
        final(builder).symbols@ == old(builder).symbols@.push(Symbol { local_id: r, ..sym }),
        final(builder).relations@ == old(builder).relations@.push(
            crate::model::Relation { from: class_id, to: r, kind: RelationKind::Contains },
        ),
{
    let mut sym = sym;
    let id = builder.alloc_id();
    sym.local_id = id;
    builder.push_symbol(sym);
    builder.add_relation(class_id, id, RelationKind::Contains);
    id
}

/// The tags of an annotation name `const` exactly when it has a `Const` tag.
proof fn lemma_const_tags(tags: Seq<String>, text: Seq<char>)
    requires
        tags.map_values(|t: String| t@) == annotation_tags(encode_utf8(text)),
    ensures
        (exists|k: int| 0 <= k < tags.len() && (#[trigger] tags[k])@ == seq!['c', 'o', 'n', 's', 't'])
            == const_tag(encode_utf8(text)),
{
    let b = encode_utf8(text);
    let m = tags.map_values(|t: String| t@);
    let c: Seq<Seq<char>> = if const_tag(b) {
        seq![seq!['c', 'o', 'n', 's', 't']]
    } else {
        Seq::empty()
    };
    let ed = seq!['e', 'd', 'i', 't', 'a', 'b', 'l', 'e'];
    assert(m == if edit_tag(b) { c.push(ed) } else { c });
    assert(m.len() == tags.len());
    if const_tag(b) {
        assert(m[0] == seq!['c', 'o', 'n', 's', 't']);
        assert(tags[0]@ == m[0]);
    }
    if exists|k: int| 0 <= k < tags.len() && (#[trigger] tags[k])@ == seq!['c', 'o', 'n', 's', 't'] {
        let k = choose|k: int| 0 <= k < tags.len() && (#[trigger] tags[k])@ == seq!['c', 'o', 'n', 's', 't'];
        assert(m[k] == tags[k]@);
        if !const_tag(b) {
            assert(m[k] == ed);
            assert(m[k][0] == 'e');
        }
    }
}

/// Setting the array dimension of a type sets that of what it is.
proof fn lemma_dim_set(t: TypeRef, v: TypeV, d: Option<u32>)
    requires
        type_is(t, v),
    ensures
        type_is(dim_set(t, d), TypeV { array_dim: d, ..v }),
{
    let r = dim_set(t, d);
    let w = TypeV { array_dim: d, ..v };
    let a = t.spec_modifiers().template_args@;
    assert(r.spec_modifiers().template_args@ == a);
    assert(a.len() == v.args.len());
    assert forall|i: int| 0 <= i < a.len() implies type_is(a[i], w.args[i]) by {
        assert(type_is(a[i], v.args[i]));
    }
}

/// The rest of a field after its `;`: the annotation comment, if any,
/// and the symbol.
#[verifier::spinoff_prover]
fn finish_field(
    cur: &mut Cursor,
    module: &str,
    file: &str,
    class_id: u32,
    class_name: &str,
    access: SymbolFlags,
    builder: &mut GraphBuilder,
    type_ref: TypeRef,
    array_dim: Option<u32>,
    name_tok: &Token,
    start_line: u32,
    Ghost(i0): Ghost<int>,
    Ghost(e): Ghost<int>,
)
    requires
        old(cur).wf(),
        old(builder).wf(),
        class_id < old(builder).symbols@.len(),
        old(builder).symbols@.len() + 1 < u32::MAX,
        0 <= i0 < e < old(cur).pos <= old(cur).tokens@.len(),
        field_parse(old(cur).tokens@, i0) == member_done(
            old(cur).tokens@,
            old(cur).tokens@[e].line,
            e,
            old(cur).pos - 1,
            array_dim,
        ),
        type_read(old(cur).tokens@, i0) is Some,
        type_is(type_ref, type_read(old(cur).tokens@, i0)->0),
        *name_tok == old(cur).tokens@[e],
        start_line == old(cur).tokens@[i0].line,
    ensures
        final(cur).tokens == old(cur).tokens,
        final(cur).pos == field_parse(old(cur).tokens@, i0).end,
        final(builder).wf(),
        final(builder).symbols@.len() == old(builder).symbols@.len() + 1,
        final(builder).symbols@.drop_last() == old(builder).symbols@,
        final(builder).relations@ == old(builder).relations@.push(
            crate::model::Relation {
                from: class_id,
                to: old(builder).symbols@.len() as u32,
                kind: RelationKind::Contains,
            },
        ),
        final(builder).symbols@.last().local_id == old(builder).symbols@.len(),
        field_symbol(old(cur).tokens@, i0, module@, file@, class_name@, access, final(builder).symbols@.last()),
{
    let toks = cur.tokens;
    let mut offset: Option<u32> = None;
    let mut size: Option<u32> = None;
    let mut flags = access;
    if cur.pos < toks.len() {
        let c = &toks[cur.pos];
        if c.kind == TokenKind::Comment && c.line == name_tok.line {
            cur.advance();
            let (off, sz, tags) = parse_field_annotation(c.text.as_str());
            offset = off;
            size = sz;
            apply_extra_flags(&mut flags, &tags);
            proof {
                lemma_const_tags(tags@, c.text@);
            }
        }
    }
    let ghost tv = type_read(toks@, i0)->0;
    let type_ref = if array_dim.is_some() {
        proof {
            lemma_dim_set(type_ref, tv, array_dim);
        }
        with_array_dim(type_ref, array_dim)
    } else {
        type_ref
    };
    let fqn = dotted3(module, class_name, name_tok.text.as_str());
    let sym = Symbol {
        local_id: 0,
        fqn,
        name: name_tok.text.clone(),
        kind: SymbolKind::Field,
        module: String::from_str(module),
        size,
        align: None,
        offset,
        vtable_slot: None,
        type_ref: Some(type_ref),
        flags,
        source_loc: Some(SourceLoc { file: String::from_str(file), line: start_line }),
    };
    let r = add_member(builder, class_id, sym);
    proof {
        assert(builder.symbols@.drop_last() =~= old(builder).symbols@);
    }
}
/// A field: `Type Name [N] = init;` then an offset/size annotation on the
/// same line. Adds one `Field` symbol contained in `class_id`.
#[verifier::spinoff_prover]
#[verifier::rlimit(100)]
pub fn parse_field(
    cur: &mut Cursor,
    module: &str,
    file: &str,
    class_id: u32,
    class_name: &str,
    access: SymbolFlags,
    builder: &mut GraphBuilder,
    warnings: &mut u64,
)
    requires
        step_pre(*old(cur), *old(builder), *old(warnings)),
        class_id < old(builder).symbols@.len(),
        old(cur).pos < old(cur).tokens@.len(),
        old(cur).tokens@[old(cur).pos as int].kind == TokenKind::Ident,
    ensures
        step_ok(*old(cur), *final(cur), *old(builder), *final(builder), *old(warnings), *final(warnings), module@),
        final(cur).pos > old(cur).pos,
        final(cur).pos == field_parse(old(cur).tokens@, old(cur).pos as int).end,
        member_outcome(
            field_parse(old(cur).tokens@, old(cur).pos as int).ok,
            *old(builder),
            *final(builder),
            *old(warnings),
            *final(warnings),
            class_id,
        ),
        field_parse(old(cur).tokens@, old(cur).pos as int).ok ==> field_symbol(
            old(cur).tokens@,
            old(cur).pos as int,
            module@,
            file@,
            class_name@,
            access,
            final(builder).symbols@.last(),
        ),
{
    let ghost i0 = cur.pos as int;
    let toks = cur.tokens;
    let start_line = toks[cur.pos].line;
    let type_ref = match read_type(cur) {
        Some(t) => t,
        None => {
            warn(warnings);
            proof {
                lemma_skip_semi_end(cur.tokens@, cur.pos as int);
            }
            skip_until_semi_or_braced(cur);
            return;
        },
    };
    proof {
        lemma_punct_literals();
    }
    if cur.pos >= toks.len() {
        warn(warnings);
        return;
    }
    let name_tok = &toks[cur.pos];
    if name_tok.kind != TokenKind::Ident {
        warn(warnings);
        proof {
            lemma_skip_semi_end(cur.tokens@, cur.pos as int);
        }
        skip_until_semi_or_braced(cur);
        return;
    }
    let ghost e = cur.pos as int;
    assert(type_read(toks@, i0) is Some && e == type_end(toks@, i0) && e < toks@.len()
        && toks@[e].kind == TokenKind::Ident);
    cur.advance();
    let mut array_dim: Option<u32> = None;
    if cur.eat_punct('[') {
        if cur.pos < toks.len() {
            let t = &toks[cur.pos];
            if t.kind == TokenKind::Number {
                array_dim = parse_number(t.text.as_str());
                cur.advance();
            }
        }
        cur.eat_punct(']');
    }
    let ghost k = cur.pos as int;
    assert(i0 < e < k);
    assert(k == dim_parse(toks@, type_end(toks@, i0) + 1).1);
    assert(array_dim == dim_parse(toks@, type_end(toks@, i0) + 1).0);
    if cur.at_punct('=') {
        while cur.pos < toks.len()
            invariant
                cur.tokens == toks,
                cur.wf(),
                old(cur).pos < cur.pos,
                k <= cur.pos,
                semi_from(toks@, cur.pos as int) == semi_from(toks@, k),
            ensures
                cur.tokens == toks,
                cur.wf(),
                old(cur).pos < cur.pos,
                k <= cur.pos,
                cur.pos == semi_from(toks@, k),
            decreases toks@.len() - cur.pos,
        {
            proof {
                lemma_punct_literals();
            }
            if tok_is(&toks[cur.pos], TokenKind::Punct, ";") {
                break;
            }
            cur.advance();
        }
    }
    if !cur.eat_punct(';') {
        warn(warnings);
        proof {
            lemma_skip_semi_end(cur.tokens@, cur.pos as int);
        }
        skip_until_semi_or_braced(cur);
        return;
    }
    let ghost k2 = (cur.pos - 1) as int;
    assert(k2 < toks@.len() && is_punct_tok(toks@[k2], ';'));
    assert(k2 == (if k < toks@.len() && is_punct_tok(toks@[k], '=') {
        semi_from(toks@, k)
    } else {
        k
    }));
    assert(field_parse(toks@, i0) == member_done(toks@, toks@[e].line, e, k2, array_dim));
    finish_field(
        cur,
        module,
        file,
        class_id,
        class_name,
        access,
        builder,
        type_ref,
        array_dim,
        name_tok,
        start_line,
        Ghost(i0),
        Ghost(e),
    );
}

/// The qualifiers after a method's parameters, from `i`: `const`,
/// `override`, `noexcept`, `=` with an optional `0`. Gives where they
/// end, whether `const` was among them, and whether `= 0` was.
pub open spec fn quals_scan(toks: Seq<Token>, i: int) -> (int, bool, bool)
    decreases toks.len() - i,
{
    if i < 0 || i >= toks.len() {
        (i, false, false)
    } else if toks[i].kind == TokenKind::Ident {
        if toks[i].text@ == seq!['c', 'o', 'n', 's', 't'] {
            let r = quals_scan(toks, i + 1);
            (r.0, true, r.2)
        } else if toks[i].text@ == seq!['o', 'v', 'e', 'r', 'r', 'i', 'd', 'e'] || toks[i].text@
            == seq!['n', 'o', 'e', 'x', 'c', 'e', 'p', 't'] {
            quals_scan(toks, i + 1)
        } else {
            (i, false, false)
        }
    } else if is_punct_tok(toks[i], '=') {
        if i + 1 < toks.len() && toks[i + 1].kind == TokenKind::Number && toks[i + 1].text@ == seq![
            '0',
        ] {
            let r = quals_scan(toks, i + 2);
            (r.0, r.1, true)
        } else {
            quals_scan(toks, i + 1)
        }
    } else {
        (i, false, false)
    }
}

pub open spec fn virtual_at(toks: Seq<Token>, i: int) -> bool {
    0 <= i < toks.len() && is_ident_tok(toks[i], seq!['v', 'i', 'r', 't', 'u', 'a', 'l'])
}

/// Where a method's return type starts: after `virtual` and `static`.
pub open spec fn method_type_pos(toks: Seq<Token>, i: int) -> int {
    let p = if virtual_at(toks, i) { i + 1 } else { i };
    if static_at(toks, p) { p + 1 } else { p }
}

pub open spec fn static_at(toks: Seq<Token>, i: int) -> bool {
    0 <= i < toks.len() && is_ident_tok(toks[i], seq!['s', 't', 'a', 't', 'i', 'c'])
}

/// Where a method's qualifiers start: after its balanced parameter list.
pub open spec fn method_quals_pos(toks: Seq<Token>, name_pos: int) -> int {
    balanced_end(toks, name_pos + 1, 0, '(', ')')
}

/// A method from `i`: `virtual` and `static` if there, a return type, a
/// name, a parameter list in parentheses, qualifiers, the `;`; the
/// annotation comment must be on the line the method starts on.
pub open spec fn method_parse(toks: Seq<Token>, i: int) -> MemberParse {
    let p = method_type_pos(toks, i);
    let e = type_end(toks, p);
    if type_read(toks, p) is None {
        member_fail(skip_semi_end(toks, e))
    } else if e >= toks.len() {
        member_fail(e)
    } else if toks[e].kind != TokenKind::Ident {
        member_fail(skip_semi_end(toks, e))
    } else if !(e + 1 < toks.len() && is_punct_tok(toks[e + 1], '(')) {
        member_fail(skip_semi_end(toks, e + 1))
    } else {
        let k2 = quals_scan(toks, method_quals_pos(toks, e)).0;
        if k2 < toks.len() && is_punct_tok(toks[k2], ';') {
            member_done(toks, toks[i].line, e, k2, None)
        } else {
            member_fail(skip_semi_end(toks, k2))
        }
    }
}

/// The method symbol parsed from `i`: its return type, the vtable slot
/// of its annotation, and the access flags plus `virtual`, `static`,
/// `const` and `= 0` as written.
pub open spec fn method_symbol(
    toks: Seq<Token>,
    i: int,
    module: Seq<char>,
    file: Seq<char>,
    class_name: Seq<char>,
    access: SymbolFlags,
    s: Symbol,
) -> bool {
    let m = method_parse(toks, i);
    let q = quals_scan(toks, method_quals_pos(toks, m.name_pos));
    &&& member_base(toks, i, m, module, file, class_name, s)
    &&& s.kind == SymbolKind::Function
    &&& s.type_ref matches Some(t) && type_is(t, type_read(toks, method_type_pos(toks, i))->0)
    &&& s.offset is None
    &&& s.size is None
    &&& s.vtable_slot == (if m.note is Some {
        vtable_scan(note_bytes(toks, m), 0)
    } else {
        None
    })
    &&& s.flags == SymbolFlags {
        virtual_fn: access.virtual_fn || virtual_at(toks, i),
        static_member: access.static_member || static_at(
            toks,
            if virtual_at(toks, i) {
                i + 1
            } else {
                i
            },
        ),
        const_member: access.const_member || q.1,
        pure_virtual: access.pure_virtual || q.2,
        ..access
    }
}

/// The words a method's qualifiers are compared with.
proof fn lemma_qual_literals()
    ensures
        "const"@ == seq!['c', 'o', 'n', 's', 't'],
        "override"@ == seq!['o', 'v', 'e', 'r', 'r', 'i', 'd', 'e'],
        "noexcept"@ == seq!['n', 'o', 'e', 'x', 'c', 'e', 'p', 't'],
        "0"@ == seq!['0'],
{
    reveal_strlit("const");
    reveal_strlit("override");
    reveal_strlit("noexcept");
    reveal_strlit("0");
    assert("const"@ =~= seq!['c', 'o', 'n', 's', 't']);
    assert("override"@ =~= seq!['o', 'v', 'e', 'r', 'r', 'i', 'd', 'e']);
    assert("noexcept"@ =~= seq!['n', 'o', 'e', 'x', 'c', 'e', 'p', 't']);
    assert("0"@ =~= seq!['0']);
}

/// The rest of a method after its `;`: the vtable comment, if any, and
/// the symbol.
#[verifier::spinoff_prover]
fn finish_method(
    cur: &mut Cursor,
    module: &str,
    file: &str,
    class_id: u32,
    class_name: &str,
    flags: SymbolFlags,
    builder: &mut GraphBuilder,
    return_type: TypeRef,
    name_tok: &Token,
    start_line: u32,
    Ghost(i0): Ghost<int>,
    Ghost(e): Ghost<int>,
)
    requires
        old(cur).wf(),
        old(builder).wf(),
        class_id < old(builder).symbols@.len(),
        old(builder).symbols@.len() + 1 < u32::MAX,
        0 <= i0 < e < old(cur).pos <= old(cur).tokens@.len(),
        method_parse(old(cur).tokens@, i0) == member_done(
            old(cur).tokens@,
            start_line,
            e,
            old(cur).pos - 1,
            None,
        ),
        !(return_type matches TypeRef::Local { .. }),
        *name_tok == old(cur).tokens@[e],
        start_line == old(cur).tokens@[i0].line,
    ensures
        final(cur).tokens == old(cur).tokens,
        final(cur).pos == method_parse(old(cur).tokens@, i0).end,
        final(builder).wf(),
        final(builder).symbols@.len() == old(builder).symbols@.len() + 1,
        final(builder).symbols@.drop_last() == old(builder).symbols@,
        final(builder).relations@ == old(builder).relations@.push(
            crate::model::Relation {
                from: class_id,
                to: old(builder).symbols@.len() as u32,
                kind: RelationKind::Contains,
            },
        ),
        final(builder).symbols@.last().local_id == old(builder).symbols@.len(),
        member_base(
            old(cur).tokens@,
            i0,
            method_parse(old(cur).tokens@, i0),
            module@,
            file@,
            class_name@,
            final(builder).symbols@.last(),
        ),
        final(builder).symbols@.last().kind == SymbolKind::Function,
        final(builder).symbols@.last().type_ref == Some(return_type),
        final(builder).symbols@.last().offset is None,
        final(builder).symbols@.last().size is None,
        final(builder).symbols@.last().flags == flags,
        final(builder).symbols@.last().vtable_slot == (if method_parse(old(cur).tokens@, i0).note is Some {
            vtable_scan(note_bytes(old(cur).tokens@, method_parse(old(cur).tokens@, i0)), 0)
        } else {
            None
        }),
{
    let toks = cur.tokens;
    let mut vtable_slot: Option<u32> = None;
    if cur.pos < toks.len() {
        let c = &toks[cur.pos];
        if c.kind == TokenKind::Comment && c.line == start_line {
            cur.advance();
            vtable_slot = parse_vtable_annotation(c.text.as_str());
        }
    }
    let fqn = dotted3(module, class_name, name_tok.text.as_str());
    let sym = Symbol {
        local_id: 0,
        fqn,
        name: name_tok.text.clone(),
        kind: SymbolKind::Function,
        module: String::from_str(module),
        size: None,
        align: None,
        offset: None,
        vtable_slot,
        type_ref: Some(return_type),
        flags,
        source_loc: Some(SourceLoc { file: String::from_str(file), line: start_line }),
    };
    add_member(builder, class_id, sym);
    proof {
        assert(builder.symbols@.drop_last() =~= old(builder).symbols@);
    }
}

/// A method: `[virtual] [static] Type Name(params) [const] [override]
/// [= 0];` then a vtable annotation on the same line. Adds one `Function`
/// symbol contained in `class_id`.
#[verifier::spinoff_prover]
#[verifier::rlimit(100)]
pub fn parse_method(
    cur: &mut Cursor,
    module: &str,
    file: &str,
    class_id: u32,
    class_name: &str,
    access: SymbolFlags,
    builder: &mut GraphBuilder,
    warnings: &mut u64,
)
    requires
        step_pre(*old(cur), *old(builder), *old(warnings)),
        class_id < old(builder).symbols@.len(),
        old(cur).pos < old(cur).tokens@.len(),
        old(cur).tokens@[old(cur).pos as int].kind == TokenKind::Ident,
    ensures
        step_ok(*old(cur), *final(cur), *old(builder), *final(builder), *old(warnings), *final(warnings), module@),
        final(cur).pos > old(cur).pos,
        final(cur).pos == method_parse(old(cur).tokens@, old(cur).pos as int).end,
        member_outcome(
            method_parse(old(cur).tokens@, old(cur).pos as int).ok,
            *old(builder),
            *final(builder),
            *old(warnings),
            *final(warnings),
            class_id,
        ),
        method_parse(old(cur).tokens@, old(cur).pos as int).ok ==> method_symbol(
            old(cur).tokens@,
            old(cur).pos as int,
            module@,
            file@,
            class_name@,
            access,
            final(builder).symbols@.last(),
        ),
{
    let ghost i0 = cur.pos as int;
    let toks = cur.tokens;
    let start_line = toks[cur.pos].line;
    let mut flags = access;
    proof {
        reveal_strlit("virtual");
        assert("virtual"@ =~= seq!['v', 'i', 'r', 't', 'u', 'a', 'l']);
        reveal_strlit("static");
        assert("static"@ =~= seq!['s', 't', 'a', 't', 'i', 'c']);
        reveal_strlit("const");
        assert("const"@ =~= seq!['c', 'o', 'n', 's', 't']);
        reveal_strlit("override");
        assert("override"@ =~= seq!['o', 'v', 'e', 'r', 'r', 'i', 'd', 'e']);
        reveal_strlit("noexcept");
        assert("noexcept"@ =~= seq!['n', 'o', 'e', 'x', 'c', 'e', 'p', 't']);
        reveal_strlit("0");
        assert("0"@ =~= seq!['0']);
        lemma_punct_literals();
    }
    let is_virtual = cur.eat_ident("virtual");
    if is_virtual {
        flags.virtual_fn = true;
    }
    let ghost p1 = cur.pos as int;
    if cur.eat_ident("static") {
        flags.static_member = true;
    }
    let ghost p = cur.pos as int;
    assert(p == method_type_pos(toks@, i0));
    let return_type = match read_type(cur) {
        Some(t) => t,
        None => {
            warn(warnings);
            proof {
                lemma_skip_semi_end(cur.tokens@, cur.pos as int);
            }
            skip_until_semi_or_braced(cur);
            return;
        },
    };
    if cur.pos >= toks.len() {
        warn(warnings);
        return;
    }
    let name_tok = &toks[cur.pos];
    if name_tok.kind != TokenKind::Ident {
        warn(warnings);
        proof {
            lemma_skip_semi_end(cur.tokens@, cur.pos as int);
        }
        skip_until_semi_or_braced(cur);
        return;
    }
    let ghost e = cur.pos as int;
    assert(type_read(toks@, p) is Some && e == type_end(toks@, p) && e < toks@.len()
        && toks@[e].kind == TokenKind::Ident && p < e && i0 <= p);
    cur.advance();
    if !cur.at_punct('(') {
        warn(warnings);
        proof {
            lemma_skip_semi_end(cur.tokens@, cur.pos as int);
        }
        skip_until_semi_or_braced(cur);
        return;
    }
    proof {
        lemma_balanced_end(cur.tokens@, cur.pos as int, 0, '(', ')');
    }
    cur.skip_balanced('(', ')');
    let ghost q = cur.pos as int;
    assert(q == method_quals_pos(toks@, e) && e < q);
    let ghost c0 = flags.const_member;
    let ghost v0 = flags.pure_virtual;
    while cur.pos < toks.len()
        invariant
            cur.tokens == toks,
            cur.wf(),
            q <= cur.pos,
            quals_scan(toks@, cur.pos as int).0 == quals_scan(toks@, q).0,
            (flags.const_member || quals_scan(toks@, cur.pos as int).1) == (c0 || quals_scan(toks@, q).1),
            (flags.pure_virtual || quals_scan(toks@, cur.pos as int).2) == (v0 || quals_scan(toks@, q).2),
            flags.public == access.public,
            flags.private == access.private,
            flags.protected == access.protected,
            flags.virtual_fn == (access.virtual_fn || virtual_at(toks@, i0)),
            flags.static_member == (access.static_member || static_at(toks@, p1)),
        ensures
            cur.tokens == toks,
            cur.wf(),
            q <= cur.pos,
            cur.pos == quals_scan(toks@, q).0,
            flags.const_member == (c0 || quals_scan(toks@, q).1),
            flags.pure_virtual == (v0 || quals_scan(toks@, q).2),
            flags.public == access.public,
            flags.private == access.private,
            flags.protected == access.protected,
            flags.virtual_fn == (access.virtual_fn || virtual_at(toks@, i0)),
            flags.static_member == (access.static_member || static_at(toks@, p1)),
        decreases toks@.len() - cur.pos,
    {
        proof {
            lemma_punct_literals();
            lemma_qual_literals();
        }
        let t = &toks[cur.pos];
        if t.kind == TokenKind::Ident {
            if str_eq(t.text.as_str(), "const") {
                flags.const_member = true;
                cur.advance();
            } else if str_eq(t.text.as_str(), "override") || str_eq(t.text.as_str(), "noexcept") {
                cur.advance();
            } else {
                break;
            }
        } else if tok_is(t, TokenKind::Punct, "=") {
            cur.advance();
            if cur.pos < toks.len() {
                let n = &toks[cur.pos];
                if n.kind == TokenKind::Number && str_eq(n.text.as_str(), "0") {
                    flags.pure_virtual = true;
                    cur.advance();
                }
            }
        } else {
            break;
        }
    }
    if !cur.eat_punct(';') {
        warn(warnings);
        proof {
            lemma_skip_semi_end(cur.tokens@, cur.pos as int);
        }
        skip_until_semi_or_braced(cur);
        return;
    }
    let ghost k2 = (cur.pos - 1) as int;
    assert(method_parse(toks@, i0) == member_done(toks@, start_line, e, k2, None));
    finish_method(
        cur,
        module,
        file,
        class_id,
        class_name,
        flags,
        builder,
        return_type,
        name_tok,
        start_line,
        Ghost(i0),
        Ghost(e),
    );
}

// ---------------------------------------------------------------------------
// Enums
// ---------------------------------------------------------------------------

/// The values of an enum body from `i`: the position of each value's
/// name with its explicit value, and where the body ends (past its `}`
/// and the `;` after it). Comments and commas are skipped, a name takes
/// an optional `= N`, and any other token is passed over.
pub open spec fn enum_values(toks: Seq<Token>, i: int) -> (Seq<(int, Option<u32>)>, int)
    decreases toks.len() - i,
{
    if i < 0 || i >= toks.len() {
        (Seq::empty(), i)
    } else if toks[i].kind == TokenKind::Comment || is_punct_tok(toks[i], ',') {
        enum_values(toks, i + 1)
    } else if is_punct_tok(toks[i], '}') {
        (Seq::empty(), if i + 1 < toks.len() && is_punct_tok(toks[i + 1], ';') {
            i + 2
        } else {
            i + 1
        })
    } else if toks[i].kind == TokenKind::Ident {
        let vk: (Option<u32>, int) = if i + 1 < toks.len() && is_punct_tok(toks[i + 1], '=') {
            if i + 2 < toks.len() && toks[i + 2].kind == TokenKind::Number {
                (number_value(encode_utf8(toks[i + 2].text@)), i + 3)
            } else {
                (None, i + 2)
            }
        } else {
            (None, i + 1)
        };
        let r = enum_values(toks, vk.1);
        (seq![(i, vk.0)] + r.0, r.1)
    } else {
        enum_values(toks, i + 1)
    }
}

/// How an enum from `i` reads. `kind` is 0 when it is dropped with a
/// warning, 1 for a forward declaration (nothing added), 2 for an enum
/// with a body; `name_pos` is its name and `body` the token after `{`.
pub ghost struct EnumParse {
    pub kind: int,
    pub end: int,
    pub name_pos: int,
    pub body: int,
}

/// `enum [class] Name [: Type]` then `;`, or `{` and the values.
pub open spec fn enum_parse(toks: Seq<Token>, i: int) -> EnumParse {
    let p = if i + 1 < toks.len() && is_ident_tok(toks[i + 1], seq!['c', 'l', 'a', 's', 's']) {
        i + 2
    } else {
        i + 1
    };
    if p >= toks.len() || toks[p].kind != TokenKind::Ident {
        EnumParse { kind: 0, end: p, name_pos: p, body: p }
    } else {
        let q = if p + 1 < toks.len() && is_punct_tok(toks[p + 1], ':') {
            type_end(toks, p + 2)
        } else {
            p + 1
        };
        if q < toks.len() && is_punct_tok(toks[q], ';') {
            EnumParse { kind: 1, end: q + 1, name_pos: p, body: q }
        } else if !(q < toks.len() && is_punct_tok(toks[q], '{')) {
            EnumParse { kind: 0, end: skip_semi_end(toks, q), name_pos: p, body: q }
        } else {
            EnumParse { kind: 2, end: enum_values(toks, q + 1).1, name_pos: p, body: q + 1 }
        }
    }
}

/// What an enum parsed from `i` added: nothing (and a warning counted
/// when it was dropped); or the enum, contained in `parent_id`, then
/// each of its values in order, contained in the enum, with the name,
/// explicit value and line of its token.
pub open spec fn enum_outcome(
    toks: Seq<Token>,
    i: int,
    module: Seq<char>,
    file: Seq<char>,
    parent_id: u32,
    b0: GraphBuilder,
    b1: GraphBuilder,
    w0: u64,
    w1: u64,
) -> bool {
    let ep = enum_parse(toks, i);
    let n0 = b0.symbols@.len();
    let r0 = b0.relations@.len();
    if ep.kind != 2 {
        &&& w1 == w0 + (if ep.kind == 0 { 1int } else { 0int })
        &&& b1.symbols@ == b0.symbols@
        &&& b1.relations@ == b0.relations@
    } else {
        let vals = enum_values(toks, ep.body).0;
        let e = b1.symbols@[n0 as int];
        let name = toks[ep.name_pos].text@;
        &&& w1 == w0
        &&& b1.symbols@.len() == n0 + 1 + vals.len()
        &&& b1.relations@.len() == r0 + 1 + vals.len()
        &&& b1.symbols@.take(n0 as int) == b0.symbols@
        &&& b1.relations@.take(r0 as int) == b0.relations@
        &&& e.local_id == n0
        &&& e.name@ == name
        &&& e.fqn@ == module + seq!['.'] + name
        &&& e.kind == SymbolKind::Enum
        &&& e.module@ == module
        &&& e.flags == unpacked_flags(1)
        &&& e.offset is None
        &&& e.type_ref is None
        &&& e.source_loc matches Some(l) && l.file@ == file && l.line == toks[i].line
        &&& b1.relations@[r0 as int] == crate::model::Relation {
            from: parent_id,
            to: n0 as u32,
            kind: RelationKind::Contains,
        }
        &&& values_ok(toks, module, file, name, n0 as int, r0 as int, b1, vals)
    }
}

/// The symbols after the enum at `n0` are its values `vals`, in order,
/// each contained in the enum by the relation at the same distance past
/// `r0`.
pub open spec fn values_ok(
    toks: Seq<Token>,
    module: Seq<char>,
    file: Seq<char>,
    name: Seq<char>,
    n0: int,
    r0: int,
    b: GraphBuilder,
    vals: Seq<(int, Option<u32>)>,
) -> bool {
    forall|k: int|
        0 <= k < vals.len() ==> {
            let v = #[trigger] b.symbols@[n0 + 1 + k];
            let vn = toks[vals[k].0].text@;
            &&& v.local_id == n0 + 1 + k
            &&& v.name@ == vn
            &&& v.fqn@ == module + seq!['.'] + name + seq!['.'] + vn
            &&& v.kind == SymbolKind::EnumValue
            &&& v.module@ == module
            &&& v.offset == vals[k].1
            &&& v.flags == unpacked_flags(0)
            &&& v.type_ref is None
            &&& v.source_loc matches Some(l) && l.file@ == file && l.line == toks[vals[k].0].line
            &&& b.relations@[r0 + 1 + k] == crate::model::Relation {
                from: n0 as u32,
                to: (n0 + 1 + k) as u32,
                kind: RelationKind::Contains,
            }
        }
}

/// `enum [class] Name [: Type] { A = 0, B, ... };` — adds the `Enum`,
/// contained in `parent_id`, and one `EnumValue` per value, contained in
/// the enum, with its explicit value as offset.
pub fn parse_enum(
    cur: &mut Cursor,
    module: &str,
    file: &str,
    parent_id: u32,
    builder: &mut GraphBuilder,
    warnings: &mut u64,
)
    requires
        step_pre(*old(cur), *old(builder), *old(warnings)),
        parent_id < old(builder).symbols@.len(),
        old(cur).pos < old(cur).tokens@.len(),
    ensures
        step_ok(*old(cur), *final(cur), *old(builder), *final(builder), *old(warnings), *final(warnings), module@),
        final(cur).pos > old(cur).pos,
        forall|p: int|
            old(builder).symbols@.len() <= p < final(builder).symbols@.len() ==> ((#[trigger] final(builder).symbols@[p]).kind
                == SymbolKind::Enum || final(builder).symbols@[p].kind == SymbolKind::EnumValue),
        type_added(*old(builder), *final(builder), module@, parent_id, SymbolKind::Enum),
        final(builder).symbols@.len() > old(builder).symbols@.len() ==> values_added(
            *final(builder),
            module@,
            old(builder).symbols@.len() as int,
            old(builder).relations@.len() as int,
        ),
        forall|p: int|
            old(builder).symbols@.len() < p < final(builder).symbols@.len() ==> value_numbered(
                old(cur).tokens@,
                old(cur).pos as int,
                final(cur).pos as int,
                #[trigger] final(builder).symbols@[p],
            ),
        final(cur).pos == enum_parse(old(cur).tokens@, old(cur).pos as int).end,
        enum_outcome(
            old(cur).tokens@,
            old(cur).pos as int,
            module@,
            file@,
            parent_id,
            *old(builder),
            *final(builder),
            *old(warnings),
            *final(warnings),
        ),
{
    let ghost i0 = cur.pos as int;
    let ghost n0 = old(builder).symbols@.len() as int;
    let ghost r0 = old(builder).relations@.len() as int;
    let toks = cur.tokens;
    let header_line = toks[cur.pos].line;
    cur.advance();
    proof {
        reveal_strlit("class");
        assert("class"@ =~= seq!['c', 'l', 'a', 's', 's']);
    }
    cur.eat_ident("class");
    proof {
        lemma_punct_literals();
    }
    if cur.pos >= toks.len() {
        warn(warnings);
        return;
    }
    let name_tok = &toks[cur.pos];
    if name_tok.kind != TokenKind::Ident {
        warn(warnings);
        return;
    }
    let ghost np = cur.pos as int;
    cur.advance();
    if cur.eat_punct(':') {
        let _ = read_type(cur);
    }
    let ghost q = cur.pos as int;
    assert(q == (if np + 1 < toks@.len() && is_punct_tok(toks@[np + 1], ':') {
        type_end(toks@, np + 2)
    } else {
        np + 1
    }));
    if cur.eat_punct(';') {
        return;
    }
    if !cur.eat_punct('{') {
        warn(warnings);
        proof {
            lemma_skip_semi_end(cur.tokens@, cur.pos as int);
        }
        skip_until_semi_or_braced(cur);
        return;
    }
    let enum_id = builder.alloc_id();
    let sym = Symbol {
        local_id: enum_id,
        fqn: dotted(module, name_tok.text.as_str()),
        name: name_tok.text.clone(),
        kind: SymbolKind::Enum,
        module: String::from_str(module),
        size: None,
        align: None,
        offset: None,
        vtable_slot: None,
        type_ref: None,
        flags: SymbolFlags::public_only(),
        source_loc: Some(SourceLoc { file: String::from_str(file), line: header_line }),
    };
    builder.push_symbol(sym);
    builder.add_relation(parent_id, enum_id, RelationKind::Contains);
    let ghost b1 = *builder;
    let ghost c1 = *cur;
    let ghost w1 = *warnings;
    let ghost mut vals: Seq<(int, Option<u32>)> = Seq::empty();
    proof {
        assert(builder.symbols@.take(n0) =~= old(builder).symbols@);
        assert(builder.relations@.take(r0) =~= old(builder).relations@);
        assert(enum_values(toks@, q + 1) =~= (vals + enum_values(toks@, cur.pos as int).0, enum_values(toks@, cur.pos as int).1));
    }
    assert(step_ok(*old(cur), c1, *old(builder), b1, *old(warnings), w1, module@));
    loop
        invariant_except_break
            enum_values(toks@, q + 1) == (vals + enum_values(toks@, cur.pos as int).0, enum_values(
                toks@,
                cur.pos as int,
            ).1),
        invariant
            cur.tokens == toks,
            cur.wf(),
            c1.pos <= cur.pos,
            builder.wf(),
            enum_id < b1.symbols@.len(),
            *warnings == w1,
            step_ok(*old(cur), c1, *old(builder), b1, *old(warnings), w1, module@),
            step_ok(c1, *cur, b1, *builder, w1, *warnings, module@),
            step_pre(*old(cur), *old(builder), *old(warnings)),
            forall|p: int|
                old(builder).symbols@.len() <= p < builder.symbols@.len() ==> ((
                #[trigger] builder.symbols@[p]).kind == SymbolKind::Enum
                    || builder.symbols@[p].kind == SymbolKind::EnumValue),
            b1.symbols@.len() == old(builder).symbols@.len() + 1,
            b1.relations@.len() == old(builder).relations@.len() + 1,
            builder.symbols@[old(builder).symbols@.len() as int] == b1.symbols@[old(builder).symbols@.len() as int],
            b1.symbols@[old(builder).symbols@.len() as int].local_id == enum_id,
            b1.symbols@[old(builder).symbols@.len() as int].name@ == name_tok.text@,
            values_added(*builder, module@, old(builder).symbols@.len() as int, old(builder).relations@.len() as int),
            old(cur).tokens == toks,
            old(cur).pos <= cur.pos,
            forall|p: int|
                old(builder).symbols@.len() < p < builder.symbols@.len() ==> value_numbered(
                    toks@,
                    old(cur).pos as int,
                    cur.pos as int,
                    #[trigger] builder.symbols@[p],
                ),
            n0 == old(builder).symbols@.len(),
            r0 == old(builder).relations@.len(),
            builder.symbols@.len() == n0 + 1 + vals.len(),
            builder.relations@.len() == r0 + 1 + vals.len(),
            builder.symbols@.take(n0) == old(builder).symbols@,
            builder.relations@.take(r0) == old(builder).relations@,
            builder.symbols@[n0] == b1.symbols@[n0],
            builder.relations@[r0] == b1.relations@[r0],
            values_ok(toks@, module@, file@, name_tok.text@, n0, r0, *builder, vals),
        ensures
            enum_values(toks@, q + 1) == (vals, cur.pos as int),
        decreases toks@.len() - cur.pos,
    {
        proof {
            lemma_punct_literals();
        }
        let ghost pb = cur.pos;
        while cur.pos < toks.len()
            invariant
                cur.tokens == toks,
                cur.wf(),
                pb <= cur.pos,
                enum_values(toks@, cur.pos as int) == enum_values(toks@, pb as int),
            decreases toks@.len() - cur.pos,
        {
            proof {
                lemma_punct_literals();
            }
            let t = &toks[cur.pos];
            if t.kind == TokenKind::Comment || tok_is(t, TokenKind::Punct, ",") {
                cur.advance();
            } else {
                break;
            }
        }
        if cur.pos >= toks.len() {
            proof {
                assert(vals + Seq::<(int, Option<u32>)>::empty() =~= vals);
            }
            break;
        }
        let t = &toks[cur.pos];
        if tok_is(t, TokenKind::Punct, "}") {
            let ghost pj = cur.pos as int;
            proof {
                lemma_punct_literals();
            }
            assert(toks@[pj] == *t);
            assert(t.text@ == seq!['}']);
            assert(is_punct_tok(toks@[pj], '}'));
            assert(seq!['}'][0] != seq![','][0]);
            assert(!is_punct_tok(toks@[pj], ','));
            cur.advance();
            cur.eat_punct(';');
            proof {
                assert(enum_values(toks@, pj) == (Seq::<(int, Option<u32>)>::empty(), cur.pos as int));
                assert(vals + Seq::<(int, Option<u32>)>::empty() =~= vals);
            }
            break;
        }
        if t.kind == TokenKind::Ident {
            let ghost pv = cur.pos as int;
            let v_line = t.line;
            cur.advance();
            let mut value: Option<u32> = None;
            let ghost kn: int = -1;
            if cur.eat_punct('=') {
                if cur.pos < toks.len() {
                    let n = &toks[cur.pos];
                    if n.kind == TokenKind::Number {
                        proof {
                            kn = cur.pos as int;
                        }
                        value = parse_number(n.text.as_str());
                        cur.advance();
                    }
                }
            }
            let id = builder.alloc_id();
            let vsym = Symbol {
                local_id: id,
                fqn: dotted3(module, name_tok.text.as_str(), t.text.as_str()),
                name: t.text.clone(),
                kind: SymbolKind::EnumValue,
                module: String::from_str(module),
                size: None,
                align: None,
                offset: value,
                vtable_slot: None,
                type_ref: None,
                flags: SymbolFlags::none(),
                source_loc: Some(SourceLoc { file: String::from_str(file), line: v_line }),
            };
            let ghost bp = *builder;
            let ghost ip = pv;
            builder.push_symbol(vsym);
            builder.add_relation(enum_id, id, RelationKind::Contains);
            proof {
                let vals0 = vals;
                let rest = enum_values(toks@, cur.pos as int);
                assert(enum_values(toks@, ip) == (seq![(ip, value)] + rest.0, rest.1));
                vals = vals.push((ip, value));
                assert(vals0 + (seq![(ip, value)] + rest.0) =~= vals + rest.0);
                assert(builder.symbols@.take(n0) =~= bp.symbols@.take(n0));
                assert(builder.relations@.take(r0) =~= bp.relations@.take(r0));
                assert forall|k: int| 0 <= k < vals.len() implies {
                    let v = #[trigger] builder.symbols@[n0 + 1 + k];
                    let vn = toks@[vals[k].0].text@;
                    &&& v.local_id == n0 + 1 + k
                    &&& v.name@ == vn
                    &&& v.fqn@ == module@ + seq!['.'] + name_tok.text@ + seq!['.'] + vn
                    &&& v.kind == SymbolKind::EnumValue
                    &&& v.module@ == module@
                    &&& v.offset == vals[k].1
                    &&& v.flags == unpacked_flags(0)
                    &&& v.type_ref is None
                    &&& v.source_loc matches Some(l) && l.file@ == file@ && l.line == toks@[vals[k].0].line
                    &&& builder.relations@[r0 + 1 + k] == crate::model::Relation {
                        from: n0 as u32,
                        to: (n0 + 1 + k) as u32,
                        kind: RelationKind::Contains,
                    }
                } by {
                    if k < vals0.len() {
                        assert(builder.symbols@[n0 + 1 + k] == bp.symbols@[n0 + 1 + k]);
                        assert(builder.relations@[r0 + 1 + k] == bp.relations@[r0 + 1 + k]);
                    }
                }
            }
            proof {
                let e0 = old(builder).symbols@.len() as int;
                let r0 = old(builder).relations@.len() as int;
                assert forall|p: int| e0 < p < builder.symbols@.len() implies {
                    &&& (#[trigger] builder.symbols@[p]).kind == SymbolKind::EnumValue
                    &&& builder.symbols@[p].fqn@ == module@ + seq!['.'] + builder.symbols@[e0].name@
                        + seq!['.'] + builder.symbols@[p].name@
                    &&& builder.relations@[r0 + (p - e0)] == crate::model::Relation {
                        from: builder.symbols@[e0].local_id,
                        to: builder.symbols@[p].local_id,
                        kind: RelationKind::Contains,
                    }
                } by {
                    if p < bp.symbols@.len() {
                        assert(builder.symbols@[p] == bp.symbols@[p]);
                        assert(builder.relations@[r0 + (p - e0)] == bp.relations@[r0 + (p - e0)]);
                    }
                }
                assert forall|p: int| e0 < p < builder.symbols@.len() implies value_numbered(
                    toks@,
                    old(cur).pos as int,
                    cur.pos as int,
                    #[trigger] builder.symbols@[p],
                ) by {
                    if p < bp.symbols@.len() {
                        assert(builder.symbols@[p] == bp.symbols@[p]);
                        assert(value_numbered(toks@, old(cur).pos as int, pb as int, bp.symbols@[p]));
                        if bp.symbols@[p].offset is Some {
                            let k = choose|k: int|
                                old(cur).pos <= k < pb && (#[trigger] toks@[k]).kind == TokenKind::Number
                                    && bp.symbols@[p].offset == number_value(encode_utf8(toks@[k].text@));
                            assert(old(cur).pos <= k < cur.pos);
                        }
                    } else if value is Some {
                        assert(toks@[kn].kind == TokenKind::Number);
                    }
                }
            }
            continue;
        }
        cur.advance();
    }
    proof {
        lemma_step_trans(*old(cur), c1, *cur, *old(builder), b1, *builder, *old(warnings), w1, *warnings, module@);
    }
}

// ---------------------------------------------------------------------------
// Classes, structs and scopes
// ---------------------------------------------------------------------------

/// `class|struct Name [: [public] Parent] { body };` — adds the `Class` or
/// `Struct`, contained in `parent_id`, an `Inherits` relation to the
/// parent when a symbol has its fqn, and the members of the body.
#[verifier::spinoff_prover]
#[verifier::rlimit(40)]
pub fn parse_class_or_struct(
    cur: &mut Cursor,
    module: &str,
    file: &str,
    is_class: bool,
    parent_id: u32,
    builder: &mut GraphBuilder,
    warnings: &mut u64,
)
    requires
        step_pre(*old(cur), *old(builder), *old(warnings)),
        parent_id < old(builder).symbols@.len(),
        old(cur).pos < old(cur).tokens@.len(),
    ensures
        step_ok(*old(cur), *final(cur), *old(builder), *final(builder), *old(warnings), *final(warnings), module@),
        final(cur).pos > old(cur).pos,
        type_added(
            *old(builder),
            *final(builder),
            module@,
            parent_id,
            if is_class {
                SymbolKind::Class
            } else {
                SymbolKind::Struct
            },
        ),
        final(builder).symbols@.len() > old(builder).symbols@.len() ==> final(builder).symbols@[old(
            builder,
        ).symbols@.len() as int].flags.public == is_class,
        final(builder).symbols@.len() > old(builder).symbols@.len() ==> inherits_linked(
            *old(builder),
            *final(builder),
            module@,
            header_parent(old(cur).tokens@, old(cur).pos as int),
        ),
        class_head(old(cur).tokens@, old(cur).pos as int).kind != 2 ==> final(cur).pos == class_head(
            old(cur).tokens@,
            old(cur).pos as int,
        ).end,
        class_head(old(cur).tokens@, old(cur).pos as int).kind == 2 ==> final(cur).pos >= class_head(
            old(cur).tokens@,
            old(cur).pos as int,
        ).end,
        class_outcome(
            old(cur).tokens@,
            old(cur).pos as int,
            module@,
            file@,
            is_class,
            parent_id,
            *old(builder),
            *final(builder),
            *old(warnings),
            *final(warnings),
        ),
        class_ok(
            old(cur).tokens@,
            old(cur).pos as int,
            module@,
            file@,
            is_class,
            parent_id,
            (*old(builder), *old(warnings)),
            (*final(builder), *final(warnings)),
            final(cur).pos as int,
        ),
    decreases old(cur).rest(), 1int,
{
    let toks = cur.tokens;
    let header_line = toks[cur.pos].line;
    cur.advance();
    proof {
        lemma_punct_literals();
    }
    if cur.pos >= toks.len() {
        warn(warnings);
        return;
    }
    let name_tok = &toks[cur.pos];
    if name_tok.kind != TokenKind::Ident {
        warn(warnings);
        return;
    }
    cur.advance();
    let mut parent_name: Option<&String> = None;
    let ghost i0 = old(cur).pos as int;
    proof {
        reveal_strlit("public");
        reveal_strlit("private");
        reveal_strlit("protected");
    }
    if cur.eat_punct(':') {
        let _ = cur.eat_ident("public") || cur.eat_ident("private") || cur.eat_ident("protected");
        assert(cur.pos == if i0 + 3 < toks@.len() && access_kw(toks@[i0 + 3]) {
            i0 + 4
        } else {
            i0 + 3
        });
        if cur.pos < toks.len() {
            let pt = &toks[cur.pos];
            if pt.kind == TokenKind::Ident {
                parent_name = Some(&pt.text);
                cur.advance();
            }
        }
    }
    assert(match parent_name {
        Some(pn) => header_parent(toks@, i0) == Some(pn@),
        None => header_parent(toks@, i0) is None,
    });
    if cur.eat_punct(';') {
        return;
    }
    if !cur.eat_punct('{') {
        warn(warnings);
        proof {
            lemma_skip_semi_end(cur.tokens@, cur.pos as int);
        }
        skip_until_semi_or_braced(cur);
        return;
    }
    let kind = if is_class {
        SymbolKind::Class
    } else {
        SymbolKind::Struct
    };
    let class_id = builder.alloc_id();
    // The parent is looked up once the class itself is in the graph, so a
    // class naming itself as parent finds itself.
    let parent: Option<Option<u32>> = match parent_name {
        Some(pn) => {
            if str_eq(pn.as_str(), name_tok.text.as_str()) {
                Some(Some(class_id))
            } else {
                let pf = dotted(module, pn.as_str());
                Some(builder.lookup_fqn(pf.as_str()))
            }
        },
        None => None,
    };
    let source_file = match (parent_name, parent) {
        (Some(pn), Some(None)) => {
            let tagged = concat(file, "#parent=");
            concat(tagged.as_str(), pn.as_str())
        },
        _ => String::from_str(file),
    };
    let flags = SymbolFlags {
        public: is_class,
        private: false,
        protected: false,
        virtual_fn: false,
        pure_virtual: false,
        static_member: false,
        const_member: false,
    };
    let sym = Symbol {
        local_id: class_id,
        fqn: dotted(module, name_tok.text.as_str()),
        name: name_tok.text.clone(),
        kind,
        module: String::from_str(module),
        size: None,
        align: None,
        offset: None,
        vtable_slot: None,
        type_ref: None,
        flags,
        source_loc: Some(SourceLoc { file: source_file, line: header_line }),
    };
    let ghost b0 = *builder;
    builder.push_symbol(sym);
    builder.add_relation(parent_id, class_id, RelationKind::Contains);
    match parent {
        Some(Some(pid)) => {
            builder.add_relation(class_id, pid, RelationKind::Inherits);
        },
        _ => {},
    }
    proof {
        match parent_name {
            Some(pn) => {
                if pn@ != name_tok.text@ {
                    let f = module@ + seq!['.'] + pn@;
                    assert(builder.symbols@ == b0.symbols@.push(sym));
                    assert(b0.symbols@.push(sym).drop_last() =~= b0.symbols@);
                    assert(sym.fqn@ != f) by {
                        if sym.fqn@ == f {
                            assert(sym.fqn@.subrange(module@.len() + 1int, sym.fqn@.len() as int) =~= name_tok.text@);
                            assert(f.subrange(module@.len() + 1int, f.len() as int) =~= pn@);
                        }
                    }
                }
            },
            None => {},
        }
    }
    let ghost b1 = *builder;
    let ghost c1 = *cur;
    let ghost w1 = *warnings;
    assert(step_ok(*old(cur), c1, *old(builder), b1, *old(warnings), w1, module@));
    assert(class_outcome(toks@, i0, module@, file@, is_class, parent_id, *old(builder), b1, *old(warnings), w1));
    assert(class_head(toks@, i0).kind == 2 && class_head(toks@, i0).end == c1.pos);
    parse_class_body(cur, module, file, class_id, name_tok.text.as_str(), builder, warnings);
    proof {
        lemma_step_trans(*old(cur), c1, *cur, *old(builder), b1, *builder, *old(warnings), w1, *warnings, module@);
    }
    let ghost c2 = *cur;
    assert(parent_found(toks@, i0, module@, old(builder).symbols@) == (parent matches Some(Some(_))));
    assert(b1.relations@.len() == old(builder).relations@.len() + 1 + (if parent_found(
        toks@,
        i0,
        module@,
        old(builder).symbols@,
    ) {
        1int
    } else {
        0int
    }));
    cur.eat_punct('}');
    cur.eat_punct(';');
    proof {
        lemma_step_trans(*old(cur), c2, *cur, *old(builder), *builder, *builder, *old(warnings), *warnings, *warnings, module@);
        let s0 = (*old(builder), *old(warnings));
        let sh = (b1, w1);
        let h = class_head(toks@, i0);
        assert(b1.symbols@.drop_last() =~= old(builder).symbols@);
        assert(parent_found(toks@, i0, module@, old(builder).symbols@) ==> b1.relations@[b1.relations@.len() - 1].to
            == parent_target(toks@, i0, module@, old(builder).symbols@) as u32);
        assert(header_done(toks@, i0, module@, file@, is_class, parent_id, s0, sh));
        assert(body_ok(
            toks@,
            h.end,
            public_access(),
            module@,
            file@,
            toks@[h.name_pos].text@,
            old(builder).symbols@.len() as u32,
            sh,
            (*builder, *warnings),
            c2.pos as int,
        ));
        assert(cur.pos as int == close_end(toks@, c2.pos as int));
        assert(reached(sh, c2.pos as int));
    }
}

/// The access a label sets: only the flag it names.
pub open spec fn access_flags(w: Seq<char>) -> SymbolFlags {
    SymbolFlags {
        public: w == seq!['p', 'u', 'b', 'l', 'i', 'c'],
        private: w == seq!['p', 'r', 'i', 'v', 'a', 't', 'e'],
        protected: w == seq!['p', 'r', 'o', 't', 'e', 'c', 't', 'e', 'd'],
        virtual_fn: false,
        pure_virtual: false,
        static_member: false,
        const_member: false,
    }
}

/// The access of members before any label: public.
pub open spec fn public_access() -> SymbolFlags {
    access_flags(seq!['p', 'u', 'b', 'l', 'i', 'c'])
}

pub open spec fn access_word(w: Seq<char>) -> bool {
    w == seq!['p', 'u', 'b', 'l', 'i', 'c'] || w == seq!['p', 'r', 'i', 'v', 'a', 't', 'e'] || w
        == seq!['p', 'r', 'o', 't', 'e', 'c', 't', 'e', 'd']
}

/// A point a parse can reach: a state (the graph and the warnings
/// counted) at a token position.
pub open spec fn reached(s: (GraphBuilder, u64), j: int) -> bool {
    true
}

/// The state a parse works on: the graph so far and the warnings counted.
/// `body_ok` holds when parsing a class body from `i` under `access`, in
/// the class `class_id` named `class_name`, takes state `s0` to `s1` and
/// stops at `end` (its `}` or the end of the tokens). An access label
/// `public:`, `private:` or `protected:` sets the access of the members
/// after it; a `static` statement is skipped; comments and other tokens
/// are passed over; every other statement is one member statement.
pub open spec fn body_ok(
    toks: Seq<Token>,
    i: int,
    access: SymbolFlags,
    module: Seq<char>,
    file: Seq<char>,
    class_name: Seq<char>,
    class_id: u32,
    s0: (GraphBuilder, u64),
    s1: (GraphBuilder, u64),
    end: int,
) -> bool
    decreases toks.len() - i, 2int,
{
    if i < 0 || i >= toks.len() || is_punct_tok(toks[i], '}') {
        s1 == s0 && end == i
    } else {
        let t = toks[i];
        let w = t.text@;
        if t.kind != TokenKind::Ident {
            body_ok(toks, i + 1, access, module, file, class_name, class_id, s0, s1, end)
        } else if access_word(w) && i + 1 < toks.len() && toks[i + 1].text@ == seq![':'] {
            body_ok(toks, i + 2, access_flags(w), module, file, class_name, class_id, s0, s1, end)
        } else if w == seq!['s', 't', 'a', 't', 'i', 'c'] {
            let e = skip_semi_end(toks, i);
            &&& i < e <= toks.len()
            &&& body_ok(toks, e, access, module, file, class_name, class_id, s0, s1, end)
        } else {
            exists|sm: (GraphBuilder, u64), j: int|
                {
                    &&& #[trigger] reached(sm, j)
                    &&& i < j <= toks.len()
                    &&& member_stmt_ok(toks, i, access, module, file, class_name, class_id, s0, sm, j)
                    &&& body_ok(toks, j, access, module, file, class_name, class_id, sm, s1, end)
                }
        }
    }
}

/// One member statement of a class body at `i`, from state `s0` to `s1`,
/// ending at `j`: a nested class, struct or enum; a field (the statement's
/// first `(`, `;` or `}` is a `;`); a method (a `(`, or a leading
/// `virtual`); anything else is skipped with a warning.
pub open spec fn member_stmt_ok(
    toks: Seq<Token>,
    i: int,
    access: SymbolFlags,
    module: Seq<char>,
    file: Seq<char>,
    class_name: Seq<char>,
    class_id: u32,
    s0: (GraphBuilder, u64),
    s1: (GraphBuilder, u64),
    j: int,
) -> bool
    decreases toks.len() - i, 1int,
{
    if 0 <= i < toks.len() {
        let w = toks[i].text@;
        if w == seq!['c', 'l', 'a', 's', 's'] || w == seq!['s', 't', 'r', 'u', 'c', 't'] {
            class_ok(toks, i, module, file, w == seq!['c', 'l', 'a', 's', 's'], class_id, s0, s1, j)
        } else if w == seq!['e', 'n', 'u', 'm'] {
            &&& enum_outcome(toks, i, module, file, class_id, s0.0, s1.0, s0.1, s1.1)
            &&& j == enum_parse(toks, i).end
        } else {
            let is_method = w == seq!['v', 'i', 'r', 't', 'u', 'a', 'l'] || decl_shape_from(toks, i, 0) is Method;
            let is_field = !is_method && decl_shape_from(toks, i, 0) is Field;
            if is_field {
                let m = field_parse(toks, i);
                &&& j == m.end
                &&& member_outcome(m.ok, s0.0, s1.0, s0.1, s1.1, class_id)
                &&& m.ok ==> field_symbol(toks, i, module, file, class_name, access, s1.0.symbols@.last())
            } else if is_method {
                let m = method_parse(toks, i);
                &&& j == m.end
                &&& member_outcome(m.ok, s0.0, s1.0, s0.1, s1.1, class_id)
                &&& m.ok ==> method_symbol(toks, i, module, file, class_name, access, s1.0.symbols@.last())
            } else {
                &&& j == skip_semi_end(toks, i)
                &&& s1.0 == s0.0
                &&& s1.1 == s0.1 + 1
            }
        }
    } else {
        false
    }
}

/// Where the parent named by the class header at `i` is: the class
/// itself (the next id) when it names itself, else the last symbol of
/// fqn `module.parent`.
pub open spec fn parent_target(toks: Seq<Token>, i: int, module: Seq<char>, syms: Seq<Symbol>) -> int {
    match header_parent(toks, i) {
        Some(pn) => if pn == toks[i + 1].text@ {
            syms.len() as int
        } else {
            last_fqn_pos(syms, module + seq!['.'] + pn)
        },
        None => -1,
    }
}

/// The header of the class at `i` opened a body: from `s0` to `sh` the
/// class symbol was added, contained in `parent_id`, and linked to its
/// parent when that is found; no warning.
pub open spec fn header_done(
    toks: Seq<Token>,
    i: int,
    module: Seq<char>,
    file: Seq<char>,
    is_class: bool,
    parent_id: u32,
    s0: (GraphBuilder, u64),
    sh: (GraphBuilder, u64),
) -> bool {
    let n0 = s0.0.symbols@.len();
    let contains = crate::model::Relation {
        from: parent_id,
        to: n0 as u32,
        kind: RelationKind::Contains,
    };
    &&& class_outcome(toks, i, module, file, is_class, parent_id, s0.0, sh.0, s0.1, sh.1)
    &&& sh.1 == s0.1
    &&& sh.0.symbols@.len() == n0 + 1
    &&& sh.0.symbols@.drop_last() == s0.0.symbols@
    &&& sh.0.relations@ == if parent_found(toks, i, module, s0.0.symbols@) {
        s0.0.relations@.push(contains).push(
            crate::model::Relation {
                from: n0 as u32,
                to: parent_target(toks, i, module, s0.0.symbols@) as u32,
                kind: RelationKind::Inherits,
            },
        )
    } else {
        s0.0.relations@.push(contains)
    }
}

/// The class or struct at `i`, from state `s0` to `s1`, ending at `j`:
/// without a body it adds nothing (a forward declaration, or a warning);
/// with one, its header adds the class, then its body is parsed as the
/// class's members (nested types included), then its `}` and `;` are
/// passed.
pub open spec fn class_ok(
    toks: Seq<Token>,
    i: int,
    module: Seq<char>,
    file: Seq<char>,
    is_class: bool,
    parent_id: u32,
    s0: (GraphBuilder, u64),
    s1: (GraphBuilder, u64),
    j: int,
) -> bool
    decreases toks.len() - i, 0int,
{
    let h = class_head(toks, i);
    if h.kind != 2 {
        &&& class_outcome(toks, i, module, file, is_class, parent_id, s0.0, s1.0, s0.1, s1.1)
        &&& j == h.end
    } else {
        exists|sh: (GraphBuilder, u64), e: int|
            {
                &&& #[trigger] reached(sh, e)
                &&& header_done(toks, i, module, file, is_class, parent_id, s0, sh)
                &&& 0 <= i < h.end <= toks.len()
                &&& body_ok(
                    toks,
                    h.end,
                    public_access(),
                    module,
                    file,
                    toks[h.name_pos].text@,
                    s0.0.symbols@.len() as u32,
                    sh,
                    s1,
                    e,
                )
                &&& j == close_end(toks, e)
            }
    }
}

/// The members of a class body, up to (not past) its closing `}`.
#[verifier::spinoff_prover]
#[verifier::rlimit(100)]
pub fn parse_class_body(
    cur: &mut Cursor,
    module: &str,
    file: &str,
    class_id: u32,
    class_name: &str,
    builder: &mut GraphBuilder,
    warnings: &mut u64,
)
    requires
        step_pre(*old(cur), *old(builder), *old(warnings)),
        class_id < old(builder).symbols@.len(),
    ensures
        step_ok(*old(cur), *final(cur), *old(builder), *final(builder), *old(warnings), *final(warnings), module@),
        final(cur).pos == final(cur).tokens@.len() || is_punct_tok(
            final(cur).tokens@[final(cur).pos as int],
            '}',
        ),
        body_ok(
            old(cur).tokens@,
            old(cur).pos as int,
            public_access(),
            module@,
            file@,
            class_name@,
            class_id,
            (*old(builder), *old(warnings)),
            (*final(builder), *final(warnings)),
            final(cur).pos as int,
        ),
    decreases old(cur).rest(), 2int,
{
    let toks = cur.tokens;
    let ghost i0 = cur.pos as int;
    let ghost acc0 = public_access();
    let ghost st0 = (*builder, *warnings);
    let mut current_access = SymbolFlags {
        public: true,
        private: false,
        protected: false,
        virtual_fn: false,
        pure_virtual: false,
        static_member: false,
        const_member: false,
    };
    proof {
        assert(step_ok(*old(cur), *cur, *old(builder), *builder, *old(warnings), *warnings, module@));
        assert(current_access == acc0);
    }
    while cur.pos < toks.len()
        invariant
            cur.tokens == toks,
            toks == old(cur).tokens,
            cur.wf(),
            step_pre(*old(cur), *old(builder), *old(warnings)),
            class_id < old(builder).symbols@.len(),
            step_ok(*old(cur), *cur, *old(builder), *builder, *old(warnings), *warnings, module@),
            i0 == old(cur).pos,
            st0 == (*old(builder), *old(warnings)),
            acc0 == public_access(),
            forall|x: (GraphBuilder, u64), e: int|
                #[trigger] body_ok(
                    toks@,
                    cur.pos as int,
                    current_access,
                    module@,
                    file@,
                    class_name@,
                    class_id,
                    (*builder, *warnings),
                    x,
                    e,
                ) ==> body_ok(toks@, i0, acc0, module@, file@, class_name@, class_id, st0, x, e),
        decreases toks@.len() - cur.pos,
    {
        proof {
            lemma_punct_literals();
            lemma_body_literals();
        }
        let ghost c0 = *cur;
        let ghost b0 = *builder;
        let ghost w0 = *warnings;
        let ghost pi = cur.pos as int;
        let ghost acc = current_access;
        let t = &toks[cur.pos];
        if tok_is(t, TokenKind::Punct, "}") {
            proof {
                assert(body_ok(toks@, pi, acc, module@, file@, class_name@, class_id, (b0, w0), (b0, w0), pi));
            }
            return;
        }
        if t.kind != TokenKind::Ident {
            cur.advance();
            proof {
                assert forall|x: (GraphBuilder, u64), e: int|
                    #[trigger] body_ok(toks@, pi + 1, acc, module@, file@, class_name@, class_id, (b0, w0), x, e)
                    implies body_ok(toks@, i0, acc0, module@, file@, class_name@, class_id, st0, x, e) by {
                    assert(body_ok(toks@, pi, acc, module@, file@, class_name@, class_id, (b0, w0), x, e));
                }
            }
            continue;
        }
        let is_access = str_eq(t.text.as_str(), "public") || str_eq(t.text.as_str(), "private")
            || str_eq(t.text.as_str(), "protected");
        let colon_next = match cur.peek_at(1) {
            Some(n) => str_eq(n.text.as_str(), ":"),
            None => false,
        };
        if is_access && colon_next {
            current_access = SymbolFlags {
                public: str_eq(t.text.as_str(), "public"),
                private: str_eq(t.text.as_str(), "private"),
                protected: str_eq(t.text.as_str(), "protected"),
                virtual_fn: false,
                pure_virtual: false,
                static_member: false,
                const_member: false,
            };
            assert(current_access == access_flags(t.text@));
            cur.advance();
            cur.advance();
            proof {
                assert forall|x: (GraphBuilder, u64), e: int|
                    #[trigger] body_ok(toks@, pi + 2, current_access, module@, file@, class_name@, class_id, (b0, w0), x, e)
                    implies body_ok(toks@, i0, acc0, module@, file@, class_name@, class_id, st0, x, e) by {
                    assert(body_ok(toks@, pi, acc, module@, file@, class_name@, class_id, (b0, w0), x, e));
                }
            }
            continue;
        }
        if str_eq(t.text.as_str(), "static") {
            proof {
                lemma_skip_semi_end(cur.tokens@, cur.pos as int);
            }
            skip_until_semi_or_braced(cur);
            proof {
                let q = cur.pos as int;
                assert forall|x: (GraphBuilder, u64), e: int|
                    #[trigger] body_ok(toks@, q, acc, module@, file@, class_name@, class_id, (b0, w0), x, e)
                    implies body_ok(toks@, i0, acc0, module@, file@, class_name@, class_id, st0, x, e) by {
                    assert(body_ok(toks@, pi, acc, module@, file@, class_name@, class_id, (b0, w0), x, e));
                }
            }
            continue;
        }
        if str_eq(t.text.as_str(), "class") || str_eq(t.text.as_str(), "struct") {
            let is_class = str_eq(t.text.as_str(), "class");
            parse_class_or_struct(cur, module, file, is_class, class_id, builder, warnings);
        } else if str_eq(t.text.as_str(), "enum") {
            parse_enum(cur, module, file, class_id, builder, warnings);
        } else {
            let is_virtual = str_eq(t.text.as_str(), "virtual");
            let shape = if is_virtual {
                DeclShape::Method
            } else {
                peek_decl_shape(cur)
            };
            assert(is_virtual ==> t.text@ == seq!['v', 'i', 'r', 't', 'u', 'a', 'l']);
            assert(!is_virtual ==> shape == decl_shape_from(toks@, pi, 0));
            match shape {
                DeclShape::Field => {
                    parse_field(cur, module, file, class_id, class_name, current_access, builder, warnings);
                },
                DeclShape::Method => {
                    parse_method(cur, module, file, class_id, class_name, current_access, builder, warnings);
                },
                DeclShape::Unknown => {
                    warn(warnings);
                    proof {
                        lemma_skip_semi_end(cur.tokens@, cur.pos as int);
                    }
                    skip_until_semi_or_braced(cur);
                },
            }
        }
        proof {
            lemma_step_trans(*old(cur), c0, *cur, *old(builder), b0, *builder, *old(warnings), w0, *warnings, module@);
            let q = cur.pos as int;
            let s1 = (*builder, *warnings);
            assert(member_stmt_ok(toks@, pi, acc, module@, file@, class_name@, class_id, (b0, w0), s1, q));
            assert(toks@[pi].kind == TokenKind::Ident);
            assert(!is_punct_tok(toks@[pi], '}'));
            assert(!(access_word(toks@[pi].text@) && pi + 1 < toks@.len() && toks@[pi + 1].text@ == seq![':']));
            assert(toks@[pi].text@ != seq!['s', 't', 'a', 't', 'i', 'c']);
            assert(pi < q <= toks@.len());
            assert forall|x: (GraphBuilder, u64), e: int|
                #[trigger] body_ok(toks@, q, acc, module@, file@, class_name@, class_id, s1, x, e)
                implies body_ok(toks@, i0, acc0, module@, file@, class_name@, class_id, st0, x, e) by {
                lemma_body_step(toks@, pi, acc, module@, file@, class_name@, class_id, (b0, w0), s1, q, x, e);
            }
        }
    }
    proof {
        let q = cur.pos as int;
        assert(body_ok(toks@, q, current_access, module@, file@, class_name@, class_id, (*builder, *warnings), (*builder, *warnings), q));
    }
}

/// A member statement followed by the rest of the body is the body.
proof fn lemma_body_step(
    toks: Seq<Token>,
    i: int,
    access: SymbolFlags,
    module: Seq<char>,
    file: Seq<char>,
    class_name: Seq<char>,
    class_id: u32,
    s0: (GraphBuilder, u64),
    sm: (GraphBuilder, u64),
    j: int,
    s1: (GraphBuilder, u64),
    end: int,
)
    requires
        0 <= i < j <= toks.len(),
        toks[i].kind == TokenKind::Ident,
        !is_punct_tok(toks[i], '}'),
        !(access_word(toks[i].text@) && i + 1 < toks.len() && toks[i + 1].text@ == seq![':']),
        toks[i].text@ != seq!['s', 't', 'a', 't', 'i', 'c'],
        member_stmt_ok(toks, i, access, module, file, class_name, class_id, s0, sm, j),
        body_ok(toks, j, access, module, file, class_name, class_id, sm, s1, end),
    ensures
        body_ok(toks, i, access, module, file, class_name, class_id, s0, s1, end),
{
    assert(reached(sm, j));
}

/// The words a class body's statements are told apart by.
proof fn lemma_body_literals()
    ensures
        "public"@ == seq!['p', 'u', 'b', 'l', 'i', 'c'],
        "private"@ == seq!['p', 'r', 'i', 'v', 'a', 't', 'e'],
        "protected"@ == seq!['p', 'r', 'o', 't', 'e', 'c', 't', 'e', 'd'],
        "static"@ == seq!['s', 't', 'a', 't', 'i', 'c'],
        "class"@ == seq!['c', 'l', 'a', 's', 's'],
        "struct"@ == seq!['s', 't', 'r', 'u', 'c', 't'],
        "enum"@ == seq!['e', 'n', 'u', 'm'],
        "virtual"@ == seq!['v', 'i', 'r', 't', 'u', 'a', 'l'],
        ":"@ == seq![':'],
{
    reveal_strlit("public");
    reveal_strlit("private");
    reveal_strlit("protected");
    reveal_strlit("static");
    reveal_strlit("class");
    reveal_strlit("struct");
    reveal_strlit("enum");
    reveal_strlit("virtual");
    reveal_strlit(":");
    assert("public"@ =~= seq!['p', 'u', 'b', 'l', 'i', 'c']);
    assert("private"@ =~= seq!['p', 'r', 'i', 'v', 'a', 't', 'e']);
    assert("protected"@ =~= seq!['p', 'r', 'o', 't', 'e', 'c', 't', 'e', 'd']);
    assert("static"@ =~= seq!['s', 't', 'a', 't', 'i', 'c']);
    assert("class"@ =~= seq!['c', 'l', 'a', 's', 's']);
    assert("struct"@ =~= seq!['s', 't', 'r', 'u', 'c', 't']);
    assert("enum"@ =~= seq!['e', 'n', 'u', 'm']);
    assert("virtual"@ =~= seq!['v', 'i', 'r', 't', 'u', 'a', 'l']);
    assert(":"@ =~= seq![':']);
}

/// Parsing the declarations of a scope from `i` in the parent
/// `parent_id` takes state `s0` to `s1` and stops at `end` (the `}`
/// closing the scope, or the end of the tokens); each statement in
/// between is one scope statement.
pub open spec fn scope_ok(
    toks: Seq<Token>,
    i: int,
    module: Seq<char>,
    file: Seq<char>,
    parent_id: u32,
    s0: (GraphBuilder, u64),
    s1: (GraphBuilder, u64),
    end: int,
) -> bool
    decreases toks.len() - i, 1int,
{
    if i < 0 || i >= toks.len() || is_punct_tok(toks[i], '}') {
        s1 == s0 && end == i
    } else {
        exists|sm: (GraphBuilder, u64), j: int|
            {
                &&& #[trigger] reached(sm, j)
                &&& i < j <= toks.len()
                &&& scope_stmt_ok(toks, i, module, file, parent_id, s0, sm, j)
                &&& scope_ok(toks, j, module, file, parent_id, sm, s1, end)
            }
    }
}

/// One statement of a scope at `i`, from state `s0` to `s1`, ending at
/// `j`: `namespace [Name] { ... }` parses the declarations inside it (the
/// name is in no fqn), then passes the `}` and `;`; a class, struct or
/// enum; `template`, `typedef` and `using` statements are skipped; any
/// other token is passed over.
pub open spec fn scope_stmt_ok(
    toks: Seq<Token>,
    i: int,
    module: Seq<char>,
    file: Seq<char>,
    parent_id: u32,
    s0: (GraphBuilder, u64),
    s1: (GraphBuilder, u64),
    j: int,
) -> bool
    decreases toks.len() - i, 0int,
{
    if 0 <= i < toks.len() {
        let t = toks[i];
        let w = t.text@;
        if t.kind != TokenKind::Ident {
            s1 == s0 && j == i + 1
        } else if w == seq!['n', 'a', 'm', 'e', 's', 'p', 'a', 'c', 'e'] {
            let k = if i + 1 < toks.len() && toks[i + 1].kind == TokenKind::Ident {
                i + 2
            } else {
                i + 1
            };
            if k < toks.len() && is_punct_tok(toks[k], '{') {
                exists|e: int|
                    #[trigger] reached(s1, e) && scope_ok(toks, k + 1, module, file, parent_id, s0, s1, e)
                        && j == close_end(toks, e)
            } else {
                s1 == s0 && j == k
            }
        } else if w == seq!['c', 'l', 'a', 's', 's'] || w == seq!['s', 't', 'r', 'u', 'c', 't'] {
            class_ok(toks, i, module, file, w == seq!['c', 'l', 'a', 's', 's'], parent_id, s0, s1, j)
        } else if w == seq!['e', 'n', 'u', 'm'] {
            &&& enum_outcome(toks, i, module, file, parent_id, s0.0, s1.0, s0.1, s1.1)
            &&& j == enum_parse(toks, i).end
        } else if w == seq!['t', 'e', 'm', 'p', 'l', 'a', 't', 'e'] || w == seq![
            't',
            'y',
            'p',
            'e',
            'd',
            'e',
            'f',
        ] || w == seq!['u', 's', 'i', 'n', 'g'] {
            s1 == s0 && j == skip_semi_end(toks, i + 1)
        } else {
            s1 == s0 && j == i + 1
        }
    } else {
        false
    }
}

/// Top-level declarations of a file or of a `namespace { ... }`, up to
/// (not past) the `}` that closes the scope.
#[verifier::spinoff_prover]
pub fn parse_until_brace_or_eof(
    cur: &mut Cursor,
    module: &str,
    file: &str,
    parent_id: u32,
    builder: &mut GraphBuilder,
    warnings: &mut u64,
)
    requires
        step_pre(*old(cur), *old(builder), *old(warnings)),
        parent_id < old(builder).symbols@.len(),
    ensures
        step_ok(*old(cur), *final(cur), *old(builder), *final(builder), *old(warnings), *final(warnings), module@),
        final(cur).pos == final(cur).tokens@.len() || is_punct_tok(
            final(cur).tokens@[final(cur).pos as int],
            '}',
        ),
        scope_ok(
            old(cur).tokens@,
            old(cur).pos as int,
            module@,
            file@,
            parent_id,
            (*old(builder), *old(warnings)),
            (*final(builder), *final(warnings)),
            final(cur).pos as int,
        ),
    decreases old(cur).rest(), 4int,
{
    let toks = cur.tokens;
    let ghost i0 = cur.pos as int;
    let ghost st0 = (*builder, *warnings);
    proof {
        assert(step_ok(*old(cur), *cur, *old(builder), *builder, *old(warnings), *warnings, module@));
    }
    while cur.pos < toks.len()
        invariant
            cur.tokens == toks,
            toks == old(cur).tokens,
            cur.wf(),
            step_pre(*old(cur), *old(builder), *old(warnings)),
            parent_id < old(builder).symbols@.len(),
            step_ok(*old(cur), *cur, *old(builder), *builder, *old(warnings), *warnings, module@),
            i0 == old(cur).pos,
            st0 == (*old(builder), *old(warnings)),
            forall|x: (GraphBuilder, u64), e: int|
                #[trigger] scope_ok(toks@, cur.pos as int, module@, file@, parent_id, (*builder, *warnings), x, e)
                    ==> scope_ok(toks@, i0, module@, file@, parent_id, st0, x, e),
        decreases toks@.len() - cur.pos,
    {
        proof {
            lemma_punct_literals();
        }
        let ghost c0 = *cur;
        let ghost b0 = *builder;
        let ghost w0 = *warnings;
        let ghost pi = cur.pos as int;
        if tok_is(&toks[cur.pos], TokenKind::Punct, "}") {
            proof {
                assert(scope_ok(toks@, pi, module@, file@, parent_id, (b0, w0), (b0, w0), pi));
            }
            return;
        }
        parse_scope_statement(cur, module, file, parent_id, builder, warnings);
        proof {
            lemma_step_trans(*old(cur), c0, *cur, *old(builder), b0, *builder, *old(warnings), w0, *warnings, module@);
            let q = cur.pos as int;
            let s1 = (*builder, *warnings);
            assert(scope_stmt_ok(toks@, pi, module@, file@, parent_id, (b0, w0), s1, q));
            assert(!is_punct_tok(toks@[pi], '}'));
            assert forall|x: (GraphBuilder, u64), e: int|
                #[trigger] scope_ok(toks@, q, module@, file@, parent_id, s1, x, e)
                implies scope_ok(toks@, i0, module@, file@, parent_id, st0, x, e) by {
                assert(reached(s1, q));
                assert(scope_ok(toks@, pi, module@, file@, parent_id, (b0, w0), x, e));
            }
        }
    }
    proof {
        let q = cur.pos as int;
        assert(scope_ok(toks@, q, module@, file@, parent_id, (*builder, *warnings), (*builder, *warnings), q));
    }
}

/// One statement of a scope, at a token that is not `}`.
#[verifier::spinoff_prover]
#[verifier::rlimit(100)]
fn parse_scope_statement(
    cur: &mut Cursor,
    module: &str,
    file: &str,
    parent_id: u32,
    builder: &mut GraphBuilder,
    warnings: &mut u64,
)
    requires
        step_pre(*old(cur), *old(builder), *old(warnings)),
        parent_id < old(builder).symbols@.len(),
        old(cur).pos < old(cur).tokens@.len(),
        !is_punct_tok(old(cur).tokens@[old(cur).pos as int], '}'),
    ensures
        step_ok(*old(cur), *final(cur), *old(builder), *final(builder), *old(warnings), *final(warnings), module@),
        final(cur).pos > old(cur).pos,
        scope_stmt_ok(
            old(cur).tokens@,
            old(cur).pos as int,
            module@,
            file@,
            parent_id,
            (*old(builder), *old(warnings)),
            (*final(builder), *final(warnings)),
            final(cur).pos as int,
        ),
    decreases old(cur).rest(), 3int,
{
    proof {
        lemma_punct_literals();
        lemma_body_literals();
        lemma_scope_literals();
    }
    let toks = cur.tokens;
    let ghost c0 = *cur;
    let ghost b0 = *builder;
    let ghost w0 = *warnings;
    let ghost pi = cur.pos as int;
    let t = &toks[cur.pos];
    if t.kind == TokenKind::Ident {
        if str_eq(t.text.as_str(), "namespace") {
            cur.advance();
            if cur.pos < toks.len() && toks[cur.pos].kind == TokenKind::Ident {
                cur.advance();
            }
            if cur.eat_punct('{') {
                let ghost c1 = *cur;
                parse_until_brace_or_eof(cur, module, file, parent_id, builder, warnings);
                proof {
                    lemma_step_trans(*old(cur), c1, *cur, *old(builder), b0, *builder, *old(warnings), w0, *warnings, module@);
                }
                let ghost pe = cur.pos as int;
                cur.eat_punct('}');
                cur.eat_punct(';');
                proof {
                    assert(scope_ok(toks@, c1.pos as int, module@, file@, parent_id, (b0, w0), (*builder, *warnings), pe));
                    assert(cur.pos as int == close_end(toks@, pe));
                    assert(reached((*builder, *warnings), pe));
                }
            }
            return;
        }
        if str_eq(t.text.as_str(), "class") || str_eq(t.text.as_str(), "struct") {
            let is_class = str_eq(t.text.as_str(), "class");
            parse_class_or_struct(cur, module, file, is_class, parent_id, builder, warnings);
            return;
        }
        if str_eq(t.text.as_str(), "enum") {
            parse_enum(cur, module, file, parent_id, builder, warnings);
            return;
        }
        if str_eq(t.text.as_str(), "template") || str_eq(t.text.as_str(), "typedef") || str_eq(
            t.text.as_str(),
            "using",
        ) {
            cur.advance();
            skip_until_semi_or_braced(cur);
            proof {
                lemma_skip_semi_end(cur.tokens@, c0.pos + 1);
            }
            return;
        }
    }
    cur.advance();
}

/// The words a scope's statements are told apart by.
proof fn lemma_scope_literals()
    ensures
        "namespace"@ == seq!['n', 'a', 'm', 'e', 's', 'p', 'a', 'c', 'e'],
        "template"@ == seq!['t', 'e', 'm', 'p', 'l', 'a', 't', 'e'],
        "typedef"@ == seq!['t', 'y', 'p', 'e', 'd', 'e', 'f'],
        "using"@ == seq!['u', 's', 'i', 'n', 'g'],
{
    reveal_strlit("namespace");
    reveal_strlit("template");
    reveal_strlit("typedef");
    reveal_strlit("using");
    assert("namespace"@ =~= seq!['n', 'a', 'm', 'e', 's', 'p', 'a', 'c', 'e']);
    assert("template"@ =~= seq!['t', 'e', 'm', 'p', 'l', 'a', 't', 'e']);
    assert("typedef"@ =~= seq!['t', 'y', 'p', 'e', 'd', 'e', 'f']);
    assert("using"@ =~= seq!['u', 's', 'i', 'n', 'g']);
}

/// Parsing the tokens `toks` of a file of `module` took the graph from
/// `b0` to `b1` and counted `w` warnings: the module symbol was added,
/// then the declarations of the file, contained in it, then the pending
/// type references were resolved and the `OfType` relations added.
pub open spec fn module_parsed(
    module: Seq<char>,
    file: Seq<char>,
    toks: Seq<Token>,
    b0: GraphBuilder,
    b1: GraphBuilder,
    w: u64,
) -> bool {
    exists|s1: (GraphBuilder, u64), s2: (GraphBuilder, u64), e: int|
        #![trigger reached(s1, 0), reached(s2, e)]
        {
            &&& s1.0.symbols@ == b0.symbols@.push(b1.symbols@[b0.symbols@.len() as int])
            &&& s1.0.relations@ == b0.relations@
            &&& s1.1 == 0
            &&& scope_ok(toks, 0, module, file, b0.symbols@.len() as u32, s1, s2, e)
            &&& w == s2.1
            &&& resolution_of(s2.0.symbols@, s2.0.pending_type_resolutions@, b1.symbols@)
            &&& b1.relations@ == s2.0.relations@ + of_type_upto(b1.symbols@, b1.symbols@.len())
        }
}

/// Parses the tokens of one file of `module`: adds the `Module` symbol,
/// then the file's declarations (contained in it), then resolves the
/// pending type references. Returns the number of warnings, at most one
/// per token.
pub fn parse_module(module: &str, file: &str, tokens: &[Token], builder: &mut GraphBuilder) -> (r:
    Result<u64, String>)
    requires
        old(builder).wf(),
        old(builder).symbols@.len() + tokens@.len() + 1 < u32::MAX,
    ensures
        final(builder).wf(),
        r matches Ok(w) && w <= tokens@.len(),
        old(builder).symbols@.len() < final(builder).symbols@.len() <= old(builder).symbols@.len()
            + tokens@.len() + 1,
        final(builder).symbols@[old(builder).symbols@.len() as int].kind == SymbolKind::Module,
        final(builder).symbols@[old(builder).symbols@.len() as int].fqn@ == module@,
        final(builder).symbols@[old(builder).symbols@.len() as int].name@ == module@,
        final(builder).symbols@[old(builder).symbols@.len() as int].local_id == old(builder).symbols@.len(),
        final(builder).symbols@[old(builder).symbols@.len() as int].flags == unpacked_flags(0),
        final(builder).symbols@[old(builder).symbols@.len() as int].source_loc matches Some(l) && l.file@
            == file@ && l.line == 1,
        forall|p: int|
            old(builder).symbols@.len() <= p < final(builder).symbols@.len() ==> (#[trigger] final(builder).symbols@[p]).module@
                == module@,
        forall|p: int|
            0 <= p < old(builder).symbols@.len() ==> (#[trigger] final(builder).symbols@[p]).fqn
                == old(builder).symbols@[p].fqn && final(builder).symbols@[p].kind
                == old(builder).symbols@[p].kind && final(builder).symbols@[p].module
                == old(builder).symbols@[p].module,
        old(builder).relations@.len() <= final(builder).relations@.len(),
        forall|k: int|
            0 <= k < old(builder).relations@.len() ==> #[trigger] final(builder).relations@[k]
                == old(builder).relations@[k],
        r matches Ok(w) && module_parsed(module@, file@, tokens@, *old(builder), *final(builder), w),
{
    let mut cur = Cursor::new(tokens);
    let mut warnings: u64 = 0;
    let module_id = builder.alloc_id();
    let sym = Symbol {
        local_id: module_id,
        fqn: String::from_str(module),
        name: String::from_str(module),
        kind: SymbolKind::Module,
        module: String::from_str(module),
        size: None,
        align: None,
        offset: None,
        vtable_slot: None,
        type_ref: None,
        flags: SymbolFlags::none(),
        source_loc: Some(SourceLoc { file: String::from_str(file), line: 1 }),
    };
    builder.push_symbol(sym);
    let ghost b1 = *builder;
    let ghost c1 = cur;
    parse_until_brace_or_eof(&mut cur, module, file, module_id, builder, &mut warnings);
    let ghost b2 = *builder;
    assert(b2.symbols@[module_id as int] == b1.symbols@[module_id as int]);
    builder.resolve_references();
    assert(builder.symbols@[module_id as int].name == b2.symbols@[module_id as int].name);
    assert(builder.symbols@[module_id as int].local_id == b2.symbols@[module_id as int].local_id);
    assert(builder.symbols@[module_id as int].flags == b2.symbols@[module_id as int].flags);
    assert(builder.symbols@[module_id as int].source_loc == b2.symbols@[module_id as int].source_loc);
    proof {
        assert(c1.pos == 0 && c1.tokens@ == tokens@);
        let m = builder.symbols@[module_id as int];
        let m1 = b1.symbols@[module_id as int];
        assert(m.type_ref == m1.type_ref);
        assert(m == m1);
        assert(b1.symbols@ =~= old(builder).symbols@.push(m));
        assert(scope_ok(tokens@, 0, module@, file@, module_id, (b1, 0u64), (b2, warnings), cur.pos as int));
        assert((b1, 0u64).0.symbols@ == old(builder).symbols@.push(builder.symbols@[old(builder).symbols@.len() as int]));
        assert((b1, 0u64).0.relations@ == old(builder).relations@);
        assert(resolution_of(b2.symbols@, b2.pending_type_resolutions@, builder.symbols@));
        assert(builder.relations@ == b2.relations@ + of_type_upto(builder.symbols@, builder.symbols@.len()));
        assert(reached((b1, 0u64), 0));
        assert(reached((b2, warnings), cur.pos as int));
        let b3 = *builder;
        assert forall|p: int|
            old(builder).symbols@.len() <= p < b3.symbols@.len() implies (
            #[trigger] b3.symbols@[p]).module@ == module@ by {
            assert(b2.symbols@[p].module == b3.symbols@[p].module);
            if p >= b1.symbols@.len() {
                assert(b2.symbols@[p].module@ == module@);
            }
        }
        assert forall|p: int| 0 <= p < old(builder).symbols@.len() implies (
        #[trigger] b3.symbols@[p]).fqn == old(builder).symbols@[p].fqn && b3.symbols@[p].kind
            == old(builder).symbols@[p].kind && b3.symbols@[p].module
            == old(builder).symbols@[p].module by {
            assert(b2.symbols@[p].fqn == b3.symbols@[p].fqn);
            assert(b2.symbols@[p].module == b3.symbols@[p].module);
            assert(b2.symbols@[p] == b1.symbols@[p]);
            assert(b1.symbols@[p] == old(builder).symbols@[p]);
        }
    }
    Ok(warnings)
}

} // verus!
