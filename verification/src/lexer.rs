//! Tokenizer for Dumper-7-style headers.
//!
//! Not a full C++ lexer: it recognizes identifiers, numbers, string
//! literals, single-byte punctuation and comments, skips white space and
//! preprocessor lines, and emits everything else as `Unknown`.
//!
//! `lex` is the specification: the token sequence of a byte string,
//! defined by cases on the byte at the current position.
use vstd::prelude::*;
use vstd::string::StringSliceAdditionalSpecFns;
use crate::text::{char_to_string, decode_bytes, decode_or_empty, trim_chars, trim_str};

verus! {

#[derive(Debug, Clone, Copy, PartialEq, Eq, Structural)]
pub enum TokenKind {
    /// Identifier or keyword; the parser checks keywords by text.
    Ident,
    /// Decimal or hex literal, kept as text.
    Number,
    /// String literal without its quotes.
    StringLit,
    /// One byte of punctuation.
    Punct,
    /// `// ...` or `/* ... */` without the delimiters, trimmed.
    Comment,
    /// Any other byte.
    Unknown,
}

#[derive(Debug)]
pub struct Token {
    pub kind: TokenKind,
    pub text: String,
    pub line: u32,
}

/// The mathematical value of a token.
pub ghost struct Lexeme {
    pub kind: TokenKind,
    pub text: Seq<char>,
    pub line: int,
}

impl View for Token {
    type V = Lexeme;

    open spec fn view(&self) -> Lexeme {
        Lexeme { kind: self.kind, text: self.text@, line: self.line as int }
    }
}

pub open spec fn lexemes(v: Seq<Token>) -> Seq<Lexeme> {
    v.map_values(|t: Token| t@)
}

impl TokenKind {
    /// Lower-case name of the kind.
    pub fn label(&self) -> (r: &'static str)
        ensures
            r@ == token_kind_label(*self),
    {
        match self {
            TokenKind::Ident => {
                proof { reveal_strlit("ident"); }
                "ident"
            },
            TokenKind::Number => {
                proof { reveal_strlit("number"); }
                "number"
            },
            TokenKind::StringLit => {
                proof { reveal_strlit("string"); }
                "string"
            },
            TokenKind::Punct => {
                proof { reveal_strlit("punct"); }
                "punct"
            },
            TokenKind::Comment => {
                proof { reveal_strlit("comment"); }
                "comment"
            },
            TokenKind::Unknown => {
                proof { reveal_strlit("unknown"); }
                "unknown"
            },
        }
    }
}

pub open spec fn token_kind_label(k: TokenKind) -> Seq<char> {
    match k {
        TokenKind::Ident => seq!['i', 'd', 'e', 'n', 't'],
        TokenKind::Number => seq!['n', 'u', 'm', 'b', 'e', 'r'],
        TokenKind::StringLit => seq!['s', 't', 'r', 'i', 'n', 'g'],
        TokenKind::Punct => seq!['p', 'u', 'n', 'c', 't'],
        TokenKind::Comment => seq!['c', 'o', 'm', 'm', 'e', 'n', 't'],
        TokenKind::Unknown => seq!['u', 'n', 'k', 'n', 'o', 'w', 'n'],
    }
}

// ---------------------------------------------------------------------------
// Byte classes
// ---------------------------------------------------------------------------

pub open spec fn is_digit_byte(c: u8) -> bool {
    48 <= c <= 57
}

pub open spec fn is_hex_byte(c: u8) -> bool {
    is_digit_byte(c) || (97 <= c <= 102) || (65 <= c <= 70)
}

pub open spec fn is_ident_start_byte(c: u8) -> bool {
    (65 <= c <= 90) || (97 <= c <= 122) || c == 95
}

pub open spec fn is_ident_byte(c: u8) -> bool {
    is_ident_start_byte(c) || is_digit_byte(c)
}

pub open spec fn is_number_suffix_byte(c: u8) -> bool {
    c == 117 || c == 85 || c == 108 || c == 76 || c == 102 || c == 70
}

/// `{ } ( ) [ ] < > : ; , . = * & ! ? + - / % ^ | ~`
pub open spec fn is_punct_byte(c: u8) -> bool {
    c == 123 || c == 125 || c == 40 || c == 41 || c == 91 || c == 93 || c == 60 || c == 62 || c
        == 58 || c == 59 || c == 44 || c == 46 || c == 61 || c == 42 || c == 38 || c == 33 || c
        == 63 || c == 43 || c == 45 || c == 47 || c == 37 || c == 94 || c == 124 || c == 126
}

pub enum ByteClass {
    NotNewline,
    Digit,
    Hex,
    IdentChar,
    NumberSuffix,
}

pub open spec fn in_class(cls: ByteClass, c: u8) -> bool {
    match cls {
        ByteClass::NotNewline => c != 10,
        ByteClass::Digit => is_digit_byte(c),
        ByteClass::Hex => is_hex_byte(c),
        ByteClass::IdentChar => is_ident_byte(c),
        ByteClass::NumberSuffix => is_number_suffix_byte(c),
    }
}

/// First position at or after `j` whose byte is not in `cls` (or the end).
pub open spec fn scan(b: Seq<u8>, j: int, cls: ByteClass) -> int
    decreases b.len() - j,
{
    if 0 <= j < b.len() && in_class(cls, b[j]) {
        scan(b, j + 1, cls)
    } else {
        j
    }
}

/// Scan of a block comment body: stops at `*/` or one byte before the end;
/// also returns the line after the newlines passed.
pub open spec fn block_scan(b: Seq<u8>, j: int, line: int) -> (int, int)
    decreases b.len() - j,
{
    if 0 <= j && j + 1 < b.len() && !(b[j] == 42 && b[j + 1] == 47) {
        block_scan(b, j + 1, if b[j] == 10 { line + 1 } else { line })
    } else {
        (j, line)
    }
}

/// Scan of a string literal body: stops at `"` or the end; a backslash
/// skips the next byte.
pub open spec fn string_scan(b: Seq<u8>, j: int, line: int) -> (int, int)
    decreases b.len() - j,
{
    if 0 <= j < b.len() && b[j] != 34 {
        if b[j] == 92 && j + 1 < b.len() {
            string_scan(b, j + 2, line)
        } else {
            string_scan(b, j + 1, if b[j] == 10 { line + 1 } else { line })
        }
    } else {
        (j, line)
    }
}

/// End of the number literal starting at `i`.
pub open spec fn number_end(b: Seq<u8>, i: int) -> int {
    let k = if b[i] == 48 && i + 1 < b.len() && (b[i + 1] == 120 || b[i + 1] == 88) {
        scan(b, i + 2, ByteClass::Hex)
    } else {
        let k0 = scan(b, i, ByteClass::Digit);
        if k0 < b.len() && b[k0] == 46 {
            scan(b, k0 + 1, ByteClass::Digit)
        } else {
            k0
        }
    };
    scan(b, k, ByteClass::NumberSuffix)
}

pub open spec fn min_int(a: int, b: int) -> int {
    if a < b {
        a
    } else {
        b
    }
}

pub open spec fn lexeme(kind: TokenKind, text: Seq<char>, line: int) -> Lexeme {
    Lexeme { kind, text, line }
}

/// The tokens of `b` from position `i`, with `line` the line number at `i`.
pub open spec fn lex(b: Seq<u8>, i: int, line: int) -> Seq<Lexeme>
    decreases b.len() + 2 - i,
{
    if i < 0 || i >= b.len() {
        Seq::empty()
    } else {
        let c = b[i];
        if c == 10 {
            lex(b, i + 1, line + 1)
        } else if c == 32 || c == 9 || c == 13 {
            lex(b, i + 1, line)
        } else if c == 47 && i + 1 < b.len() && b[i + 1] == 47 {
            let j = scan(b, i + 2, ByteClass::NotNewline);
            proof {
                lemma_scan(b, i + 2, ByteClass::NotNewline);
            }
            seq![
                lexeme(
                    TokenKind::Comment,
                    trim_chars(decode_or_empty(b.subrange(i + 2, j))),
                    line,
                ),
            ] + lex(b, j, line)
        } else if c == 47 && i + 1 < b.len() && b[i + 1] == 42 {
            let r = block_scan(b, i + 2, line);
            proof {
                lemma_block_scan(b, i + 2, line);
            }
            seq![
                lexeme(
                    TokenKind::Comment,
                    trim_chars(decode_or_empty(b.subrange(i + 2, min_int(r.0, b.len() as int)))),
                    line,
                ),
            ] + lex(b, r.0 + 2, r.1)
        } else if c == 35 {
            proof {
                lemma_scan(b, i, ByteClass::NotNewline);
            }
            lex(b, scan(b, i, ByteClass::NotNewline), line)
        } else if c == 34 {
            let r = string_scan(b, i + 1, line);
            proof {
                lemma_string_scan(b, i + 1, line);
            }
            seq![
                lexeme(
                    TokenKind::StringLit,
                    decode_or_empty(b.subrange(i + 1, min_int(r.0, b.len() as int))),
                    r.1,
                ),
            ] + lex(b, r.0 + 1, r.1)
        } else if is_ident_start_byte(c) {
            let j = scan(b, i + 1, ByteClass::IdentChar);
            proof {
                lemma_scan(b, i + 1, ByteClass::IdentChar);
            }
            seq![lexeme(TokenKind::Ident, decode_or_empty(b.subrange(i, j)), line)] + lex(
                b,
                j,
                line,
            )
        } else if is_digit_byte(c) {
            let j = number_end(b, i);
            proof {
                lemma_number_end(b, i);
            }
            seq![lexeme(TokenKind::Number, decode_or_empty(b.subrange(i, j)), line)] + lex(
                b,
                j,
                line,
            )
        } else if is_punct_byte(c) {
            seq![lexeme(TokenKind::Punct, seq![c as char], line)] + lex(b, i + 1, line)
        } else {
            seq![lexeme(TokenKind::Unknown, seq![c as char], line)] + lex(b, i + 1, line)
        }
    }
}

pub proof fn lemma_scan(b: Seq<u8>, j: int, cls: ByteClass)
    requires
        0 <= j <= b.len(),
    ensures
        j <= scan(b, j, cls) <= b.len(),
        j < b.len() && in_class(cls, b[j]) ==> scan(b, j, cls) > j,
        scan(b, j, cls) < b.len() ==> !in_class(cls, b[scan(b, j, cls)]),
        forall|k: int| j <= k < scan(b, j, cls) ==> in_class(cls, #[trigger] b[k]),
    decreases b.len() - j,
{
    if j < b.len() && in_class(cls, b[j]) {
        lemma_scan(b, j + 1, cls);
    }
}

pub proof fn lemma_block_scan(b: Seq<u8>, j: int, line: int)
    requires
        0 <= j <= b.len(),
    ensures
        j <= block_scan(b, j, line).0,
        block_scan(b, j, line).0 <= b.len(),
        block_scan(b, j, line).0 + 1 < b.len() ==> b[block_scan(b, j, line).0] == 42 && b[block_scan(
            b,
            j,
            line,
        ).0 + 1] == 47,
        line <= block_scan(b, j, line).1 <= line + (block_scan(b, j, line).0 - j),
    decreases b.len() - j,
{
    if j + 1 < b.len() && !(b[j] == 42 && b[j + 1] == 47) {
        lemma_block_scan(b, j + 1, if b[j] == 10 { line + 1 } else { line });
    }
}

pub proof fn lemma_string_scan(b: Seq<u8>, j: int, line: int)
    requires
        0 <= j <= b.len(),
    ensures
        j <= string_scan(b, j, line).0 <= b.len(),
        line <= string_scan(b, j, line).1 <= line + (string_scan(b, j, line).0 - j),
    decreases b.len() - j,
{
    if j < b.len() && b[j] != 34 {
        if b[j] == 92 && j + 1 < b.len() {
            lemma_string_scan(b, j + 2, line);
        } else {
            lemma_string_scan(b, j + 1, if b[j] == 10 { line + 1 } else { line });
        }
    }
}

pub proof fn lemma_number_end(b: Seq<u8>, i: int)
    requires
        0 <= i < b.len(),
        is_digit_byte(b[i]),
    ensures
        i < number_end(b, i) <= b.len(),
{
    if b[i] == 48 && i + 1 < b.len() && (b[i + 1] == 120 || b[i + 1] == 88) {
        lemma_scan(b, i + 2, ByteClass::Hex);
        lemma_scan(b, scan(b, i + 2, ByteClass::Hex), ByteClass::NumberSuffix);
    } else {
        lemma_scan(b, i, ByteClass::Digit);
        let k0 = scan(b, i, ByteClass::Digit);
        if k0 < b.len() && b[k0] == 46 {
            lemma_scan(b, k0 + 1, ByteClass::Digit);
            lemma_scan(b, scan(b, k0 + 1, ByteClass::Digit), ByteClass::NumberSuffix);
        } else {
            lemma_scan(b, k0, ByteClass::NumberSuffix);
        }
    }
}

// ---------------------------------------------------------------------------
// Executable lexer
// ---------------------------------------------------------------------------

fn byte_in_class(cls: &ByteClass, c: u8) -> (r: bool)
    ensures
        r == in_class(*cls, c),
{
    match cls {
        ByteClass::NotNewline => c != 10,
        ByteClass::Digit => c >= 48 && c <= 57,
        ByteClass::Hex => (c >= 48 && c <= 57) || (c >= 97 && c <= 102) || (c >= 65 && c <= 70),
        ByteClass::IdentChar => (c >= 65 && c <= 90) || (c >= 97 && c <= 122) || c == 95 || (c
            >= 48 && c <= 57),
        ByteClass::NumberSuffix => c == 117 || c == 85 || c == 108 || c == 76 || c == 102 || c
            == 70,
    }
}

fn scan_exec(b: &[u8], j: usize, cls: ByteClass) -> (r: usize)
    requires
        j <= b@.len(),
    ensures
        r == scan(b@, j as int, cls),
{
    let mut k = j;
    while k < b.len() && byte_in_class(&cls, b[k])
        invariant
            j <= k <= b@.len(),
            scan(b@, k as int, cls) == scan(b@, j as int, cls),
        decreases b@.len() - k,
    {
        k = k + 1;
    }
    k
}

/// Whether the byte is one of the punctuation bytes emitted as `Punct`.
pub fn is_punct(c: u8) -> (r: bool)
    ensures
        r == is_punct_byte(c),
{
    c == 123 || c == 125 || c == 40 || c == 41 || c == 91 || c == 93 || c == 60 || c == 62 || c
        == 58 || c == 59 || c == 44 || c == 46 || c == 61 || c == 42 || c == 38 || c == 33 || c
        == 63 || c == 43 || c == 45 || c == 47 || c == 37 || c == 94 || c == 124 || c == 126
}

fn byte_slice(b: &[u8], start: usize, end: usize) -> (r: &[u8])
    requires
        start <= end <= b@.len(),
    ensures
        r@ == b@.subrange(start as int, end as int),
{
    let sub = vstd::slice::slice_subrange(b, start, end);
    sub
}

pub open spec fn step_lexemes(t: Option<Token>) -> Seq<Lexeme> {
    match t {
        Some(t) => seq![t@],
        None => Seq::empty(),
    }
}

/// How many newline bytes `b` holds from position `i` on.
pub open spec fn newlines_from(b: Seq<u8>, i: int) -> nat
    decreases b.len() - i,
{
    if 0 <= i < b.len() {
        (if b[i] == 10 {
            1nat
        } else {
            0nat
        }) + newlines_from(b, i + 1)
    } else {
        0
    }
}

/// Fewer newlines lie ahead of a later position.
pub proof fn lemma_newlines_mono(b: Seq<u8>, i: int, k: int)
    requires
        0 <= i <= k,
    ensures
        newlines_from(b, k) <= newlines_from(b, i),
    decreases k - i,
{
    if i < k {
        lemma_newlines_mono(b, i + 1, k);
    }
}

fn lex_line_comment(bytes: &[u8], i: usize, line: u32) -> (r: (usize, Token))
    requires
        i + 1 < bytes@.len(),
        bytes@.len() + 2 <= usize::MAX,
        bytes@[i as int] == 47 && bytes@[i + 1] == 47,
    ensures
        r.0 == scan(bytes@, i + 2, ByteClass::NotNewline),
        r.0 <= bytes@.len(),
        r.1@ == lexeme(
            TokenKind::Comment,
            trim_chars(decode_or_empty(bytes@.subrange(i + 2, r.0 as int))),
            line as int,
        ),
{
    let start = i + 2;
    let j = scan_exec(bytes, start, ByteClass::NotNewline);
    proof {
        lemma_scan(bytes@, start as int, ByteClass::NotNewline);
    }
    let raw = decode_bytes(byte_slice(bytes, start, j));
    let text = trim_str(raw.as_str()).to_owned();
    (j, Token { kind: TokenKind::Comment, text, line })
}

fn lex_block_comment(bytes: &[u8], i: usize, line: u32) -> (r: (usize, u32, Token))
    requires
        i + 1 < bytes@.len(),
        bytes@.len() + 2 <= usize::MAX,
        line + newlines_from(bytes@, i as int) <= u32::MAX,
        bytes@[i as int] == 47 && bytes@[i + 1] == 42,
    ensures
        r.0 == block_scan(bytes@, i + 2, line as int).0 + 2,
        r.1 == block_scan(bytes@, i + 2, line as int).1,
        line <= r.1,
        r.1 + newlines_from(bytes@, r.0 as int) <= line + newlines_from(bytes@, i as int),
        r.2@ == lexeme(
            TokenKind::Comment,
            trim_chars(
                decode_or_empty(
                    bytes@.subrange(
                        i + 2,
                        min_int(block_scan(bytes@, i + 2, line as int).0, bytes@.len() as int),
                    ),
                ),
            ),
            line as int,
        ),
{
    let len = bytes.len();
    let start = i + 2;
    let mut j = start;
    let mut cur = line;
    proof {
        assert(newlines_from(bytes@, i as int) == newlines_from(bytes@, i + 1));
        assert(newlines_from(bytes@, i + 1) == newlines_from(bytes@, start as int));
    }
    while j + 1 < len && !(bytes[j] == 42 && bytes[j + 1] == 47)
        invariant
            len == bytes@.len(),
            len + 2 <= usize::MAX,
            start <= j <= len,
            line <= cur,
            cur + newlines_from(bytes@, j as int) <= line + newlines_from(bytes@, i as int),
            line + newlines_from(bytes@, i as int) <= u32::MAX,
            block_scan(bytes@, j as int, cur as int) == block_scan(
                bytes@,
                start as int,
                line as int,
            ),
        decreases len - j,
    {
        if bytes[j] == 10 {
            cur = cur + 1;
        }
        j = j + 1;
    }
    proof {
        lemma_block_scan(bytes@, start as int, line as int);
        lemma_newlines_mono(bytes@, j as int, j + 2);
    }
    let end = if j < len {
        j
    } else {
        len
    };
    let raw = decode_bytes(byte_slice(bytes, start, end));
    let text = trim_str(raw.as_str()).to_owned();
    (j + 2, cur, Token { kind: TokenKind::Comment, text, line })
}

fn lex_string(bytes: &[u8], i: usize, line: u32) -> (r: (usize, u32, Token))
    requires
        i < bytes@.len(),
        bytes@.len() + 2 <= usize::MAX,
        line + newlines_from(bytes@, i as int) <= u32::MAX,
        bytes@[i as int] == 34,
    ensures
        r.0 == string_scan(bytes@, i + 1, line as int).0 + 1,
        r.1 == string_scan(bytes@, i + 1, line as int).1,
        line <= r.1,
        r.1 + newlines_from(bytes@, r.0 as int) <= line + newlines_from(bytes@, i as int),
        r.2@ == lexeme(
            TokenKind::StringLit,
            decode_or_empty(
                bytes@.subrange(
                    i + 1,
                    min_int(string_scan(bytes@, i + 1, line as int).0, bytes@.len() as int),
                ),
            ),
            r.1 as int,
        ),
{
    let len = bytes.len();
    let start = i + 1;
    let mut j = start;
    let mut cur = line;
    proof {
        assert(newlines_from(bytes@, i as int) == newlines_from(bytes@, start as int));
    }
    while j < len && bytes[j] != 34
        invariant
            len == bytes@.len(),
            len + 2 <= usize::MAX,
            start <= j <= len,
            line <= cur,
            cur + newlines_from(bytes@, j as int) <= line + newlines_from(bytes@, i as int),
            line + newlines_from(bytes@, i as int) <= u32::MAX,
            string_scan(bytes@, j as int, cur as int) == string_scan(
                bytes@,
                start as int,
                line as int,
            ),
        decreases len - j,
    {
        if bytes[j] == 92 && j + 1 < len {
            proof {
                lemma_newlines_mono(bytes@, j as int, j + 2);
            }
            j = j + 2;
            continue;
        }
        if bytes[j] == 10 {
            cur = cur + 1;
        }
        j = j + 1;
    }
    proof {
        lemma_string_scan(bytes@, start as int, line as int);
        lemma_newlines_mono(bytes@, j as int, j + 1);
    }
    let end = if j < len {
        j
    } else {
        len
    };
    let text = decode_bytes(byte_slice(bytes, start, end));
    (j + 1, cur, Token { kind: TokenKind::StringLit, text, line: cur })
}

fn lex_number(bytes: &[u8], i: usize, line: u32) -> (r: (usize, Token))
    requires
        i < bytes@.len(),
        is_digit_byte(bytes@[i as int]),
    ensures
        r.0 == number_end(bytes@, i as int),
        r.1@ == lexeme(
            TokenKind::Number,
            decode_or_empty(bytes@.subrange(i as int, r.0 as int)),
            line as int,
        ),
{
    let len = bytes.len();
    let c = bytes[i];
    let ghost b = bytes@;
    let k = if c == 48 && i + 1 < len && (bytes[i + 1] == 120 || bytes[i + 1] == 88) {
        scan_exec(bytes, i + 2, ByteClass::Hex)
    } else {
        let k0 = scan_exec(bytes, i, ByteClass::Digit);
        proof {
            lemma_scan(b, i as int, ByteClass::Digit);
        }
        if k0 < len && bytes[k0] == 46 {
            scan_exec(bytes, k0 + 1, ByteClass::Digit)
        } else {
            k0
        }
    };
    proof {
        lemma_number_end(b, i as int);
        if c == 48 && i + 1 < len && (b[i + 1] == 120 || b[i + 1] == 88) {
            lemma_scan(b, i + 2, ByteClass::Hex);
        } else {
            lemma_scan(b, i as int, ByteClass::Digit);
            let k0 = scan(b, i as int, ByteClass::Digit);
            if k0 < b.len() && b[k0] == 46 {
                lemma_scan(b, k0 + 1, ByteClass::Digit);
            }
        }
    }
    let j = scan_exec(bytes, k, ByteClass::NumberSuffix);
    let text = decode_bytes(byte_slice(bytes, i, j));
    (j, Token { kind: TokenKind::Number, text, line })
}

/// One step of the lexer from position `i`: the next position, the line
/// there, and the token produced, if any.
fn lex_step(bytes: &[u8], i: usize, line: u32) -> (r: (usize, u32, Option<Token>))
    requires
        i < bytes@.len(),
        bytes@.len() + 2 <= usize::MAX,
        1 <= line,
        line + newlines_from(bytes@, i as int) <= u32::MAX,
    ensures
        i < r.0 <= bytes@.len() + 2,
        line <= r.1,
        r.1 + newlines_from(bytes@, r.0 as int) <= line + newlines_from(bytes@, i as int),
        lex(bytes@, i as int, line as int) == step_lexemes(r.2) + lex(
            bytes@,
            r.0 as int,
            r.1 as int,
        ),
{
    let ghost b = bytes@;
    let len = bytes.len();
    let c = bytes[i];
    if c == 10 {
        return (i + 1, line + 1, None);
    }
    if c == 32 || c == 9 || c == 13 {
        return (i + 1, line, None);
    }
    if c == 47 && i + 1 < len && bytes[i + 1] == 47 {
        let (j, t) = lex_line_comment(bytes, i, line);
        proof {
            lemma_scan(b, i + 2, ByteClass::NotNewline);
            lemma_newlines_mono(b, i as int, j as int);
        }
        return (j, line, Some(t));
    }
    if c == 47 && i + 1 < len && bytes[i + 1] == 42 {
        let (j, l2, t) = lex_block_comment(bytes, i, line);
        proof {
            lemma_block_scan(b, i + 2, line as int);
        }
        return (j, l2, Some(t));
    }
    if c == 35 {
        let j = scan_exec(bytes, i, ByteClass::NotNewline);
        proof {
            lemma_scan(b, i as int, ByteClass::NotNewline);
            lemma_newlines_mono(b, i as int, j as int);
        }
        return (j, line, None);
    }
    if c == 34 {
        let (j, l2, t) = lex_string(bytes, i, line);
        proof {
            lemma_string_scan(b, i + 1, line as int);
        }
        return (j, l2, Some(t));
    }
    if (c >= 65 && c <= 90) || (c >= 97 && c <= 122) || c == 95 {
        let j = scan_exec(bytes, i + 1, ByteClass::IdentChar);
        proof {
            lemma_scan(b, i + 1, ByteClass::IdentChar);
            lemma_newlines_mono(b, i as int, j as int);
        }
        let text = decode_bytes(byte_slice(bytes, i, j));
        return (j, line, Some(Token { kind: TokenKind::Ident, text, line }));
    }
    if c >= 48 && c <= 57 {
        let (j, t) = lex_number(bytes, i, line);
        proof {
            lemma_number_end(b, i as int);
            lemma_newlines_mono(b, i as int, j as int);
        }
        return (j, line, Some(t));
    }
    let kind = if is_punct(c) {
        TokenKind::Punct
    } else {
        TokenKind::Unknown
    };
    let text = char_to_string(c as char);
    (i + 1, line, Some(Token { kind, text, line }))
}

/// How many newline bytes `bytes` holds.
pub fn newline_count(bytes: &[u8]) -> (r: usize)
    ensures
        r == newlines_from(bytes@, 0),
{
    let mut count: usize = 0;
    let mut i: usize = 0;
    while i < bytes.len()
        invariant
            i <= bytes@.len(),
            count <= i,
            count + newlines_from(bytes@, i as int) == newlines_from(bytes@, 0),
        decreases bytes@.len() - i,
    {
        if bytes[i] == 10 {
            count = count + 1;
        }
        i = i + 1;
    }
    count
}

/// Split header text into tokens; `line` of each token is 1-based.
pub fn tokenize(src: &str) -> (out: Vec<Token>)
    requires
        src.spec_bytes().len() + 2 <= usize::MAX,
        newlines_from(src.spec_bytes(), 0) < u32::MAX,
    ensures
        lexemes(out@) == lex(src.spec_bytes(), 0, 1),
{
    let bytes = src.as_bytes();
    let ghost b = bytes@;
    let len = bytes.len();
    let mut out: Vec<Token> = Vec::new();
    let mut i: usize = 0;
    let mut line: u32 = 1;
    while i < len
        invariant
            b == bytes@,
            len == b.len(),
            len + 2 <= usize::MAX,
            newlines_from(b, 0) < u32::MAX,
            1 <= line,
            line + newlines_from(b, i as int) <= 1 + newlines_from(b, 0),
            i <= len + 2,
            lexemes(out@) + lex(b, i as int, line as int) == lex(b, 0, 1),
        decreases len + 2 - i,
    {
        let ghost old_out = out@;
        let (j, l2, t) = lex_step(bytes, i, line);
        match t {
            Some(tok) => {
                out.push(tok);
                proof {
                    assert(lexemes(out@) =~= lexemes(old_out).push(out@.last()@));
                }
            },
            None => {},
        }
        proof {
            assert(lexemes(out@) + lex(b, j as int, l2 as int) =~= lexemes(old_out) + lex(
                b,
                i as int,
                line as int,
            ));
        }
        i = j;
        line = l2;
    }
    proof {
        assert(lexemes(out@) =~= lexemes(out@) + lex(b, i as int, line as int));
    }
    out
}

/// Every token's line is at least 1 and the lines never go down.
pub proof fn lemma_lex_lines(b: Seq<u8>, i: int, line: int)
    requires
        1 <= line,
    ensures
        forall|k: int| 0 <= k < lex(b, i, line).len() ==> line <= #[trigger] lex(b, i, line)[k].line,
        forall|k1: int, k2: int|
            0 <= k1 <= k2 < lex(b, i, line).len() ==> lex(b, i, line)[k1].line <= lex(
                b,
                i,
                line,
            )[k2].line,
    decreases b.len() + 2 - i,
{
    if i < 0 || i >= b.len() {
    } else {
        let c = b[i];
        if c == 10 {
            lemma_lex_lines(b, i + 1, line + 1);
        } else if c == 32 || c == 9 || c == 13 {
            lemma_lex_lines(b, i + 1, line);
        } else if c == 47 && i + 1 < b.len() && b[i + 1] == 47 {
            lemma_scan(b, i + 2, ByteClass::NotNewline);
            lemma_lex_lines(b, scan(b, i + 2, ByteClass::NotNewline), line);
        } else if c == 47 && i + 1 < b.len() && b[i + 1] == 42 {
            lemma_block_scan(b, i + 2, line);
            let r = block_scan(b, i + 2, line);
            lemma_lex_lines(b, r.0 + 2, r.1);
        } else if c == 35 {
            lemma_scan(b, i, ByteClass::NotNewline);
            lemma_lex_lines(b, scan(b, i, ByteClass::NotNewline), line);
        } else if c == 34 {
            lemma_string_scan(b, i + 1, line);
            let r = string_scan(b, i + 1, line);
            lemma_lex_lines(b, r.0 + 1, r.1);
        } else if is_ident_start_byte(c) {
            lemma_scan(b, i + 1, ByteClass::IdentChar);
            lemma_lex_lines(b, scan(b, i + 1, ByteClass::IdentChar), line);
        } else if is_digit_byte(c) {
            lemma_number_end(b, i);
            lemma_lex_lines(b, number_end(b, i), line);
        } else {
            lemma_lex_lines(b, i + 1, line);
        }
    }
}

/// The tokens of a text carry line numbers that start at 1 or later
/// and never decrease.
pub proof fn law_token_lines_monotone(src: &str)
    ensures
        forall|k: int|
            0 <= k < lex(src.spec_bytes(), 0, 1).len() ==> 1 <= #[trigger] lex(
                src.spec_bytes(),
                0,
                1,
            )[k].line,
        forall|k1: int, k2: int|
            0 <= k1 <= k2 < lex(src.spec_bytes(), 0, 1).len() ==> lex(src.spec_bytes(), 0, 1)[k1].line
                <= lex(src.spec_bytes(), 0, 1)[k2].line,
{
    lemma_lex_lines(src.spec_bytes(), 0, 1);
}

} // verus!
