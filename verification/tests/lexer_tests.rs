use atlas_core::lexer::{is_punct, tokenize, Token, TokenKind};

fn texts(tokens: &[Token]) -> Vec<&str> {
    tokens.iter().map(|t| t.text.as_str()).collect()
}

#[test]
fn lexes_simple_class_header() {
    let src = "class APlayer : public APawn { int32_t Score; };";
    let tokens = tokenize(src);
    assert_eq!(
        texts(&tokens),
        vec!["class", "APlayer", ":", "public", "APawn", "{", "int32_t", "Score", ";", "}", ";"]
    );
}

#[test]
fn lexes_hex_and_decimal_numbers() {
    let src = "0x0040 256";
    let tokens: Vec<_> = tokenize(src).into_iter().filter(|t| t.kind == TokenKind::Number).collect();
    assert_eq!(tokens.len(), 2);
    assert_eq!(tokens[0].text, "0x0040");
    assert_eq!(tokens[1].text, "256");
}

#[test]
fn lexes_line_comment_strips_slashes() {
    let src = "int x; // 0x0000(0x0004)\nint y;";
    let tokens = tokenize(src);
    let comment = tokens.iter().find(|t| t.kind == TokenKind::Comment).expect("comment");
    assert_eq!(comment.text, "0x0000(0x0004)");
}

#[test]
fn lexes_block_comment_strips_delimiters() {
    let src = "/* hello\nworld */ x";
    let tokens = tokenize(src);
    let comment = tokens.iter().find(|t| t.kind == TokenKind::Comment).expect("comment");
    assert!(comment.text.contains("hello"));
    assert!(comment.text.contains("world"));
}

#[test]
fn tracks_line_numbers_across_newlines() {
    let src = "a\nb\nc";
    let tokens = tokenize(src);
    assert_eq!(tokens[0].line, 1);
    assert_eq!(tokens[1].line, 2);
    assert_eq!(tokens[2].line, 3);
}

#[test]
fn skips_preprocessor_lines() {
    let src = "#pragma once\nclass A {};";
    let tokens = tokenize(src);
    assert_eq!(texts(&tokens), vec!["class", "A", "{", "}", ";"]);
}

#[test]
fn handles_unknown_chars_as_unknown_tokens() {
    let src = "x @ y";
    let tokens = tokenize(src);
    assert_eq!(tokens.len(), 3);
    assert_eq!(tokens[1].kind, TokenKind::Unknown);
    assert_eq!(tokens[1].text, "@");
}

#[test]
fn empty_source_has_no_tokens() {
    assert!(tokenize("").is_empty());
    assert!(tokenize("   \n\t  ").is_empty());
}

#[test]
fn string_literal_loses_its_quotes() {
    let tokens = tokenize("x = \"abc\";");
    let lit = tokens.iter().find(|t| t.kind == TokenKind::StringLit).expect("string");
    assert_eq!(lit.text, "abc");
}

#[test]
fn token_kinds_of_a_field_line() {
    let tokens = tokenize("int32_t Speed; // 0x0040(0x0004)");
    let kinds: Vec<TokenKind> = tokens.iter().map(|t| t.kind).collect();
    assert_eq!(
        kinds,
        vec![TokenKind::Ident, TokenKind::Ident, TokenKind::Punct, TokenKind::Comment]
    );
}

#[test]
fn line_numbers_never_decrease() {
    let tokens = tokenize("a /* x\ny\nz */ b\n// c\nd");
    for w in tokens.windows(2) {
        assert!(w[0].line <= w[1].line);
    }
    assert_eq!(tokens.last().unwrap().text, "d");
    assert_eq!(tokens.last().unwrap().line, 5);
}

#[test]
fn punctuation_bytes_are_recognised() {
    for c in [b'{', b'}', b';', b':', b'*', b'&', b'<', b'>', b'(', b')', b',', b'=', b'[', b']'] {
        assert!(is_punct(c), "{}", c as char);
    }
    assert!(!is_punct(b'a'));
    assert!(!is_punct(b'@'));
}

#[test]
fn kind_labels_are_lowercase_names() {
    assert_eq!(TokenKind::Ident.label(), "ident");
    assert_eq!(TokenKind::Comment.label(), "comment");
}
