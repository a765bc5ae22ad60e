use lambda::token::{lex, LexToken};

fn kinds(src: &str) -> Vec<LexToken> {
    lex(src).iter().map(|t| t.kind).collect()
}

#[test]
fn lexes_let_statement() {
    assert_eq!(
        kinds("let x = f y"),
        vec![LexToken::Let, LexToken::Ident, LexToken::Eq, LexToken::Ident, LexToken::Ident]
    );
}

#[test]
fn let_prefix_is_an_identifier() {
    let toks = lex("letter");
    assert_eq!(toks.len(), 1);
    assert_eq!(toks[0].kind, LexToken::Ident);
    assert_eq!(toks[0].value, "letter");
}

#[test]
fn lambda_markers_are_equivalent() {
    assert_eq!(
        kinds("\\x -> x"),
        vec![LexToken::FuncStart, LexToken::Ident, LexToken::FuncSep, LexToken::Ident]
    );
    assert_eq!(
        kinds("\u{3bb}x . x"),
        vec![LexToken::FuncStart, LexToken::Ident, LexToken::FuncSep, LexToken::Ident]
    );
}

#[test]
fn separators_and_comments() {
    assert_eq!(
        kinds("a # note ; b\n(c);d"),
        vec![
            LexToken::Ident,
            LexToken::Sep,
            LexToken::ParOpen,
            LexToken::Ident,
            LexToken::ParClose,
            LexToken::Sep,
            LexToken::Ident
        ]
    );
}

#[test]
fn unknown_character_is_an_error_token() {
    let toks = lex("a @ -b");
    let k: Vec<LexToken> = toks.iter().map(|t| t.kind).collect();
    assert_eq!(k, vec![LexToken::Ident, LexToken::Error, LexToken::Error, LexToken::Ident]);
    assert_eq!(toks[1].value, "@");
    assert_eq!((toks[1].span.start, toks[1].span.end), (2, 3));
}

#[test]
fn spans_are_byte_offsets() {
    let toks = lex("\u{3bb}x.y");
    assert_eq!((toks[0].span.start, toks[0].span.end), (0, 2));
    assert_eq!((toks[1].span.start, toks[1].span.end), (2, 3));
    assert_eq!((toks[3].span.start, toks[3].span.end), (4, 5));
}

#[test]
fn empty_source_has_no_tokens() {
    assert!(lex("").is_empty());
    assert!(lex("  \t # only a comment").is_empty());
}
