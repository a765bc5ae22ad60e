use lambda::parser::{parse, Action, ActionKind, ErrorKind};

fn statements(a: &Action) -> &Vec<Action> {
    match a.kind() {
        ActionKind::Chunk(v) => v,
        _ => panic!("not a chunk"),
    }
}

/// The tree without spans and paths, as text.
fn shape(a: &Action) -> String {
    match a.kind() {
        ActionKind::Ident(n) => n.clone(),
        ActionKind::Call { func, arg } => format!("({} {})", shape(func), shape(arg)),
        ActionKind::FuncDef { arg, expr, .. } => format!("(\\{} {})", arg, shape(expr)),
        ActionKind::Assign { target, expr } => format!("let {} {}", target, shape(expr)),
        ActionKind::Chunk(_) => "chunk".to_string(),
    }
}

fn sorted_captures(a: &Action) -> Vec<String> {
    match a.kind() {
        ActionKind::FuncDef { captures, .. } => {
            let mut c = captures.clone();
            c.sort();
            c
        }
        _ => panic!("not a lambda"),
    }
}

#[test]
fn application_is_left_associative() {
    let plain = parse("f x y", "t").unwrap();
    let grouped = parse("(f x) y", "t").unwrap();
    assert_eq!(shape(&statements(&plain)[0]), "((f x) y)");
    assert_eq!(shape(&statements(&grouped)[0]), "((f x) y)");
    let right = parse("f (x y)", "t").unwrap();
    assert_eq!(shape(&statements(&right)[0]), "(f (x y))");
}

#[test]
fn let_statement_spans_keyword_to_expression() {
    let p = parse("let x = f y", "t").unwrap();
    let s = &statements(&p)[0];
    assert_eq!(shape(s), "let x (f y)");
    assert_eq!((s.span().start, s.span().end), (0, 11));
    assert_eq!((p.span().start, p.span().end), (0, 11));
    assert_eq!(p.path(), "t");
}

#[test]
fn let_without_expression_fails_at_let() {
    let e = parse("let x =", "t").unwrap_err();
    assert_eq!(e.kind, ErrorKind::UnexpectedEnd);
    assert_eq!((e.span.start, e.span.end), (0, 3));
    let e = parse("a\nlet x = \n", "t").unwrap_err();
    assert_eq!(e.kind, ErrorKind::UnexpectedEnd);
    assert_eq!((e.span.start, e.span.end), (2, 5));
}

#[test]
fn let_needs_name_and_equals() {
    let e = parse("let = x", "t").unwrap_err();
    assert_eq!(e.kind, ErrorKind::UnexpectedToken);
    let e = parse("let x y", "t").unwrap_err();
    assert_eq!(e.kind, ErrorKind::UnexpectedToken);
    assert_eq!((e.span.start, e.span.end), (4, 5));
    let e = parse("let", "t").unwrap_err();
    assert_eq!(e.kind, ErrorKind::UnexpectedEnd);
}

#[test]
fn lambda_captures_free_names_minus_parameter() {
    let p = parse("\\x -> f x (\\y -> y z x)", "t").unwrap();
    let s = &statements(&p)[0];
    assert_eq!(sorted_captures(s), vec!["f".to_string(), "z".to_string()]);
    assert_eq!(shape(s), "(\\x ((f x) (\\y ((y z) x))))");
}

#[test]
fn lambda_body_extends_right() {
    let p = parse("(\\x -> x) y", "t").unwrap();
    assert_eq!(shape(&statements(&p)[0]), "((\\x x) y)");
    let p = parse("\\x -> x y", "t").unwrap();
    assert_eq!(shape(&statements(&p)[0]), "(\\x (x y))");
}

#[test]
fn lambda_errors_point_at_its_start() {
    let e = parse("a \\x", "t").unwrap_err();
    assert_eq!(e.kind, ErrorKind::UnexpectedEnd);
    assert_eq!((e.span.start, e.span.end), (2, 3));
    let e = parse("\\x y", "t").unwrap_err();
    assert_eq!(e.kind, ErrorKind::UnexpectedToken);
    assert_eq!((e.span.start, e.span.end), (0, 1));
    let e = parse("\\x ->", "t").unwrap_err();
    assert_eq!(e.kind, ErrorKind::UnexpectedEnd);
    assert_eq!((e.span.start, e.span.end), (0, 1));
}

#[test]
fn parenthesis_errors() {
    assert_eq!(parse("f )", "t").unwrap_err().kind, ErrorKind::UnexpectedToken);
    assert_eq!(parse("( )", "t").unwrap_err().kind, ErrorKind::NoToken);
    let e = parse("(f x", "t").unwrap_err();
    assert_eq!(e.kind, ErrorKind::UnexpectedEnd);
    assert_eq!((e.span.start, e.span.end), (0, 1));
}

#[test]
fn unknown_token_is_reported() {
    let e = parse("f @", "t").unwrap_err();
    assert_eq!(e.kind, ErrorKind::UnknownToken);
    assert_eq!((e.span.start, e.span.end), (2, 3));
    assert_eq!(parse("f = x", "t").unwrap_err().kind, ErrorKind::UnexpectedToken);
}

#[test]
fn empty_statements_are_skipped() {
    let p = parse("\n;\na\n\n;b;", "t").unwrap();
    assert_eq!(statements(&p).len(), 2);
    let p = parse("", "t").unwrap();
    assert_eq!(statements(&p).len(), 0);
}

#[test]
fn error_messages() {
    assert_eq!(ErrorKind::UnexpectedEnd.to_string(), "Unexpected end of file");
    assert_eq!(ErrorKind::UnexpectedToken.to_string(), "Unexpected token");
    assert_eq!(ErrorKind::UnknownToken.to_string(), "Unknown token");
    assert_eq!(ErrorKind::NoToken.to_string(), "A token expected");
}
