use lerp_lib::parser::{parse, Located, ParseError, ParseErrorKind, Position, SExpr};

fn pos(ln: usize, col: usize) -> Position {
    Position { ln, col }
}

#[test]
fn parse_plus_one_two() {
    let nodes = parse("(+ 1 2)").unwrap();
    assert_eq!(nodes.len(), 1);
    let expected = Located {
        value: SExpr::Expr(vec![
            Located { value: SExpr::Word("+".to_string()), pos: pos(0, 1) },
            Located { value: SExpr::Int(1), pos: pos(0, 3) },
            Located { value: SExpr::Int(2), pos: pos(0, 5) },
        ]),
        pos: pos(0, 0),
    };
    assert_eq!(nodes[0], expected);
}

#[test]
fn render_parse_round_trip_exact() {
    let text = "(+ 1 2)";
    let nodes = parse(text).unwrap();
    let rendered = nodes[0].render();
    assert_eq!(rendered, text);
    let reparsed = parse(&rendered).unwrap();
    assert_eq!(reparsed, nodes);
}

#[test]
fn render_parse_round_trip_whitespace() {
    let text = "( +   1\n  ( foo \"hi\" )  23 )";
    let nodes = parse(text).unwrap();
    assert_eq!(nodes.len(), 1);
    let rendered = nodes[0].render();
    assert_eq!(rendered, "(+ 1 (foo \"hi\") 23)");
    let reparsed = parse(&rendered).unwrap();
    assert_eq!(reparsed.len(), 1);
    assert_eq!(reparsed[0].render(), rendered);
}

#[test]
fn parse_unclosed_list() {
    let err = parse("(+ 1 2").unwrap_err();
    assert_eq!(
        err,
        ParseError { kind: ParseErrorKind::Unclosed('('), pos: pos(0, 0) }
    );
    assert_eq!(err.render(), "1:1: unclosed '('");
}

#[test]
fn parse_unterminated_string() {
    let err = parse("\"abc").unwrap_err();
    assert_eq!(err.kind, ParseErrorKind::UnclosedString);
    assert_eq!(err.pos, pos(0, 4));
    assert_eq!(err.render(), "1:5: unclosed string");
}

#[test]
fn parse_unexpected_close() {
    let err = parse(")").unwrap_err();
    assert_eq!(
        err,
        ParseError { kind: ParseErrorKind::Unexpected(')'), pos: pos(0, 0) }
    );
    assert_eq!(err.render(), "1:1: unexpected ')'");
}

#[test]
fn parse_int_overflow() {
    let err = parse("99999999999").unwrap_err();
    assert_eq!(err.kind, ParseErrorKind::ParseIntError);
    assert_eq!(err.pos, pos(0, 0));
    assert_eq!(err.render(), "1:1: error while parsing int");
}

#[test]
fn parse_int_max_boundary() {
    let nodes = parse("2147483647").unwrap();
    assert_eq!(nodes[0].value, SExpr::Int(2147483647));
    let err = parse("2147483648").unwrap_err();
    assert_eq!(err.kind, ParseErrorKind::ParseIntError);
}

#[test]
fn parse_float_keeps_text() {
    let nodes = parse("1.5").unwrap();
    assert_eq!(nodes[0].value, SExpr::Float("1.5".to_string()));
    assert_eq!(nodes[0].render(), "1.5");
    let nodes = parse("3.").unwrap();
    assert_eq!(nodes[0].value, SExpr::Float("3.".to_string()));
}

#[test]
fn parse_positions_across_lines() {
    let nodes = parse("1\n  foo").unwrap();
    assert_eq!(nodes.len(), 2);
    assert_eq!(nodes[0].pos, pos(0, 0));
    assert_eq!(nodes[1].pos, pos(1, 2));
    assert_eq!(nodes[1].value, SExpr::Word("foo".to_string()));
}

#[test]
fn parse_empty_input() {
    let nodes = parse("   \n\t ").unwrap();
    assert_eq!(nodes.len(), 0);
}

#[test]
fn parse_empty_list_and_nested() {
    let nodes = parse("(())").unwrap();
    assert_eq!(nodes.len(), 1);
    match &nodes[0].value {
        SExpr::Expr(children) => {
            assert_eq!(children.len(), 1);
            assert!(matches!(children[0].value, SExpr::Expr(ref inner) if inner.is_empty()));
        }
        _ => panic!("expected a list"),
    }
}

#[test]
fn parse_string_raw_characters() {
    let nodes = parse("\"a b\\n(c)\"").unwrap();
    assert_eq!(nodes[0].value, SExpr::Str("a b\\n(c)".to_string()));
}

#[test]
fn lexer_tracks_positions() {
    let mut lx = lerp_lib::parser::Lexer::from("a\nb");
    assert_eq!(lx.pos(), pos(0, 0));
    assert_eq!(lx.peek(), Some('a'));
    assert_eq!(lx.next(), Some('a'));
    assert_eq!(lx.next(), Some('\n'));
    assert_eq!(lx.pos(), pos(1, 0));
    assert_eq!(lx.next(), Some('b'));
    assert_eq!(lx.next(), None);
    assert_eq!(lx.peek(), None);
    assert_eq!(lx.pos(), pos(1, 1));
}

#[test]
fn lexer_parse_next_steps_through_nodes() {
    let mut lx = lerp_lib::parser::Lexer::from("1 foo");
    let first = lx.parse_next().unwrap().unwrap();
    assert_eq!(first.value, SExpr::Int(1));
    let second = lx.parse_next().unwrap().unwrap();
    assert_eq!(second.value, SExpr::Word("foo".to_string()));
    assert_eq!(lx.parse_next().unwrap(), None);
}

#[test]
fn lexer_parse_collects_all_nodes() {
    let mut lx = lerp_lib::parser::Lexer::from("1 2 3");
    let nodes = lx.parse().unwrap();
    assert_eq!(nodes.len(), 3);
    assert_eq!(nodes[2].value, SExpr::Int(3));
}
