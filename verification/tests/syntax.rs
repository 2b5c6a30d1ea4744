use shallot::{
    evaluate, tokenize, Environment, ErrorKind, Expression, List, Number, Symbol,
};

fn parse_one(input: &str) -> Expression {
    let mut lexer = tokenize(input);
    let tokens = lexer.collect_tokens();
    let mut position: usize = 0;
    match Expression::parse(&tokens, &mut position) {
        Ok(e) => {
            assert!(position == tokens.len());
            e
        },
        Err(e) => panic!("parse failed: {}", e.describe()),
    }
}

fn number(n: i64) -> Expression {
    Expression::Number(Number(n))
}

fn symbol(name: &str) -> Expression {
    Expression::Symbol(Symbol(name.to_owned()))
}

#[test]
fn tokens_carry_text_and_offset() {
    let mut lexer = tokenize("(+ 12 x)");
    let tokens = lexer.collect_tokens();
    let texts: Vec<&str> = tokens.iter().map(|t| t.value.as_str()).collect();
    assert!(texts == vec!["(", "+", "12", "x", ")"]);
    let offsets: Vec<usize> = tokens.iter().map(|t| t.position).collect();
    assert!(offsets == vec![0, 1, 3, 6, 7]);
}

#[test]
fn parentheses_are_single_character_tokens() {
    let mut lexer = tokenize("((a))");
    let tokens = lexer.collect_tokens();
    let texts: Vec<&str> = tokens.iter().map(|t| t.value.as_str()).collect();
    assert!(texts == vec!["(", "(", "a", ")", ")"]);
}

#[test]
fn comments_never_reach_the_parser() {
    let mut lexer = tokenize("1 ; the rest is commentary (even this\n2");
    let tokens = lexer.collect_tokens();
    let texts: Vec<&str> = tokens.iter().map(|t| t.value.as_str()).collect();
    assert!(texts == vec!["1", "2"]);
}

#[test]
fn a_trailing_comment_never_alters_a_parse_result() {
    let plain = parse_one("(+ 1 2)");
    let commented = parse_one("(+ 1 2) ; a closing remark");
    assert!(plain == commented);
    let mut env = Environment::default();
    shallot::set_environment(&mut env);
    assert!(evaluate("(+ 1 2) ; a closing remark", &mut env).unwrap() == number(3));
}

#[test]
fn a_quoted_run_is_one_token() {
    let mut lexer = tokenize("(\"a b\" c)");
    let tokens = lexer.collect_tokens();
    let texts: Vec<&str> = tokens.iter().map(|t| t.value.as_str()).collect();
    assert!(texts == vec!["(", "\"a b\"", "c", ")"]);
}

#[test]
fn string_escapes_are_unescaped_inside_the_token() {
    let mut lexer = tokenize("\"a\\\"b\\\\c\"");
    let tokens = lexer.collect_tokens();
    assert!(tokens.len() == 1);
    assert!(tokens[0].value.as_str() == "\"a\"b\\c\"");
}

#[test]
fn bare_tokens_become_numbers_or_symbols() {
    assert!(parse_one("42") == number(42));
    assert!(parse_one("-42") == number(-42));
    assert!(parse_one("x") == symbol("x"));
    assert!(parse_one("-") == symbol("-"));
    assert!(parse_one("4x2") == symbol("4x2"));
    assert!(parse_one("1.5") == symbol("1.5"));
}

#[test]
fn the_widest_numbers_still_parse() {
    assert!(parse_one("9223372036854775807") == number(i64::MAX));
    assert!(parse_one("-9223372036854775808") == number(i64::MIN));
    assert!(parse_one("9223372036854775808") == symbol("9223372036854775808"));
    assert!(parse_one("-9223372036854775809") == symbol("-9223372036854775809"));
}

#[test]
fn lists_nest() {
    let parsed = parse_one("(a (1 2) b)");
    let expected = Expression::List(List(vec![
        symbol("a"),
        Expression::List(List(vec![number(1), number(2)])),
        symbol("b"),
    ]));
    assert!(parsed == expected);
}

#[test]
fn the_quote_prefix_splices_into_a_sub_list() {
    let parsed = parse_one("(a ' b)");
    let expected = Expression::List(List(vec![
        symbol("a"),
        Expression::List(List(vec![symbol("'"), symbol("b")])),
    ]));
    assert!(parsed == expected);
}

#[test]
fn syntax_errors_name_their_cause() {
    let mut env = Environment::default();
    let e = evaluate(")", &mut env).unwrap_err();
    assert!(matches!(e.kind, ErrorKind::UnexpectedClose(0)));
    let e = evaluate("(1 2", &mut env).unwrap_err();
    assert!(matches!(e.kind, ErrorKind::RanOutOfTokens));
    let e = evaluate("(1 ')", &mut env).unwrap_err();
    assert!(matches!(e.kind, ErrorKind::TrailingQuote));
    let e = evaluate("1 2", &mut env).unwrap_err();
    assert!(matches!(e.kind, ErrorKind::ExtraTokens));
    let e = evaluate("", &mut env).unwrap_err();
    assert!(matches!(e.kind, ErrorKind::RanOutOfTokens));
}

#[test]
fn rendering_numbers_symbols_and_lists_reads_back() {
    let original = parse_one("(add -3 (nested 12) end)");
    let rendered = original.render();
    assert!(rendered.as_str() == "(add -3 (nested 12) end)");
    let reparsed = parse_one(rendered.as_str());
    assert!(reparsed == original);
}

#[test]
fn rendering_an_empty_list_reads_back() {
    let original = Expression::List(List(Vec::new()));
    assert!(original.render().as_str() == "()");
    assert!(parse_one("()") == original);
}

#[test]
fn rendering_shows_each_kind() {
    let mut env = Environment::default();
    shallot::set_environment(&mut env);
    let plus = evaluate("+", &mut env).unwrap();
    assert!(plus.render().as_str() == "\u{ab}builtin function +\u{bb}");
    let quote = evaluate("'", &mut env).unwrap();
    assert!(quote.render().as_str() == "\u{ab}builtin macro '\u{bb}");
    let lambda = evaluate("(\u{3bb} (a b) (+ a b))", &mut env).unwrap();
    assert!(lambda.render().as_str() == "\u{3bb} (a b) (+ a b)");
    let macr = evaluate("(\u{3bc} (x) x)", &mut env).unwrap();
    assert!(macr.render().as_str() == "\u{3bc} (x) x");
}

#[test]
fn numbers_render_in_decimal() {
    assert!(number(0).render().as_str() == "0");
    assert!(number(-7).render().as_str() == "-7");
    assert!(number(i64::MAX).render().as_str() == "9223372036854775807");
    assert!(number(i64::MIN).render().as_str() == "-9223372036854775808");
}
