//! End-to-end runs of whole invocations through `seq_expand::run`.

use seq_expand::parse::{Error, ErrorKind};
use seq_expand::token::{Delim, Token};

fn id(name: &str, pos: usize) -> Token {
    Token::Ident { name: name.to_string(), pos }
}

fn lit(text: &str, pos: usize) -> Token {
    Token::Lit { text: text.to_string(), pos }
}

fn punct(ch: char, pos: usize) -> Token {
    Token::Punct { ch, pos }
}

fn group(delim: Delim, inner: Vec<Token>, pos: usize) -> Token {
    Token::Group { delim, inner, pos }
}

/// Builds `<var> in <from> .. [=] <to> { <body> }` with fixed header positions.
fn invocation(var: &str, from: &str, inclusive: bool, to: &str, body: Vec<Token>) -> Vec<Token> {
    let mut v = vec![
        id(var, 0),
        id("in", 1),
        lit(from, 2),
        punct('.', 3),
        punct('.', 4),
    ];
    if inclusive {
        v.push(punct('=', 5));
    }
    v.push(lit(to, 6));
    v.push(group(Delim::Brace, body, 7));
    v
}

#[test]
fn implicit_whole_template_repetition() {
    // N in 0..3 { item(N); }  =>  item(0); item(1); item(2);
    let body = vec![
        id("item", 10),
        group(Delim::Parenthesis, vec![id("N", 12)], 11),
        punct(';', 13),
    ];
    let input = invocation("N", "0", false, "3", body);
    let out = seq_expand::run(&input).unwrap();
    let mut expected = Vec::new();
    for val in ["0", "1", "2"] {
        expected.push(id("item", 10));
        expected.push(group(Delim::Parenthesis, vec![lit(val, 12)], 11));
        expected.push(punct(';', 13));
    }
    assert_eq!(out, expected);
}

#[test]
fn inclusive_bound_iterates_once_more() {
    // N in 0..=2 { N }  =>  0 1 2
    let input = invocation("N", "0", true, "2", vec![id("N", 20)]);
    let out = seq_expand::run(&input).unwrap();
    assert_eq!(out, vec![lit("0", 20), lit("1", 20), lit("2", 20)]);
}

#[test]
fn exclusive_bound_count() {
    // N in 0..2 { N }  =>  0 1
    let input = invocation("N", "0", false, "2", vec![id("N", 20)]);
    let out = seq_expand::run(&input).unwrap();
    assert_eq!(out, vec![lit("0", 20), lit("1", 20)]);
}

#[test]
fn nonzero_lower_bound() {
    // N in 4..=6 { N }  =>  4 5 6
    let input = invocation("N", "4", true, "6", vec![id("N", 20)]);
    let out = seq_expand::run(&input).unwrap();
    assert_eq!(out, vec![lit("4", 20), lit("5", 20), lit("6", 20)]);
}

#[test]
fn explicit_section_isolates_repetition() {
    // N in 0..3 { const K: i32 = 5; #( fn f~N() {} )* }
    let section = vec![
        id("fn", 20),
        id("f", 21),
        punct('~', 22),
        id("N", 23),
        group(Delim::Parenthesis, vec![], 24),
        group(Delim::Brace, vec![], 25),
    ];
    let body = vec![
        id("const", 10),
        id("K", 11),
        punct(':', 12),
        id("i32", 13),
        punct('=', 14),
        lit("5", 15),
        punct(';', 16),
        punct('#', 17),
        group(Delim::Parenthesis, section, 18),
        punct('*', 19),
    ];
    let input = invocation("N", "0", false, "3", body);
    let out = seq_expand::run(&input).unwrap();
    let mut expected = vec![
        id("const", 10),
        id("K", 11),
        punct(':', 12),
        id("i32", 13),
        punct('=', 14),
        lit("5", 15),
        punct(';', 16),
    ];
    for name in ["f0", "f1", "f2"] {
        expected.push(id("fn", 20));
        expected.push(id(name, 21));
        expected.push(group(Delim::Parenthesis, vec![], 24));
        expected.push(group(Delim::Brace, vec![], 25));
    }
    assert_eq!(out, expected);
}

#[test]
fn explicit_section_inside_group_still_counts() {
    // N in 0..2 { { x #( N )* } }  =>  { x 0 1 }  (emitted once, not twice)
    let inner = vec![
        id("x", 10),
        punct('#', 11),
        group(Delim::Parenthesis, vec![id("N", 13)], 12),
        punct('*', 14),
    ];
    let body = vec![group(Delim::Brace, inner, 9)];
    let input = invocation("N", "0", false, "2", body);
    let out = seq_expand::run(&input).unwrap();
    let expected = vec![group(
        Delim::Brace,
        vec![id("x", 10), lit("0", 13), lit("1", 13)],
        9,
    )];
    assert_eq!(out, expected);
}

#[test]
fn two_explicit_sections_expand_in_place() {
    // N in 0..2 { #( a )* #( N )* }  =>  a a 0 1
    let body = vec![
        punct('#', 10),
        group(Delim::Parenthesis, vec![id("a", 12)], 11),
        punct('*', 13),
        punct('#', 14),
        group(Delim::Parenthesis, vec![id("N", 16)], 15),
        punct('*', 17),
    ];
    let input = invocation("N", "0", false, "2", body);
    let out = seq_expand::run(&input).unwrap();
    assert_eq!(
        out,
        vec![id("a", 12), id("a", 12), lit("0", 16), lit("1", 16)]
    );
}

#[test]
fn explicit_section_over_empty_range() {
    // N in 2..2 { a #( b )* c }  =>  a c
    let body = vec![
        id("a", 10),
        punct('#', 11),
        group(Delim::Parenthesis, vec![id("b", 13)], 12),
        punct('*', 14),
        id("c", 15),
    ];
    let input = invocation("N", "2", false, "2", body);
    let out = seq_expand::run(&input).unwrap();
    assert_eq!(out, vec![id("a", 10), id("c", 15)]);
}

#[test]
fn nested_groups_preserved() {
    // N in 1..2 { { [ ( N ) ] } }  =>  { [ ( 1 ) ] }
    let body = vec![group(
        Delim::Brace,
        vec![group(
            Delim::Bracket,
            vec![group(Delim::Parenthesis, vec![id("N", 13)], 12)],
            11,
        )],
        10,
    )];
    let input = invocation("N", "1", false, "2", body);
    let out = seq_expand::run(&input).unwrap();
    let expected = vec![group(
        Delim::Brace,
        vec![group(
            Delim::Bracket,
            vec![group(Delim::Parenthesis, vec![lit("1", 13)], 12)],
            11,
        )],
        10,
    )];
    assert_eq!(out, expected);
}

#[test]
fn zero_length_range_yields_empty_output() {
    // N in 5..5 { item(N); }  =>  (nothing)
    let body = vec![
        id("item", 10),
        group(Delim::Parenthesis, vec![id("N", 12)], 11),
        punct(';', 13),
    ];
    let input = invocation("N", "5", false, "5", body);
    let out = seq_expand::run(&input).unwrap();
    assert_eq!(out, Vec::<Token>::new());
}

#[test]
fn reversed_range_yields_empty_output() {
    let input = invocation("N", "3", false, "1", vec![id("N", 10)]);
    assert_eq!(seq_expand::run(&input).unwrap(), Vec::<Token>::new());
    let input = invocation("N", "3", true, "1", vec![id("N", 10)]);
    assert_eq!(seq_expand::run(&input).unwrap(), Vec::<Token>::new());
}

#[test]
fn hash_without_paren_group_is_not_a_section() {
    // N in 0..2 { # item (N) }  =>  # item (0) # item (1)
    let body = vec![
        punct('#', 10),
        id("item", 11),
        group(Delim::Parenthesis, vec![id("N", 13)], 12),
    ];
    let input = invocation("N", "0", false, "2", body);
    let out = seq_expand::run(&input).unwrap();
    let mut expected = Vec::new();
    for val in ["0", "1"] {
        expected.push(punct('#', 10));
        expected.push(id("item", 11));
        expected.push(group(Delim::Parenthesis, vec![lit(val, 13)], 12));
    }
    assert_eq!(out, expected);
}

#[test]
fn hash_before_bracket_group_is_not_a_section() {
    // N in 0..2 { # [ N ] * }  =>  whole-template repetition, `*` kept
    let body = vec![
        punct('#', 10),
        group(Delim::Bracket, vec![id("N", 12)], 11),
        punct('*', 13),
    ];
    let input = invocation("N", "0", false, "2", body);
    let out = seq_expand::run(&input).unwrap();
    let mut expected = Vec::new();
    for val in ["0", "1"] {
        expected.push(punct('#', 10));
        expected.push(group(Delim::Bracket, vec![lit(val, 12)], 11));
        expected.push(punct('*', 13));
    }
    assert_eq!(out, expected);
}

#[test]
fn widest_range_bound_is_accepted() {
    // from == to == u64::MAX, exclusive: zero iterations, but a valid parse.
    let input = invocation(
        "N",
        "18446744073709551615",
        false,
        "18446744073709551615",
        vec![id("N", 10)],
    );
    assert_eq!(seq_expand::run(&input).unwrap(), Vec::<Token>::new());
}

#[test]
fn error_messages_name_the_fault() {
    let e = Error { kind: ErrorKind::MalformedRange, pos: 4 };
    assert_eq!(e.message().as_str(), "malformed range");
    let e = Error { kind: ErrorKind::SyntaxError, pos: 4 };
    assert_eq!(e.message().as_str(), "syntax error");
    let e = Error { kind: ErrorKind::IdentifierExpected, pos: 4 };
    assert_eq!(e.message().as_str(), "identifier expected");
}

#[test]
fn empty_input_wants_identifier() {
    let input: Vec<Token> = Vec::new();
    assert_eq!(
        seq_expand::run(&input),
        Err(Error { kind: ErrorKind::IdentifierExpected, pos: 0 })
    );
}

#[test]
fn literal_loop_var_wants_identifier() {
    let input = vec![lit("3", 5)];
    assert_eq!(
        seq_expand::run(&input),
        Err(Error { kind: ErrorKind::IdentifierExpected, pos: 5 })
    );
}

#[test]
fn missing_in_keyword_is_malformed_range() {
    let input = vec![id("N", 0)];
    assert_eq!(
        seq_expand::run(&input),
        Err(Error { kind: ErrorKind::MalformedRange, pos: 0 })
    );
    let input = vec![id("N", 0), id("of", 1)];
    assert_eq!(
        seq_expand::run(&input),
        Err(Error { kind: ErrorKind::MalformedRange, pos: 1 })
    );
}

#[test]
fn non_numeral_bound_is_malformed_range() {
    let input = invocation("N", "x", false, "3", vec![]);
    assert_eq!(
        seq_expand::run(&input),
        Err(Error { kind: ErrorKind::MalformedRange, pos: 2 })
    );
}

#[test]
fn overflowing_bound_is_malformed_range() {
    // One past the largest machine word.
    let input = invocation("N", "18446744073709551616", false, "3", vec![]);
    assert_eq!(
        seq_expand::run(&input),
        Err(Error { kind: ErrorKind::MalformedRange, pos: 2 })
    );
}

#[test]
fn single_dot_is_malformed_range() {
    let input = vec![
        id("N", 0),
        id("in", 1),
        lit("0", 2),
        punct('.', 3),
        lit("3", 4),
        group(Delim::Brace, vec![], 5),
    ];
    assert_eq!(
        seq_expand::run(&input),
        Err(Error { kind: ErrorKind::MalformedRange, pos: 4 })
    );
}

#[test]
fn missing_upper_bound_is_malformed_range() {
    let input = vec![
        id("N", 0),
        id("in", 1),
        lit("0", 2),
        punct('.', 3),
        punct('.', 4),
    ];
    assert_eq!(
        seq_expand::run(&input),
        Err(Error { kind: ErrorKind::MalformedRange, pos: 4 })
    );
}

#[test]
fn missing_body_is_syntax_error() {
    let input = vec![
        id("N", 0),
        id("in", 1),
        lit("0", 2),
        punct('.', 3),
        punct('.', 4),
        lit("3", 6),
    ];
    assert_eq!(
        seq_expand::run(&input),
        Err(Error { kind: ErrorKind::SyntaxError, pos: 6 })
    );
}

#[test]
fn parenthesized_body_is_syntax_error() {
    let mut input = invocation("N", "0", false, "3", vec![]);
    let last = input.len() - 1;
    input[last] = group(Delim::Parenthesis, vec![], 7);
    assert_eq!(
        seq_expand::run(&input),
        Err(Error { kind: ErrorKind::SyntaxError, pos: 7 })
    );
}

#[test]
fn trailing_token_is_syntax_error() {
    let mut input = invocation("N", "0", false, "3", vec![]);
    input.push(punct(';', 30));
    assert_eq!(
        seq_expand::run(&input),
        Err(Error { kind: ErrorKind::SyntaxError, pos: 30 })
    );
}

#[test]
fn unclosed_repeat_section_is_syntax_error() {
    // #( x ) not followed by `*`: reported at the token found instead.
    let body = vec![
        punct('#', 10),
        group(Delim::Parenthesis, vec![id("x", 12)], 11),
        punct(';', 13),
    ];
    let input = invocation("N", "0", false, "3", body);
    assert_eq!(
        seq_expand::run(&input),
        Err(Error { kind: ErrorKind::SyntaxError, pos: 13 })
    );
}

#[test]
fn repeat_section_at_end_without_star_is_syntax_error() {
    // #( x ) with nothing after: reported at the parenthesized group.
    let body = vec![
        punct('#', 10),
        group(Delim::Parenthesis, vec![id("x", 12)], 11),
    ];
    let input = invocation("N", "0", false, "3", body);
    assert_eq!(
        seq_expand::run(&input),
        Err(Error { kind: ErrorKind::SyntaxError, pos: 11 })
    );
}

#[test]
fn unclosed_repeat_section_inside_group_is_found() {
    let inner = vec![
        punct('#', 10),
        group(Delim::Parenthesis, vec![], 11),
        punct(';', 12),
    ];
    let body = vec![group(Delim::Bracket, inner, 9)];
    let input = invocation("N", "0", false, "3", body);
    assert_eq!(
        seq_expand::run(&input),
        Err(Error { kind: ErrorKind::SyntaxError, pos: 12 })
    );
}
