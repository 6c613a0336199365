use zawgl::ast::AstTag;
use zawgl::cypher::{
    parse_boolean_expression, parse_boolean_expression_terminal, parse_boolean_operator,
    parse_where_clause, Token, TokenKind, WhereAst,
};

fn tok(kind: TokenKind, value: &str) -> Token {
    Token { kind, value: value.to_string() }
}

fn leaf(kind: TokenKind, value: &str) -> WhereAst {
    WhereAst::Token(kind, value.to_string())
}

fn tag(t: AstTag, ch: Vec<WhereAst>) -> WhereAst {
    WhereAst::Tag(t, ch)
}

/// A function call with no arguments: an opening and a closing parenthesis.
fn parse_call(tokens: &Vec<Token>, pos: usize) -> Result<(WhereAst, usize), usize> {
    if pos + 1 < tokens.len() && tokens[pos + 1].kind == TokenKind::CloseParenthesis {
        Ok((tag(AstTag::Function, vec![]), pos + 2))
    } else {
        Err(pos + 1)
    }
}

fn prop(item: &str, key: &str) -> Vec<Token> {
    vec![
        tok(TokenKind::Identifier, item),
        tok(TokenKind::Dot, "."),
        tok(TokenKind::Identifier, key),
    ]
}

fn prop_tree(item: &str, key: &str) -> WhereAst {
    tag(
        AstTag::ItemPropertyIdentifier,
        vec![leaf(TokenKind::Identifier, item), leaf(TokenKind::Identifier, key)],
    )
}

fn comparison(item: &str, key: &str, value: &str) -> Vec<Token> {
    let mut t = prop(item, key);
    t.push(tok(TokenKind::Equals, "="));
    t.push(tok(TokenKind::Integer, value));
    t
}

fn comparison_tree(item: &str, key: &str, value: &str) -> WhereAst {
    tag(AstTag::EqualityOperator, vec![prop_tree(item, key), leaf(TokenKind::Integer, value)])
}

#[test]
fn property_equals_string() {
    let mut tokens = prop("n", "name");
    tokens.push(tok(TokenKind::Equals, "="));
    tokens.push(tok(TokenKind::StringType, "'x'"));
    let r = parse_boolean_expression(&tokens, 0, &parse_call);
    assert_eq!(
        r,
        Ok((
            tag(AstTag::EqualityOperator, vec![prop_tree("n", "name"), leaf(TokenKind::StringType, "'x'")]),
            5
        ))
    );
}

#[test]
fn and_binds_tighter_than_a_following_or() {
    let mut tokens = comparison("a", "b", "1");
    tokens.push(tok(TokenKind::And, "AND"));
    tokens.extend(comparison("c", "d", "2"));
    tokens.push(tok(TokenKind::Or, "OR"));
    tokens.extend(comparison("e", "f", "3"));
    let r = parse_boolean_expression(&tokens, 0, &parse_call);
    let expected = tag(
        AstTag::OrOperator,
        vec![
            comparison_tree("e", "f", "3"),
            tag(AstTag::AndOperator, vec![comparison_tree("a", "b", "1"), comparison_tree("c", "d", "2")]),
        ],
    );
    assert_eq!(r, Ok((expected, 17)));
}

#[test]
fn or_then_and_nests_to_the_right() {
    let mut tokens = comparison("a", "b", "1");
    tokens.push(tok(TokenKind::Or, "OR"));
    tokens.extend(comparison("c", "d", "2"));
    tokens.push(tok(TokenKind::And, "AND"));
    tokens.extend(comparison("e", "f", "3"));
    let r = parse_boolean_expression(&tokens, 0, &parse_call);
    let expected = tag(
        AstTag::OrOperator,
        vec![
            comparison_tree("a", "b", "1"),
            tag(AstTag::AndOperator, vec![comparison_tree("c", "d", "2"), comparison_tree("e", "f", "3")]),
        ],
    );
    assert_eq!(r, Ok((expected, 17)));
}

#[test]
fn missing_right_hand_side_is_an_error_at_its_position() {
    let mut tokens = prop("n", "name");
    tokens.push(tok(TokenKind::Equals, "="));
    assert_eq!(parse_boolean_expression(&tokens, 0, &parse_call), Err(4));
}

#[test]
fn missing_equals_after_property() {
    let mut tokens = prop("n", "name");
    tokens.push(tok(TokenKind::Integer, "1"));
    assert_eq!(parse_boolean_expression(&tokens, 0, &parse_call), Err(3));
}

#[test]
fn dot_without_key_is_an_error() {
    let tokens = vec![tok(TokenKind::Identifier, "n"), tok(TokenKind::Dot, "."), tok(TokenKind::Integer, "1")];
    assert_eq!(parse_boolean_expression(&tokens, 0, &parse_call), Err(2));
}

#[test]
fn unexpected_token_and_empty_input() {
    let tokens = vec![tok(TokenKind::Equals, "=")];
    assert_eq!(parse_boolean_expression(&tokens, 0, &parse_call), Err(0));
    let empty: Vec<Token> = vec![];
    assert_eq!(parse_boolean_expression(&empty, 0, &parse_call), Err(0));
}

#[test]
fn literal_left_operand_is_not_kept() {
    let tokens = vec![tok(TokenKind::Integer, "1"), tok(TokenKind::Equals, "="), tok(TokenKind::Integer, "2")];
    assert_eq!(
        parse_boolean_expression(&tokens, 0, &parse_call),
        Ok((tag(AstTag::EqualityOperator, vec![leaf(TokenKind::Integer, "2")]), 3))
    );
}

#[test]
fn property_on_the_right_is_read_but_not_added() {
    let mut tokens = vec![tok(TokenKind::Parameter, "$p"), tok(TokenKind::Equals, "=")];
    tokens.extend(prop("n", "age"));
    assert_eq!(
        parse_boolean_expression(&tokens, 0, &parse_call),
        Ok((tag(AstTag::EqualityOperator, vec![]), 5))
    );
}

#[test]
fn function_call_compared_and_alone() {
    let tokens = vec![
        tok(TokenKind::Identifier, "id"),
        tok(TokenKind::OpenParenthesis, "("),
        tok(TokenKind::CloseParenthesis, ")"),
        tok(TokenKind::Equals, "="),
        tok(TokenKind::Integer, "3"),
    ];
    assert_eq!(
        parse_boolean_expression(&tokens, 0, &parse_call),
        Ok((
            tag(AstTag::EqualityOperator, vec![tag(AstTag::Function, vec![]), leaf(TokenKind::Integer, "3")]),
            5
        ))
    );
    let alone = vec![
        tok(TokenKind::Identifier, "id"),
        tok(TokenKind::OpenParenthesis, "("),
        tok(TokenKind::CloseParenthesis, ")"),
    ];
    assert_eq!(parse_boolean_expression(&alone, 0, &parse_call), Ok((tag(AstTag::Function, vec![]), 3)));
    let broken = vec![tok(TokenKind::Identifier, "id"), tok(TokenKind::OpenParenthesis, "(")];
    assert_eq!(parse_boolean_expression(&broken, 0, &parse_call), Err(2));
}

#[test]
fn parenthesized_expression() {
    let mut tokens = vec![tok(TokenKind::OpenParenthesis, "(")];
    tokens.extend(comparison("a", "b", "1"));
    tokens.push(tok(TokenKind::CloseParenthesis, ")"));
    assert_eq!(parse_boolean_expression(&tokens, 0, &parse_call), Ok((comparison_tree("a", "b", "1"), 7)));
    tokens.pop();
    assert_eq!(parse_boolean_expression(&tokens, 0, &parse_call), Err(6));
}

#[test]
fn terminal_appends_to_children() {
    let tokens = vec![tok(TokenKind::True, "true")];
    let r = parse_boolean_expression_terminal(&tokens, 0, vec![leaf(TokenKind::Integer, "1")], &parse_call);
    assert_eq!(r, Ok((vec![leaf(TokenKind::Integer, "1"), leaf(TokenKind::True, "true")], 1)));
    let bad = vec![tok(TokenKind::Equals, "=")];
    assert_eq!(parse_boolean_expression_terminal(&bad, 0, vec![], &parse_call), Err(0));
}

#[test]
fn operator_without_follow_up_returns_previous() {
    let tokens = vec![tok(TokenKind::Other, "RETURN")];
    let prev = leaf(TokenKind::Integer, "1");
    assert_eq!(parse_boolean_operator(&tokens, prev, 0, &parse_call), Ok((leaf(TokenKind::Integer, "1"), 0)));
}

#[test]
fn where_clause_adds_a_where_node() {
    let mut tokens = vec![tok(TokenKind::Where, "WHERE")];
    tokens.extend(comparison("a", "b", "1"));
    let mut parent = vec![leaf(TokenKind::Identifier, "m")];
    assert_eq!(parse_where_clause(&tokens, 0, &mut parent, &parse_call), Ok(6));
    assert_eq!(
        parent,
        vec![leaf(TokenKind::Identifier, "m"), tag(AstTag::Where, vec![comparison_tree("a", "b", "1")])]
    );
    let other = vec![tok(TokenKind::Other, "RETURN")];
    let mut untouched: Vec<WhereAst> = vec![];
    assert_eq!(parse_where_clause(&other, 0, &mut untouched, &parse_call), Ok(0));
    assert!(untouched.is_empty());
    let broken = vec![tok(TokenKind::Where, "WHERE")];
    assert_eq!(parse_where_clause(&broken, 0, &mut untouched, &parse_call), Err(1));
    assert!(untouched.is_empty());
}
