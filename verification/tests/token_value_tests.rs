use zawgl::cypher::TokenKind;
use zawgl::token_value::{parse_bool, parse_i64, token_callback, AstTokenNode, TokenCallback};

#[test]
fn string_tokens_lose_their_quotes() {
    assert_eq!(token_callback(TokenKind::StringType, "'abc'"), TokenCallback::StringValue(Some("abc".to_string())));
    assert_eq!(token_callback(TokenKind::StringType, "''"), TokenCallback::StringValue(Some(String::new())));
    assert_eq!(token_callback(TokenKind::StringType, "'"), TokenCallback::StringValue(None));
    assert_eq!(token_callback(TokenKind::StringType, "'é'"), TokenCallback::StringValue(Some("é".to_string())));
    assert_eq!(token_callback(TokenKind::StringType, "éa'"), TokenCallback::StringValue(None));
    assert_eq!(token_callback(TokenKind::StringType, "'aé"), TokenCallback::StringValue(None));
}

#[test]
fn string_slice_agrees_with_std_get() {
    for s in ["'abc'", "''", "'", "'é'", "éa'", "'aé", "xy"] {
        let expected = s.get(1..s.len() - 1).map(|x| x.to_string());
        assert_eq!(token_callback(TokenKind::StringType, s), TokenCallback::StringValue(expected));
    }
}

#[test]
fn numbers_and_booleans_are_read() {
    assert_eq!(token_callback(TokenKind::Integer, "42"), TokenCallback::IntegerValue(Some(42)));
    assert_eq!(token_callback(TokenKind::Integer, "4x"), TokenCallback::IntegerValue(None));
    assert_eq!(token_callback(TokenKind::True, "true"), TokenCallback::BoolValue(Some(true)));
    assert_eq!(token_callback(TokenKind::False, "false"), TokenCallback::BoolValue(Some(false)));
    assert_eq!(token_callback(TokenKind::True, "TRUE"), TokenCallback::BoolValue(None));
    assert_eq!(token_callback(TokenKind::Float, "1.5"), TokenCallback::FloatText("1.5".to_string()));
}

#[test]
fn names_and_other_tokens() {
    assert_eq!(token_callback(TokenKind::Identifier, "n"), TokenCallback::Identifier("n".to_string()));
    assert_eq!(token_callback(TokenKind::Parameter, "$p"), TokenCallback::Parameter("$p".to_string()));
    assert_eq!(token_callback(TokenKind::Dot, "."), TokenCallback::Skip);
    let node = AstTokenNode::new_token(3, "'v'".to_string(), TokenKind::StringType);
    assert_eq!(node.accept(), TokenCallback::StringValue(Some("v".to_string())));
}

#[test]
fn integers_parse_as_std_does() {
    for s in [
        "0", "7", "-7", "+7", "007", "-0", "", "-", "+", "1 ", " 1", "1_0", "x",
        "9223372036854775807", "9223372036854775808", "-9223372036854775808",
        "-9223372036854775809", "99999999999999999999999", "00000000000000000000000000012",
    ] {
        assert_eq!(parse_i64(s), s.parse::<i64>().ok(), "{}", s);
    }
}

#[test]
fn booleans_parse_as_std_does() {
    for s in ["true", "false", "True", "", "truee", "fals"] {
        assert_eq!(parse_bool(s), s.parse::<bool>().ok(), "{}", s);
    }
}
