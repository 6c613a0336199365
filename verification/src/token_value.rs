use vstd::prelude::*;
use vstd::string::StrSliceExecFns;
use crate::cypher::TokenKind;

verus! {

/// The text between the quotes of a string token: the characters after the
/// first and before the last, where both of those are one byte long;
/// otherwise there is no such slice of the text.
pub open spec fn unquoted(s: Seq<char>) -> Option<Seq<char>> {
    if s.len() >= 2 && (s[0] as u32) < 128 && (s[s.len() - 1] as u32) < 128 {
        Some(s.subrange(1, s.len() - 1))
    } else {
        None
    }
}

pub open spec fn is_digit(c: char) -> bool {
    '0' <= c && c <= '9'
}

/// A non-empty run of decimal digits.
pub open spec fn all_digits(s: Seq<char>) -> bool {
    s.len() > 0 && forall|i: int| 0 <= i < s.len() ==> is_digit(#[trigger] s[i])
}

/// The value of a string of decimal digits.
pub open spec fn digits_value(s: Seq<char>) -> int
    decreases s.len(),
{
    if s.len() == 0 {
        0
    } else {
        digits_value(s.drop_last()) * 10 + (s.last() as int - '0' as int)
    }
}

/// The signed 64-bit integer that a text denotes: an optional `+` or `-`
/// followed by at least one decimal digit, with a value in range.
pub open spec fn i64_of(s: Seq<char>) -> Option<i64> {
    let neg = s.len() > 0 && s[0] == '-';
    let body = if s.len() > 0 && (s[0] == '-' || s[0] == '+') {
        s.drop_first()
    } else {
        s
    };
    let v = if neg {
        -digits_value(body)
    } else {
        digits_value(body)
    };
    if all_digits(body) && i64::MIN <= v <= i64::MAX {
        Some(v as i64)
    } else {
        None
    }
}

/// The boolean that a text denotes: exactly `true` or `false`.
pub open spec fn bool_of(s: Seq<char>) -> Option<bool> {
    if s == seq!['t', 'r', 'u', 'e'] {
        Some(true)
    } else if s == seq!['f', 'a', 'l', 's', 'e'] {
        Some(false)
    } else {
        None
    }
}

/// What a token hands to a visitor: the unquoted text of a string, the
/// value of an integer or a boolean (`None` where the text does not denote
/// one), the name of an identifier or parameter, or the raw text of a float
/// for the caller to read. Other tokens are passed over.
#[derive(Debug, PartialEq)]
pub enum TokenCallback {
    StringValue(Option<String>),
    FloatText(String),
    IntegerValue(Option<i64>),
    BoolValue(Option<bool>),
    Identifier(String),
    Parameter(String),
    Skip,
}

pub open spec fn callback_matches(kind: TokenKind, s: Seq<char>, r: TokenCallback) -> bool {
    match kind {
        TokenKind::StringType => r matches TokenCallback::StringValue(v) && match unquoted(s) {
            Some(u) => v matches Some(x) && x@ == u,
            None => v is None,
        },
        TokenKind::Float => r matches TokenCallback::FloatText(x) && x@ == s,
        TokenKind::Integer => r == TokenCallback::IntegerValue(i64_of(s)),
        TokenKind::True | TokenKind::False => r == TokenCallback::BoolValue(bool_of(s)),
        TokenKind::Identifier => r matches TokenCallback::Identifier(x) && x@ == s,
        TokenKind::Parameter => r matches TokenCallback::Parameter(x) && x@ == s,
        _ => r is Skip,
    }
}

proof fn lemma_digits_value_grows(s: Seq<char>, i: int)
    requires
        0 <= i < s.len(),
        forall|j: int| 0 <= j < s.len() ==> is_digit(#[trigger] s[j]),
    ensures
        digits_value(s.take(i + 1)) == digits_value(s.take(i)) * 10 + (s[i] as int - '0' as int),
        digits_value(s.take(i + 1)) >= digits_value(s.take(i)),
{
    assert(s.take(i + 1).drop_last() =~= s.take(i));
    assert(is_digit(s[i]));
    assert(digits_value(s.take(i)) >= 0) by {
        lemma_digits_value_nonneg(s.take(i));
    }
}

proof fn lemma_digits_value_nonneg(s: Seq<char>)
    requires
        forall|j: int| 0 <= j < s.len() ==> is_digit(#[trigger] s[j]),
    ensures
        digits_value(s) >= 0,
    decreases s.len(),
{
    if s.len() > 0 {
        lemma_digits_value_nonneg(s.drop_last());
        assert(is_digit(s[s.len() - 1]));
    }
}

/// The value of the decimal digits of `s` from `start`, or `None` where a
/// character there is no digit, there is none, or the value passes `limit`.
fn read_digits(s: &str, start: usize, limit: u64) -> (r: Option<u64>)
    requires
        start <= s@.len(),
        9 <= limit <= 0x8000_0000_0000_0000,
    ensures
        ({
            let body = s@.skip(start as int);
            let ok = all_digits(body);
            match r {
                Some(v) => ok && v == digits_value(body) && v <= limit,
                None => !ok || digits_value(body) > limit,
            }
        }),
{
    let n = s.unicode_len();
    if start >= n {
        assert(s@.skip(start as int).len() == 0);
        return None;
    }
    let ghost body = s@.skip(start as int);
    let mut i = start;
    let mut v: u64 = 0;
    let mut over = false;
    while i < n
        invariant
            n == s@.len(),
            start <= i <= n,
            body == s@.skip(start as int),
            9 <= limit <= 0x8000_0000_0000_0000,
            forall|j: int| 0 <= j < i - start ==> is_digit(#[trigger] body[j]),
            !over ==> v == digits_value(body.take(i - start)) && v <= limit,
            over ==> digits_value(body.take(i - start)) > limit,
        decreases n - i,
    {
        let c = s.get_char(i);
        assert(c == body[i - start]);
        if !('0' <= c && c <= '9') {
            assert(!is_digit(body[i - start]));
            return None;
        }
        let d: u64 = ((c as u32) - ('0' as u32)) as u64;
        proof {
            assert forall|j: int| 0 <= j < i + 1 - start implies is_digit(#[trigger] body[j]) by {
                if j < i - start {
                } else {
                    assert(j == i - start);
                }
            }
            let b1 = body.take(i + 1 - start);
            assert forall|j: int| 0 <= j < b1.len() implies is_digit(#[trigger] b1[j]) by {
                assert(b1[j] == body[j]);
            }
            lemma_digits_value_grows(b1, i - start);
            assert(b1.take(i - start) =~= body.take(i - start));
            assert(b1.take(i + 1 - start) =~= b1);
        }
        if !over {
            if v > (limit - d) / 10 {
                over = true;
                assert(v * 10 + d > limit) by (nonlinear_arith)
                    requires
                        v > (limit - d) / 10,
                        d <= 9,
                        limit >= d,
                ;
            } else {
                assert(v * 10 + d <= limit) by (nonlinear_arith)
                    requires
                        v <= (limit - d) / 10,
                        d <= 9,
                        limit >= d,
                ;
                v = v * 10 + d;
            }
        }
        i = i + 1;
    }
    assert(body.take(n - start) =~= body);
    if over {
        None
    } else {
        Some(v)
    }
}

/// Reads a signed 64-bit integer as `str::parse::<i64>` does: an optional
/// sign and at least one decimal digit, with a value in range.
pub fn parse_i64(s: &str) -> (r: Option<i64>)
    ensures
        r == i64_of(s@),
{
    let n = s.unicode_len();
    let mut start: usize = 0;
    let mut neg = false;
    if n > 0 {
        let c = s.get_char(0);
        if c == '-' {
            neg = true;
            start = 1;
        } else if c == '+' {
            start = 1;
        }
    }
    let ghost body = s@.skip(start as int);
    proof {
        if n > 0 && (s@[0] == '-' || s@[0] == '+') {
            assert(body =~= s@.drop_first());
        } else {
            assert(body =~= s@);
        }
    }
    let limit: u64 = if neg {
        0x8000_0000_0000_0000
    } else {
        0x7fff_ffff_ffff_ffff
    };
    let r = read_digits(s, start, limit);
    proof {
        assert(neg == (s@.len() > 0 && s@[0] == '-'));
        let dv = digits_value(body);
        let v = if neg {
            -dv
        } else {
            dv
        };
        match r {
            Some(x) => {
                assert(i64::MIN <= v <= i64::MAX);
            },
            None => {
                assert(!(i64::MIN <= v <= i64::MAX) || !all_digits(body));
            },
        }
    }
    match r {
        None => None,
        Some(v) => {
            if neg {
                if v == 0x8000_0000_0000_0000 {
                    Some(i64::MIN)
                } else {
                    Some(-(v as i64))
                }
            } else {
                Some(v as i64)
            }
        },
    }
}

/// Reads a boolean as `str::parse::<bool>` does: exactly `true` or `false`.
pub fn parse_bool(s: &str) -> (r: Option<bool>)
    ensures
        r == bool_of(s@),
{
    let n = s.unicode_len();
    if n == 4 && s.get_char(0) == 't' && s.get_char(1) == 'r' && s.get_char(2) == 'u'
        && s.get_char(3) == 'e' {
        assert(s@ =~= seq!['t', 'r', 'u', 'e']);
        Some(true)
    } else if n == 5 && s.get_char(0) == 'f' && s.get_char(1) == 'a' && s.get_char(2) == 'l'
        && s.get_char(3) == 's' && s.get_char(4) == 'e' {
        assert(s@ =~= seq!['f', 'a', 'l', 's', 'e']);
        Some(false)
    } else {
        proof {
            if s@ == seq!['t', 'r', 'u', 'e'] {
                assert(s@[0] == 't' && s@[1] == 'r' && s@[2] == 'u' && s@[3] == 'e');
            }
            if s@ == seq!['f', 'a', 'l', 's', 'e'] {
                assert(s@[0] == 'f' && s@[1] == 'a' && s@[2] == 'l' && s@[3] == 's' && s@[4]
                    == 'e');
            }
        }
        None
    }
}

/// What a token of kind `kind` and text `value` hands to a visitor. The text
/// of a string token holds at least its opening quote.
pub fn token_callback(kind: TokenKind, value: &str) -> (r: TokenCallback)
    requires
        kind == TokenKind::StringType ==> value@.len() > 0,
    ensures
        callback_matches(kind, value@, r),
{
    match kind {
        TokenKind::StringType => {
            let n = value.unicode_len();
            if n >= 2 && (value.get_char(0) as u32) < 128 && (value.get_char(n - 1) as u32)
                < 128 {
                let inner = value.substring_char(1, n - 1);
                TokenCallback::StringValue(Some(inner.to_owned()))
            } else {
                TokenCallback::StringValue(None)
            }
        },
        TokenKind::Float => TokenCallback::FloatText(value.to_owned()),
        TokenKind::Integer => TokenCallback::IntegerValue(parse_i64(value)),
        TokenKind::True | TokenKind::False => TokenCallback::BoolValue(parse_bool(value)),
        TokenKind::Identifier => TokenCallback::Identifier(value.to_owned()),
        TokenKind::Parameter => TokenCallback::Parameter(value.to_owned()),
        _ => TokenCallback::Skip,
    }
}

/// A token node of a syntax tree.
pub struct AstTokenNode {
    pub token_id: usize,
    pub token_value: String,
    pub token_type: TokenKind,
}

impl AstTokenNode {
    pub fn new_token(token_id: usize, token_value: String, token_type: TokenKind) -> (r: Self)
        ensures
            r.token_id == token_id,
            r.token_value == token_value,
            r.token_type == token_type,
    {
        AstTokenNode { token_id, token_value, token_type }
    }

    /// What this token hands to a visitor on entering it.
    pub fn accept(&self) -> (r: TokenCallback)
        requires
            self.token_type == TokenKind::StringType ==> self.token_value@.len() > 0,
        ensures
            callback_matches(self.token_type, self.token_value@, r),
    {
        token_callback(self.token_type, self.token_value.as_str())
    }
}

} // verus!
