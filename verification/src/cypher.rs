use vstd::prelude::*;
use crate::ast::AstTag;

verus! {

/// The kinds of Cypher tokens that the where-clause grammar and the token
/// visitor tell apart; `Other` stands for every other kind.
#[derive(Debug, Clone, Copy, PartialEq, Eq, Structural)]
pub enum TokenKind {
    Where,
    And,
    Or,
    Integer,
    Float,
    True,
    False,
    StringType,
    Parameter,
    Identifier,
    OpenParenthesis,
    CloseParenthesis,
    Dot,
    Equals,
    Other,
}

/// A token: its kind and its text.
#[derive(Debug, PartialEq)]
pub struct Token {
    pub kind: TokenKind,
    pub value: String,
}

/// A syntax tree of a where clause: a tag node with its children, or a token.
#[derive(Debug, PartialEq)]
pub enum WhereAst {
    Tag(AstTag, Vec<WhereAst>),
    Token(TokenKind, String),
}

/// The content of a where-clause syntax tree.
pub enum WhereTree {
    Tag(AstTag, Seq<WhereTree>),
    Token(TokenKind, Seq<char>),
}

impl WhereAst {
    pub open spec fn tree(self) -> WhereTree
        decreases self,
    {
        match self {
            WhereAst::Tag(t, ch) => WhereTree::Tag(t, trees(ch@)),
            WhereAst::Token(k, v) => WhereTree::Token(k, v@),
        }
    }
}

/// The contents of a sequence of trees.
pub open spec fn trees(s: Seq<WhereAst>) -> Seq<WhereTree>
    decreases s,
{
    if s.len() == 0 {
        Seq::empty()
    } else {
        trees(s.drop_last()).push(s.last().tree())
    }
}

proof fn lemma_trees_index(s: Seq<WhereAst>)
    ensures
        trees(s).len() == s.len(),
        forall|i: int| 0 <= i < s.len() ==> #[trigger] trees(s)[i] == s[i].tree(),
    decreases s.len(),
{
    if s.len() > 0 {
        lemma_trees_index(s.drop_last());
    }
}

proof fn lemma_trees_ext(a: Seq<WhereAst>, b: Seq<WhereTree>)
    requires
        a.len() == b.len(),
        forall|i: int| 0 <= i < a.len() ==> a[i].tree() == b[i],
    ensures
        trees(a) == b,
{
    lemma_trees_index(a);
    assert(trees(a) =~= b);
}

/// An `OrOperator` node without children, which the rotation of an `AND`
/// below an `OR` cannot take apart.
pub open spec fn is_bare_or(t: WhereTree) -> bool {
    t matches WhereTree::Tag(AstTag::OrOperator, ch) && ch.len() == 0
}

pub type ParseOut = Result<(WhereAst, usize), usize>;

/// The kind of the token at `pos`, if there is one.
pub open spec fn kind_at(t: Seq<Token>, pos: nat) -> Option<TokenKind> {
    if pos < t.len() {
        Some(t[pos as int].kind)
    } else {
        None
    }
}

/// The token at `pos` as a tree.
pub open spec fn token_tree(t: Seq<Token>, pos: nat) -> WhereTree {
    WhereTree::Token(t[pos as int].kind, t[pos as int].value@)
}

/// What the function-call parser gives at `pos`.
pub open spec fn function_result<F: Fn(&Vec<Token>, usize) -> ParseOut>(
    f: F,
    t: Vec<Token>,
    pos: nat,
) -> Result<(WhereTree, nat), nat> {
    if exists|r: ParseOut| #[trigger] f.ensures((&t, pos as usize), r) {
        let r = choose|r: ParseOut| #[trigger] f.ensures((&t, pos as usize), r);
        match r {
            Ok((ast, q)) => Ok((ast.tree(), q as nat)),
            Err(e) => Err(e as nat),
        }
    } else {
        Err(pos)
    }
}

/// The function-call parser can be called at every position, gives one
/// result for each position, and on success has read at least one token and
/// gives a tree that is not a bare `OR` node.
pub open spec fn function_parser_ok<F: Fn(&Vec<Token>, usize) -> ParseOut>(
    f: F,
    t: Vec<Token>,
) -> bool {
    &&& forall|p: usize| p <= t@.len() ==> #[trigger] f.requires((&t, p))
    &&& forall|p: usize, r1: ParseOut, r2: ParseOut|
        #[trigger] f.ensures((&t, p), r1) && #[trigger] f.ensures((&t, p), r2) ==> r1 == r2
    &&& forall|p: usize, r: ParseOut|
        #[trigger] f.ensures((&t, p), r) ==> match r {
            Ok((ast, q)) => p < q <= t@.len() && !is_bare_or(ast.tree()),
            Err(_) => true,
        }
}

/// What the function-call parser gives at each position.
pub open spec fn function_results<F: Fn(&Vec<Token>, usize) -> ParseOut>(f: F, t: Vec<Token>) -> spec_fn(nat) -> Result<(WhereTree, nat), nat> {
    |p: nat| function_result(f, t, p)
}

/// On success at a position within `len` tokens, the function-call parser
/// has read at least one token, stays within them and gives a tree that is
/// not a bare `OR` node.
pub open spec fn results_ok(fr: spec_fn(nat) -> Result<(WhereTree, nat), nat>, len: nat) -> bool {
    forall|p: nat|
        p <= len ==> (#[trigger] fr(p) matches Ok((tree, q)) ==> p < q <= len && !is_bare_or(tree))
}

/// A boolean expression of a where clause, from `pos`: a comparison
/// `x = terminal`, where `x` is a literal or parameter (which the tree does
/// not keep), a function call or a property `item.key`; a function call
/// alone; or an expression in parentheses; each followed by an optional
/// `AND` or `OR` and the rest of the expression. The result is the tree and
/// the position after it, or the position of the syntax error.
pub open spec fn bool_expr(
    fr: spec_fn(nat) -> Result<(WhereTree, nat), nat>,
    t: Vec<Token>,
    pos: nat,
) -> Result<(WhereTree, nat), nat>
    decreases t@.len() - pos, 1int,
{
    let ts = t@;
    if pos >= ts.len() {
        Err(pos)
    } else {
        match ts[pos as int].kind {
            TokenKind::Integer | TokenKind::Float | TokenKind::Parameter | TokenKind::True
            | TokenKind::False => {
                let p1 = pos + 1;
                if kind_at(ts, p1) == Some(TokenKind::Equals) {
                    match terminal(fr, t, p1 + 1, Seq::empty()) {
                        Err(e) => Err(e),
                        Ok((ch, p2)) => if pos < p2 <= ts.len() {
                            bool_operator(fr, t, WhereTree::Tag(AstTag::EqualityOperator, ch), p2)
                        } else {
                            Err(p2)
                        },
                    }
                } else {
                    Err(p1)
                }
            },
            TokenKind::Identifier => {
                let p1 = pos + 1;
                if kind_at(ts, p1) == Some(TokenKind::OpenParenthesis) {
                    match fr(p1) {
                        Err(e) => Err(e),
                        Ok((func, p2)) => if !(p1 < p2 <= ts.len()) {
                            Err(p2)
                        } else if kind_at(ts, p2) == Some(TokenKind::Equals) {
                            match terminal(fr, t, p2 + 1, seq![func]) {
                                Err(e) => Err(e),
                                Ok((ch, p3)) => if pos < p3 <= ts.len() {
                                    bool_operator(
                                        fr,
                                        t,
                                        WhereTree::Tag(AstTag::EqualityOperator, ch),
                                        p3,
                                    )
                                } else {
                                    Err(p3)
                                },
                            }
                        } else {
                            bool_operator(fr, t, func, p2)
                        },
                    }
                } else if kind_at(ts, p1) == Some(TokenKind::Dot) {
                    let p2 = p1 + 1;
                    if kind_at(ts, p2) == Some(TokenKind::Identifier) {
                        let prop = WhereTree::Tag(
                            AstTag::ItemPropertyIdentifier,
                            seq![token_tree(ts, pos), token_tree(ts, p2)],
                        );
                        let p3 = p2 + 1;
                        if kind_at(ts, p3) == Some(TokenKind::Equals) {
                            match terminal(fr, t, p3 + 1, seq![prop]) {
                                Err(e) => Err(e),
                                Ok((ch, p4)) => if pos < p4 <= ts.len() {
                                    bool_operator(
                                        fr,
                                        t,
                                        WhereTree::Tag(AstTag::EqualityOperator, ch),
                                        p4,
                                    )
                                } else {
                                    Err(p4)
                                },
                            }
                        } else {
                            Err(p3)
                        }
                    } else {
                        Err(p2)
                    }
                } else {
                    Err(p1)
                }
            },
            TokenKind::OpenParenthesis => {
                match bool_expr(fr, t, pos + 1) {
                    Err(e) => Err(e),
                    Ok((expr, p2)) => if !(pos < p2 <= ts.len()) {
                        Err(p2)
                    } else if kind_at(ts, p2) == Some(TokenKind::CloseParenthesis) {
                        bool_operator(fr, t, expr, p2 + 1)
                    } else {
                        Err(p2)
                    },
                }
            },
            _ => Err(pos),
        }
    }
}

/// The right-hand side of a comparison, from `pos`, added to the children
/// `ch` of the comparison: a literal or parameter token, or a function call.
/// A property `item.key` is read but not added.
pub open spec fn terminal(
    fr: spec_fn(nat) -> Result<(WhereTree, nat), nat>,
    t: Vec<Token>,
    pos: nat,
    ch: Seq<WhereTree>,
) -> Result<(Seq<WhereTree>, nat), nat> {
    let ts = t@;
    match kind_at(ts, pos) {
        Some(TokenKind::Integer) | Some(TokenKind::Float) | Some(TokenKind::True) | Some(
            TokenKind::False,
        ) | Some(TokenKind::StringType) | Some(TokenKind::Parameter) => Ok(
            (ch.push(token_tree(ts, pos)), pos + 1),
        ),
        Some(TokenKind::Identifier) => {
            let p1 = pos + 1;
            if kind_at(ts, p1) == Some(TokenKind::OpenParenthesis) {
                match fr(p1) {
                    Err(e) => Err(e),
                    Ok((func, p2)) => Ok((ch.push(func), p2)),
                }
            } else if kind_at(ts, p1) == Some(TokenKind::Dot) {
                let p2 = p1 + 1;
                if kind_at(ts, p2) == Some(TokenKind::Identifier) {
                    Ok((ch, p2 + 1))
                } else {
                    Err(p2)
                }
            } else {
                Err(p1)
            }
        },
        _ => Err(pos),
    }
}

/// The kinds of tokens that stand for themselves on the right of a
/// comparison: literals and parameters.
pub open spec fn is_literal_kind(k: Option<TokenKind>) -> bool {
    k == Some(TokenKind::Integer) || k == Some(TokenKind::Float) || k == Some(TokenKind::True) || k
        == Some(TokenKind::False) || k == Some(TokenKind::StringType) || k == Some(
        TokenKind::Parameter,
    )
}

/// The right-hand side of a comparison adds exactly one child when it is a
/// literal, a parameter or a function call that the function parser accepts
/// (the token itself, or the call's tree, after the children already there),
/// and none when it is a property `item.key`; an error of the function parser
/// is the error of the right-hand side.
pub proof fn law_terminal_children(
    fr: spec_fn(nat) -> Result<(WhereTree, nat), nat>,
    t: Vec<Token>,
    pos: nat,
    ch: Seq<WhereTree>,
)
    ensures
        is_literal_kind(kind_at(t@, pos)) ==> terminal(fr, t, pos, ch) == Ok::<
            (Seq<WhereTree>, nat),
            nat,
        >((ch.push(token_tree(t@, pos)), pos + 1)),
        kind_at(t@, pos) == Some(TokenKind::Identifier) && kind_at(t@, pos + 1) == Some(
            TokenKind::OpenParenthesis,
        ) ==> match fr(pos + 1) {
            Ok((tree, q)) => terminal(fr, t, pos, ch) == Ok::<(Seq<WhereTree>, nat), nat>(
                (ch.push(tree), q),
            ),
            Err(e) => terminal(fr, t, pos, ch) == Err::<(Seq<WhereTree>, nat), nat>(e),
        },
        kind_at(t@, pos) == Some(TokenKind::Identifier) && kind_at(t@, pos + 1) == Some(
            TokenKind::Dot,
        ) && kind_at(t@, pos + 2) == Some(TokenKind::Identifier) ==> terminal(fr, t, pos, ch)
            == Ok::<(Seq<WhereTree>, nat), nat>((ch, pos + 3)),
        terminal(fr, t, pos, ch) matches Ok((c, _)) ==> c.len() <= ch.len() + 1 && c.subrange(
            0,
            ch.len() as int,
        ) == ch,
{
    if let Ok((c, _)) = terminal(fr, t, pos, ch) {
        assert(c.subrange(0, ch.len() as int) =~= ch);
    }
}

/// What follows an expression `prev` at `pos`: `AND` and the rest, which
/// binds tighter than an `OR` that the rest starts with; `OR` and the rest;
/// or nothing.
pub open spec fn bool_operator(
    fr: spec_fn(nat) -> Result<(WhereTree, nat), nat>,
    t: Vec<Token>,
    prev: WhereTree,
    pos: nat,
) -> Result<(WhereTree, nat), nat>
    decreases t@.len() - pos, 0int,
{
    let ts = t@;
    if pos >= ts.len() {
        Ok((prev, pos))
    } else if ts[pos as int].kind == TokenKind::And {
        match bool_expr(fr, t, pos + 1) {
            Err(e) => Err(e),
            Ok((expr, p)) => match expr {
                WhereTree::Tag(AstTag::OrOperator, och) => {
                    let and_node = WhereTree::Tag(AstTag::AndOperator, seq![prev, och[0]]);
                    Ok((WhereTree::Tag(AstTag::OrOperator, och.drop_first().push(and_node)), p))
                },
                _ => Ok((WhereTree::Tag(AstTag::AndOperator, seq![prev, expr]), p)),
            },
        }
    } else if ts[pos as int].kind == TokenKind::Or {
        match bool_expr(fr, t, pos + 1) {
            Err(e) => Err(e),
            Ok((expr, p)) => Ok((WhereTree::Tag(AstTag::OrOperator, seq![prev, expr]), p)),
        }
    } else {
        Ok((prev, pos))
    }
}

/// A where clause at `pos`, added to the children `parent` of the enclosing
/// node: when the token there is `WHERE`, a `Where` node with the boolean
/// expression that follows; otherwise nothing is read.
pub open spec fn where_clause(
    fr: spec_fn(nat) -> Result<(WhereTree, nat), nat>,
    t: Vec<Token>,
    pos: nat,
    parent: Seq<WhereTree>,
) -> Result<(Seq<WhereTree>, nat), nat> {
    if kind_at(t@, pos) == Some(TokenKind::Where) {
        match bool_expr(fr, t, pos + 1) {
            Err(e) => Err(e),
            Ok((expr, p)) => Ok((parent.push(WhereTree::Tag(AstTag::Where, seq![expr])), p)),
        }
    } else {
        Ok((parent, pos))
    }
}

proof fn lemma_function_result<F: Fn(&Vec<Token>, usize) -> ParseOut>(
    f: F,
    t: Vec<Token>,
    p: usize,
    r: ParseOut,
)
    requires
        function_parser_ok(f, t),
        f.ensures((&t, p), r),
    ensures
        function_result(f, t, p as nat) == match r {
            Ok((ast, q)) => Ok::<(WhereTree, nat), nat>((ast.tree(), q as nat)),
            Err(e) => Err::<(WhereTree, nat), nat>(e as nat),
        },
        r matches Ok((ast, q)) ==> p < q <= t@.len() && !is_bare_or(ast.tree()),
{
    let c = choose|r: ParseOut| #[trigger] f.ensures((&t, p as usize), r);
    assert(f.ensures((&t, p), c));
    assert(c == r);
}

proof fn lemma_function_bounds<F: Fn(&Vec<Token>, usize) -> ParseOut>(
    f: F,
    t: Vec<Token>,
    p: nat,
)
    requires
        function_parser_ok(f, t),
        p <= t@.len(),
    ensures
        function_result(f, t, p) matches Ok((tree, q)) ==> p < q <= t@.len() && !is_bare_or(tree),
{
    assert(t.len() == t@.len());
    if exists|r: ParseOut| #[trigger] f.ensures((&t, p as usize), r) {
        let r = choose|r: ParseOut| #[trigger] f.ensures((&t, p as usize), r);
        lemma_function_result(f, t, p as usize, r);
    }
}

proof fn lemma_results_ok<F: Fn(&Vec<Token>, usize) -> ParseOut>(f: F, t: Vec<Token>)
    requires
        function_parser_ok(f, t),
    ensures
        results_ok(function_results(f, t), t@.len()),
{
    assert forall|p: nat| p <= t@.len() implies (#[trigger] function_results(f, t)(p) matches Ok(
        (tree, q),
    ) ==> p < q <= t@.len() && !is_bare_or(tree)) by {
        lemma_function_bounds(f, t, p);
    }
}

/// Positions only move forward and stay within the tokens, and an
/// expression is never a bare `OR` node.
#[verifier::rlimit(80)]
proof fn lemma_bounds(fr: spec_fn(nat) -> Result<(WhereTree, nat), nat>, t: Vec<Token>, pos: nat)
    requires
        results_ok(fr, t@.len()),
        pos <= t@.len(),
    ensures
        bool_expr(fr, t, pos) matches Ok((tree, q)) ==> pos < q <= t@.len() && !is_bare_or(tree),
        forall|ch: Seq<WhereTree>|
            #[trigger] terminal(fr, t, pos, ch) matches Ok((_, q)) ==> pos < q <= t@.len(),
        forall|prev: WhereTree|
            #[trigger] bool_operator(fr, t, prev, pos) matches Ok((tree, q)) ==> pos <= q <= t@.len()
                && (!is_bare_or(prev) ==> !is_bare_or(tree)),
    decreases t@.len() - pos,
{
    let ts = t@;
    if pos + 1 <= ts.len() {
        lemma_bounds(fr, t, pos + 1);
    }
    if pos < ts.len() {
        let p1 = pos + 1;
        let k = ts[pos as int].kind;
        if k == TokenKind::Integer || k == TokenKind::Float || k == TokenKind::Parameter || k
            == TokenKind::True || k == TokenKind::False {
            if kind_at(ts, p1) == Some(TokenKind::Equals) {
                lemma_bounds(fr, t, p1 + 1);
                if let Ok((ch, p2)) = terminal(fr, t, p1 + 1, Seq::empty()) {
                    lemma_bounds(fr, t, p2);
                    let e = WhereTree::Tag(AstTag::EqualityOperator, ch);
                    assert(!is_bare_or(e));
                    assert(bool_operator(fr, t, e, p2) matches Ok((tree, q)) ==> pos < q
                        <= t@.len() && !is_bare_or(tree));
                }
            }
        } else if k == TokenKind::Identifier {
            if kind_at(ts, p1) == Some(TokenKind::OpenParenthesis) {
                if let Ok((func, p2)) = fr(p1) {
                    if kind_at(ts, p2) == Some(TokenKind::Equals) {
                        lemma_bounds(fr, t, p2 + 1);
                        if let Ok((ch, p3)) = terminal(fr, t, p2 + 1, seq![func]) {
                            lemma_bounds(fr, t, p3);
                            let e = WhereTree::Tag(AstTag::EqualityOperator, ch);
                            assert(!is_bare_or(e));
                            assert(bool_operator(fr, t, e, p3) matches Ok((tree, q)) ==> pos < q
                                <= t@.len() && !is_bare_or(tree));
                        }
                    } else {
                        lemma_bounds(fr, t, p2);
                        assert(bool_operator(fr, t, func, p2) matches Ok((tree, q)) ==> pos < q
                            <= t@.len() && !is_bare_or(tree));
                    }
                }
            } else if kind_at(ts, p1) == Some(TokenKind::Dot) && kind_at(ts, p1 + 1) == Some(
                TokenKind::Identifier,
            ) && kind_at(ts, p1 + 2) == Some(TokenKind::Equals) {
                let prop = WhereTree::Tag(
                    AstTag::ItemPropertyIdentifier,
                    seq![token_tree(ts, pos), token_tree(ts, p1 + 1)],
                );
                lemma_bounds(fr, t, p1 + 3);
                if let Ok((ch, p4)) = terminal(fr, t, p1 + 3, seq![prop]) {
                    lemma_bounds(fr, t, p4);
                    let e = WhereTree::Tag(AstTag::EqualityOperator, ch);
                    assert(!is_bare_or(e));
                    assert(bool_operator(fr, t, e, p4) matches Ok((tree, q)) ==> pos < q
                        <= t@.len() && !is_bare_or(tree));
                }
            }
        } else if k == TokenKind::OpenParenthesis {
            if let Ok((expr, p2)) = bool_expr(fr, t, p1) {
                if kind_at(ts, p2) == Some(TokenKind::CloseParenthesis) {
                    lemma_bounds(fr, t, p2 + 1);
                    assert(bool_operator(fr, t, expr, p2 + 1) matches Ok((tree, q)) ==> pos < q
                        <= t@.len() && !is_bare_or(tree));
                }
            }
        }
    }
}

/// On success the where-clause expression parser has read at least one token
/// and stopped within the input, and its tree is never an `OR` node without
/// operands, so the rotation of an `AND` below an `OR` always has an operand
/// to take.
pub proof fn law_expression_progress<F: Fn(&Vec<Token>, usize) -> ParseOut>(
    f: F,
    t: Vec<Token>,
    pos: nat,
)
    requires
        function_parser_ok(f, t),
        pos <= t@.len(),
    ensures
        bool_expr(function_results(f, t), t, pos) matches Ok((tree, q)) ==> pos < q <= t@.len()
            && !is_bare_or(tree),
{
    lemma_results_ok(f, t);
    lemma_bounds(function_results(f, t), t, pos);
}

/// The token kind at `pos`, if there is a token there.
fn current_kind(tokens: &Vec<Token>, pos: usize) -> (r: Option<TokenKind>)
    ensures
        r == kind_at(tokens@, pos as nat),
        tokens@.len() <= usize::MAX,
{
    if pos < tokens.len() {
        Some(tokens[pos].kind)
    } else {
        None
    }
}

/// The token at `pos` as a tree.
fn make_ast_token(tokens: &Vec<Token>, pos: usize) -> (r: WhereAst)
    requires
        pos < tokens@.len(),
    ensures
        r.tree() == token_tree(tokens@, pos as nat),
{
    WhereAst::Token(tokens[pos].kind, tokens[pos].value.clone())
}

/// Parses a where clause at `pos` and adds it to `parent`.
pub fn parse_where_clause<F: Fn(&Vec<Token>, usize) -> ParseOut>(
    tokens: &Vec<Token>,
    pos: usize,
    parent: &mut Vec<WhereAst>,
    parse_function: &F,
) -> (r: Result<usize, usize>)
    requires
        function_parser_ok(*parse_function, *tokens),
        pos <= tokens@.len(),
    ensures
        match where_clause(function_results(*parse_function, *tokens), *tokens, pos as nat, trees(old(parent)@)) {
            Ok((ch, q)) => r == Ok::<usize, usize>(q as usize) && trees(final(parent)@) == ch,
            Err(e) => r == Err::<usize, usize>(e as usize) && final(parent)@ == old(parent)@,
        },
{
    let _n = tokens.len();
    if current_kind(tokens, pos) == Some(TokenKind::Where) {
        let expr = parse_boolean_expression(tokens, pos + 1, parse_function);
        match expr {
            Err(e) => Err(e),
            Ok((ast, q)) => {
                let mut ch: Vec<WhereAst> = Vec::new();
                ch.push(ast);
                let ghost ast_tree = ch@[0].tree();
                proof {
                    lemma_trees_ext(ch@, seq![ast_tree]);
                }
                let ghost old_p = parent@;
                parent.push(WhereAst::Tag(AstTag::Where, ch));
                proof {
                    lemma_trees_index(old_p);
                    lemma_trees_ext(
                        parent@,
                        trees(old_p).push(WhereTree::Tag(AstTag::Where, seq![ast_tree])),
                    );
                }
                Ok(q)
            },
        }
    } else {
        Ok(pos)
    }
}

/// Parses a boolean expression at `pos`.
pub fn parse_boolean_expression<F: Fn(&Vec<Token>, usize) -> ParseOut>(
    tokens: &Vec<Token>,
    pos: usize,
    parse_function: &F,
) -> (r: ParseOut)
    requires
        function_parser_ok(*parse_function, *tokens),
        pos <= tokens@.len(),
    ensures
        match bool_expr(function_results(*parse_function, *tokens), *tokens, pos as nat) {
            Ok((tree, q)) => r matches Ok((ast, rq)) && ast.tree() == tree && rq == q,
            Err(e) => r == Err::<(WhereAst, usize), usize>(e as usize),
        },
    decreases tokens@.len() - pos, 1int,
{
    let ghost f = *parse_function;
    let ghost t = *tokens;
    let ghost fr = function_results(f, t);
    proof {
        lemma_results_ok(f, t);
    }
    proof {
        lemma_bounds(fr, t, pos as nat);
        if pos + 1 <= tokens@.len() {
            lemma_bounds(fr, t, (pos + 1) as nat);
        }
    }
    if pos >= tokens.len() {
        return Err(pos);
    }
    let kind = tokens[pos].kind;
    match kind {
        TokenKind::Integer | TokenKind::Float | TokenKind::Parameter | TokenKind::True
        | TokenKind::False => {
            let p1 = pos + 1;
            if current_kind(tokens, p1) == Some(TokenKind::Equals) {
                let ch: Vec<WhereAst> = Vec::new();
                proof {
                    lemma_trees_ext(ch@, Seq::empty());
                    lemma_bounds(fr, t, (p1 + 1) as nat);
                }
                match parse_boolean_expression_terminal(tokens, p1 + 1, ch, parse_function) {
                    Err(e) => Err(e),
                    Ok((ch2, p2)) => {
                        proof {
                            lemma_bounds(fr, t, p2 as nat);
                        }
                        let eqop = WhereAst::Tag(AstTag::EqualityOperator, ch2);
                        parse_boolean_operator(tokens, eqop, p2, parse_function)
                    },
                }
            } else {
                Err(p1)
            }
        },
        TokenKind::Identifier => {
            let p1 = pos + 1;
            let k1 = current_kind(tokens, p1);
            if k1 == Some(TokenKind::OpenParenthesis) {
                let call = parse_function(tokens, p1);
                proof {
                    lemma_function_result(f, t, p1, call);
                }
                match call {
                    Err(e) => Err(e),
                    Ok((func, p2)) => {
                        proof {
                            lemma_bounds(fr, t, p2 as nat);
                        }
                        if current_kind(tokens, p2) == Some(TokenKind::Equals) {
                            let ghost ft = func.tree();
                            let mut ch: Vec<WhereAst> = Vec::new();
                            ch.push(func);
                            proof {
                                lemma_trees_ext(ch@, seq![ft]);
                                lemma_bounds(fr, t, (p2 + 1) as nat);
                            }
                            match parse_boolean_expression_terminal(
                                tokens,
                                p2 + 1,
                                ch,
                                parse_function,
                            ) {
                                Err(e) => Err(e),
                                Ok((ch2, p3)) => {
                                    proof {
                                        lemma_bounds(fr, t, p3 as nat);
                                    }
                                    let eqop = WhereAst::Tag(AstTag::EqualityOperator, ch2);
                                    parse_boolean_operator(tokens, eqop, p3, parse_function)
                                },
                            }
                        } else {
                            parse_boolean_operator(tokens, func, p2, parse_function)
                        }
                    },
                }
            } else if k1 == Some(TokenKind::Dot) {
                let ident = make_ast_token(tokens, pos);
                let p2 = p1 + 1;
                if current_kind(tokens, p2) == Some(TokenKind::Identifier) {
                    let prop_tok = make_ast_token(tokens, p2);
                    let ghost it = ident.tree();
                    let ghost pt = prop_tok.tree();
                    let mut item: Vec<WhereAst> = Vec::new();
                    item.push(ident);
                    item.push(prop_tok);
                    proof {
                        lemma_trees_ext(item@, seq![it, pt]);
                    }
                    let item_prop = WhereAst::Tag(AstTag::ItemPropertyIdentifier, item);
                    let ghost ipt = item_prop.tree();
                    let p3 = p2 + 1;
                    if current_kind(tokens, p3) == Some(TokenKind::Equals) {
                        let mut ch: Vec<WhereAst> = Vec::new();
                        ch.push(item_prop);
                        proof {
                            lemma_trees_ext(ch@, seq![ipt]);
                            lemma_bounds(fr, t, (p3 + 1) as nat);
                        }
                        match parse_boolean_expression_terminal(
                            tokens,
                            p3 + 1,
                            ch,
                            parse_function,
                        ) {
                            Err(e) => Err(e),
                            Ok((ch2, p4)) => {
                                proof {
                                    lemma_bounds(fr, t, p4 as nat);
                                }
                                let eqop = WhereAst::Tag(AstTag::EqualityOperator, ch2);
                                parse_boolean_operator(tokens, eqop, p4, parse_function)
                            },
                        }
                    } else {
                        Err(p3)
                    }
                } else {
                    Err(p2)
                }
            } else {
                Err(p1)
            }
        },
        TokenKind::OpenParenthesis => {
            match parse_boolean_expression(tokens, pos + 1, parse_function) {
                Err(e) => Err(e),
                Ok((expr, p2)) => {
                    if current_kind(tokens, p2) == Some(TokenKind::CloseParenthesis) {
                        proof {
                            lemma_bounds(fr, t, (p2 + 1) as nat);
                        }
                        parse_boolean_operator(tokens, expr, p2 + 1, parse_function)
                    } else {
                        Err(p2)
                    }
                },
            }
        },
        _ => Err(pos),
    }
}

/// Parses the right-hand side of a comparison at `pos` into the children `ch`.
pub fn parse_boolean_expression_terminal<F: Fn(&Vec<Token>, usize) -> ParseOut>(
    tokens: &Vec<Token>,
    pos: usize,
    ch: Vec<WhereAst>,
    parse_function: &F,
) -> (r: Result<(Vec<WhereAst>, usize), usize>)
    requires
        function_parser_ok(*parse_function, *tokens),
        pos <= tokens@.len(),
    ensures
        match terminal(function_results(*parse_function, *tokens), *tokens, pos as nat, trees(ch@)) {
            Ok((tr, q)) => r matches Ok((rc, rq)) && trees(rc@) == tr && rq == q,
            Err(e) => r == Err::<(Vec<WhereAst>, usize), usize>(e as usize),
        },
        is_literal_kind(kind_at(tokens@, pos as nat)) ==> (r matches Ok((rc, rq)) && trees(rc@)
            == trees(ch@).push(token_tree(tokens@, pos as nat)) && rq == pos + 1),
        kind_at(tokens@, pos as nat) == Some(TokenKind::Identifier) && kind_at(
            tokens@,
            (pos + 1) as nat,
        ) == Some(TokenKind::OpenParenthesis) ==> match function_results(
            *parse_function,
            *tokens,
        )((pos + 1) as nat) {
            Ok((tree, q)) => r matches Ok((rc, rq)) && trees(rc@) == trees(ch@).push(tree) && rq
                == q,
            Err(e) => r == Err::<(Vec<WhereAst>, usize), usize>(e as usize),
        },
{
    let ghost f = *parse_function;
    let ghost t = *tokens;
    let ghost fr = function_results(f, t);
    proof {
        lemma_results_ok(f, t);
    }
    let _n = tokens.len();
    let mut ch = ch;
    let ghost old_ch = ch@;
    proof {
        lemma_trees_index(old_ch);
    }
    match current_kind(tokens, pos) {
        Some(TokenKind::Integer) | Some(TokenKind::Float) | Some(TokenKind::True) | Some(
            TokenKind::False,
        ) | Some(TokenKind::StringType) | Some(TokenKind::Parameter) => {
            let tok = make_ast_token(tokens, pos);
            ch.push(tok);
            proof {
                lemma_trees_ext(ch@, trees(old_ch).push(token_tree(tokens@, pos as nat)));
            }
            Ok((ch, pos + 1))
        },
        Some(TokenKind::Identifier) => {
            let p1 = pos + 1;
            let k1 = current_kind(tokens, p1);
            if k1 == Some(TokenKind::OpenParenthesis) {
                let call = parse_function(tokens, p1);
                proof {
                    lemma_function_result(f, t, p1, call);
                }
                match call {
                    Err(e) => Err(e),
                    Ok((func, p2)) => {
                        let ghost ft = func.tree();
                        ch.push(func);
                        proof {
                            lemma_trees_ext(ch@, trees(old_ch).push(ft));
                        }
                        Ok((ch, p2))
                    },
                }
            } else if k1 == Some(TokenKind::Dot) {
                let p2 = p1 + 1;
                if current_kind(tokens, p2) == Some(TokenKind::Identifier) {
                    Ok((ch, p2 + 1))
                } else {
                    Err(p2)
                }
            } else {
                Err(p1)
            }
        },
        _ => Err(pos),
    }
}

/// Parses what follows the expression `prev` at `pos`.
pub fn parse_boolean_operator<F: Fn(&Vec<Token>, usize) -> ParseOut>(
    tokens: &Vec<Token>,
    prev: WhereAst,
    pos: usize,
    parse_function: &F,
) -> (r: ParseOut)
    requires
        function_parser_ok(*parse_function, *tokens),
        pos <= tokens@.len(),
    ensures
        match bool_operator(function_results(*parse_function, *tokens), *tokens, prev.tree(), pos as nat) {
            Ok((tree, q)) => r matches Ok((ast, rq)) && ast.tree() == tree && rq == q,
            Err(e) => r == Err::<(WhereAst, usize), usize>(e as usize),
        },
    decreases tokens@.len() - pos, 0int,
{
    let ghost f = *parse_function;
    let ghost t = *tokens;
    let ghost fr = function_results(f, t);
    proof {
        lemma_results_ok(f, t);
    }
    let ghost prev_t = prev.tree();
    if pos >= tokens.len() {
        return Ok((prev, pos));
    }
    let kind = tokens[pos].kind;
    if kind == TokenKind::And {
        proof {
            lemma_bounds(fr, t, (pos + 1) as nat);
        }
        match parse_boolean_expression(tokens, pos + 1, parse_function) {
            Err(e) => Err(e),
            Ok((expr, p)) => {
                let ghost et = expr.tree();
                match expr {
                    WhereAst::Tag(AstTag::OrOperator, och) => {
                        let mut och = och;
                        let ghost old_och = och@;
                        proof {
                            lemma_trees_index(old_och);
                            assert(och@.len() > 0);
                        }
                        let first = och.remove(0);
                        let ghost first_t = first.tree();
                        let mut and_ch: Vec<WhereAst> = Vec::new();
                        and_ch.push(prev);
                        and_ch.push(first);
                        proof {
                            lemma_trees_ext(and_ch@, seq![prev_t, first_t]);
                        }
                        let and_node = WhereAst::Tag(AstTag::AndOperator, and_ch);
                        let ghost and_t = and_node.tree();
                        let ghost rest = och@;
                        och.push(and_node);
                        proof {
                            lemma_trees_ext(och@, trees(old_och).drop_first().push(and_t));
                        }
                        Ok((WhereAst::Tag(AstTag::OrOperator, och), p))
                    },
                    other => {
                        let mut and_ch: Vec<WhereAst> = Vec::new();
                        and_ch.push(prev);
                        and_ch.push(other);
                        proof {
                            lemma_trees_ext(and_ch@, seq![prev_t, et]);
                        }
                        Ok((WhereAst::Tag(AstTag::AndOperator, and_ch), p))
                    },
                }
            },
        }
    } else if kind == TokenKind::Or {
        proof {
            lemma_bounds(fr, t, (pos + 1) as nat);
        }
        match parse_boolean_expression(tokens, pos + 1, parse_function) {
            Err(e) => Err(e),
            Ok((expr, p)) => {
                let ghost et = expr.tree();
                let mut or_ch: Vec<WhereAst> = Vec::new();
                or_ch.push(prev);
                or_ch.push(expr);
                proof {
                    lemma_trees_ext(or_ch@, seq![prev_t, et]);
                }
                Ok((WhereAst::Tag(AstTag::OrOperator, or_ch), p))
            },
        }
    } else {
        Ok((prev, pos))
    }
}

} // verus!
