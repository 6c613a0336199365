use vstd::prelude::*;

verus! {

/// The kinds of inner nodes of a Cypher syntax tree.
#[derive(Debug, Clone, Copy, PartialEq, Eq, Structural)]
pub enum AstTag {
    Create,
    Match,
    Node,
    Path,
    Property,
    RelDirectedLR,
    RelDirectedRL,
    RelUndirected,
    Variable,
    Label,
    Query,
    Return,
    Where,
    Function,
    FunctionArg,
    Item,
    AndOperator,
    OrOperator,
    EqualityOperator,
    ItemPropertyIdentifier,
    Parameter,
}

/// The error that a visitor of a syntax tree reports.
#[derive(Debug, Clone, Copy, PartialEq, Eq, Structural)]
pub enum AstVisitorError {
    SyntaxError,
}

/// The visitor callback that a tag node is dispatched to, on entering or on
/// leaving it; `Skip` where none is called and the walk goes on.
#[derive(Debug, Clone, Copy, PartialEq, Eq, Structural)]
pub enum AstCallback {
    Create,
    Match,
    Relationship,
    Node,
    Path,
    Property,
    Variable,
    Label,
    Query,
    Return,
    Function,
    FunctionArg,
    Item,
    Where,
    Parameter,
    Skip,
}

/// The callback that entering a tag node calls: the three relationship tags
/// share one, and the operator, property-identifier and parameter tags have
/// none.
pub open spec fn enter_callback_of(tag: Option<AstTag>) -> AstCallback {
    match tag {
        None => AstCallback::Skip,
        Some(t) => match t {
            AstTag::Create => AstCallback::Create,
            AstTag::Match => AstCallback::Match,
            AstTag::Node => AstCallback::Node,
            AstTag::Path => AstCallback::Path,
            AstTag::Property => AstCallback::Property,
            AstTag::RelDirectedLR => AstCallback::Relationship,
            AstTag::RelDirectedRL => AstCallback::Relationship,
            AstTag::RelUndirected => AstCallback::Relationship,
            AstTag::Variable => AstCallback::Variable,
            AstTag::Label => AstCallback::Label,
            AstTag::Query => AstCallback::Query,
            AstTag::Return => AstCallback::Return,
            AstTag::Where => AstCallback::Where,
            AstTag::Function => AstCallback::Function,
            AstTag::FunctionArg => AstCallback::FunctionArg,
            AstTag::Item => AstCallback::Item,
            AstTag::AndOperator => AstCallback::Skip,
            AstTag::OrOperator => AstCallback::Skip,
            AstTag::EqualityOperator => AstCallback::Skip,
            AstTag::ItemPropertyIdentifier => AstCallback::Skip,
            AstTag::Parameter => AstCallback::Skip,
        },
    }
}

/// The callback that leaving a tag node calls: the three relationship tags
/// share one, and the operator and property-identifier tags have none.
pub open spec fn exit_callback_of(tag: Option<AstTag>) -> AstCallback {
    match tag {
        None => AstCallback::Skip,
        Some(t) => match t {
            AstTag::Create => AstCallback::Create,
            AstTag::Match => AstCallback::Match,
            AstTag::RelDirectedLR => AstCallback::Relationship,
            AstTag::RelDirectedRL => AstCallback::Relationship,
            AstTag::RelUndirected => AstCallback::Relationship,
            AstTag::Node => AstCallback::Node,
            AstTag::Path => AstCallback::Path,
            AstTag::Property => AstCallback::Property,
            AstTag::Variable => AstCallback::Variable,
            AstTag::Label => AstCallback::Label,
            AstTag::Query => AstCallback::Query,
            AstTag::Return => AstCallback::Return,
            AstTag::Function => AstCallback::Function,
            AstTag::FunctionArg => AstCallback::FunctionArg,
            AstTag::Item => AstCallback::Item,
            AstTag::Where => AstCallback::Where,
            AstTag::Parameter => AstCallback::Parameter,
            _ => AstCallback::Skip,
        },
    }
}

/// The callback that entering a tag node calls.
pub fn enter_callback(tag: Option<AstTag>) -> (r: AstCallback)
    ensures
        r == enter_callback_of(tag),
{
    match tag {
        Some(ast_tag) => match ast_tag {
            AstTag::Create => AstCallback::Create,
            AstTag::Match => AstCallback::Match,
            AstTag::RelDirectedLR | AstTag::RelDirectedRL | AstTag::RelUndirected => {
                AstCallback::Relationship
            },
            AstTag::Node => AstCallback::Node,
            AstTag::Path => AstCallback::Path,
            AstTag::Property => AstCallback::Property,
            AstTag::Variable => AstCallback::Variable,
            AstTag::Label => AstCallback::Label,
            AstTag::Query => AstCallback::Query,
            AstTag::Return => AstCallback::Return,
            AstTag::Function => AstCallback::Function,
            AstTag::FunctionArg => AstCallback::FunctionArg,
            AstTag::Item => AstCallback::Item,
            AstTag::Where => AstCallback::Where,
            _ => AstCallback::Skip,
        },
        None => AstCallback::Skip,
    }
}

/// The callback that leaving a tag node calls.
pub fn exit_callback(tag: Option<AstTag>) -> (r: AstCallback)
    ensures
        r == exit_callback_of(tag),
{
    match tag {
        Some(ast_tag) => match ast_tag {
            AstTag::Create => AstCallback::Create,
            AstTag::Match => AstCallback::Match,
            AstTag::RelDirectedLR | AstTag::RelDirectedRL | AstTag::RelUndirected => {
                AstCallback::Relationship
            },
            AstTag::Node => AstCallback::Node,
            AstTag::Path => AstCallback::Path,
            AstTag::Property => AstCallback::Property,
            AstTag::Variable => AstCallback::Variable,
            AstTag::Label => AstCallback::Label,
            AstTag::Query => AstCallback::Query,
            AstTag::Return => AstCallback::Return,
            AstTag::Function => AstCallback::Function,
            AstTag::FunctionArg => AstCallback::FunctionArg,
            AstTag::Item => AstCallback::Item,
            AstTag::Where => AstCallback::Where,
            AstTag::Parameter => AstCallback::Parameter,
            _ => AstCallback::Skip,
        },
        None => AstCallback::Skip,
    }
}

/// Entering and leaving a tag node dispatch to the same callback, but for a
/// parameter node, whose callback is called only on leaving it.
pub proof fn law_enter_exit_agree(tag: Option<AstTag>)
    ensures
        tag != Some(AstTag::Parameter) ==> enter_callback_of(tag) == exit_callback_of(tag),
        enter_callback_of(Some(AstTag::Parameter)) == AstCallback::Skip,
        exit_callback_of(Some(AstTag::Parameter)) == AstCallback::Parameter,
{
}

/// A tag dispatches to a callback on entering it unless it is an operator,
/// a property identifier or a parameter, and on leaving it unless it is an
/// operator or a property identifier; each other tag reaches the callback of
/// its own name, the three relationship tags share one, and no two tags of
/// different kinds share a callback.
pub proof fn law_callback_table(t: AstTag, u: AstTag)
    ensures
        (enter_callback_of(Some(t)) == AstCallback::Skip) <==> (t == AstTag::AndOperator || t
            == AstTag::OrOperator || t == AstTag::EqualityOperator || t
            == AstTag::ItemPropertyIdentifier || t == AstTag::Parameter),
        (exit_callback_of(Some(t)) == AstCallback::Skip) <==> (t == AstTag::AndOperator || t
            == AstTag::OrOperator || t == AstTag::EqualityOperator || t
            == AstTag::ItemPropertyIdentifier),
        enter_callback_of(None) == AstCallback::Skip,
        exit_callback_of(None) == AstCallback::Skip,
        t == AstTag::Create ==> exit_callback_of(Some(t)) == AstCallback::Create,
        t == AstTag::Match ==> exit_callback_of(Some(t)) == AstCallback::Match,
        t == AstTag::Node ==> exit_callback_of(Some(t)) == AstCallback::Node,
        t == AstTag::Path ==> exit_callback_of(Some(t)) == AstCallback::Path,
        t == AstTag::Property ==> exit_callback_of(Some(t)) == AstCallback::Property,
        t == AstTag::Variable ==> exit_callback_of(Some(t)) == AstCallback::Variable,
        t == AstTag::Label ==> exit_callback_of(Some(t)) == AstCallback::Label,
        t == AstTag::Query ==> exit_callback_of(Some(t)) == AstCallback::Query,
        t == AstTag::Return ==> exit_callback_of(Some(t)) == AstCallback::Return,
        t == AstTag::Where ==> exit_callback_of(Some(t)) == AstCallback::Where,
        t == AstTag::Function ==> exit_callback_of(Some(t)) == AstCallback::Function,
        t == AstTag::FunctionArg ==> exit_callback_of(Some(t)) == AstCallback::FunctionArg,
        t == AstTag::Item ==> exit_callback_of(Some(t)) == AstCallback::Item,
        t == AstTag::Parameter ==> exit_callback_of(Some(t)) == AstCallback::Parameter,
        (t == AstTag::RelDirectedLR || t == AstTag::RelDirectedRL || t == AstTag::RelUndirected)
            ==> exit_callback_of(Some(t)) == AstCallback::Relationship,
        t != AstTag::Parameter ==> enter_callback_of(Some(t)) == exit_callback_of(Some(t)),
        exit_callback_of(Some(t)) == exit_callback_of(Some(u)) && exit_callback_of(Some(t))
            != AstCallback::Skip && exit_callback_of(Some(t)) != AstCallback::Relationship ==> t
            == u,
{
}

} // verus!
