use vstd::prelude::*;
use std::collections::HashMap;

verus! {

/// Where a Gremlin request draws its traversal from.
#[derive(Debug, PartialEq, Eq, Structural, Clone, Copy)]
pub enum GSource {
    TxCommit,
    Empty,
}

/// A Gremlin 64-bit integer.
#[derive(Debug, PartialEq, Eq, Structural, Clone, Copy)]
pub struct GInt64(pub i64);

/// A Gremlin 32-bit integer.
#[derive(Debug, PartialEq, Eq, Structural, Clone, Copy)]
pub struct GInt32(pub i32);

/// A Gremlin integer of either width.
#[derive(Debug, PartialEq, Eq, Structural, Clone, Copy)]
pub enum GInteger {
    I64(GInt64),
    I32(GInt32),
}

/// The unsigned integer that a Gremlin integer is read as where a vertex
/// identifier is expected: a 32-bit value is cast, so that a negative one
/// wraps around; a negative 64-bit value is refused.
pub open spec fn integer_as_u64(v: GInteger) -> Result<u64, &'static str> {
    match v {
        GInteger::I32(x) => Ok(
            (if x.0 >= 0 {
                x.0 as int
            } else {
                x.0 + 0x1_0000_0000_0000_0000
            }) as u64,
        ),
        GInteger::I64(x) => if x.0 >= 0 {
            Ok(x.0 as u64)
        } else {
            Err("Error casting to unsigned integer")
        },
    }
}

/// A non-negative Gremlin integer of either width reads as itself, a
/// negative 64-bit one is refused, and a negative 32-bit one reads as its
/// two's complement bits widened to 64.
pub proof fn law_integer_as_u64(x: i64, y: i32)
    ensures
        x >= 0 ==> integer_as_u64(GInteger::I64(GInt64(x))) == Ok::<u64, &'static str>(x as u64),
        x < 0 ==> integer_as_u64(GInteger::I64(GInt64(x))) is Err,
        y >= 0 ==> integer_as_u64(GInteger::I32(GInt32(y))) == Ok::<u64, &'static str>(y as u64),
        y < 0 ==> (integer_as_u64(GInteger::I32(GInt32(y))) matches Ok(u) && u as int == y as int
            + 0x1_0000_0000_0000_0000),
{
}

/// Reads a Gremlin integer as an unsigned integer.
pub fn integer_to_u64(v: GInteger) -> (r: Result<u64, &'static str>)
    ensures
        r == integer_as_u64(v),
        v matches GInteger::I64(x) ==> (x.0 >= 0 ==> r == Ok::<u64, &'static str>(x.0 as u64)),
        v matches GInteger::I64(x) ==> (x.0 < 0 ==> r is Err),
        v matches GInteger::I32(x) ==> (r matches Ok(u) && u as int == if x.0 >= 0 {
            x.0 as int
        } else {
            x.0 + 0x1_0000_0000_0000_0000
        }),
{
    match v {
        GInteger::I32(ivalue) => {
            let x: i32 = ivalue.0;
            if x >= 0 {
                Ok(x as u64)
            } else {
                let magnitude: u64 = (-(x as i64)) as u64;
                Ok(u64::MAX - magnitude + 1)
            }
        },
        GInteger::I64(ivalue) => {
            if ivalue.0 >= 0 {
                Ok(ivalue.0 as u64)
            } else {
                Err("Error casting to unsigned integer")
            }
        },
    }
}

/// A Gremlin map of strings.
pub struct GMap {
    pub map: HashMap<String, String>,
}

impl GMap {
    pub fn new() -> (r: Self)
        ensures
            r.map@ == Map::<String, String>::empty(),
    {
        GMap { map: HashMap::new() }
    }
}

/// The session part of a Gremlin request.
pub struct GremlinSession {
    pub session_id: String,
    pub manage_transaction: bool,
    pub maintain_state_after_exception: bool,
    pub commit: bool,
}

/// The status part of a Gremlin response.
pub struct GStatus {
    pub message: String,
    pub code: i32,
    pub attributes: GMap,
}

/// A step of a Gremlin traversal, with the values that the state machine
/// reads of it: the labels of `outE` and `addE`, the alias of `as`, the
/// property name of `has`, the traversals of `match`.
#[derive(Debug, PartialEq)]
pub enum StepKind {
    AddV,
    V,
    InV,
    Has(String),
    AddE(String),
    E,
    OutE(Vec<String>),
    As(String),
    From,
    To,
    Match(Vec<Vec<StepKind>>),
    SetProperty,
    SetDynProperty,
    Commit,
    Empty,
}

/// The step that counts as the previous one for the step after `curr_step`:
/// a `has` step filters the vertex it follows and is passed over.
pub fn skip_step(prev_step: StepKind, curr_step: StepKind) -> (r: StepKind)
    ensures
        curr_step is Has ==> r == prev_step,
        !(curr_step is Has) ==> r == curr_step,
{
    match curr_step {
        StepKind::Has(_) => prev_step,
        _ => curr_step,
    }
}

/// Whether a pattern element is to be matched or created.
#[derive(Debug, PartialEq, Eq, Structural, Clone, Copy)]
pub enum Status {
    Match,
    Create,
}

/// The error of a traversal state.
#[derive(Debug, PartialEq)]
pub enum GremlinStateError {
    Invalid(StepKind),
    WrongContext(&'static str),
}

/// What handling a step does to the patterns of the traversal, for a vertex
/// with identifier `vid` and status `Match`.
#[derive(Debug, PartialEq)]
pub enum MatchAction {
    /// Add the vertex to the last pattern and make it the current node.
    AddToLastPattern { vid: Option<u64> },
    /// Start a new pattern with the vertex.
    InitPattern { vid: Option<u64> },
    /// Add the vertex to the last pattern, with a relationship of these labels
    /// and this status from the current node to it, and make it the current
    /// node.
    AddRelationship { vid: Option<u64>, labels: Vec<String>, status: Status },
    /// Leave the patterns as they are.
    Nothing,
}

/// The state that the traversal goes on to from a matched vertex.
#[derive(Debug, PartialEq)]
pub enum NextState {
    MatchOutEdge,
    AliasVertex(String),
    Match(Vec<Vec<StepKind>>),
    AddEdge,
    HasProperty(String),
}

/// The state of the traversal while it matches a vertex: the vertex
/// identifier, where the step fixed one.
pub struct MatchVertexState {
    pub vid: Option<u64>,
}

/// The message of the error raised when a step needs a pattern and there is
/// none.
pub const MISSING_PATTERN: &'static str = "missing pattern";

impl MatchVertexState {
    /// What handling a step does, given the step before it, whether the
    /// traversal has a current node and whether it has a pattern: `as` adds
    /// the vertex to the last pattern, the start of a traversal begins a new
    /// pattern, and `outE` or `addE` after a current node adds the vertex with
    /// a relationship to be matched or created. Every other step leaves the
    /// patterns alone. Where a pattern is needed and there is none, the step
    /// fails with `WrongContext`.
    pub fn handle_step(&self, previous_step: StepKind, has_node_index: bool, has_pattern: bool) -> (r:
        Result<MatchAction, GremlinStateError>)
        ensures
            match previous_step {
                StepKind::As(_) => if has_pattern {
                    r == Ok::<MatchAction, GremlinStateError>(
                        MatchAction::AddToLastPattern { vid: self.vid },
                    )
                } else {
                    r == Err::<MatchAction, GremlinStateError>(
                        GremlinStateError::WrongContext(MISSING_PATTERN),
                    )
                },
                StepKind::Empty => r == Ok::<MatchAction, GremlinStateError>(
                    MatchAction::InitPattern { vid: self.vid },
                ),
                StepKind::OutE(labels) => if !has_node_index {
                    r == Ok::<MatchAction, GremlinStateError>(MatchAction::Nothing)
                } else if has_pattern {
                    r matches Ok(MatchAction::AddRelationship { vid, labels: l, status }) && vid
                        == self.vid && l@ == labels@ && status == Status::Match
                } else {
                    r == Err::<MatchAction, GremlinStateError>(
                        GremlinStateError::WrongContext(MISSING_PATTERN),
                    )
                },
                StepKind::AddE(label) => if !has_node_index {
                    r == Ok::<MatchAction, GremlinStateError>(MatchAction::Nothing)
                } else if has_pattern {
                    r matches Ok(MatchAction::AddRelationship { vid, labels: l, status }) && vid
                        == self.vid && l@ == seq![label] && status == Status::Create
                } else {
                    r == Err::<MatchAction, GremlinStateError>(
                        GremlinStateError::WrongContext(MISSING_PATTERN),
                    )
                },
                _ => r == Ok::<MatchAction, GremlinStateError>(MatchAction::Nothing),
            },
    {
        match previous_step {
            StepKind::As(_) => {
                if has_pattern {
                    Ok(MatchAction::AddToLastPattern { vid: self.vid })
                } else {
                    Err(GremlinStateError::WrongContext(MISSING_PATTERN))
                }
            },
            StepKind::Empty => Ok(MatchAction::InitPattern { vid: self.vid }),
            StepKind::OutE(labels) => {
                if !has_node_index {
                    Ok(MatchAction::Nothing)
                } else if has_pattern {
                    Ok(MatchAction::AddRelationship { vid: self.vid, labels, status: Status::Match })
                } else {
                    Err(GremlinStateError::WrongContext(MISSING_PATTERN))
                }
            },
            StepKind::AddE(label) => {
                if !has_node_index {
                    Ok(MatchAction::Nothing)
                } else if has_pattern {
                    let mut labels: Vec<String> = Vec::new();
                    labels.push(label);
                    Ok(MatchAction::AddRelationship { vid: self.vid, labels, status: Status::Create })
                } else {
                    Err(GremlinStateError::WrongContext(MISSING_PATTERN))
                }
            },
            _ => Ok(MatchAction::Nothing),
        }
    }

    /// The state that follows a matched vertex for the next step: `outE`,
    /// `as`, `match`, `addE` and `has` each have one; any other step is
    /// invalid there.
    pub fn create_state(&self, step: StepKind) -> (r: Result<NextState, GremlinStateError>)
        ensures
            match step {
                StepKind::OutE(_) => r == Ok::<NextState, GremlinStateError>(NextState::MatchOutEdge),
                StepKind::As(alias) => r == Ok::<NextState, GremlinStateError>(
                    NextState::AliasVertex(alias),
                ),
                StepKind::Match(bytecodes) => r == Ok::<NextState, GremlinStateError>(
                    NextState::Match(bytecodes),
                ),
                StepKind::AddE(_) => r == Ok::<NextState, GremlinStateError>(NextState::AddEdge),
                StepKind::Has(name) => r == Ok::<NextState, GremlinStateError>(
                    NextState::HasProperty(name),
                ),
                _ => r == Err::<NextState, GremlinStateError>(GremlinStateError::Invalid(step)),
            },
    {
        match step {
            StepKind::OutE(_) => Ok(NextState::MatchOutEdge),
            StepKind::As(alias) => Ok(NextState::AliasVertex(alias)),
            StepKind::Match(bytecodes) => Ok(NextState::Match(bytecodes)),
            StepKind::AddE(_) => Ok(NextState::AddEdge),
            StepKind::Has(name) => Ok(NextState::HasProperty(name)),
            other => Err(GremlinStateError::Invalid(other)),
        }
    }
}

} // verus!
