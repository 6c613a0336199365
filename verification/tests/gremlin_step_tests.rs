use zawgl::gremlin::{
    skip_step, GremlinStateError, MatchAction, MatchVertexState, NextState, Status, StepKind,
    MISSING_PATTERN,
};
use zawgl::gremlin_walk::{iterate_gremlin_steps, WalkStep};

#[test]
fn alias_adds_to_the_last_pattern() {
    let s = MatchVertexState { vid: Some(4) };
    assert_eq!(s.handle_step(StepKind::As("a".to_string()), false, true), Ok(MatchAction::AddToLastPattern { vid: Some(4) }));
    assert_eq!(
        s.handle_step(StepKind::As("a".to_string()), true, false),
        Err(GremlinStateError::WrongContext(MISSING_PATTERN))
    );
}

#[test]
fn start_of_traversal_begins_a_pattern() {
    let s = MatchVertexState { vid: None };
    assert_eq!(s.handle_step(StepKind::Empty, false, false), Ok(MatchAction::InitPattern { vid: None }));
}

#[test]
fn out_edge_matches_and_add_edge_creates() {
    let s = MatchVertexState { vid: Some(9) };
    let labels = vec!["knows".to_string(), "likes".to_string()];
    assert_eq!(
        s.handle_step(StepKind::OutE(labels.clone()), true, true),
        Ok(MatchAction::AddRelationship { vid: Some(9), labels: labels.clone(), status: Status::Match })
    );
    assert_eq!(s.handle_step(StepKind::OutE(labels.clone()), false, true), Ok(MatchAction::Nothing));
    assert_eq!(
        s.handle_step(StepKind::OutE(labels), true, false),
        Err(GremlinStateError::WrongContext(MISSING_PATTERN))
    );
    assert_eq!(
        s.handle_step(StepKind::AddE("knows".to_string()), true, true),
        Ok(MatchAction::AddRelationship { vid: Some(9), labels: vec!["knows".to_string()], status: Status::Create })
    );
    assert_eq!(s.handle_step(StepKind::AddE("knows".to_string()), false, false), Ok(MatchAction::Nothing));
    assert_eq!(s.handle_step(StepKind::V, true, true), Ok(MatchAction::Nothing));
}

#[test]
fn next_states() {
    let s = MatchVertexState { vid: None };
    assert_eq!(s.create_state(StepKind::OutE(vec![])), Ok(NextState::MatchOutEdge));
    assert_eq!(s.create_state(StepKind::As("x".to_string())), Ok(NextState::AliasVertex("x".to_string())));
    assert_eq!(s.create_state(StepKind::Match(vec![vec![StepKind::V]])), Ok(NextState::Match(vec![vec![StepKind::V]])));
    assert_eq!(s.create_state(StepKind::AddE("e".to_string())), Ok(NextState::AddEdge));
    assert_eq!(s.create_state(StepKind::Has("age".to_string())), Ok(NextState::HasProperty("age".to_string())));
    assert_eq!(s.create_state(StepKind::InV), Err(GremlinStateError::Invalid(StepKind::InV)));
}

type Trace = Vec<(String, String)>;

fn record(mut trace: Trace, prev: &&'static str, step: &&'static str) -> Result<Trace, GremlinStateError> {
    if *step == "boom" {
        return Err(GremlinStateError::WrongContext("boom"));
    }
    trace.push((prev.to_string(), step.to_string()));
    Ok(trace)
}

fn pairs(p: &[(&str, &str)]) -> Trace {
    p.iter().map(|(a, b)| (a.to_string(), b.to_string())).collect()
}

#[test]
fn walk_hands_each_step_with_the_one_before() {
    let steps = vec![WalkStep::Step("V"), WalkStep::Has("has"), WalkStep::Step("outE"), WalkStep::Step("as")];
    let r = iterate_gremlin_steps(&steps, &"", Vec::new(), &record);
    assert_eq!(r, Ok(pairs(&[("", "V"), ("V", "has"), ("V", "outE"), ("outE", "as"), ("as", "")])));
}

#[test]
fn walk_enters_match_traversals_in_turn() {
    let steps = vec![
        WalkStep::Step("V"),
        WalkStep::Match("match", vec![vec![WalkStep::Step("a1"), WalkStep::Step("a2")], vec![WalkStep::Step("b1")]]),
        WalkStep::Step("after"),
    ];
    let r = iterate_gremlin_steps(&steps, &"", Vec::new(), &record);
    assert_eq!(
        r,
        Ok(pairs(&[
            ("", "V"),
            ("", "a1"),
            ("a1", "a2"),
            ("a2", ""),
            ("", "b1"),
            ("b1", ""),
            ("match", "after"),
            ("after", ""),
        ]))
    );
}

#[test]
fn walk_stops_at_the_first_error() {
    let steps = vec![WalkStep::Step("V"), WalkStep::Step("boom"), WalkStep::Step("never")];
    let r = iterate_gremlin_steps(&steps, &"", Vec::new(), &record);
    assert_eq!(r, Err(GremlinStateError::WrongContext("boom")));
    let empty: Vec<WalkStep<&'static str>> = vec![];
    assert_eq!(iterate_gremlin_steps(&empty, &"", Vec::new(), &record), Ok(pairs(&[("", "")])));
}

#[test]
fn has_steps_are_passed_over_as_previous() {
    assert_eq!(skip_step(StepKind::V, StepKind::Has("age".to_string())), StepKind::V);
    assert_eq!(skip_step(StepKind::V, StepKind::InV), StepKind::InV);
}
