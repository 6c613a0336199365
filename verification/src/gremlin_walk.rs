use vstd::prelude::*;
use crate::gremlin::GremlinStateError;

verus! {

/// A step of a Gremlin traversal as the walk over the steps sees it: a step
/// `T`; a `has` step, which filters the vertex before it; or a `match` step
/// with its traversals.
pub enum WalkStep<T> {
    Step(T),
    Has(T),
    Match(T, Vec<Vec<WalkStep<T>>>),
}

/// The step itself.
pub open spec fn step_of<T>(s: WalkStep<T>) -> T {
    match s {
        WalkStep::Step(t) => t,
        WalkStep::Has(t) => t,
        WalkStep::Match(t, _) => t,
    }
}

/// The step that the state machine sees before the step at `i` of a
/// traversal: the last step before it that is not a `has` step, or the empty
/// step where there is none.
pub open spec fn prev_of<T>(steps: Seq<WalkStep<T>>, i: int, empty: T) -> T
    decreases i,
{
    if i <= 0 || i > steps.len() {
        empty
    } else if steps[i - 1] is Has {
        prev_of(steps, i - 1, empty)
    } else {
        step_of(steps[i - 1])
    }
}

/// The step before step `i` is the last step before it that is not a `has`
/// step, however many `has` steps stand in between, and the empty step where
/// every step before `i` is a `has` step.
pub proof fn law_prev_is_last_non_has<T>(steps: Seq<WalkStep<T>>, i: int, empty: T)
    requires
        0 <= i <= steps.len(),
    ensures
        (forall|k: int| 0 <= k < i ==> #[trigger] steps[k] is Has) ==> prev_of(steps, i, empty)
            == empty,
        forall|j: int|
            0 <= j < i && !(#[trigger] steps[j] is Has) && (forall|k: int|
                j < k < i ==> #[trigger] steps[k] is Has) ==> prev_of(steps, i, empty) == step_of(
                steps[j],
            ),
    decreases i,
{
    if i > 0 {
        law_prev_is_last_non_has(steps, i - 1, empty);
        assert forall|j: int|
            0 <= j < i && !(#[trigger] steps[j] is Has) && (forall|k: int|
                j < k < i ==> #[trigger] steps[k] is Has) implies prev_of(steps, i, empty) == step_of(
            steps[j],
        ) by {
            if j < i - 1 {
                assert(steps[i - 1] is Has);
            }
        }
        if forall|k: int| 0 <= k < i ==> #[trigger] steps[k] is Has {
            assert(steps[i - 1] is Has);
        }
    }
}

/// The pairs (previous step, step) that a traversal hands to the state
/// machine, in order: one for each step, where a `match` step hands over the
/// pairs of each of its traversals in turn, and a last one with the empty
/// step.
pub open spec fn transitions<T>(steps: Seq<WalkStep<T>>, empty: T) -> Seq<(T, T)>
    decreases steps, 1int, 0int,
{
    step_transitions(steps, steps.len() as int, empty).push(
        (prev_of(steps, steps.len() as int, empty), empty),
    )
}

/// The pairs that the first `i` steps of a traversal hand over.
pub open spec fn step_transitions<T>(steps: Seq<WalkStep<T>>, i: int, empty: T) -> Seq<(T, T)>
    decreases steps, 0int, i,
{
    if i <= 0 || i > steps.len() {
        Seq::empty()
    } else {
        step_transitions(steps, i - 1, empty) + match steps[i - 1] {
            WalkStep::Match(_, bytecodes) => {
                proof {
                    assert(decreases_to!(steps => steps[i - 1]));
                }
                match_transitions(bytecodes@, bytecodes@.len() as int, empty)
            },
            _ => seq![(prev_of(steps, i - 1, empty), step_of(steps[i - 1]))],
        }
    }
}

/// The pairs that the first `k` traversals of a `match` step hand over.
pub open spec fn match_transitions<T>(bytecodes: Seq<Vec<WalkStep<T>>>, k: int, empty: T) -> Seq<
    (T, T),
>
    decreases bytecodes, 0int, k,
{
    if k <= 0 || k > bytecodes.len() {
        Seq::empty()
    } else {
        match_transitions(bytecodes, k - 1, empty) + transitions(bytecodes[k - 1]@, empty)
    }
}

/// Running the state machine `f` from state `s` over the pairs `trans` can
/// end in `r`: each pair moves the state on, and the first error ends the
/// run with that error.
pub open spec fn runs<T, S, F: Fn(S, &T, &T) -> Result<S, GremlinStateError>>(
    f: F,
    s: S,
    trans: Seq<(T, T)>,
    r: Result<S, GremlinStateError>,
) -> bool
    decreases trans.len(),
{
    if trans.len() == 0 {
        r == Ok::<S, GremlinStateError>(s)
    } else {
        exists|mid: Result<S, GremlinStateError>|
            #[trigger] f.ensures((s, &trans[0].0, &trans[0].1), mid) && match mid {
                Err(e) => r == Err::<S, GremlinStateError>(e),
                Ok(s2) => runs(f, s2, trans.drop_first(), r),
            }
    }
}

proof fn lemma_runs_append<T, S, F: Fn(S, &T, &T) -> Result<S, GremlinStateError>>(
    f: F,
    s: S,
    a: Seq<(T, T)>,
    b: Seq<(T, T)>,
    mid: S,
    r: Result<S, GremlinStateError>,
)
    requires
        runs(f, s, a, Ok(mid)),
        runs(f, mid, b, r),
    ensures
        runs(f, s, a + b, r),
    decreases a.len(),
{
    if a.len() == 0 {
        assert(a + b =~= b);
    } else {
        let m = choose|m: Result<S, GremlinStateError>|
            #[trigger] f.ensures((s, &a[0].0, &a[0].1), m) && match m {
                Err(e) => Ok::<S, GremlinStateError>(mid) == Err::<S, GremlinStateError>(e),
                Ok(s2) => runs(f, s2, a.drop_first(), Ok(mid)),
            };
        let s2 = m->Ok_0;
        lemma_runs_append(f, s2, a.drop_first(), b, mid, r);
        assert((a + b)[0] == a[0]);
        assert((a + b).drop_first() =~= a.drop_first() + b);
        assert(f.ensures((s, &(a + b)[0].0, &(a + b)[0].1), m));
    }
}

proof fn lemma_runs_error<T, S, F: Fn(S, &T, &T) -> Result<S, GremlinStateError>>(
    f: F,
    s: S,
    a: Seq<(T, T)>,
    b: Seq<(T, T)>,
    e: GremlinStateError,
)
    requires
        runs(f, s, a, Err(e)),
    ensures
        runs(f, s, a + b, Err(e)),
    decreases a.len(),
{
    let m = choose|m: Result<S, GremlinStateError>|
        #[trigger] f.ensures((s, &a[0].0, &a[0].1), m) && match m {
            Err(e2) => Err::<S, GremlinStateError>(e) == Err::<S, GremlinStateError>(e2),
            Ok(s2) => runs(f, s2, a.drop_first(), Err(e)),
        };
    assert((a + b)[0] == a[0]);
    assert((a + b).drop_first() =~= a.drop_first() + b);
    if let Ok(s2) = m {
        lemma_runs_error(f, s2, a.drop_first(), b, e);
    }
    assert(f.ensures((s, &(a + b)[0].0, &(a + b)[0].1), m));
}

proof fn lemma_runs_one<T, S, F: Fn(S, &T, &T) -> Result<S, GremlinStateError>>(
    f: F,
    s: S,
    t: (T, T),
    r: Result<S, GremlinStateError>,
)
    requires
        f.ensures((s, &t.0, &t.1), r),
    ensures
        runs(f, s, seq![t], r),
{
    let one = seq![t];
    assert(one[0] == t);
    assert(one.drop_first() =~= Seq::<(T, T)>::empty());
    if let Ok(s2) = r {
        assert(runs(f, s2, one.drop_first(), r));
    }
    assert(f.ensures((s, &one[0].0, &one[0].1), r));
}

/// Feeds every step of a traversal, with the step before it, to the state
/// machine `new_step_state`: the traversals of a `match` step one after the
/// other, and a last `empty` step to close the walk. A `has` step does not
/// count as the step before the next one, and `empty` is the step before the
/// first.
pub fn iterate_gremlin_steps<T, S, F: Fn(S, &T, &T) -> Result<S, GremlinStateError>>(
    steps: &Vec<WalkStep<T>>,
    empty: &T,
    gremlin_state: S,
    new_step_state: &F,
) -> (r: Result<S, GremlinStateError>)
    requires
        forall|s: S, a: &T, b: &T| #[trigger] new_step_state.requires((s, a, b)),
    ensures
        runs(*new_step_state, gremlin_state, transitions(steps@, *empty), r),
    decreases steps@,
{
    let ghost f = *new_step_state;
    let ghost s0 = gremlin_state;
    let ghost e0 = *empty;
    let mut state = gremlin_state;
    let mut prev: Option<usize> = None;
    let n = steps.len();
    let mut i: usize = 0;
    proof {
        assert(runs(f, s0, step_transitions(steps@, 0, e0), Ok(state)));
    }
    while i < n
        invariant
            n == steps@.len(),
            i <= n,
            f == *new_step_state,
            s0 == gremlin_state,
            e0 == *empty,
            forall|s: S, a: &T, b: &T| #[trigger] new_step_state.requires((s, a, b)),
            runs(f, s0, step_transitions(steps@, i as int, e0), Ok(state)),
            match prev {
                Some(j) => j < i && prev_of(steps@, i as int, e0) == step_of(steps@[j as int]),
                None => prev_of(steps@, i as int, e0) == e0,
            },
        decreases n - i,
    {
        let ghost before = step_transitions(steps@, i as int, e0);
        match &steps[i] {
            WalkStep::Match(_, bytecodes) => {
                let ghost bcs = bytecodes@;
                let m = bytecodes.len();
                let mut k: usize = 0;
                proof {
                    assert(before + match_transitions(bcs, 0, e0) =~= before);
                }
                while k < m
                    invariant
                        m == bcs.len(),
                        k <= m,
                        i < n,
                        n == steps@.len(),
                        steps@[i as int] is Match,
                        steps@[i as int]->Match_1 == *bytecodes,
                        bcs == bytecodes@,
                        f == *new_step_state,
                        s0 == gremlin_state,
                        e0 == *empty,
                        forall|s: S, a: &T, b: &T| #[trigger] new_step_state.requires((s, a, b)),
                        before == step_transitions(steps@, i as int, e0),
                        runs(f, s0, before + match_transitions(bcs, k as int, e0), Ok(state)),
                    decreases m - k,
                {
                    proof {
                        assert(decreases_to!(steps@ => steps@[i as int]));
                        assert(decreases_to!(steps@[i as int] => steps@[i as int]->Match_1));
                        assert(decreases_to!(*bytecodes => bytecodes@));
                        assert(decreases_to!(bytecodes@ => bytecodes@[k as int]));
                        assert(decreases_to!(bytecodes@[k as int] => bytecodes@[k as int]@));
                        assert(decreases_to!(steps@ => bytecodes@[k as int]@));
                    }
                    let ghost s_k = state;
                    let res = iterate_gremlin_steps(&bytecodes[k], empty, state, new_step_state);
                    let ghost done = before + match_transitions(bcs, k as int, e0);
                    let ghost inner = transitions(bcs[k as int]@, e0);
                    proof {
                        assert(match_transitions(bcs, k + 1, e0) == match_transitions(
                            bcs,
                            k as int,
                            e0,
                        ) + inner);
                        assert(done + inner =~= before + match_transitions(bcs, k + 1, e0));
                    }
                    match res {
                        Ok(s2) => {
                            proof {
                                lemma_runs_append(f, s0, done, inner, s_k, Ok(s2));
                            }
                            state = s2;
                        },
                        Err(e) => {
                            proof {
                                lemma_runs_append(f, s0, done, inner, s_k, Err(e));
                                lemma_match_prefix(bcs, k + 1, m as int, e0);
                                let pre = before + match_transitions(bcs, k + 1, e0);
                                let full = step_transitions(steps@, i + 1, e0);
                                assert(full == before + match_transitions(bcs, m as int, e0));
                                assert(full =~= pre + full.subrange(
                                    pre.len() as int,
                                    full.len() as int,
                                ));
                                lemma_runs_error(
                                    f,
                                    s0,
                                    pre,
                                    full.subrange(pre.len() as int, full.len() as int),
                                    e,
                                );
                                lemma_transitions_prefix_error(f, s0, steps@, (i + 1) as int, e0, e);
                            }
                            return Err(e);
                        },
                    }
                    k = k + 1;
                }
                proof {
                    assert(step_transitions(steps@, i + 1, e0) == before + match_transitions(
                        bcs,
                        m as int,
                        e0,
                    ));
                }
            },
            WalkStep::Step(step) | WalkStep::Has(step) => {
                let p: &T = match prev {
                    Some(j) => steps[j].step(),
                    None => empty,
                };
                let ghost s_i = state;
                let res = new_step_state(state, p, step);
                proof {
                    let t = (prev_of(steps@, i as int, e0), step_of(steps@[i as int]));
                    assert(step_transitions(steps@, i + 1, e0) == before + seq![t]);
                    lemma_runs_one(f, s_i, t, res);
                    lemma_runs_append(f, s0, before, seq![t], s_i, res);
                }
                match res {
                    Ok(s2) => {
                        state = s2;
                    },
                    Err(e) => {
                        proof {
                            lemma_transitions_prefix_error(f, s0, steps@, (i + 1) as int, e0, e);
                        }
                        return Err(e);
                    },
                }
            },
        }
        let is_has = match &steps[i] {
            WalkStep::Has(_) => true,
            _ => false,
        };
        if !is_has {
            prev = Some(i);
        }
        i = i + 1;
    }
    let p: &T = match prev {
        Some(j) => steps[j].step(),
        None => empty,
    };
    let ghost s_n = state;
    let res = new_step_state(state, p, empty);
    proof {
        let t = (prev_of(steps@, n as int, e0), e0);
        lemma_runs_one(f, s_n, t, res);
        lemma_runs_append(f, s0, step_transitions(steps@, n as int, e0), seq![t], s_n, res);
        assert(step_transitions(steps@, n as int, e0) + seq![t] =~= transitions(steps@, e0));
    }
    res
}

impl<T> WalkStep<T> {
    /// The step itself.
    pub fn step(&self) -> (r: &T)
        ensures
            *r == step_of(*self),
    {
        match self {
            WalkStep::Step(t) => t,
            WalkStep::Has(t) => t,
            WalkStep::Match(t, _) => t,
        }
    }
}

/// The pairs of the first `k` traversals of a `match` step come first among
/// those of the first `m`.
proof fn lemma_match_prefix<T>(bytecodes: Seq<Vec<WalkStep<T>>>, k: int, m: int, empty: T)
    requires
        0 <= k <= m <= bytecodes.len(),
    ensures
        match_transitions(bytecodes, k, empty).len() <= match_transitions(bytecodes, m, empty).len(),
        match_transitions(bytecodes, m, empty).subrange(
            0,
            match_transitions(bytecodes, k, empty).len() as int,
        ) =~= match_transitions(bytecodes, k, empty),
    decreases m - k,
{
    if k < m {
        lemma_match_prefix(bytecodes, k, m - 1, empty);
    }
}

/// An error in the pairs of the first `i` steps is the error of the whole
/// walk.
proof fn lemma_transitions_prefix_error<T, S, F: Fn(S, &T, &T) -> Result<S, GremlinStateError>>(
    f: F,
    s: S,
    steps: Seq<WalkStep<T>>,
    i: int,
    empty: T,
    e: GremlinStateError,
)
    requires
        0 <= i <= steps.len(),
        runs(f, s, step_transitions(steps, i, empty), Err(e)),
    ensures
        runs(f, s, transitions(steps, empty), Err(e)),
    decreases steps.len() - i,
{
    if i < steps.len() {
        let next = step_transitions(steps, i + 1, empty);
        let more = next.subrange(step_transitions(steps, i, empty).len() as int, next.len() as int);
        assert(next =~= step_transitions(steps, i, empty) + more);
        lemma_runs_error(f, s, step_transitions(steps, i, empty), more, e);
        lemma_transitions_prefix_error(f, s, steps, i + 1, empty, e);
    } else {
        let t = (prev_of(steps, steps.len() as int, empty), empty);
        lemma_runs_error(f, s, step_transitions(steps, i, empty), seq![t], e);
        assert(step_transitions(steps, i, empty) + seq![t] =~= transitions(steps, empty));
    }
}

} // verus!
