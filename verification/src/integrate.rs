//! The whole refinement, from the first round to a result or a failure.

use vstd::prelude::*;
use vstd::arithmetic::power::pow;
use crate::driver::{
    Driver,
    Failure,
    lemma_refusal_quadruples,
    MAX_ITERATIONS,
    Outcome,
    State,
    Step,
};
use crate::method::Method;

verus! {

/// Whether a round from `state` can see `evaluate` return `fine` on the finer
/// subdivision, and `accept` return `verdict` on the two approximations.
pub open spec fn round_gives<T, E: Fn(usize) -> T, A: Fn(T, T) -> bool>(
    state: State,
    evaluate: E,
    accept: A,
    fine: T,
    verdict: bool,
) -> bool {
    exists|coarse: T|
        {
            &&& call_ensures(evaluate, (state.splits as usize,), coarse)
            &&& call_ensures(evaluate, ((2 * state.splits) as usize,), fine)
            &&& #[trigger] call_ensures(accept, (coarse, fine), verdict)
        }
}

/// Whether a refinement that stands at `state` can end in `result`, with
/// `evaluate` to approximate and `accept` to compare.
///
/// It ends with the first round that `accept` agrees to, in the fine
/// approximation of that round and its split count; or, when a round without
/// agreement leads to a failure, in that failure.
pub open spec fn run_gives<T, E: Fn(usize) -> T, A: Fn(T, T) -> bool>(
    state: State,
    evaluate: E,
    accept: A,
    result: Result<(T, usize), Failure>,
) -> bool
    decreases state.rounds_left(),
{
    exists|fine: T, verdict: bool|
        {
            &&& #[trigger] round_gives(state, evaluate, accept, fine, verdict)
            &&& match state.next(verdict) {
                Outcome::Converged { splits } => result == Ok::<(T, usize), Failure>(
                    (fine, splits as usize),
                ),
                Outcome::Failed(failure) => result == Err::<(T, usize), Failure>(failure),
                Outcome::Refine(next) => run_gives(next, evaluate, accept, result),
            }
        }
}

/// Whether a refinement with `method` from `initial_splits` subintervals, of
/// at most `budget` rounds, can end in `result`.
pub open spec fn integration_gives<T, E: Fn(usize) -> T, A: Fn(T, T) -> bool>(
    method: Method,
    initial_splits: usize,
    budget: usize,
    evaluate: E,
    accept: A,
    result: Result<(T, usize), Failure>,
) -> bool {
    match State::start(method, initial_splits as nat, budget as nat) {
        Outcome::Refine(state) => run_gives(state, evaluate, accept, result),
        Outcome::Failed(failure) => result == Err::<(T, usize), Failure>(failure),
        Outcome::Converged { .. } => false,
    }
}

/// Refines the subdivision until two successive approximations agree, for at
/// most `budget` rounds.
///
/// `evaluate` approximates the integral on a given number of subintervals;
/// `accept` takes the coarse and the fine approximation of a round and says
/// whether they agree. The result is the fine approximation of the first round
/// that agrees, with the number of subintervals it was made on.
pub fn integrate_within<T: Copy, E: Fn(usize) -> T, A: Fn(T, T) -> bool>(
    method: Method,
    initial_splits: usize,
    budget: usize,
    evaluate: E,
    accept: A,
) -> (result: Result<(T, usize), Failure>)
    requires
        forall|splits: usize|
            method.spec_admits(splits as nat) ==> call_requires(evaluate, (splits,)),
        forall|coarse: T, fine: T| call_requires(accept, (coarse, fine)),
    ensures
        integration_gives(method, initial_splits, budget, evaluate, accept, result),
{
    let mut driver = match Driver::with_budget(method, initial_splits, budget) {
        Ok(driver) => driver,
        Err(failure) => {
            return Err(failure);
        },
    };
    let ghost first = driver@;
    loop
        invariant
            State::start(method, initial_splits as nat, budget as nat) == Outcome::Refine(first),
            driver@.wf(),
            driver@.method == method,
            forall|splits: usize|
                method.spec_admits(splits as nat) ==> call_requires(evaluate, (splits,)),
            forall|coarse: T, fine: T| call_requires(accept, (coarse, fine)),
            forall|result: Result<(T, usize), Failure>| #[trigger]
                run_gives(driver@, evaluate, accept, result) ==> run_gives(
                    first,
                    evaluate,
                    accept,
                    result,
                ),
        decreases driver@.rounds_left(),
    {
        let ghost state = driver@;
        let coarse_splits = driver.coarse_splits();
        let fine_splits = driver.fine_splits();
        assert(method.spec_admits(fine_splits as nat));
        let coarse = evaluate(coarse_splits);
        let fine = evaluate(fine_splits);
        let verdict = accept(coarse, fine);
        proof {
            assert(round_gives(state, evaluate, accept, fine, verdict));
        }
        match driver.advance(verdict) {
            Step::Converged { splits } => {
                let result = Ok((fine, splits));
                proof {
                    assert(run_gives(state, evaluate, accept, result));
                }
                return result;
            },
            Step::Failed(failure) => {
                let result = Err(failure);
                proof {
                    assert(run_gives(state, evaluate, accept, result));
                }
                return result;
            },
            Step::Refine(next) => {
                proof {
                    assert forall|result: Result<(T, usize), Failure>| #[trigger]
                        run_gives(next@, evaluate, accept, result) implies run_gives(
                        first,
                        evaluate,
                        accept,
                        result,
                    ) by {
                        assert(run_gives(state, evaluate, accept, result));
                    }
                }
                driver = next;
            },
        }
    }
}

/// Refines the subdivision until two successive approximations agree, for at
/// most `MAX_ITERATIONS` rounds.
pub fn integrate<T: Copy, E: Fn(usize) -> T, A: Fn(T, T) -> bool>(
    method: Method,
    initial_splits: usize,
    evaluate: E,
    accept: A,
) -> (result: Result<(T, usize), Failure>)
    requires
        forall|splits: usize|
            method.spec_admits(splits as nat) ==> call_requires(evaluate, (splits,)),
        forall|coarse: T, fine: T| call_requires(accept, (coarse, fine)),
    ensures
        integration_gives(method, initial_splits, MAX_ITERATIONS, evaluate, accept, result),
{
    integrate_within(method, initial_splits, MAX_ITERATIONS, evaluate, accept)
}

/// Where `evaluate` and `accept` each return one value only for given
/// arguments, a refinement has one result only.
pub proof fn lemma_run_is_deterministic<T, E: Fn(usize) -> T, A: Fn(T, T) -> bool>(
    state: State,
    evaluate: E,
    accept: A,
    first: Result<(T, usize), Failure>,
    second: Result<(T, usize), Failure>,
)
    requires
        forall|splits: usize, one: T, other: T|
            #[trigger] call_ensures(evaluate, (splits,), one) && #[trigger] call_ensures(
                evaluate,
                (splits,),
                other,
            ) ==> one == other,
        forall|coarse: T, fine: T, one: bool, other: bool|
            #[trigger] call_ensures(accept, (coarse, fine), one) && #[trigger] call_ensures(
                accept,
                (coarse, fine),
                other,
            ) ==> one == other,
        run_gives(state, evaluate, accept, first),
        run_gives(state, evaluate, accept, second),
    ensures
        first == second,
    decreases state.rounds_left(),
{
    let (fine, verdict) = choose|fine: T, verdict: bool|
        {
            &&& #[trigger] round_gives(state, evaluate, accept, fine, verdict)
            &&& match state.next(verdict) {
                Outcome::Converged { splits } => first == Ok::<(T, usize), Failure>(
                    (fine, splits as usize),
                ),
                Outcome::Failed(failure) => first == Err::<(T, usize), Failure>(failure),
                Outcome::Refine(next) => run_gives(next, evaluate, accept, first),
            }
        };
    let (other_fine, other_verdict) = choose|fine: T, verdict: bool|
        {
            &&& #[trigger] round_gives(state, evaluate, accept, fine, verdict)
            &&& match state.next(verdict) {
                Outcome::Converged { splits } => second == Ok::<(T, usize), Failure>(
                    (fine, splits as usize),
                ),
                Outcome::Failed(failure) => second == Err::<(T, usize), Failure>(failure),
                Outcome::Refine(next) => run_gives(next, evaluate, accept, second),
            }
        };
    let coarse = choose|coarse: T|
        {
            &&& call_ensures(evaluate, (state.splits as usize,), coarse)
            &&& call_ensures(evaluate, ((2 * state.splits) as usize,), fine)
            &&& #[trigger] call_ensures(accept, (coarse, fine), verdict)
        };
    let other_coarse = choose|coarse: T|
        {
            &&& call_ensures(evaluate, (state.splits as usize,), coarse)
            &&& call_ensures(evaluate, ((2 * state.splits) as usize,), other_fine)
            &&& #[trigger] call_ensures(accept, (coarse, other_fine), other_verdict)
        };
    assert(coarse == other_coarse);
    assert(fine == other_fine);
    assert(verdict == other_verdict);
    if let Outcome::Refine(next) = state.next(verdict) {
        lemma_run_is_deterministic(next, evaluate, accept, first, second);
    }
}

/// Where `evaluate` and `accept` each return one value only for given
/// arguments, the same method, split count and budget give the same result:
/// the same value on the same number of subintervals, or the same failure.
pub proof fn lemma_integration_is_deterministic<T, E: Fn(usize) -> T, A: Fn(T, T) -> bool>(
    method: Method,
    initial_splits: usize,
    budget: usize,
    evaluate: E,
    accept: A,
    first: Result<(T, usize), Failure>,
    second: Result<(T, usize), Failure>,
)
    requires
        forall|splits: usize, one: T, other: T|
            #[trigger] call_ensures(evaluate, (splits,), one) && #[trigger] call_ensures(
                evaluate,
                (splits,),
                other,
            ) ==> one == other,
        forall|coarse: T, fine: T, one: bool, other: bool|
            #[trigger] call_ensures(accept, (coarse, fine), one) && #[trigger] call_ensures(
                accept,
                (coarse, fine),
                other,
            ) ==> one == other,
        integration_gives(method, initial_splits, budget, evaluate, accept, first),
        integration_gives(method, initial_splits, budget, evaluate, accept, second),
    ensures
        first == second,
{
    if let Outcome::Refine(state) = State::start(method, initial_splits as nat, budget as nat) {
        lemma_run_is_deterministic(state, evaluate, accept, first, second);
    }
}

/// Whether `splits` is the fine split count of the round numbered `round`,
/// counted from zero, of a refinement that started from `initial` subintervals:
/// twice `initial`, times four for each round before.
pub open spec fn fine_count_of_round(initial: nat, round: nat, splits: usize) -> bool {
    splits == 2 * initial * pow(4, round)
}

/// A result of a refinement is what `evaluate` returned on the result's split
/// count, and that count is the fine one of a round within the budget.
pub proof fn lemma_run_ends_on_a_fine_count<T, E: Fn(usize) -> T, A: Fn(T, T) -> bool>(
    state: State,
    evaluate: E,
    accept: A,
    value: T,
    splits: usize,
)
    requires
        state.wf(),
        run_gives(state, evaluate, accept, Ok::<(T, usize), Failure>((value, splits))),
    ensures
        call_ensures(evaluate, (splits,), value),
        exists|round: nat|
            round < state.rounds_left() && #[trigger] fine_count_of_round(
                state.splits,
                round,
                splits,
            ),
    decreases state.rounds_left(),
{
    reveal(pow);
    let result = Ok::<(T, usize), Failure>((value, splits));
    let (fine, verdict) = choose|fine: T, verdict: bool|
        {
            &&& #[trigger] round_gives(state, evaluate, accept, fine, verdict)
            &&& match state.next(verdict) {
                Outcome::Converged { splits } => result == Ok::<(T, usize), Failure>(
                    (fine, splits as usize),
                ),
                Outcome::Failed(failure) => result == Err::<(T, usize), Failure>(failure),
                Outcome::Refine(next) => run_gives(next, evaluate, accept, result),
            }
        };
    if verdict {
        assert(fine_count_of_round(state.splits, 0, splits));
    } else {
        lemma_refusal_quadruples(state);
        let next = state.next(false)->Refine_0;
        lemma_run_ends_on_a_fine_count(next, evaluate, accept, value, splits);
        let round = choose|round: nat|
            round < next.rounds_left() && #[trigger] fine_count_of_round(
                next.splits,
                round,
                splits,
            );
        let power = pow(4, round);
        assert(2 * (4 * state.splits) * power == 2 * state.splits * (4 * power))
            by (nonlinear_arith);
        assert(fine_count_of_round(state.splits, round + 1, splits));
    }
}

/// A result of `integrate_within` is what `evaluate` returned on the result's
/// split count, and that count is twice the initial one, times four for each
/// round that did not agree, of which there are fewer than the budget allows.
pub proof fn lemma_integration_ends_on_a_fine_count<T, E: Fn(usize) -> T, A: Fn(T, T) -> bool>(
    method: Method,
    initial_splits: usize,
    budget: usize,
    evaluate: E,
    accept: A,
    value: T,
    splits: usize,
)
    requires
        integration_gives(
            method,
            initial_splits,
            budget,
            evaluate,
            accept,
            Ok::<(T, usize), Failure>((value, splits)),
        ),
    ensures
        method.spec_admits(initial_splits as nat),
        call_ensures(evaluate, (splits,), value),
        exists|round: nat|
            round < budget && #[trigger] fine_count_of_round(initial_splits as nat, round, splits),
{
    let state = State::start(method, initial_splits as nat, budget as nat)->Refine_0;
    lemma_run_ends_on_a_fine_count(state, evaluate, accept, value, splits);
    let round = choose|round: nat|
        round < state.rounds_left() && #[trigger] fine_count_of_round(state.splits, round, splits);
    assert(round < budget && fine_count_of_round(initial_splits as nat, round, splits));
}

/// Refusals counted from a state are, after the first, refusals counted from
/// the state that the first leads to.
pub proof fn lemma_refusals_shift(state: State, next: State, count: nat)
    requires
        state.next(false) == Outcome::Refine(next),
    ensures
        state.after_refusals(count + 1) == next.after_refusals(count),
    decreases count,
{
    if count == 0 {
        assert(state.after_refusals(1) == state.next(false)) by {
            assert(state.after_refusals(0) == Outcome::Refine(state));
        }
    } else {
        lemma_refusals_shift(state, next, (count - 1) as nat);
    }
}

/// A refinement fails only by rounds without agreement: the failure is what
/// as many refusals lead to as there were rounds, and the budget allows that
/// many.
pub proof fn lemma_run_fails_by_refusals<T, E: Fn(usize) -> T, A: Fn(T, T) -> bool>(
    state: State,
    evaluate: E,
    accept: A,
    failure: Failure,
)
    requires
        state.wf(),
        run_gives(state, evaluate, accept, Err::<(T, usize), Failure>(failure)),
    ensures
        exists|count: nat|
            1 <= count <= state.rounds_left() && #[trigger] state.after_refusals(count)
                == Outcome::Failed(failure),
    decreases state.rounds_left(),
{
    let result = Err::<(T, usize), Failure>(failure);
    let (fine, verdict) = choose|fine: T, verdict: bool|
        {
            &&& #[trigger] round_gives(state, evaluate, accept, fine, verdict)
            &&& match state.next(verdict) {
                Outcome::Converged { splits } => result == Ok::<(T, usize), Failure>(
                    (fine, splits as usize),
                ),
                Outcome::Failed(failure) => result == Err::<(T, usize), Failure>(failure),
                Outcome::Refine(next) => run_gives(next, evaluate, accept, result),
            }
        };
    lemma_refusal_quadruples(state);
    assert(state.after_refusals(0) == Outcome::Refine(state));
    match state.next(false) {
        Outcome::Refine(next) => {
            lemma_run_fails_by_refusals(next, evaluate, accept, failure);
            let count = choose|count: nat|
                1 <= count <= next.rounds_left() && #[trigger] next.after_refusals(count)
                    == Outcome::Failed(failure);
            lemma_refusals_shift(state, next, count);
            assert(state.after_refusals(count + 1) == Outcome::Failed(failure));
        },
        _ => {
            assert(state.after_refusals(1) == Outcome::Failed(failure));
        },
    }
}

} // verus!
