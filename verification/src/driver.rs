//! The refinement of the subdivision, round by round.
//!
//! A round approximates the integral twice, on the current number of
//! subintervals and on twice as many, and asks whether the two agree. If they
//! do, the finer approximation is the result. If they do not, the next round
//! starts from four times as many subintervals. The rounds are counted, and
//! the refinement gives up when the budget is spent or when the machine can
//! no longer count the subintervals.

use vstd::prelude::*;
use vstd::arithmetic::power::pow;
use crate::method::Method;

verus! {

/// The number of rounds after which a refinement gives up, unless told otherwise.
pub const MAX_ITERATIONS: usize = 100_000;

/// Why a refinement ended without a result.
#[derive(Clone, Copy, Debug, PartialEq, Eq, Structural)]
pub enum Failure {
    /// It was to start from no subinterval at all.
    NoSplits,
    /// Simpson's rule was to start from `splits` subintervals, an odd number.
    OddSplits { splits: usize },
    /// `budget` rounds were spent, none of which agreed; the next one would
    /// have started from `splits` subintervals.
    Exhausted { budget: usize, splits: usize },
    /// A round needs twice `splits` subintervals, more than the machine counts.
    Overflow { splits: usize },
}

/// Where a refinement stands at the beginning of a round.
pub struct State {
    /// The rule in use.
    pub method: Method,
    /// The number of subintervals of the round's coarse approximation; the
    /// fine one takes twice as many.
    pub splits: nat,
    /// The rounds that ended without agreement.
    pub rounds: nat,
    /// The rounds allowed in all.
    pub budget: nat,
}

/// What a round leads to.
pub enum Outcome {
    /// The two approximations agree; the fine one, on `splits` subintervals, is the result.
    Converged { splits: nat },
    /// Another round is due.
    Refine(State),
    /// The refinement gives up.
    Failed(Failure),
}

impl State {
    /// Whether a round can be made from this state: the rule admits the split
    /// count, the machine can count twice as many, and the budget is not spent.
    pub open spec fn wf(self) -> bool {
        &&& self.method.spec_admits(self.splits)
        &&& 2 * self.splits <= usize::MAX
        &&& self.rounds < self.budget <= usize::MAX
    }

    /// The round that starts from `splits` subintervals after `rounds` rounds
    /// without agreement, if there is one.
    pub open spec fn enter(method: Method, splits: nat, rounds: nat, budget: nat) -> Outcome {
        if rounds >= budget {
            Outcome::Failed(Failure::Exhausted { budget: budget as usize, splits: splits as usize })
        } else if 2 * splits > usize::MAX {
            Outcome::Failed(Failure::Overflow { splits: splits as usize })
        } else {
            Outcome::Refine(State { method, splits, rounds, budget })
        }
    }

    /// The first round of a refinement that is to start from `initial` subintervals.
    pub open spec fn start(method: Method, initial: nat, budget: nat) -> Outcome {
        if initial == 0 {
            Outcome::Failed(Failure::NoSplits)
        } else if method is Simpson && initial % 2 == 1 {
            Outcome::Failed(Failure::OddSplits { splits: initial as usize })
        } else {
            Self::enter(method, initial, 0, budget)
        }
    }

    /// What the round leads to, given whether its two approximations agree.
    pub open spec fn next(self, converged: bool) -> Outcome {
        if converged {
            Outcome::Converged { splits: 2 * self.splits }
        } else if 4 * self.splits > usize::MAX {
            Outcome::Failed(Failure::Overflow { splits: (2 * self.splits) as usize })
        } else {
            Self::enter(self.method, 4 * self.splits, self.rounds + 1, self.budget)
        }
    }

    /// What `count` rounds without agreement lead to, one after the other.
    pub open spec fn after_refusals(self, count: nat) -> Outcome
        decreases count,
    {
        if count == 0 {
            Outcome::Refine(self)
        } else {
            match self.after_refusals((count - 1) as nat) {
                Outcome::Refine(state) => state.next(false),
                ended => ended,
            }
        }
    }

    /// The rounds that are left of the budget.
    pub open spec fn rounds_left(self) -> nat {
        if self.rounds < self.budget {
            (self.budget - self.rounds) as nat
        } else {
            0
        }
    }
}

/// A refinement under way.
#[derive(Clone, Copy, Debug)]
pub struct Driver {
    method: Method,
    splits: usize,
    rounds: usize,
    budget: usize,
}

/// What a round of a `Driver` led to.
#[derive(Clone, Copy, Debug)]
pub enum Step {
    /// The two approximations agree; the fine one, on `splits` subintervals, is the result.
    Converged { splits: usize },
    /// Another round is due, from the state given.
    Refine(Driver),
    /// The refinement gives up.
    Failed(Failure),
}

impl View for Driver {
    type V = State;

    closed spec fn view(&self) -> State {
        State {
            method: self.method,
            splits: self.splits as nat,
            rounds: self.rounds as nat,
            budget: self.budget as nat,
        }
    }
}

impl View for Step {
    type V = Outcome;

    open spec fn view(&self) -> Outcome {
        match *self {
            Step::Converged { splits } => Outcome::Converged { splits: splits as nat },
            Step::Refine(driver) => Outcome::Refine(driver@),
            Step::Failed(failure) => Outcome::Failed(failure),
        }
    }
}

impl Driver {
    #[verifier::type_invariant]
    spec fn well_formed(self) -> bool {
        self@.wf()
    }

    /// The round that starts from `splits` subintervals after `rounds` rounds
    /// without agreement, if there is one.
    fn enter(method: Method, splits: usize, rounds: usize, budget: usize) -> (entered: Result<
        Driver,
        Failure,
    >)
        requires
            method.spec_admits(splits as nat),
        ensures
            match State::enter(method, splits as nat, rounds as nat, budget as nat) {
                Outcome::Refine(state) => entered is Ok && entered->Ok_0@ == state && state.wf(),
                Outcome::Failed(failure) => entered == Err::<Driver, Failure>(failure),
                Outcome::Converged { .. } => false,
            },
    {
        if rounds >= budget {
            Err(Failure::Exhausted { budget, splits })
        } else if splits > usize::MAX / 2 {
            Err(Failure::Overflow { splits })
        } else {
            Ok(Driver { method, splits, rounds, budget })
        }
    }

    /// Starts a refinement with `method` from `initial_splits` subintervals
    /// that gives up after `budget` rounds.
    ///
    /// It fails at once where there is no subinterval, where Simpson's rule
    /// would get an odd number of them, where the budget is zero, and where
    /// the machine cannot count twice `initial_splits`.
    pub fn with_budget(method: Method, initial_splits: usize, budget: usize) -> (started: Result<
        Driver,
        Failure,
    >)
        ensures
            match State::start(method, initial_splits as nat, budget as nat) {
                Outcome::Refine(state) => started is Ok && started->Ok_0@ == state && state.wf(),
                Outcome::Failed(failure) => started == Err::<Driver, Failure>(failure),
                Outcome::Converged { .. } => false,
            },
    {
        if initial_splits == 0 {
            return Err(Failure::NoSplits);
        }
        if !method.admits(initial_splits) {
            return Err(Failure::OddSplits { splits: initial_splits });
        }
        Self::enter(method, initial_splits, 0, budget)
    }

    /// Starts a refinement with `method` from `initial_splits` subintervals
    /// that gives up after `MAX_ITERATIONS` rounds.
    pub fn new(method: Method, initial_splits: usize) -> (started: Result<Driver, Failure>)
        ensures
            match State::start(method, initial_splits as nat, MAX_ITERATIONS as nat) {
                Outcome::Refine(state) => started is Ok && started->Ok_0@ == state && state.wf(),
                Outcome::Failed(failure) => started == Err::<Driver, Failure>(failure),
                Outcome::Converged { .. } => false,
            },
    {
        Self::with_budget(method, initial_splits, MAX_ITERATIONS)
    }

    /// The rule in use.
    pub fn method(&self) -> (method: Method)
        ensures
            method == self@.method,
    {
        self.method
    }

    /// The number of subintervals of this round's coarse approximation.
    pub fn coarse_splits(&self) -> (splits: usize)
        ensures
            splits == self@.splits,
            self@.wf(),
    {
        proof {
            use_type_invariant(self);
        }
        self.splits
    }

    /// The number of subintervals of this round's fine approximation: twice the coarse one's.
    pub fn fine_splits(&self) -> (splits: usize)
        ensures
            splits == 2 * self@.splits,
            self@.wf(),
    {
        proof {
            use_type_invariant(self);
        }
        2 * self.splits
    }

    /// The rounds that ended without agreement.
    pub fn rounds(&self) -> (rounds: usize)
        ensures
            rounds == self@.rounds,
    {
        self.rounds
    }

    /// The rounds allowed in all.
    pub fn budget(&self) -> (budget: usize)
        ensures
            budget == self@.budget,
    {
        self.budget
    }

    /// Ends the round: `converged` says whether its two approximations agree.
    ///
    /// With agreement the refinement is over, and the result is the fine
    /// approximation. Without, the next round starts from four times the
    /// subintervals, unless the budget is spent by then or the machine cannot count
    /// the subintervals that the next round needs.
    pub fn advance(self, converged: bool) -> (step: Step)
        ensures
            step@ == self@.next(converged),
            step matches Step::Refine(next) ==> next@.wf(),
    {
        proof {
            use_type_invariant(self);
        }
        if converged {
            Step::Converged { splits: 2 * self.splits }
        } else if self.splits > usize::MAX / 4 {
            Step::Failed(Failure::Overflow { splits: 2 * self.splits })
        } else {
            match Self::enter(self.method, 4 * self.splits, self.rounds + 1, self.budget) {
                Ok(next) => Step::Refine(next),
                Err(failure) => Step::Failed(failure),
            }
        }
    }
}

/// A round without agreement leads to a round of the same rule and budget,
/// from four times the subintervals, or to a failure: never to a result.
pub proof fn lemma_refusal_quadruples(state: State)
    requires
        state.wf(),
    ensures
        match state.next(false) {
            Outcome::Refine(next) => {
                &&& next.wf()
                &&& next.method == state.method
                &&& next.budget == state.budget
                &&& next.splits == 4 * state.splits
                &&& next.rounds == state.rounds + 1
            },
            Outcome::Failed(failure) => failure is Exhausted || failure is Overflow,
            Outcome::Converged { .. } => false,
        },
{
}

/// After `count` rounds without agreement a refinement that still goes on
/// works on `4^count` times the subintervals that it started from.
pub proof fn lemma_refusals_multiply(state: State, count: nat)
    requires
        state.wf(),
    ensures
        match state.after_refusals(count) {
            Outcome::Refine(reached) => {
                &&& reached.wf()
                &&& reached.method == state.method
                &&& reached.budget == state.budget
                &&& reached.splits == state.splits * pow(4, count)
                &&& reached.rounds == state.rounds + count
            },
            Outcome::Failed(failure) => failure is Exhausted || failure is Overflow,
            Outcome::Converged { .. } => false,
        },
    decreases count,
{
    reveal(pow);
    if count > 0 {
        let before = (count - 1) as nat;
        lemma_refusals_multiply(state, before);
        if let Outcome::Refine(reached) = state.after_refusals(before) {
            lemma_refusal_quadruples(reached);
            assert(4 * (state.splits * pow(4, before)) == state.splits * (4 * pow(4, before)))
                by (nonlinear_arith);
        }
    }
}

/// No refinement outlasts its budget: once as many rounds have ended without
/// agreement as were left of it, the refinement has failed.
pub proof fn lemma_budget_is_honoured(state: State, count: nat)
    requires
        state.wf(),
        count >= state.rounds_left(),
    ensures
        state.after_refusals(count) is Failed,
    decreases count,
{
    lemma_refusals_multiply(state, count);
    if count > 0 {
        let before = (count - 1) as nat;
        lemma_refusals_multiply(state, before);
        if before >= state.rounds_left() {
            lemma_budget_is_honoured(state, before);
        }
    }
}

} // verus!
