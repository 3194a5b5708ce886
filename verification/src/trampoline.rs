//! A trampoline over a step function.
//!
//! A tail-recursive computation is written as a step function from the current
//! arguments to a [`Next`]: either the arguments of the next round or the final
//! output. [`run`] calls the step function round after round in one loop, so the
//! depth of the recursion costs no stack.

use vstd::prelude::*;

pub use self::Next::{Finish, Recurse};

verus! {

/// What a step function hands back: how the computation goes on.
#[derive(Debug)]
pub enum Next<Input, Output> {
    /// The step function is to be run again, on this input.
    Recurse(Input),
    /// No step is left; this is the output.
    Finish(Output),
}

/// Started on `input`, `step` can be run round after round and finishes after
/// at most `fuel` further rounds, whichever of its permitted results it returns
/// in each round.
pub open spec fn halts_within<StepFn, Input, Output>(step: StepFn, input: Input, fuel: nat) -> bool
    where StepFn: Fn(Input) -> Next<Input, Output>
    decreases fuel,
{
    &&& call_requires(step, (input,))
    &&& forall|next: Next<Input, Output>| #[trigger]
        call_ensures(step, (input,), next) ==> match next {
            Next::Finish(_) => true,
            Next::Recurse(new_input) => fuel > 0 && halts_within(
                step,
                new_input,
                (fuel - 1) as nat,
            ),
        }
}

/// Started on `input`, `step` may finish with `output` after at most `fuel`
/// further rounds.
pub open spec fn may_return<StepFn, Input, Output>(
    step: StepFn,
    input: Input,
    fuel: nat,
    output: Output,
) -> bool where StepFn: Fn(Input) -> Next<Input, Output>
    decreases fuel,
{
    exists|next: Next<Input, Output>| #[trigger]
        call_ensures(step, (input,), next) && match next {
            Next::Finish(last) => last == output,
            Next::Recurse(new_input) => fuel > 0 && may_return(
                step,
                new_input,
                (fuel - 1) as nat,
                output,
            ),
        }
}

/// The direct recursion that the trampoline stands in for: follows `logic` from
/// `input` and gives its output, or `None` where the recursion is more than
/// `fuel` calls deep.
pub open spec fn recursion<Input, Output>(
    logic: spec_fn(Input) -> Next<Input, Output>,
    input: Input,
    fuel: nat,
) -> Option<Output>
    decreases fuel,
{
    match logic(input) {
        Next::Finish(output) => Some(output),
        Next::Recurse(new_input) => if fuel == 0 {
            None
        } else {
            recursion(logic, new_input, (fuel - 1) as nat)
        },
    }
}

/// On every input that satisfies `domain`, `step` may be called and returns
/// what `logic` says, and a recursion never leaves `domain`.
pub open spec fn implements<StepFn, Input, Output>(
    step: StepFn,
    logic: spec_fn(Input) -> Next<Input, Output>,
    domain: spec_fn(Input) -> bool,
) -> bool where StepFn: Fn(Input) -> Next<Input, Output> {
    &&& forall|input: Input| #[trigger] domain(input) ==> call_requires(step, (input,))
    &&& forall|input: Input, next: Next<Input, Output>|
        domain(input) && #[trigger] call_ensures(step, (input,), next) ==> next == logic(input)
    &&& forall|input: Input| #[trigger]
        domain(input) ==> (logic(input) matches Next::Recurse(new_input) ==> domain(new_input))
}

/// What may be returned within `fuel` rounds may be returned within any larger
/// number of rounds.
pub proof fn lemma_may_return_monotone<StepFn, Input, Output>(
    step: StepFn,
    input: Input,
    fuel: nat,
    more: nat,
    output: Output,
) where StepFn: Fn(Input) -> Next<Input, Output>
    requires
        may_return(step, input, fuel, output),
        fuel <= more,
    ensures
        may_return(step, input, more, output),
    decreases fuel,
{
    let next = choose|next: Next<Input, Output>| #[trigger]
        call_ensures(step, (input,), next) && match next {
            Next::Finish(last) => last == output,
            Next::Recurse(new_input) => fuel > 0 && may_return(
                step,
                new_input,
                (fuel - 1) as nat,
                output,
            ),
        };
    if let Next::Recurse(new_input) = next {
        lemma_may_return_monotone(step, new_input, (fuel - 1) as nat, (more - 1) as nat, output);
    }
}

/// One round that recurses puts an outcome of the new input one round further
/// from the old one.
proof fn lemma_may_return_after_round<StepFn, Input, Output>(
    step: StepFn,
    input: Input,
    new_input: Input,
    fuel: nat,
    output: Output,
) where StepFn: Fn(Input) -> Next<Input, Output>
    requires
        call_ensures(step, (input,), Next::<Input, Output>::Recurse(new_input)),
        may_return(step, new_input, fuel, output),
    ensures
        may_return(step, input, fuel + 1, output),
{
}

/// Runs `step` on `input`, and again on each input it asks to recurse on, until
/// it finishes; returns the output it finished with. The run takes no more
/// rounds than any bound within which `step` is known to halt.
#[inline(always)]
pub fn run<StepFn, Input, Output>(step: StepFn, input: Input) -> (output: Output) where
    StepFn: Fn(Input) -> Next<Input, Output>,

    requires
        exists|fuel: nat| halts_within(step, input, fuel),
    ensures
        forall|fuel: nat| #[trigger]
            halts_within(step, input, fuel) ==> may_return(step, input, fuel, output),
{
    let ghost mut left: nat = choose|fuel: nat| halts_within(step, input, fuel);
    let ghost mut rounds: nat = 0;
    let mut current = input;
    loop
        invariant
            halts_within(step, current, left),
            forall|fuel: nat| #[trigger]
                halts_within(step, input, fuel) ==> fuel >= rounds && halts_within(
                    step,
                    current,
                    (fuel - rounds) as nat,
                ),
            forall|fuel: nat, output: Output| #[trigger]
                may_return(step, current, fuel, output) ==> may_return(
                    step,
                    input,
                    fuel + rounds,
                    output,
                ),
        decreases left,
    {
        let ghost before = current;
        match step(current) {
            Next::Recurse(new_input) => {
                proof {
                    assert forall|fuel: nat, output: Output| #[trigger]
                        may_return(step, new_input, fuel, output) implies may_return(
                        step,
                        input,
                        fuel + (rounds + 1),
                        output,
                    ) by {
                        lemma_may_return_after_round(step, before, new_input, fuel, output);
                        assert(fuel + 1 + rounds == fuel + (rounds + 1));
                    }
                    assert forall|fuel: nat| #[trigger]
                        halts_within(step, input, fuel) implies fuel >= rounds + 1 && halts_within(
                        step,
                        new_input,
                        (fuel - (rounds + 1)) as nat,
                    ) by {
                        assert(halts_within(step, before, (fuel - rounds) as nat));
                        assert(((fuel - rounds) as nat - 1) as nat == (fuel - (rounds + 1)) as nat);
                    }
                    left = (left - 1) as nat;
                    rounds = rounds + 1;
                }
                current = new_input;
            },
            Next::Finish(output) => {
                proof {
                    assert(call_ensures(step, (before,), Next::<Input, Output>::Finish(output)));
                    assert(may_return(step, before, 0, output));
                    assert(may_return(step, input, 0 + rounds, output));
                    assert forall|fuel: nat| #[trigger]
                        halts_within(step, input, fuel) implies may_return(
                        step,
                        input,
                        fuel,
                        output,
                    ) by {
                        lemma_may_return_monotone(step, input, rounds, fuel, output);
                    }
                }
                return output;
            },
        }
    }
}

/// A recursion that ends within `fuel` calls ends within any larger number, with
/// the same output.
pub proof fn lemma_recursion_monotone<Input, Output>(
    logic: spec_fn(Input) -> Next<Input, Output>,
    input: Input,
    fuel: nat,
    more: nat,
)
    requires
        recursion(logic, input, fuel) is Some,
        fuel <= more,
    ensures
        recursion(logic, input, more) == recursion(logic, input, fuel),
    decreases fuel,
{
    if let Next::Recurse(new_input) = logic(input) {
        lemma_recursion_monotone(logic, new_input, (fuel - 1) as nat, (more - 1) as nat);
    }
}

/// A step function that implements `logic` halts wherever the direct recursion
/// on `logic` does, within the same number of rounds.
pub proof fn lemma_halts_where_recursion_ends<StepFn, Input, Output>(
    step: StepFn,
    logic: spec_fn(Input) -> Next<Input, Output>,
    domain: spec_fn(Input) -> bool,
    input: Input,
    fuel: nat,
) where StepFn: Fn(Input) -> Next<Input, Output>
    requires
        implements(step, logic, domain),
        domain(input),
        recursion(logic, input, fuel) is Some,
    ensures
        halts_within(step, input, fuel),
    decreases fuel,
{
    assert forall|next: Next<Input, Output>| #[trigger]
        call_ensures(step, (input,), next) implies match next {
        Next::Finish(_) => true,
        Next::Recurse(new_input) => fuel > 0 && halts_within(step, new_input, (fuel - 1) as nat),
    } by {
        assert(next == logic(input));
        if let Next::Recurse(new_input) = next {
            lemma_halts_where_recursion_ends(step, logic, domain, new_input, (fuel - 1) as nat);
        }
    }
}

/// The trampoline and the direct recursion agree: whatever a step function that
/// implements `logic` may return is the output of the direct recursion on
/// `logic`, wherever that recursion ends.
pub proof fn lemma_run_agrees_with_recursion<StepFn, Input, Output>(
    step: StepFn,
    logic: spec_fn(Input) -> Next<Input, Output>,
    domain: spec_fn(Input) -> bool,
    input: Input,
    fuel: nat,
    rounds: nat,
    output: Output,
) where StepFn: Fn(Input) -> Next<Input, Output>
    requires
        implements(step, logic, domain),
        domain(input),
        recursion(logic, input, fuel) is Some,
        may_return(step, input, rounds, output),
    ensures
        recursion(logic, input, fuel) == Some(output),
    decreases fuel,
{
    let next = choose|next: Next<Input, Output>| #[trigger]
        call_ensures(step, (input,), next) && match next {
            Next::Finish(last) => last == output,
            Next::Recurse(new_input) => rounds > 0 && may_return(
                step,
                new_input,
                (rounds - 1) as nat,
                output,
            ),
        };
    assert(next == logic(input));
    if let Next::Recurse(new_input) = next {
        lemma_run_agrees_with_recursion(
            step,
            logic,
            domain,
            new_input,
            (fuel - 1) as nat,
            (rounds - 1) as nat,
            output,
        );
    }
}

/// How a round of a fallible step function goes on: a failure finishes the
/// computation, as its result.
pub open spec fn settle<Input, Output, Failure>(
    round: Result<Next<Input, Result<Output, Failure>>, Failure>,
) -> Next<Input, Result<Output, Failure>> {
    match round {
        Ok(next) => next,
        Err(failure) => Next::Finish(Err(failure)),
    }
}

/// Started on `input`, the fallible `step` can be run round after round and
/// finishes or fails after at most `fuel` further rounds, whichever of its
/// permitted results it returns in each round.
pub open spec fn halts_within_res<StepFn, Input, Output, Failure>(
    step: StepFn,
    input: Input,
    fuel: nat,
) -> bool where StepFn: Fn(Input) -> Result<Next<Input, Result<Output, Failure>>, Failure>
    decreases fuel,
{
    &&& call_requires(step, (input,))
    &&& forall|round: Result<Next<Input, Result<Output, Failure>>, Failure>| #[trigger]
        call_ensures(step, (input,), round) ==> match settle(round) {
            Next::Finish(_) => true,
            Next::Recurse(new_input) => fuel > 0 && halts_within_res(
                step,
                new_input,
                (fuel - 1) as nat,
            ),
        }
}

/// Started on `input`, the fallible `step` may end with `outcome` after at most
/// `fuel` further rounds: by finishing with it, or by failing, which gives
/// `Err` of the failure.
pub open spec fn may_return_res<StepFn, Input, Output, Failure>(
    step: StepFn,
    input: Input,
    fuel: nat,
    outcome: Result<Output, Failure>,
) -> bool where StepFn: Fn(Input) -> Result<Next<Input, Result<Output, Failure>>, Failure>
    decreases fuel,
{
    exists|round: Result<Next<Input, Result<Output, Failure>>, Failure>| #[trigger]
        call_ensures(step, (input,), round) && match settle(round) {
            Next::Finish(last) => last == outcome,
            Next::Recurse(new_input) => fuel > 0 && may_return_res(
                step,
                new_input,
                (fuel - 1) as nat,
                outcome,
            ),
        }
}

/// What the fallible `step` may end with within `fuel` rounds, it may end with
/// within any larger number of rounds.
pub proof fn lemma_may_return_res_monotone<StepFn, Input, Output, Failure>(
    step: StepFn,
    input: Input,
    fuel: nat,
    more: nat,
    outcome: Result<Output, Failure>,
) where StepFn: Fn(Input) -> Result<Next<Input, Result<Output, Failure>>, Failure>
    requires
        may_return_res(step, input, fuel, outcome),
        fuel <= more,
    ensures
        may_return_res(step, input, more, outcome),
    decreases fuel,
{
    let round = choose|round: Result<Next<Input, Result<Output, Failure>>, Failure>| #[trigger]
        call_ensures(step, (input,), round) && match settle(round) {
            Next::Finish(last) => last == outcome,
            Next::Recurse(new_input) => fuel > 0 && may_return_res(
                step,
                new_input,
                (fuel - 1) as nat,
                outcome,
            ),
        };
    if let Next::Recurse(new_input) = settle(round) {
        lemma_may_return_res_monotone(
            step,
            new_input,
            (fuel - 1) as nat,
            (more - 1) as nat,
            outcome,
        );
    }
}

/// One round that recurses puts an outcome of the new input one round further
/// from the old one.
proof fn lemma_may_return_res_after_round<StepFn, Input, Output, Failure>(
    step: StepFn,
    input: Input,
    new_input: Input,
    fuel: nat,
    outcome: Result<Output, Failure>,
) where StepFn: Fn(Input) -> Result<Next<Input, Result<Output, Failure>>, Failure>
    requires
        call_ensures(
            step,
            (input,),
            Ok::<Next<Input, Result<Output, Failure>>, Failure>(Next::Recurse(new_input)),
        ),
        may_return_res(step, new_input, fuel, outcome),
    ensures
        may_return_res(step, input, fuel + 1, outcome),
{
}

/// Runs the fallible `step` on `input`, and again on each input it asks to
/// recurse on, until it finishes or fails. Returns what it finished with, or
/// `Err` of the failure; a failure ends the run at once. The run takes no more
/// rounds than any bound within which `step` is known to halt.
#[inline(always)]
pub fn run_res<StepFn, Input, Output, Failure>(step: StepFn, input: Input) -> (outcome: Result<
    Output,
    Failure,
>) where StepFn: Fn(Input) -> Result<Next<Input, Result<Output, Failure>>, Failure>
    requires
        exists|fuel: nat| halts_within_res(step, input, fuel),
    ensures
        forall|fuel: nat| #[trigger]
            halts_within_res(step, input, fuel) ==> may_return_res(step, input, fuel, outcome),
{
    let ghost mut left: nat = choose|fuel: nat| halts_within_res(step, input, fuel);
    let ghost mut rounds: nat = 0;
    let mut current = input;
    loop
        invariant
            halts_within_res(step, current, left),
            forall|fuel: nat| #[trigger]
                halts_within_res(step, input, fuel) ==> fuel >= rounds && halts_within_res(
                    step,
                    current,
                    (fuel - rounds) as nat,
                ),
            forall|fuel: nat, outcome: Result<Output, Failure>| #[trigger]
                may_return_res(step, current, fuel, outcome) ==> may_return_res(
                    step,
                    input,
                    fuel + rounds,
                    outcome,
                ),
        decreases left,
    {
        let ghost before = current;
        let round = step(current);
        assert(call_ensures(step, (before,), round));
        match round {
            Ok(Next::Recurse(new_input)) => {
                proof {
                    assert forall|fuel: nat, outcome: Result<Output, Failure>| #[trigger]
                        may_return_res(step, new_input, fuel, outcome) implies may_return_res(
                        step,
                        input,
                        fuel + (rounds + 1),
                        outcome,
                    ) by {
                        lemma_may_return_res_after_round(step, before, new_input, fuel, outcome);
                        assert(fuel + 1 + rounds == fuel + (rounds + 1));
                    }
                    assert forall|fuel: nat| #[trigger]
                        halts_within_res(step, input, fuel) implies fuel >= rounds + 1
                        && halts_within_res(step, new_input, (fuel - (rounds + 1)) as nat) by {
                        assert(halts_within_res(step, before, (fuel - rounds) as nat));
                        assert(((fuel - rounds) as nat - 1) as nat == (fuel - (rounds + 1)) as nat);
                    }
                    left = (left - 1) as nat;
                    rounds = rounds + 1;
                }
                current = new_input;
            },
            Ok(Next::Finish(outcome)) => {
                proof {
                    assert(may_return_res(step, before, 0, outcome));
                    assert(may_return_res(step, input, 0 + rounds, outcome));
                    assert forall|fuel: nat| #[trigger]
                        halts_within_res(step, input, fuel) implies may_return_res(
                        step,
                        input,
                        fuel,
                        outcome,
                    ) by {
                        lemma_may_return_res_monotone(step, input, rounds, fuel, outcome);
                    }
                }
                return outcome;
            },
            Err(failure) => {
                proof {
                    let outcome = Err::<Output, Failure>(failure);
                    assert(may_return_res(step, before, 0, outcome));
                    assert(may_return_res(step, input, 0 + rounds, outcome));
                    assert forall|fuel: nat| #[trigger]
                        halts_within_res(step, input, fuel) implies may_return_res(
                        step,
                        input,
                        fuel,
                        outcome,
                    ) by {
                        lemma_may_return_res_monotone(step, input, rounds, fuel, outcome);
                    }
                }
                return Err(failure);
            },
        }
    }
}

/// On every input that satisfies `domain`, the fallible `step` may be called,
/// what it returns goes on as `logic` says, and a recursion never leaves
/// `domain`.
pub open spec fn implements_res<StepFn, Input, Output, Failure>(
    step: StepFn,
    logic: spec_fn(Input) -> Next<Input, Result<Output, Failure>>,
    domain: spec_fn(Input) -> bool,
) -> bool where StepFn: Fn(Input) -> Result<Next<Input, Result<Output, Failure>>, Failure> {
    &&& forall|input: Input| #[trigger] domain(input) ==> call_requires(step, (input,))
    &&& forall|input: Input, round: Result<Next<Input, Result<Output, Failure>>, Failure>|
        domain(input) && #[trigger] call_ensures(step, (input,), round) ==> settle(round) == logic(
            input,
        )
    &&& forall|input: Input| #[trigger]
        domain(input) ==> (logic(input) matches Next::Recurse(new_input) ==> domain(new_input))
}

/// A fallible step function that implements `logic` halts wherever the direct
/// recursion on `logic` does, within the same number of rounds.
pub proof fn lemma_halts_res_where_recursion_ends<StepFn, Input, Output, Failure>(
    step: StepFn,
    logic: spec_fn(Input) -> Next<Input, Result<Output, Failure>>,
    domain: spec_fn(Input) -> bool,
    input: Input,
    fuel: nat,
) where StepFn: Fn(Input) -> Result<Next<Input, Result<Output, Failure>>, Failure>
    requires
        implements_res(step, logic, domain),
        domain(input),
        recursion(logic, input, fuel) is Some,
    ensures
        halts_within_res(step, input, fuel),
    decreases fuel,
{
    assert forall|round: Result<Next<Input, Result<Output, Failure>>, Failure>| #[trigger]
        call_ensures(step, (input,), round) implies match settle(round) {
        Next::Finish(_) => true,
        Next::Recurse(new_input) => fuel > 0 && halts_within_res(
            step,
            new_input,
            (fuel - 1) as nat,
        ),
    } by {
        assert(settle(round) == logic(input));
        if let Next::Recurse(new_input) = settle(round) {
            lemma_halts_res_where_recursion_ends(
                step,
                logic,
                domain,
                new_input,
                (fuel - 1) as nat,
            );
        }
    }
}

/// The fallible trampoline and the direct recursion agree: whatever a fallible
/// step function that implements `logic` may end with is the output of the
/// direct recursion on `logic`, wherever that recursion ends.
pub proof fn lemma_run_res_agrees_with_recursion<StepFn, Input, Output, Failure>(
    step: StepFn,
    logic: spec_fn(Input) -> Next<Input, Result<Output, Failure>>,
    domain: spec_fn(Input) -> bool,
    input: Input,
    fuel: nat,
    rounds: nat,
    outcome: Result<Output, Failure>,
) where StepFn: Fn(Input) -> Result<Next<Input, Result<Output, Failure>>, Failure>
    requires
        implements_res(step, logic, domain),
        domain(input),
        recursion(logic, input, fuel) is Some,
        may_return_res(step, input, rounds, outcome),
    ensures
        recursion(logic, input, fuel) == Some(outcome),
    decreases fuel,
{
    let round = choose|round: Result<Next<Input, Result<Output, Failure>>, Failure>| #[trigger]
        call_ensures(step, (input,), round) && match settle(round) {
            Next::Finish(last) => last == outcome,
            Next::Recurse(new_input) => rounds > 0 && may_return_res(
                step,
                new_input,
                (rounds - 1) as nat,
                outcome,
            ),
        };
    assert(settle(round) == logic(input));
    if let Next::Recurse(new_input) = settle(round) {
        lemma_run_res_agrees_with_recursion(
            step,
            logic,
            domain,
            new_input,
            (fuel - 1) as nat,
            (rounds - 1) as nat,
            outcome,
        );
    }
}

} // verus!
