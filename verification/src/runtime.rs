//! A trampoline over deferred calls.
//!
//! Here a step of a tail-recursive computation answers with an [`Action`]:
//! either the final value, or a [`Thunk`] that, once called, produces the
//! arguments of the next call. [`run`] calls one thunk after the other in a
//! single loop and hands what each produced to the step function, so that no
//! two thunks are ever alive together and the depth of the recursion costs no
//! stack. Functions that call each other in tail position share one argument
//! type and one step function that tells them apart.

use vstd::prelude::*;
use crate::slot::fits;
use crate::thunk::Thunk;
use crate::trampoline::{recursion, Next};

verus! {

/// What one step answers: the computation is over, or it goes on.
#[verifier::reject_recursive_types(Args)]
pub enum Action<'a, Args, T> {
    /// The computation is over, with this value.
    Done(T),
    /// The computation goes on with the call whose arguments this thunk
    /// produces.
    Call(Thunk<'a, Args>),
}

/// The action that ends a computation with `value`.
pub fn done<'a, Args, T>(value: T) -> (action: Action<'a, Args, T>)
    ensures
        action == Action::<Args, T>::Done(value),
{
    Action::Done(value)
}

/// The action that goes on with the call whose arguments `fn_once` produces.
pub fn call<'a, Args, T, F>(fn_once: F) -> (action: Action<'a, Args, T>) where
    F: FnOnce() -> Args + 'a,

    requires
        fits::<F>(),
    ensures
        action matches Action::Call(thunk) && {
            &&& thunk.callable() <==> call_requires(fn_once, ())
            &&& forall|args: Args| thunk.yields(args) <==> call_ensures(fn_once, (), args)
        },
{
    Action::Call(Thunk::new(fn_once))
}

/// The action that goes on with the call whose arguments `fn_once` produces, if
/// what `fn_once` captured fits a slot; `fn_once` itself, untouched, if it does
/// not.
pub fn try_call<'a, Args, T, F>(fn_once: F) -> (outcome: Result<Action<'a, Args, T>, F>) where
    F: FnOnce() -> Args + 'a,

    ensures
        outcome is Ok <==> fits::<F>(),
        outcome matches Ok(action) ==> action matches Action::Call(thunk) && {
            &&& thunk.callable() <==> call_requires(fn_once, ())
            &&& forall|args: Args| thunk.yields(args) <==> call_ensures(fn_once, (), args)
        },
        outcome matches Err(refused) ==> refused == fn_once,
{
    match Thunk::try_new(fn_once) {
        Ok(thunk) => Ok(Action::Call(thunk)),
        Err(refused) => Err(refused),
    }
}

/// From `action` on, every thunk met may be called and `step` may be run on
/// what it produces, and the computation is over after at most `fuel` calls of
/// a thunk, whichever of their permitted results the thunks and `step` give.
pub open spec fn settles_within<'a, Args, T, StepFn>(
    action: Action<'a, Args, T>,
    step: StepFn,
    fuel: nat,
) -> bool where StepFn: Fn(Args) -> Action<'a, Args, T>
    decreases fuel,
{
    match action {
        Action::Done(_) => true,
        Action::Call(thunk) => {
            &&& fuel > 0
            &&& thunk.callable()
            &&& forall|args: Args| #[trigger] thunk.yields(args) ==> call_requires(step, (args,))
            &&& forall|args: Args, next: Action<'a, Args, T>|
                thunk.yields(args) && #[trigger] call_ensures(step, (args,), next)
                    ==> settles_within(next, step, (fuel - 1) as nat)
        },
    }
}

/// From `action` on, the computation may end with `value` after at most `fuel`
/// calls of a thunk.
pub open spec fn may_yield<'a, Args, T, StepFn>(
    action: Action<'a, Args, T>,
    step: StepFn,
    fuel: nat,
    value: T,
) -> bool where StepFn: Fn(Args) -> Action<'a, Args, T>
    decreases fuel,
{
    match action {
        Action::Done(last) => last == value,
        Action::Call(thunk) => fuel > 0 && exists|args: Args, next: Action<'a, Args, T>|
            thunk.yields(args) && #[trigger] call_ensures(step, (args,), next) && may_yield(
                next,
                step,
                (fuel - 1) as nat,
                value,
            ),
    }
}

/// What a computation may end with within `fuel` calls of a thunk, it may end
/// with within any larger number of calls.
pub proof fn lemma_may_yield_monotone<'a, Args, T, StepFn>(
    action: Action<'a, Args, T>,
    step: StepFn,
    fuel: nat,
    more: nat,
    value: T,
) where StepFn: Fn(Args) -> Action<'a, Args, T>
    requires
        may_yield(action, step, fuel, value),
        fuel <= more,
    ensures
        may_yield(action, step, more, value),
    decreases fuel,
{
    if let Action::Call(thunk) = action {
        let (args, next) = choose|args: Args, next: Action<'a, Args, T>|
            thunk.yields(args) && #[trigger] call_ensures(step, (args,), next) && may_yield(
                next,
                step,
                (fuel - 1) as nat,
                value,
            );
        lemma_may_yield_monotone(next, step, (fuel - 1) as nat, (more - 1) as nat, value);
    }
}

/// Calling a thunk and running the step function on what it produced puts an
/// outcome of the new action one call further from the old one.
proof fn lemma_may_yield_after_call<'a, Args, T, StepFn>(
    thunk: Thunk<'a, Args>,
    args: Args,
    next: Action<'a, Args, T>,
    step: StepFn,
    fuel: nat,
    value: T,
) where StepFn: Fn(Args) -> Action<'a, Args, T>
    requires
        thunk.yields(args),
        call_ensures(step, (args,), next),
        may_yield(next, step, fuel, value),
    ensures
        may_yield(Action::<Args, T>::Call(thunk), step, fuel + 1, value),
{
}

/// Drives a computation to its end. While `action` asks for a call, its thunk
/// is called and `step` is run on the arguments it produced, which gives the
/// next action; the value of the first `Done` is returned. The run calls no
/// more thunks than any bound within which the computation is known to settle.
pub fn run<'a, Args, T, StepFn>(action: Action<'a, Args, T>, step: StepFn) -> (value: T) where
    StepFn: Fn(Args) -> Action<'a, Args, T>,

    requires
        exists|fuel: nat| settles_within(action, step, fuel),
    ensures
        forall|fuel: nat| #[trigger]
            settles_within(action, step, fuel) ==> may_yield(action, step, fuel, value),
{
    let ghost mut left: nat = choose|fuel: nat| settles_within(action, step, fuel);
    let ghost mut calls: nat = 0;
    let mut current = action;
    loop
        invariant
            settles_within(current, step, left),
            forall|fuel: nat| #[trigger]
                settles_within(action, step, fuel) ==> fuel >= calls && settles_within(
                    current,
                    step,
                    (fuel - calls) as nat,
                ),
            forall|fuel: nat, value: T| #[trigger]
                may_yield(current, step, fuel, value) ==> may_yield(
                    action,
                    step,
                    fuel + calls,
                    value,
                ),
        decreases left,
    {
        let ghost before = current;
        match current {
            Action::Call(thunk) => {
                let ghost called = thunk;
                let args = thunk.call();
                let next = step(args);
                proof {
                    assert forall|fuel: nat, value: T| #[trigger]
                        may_yield(next, step, fuel, value) implies may_yield(
                        action,
                        step,
                        fuel + (calls + 1),
                        value,
                    ) by {
                        lemma_may_yield_after_call(called, args, next, step, fuel, value);
                        assert(fuel + 1 + calls == fuel + (calls + 1));
                    }
                    assert forall|fuel: nat| #[trigger]
                        settles_within(action, step, fuel) implies fuel >= calls + 1
                        && settles_within(next, step, (fuel - (calls + 1)) as nat) by {
                        assert(settles_within(before, step, (fuel - calls) as nat));
                        assert(((fuel - calls) as nat - 1) as nat == (fuel - (calls + 1)) as nat);
                    }
                    left = (left - 1) as nat;
                    calls = calls + 1;
                }
                current = next;
            },
            Action::Done(value) => {
                proof {
                    assert(may_yield(before, step, 0, value));
                    assert(may_yield(action, step, 0 + calls, value));
                    assert forall|fuel: nat| #[trigger]
                        settles_within(action, step, fuel) implies may_yield(
                        action,
                        step,
                        fuel,
                        value,
                    ) by {
                        lemma_may_yield_monotone(action, step, calls, fuel, value);
                    }
                }
                return value;
            },
        }
    }
}

/// `action` stands for `what`: a finished computation for its output, a pending
/// call for its arguments, which its thunk can be called for and is sure to
/// produce.
pub open spec fn stands_for<'a, Args, T>(action: Action<'a, Args, T>, what: Next<Args, T>) -> bool {
    match action {
        Action::Done(value) => what == Next::<Args, T>::Finish(value),
        Action::Call(thunk) => {
            &&& what is Recurse
            &&& thunk.callable()
            &&& forall|args: Args| #[trigger] thunk.yields(args) ==> what == Next::<Args, T>::Recurse(args)
        },
    }
}

/// On all arguments that satisfy `domain`, `step` may be run and answers with
/// an action that stands for what `logic` says, and a recursion never leaves
/// `domain`.
pub open spec fn follows<'a, Args, T, StepFn>(
    step: StepFn,
    logic: spec_fn(Args) -> Next<Args, T>,
    domain: spec_fn(Args) -> bool,
) -> bool where StepFn: Fn(Args) -> Action<'a, Args, T> {
    &&& forall|args: Args| #[trigger] domain(args) ==> call_requires(step, (args,))
    &&& forall|args: Args, next: Action<'a, Args, T>|
        domain(args) && #[trigger] call_ensures(step, (args,), next) ==> stands_for(
            next,
            logic(args),
        )
    &&& forall|args: Args| #[trigger]
        domain(args) ==> (logic(args) matches Next::Recurse(new_args) ==> domain(new_args))
}

/// Where the direct recursion on `logic` leads from `what`: to the output that
/// `what` already holds, or to the result of the call that it asks for, if that
/// is at most `fuel` calls deep.
pub open spec fn outcome<Args, T>(
    logic: spec_fn(Args) -> Next<Args, T>,
    what: Next<Args, T>,
    fuel: nat,
) -> Option<T> {
    match what {
        Next::Finish(value) => Some(value),
        Next::Recurse(args) => recursion(logic, args, fuel),
    }
}

/// With a step function that follows `logic`, a computation settles wherever
/// the direct recursion on `logic` ends: within one thunk call more than the
/// recursion is deep.
pub proof fn lemma_settles_where_recursion_ends<'a, Args, T, StepFn>(
    action: Action<'a, Args, T>,
    step: StepFn,
    logic: spec_fn(Args) -> Next<Args, T>,
    domain: spec_fn(Args) -> bool,
    what: Next<Args, T>,
    fuel: nat,
) where StepFn: Fn(Args) -> Action<'a, Args, T>
    requires
        follows(step, logic, domain),
        stands_for(action, what),
        what matches Next::Recurse(args) ==> domain(args),
        outcome(logic, what, fuel) is Some,
    ensures
        settles_within(action, step, fuel + 1),
    decreases fuel,
{
    if let Action::Call(thunk) = action {
        let pending = what->Recurse_0;
        assert forall|args: Args, next: Action<'a, Args, T>|
            thunk.yields(args) && #[trigger] call_ensures(step, (args,), next) implies settles_within(
            next,
            step,
            fuel,
        ) by {
            assert(args == pending);
            assert(stands_for(next, logic(args)));
            if let Next::Recurse(new_args) = logic(args) {
                lemma_settles_where_recursion_ends(
                    next,
                    step,
                    logic,
                    domain,
                    logic(args),
                    (fuel - 1) as nat,
                );
            }
        }
    }
}

/// The thunk runtime and the direct recursion agree: with a step function that
/// follows `logic`, whatever value a computation may end with is the one that
/// the direct recursion on `logic` gives, wherever that recursion ends.
pub proof fn lemma_run_agrees_with_recursion<'a, Args, T, StepFn>(
    action: Action<'a, Args, T>,
    step: StepFn,
    logic: spec_fn(Args) -> Next<Args, T>,
    domain: spec_fn(Args) -> bool,
    what: Next<Args, T>,
    fuel: nat,
    calls: nat,
    value: T,
) where StepFn: Fn(Args) -> Action<'a, Args, T>
    requires
        follows(step, logic, domain),
        stands_for(action, what),
        what matches Next::Recurse(args) ==> domain(args),
        outcome(logic, what, fuel) is Some,
        may_yield(action, step, calls, value),
    ensures
        outcome(logic, what, fuel) == Some(value),
    decreases fuel,
{
    if let Action::Call(thunk) = action {
        let (args, next) = choose|args: Args, next: Action<'a, Args, T>|
            thunk.yields(args) && #[trigger] call_ensures(step, (args,), next) && may_yield(
                next,
                step,
                (calls - 1) as nat,
                value,
            );
        assert(what == Next::<Args, T>::Recurse(args));
        assert(stands_for(next, logic(args)));
        if let Next::Recurse(new_args) = logic(args) {
            lemma_run_agrees_with_recursion(
                next,
                step,
                logic,
                domain,
                logic(args),
                (fuel - 1) as nat,
                (calls - 1) as nat,
                value,
            );
        } else {
            assert(next is Done);
        }
    }
}

} // verus!
