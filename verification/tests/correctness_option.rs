use tailcall::runtime::{call, done, Action};
use tailcall::trampoline::{run, Finish, Recurse};

/// Factorial with its arguments and result wrapped in an `Option`, on the
/// step-function trampoline.
fn factorial(input: u64) -> Option<u64> {
    fn factorial_inner(accumulator: Option<u64>, input: Option<u64>) -> Option<u64> {
        run(
            |(accumulator, input): (Option<u64>, Option<u64>)| {
                let inp = match input {
                    Some(inp) => inp,
                    None => return Finish(None),
                };
                let acc = match accumulator {
                    Some(acc) => acc,
                    None => return Finish(None),
                };
                if inp > 0 {
                    Recurse((Some(acc * inp), Some(inp - 1)))
                } else {
                    Finish(Some(acc))
                }
            },
            (accumulator, input),
        )
    }

    factorial_inner(Some(1), Some(input))
}

type Pending = (Option<u64>, Option<u64>);

/// The same factorial on the thunk runtime.
fn deferred_factorial(input: u64) -> Option<u64> {
    fn factorial_inner((accumulator, input): Pending) -> Action<'static, Pending, Option<u64>> {
        let inp = match input {
            Some(inp) => inp,
            None => return done(None),
        };
        let acc = match accumulator {
            Some(acc) => acc,
            None => return done(None),
        };
        if inp > 0 {
            call(move || (Some(acc * inp), Some(inp - 1)))
        } else {
            done(Some(acc))
        }
    }

    tailcall::runtime::run(factorial_inner((Some(1), Some(input))), factorial_inner)
}

#[test]
fn factorial_option_runs() {
    assert_eq!(factorial(0).unwrap(), 1);
    assert_eq!(factorial(1).unwrap(), 1);
    assert_eq!(factorial(2).unwrap(), 2);
    assert_eq!(factorial(3).unwrap(), 6);
    assert_eq!(factorial(4).unwrap(), 24);
}

#[test]
fn correctness_option_factorial_option_runs() {
    assert_eq!(deferred_factorial(0).unwrap(), 1);
    assert_eq!(deferred_factorial(1).unwrap(), 1);
    assert_eq!(deferred_factorial(2).unwrap(), 2);
    assert_eq!(deferred_factorial(3).unwrap(), 6);
    assert_eq!(deferred_factorial(4).unwrap(), 24);
}

#[test]
fn a_missing_argument_ends_the_run_with_none() {
    let outcome: Option<u64> = run(
        |(accumulator, input): (Option<u64>, Option<u64>)| match (accumulator, input) {
            (Some(acc), Some(inp)) if inp > 0 => Recurse((Some(acc * inp), None)),
            (Some(acc), Some(_)) => Finish(Some(acc)),
            _ => Finish(None),
        },
        (Some(1), Some(3)),
    );
    assert_eq!(outcome, None);
}
