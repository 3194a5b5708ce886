use std::cell::Cell;
use std::rc::Rc;
use tailcall::runtime::{call, done, Action};
use tailcall::trampoline::{run, run_res, Finish, Next, Recurse};

/// Sum of the squares of `1..=depth`, modulo a prime, by ordinary recursion.
fn reference(accumulator: u64, depth: u64) -> u64 {
    if depth == 0 {
        accumulator
    } else {
        reference((accumulator + depth * depth) % 1_000_003, depth - 1)
    }
}

fn sum_step((accumulator, depth): (u64, u64)) -> Next<(u64, u64), u64> {
    if depth == 0 {
        Finish(accumulator)
    } else {
        Recurse(((accumulator + depth * depth) % 1_000_003, depth - 1))
    }
}

fn deferred_sum_step((accumulator, depth): (u64, u64)) -> Action<'static, (u64, u64), u64> {
    if depth == 0 {
        done(accumulator)
    } else {
        call(move || ((accumulator + depth * depth) % 1_000_003, depth - 1))
    }
}

#[test]
fn run_agrees_with_recursion_up_to_depth_10000() {
    let mut depth = 0;
    while depth <= 10_000 {
        assert_eq!(run(sum_step, (0, depth)), reference(0, depth));
        depth += 97;
    }
    assert_eq!(run(sum_step, (0, 10_000)), reference(0, 10_000));
    assert_eq!(run(sum_step, (0, 10_000)), 334_854);
}

#[test]
fn run_res_agrees_with_recursion_up_to_depth_10000() {
    let step = |state: (u64, u64)| -> Result<Next<(u64, u64), Result<u64, String>>, String> {
        Ok(match sum_step(state) {
            Recurse(next) => Recurse(next),
            Finish(output) => Finish(Ok(output)),
        })
    };
    let mut depth = 0;
    while depth <= 10_000 {
        assert_eq!(run_res(step, (0, depth)), Ok(reference(0, depth)));
        depth += 97;
    }
    assert_eq!(run_res(step, (0, 10_000)), Ok(reference(0, 10_000)));
}

#[test]
fn thunk_runtime_agrees_with_recursion_up_to_depth_10000() {
    let mut depth = 0;
    while depth <= 10_000 {
        let value = tailcall::runtime::run(deferred_sum_step((0, depth)), deferred_sum_step);
        assert_eq!(value, reference(0, depth));
        depth += 97;
    }
    let value = tailcall::runtime::run(deferred_sum_step((0, 10_000)), deferred_sum_step);
    assert_eq!(value, reference(0, 10_000));
}

#[test]
fn a_million_rounds_on_the_trampoline() {
    let rounds = run(
        |(done, left): (u64, u64)| if left == 0 { Finish(done) } else { Recurse((done + 1, left - 1)) },
        (0, 1_000_000),
    );
    assert_eq!(rounds, 1_000_000);
}

#[test]
fn a_million_thunks_in_a_row() {
    fn count((seen, left): (u64, u64)) -> Action<'static, (u64, u64), u64> {
        if left == 0 {
            done(seen)
        } else {
            call(move || (seen + 1, left - 1))
        }
    }
    assert_eq!(tailcall::runtime::run(count((0, 1_000_000)), count), 1_000_000);
}

#[test]
fn parity_of_a_million_by_mutual_recursion() {
    fn is_even(x: u64) -> bool {
        run(parity, (true, x))
    }
    fn is_odd(x: u64) -> bool {
        run(parity, (false, x))
    }
    /// `for_even` tells which of the two functions is being called.
    fn parity((for_even, x): (bool, u64)) -> Next<(bool, u64), bool> {
        if x == 0 {
            Finish(for_even)
        } else {
            Recurse((!for_even, x - 1))
        }
    }
    let x = 1_000_000;
    assert_eq!(is_even(x), x % 2 == 0);
    assert_eq!(is_odd(x), x % 2 != 0);
    assert!(is_even(x));
    assert!(!is_odd(x));
    assert!(is_odd(x + 1));
}

#[test]
fn factorial_by_accumulator() {
    fn factorial(input: u64) -> u64 {
        run(
            |(accumulator, input): (u64, u64)| {
                if input == 0 {
                    Finish(accumulator)
                } else {
                    Recurse((accumulator * input, input - 1))
                }
            },
            (1, input),
        )
    }
    assert_eq!(factorial(0), 1);
    assert_eq!(factorial(5), 120);
}

#[test]
fn a_failure_ends_the_run_at_once() {
    let rounds = Cell::new(0u32);
    let outcome: Result<u32, String> = run_res(
        |left: u32| {
            rounds.set(rounds.get() + 1);
            if left == 7 {
                Err(String::from("seven"))
            } else if left == 0 {
                Ok(Finish(Ok(0)))
            } else {
                Ok(Recurse(left - 1))
            }
        },
        10,
    );
    assert_eq!(outcome, Err(String::from("seven")));
    assert_eq!(rounds.get(), 4);
}

#[test]
fn a_failure_in_the_first_round() {
    let outcome: Result<u32, &str> =
        run_res(|_: u32| -> Result<Next<u32, Result<u32, &str>>, &str> { Err("no") }, 3);
    assert_eq!(outcome, Err("no"));
}

#[test]
fn run_res_hands_back_what_the_step_finished_with() {
    let failed: Result<u32, &str> =
        run_res(|_: u32| -> Result<Next<u32, Result<u32, &str>>, &str> { Ok(Finish(Err("late"))) }, 3);
    assert_eq!(failed, Err("late"));

    let fine: Result<u32, &str> = run_res(
        |left: u32| -> Result<Next<u32, Result<u32, &str>>, &str> {
            if left == 0 {
                Ok(Finish(Ok(11)))
            } else {
                Ok(Recurse(left - 1))
            }
        },
        3,
    );
    assert_eq!(fine, Ok(11));
}

#[test]
fn an_early_failure_value_skips_the_remaining_thunks() {
    let calls = Rc::new(Cell::new(0u32));
    let counter = calls.clone();
    let step = move |left: u32| -> Action<'static, u32, Option<u32>> {
        if left == 7 {
            return done(None);
        }
        if left == 0 {
            return done(Some(0));
        }
        let counter = counter.clone();
        call(move || {
            counter.set(counter.get() + 1);
            left - 1
        })
    };
    let outcome = tailcall::runtime::run(step(10), step);
    assert_eq!(outcome, None);
    assert_eq!(calls.get(), 3);
}

/// Counts how often it is dropped.
struct Tally {
    drops: Rc<Cell<usize>>,
}

impl Drop for Tally {
    fn drop(&mut self) {
        self.drops.set(self.drops.get() + 1);
    }
}

/// A second capture type, of another size, that counts its drops as well.
struct WideTally {
    drops: Rc<Cell<usize>>,
    weight: [u16; 4],
}

impl Drop for WideTally {
    fn drop(&mut self) {
        self.drops.set(self.drops.get() + 1);
    }
}

#[test]
fn thunks_of_different_captures_follow_each_other() {
    let narrow = Rc::new(Cell::new(0usize));
    let wide = Rc::new(Cell::new(0usize));
    let live = Rc::new(Cell::new(0isize));
    let most_live = Rc::new(Cell::new(0isize));

    let (narrow_drops, wide_drops) = (narrow.clone(), wide.clone());
    let (alive, peak) = (live.clone(), most_live.clone());
    let step = move |left: u32| -> Action<'static, u32, u32> {
        if left == 0 {
            return done(99);
        }
        alive.set(alive.get() + 1);
        peak.set(peak.get().max(alive.get()));
        let alive = alive.clone();
        if left % 2 == 0 {
            let tally = Tally { drops: narrow_drops.clone() };
            call(move || {
                drop(tally);
                alive.set(alive.get() - 1);
                left - 1
            })
        } else {
            let tally = WideTally { drops: wide_drops.clone(), weight: [1, 2, 3, 4] };
            call(move || {
                let weight: u16 = tally.weight.iter().sum();
                drop(tally);
                alive.set(alive.get() - 1);
                left - u32::from(weight) / 10
            })
        }
    };

    let value = tailcall::runtime::run(step(10), step);

    assert_eq!(value, 99);
    assert_eq!(narrow.get(), 5);
    assert_eq!(wide.get(), 5);
    assert_eq!(live.get(), 0);
    assert_eq!(most_live.get(), 1);
}

#[test]
fn an_action_dropped_unrun_releases_its_captures_once() {
    let drops = Rc::new(Cell::new(0usize));
    let tally = Tally { drops: drops.clone() };
    let action: Action<'static, u8, u8> = call(move || {
        let seen = tally.drops.get();
        seen as u8
    });
    assert_eq!(drops.get(), 0);
    drop(action);
    assert_eq!(drops.get(), 1);
}
