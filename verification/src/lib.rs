//! Tail calls without stack growth.
//!
//! A tail-recursive computation, also one that spans several functions calling
//! each other, is run as a loop over its steps, so that its depth costs no
//! stack. Two engines are offered:
//!
//! - [`trampoline`]: a step function maps the current arguments to the next
//!   ones or to the output, and [`trampoline::run`] repeats it.
//! - [`runtime`]: a step answers with an [`runtime::Action`] that may hold a
//!   [`thunk::Thunk`], a deferred call stored in a fixed-capacity
//!   [`slot::Slot`], and [`runtime::run`] calls one thunk after the other.
//!
//! Every function is verified against its contract. The contracts speak of
//! what a step function or closure may do through its own precondition and
//! postcondition, and of the direct recursion that the engines stand in for.

pub mod runtime;
pub mod slot;
pub mod thunk;
pub mod trampoline;
