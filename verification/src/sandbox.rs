//! The integer side of the physics sandbox: how many steps and benchmark
//! iterations a request may ask for, and which steps of a run are sampled.
use vstd::prelude::*;

verus! {

/// The fewest steps a simulation runs.
pub const MIN_STEPS: usize = 20;

/// The most steps a simulation runs.
pub const MAX_STEPS: usize = 50000;

/// The fewest runs a benchmark makes.
pub const MIN_ITERATIONS: usize = 1;

/// The most runs a benchmark makes.
pub const MAX_ITERATIONS: usize = 300;

/// `v` clamped into `lo..=hi`.
pub open spec fn clamped(v: int, lo: int, hi: int) -> int {
    if v < lo {
        lo
    } else if v > hi {
        hi
    } else {
        v
    }
}

/// The number of steps a simulation runs for a requested number.
pub fn clamp_steps(steps: usize) -> (r: usize)
    ensures
        r == clamped(steps as int, MIN_STEPS as int, MAX_STEPS as int),
{
    if steps < MIN_STEPS {
        MIN_STEPS
    } else if steps > MAX_STEPS {
        MAX_STEPS
    } else {
        steps
    }
}

/// The number of runs a benchmark makes for a requested number.
pub fn clamp_iterations(iterations: usize) -> (r: usize)
    ensures
        r == clamped(iterations as int, MIN_ITERATIONS as int, MAX_ITERATIONS as int),
{
    if iterations < MIN_ITERATIONS {
        MIN_ITERATIONS
    } else if iterations > MAX_ITERATIONS {
        MAX_ITERATIONS
    } else {
        iterations
    }
}

/// The spacing of samples: a ninetieth of the run, at least one step.
pub open spec fn stride_of(steps: int) -> int {
    if steps / 90 >= 1 {
        steps / 90
    } else {
        1
    }
}

/// The spacing of samples over a run of `steps` steps.
pub fn sample_stride(steps: usize) -> (r: usize)
    ensures
        r == stride_of(steps as int),
        r >= 1,
{
    let s = steps / 90;
    if s >= 1 {
        s
    } else {
        1
    }
}

/// Whether step `step` of a run is sampled: every stride-th step, and the
/// last one.
pub open spec fn sampled(step: int, stride: int, steps: int) -> bool {
    step % stride == 0 || step + 1 == steps
}

/// Whether step `step` of a run of `steps` steps is sampled.
pub fn is_sample_step(step: usize, stride: usize, steps: usize) -> (r: bool)
    requires
        stride >= 1,
        step < steps,
    ensures
        r == sampled(step as int, stride as int, steps as int),
{
    step % stride == 0 || step + 1 == steps
}

/// The steps of a run that are sampled, in order: the first step and the
/// last are always among them.
pub proof fn lemma_first_and_last_sampled(steps: int)
    requires
        steps >= 1,
    ensures
        sampled(0, stride_of(steps), steps),
        sampled(steps - 1, stride_of(steps), steps),
{
    assert(0int % stride_of(steps) == 0) by (nonlinear_arith)
        requires stride_of(steps) >= 1;
}

} // verus!
