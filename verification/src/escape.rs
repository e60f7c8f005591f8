//! The escape-time evaluator's decision rule.
//!
//! The Mandelbrot recurrence z <- z^2 + c runs over floating-point
//! complex values, which the caller owns. At each step the caller tests
//! whether |z|^2 has exceeded the escape threshold 4 and hands the verified
//! core that one bit; the core decides whether the point has escaped (and
//! after how many completed iterations), will never be decided within the
//! budget, or needs another step. The decision rule is exact: a point
//! escapes at the first iteration, strictly below the budget, whose
//! threshold test fires; if no test fires within the budget, the point is
//! presumed in the set ("no escape"). A budget of zero yields "no escape"
//! immediately, and a test that lands exactly on the threshold does not
//! count as an escape (the caller's comparison is strict).

use vstd::prelude::*;

verus! {

/// What the evaluator concludes after seeing one threshold test.
#[derive(Clone, Copy, PartialEq, Eq, Structural, Debug)]
pub enum EscapeStep {
    /// The orbit left the escape radius after this many completed
    /// iterations.
    Escaped(u32),
    /// The budget is exhausted without an escape.
    NoEscape,
    /// Undecided: iterate once more and test again.
    Continue,
}

/// One step of the evaluator: after `completed` iterations out of
/// `budget`, with the caller's strict threshold test `exceeds`, decide the
/// outcome or ask for another iteration.
pub fn escape_decision(completed: u32, budget: u32, exceeds: bool) -> (r: EscapeStep)
    ensures
        completed >= budget ==> r == EscapeStep::NoEscape,
        completed < budget && exceeds ==> r == EscapeStep::Escaped(completed),
        completed < budget && !exceeds ==> r == EscapeStep::Continue,
{
    if completed >= budget {
        EscapeStep::NoEscape
    } else if exceeds {
        EscapeStep::Escaped(completed)
    } else {
        EscapeStep::Continue
    }
}

/// The index of the first threshold test that fires strictly below the
/// budget, scanning from `from`; `None` when no test fires in time. A test
/// at or beyond the end of the trace is treated as never firing.
pub open spec fn first_escape_from(tests: Seq<bool>, budget: nat, from: nat) -> Option<nat>
    decreases budget - from,
{
    if from >= budget {
        None
    } else if from < tests.len() && tests[from as int] {
        Some(from)
    } else {
        first_escape_from(tests, budget, (from + 1) as nat)
    }
}

/// The evaluator's result over a whole trace of threshold tests.
pub open spec fn first_escape(tests: Seq<bool>, budget: nat) -> Option<nat> {
    first_escape_from(tests, budget, 0)
}

/// An executable `Option<u32>` result seen as the mathematical one.
pub open spec fn escape_count(r: Option<u32>) -> Option<nat> {
    match r {
        Some(i) => Some(i as nat),
        None => None,
    }
}

/// Run the evaluator over a precomputed trace of threshold tests: the
/// result is exactly the first test that fires within the budget.
pub fn escape_result(tests: &Vec<bool>, budget: u32) -> (r: Option<u32>)
    requires
        tests@.len() >= budget,
    ensures
        escape_count(r) == first_escape(tests@, budget as nat),
{
    let mut i: u32 = 0;
    loop
        invariant
            i <= budget,
            tests@.len() >= budget,
            first_escape(tests@, budget as nat) == first_escape_from(
                tests@,
                budget as nat,
                i as nat,
            ),
        decreases budget - i,
    {
        let step = escape_decision(i, budget, if i < budget {
            tests[i as usize]
        } else {
            false
        });
        match step {
            EscapeStep::Escaped(k) => {
                return Some(k);
            },
            EscapeStep::NoEscape => {
                return None;
            },
            EscapeStep::Continue => {
                i = i + 1;
            },
        }
    }
}

/// If no threshold test ever fires, the evaluator reports no escape,
/// whatever the budget: the rule that keeps a point whose orbit stays
/// bounded (such as c = 0, a fixed point of the recurrence) in the set.
pub proof fn lemma_never_exceeds_no_escape(tests: Seq<bool>, budget: nat)
    requires
        forall|i: int| 0 <= i < tests.len() ==> !tests[i],
    ensures
        first_escape(tests, budget) == None::<nat>,
{
    lemma_never_exceeds_no_escape_from(tests, budget, 0);
}

proof fn lemma_never_exceeds_no_escape_from(tests: Seq<bool>, budget: nat, from: nat)
    requires
        forall|i: int| 0 <= i < tests.len() ==> !tests[i],
    ensures
        first_escape_from(tests, budget, from) == None::<nat>,
    decreases budget - from,
{
    if from < budget {
        lemma_never_exceeds_no_escape_from(tests, budget, (from + 1) as nat);
    }
}

} // verus!
