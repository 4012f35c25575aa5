//! What the observer of a render reports and when it stops.
//!
//! The workers count the pixels that they have finished in a shared counter.
//! The observer reads the counter, reports how far the render is, and goes
//! back to sleep unless every pixel is done.

use vstd::prelude::*;

verus! {

/// What the observer does after a report.
#[derive(Clone, Copy, Debug, PartialEq, Eq, Structural)]
pub enum Watch {
    /// Pixels are outstanding: sleep, then look again.
    Sleep,
    /// Every pixel is done: stop.
    Stop,
}

/// One look at the counter.
#[derive(Clone, Copy, Debug, PartialEq, Eq, Structural)]
pub struct Report {
    /// Share of the pixels that are done, in hundredths of a percent,
    /// rounded down.
    pub hundredths: u64,
    /// What to do next.
    pub next: Watch,
}

/// Share of `total` that `completed` is, in hundredths of a percent, rounded
/// down; a counter that has reached `total` stands for 100 percent.
pub open spec fn share(completed: nat, total: nat) -> nat {
    if completed >= total {
        10000
    } else {
        (completed * 10000) / total
    }
}

/// Reads the counter: reports the share of the pixels that are done, and
/// stops exactly when the counter has reached the number of pixels.
pub fn observe(completed: usize, total: usize) -> (report: Report)
    requires
        total > 0,
    ensures
        report.hundredths == share(completed as nat, total as nat),
        report.next == (if completed >= total {
            Watch::Stop
        } else {
            Watch::Sleep
        }),
{
    if completed >= total {
        return Report { hundredths: 10000, next: Watch::Stop };
    }
    let scaled: u128 = completed as u128 * 10000;
    let hundredths: u128 = scaled / total as u128;
    assert(hundredths < 10000) by (nonlinear_arith)
        requires
            hundredths == scaled / (total as u128),
            scaled == completed * 10000,
            completed < total,
    ;
    Report { hundredths: hundredths as u64, next: Watch::Sleep }
}

/// The share never runs backwards while the counter grows, stays below
/// 100 percent while pixels are outstanding, and is exactly 100 percent when
/// every pixel is done.
pub proof fn lemma_share(completed: nat, later: nat, total: nat)
    requires
        total > 0,
        completed <= later,
    ensures
        share(completed, total) <= share(later, total),
        completed < total ==> share(completed, total) < 10000,
        share(total, total) == 10000,
{
    assert((completed * 10000) / total <= (later * 10000) / total) by (nonlinear_arith)
        requires
            total > 0,
            completed <= later,
    ;
    if completed < total {
        assert((completed * 10000) / total < 10000) by (nonlinear_arith)
            requires
                total > 0,
                completed < total,
        ;
    }
}

} // verus!
