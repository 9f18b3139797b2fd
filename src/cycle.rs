use vstd::prelude::*;
use crate::ranking::Ratio;

verus! {

/// Progress of the current review cycle.
#[derive(Debug, Clone, Copy, PartialEq, Eq)]
pub struct CycleStats {
    /// Size of the review pool when the cycle started.
    pub total_words: usize,
    /// Pool words answered at least once in this cycle.
    pub reviewed_words: usize,
    /// Pool words whose first answer in this cycle was correct.
    pub correct_count: usize,
}

impl Default for CycleStats {
    fn default() -> (r: Self)
        ensures
            r == (CycleStats { total_words: 0, reviewed_words: 0, correct_count: 0 }),
    {
        CycleStats { total_words: 0, reviewed_words: 0, correct_count: 0 }
    }
}

/// Where a cycle's accuracy falls, which decides the next target.
#[derive(Debug, Clone, Copy, PartialEq, Eq)]
pub enum AccuracyBand {
    /// Every first answer was correct: the target doubles.
    Perfect,
    /// At least half were correct: the target grows by one.
    Fair,
    /// Fewer than half, or nothing reviewed: the target halves.
    Low,
}

/// The band of the accuracy `correct / reviewed`.
pub open spec fn accuracy_band(correct: usize, reviewed: usize) -> AccuracyBand {
    if accuracy_full(correct, reviewed) {
        AccuracyBand::Perfect
    } else if accuracy_half(correct, reviewed) {
        AccuracyBand::Fair
    } else {
        AccuracyBand::Low
    }
}

/// The accuracy `correct / reviewed` as a fraction; 0 while nothing was reviewed.
pub open spec fn accuracy_ratio(c: CycleStats) -> Ratio {
    if c.reviewed_words > 0 {
        Ratio { num: c.correct_count as u64, den: c.reviewed_words as u64 }
    } else {
        Ratio { num: 0, den: 1 }
    }
}

impl CycleStats {
    /// The share of pool words answered correctly first time, out of those
    /// answered; 0 while none was answered.
    pub fn accuracy(&self) -> (r: Ratio)
        ensures
            r == accuracy_ratio(*self),
            r.den >= 1,
    {
        if self.reviewed_words > 0 {
            Ratio { num: self.correct_count as u64, den: self.reviewed_words as u64 }
        } else {
            Ratio { num: 0, den: 1 }
        }
    }
}

/// The band of the accuracy `correct / reviewed`.
pub fn band_of(correct: usize, reviewed: usize) -> (r: AccuracyBand)
    ensures
        r == accuracy_band(correct, reviewed),
{
    if reviewed > 0 && correct >= reviewed {
        AccuracyBand::Perfect
    } else if reviewed > 0 && correct as u128 * 2 >= reviewed as u128 {
        AccuracyBand::Fair
    } else {
        AccuracyBand::Low
    }
}

/// A counter after one more event; it stays at its maximum.
pub open spec fn bump_usize(x: usize) -> usize {
    if x < usize::MAX {
        (x + 1) as usize
    } else {
        x
    }
}

/// The accuracy `correct / reviewed` is at least `1` (it is 0 while nothing
/// was reviewed).
pub open spec fn accuracy_full(correct: usize, reviewed: usize) -> bool {
    reviewed > 0 && correct >= reviewed
}

/// The accuracy `correct / reviewed` is at least one half.
pub open spec fn accuracy_half(correct: usize, reviewed: usize) -> bool {
    reviewed > 0 && 2 * correct >= reviewed
}

/// The review-pool target for the next cycle: doubled after a perfect cycle,
/// one more at an accuracy of at least one half, else halved (rounded up) but
/// at least 1. Doubling and adding stop at the largest `usize`.
pub open spec fn resized_target(target: usize, correct: usize, reviewed: usize) -> usize {
    if accuracy_full(correct, reviewed) {
        if target <= usize::MAX / 2 {
            (2 * target) as usize
        } else {
            usize::MAX
        }
    } else if accuracy_half(correct, reviewed) {
        bump_usize(target)
    } else if target <= 1 {
        1
    } else {
        ((target + 1) / 2) as usize
    }
}

/// A counter after one more event; it stays at its maximum.
pub fn bump_counter(x: usize) -> (r: usize)
    ensures
        r == bump_usize(x),
{
    if x < usize::MAX {
        x + 1
    } else {
        x
    }
}

/// The review-pool target for the next cycle, from the current target and the
/// cycle's first-answer results.
pub fn resize_target(target: usize, correct: usize, reviewed: usize) -> (r: usize)
    ensures
        r == resized_target(target, correct, reviewed),
        r >= 1 || accuracy_full(correct, reviewed),
{
    if reviewed > 0 && correct >= reviewed {
        if target <= usize::MAX / 2 {
            2 * target
        } else {
            usize::MAX
        }
    } else if reviewed > 0 && correct as u128 * 2 >= reviewed as u128 {
        bump_counter(target)
    } else if target <= 1 {
        1
    } else {
        target / 2 + target % 2
    }
}

} // verus!
