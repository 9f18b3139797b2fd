use vstd::prelude::*;
use crate::ranking::Ratio;

verus! {

/// The easiness factor of a word that has never been answered, in hundredths.
pub const INITIAL_EASE: u32 = 250;

/// The easiness factor never drops below this after a wrong answer, in hundredths.
pub const MIN_EASE: u32 = 130;

/// Milliseconds in a day.
pub const MS_PER_DAY: i64 = 86400000;

/// The days since the last review of a word that was never reviewed: it is
/// always due.
pub const NEVER_REVIEWED_DAYS: u64 = 1000000;

/// Learning statistics of one word.
///
/// The easiness factor is kept in hundredths (`250` is an easiness of 2.5), so
/// that every update is exact.
#[derive(Debug, Clone, Copy, PartialEq, Eq)]
pub struct WordStats {
    /// Correct answers in a row; reset by any wrong answer.
    pub consecutive_correct_answers: u32,
    /// Easiness factor in hundredths.
    pub easiness_factor: u32,
    /// Days before the word is due again.
    pub interval: u32,
    /// Time of the last answer in milliseconds since the epoch; 0 for never.
    pub last_review_timestamp: i64,
    pub total_reviews: u32,
    pub total_correct: u32,
    pub total_incorrect_answers: u32,
    /// Whether the word has been answered in the current cycle.
    pub cycle_reviewed: bool,
    /// Whether its first answer in the current cycle was correct.
    pub cycle_first_answer_correct: Option<bool>,
    /// Answers given to it in the current cycle.
    pub cycle_attempts: u32,
}

/// The statistics of a word when it first enters a bucket.
pub open spec fn fresh_stats() -> WordStats {
    WordStats {
        consecutive_correct_answers: 0,
        easiness_factor: INITIAL_EASE,
        interval: 1,
        last_review_timestamp: 0,
        total_reviews: 0,
        total_correct: 0,
        total_incorrect_answers: 0,
        cycle_reviewed: false,
        cycle_first_answer_correct: None,
        cycle_attempts: 0,
    }
}

/// A counter after one more event; it stays at its maximum.
pub open spec fn bump(x: u32) -> u32 {
    if x < u32::MAX {
        (x + 1) as u32
    } else {
        x
    }
}

/// `interval * ease / 100` rounded to the nearest day (halves up), capped at
/// the largest `u32`.
pub open spec fn scaled_interval(interval: u32, ease: u32) -> u32 {
    let v = (interval as int * ease as int + 50) / 100;
    if v > u32::MAX {
        u32::MAX
    } else {
        v as u32
    }
}

/// The easiness factor after a correct answer that makes the streak `streak`.
pub open spec fn ease_after_correct(ease: u32, streak: u32) -> u32 {
    ease.saturating_add(if streak <= 2 { 5u32 } else { 15u32 })
}

/// The easiness factor after a wrong answer: 0.2 less, but at least 1.3.
pub open spec fn ease_after_incorrect(ease: u32) -> u32 {
    if ease >= MIN_EASE + 20 {
        (ease - 20) as u32
    } else {
        MIN_EASE
    }
}

/// The interval after a correct answer that makes the streak `streak`; from
/// the third on, the old interval is scaled by the easiness factor from before
/// the answer.
pub open spec fn interval_after_correct(interval: u32, ease: u32, streak: u32) -> u32 {
    if streak == 1 {
        1
    } else if streak == 2 {
        4
    } else {
        scaled_interval(interval, ease)
    }
}

/// The statistics of a word after one answer at time `now`.
pub open spec fn answered(s: WordStats, correct: bool, now: i64) -> WordStats {
    let first = !s.cycle_reviewed;
    let base = WordStats {
        cycle_reviewed: true,
        cycle_first_answer_correct: if first {
            Some(correct)
        } else {
            s.cycle_first_answer_correct
        },
        cycle_attempts: bump(s.cycle_attempts),
        total_reviews: bump(s.total_reviews),
        last_review_timestamp: now,
        ..s
    };
    if correct {
        let streak = bump(s.consecutive_correct_answers);
        let ease = ease_after_correct(s.easiness_factor, streak);
        WordStats {
            consecutive_correct_answers: streak,
            easiness_factor: ease,
            interval: interval_after_correct(s.interval, s.easiness_factor, streak),
            total_correct: bump(s.total_correct),
            ..base
        }
    } else {
        WordStats {
            consecutive_correct_answers: 0,
            easiness_factor: ease_after_incorrect(s.easiness_factor),
            interval: 1,
            total_incorrect_answers: bump(s.total_incorrect_answers),
            ..base
        }
    }
}

/// The statistics with the per-cycle fields cleared for a new cycle.
pub open spec fn cycle_reset(s: WordStats) -> WordStats {
    WordStats { cycle_reviewed: false, cycle_first_answer_correct: None, cycle_attempts: 0, ..s }
}

/// The day number of a timestamp (rounded down).
pub open spec fn day_of(t: i64) -> int {
    t as int / MS_PER_DAY as int
}

/// Whole days from the last review to `now`, never negative; a very large
/// number for a word never reviewed.
pub open spec fn days_since(s: WordStats, now: i64) -> int {
    if s.last_review_timestamp == 0 {
        NEVER_REVIEWED_DAYS as int
    } else if day_of(now) - day_of(s.last_review_timestamp) > 0 {
        day_of(now) - day_of(s.last_review_timestamp)
    } else {
        0
    }
}

/// The interval in days, at least 1.
pub open spec fn interval_days(s: WordStats) -> int {
    if s.interval >= 1 {
        s.interval as int
    } else {
        1
    }
}

/// The word is due at `now`: as many days have passed as its interval.
pub open spec fn due(s: WordStats, now: i64) -> bool {
    days_since(s, now) >= interval_days(s)
}

/// How overdue the word is: days since its review over its interval.
pub open spec fn due_ratio(s: WordStats, now: i64) -> Ratio {
    Ratio { num: days_since(s, now) as u64, den: interval_days(s) as u64 }
}

/// Lifetime mistakes relative to the current streak: mistakes over streak + 1.
pub open spec fn tie_ratio(s: WordStats) -> Ratio {
    Ratio {
        num: s.total_incorrect_answers as u64,
        den: (s.consecutive_correct_answers + 1) as u64,
    }
}

impl Default for WordStats {
    fn default() -> (r: Self)
        ensures
            r == fresh_stats(),
    {
        WordStats {
            consecutive_correct_answers: 0,
            easiness_factor: INITIAL_EASE,
            interval: 1,
            last_review_timestamp: 0,
            total_reviews: 0,
            total_correct: 0,
            total_incorrect_answers: 0,
            cycle_reviewed: false,
            cycle_first_answer_correct: None,
            cycle_attempts: 0,
        }
    }
}

fn bump_count(x: u32) -> (r: u32)
    ensures
        r == bump(x),
{
    if x < u32::MAX {
        x + 1
    } else {
        x
    }
}

/// `interval * ease / 100`, rounded, capped at the largest `u32`.
pub fn scale_interval(interval: u32, ease: u32) -> (r: u32)
    ensures
        r == scaled_interval(interval, ease),
{
    proof {
        assert(interval as int * ease as int <= u32::MAX as int * u32::MAX as int) by (nonlinear_arith)
            requires
                interval <= u32::MAX,
                ease <= u32::MAX,
        ;
    }
    let v: u64 = (interval as u64 * ease as u64 + 50) / 100;
    if v > u32::MAX as u64 {
        u32::MAX
    } else {
        v as u32
    }
}

/// The day number of a timestamp, rounded down also before the epoch.
pub fn day_number(t: i64) -> (r: i64)
    ensures
        r as int == day_of(t),
        -106751991168 <= r <= 106751991167,
{
    proof {
        vstd::arithmetic::div_mod::lemma_div_is_ordered(t as int, i64::MAX as int, MS_PER_DAY as int);
        vstd::arithmetic::div_mod::lemma_div_is_ordered(i64::MIN as int, t as int, MS_PER_DAY as int);
    }
    if t >= 0 {
        t / MS_PER_DAY
    } else {
        let u: i64 = -(t + 1);
        let q: i64 = u / MS_PER_DAY;
        proof {
            let rem = u as int % MS_PER_DAY as int;
            vstd::arithmetic::div_mod::lemma_fundamental_div_mod(u as int, MS_PER_DAY as int);
            vstd::arithmetic::div_mod::lemma_fundamental_div_mod_converse(
                t as int,
                MS_PER_DAY as int,
                -(q as int) - 1,
                MS_PER_DAY as int - rem - 1,
            );
        }
        -q - 1
    }
}

impl WordStats {
    /// Applies one answer given at time `now`.
    pub fn record_answer(&mut self, correct: bool, now: i64)
        ensures
            *final(self) == answered(*old(self), correct, now),
    {
        if !self.cycle_reviewed {
            self.cycle_reviewed = true;
            self.cycle_first_answer_correct = Some(correct);
        }
        self.cycle_attempts = bump_count(self.cycle_attempts);
        self.total_reviews = bump_count(self.total_reviews);
        self.last_review_timestamp = now;
        if correct {
            self.total_correct = bump_count(self.total_correct);
            self.consecutive_correct_answers = bump_count(self.consecutive_correct_answers);
            let step: u32 = if self.consecutive_correct_answers <= 2 {
                5
            } else {
                15
            };
            if self.consecutive_correct_answers == 1 {
                self.interval = 1;
            } else if self.consecutive_correct_answers == 2 {
                self.interval = 4;
            } else {
                self.interval = scale_interval(self.interval, self.easiness_factor);
            }
            self.easiness_factor = self.easiness_factor.saturating_add(step);
        } else {
            self.consecutive_correct_answers = 0;
            self.total_incorrect_answers = bump_count(self.total_incorrect_answers);
            self.easiness_factor = if self.easiness_factor >= MIN_EASE + 20 {
                self.easiness_factor - 20
            } else {
                MIN_EASE
            };
            self.interval = 1;
        }
    }

    /// Clears the per-cycle fields for a new cycle.
    pub fn reset_cycle(&mut self)
        ensures
            *final(self) == cycle_reset(*old(self)),
    {
        self.cycle_reviewed = false;
        self.cycle_first_answer_correct = None;
        self.cycle_attempts = 0;
    }

    /// Whole days since the last review at time `now`.
    pub fn days_since_review(&self, now: i64) -> (r: u64)
        ensures
            r as int == days_since(*self, now),
            r <= 213503982335,
    {
        if self.last_review_timestamp == 0 {
            NEVER_REVIEWED_DAYS
        } else {
            let d: i64 = day_number(now) - day_number(self.last_review_timestamp);
            if d > 0 {
                d as u64
            } else {
                0
            }
        }
    }

    /// Whether the word is due at time `now`.
    pub fn is_due(&self, now: i64) -> (r: bool)
        ensures
            r == due(*self, now),
    {
        let days = self.days_since_review(now);
        let interval: u64 = if self.interval >= 1 {
            self.interval as u64
        } else {
            1
        };
        days >= interval
    }

    /// Days since the review over the interval: the order of the cache pool.
    pub fn due_key(&self, now: i64) -> (r: Ratio)
        ensures
            r == due_ratio(*self, now),
            r.den >= 1,
    {
        let interval: u64 = if self.interval >= 1 {
            self.interval as u64
        } else {
            1
        };
        Ratio { num: self.days_since_review(now), den: interval }
    }

    /// Mistakes over streak + 1: the order of the review pool.
    pub fn tie_key(&self) -> (r: Ratio)
        ensures
            r == tie_ratio(*self),
            r.den >= 1,
    {
        Ratio {
            num: self.total_incorrect_answers as u64,
            den: self.consecutive_correct_answers as u64 + 1,
        }
    }
}

} // verus!
