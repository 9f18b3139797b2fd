//! Properties of the engine that relate several steps or hold of every state.
use vstd::prelude::*;
use crate::buckets::{lemma_remove_id, lemma_remove_pushed, remove_id};
use crate::model::{
    StateModel,
    answer,
    answer_applied,
    buckets_disjoint,
    candidate_set,
    candidates,
    due_in,
    lemma_candidates_distinct,
    not_due_in,
    overdue_of,
    tie_of,
    completes_cycle,
    current_review_word,
    lemma_answer_applied_wf,
    lemma_answer_wf,
    lemma_mark_wf,
    lemma_regenerate_wf,
    lemma_settle_wf,
    mark,
    next_target,
    regenerate,
    settle,
    toggled,
    well_formed,
    with_stats,
};
use crate::state::{action_ok, next_model, AppAction};
use crate::ranking::{lemma_word_ranking_exists, valid_keys};
use crate::stats::{MIN_EASE, WordStats, answered, cycle_reset, due};
use crate::table::stats_or_fresh;

verus! {

/// The state after applying each action at its time, in order.
pub open spec fn run(m: StateModel, steps: Seq<(AppAction, i64)>) -> StateModel
    decreases steps.len(),
{
    if steps.len() == 0 {
        m
    } else {
        run(next_model(m, steps[0].0, steps[0].1), steps.drop_first())
    }
}

/// The statistics after each answer (correct or not, and its time), in order.
pub open spec fn answer_all(s: WordStats, answers: Seq<(bool, i64)>) -> WordStats
    decreases answers.len(),
{
    if answers.len() == 0 {
        s
    } else {
        answer_all(answered(s, answers[0].0, answers[0].1), answers.drop_first())
    }
}

/// Every action keeps the buckets free of duplicates and disjoint.
pub proof fn lemma_action_keeps_buckets(m: StateModel, a: AppAction, now: i64)
    requires
        well_formed(m),
        action_ok(a),
    ensures
        well_formed(next_model(m, a, now)),
{
    match a {
        AppAction::SetAllWords(words) => {
            let m1 = StateModel { catalog: crate::state::catalog_ids(words@), ..m };
            lemma_regenerate_wf(m1, now);
        },
        AppAction::MarkMastered => lemma_mark_wf(m, true, now),
        AppAction::MarkDifficult => lemma_mark_wf(m, false, now),
        AppAction::SubmitAnswer(u, c) => {
            lemma_answer_wf(m, crate::state::same_ignoring_case(u@, c@), now);
        },
        AppAction::GenerateReviewPool => lemma_regenerate_wf(m, now),
        AppAction::CycleSettlement => lemma_settle_wf(m, now),
        _ => {},
    }
}

/// Mutual exclusion: after any sequence of actions (marks, answers,
/// navigation, settlements, ...), no word is both mastered and difficult.
pub proof fn lemma_buckets_stay_disjoint(m: StateModel, steps: Seq<(AppAction, i64)>)
    requires
        well_formed(m),
        forall|k: int| 0 <= k < steps.len() ==> action_ok(#[trigger] steps[k].0),
    ensures
        well_formed(run(m, steps)),
        buckets_disjoint(run(m, steps)),
    decreases steps.len(),
{
    if steps.len() > 0 {
        lemma_action_keeps_buckets(m, steps[0].0, steps[0].1);
        let rest = steps.drop_first();
        assert forall|k: int| 0 <= k < rest.len() implies action_ok(#[trigger] rest[k].0) by {
            assert(rest[k] == steps[k + 1]);
        }
        lemma_buckets_stay_disjoint(next_model(m, steps[0].0, steps[0].1), rest);
    }
}

/// Due partition: after the pools are rebuilt at `now`, the review pool holds
/// exactly the mastered and difficult words that are due, and the cache pool
/// exactly those that are not.
pub proof fn lemma_pools_partition(m: StateModel, now: i64)
    requires
        well_formed(m),
        candidates(m).len() <= usize::MAX,
    ensures
        forall|w: Seq<char>| #[trigger]
            regenerate(m, now).review_pool.contains(w) <==> candidates(m).contains(w) && due(
                stats_or_fresh(m.stats, w),
                now,
            ),
        forall|w: Seq<char>| #[trigger]
            regenerate(m, now).cache_pool.contains(w) <==> candidates(m).contains(w) && !due(
                stats_or_fresh(m.stats, w),
                now,
            ),
{
    let c = candidates(m);
    lemma_candidates_distinct(m);
    assert(valid_keys(c.map_values(tie_of(m))));
    assert(valid_keys(c.map_values(overdue_of(m, now))));
    lemma_word_ranking_exists(c, tie_of(m), due_in(m, now));
    lemma_word_ranking_exists(c, overdue_of(m, now), not_due_in(m, now));
    let n = regenerate(m, now);
    assert forall|w: Seq<char>| #[trigger]
        n.review_pool.contains(w) <==> c.contains(w) && due(stats_or_fresh(m.stats, w), now) by {
        if n.review_pool.contains(w) {
            let k = choose|k: int| 0 <= k < n.review_pool.len() && n.review_pool[k] == w;
            assert(c.to_set().contains(n.review_pool[k]));
        }
        if c.contains(w) && due(stats_or_fresh(m.stats, w), now) {
            assert(c.to_set().contains(w) && due_in(m, now)(w));
        }
    }
    assert forall|w: Seq<char>| #[trigger]
        n.cache_pool.contains(w) <==> c.contains(w) && !due(stats_or_fresh(m.stats, w), now) by {
        if n.cache_pool.contains(w) {
            let k = choose|k: int| 0 <= k < n.cache_pool.len() && n.cache_pool[k] == w;
            assert(c.to_set().contains(n.cache_pool[k]));
        }
        if c.contains(w) && !due(stats_or_fresh(m.stats, w), now) {
            assert(c.to_set().contains(w) && not_due_in(m, now)(w));
        }
    }
}

/// The pools depend only on the set of mastered and difficult words, their
/// statistics and `now`: reordering the buckets, or moving words between
/// them, changes neither pool.
pub proof fn lemma_pools_ignore_bucket_order(m1: StateModel, m2: StateModel, now: i64)
    requires
        candidate_set(m1) == candidate_set(m2),
        m1.stats == m2.stats,
    ensures
        regenerate(m1, now).review_pool == regenerate(m2, now).review_pool,
        regenerate(m1, now).cache_pool == regenerate(m2, now).cache_pool,
{
    assert(tie_of(m1) == tie_of(m2));
    assert(overdue_of(m1, now) == overdue_of(m2, now));
    assert(due_in(m1, now) == due_in(m2, now));
    assert(not_due_in(m1, now) == not_due_in(m2, now));
}

/// A wrong answer never leaves the easiness factor below 1.3, whatever it was.
pub proof fn lemma_wrong_answer_ease_floor(s: WordStats, now: i64)
    ensures
        answered(s, false, now).easiness_factor >= MIN_EASE,
{
}

/// Ease floor: from an easiness factor of at least 1.3 (a fresh word has 2.5),
/// no sequence of answers brings it below 1.3.
pub proof fn lemma_ease_floor(s: WordStats, answers: Seq<(bool, i64)>)
    requires
        s.easiness_factor >= MIN_EASE,
    ensures
        answer_all(s, answers).easiness_factor >= MIN_EASE,
    decreases answers.len(),
{
    if answers.len() > 0 {
        lemma_ease_floor(answered(s, answers[0].0, answers[0].1), answers.drop_first());
    }
}

/// Promotion: a correct answer that brings a difficult word's streak to 3 (or
/// more) leaves it mastered and not difficult.
pub proof fn lemma_promotion(m: StateModel, now: i64)
    requires
        well_formed(m),
        !m.locked,
        m.review_index < m.review_pool.len(),
        m.difficult.contains(current_review_word(m)),
        stats_or_fresh(m.stats, current_review_word(m)).consecutive_correct_answers >= 2,
    ensures
        answer(m, true, now).mastered.contains(current_review_word(m)),
        !answer(m, true, now).difficult.contains(current_review_word(m)),
{
    let w = current_review_word(m);
    let a = answer_applied(m, true, now);
    lemma_remove_id(m.difficult, w);
    assert(a.mastered == m.mastered.push(w));
    assert(a.mastered[m.mastered.len() as int] == w);
    lemma_answer_applied_wf(m, true, now);
    lemma_settle_wf(a, now);
}

/// Demotion: a wrong answer to a mastered word leaves it difficult and not
/// mastered.
pub proof fn lemma_demotion(m: StateModel, now: i64)
    requires
        well_formed(m),
        !m.locked,
        m.review_index < m.review_pool.len(),
        m.mastered.contains(current_review_word(m)),
    ensures
        answer(m, false, now).difficult.contains(current_review_word(m)),
        !answer(m, false, now).mastered.contains(current_review_word(m)),
{
    let w = current_review_word(m);
    let a = answer_applied(m, false, now);
    lemma_remove_id(m.mastered, w);
    assert(a.difficult == m.difficult.push(w));
    assert(a.difficult[m.difficult.len() as int] == w);
    lemma_answer_applied_wf(m, false, now);
    lemma_settle_wf(a, now);
}

/// Cycle auto-trigger: when an answer makes the number of words answered in
/// the cycle reach the pool's size, the cycle is settled at once: the target
/// is resized, the time recorded, and every word's per-cycle fields are
/// cleared.
pub proof fn lemma_full_coverage_settles(m: StateModel, correct: bool, now: i64)
    requires
        !m.locked,
        m.review_index < m.review_pool.len(),
        !stats_or_fresh(m.stats, current_review_word(m)).cycle_reviewed,
        m.cycle.reviewed_words < usize::MAX,
        m.cycle.reviewed_words + 1 >= m.review_pool.len(),
    ensures
        answer(m, correct, now) == settle(answer_applied(m, correct, now), now),
        answer(m, correct, now).target == next_target(answer_applied(m, correct, now)),
        answer(m, correct, now).last_cycle == now,
        !answer(m, correct, now).locked,
        answer(m, correct, now).cycle.reviewed_words == 0,
        forall|w: Seq<char>| #[trigger] answer(m, correct, now).stats.contains_key(w) ==> {
            let s = answer(m, correct, now).stats[w];
            !s.cycle_reviewed && s.cycle_first_answer_correct is None && s.cycle_attempts == 0
        },
{
    assert(completes_cycle(m, correct, now));
}

/// Idempotent toggling: marking a new word mastered twice gives the buckets
/// back as they were; the word keeps the statistics it got (its per-cycle
/// fields cleared), and so does every other word.
pub proof fn lemma_mastered_toggle_twice(m: StateModel, t1: i64, t2: i64)
    requires
        well_formed(m),
        !m.locked,
        m.new_index < m.catalog.len(),
        !m.mastered.contains(m.catalog[m.new_index as int]),
        !m.difficult.contains(m.catalog[m.new_index as int]),
    ensures
        mark(mark(m, true, t1), true, t2).mastered == m.mastered,
        mark(mark(m, true, t1), true, t2).difficult == m.difficult,
        !mark(mark(m, true, t1), true, t2).mastered.contains(m.catalog[m.new_index as int]),
        !mark(mark(m, true, t1), true, t2).difficult.contains(m.catalog[m.new_index as int]),
        mark(mark(m, true, t1), true, t2).stats == with_stats(m, m.catalog[m.new_index as int]).map_values(
            |s: WordStats| cycle_reset(s),
        ),
{
    let w = m.catalog[m.new_index as int];
    let m1 = mark(m, true, t1);
    let t = toggled(m, w, true);
    assert(remove_id(m.difficult, w) == m.difficult);
    assert(t.mastered == m.mastered.push(w));
    assert(t.mastered[m.mastered.len() as int] == w);
    assert(m1 == regenerate(t, t1));
    assert(m1.mastered.contains(w));
    let m2 = mark(m1, true, t2);
    lemma_remove_pushed(m.mastered, w);
    assert(m2.mastered == m.mastered);
    assert(m2.stats =~= with_stats(m, w).map_values(|s: WordStats| cycle_reset(s)));
}

} // verus!
