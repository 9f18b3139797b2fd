use vstd::prelude::*;
use crate::buckets::{lemma_remove_id, remove_id};
use crate::cycle::{CycleStats, accuracy_band, bump_usize, resized_target};
use crate::message::Notice;
use crate::ranking::{Ratio, word_ranking};
use crate::stats::{WordStats, answered, cycle_reset, due, due_ratio, fresh_stats, tie_ratio};
use crate::table::stats_or_fresh;

verus! {

/// The engine's state as mathematical values. Words are their identities.
pub struct StateModel {
    /// The catalog's words, in catalog order.
    pub catalog: Seq<Seq<char>>,
    pub mastered: Seq<Seq<char>>,
    pub difficult: Seq<Seq<char>>,
    pub stats: Map<Seq<char>, WordStats>,
    /// Words due now, in review order.
    pub review_pool: Seq<Seq<char>>,
    /// Words not yet due, closest to due first.
    pub cache_pool: Seq<Seq<char>>,
    pub target: usize,
    pub new_index: usize,
    pub review_index: usize,
    pub locked: bool,
    pub last_cycle: i64,
    pub cycle: CycleStats,
}

/// No word is both mastered and difficult.
pub open spec fn buckets_disjoint(m: StateModel) -> bool {
    forall|w: Seq<char>| !(#[trigger] m.mastered.contains(w) && m.difficult.contains(w))
}

/// Each bucket holds a word at most once, no word is in both, no more first
/// answers were correct than were given, and the target is at least 1.
pub open spec fn well_formed(m: StateModel) -> bool {
    &&& m.mastered.no_duplicates()
    &&& m.difficult.no_duplicates()
    &&& buckets_disjoint(m)
    &&& m.cycle.correct_count <= m.cycle.reviewed_words
    &&& m.target >= 1
}

/// The words considered for review: mastered, then difficult.
pub open spec fn candidates(m: StateModel) -> Seq<Seq<char>> {
    m.mastered + m.difficult
}

/// The set of words considered for review.
pub open spec fn candidate_set(m: StateModel) -> Set<Seq<char>> {
    candidates(m).to_set()
}

/// Each word's mistakes over its streak + 1.
pub open spec fn tie_of(m: StateModel) -> spec_fn(Seq<char>) -> Ratio {
    |w: Seq<char>| tie_ratio(stats_or_fresh(m.stats, w))
}

/// Each word's days since review over its interval.
pub open spec fn overdue_of(m: StateModel, now: i64) -> spec_fn(Seq<char>) -> Ratio {
    |w: Seq<char>| due_ratio(stats_or_fresh(m.stats, w), now)
}

/// Which words are due at `now`.
pub open spec fn due_in(m: StateModel, now: i64) -> spec_fn(Seq<char>) -> bool {
    |w: Seq<char>| due(stats_or_fresh(m.stats, w), now)
}

/// Which words are not due at `now`.
pub open spec fn not_due_in(m: StateModel, now: i64) -> spec_fn(Seq<char>) -> bool {
    |w: Seq<char>| !due(stats_or_fresh(m.stats, w), now)
}

/// The due candidates, most mistakes per streak first, equal scores in
/// lexicographic order of the words.
pub open spec fn review_order(m: StateModel, now: i64) -> Seq<Seq<char>> {
    word_ranking(candidate_set(m), tie_of(m), due_in(m, now))
}

/// The other candidates, most overdue first, equal scores in lexicographic
/// order of the words.
pub open spec fn cache_order(m: StateModel, now: i64) -> Seq<Seq<char>> {
    word_ranking(candidate_set(m), overdue_of(m, now), not_due_in(m, now))
}

/// A new cycle: the pools recomputed at `now`, the cursor at the start, the
/// cycle counters and every word's per-cycle fields cleared.
pub open spec fn regenerate(m: StateModel, now: i64) -> StateModel {
    StateModel {
        review_pool: review_order(m, now),
        cache_pool: cache_order(m, now),
        review_index: 0,
        cycle: CycleStats {
            total_words: review_order(m, now).len() as usize,
            reviewed_words: 0,
            correct_count: 0,
        },
        stats: m.stats.map_values(|s: WordStats| cycle_reset(s)),
        ..m
    }
}

/// What rebuilding the pools reports.
pub open spec fn regenerate_notice(m: StateModel, now: i64) -> Notice {
    if candidates(m).len() == 0 {
        Notice::NothingToReview
    } else {
        Notice::PoolUpdated {
            due: review_order(m, now).len() as usize,
            cached: cache_order(m, now).len() as usize,
        }
    }
}

/// The target for the next cycle after the current one.
pub open spec fn next_target(m: StateModel) -> usize {
    resized_target(m.target, m.cycle.correct_count, m.cycle.reviewed_words)
}

/// The state that the settlement hands to the partitioner: new target, the
/// finished pool kept as the cache, locked.
pub open spec fn settling(m: StateModel) -> StateModel {
    StateModel { target: next_target(m), cache_pool: m.review_pool, locked: true, ..m }
}

/// The end of a cycle: the target resized, a new cycle started, the time
/// recorded, the lock released.
pub open spec fn settle(m: StateModel, now: i64) -> StateModel {
    StateModel { last_cycle: now, locked: false, ..regenerate(settling(m), now) }
}

/// What the settlement reports.
pub open spec fn settle_notices(m: StateModel, now: i64) -> Seq<Notice> {
    seq![
        Notice::Settled {
            band: accuracy_band(m.cycle.correct_count, m.cycle.reviewed_words),
            reviewed: m.cycle.reviewed_words,
            correct: m.cycle.correct_count,
            target: next_target(m),
        },
        regenerate_notice(settling(m), now),
    ]
}

/// The statistics after `w` enters a bucket: fresh ones where it had none.
pub open spec fn with_stats(m: StateModel, w: Seq<char>) -> Map<Seq<char>, WordStats> {
    if m.stats.contains_key(w) {
        m.stats
    } else {
        m.stats.insert(w, fresh_stats())
    }
}

/// Toggles `w` in the mastered bucket (`to_mastered`) or in the difficult one:
/// out where it is there, else in, and out of the other bucket.
pub open spec fn toggled(m: StateModel, w: Seq<char>, to_mastered: bool) -> StateModel {
    if to_mastered {
        if m.mastered.contains(w) {
            StateModel { mastered: remove_id(m.mastered, w), ..m }
        } else {
            StateModel {
                mastered: m.mastered.push(w),
                difficult: remove_id(m.difficult, w),
                stats: with_stats(m, w),
                ..m
            }
        }
    } else {
        if m.difficult.contains(w) {
            StateModel { difficult: remove_id(m.difficult, w), ..m }
        } else {
            StateModel {
                difficult: m.difficult.push(w),
                mastered: remove_id(m.mastered, w),
                stats: with_stats(m, w),
                ..m
            }
        }
    }
}

/// What toggling `w` reports.
pub open spec fn toggle_notice(m: StateModel, w: Seq<char>, to_mastered: bool) -> Notice {
    let (own, other) = if to_mastered {
        (m.mastered, m.difficult)
    } else {
        (m.difficult, m.mastered)
    };
    if own.contains(w) {
        Notice::Unmarked { mastered: to_mastered }
    } else if other.contains(w) {
        Notice::Moved { to_mastered }
    } else {
        Notice::Marked { mastered: to_mastered }
    }
}

/// Marking the current new word, then rebuilding the pools. Nothing happens
/// while locked or when the cursor is past the catalog.
pub open spec fn mark(m: StateModel, to_mastered: bool, now: i64) -> StateModel {
    if m.locked || m.new_index >= m.catalog.len() {
        m
    } else {
        regenerate(toggled(m, m.catalog[m.new_index as int], to_mastered), now)
    }
}

/// What marking reports.
pub open spec fn mark_notices(m: StateModel, to_mastered: bool, now: i64) -> Seq<Notice> {
    if m.locked || m.new_index >= m.catalog.len() {
        seq![]
    } else {
        let w = m.catalog[m.new_index as int];
        seq![
            toggle_notice(m, w, to_mastered),
            regenerate_notice(toggled(m, w, to_mastered), now),
            Notice::SpeakWord,
        ]
    }
}

/// The word under the review cursor.
pub open spec fn current_review_word(m: StateModel) -> Seq<char> {
    m.review_pool[m.review_index as int]
}

/// Its statistics after the answer.
pub open spec fn answered_stats(m: StateModel, correct: bool, now: i64) -> WordStats {
    answered(stats_or_fresh(m.stats, current_review_word(m)), correct, now)
}

/// A correct answer that brings a difficult word's streak to 3 or more.
pub open spec fn promotes(m: StateModel, correct: bool, now: i64) -> bool {
    correct && m.difficult.contains(current_review_word(m))
        && answered_stats(m, correct, now).consecutive_correct_answers >= 3
}

/// A wrong answer to a mastered word.
pub open spec fn demotes(m: StateModel, correct: bool) -> bool {
    !correct && m.mastered.contains(current_review_word(m))
}

/// One answer to the current review word, before the coverage check: its
/// statistics and the cycle counters updated, and the word moved between
/// buckets where the answer says so.
pub open spec fn answer_applied(m: StateModel, correct: bool, now: i64) -> StateModel {
    let w = current_review_word(m);
    let first = !stats_or_fresh(m.stats, w).cycle_reviewed;
    let cycle = if first {
        CycleStats {
            reviewed_words: bump_usize(m.cycle.reviewed_words),
            correct_count: if correct {
                bump_usize(m.cycle.correct_count)
            } else {
                m.cycle.correct_count
            },
            ..m.cycle
        }
    } else {
        m.cycle
    };
    let mastered = if promotes(m, correct, now) {
        m.mastered.push(w)
    } else if demotes(m, correct) {
        remove_id(m.mastered, w)
    } else {
        m.mastered
    };
    let difficult = if promotes(m, correct, now) {
        remove_id(m.difficult, w)
    } else if demotes(m, correct) {
        m.difficult.push(w)
    } else {
        m.difficult
    };
    StateModel {
        stats: m.stats.insert(w, answered_stats(m, correct, now)),
        cycle,
        mastered,
        difficult,
        ..m
    }
}

/// The answer covers the whole pool, which ends the cycle.
pub open spec fn completes_cycle(m: StateModel, correct: bool, now: i64) -> bool {
    answer_applied(m, correct, now).cycle.reviewed_words >= m.review_pool.len()
}

/// An answer to the current review word. Nothing happens while locked or when
/// the cursor is outside the pool.
pub open spec fn answer(m: StateModel, correct: bool, now: i64) -> StateModel {
    if m.locked || m.review_index >= m.review_pool.len() {
        m
    } else if completes_cycle(m, correct, now) {
        settle(answer_applied(m, correct, now), now)
    } else {
        answer_applied(m, correct, now)
    }
}

/// What the answer itself reports.
pub open spec fn verdict(m: StateModel, correct: bool, now: i64) -> Notice {
    if promotes(m, correct, now) {
        Notice::Promoted { interval: answered_stats(m, correct, now).interval }
    } else if correct {
        Notice::Correct {
            streak: answered_stats(m, correct, now).consecutive_correct_answers,
            interval: answered_stats(m, correct, now).interval,
        }
    } else if demotes(m, correct) {
        Notice::Demoted
    } else {
        Notice::Incorrect
    }
}

/// What an answer reports.
pub open spec fn answer_notices(m: StateModel, correct: bool, now: i64) -> Seq<Notice> {
    if m.locked || m.review_index >= m.review_pool.len() {
        seq![]
    } else {
        let face = if correct {
            Notice::ShowCorrect
        } else {
            Notice::ShowError
        };
        let head = seq![face, verdict(m, correct, now), Notice::SpeakWord];
        if completes_cycle(m, correct, now) {
            head + settle_notices(answer_applied(m, correct, now), now)
        } else {
            head
        }
    }
}

/// Catalog position `i` holds a word in neither bucket.
pub open spec fn unmarked_at(m: StateModel, i: int) -> bool {
    0 <= i < m.catalog.len() && !m.mastered.contains(m.catalog[i]) && !m.difficult.contains(
        m.catalog[i],
    )
}

/// The first unmarked position at or after `from`.
pub open spec fn next_unmarked(m: StateModel, from: int) -> Option<int>
    decreases m.catalog.len() - from,
{
    if from < 0 || from >= m.catalog.len() {
        None
    } else if unmarked_at(m, from) {
        Some(from)
    } else {
        next_unmarked(m, from + 1)
    }
}

/// The last unmarked position at or before `from`.
pub open spec fn prev_unmarked(m: StateModel, from: int) -> Option<int>
    decreases from + 1,
{
    if from < 0 {
        None
    } else if unmarked_at(m, from) {
        Some(from)
    } else {
        prev_unmarked(m, from - 1)
    }
}

/// Moving the new-word cursor forward (`forward`) or back to the nearest
/// unmarked word; it stays where there is none.
pub open spec fn step_new(m: StateModel, forward: bool) -> StateModel {
    let found = if forward {
        next_unmarked(m, m.new_index + 1)
    } else {
        prev_unmarked(m, m.new_index - 1)
    };
    if m.locked {
        m
    } else if let Some(j) = found {
        StateModel { new_index: j as usize, ..m }
    } else {
        m
    }
}

/// What moving the new-word cursor reports.
pub open spec fn step_new_notices(m: StateModel, forward: bool) -> Seq<Notice> {
    let found = if forward {
        next_unmarked(m, m.new_index + 1)
    } else {
        prev_unmarked(m, m.new_index - 1)
    };
    if m.locked {
        seq![]
    } else if found is Some {
        seq![Notice::SpeakWord]
    } else if forward {
        seq![Notice::LastNewWord]
    } else {
        seq![Notice::FirstNewWord]
    }
}

/// Moving the review cursor one step forward or back, wrapping around.
pub open spec fn step_review(m: StateModel, forward: bool) -> StateModel {
    if m.locked || m.review_pool.len() == 0 {
        m
    } else if forward {
        StateModel { review_index: ((m.review_index + 1) % (m.review_pool.len() as int)) as usize, ..m }
    } else if m.review_index == 0 {
        StateModel { review_index: (m.review_pool.len() - 1) as usize, ..m }
    } else {
        StateModel { review_index: (m.review_index - 1) as usize, ..m }
    }
}

/// Installing a catalog: a first pool is built where words are classified and
/// the pool is empty.
pub open spec fn set_catalog(m: StateModel, catalog: Seq<Seq<char>>, now: i64) -> StateModel {
    let m1 = StateModel { catalog, ..m };
    if m.mastered.len() == 0 && m.difficult.len() == 0 {
        m1
    } else if m.review_pool.len() == 0 {
        regenerate(m1, now)
    } else {
        m1
    }
}

/// What installing a catalog reports.
pub open spec fn set_catalog_notices(m: StateModel, catalog: Seq<Seq<char>>, now: i64) -> Seq<Notice> {
    if m.mastered.len() == 0 && m.difficult.len() == 0 {
        seq![Notice::StartByMarking]
    } else if m.review_pool.len() == 0 {
        seq![regenerate_notice(StateModel { catalog, ..m }, now)]
    } else {
        seq![]
    }
}

proof fn lemma_push_no_dup(s: Seq<Seq<char>>, w: Seq<char>)
    requires
        s.no_duplicates(),
        !s.contains(w),
    ensures
        s.push(w).no_duplicates(),
        forall|x: Seq<char>| #[trigger] s.push(w).contains(x) == (s.contains(x) || x == w),
{
    let t = s.push(w);
    assert forall|x: Seq<char>| #[trigger] t.contains(x) == (s.contains(x) || x == w) by {
        if t.contains(x) {
            let k = choose|k: int| 0 <= k < t.len() && t[k] == x;
            if k < s.len() {
                assert(s[k] == x);
            }
        }
        if s.contains(x) {
            let k = choose|k: int| 0 <= k < s.len() && s[k] == x;
            assert(t[k] == x);
        }
        if x == w {
            assert(t[s.len() as int] == x);
        }
    }
    assert forall|a: int, b: int| 0 <= a < t.len() && 0 <= b < t.len() && a != b implies t[a]
        != t[b] by {
        if a == s.len() {
            assert(s.contains(t[b]));
        } else if b == s.len() {
            assert(s.contains(t[a]));
        }
    }
}

/// The candidates of a well-formed state are distinct.
pub proof fn lemma_candidates_distinct(m: StateModel)
    requires
        well_formed(m),
    ensures
        candidates(m).no_duplicates(),
{
    let c = candidates(m);
    let n = m.mastered.len() as int;
    assert forall|a: int, b: int| 0 <= a < c.len() && 0 <= b < c.len() && a != b implies c[a]
        != c[b] by {
        if a < n && b >= n {
            assert(m.mastered.contains(c[a]) && m.difficult.contains(c[b]));
        } else if a >= n && b < n {
            assert(m.mastered.contains(c[b]) && m.difficult.contains(c[a]));
        } else if a < n {
            assert(c[a] == m.mastered[a] && c[b] == m.mastered[b]);
        } else {
            assert(c[a] == m.difficult[a - n] && c[b] == m.difficult[b - n]);
        }
    }
}

/// Rebuilding the pools keeps the buckets.
pub proof fn lemma_regenerate_wf(m: StateModel, now: i64)
    requires
        well_formed(m),
    ensures
        well_formed(regenerate(m, now)),
        regenerate(m, now).mastered == m.mastered,
        regenerate(m, now).difficult == m.difficult,
{
}

/// Moving `w` from one bucket (`from`) to the end of the other (`to`).
proof fn lemma_move_wf(from: Seq<Seq<char>>, to: Seq<Seq<char>>, w: Seq<char>)
    requires
        from.no_duplicates(),
        to.no_duplicates(),
        forall|x: Seq<char>| !(#[trigger] from.contains(x) && to.contains(x)),
        !to.contains(w),
    ensures
        remove_id(from, w).no_duplicates(),
        to.push(w).no_duplicates(),
        forall|x: Seq<char>| !(#[trigger] remove_id(from, w).contains(x) && to.push(w).contains(x)),
        remove_id(from, w).contains(w) == false,
        to.push(w).contains(w),
{
    lemma_remove_id(from, w);
    lemma_push_no_dup(to, w);
    assert(to.push(w)[to.len() as int] == w);
}

/// Toggling keeps each bucket free of duplicates and the buckets disjoint.
pub proof fn lemma_toggled_wf(m: StateModel, w: Seq<char>, to_mastered: bool)
    requires
        well_formed(m),
    ensures
        well_formed(toggled(m, w, to_mastered)),
{
    let t = toggled(m, w, to_mastered);
    if to_mastered {
        if m.mastered.contains(w) {
            lemma_remove_id(m.mastered, w);
        } else {
            lemma_move_wf(m.difficult, m.mastered, w);
        }
    } else {
        if m.difficult.contains(w) {
            lemma_remove_id(m.difficult, w);
        } else {
            lemma_move_wf(m.mastered, m.difficult, w);
        }
    }
    assert(buckets_disjoint(t));
}

/// An answer keeps each bucket free of duplicates and the buckets disjoint.
pub proof fn lemma_answer_applied_wf(m: StateModel, correct: bool, now: i64)
    requires
        well_formed(m),
        m.review_index < m.review_pool.len(),
    ensures
        well_formed(answer_applied(m, correct, now)),
{
    let w = current_review_word(m);
    if promotes(m, correct, now) {
        lemma_move_wf(m.difficult, m.mastered, w);
    } else if demotes(m, correct) {
        lemma_move_wf(m.mastered, m.difficult, w);
    }
    assert(buckets_disjoint(answer_applied(m, correct, now)));
}

/// Settling keeps the buckets.
pub proof fn lemma_settle_wf(m: StateModel, now: i64)
    requires
        well_formed(m),
    ensures
        well_formed(settle(m, now)),
        settle(m, now).mastered == m.mastered,
        settle(m, now).difficult == m.difficult,
{
}

/// An answer keeps each bucket free of duplicates and the buckets disjoint.
pub proof fn lemma_answer_wf(m: StateModel, correct: bool, now: i64)
    requires
        well_formed(m),
    ensures
        well_formed(answer(m, correct, now)),
{
    if !m.locked && m.review_index < m.review_pool.len() {
        lemma_answer_applied_wf(m, correct, now);
    }
}

/// Marking keeps each bucket free of duplicates and the buckets disjoint.
pub proof fn lemma_mark_wf(m: StateModel, to_mastered: bool, now: i64)
    requires
        well_formed(m),
    ensures
        well_formed(mark(m, to_mastered, now)),
{
    if !m.locked && m.new_index < m.catalog.len() {
        lemma_toggled_wf(m, m.catalog[m.new_index as int], to_mastered);
    }
}

} // verus!
