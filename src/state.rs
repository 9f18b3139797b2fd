use vstd::prelude::*;
use crate::buckets::{contains_word, copy_words, has_no_duplicates, ids, push_word, remove_word, shares_word};
use crate::catalog::Word;
use crate::cycle::{CycleStats, band_of, bump_counter, resize_target};
use crate::message::{L2DMessage, Notice, message_kind};
use crate::model::{
    StateModel,
    answer,
    answer_applied,
    answer_notices,
    candidates,
    due_in,
    lemma_candidates_distinct,
    not_due_in,
    overdue_of,
    tie_of,
    lemma_answer_applied_wf,
    lemma_toggled_wf,
    mark,
    mark_notices,
    next_unmarked,
    prev_unmarked,
    regenerate,
    regenerate_notice,
    set_catalog,
    set_catalog_notices,
    settle,
    settle_notices,
    settling,
    step_new,
    step_new_notices,
    step_review,
    toggle_notice,
    toggled,
    unmarked_at,
    well_formed,
    with_stats,
};
use crate::order::chars_of;
use crate::ranking::{Ratio, lemma_word_ranking_exists, pick, rank_desc};
use crate::stats::WordStats;
use crate::table::{
    StatsEntry,
    entries_unique,
    find_entry,
    lookup_stats,
    put_stats,
    reset_all_cycles,
    stats_or_fresh,
    stats_table,
    unique_entries,
};

verus! {

/// The identities of the catalog's words.
pub open spec fn catalog_ids(v: Seq<Word>) -> Seq<Seq<char>> {
    v.map_values(|w: Word| w.word@)
}

/// The whole state of the engine.
#[derive(Debug, Clone, PartialEq)]
pub struct AppState {
    /// The word catalog, in its given order; not part of the saved state.
    pub all_words: Vec<Word>,
    pub mastered_words: Vec<String>,
    pub difficult_words: Vec<String>,
    /// Statistics of every word that was ever classified, one row per word.
    pub word_stats: Vec<StatsEntry>,
    /// Words due now, in review order.
    pub dynamic_review_pool: Vec<String>,
    /// Words not yet due, closest to due first.
    pub cache_pool: Vec<String>,
    /// Intended pool size, adapted at the end of each cycle.
    pub review_pool_target_size: usize,
    /// Cursor in the catalog.
    pub new_words_index: usize,
    /// Cursor in the review pool.
    pub dynamic_review_index: usize,
    /// While set, marks, answers and navigation are ignored.
    pub is_locked: bool,
    pub last_cycle_timestamp: i64,
    pub cycle_stats: CycleStats,
}

impl View for AppState {
    type V = StateModel;

    open spec fn view(&self) -> StateModel {
        StateModel {
            catalog: catalog_ids(self.all_words@),
            mastered: ids(self.mastered_words@),
            difficult: ids(self.difficult_words@),
            stats: stats_table(self.word_stats@),
            review_pool: ids(self.dynamic_review_pool@),
            cache_pool: ids(self.cache_pool@),
            target: self.review_pool_target_size,
            new_index: self.new_words_index,
            review_index: self.dynamic_review_index,
            locked: self.is_locked,
            last_cycle: self.last_cycle_timestamp,
            cycle: self.cycle_stats,
        }
    }
}

/// The state of a fresh start: nothing classified, a target of 20.
pub open spec fn initial_model() -> StateModel {
    StateModel {
        catalog: seq![],
        mastered: seq![],
        difficult: seq![],
        stats: Map::empty(),
        review_pool: seq![],
        cache_pool: seq![],
        target: 20,
        new_index: 0,
        review_index: 0,
        locked: false,
        last_cycle: 0,
        cycle: CycleStats { total_words: 0, reviewed_words: 0, correct_count: 0 },
    }
}

impl Default for AppState {
    fn default() -> (r: Self)
        ensures
            r.wf(),
            r@ == initial_model(),
    {
        let r = AppState {
            all_words: Vec::new(),
            mastered_words: Vec::new(),
            difficult_words: Vec::new(),
            word_stats: Vec::new(),
            dynamic_review_pool: Vec::new(),
            cache_pool: Vec::new(),
            review_pool_target_size: 20,
            new_words_index: 0,
            dynamic_review_index: 0,
            is_locked: false,
            last_cycle_timestamp: 0,
            cycle_stats: CycleStats::default(),
        };
        proof {
            assert(r@.catalog =~= seq![]);
            assert(r@.mastered =~= seq![]);
            assert(r@.difficult =~= seq![]);
            assert(r@.review_pool =~= seq![]);
            assert(r@.cache_pool =~= seq![]);
            assert(r@.stats =~= Map::empty());
        }
        r
    }
}

impl AppState {
    /// The buckets are free of duplicates and disjoint, and the statistics
    /// table has one row per word.
    pub open spec fn wf(&self) -> bool {
        well_formed(self@) && unique_entries(self.word_stats@)
    }

    /// Whether the state is well formed, as a saved state must be before it is
    /// loaded.
    pub fn is_well_formed(&self) -> (r: bool)
        ensures
            r == self.wf(),
    {
        has_no_duplicates(&self.mastered_words) && has_no_duplicates(&self.difficult_words)
            && !shares_word(&self.mastered_words, &self.difficult_words) && entries_unique(
            &self.word_stats,
        ) && self.cycle_stats.correct_count <= self.cycle_stats.reviewed_words
            && self.review_pool_target_size >= 1
    }

    /// Rebuilds the review pool and the cache pool at time `now` and starts a
    /// new cycle.
    ///
    /// Every mastered or difficult word is due when as many days have passed
    /// since its last review as its interval; a word never reviewed is always
    /// due. The due words form the review pool, most mistakes per streak first;
    /// the others form the cache pool, most overdue first; equal scores are
    /// ordered by the words themselves (lexicographically), so the pools depend
    /// only on the set of classified words, their statistics and `now`.
    pub fn generate_review_pool(&mut self, now: i64, out: &mut Vec<Notice>)
        requires
            old(self).wf(),
        ensures
            final(self).wf(),
            final(self)@ == regenerate(old(self)@, now),
            final(self).all_words == old(self).all_words,
            final(out)@ == old(out)@.push(regenerate_notice(old(self)@, now)),
    {
        let ghost m = self@;
        let mut cands: Vec<String> = copy_words(&self.mastered_words);
        let mut i: usize = 0;
        while i < self.difficult_words.len()
            invariant
                self@ == m,
                i <= self.difficult_words.len(),
                ids(cands@) == m.mastered + m.difficult.take(i as int),
            decreases self.difficult_words.len() - i,
        {
            push_word(&mut cands, &self.difficult_words[i]);
            proof {
                assert(m.difficult.take(i as int).push(m.difficult[i as int]) =~= m.difficult.take(i + 1));
                assert((m.mastered + m.difficult.take(i as int)).push(m.difficult[i as int])
                    =~= m.mastered + m.difficult.take(i + 1));
            }
            i += 1;
        }
        proof {
            assert(m.difficult.take(m.difficult.len() as int) =~= m.difficult);
            assert(ids(cands@) == candidates(m));
        }
        let mut tie: Vec<Ratio> = Vec::new();
        let mut overdue: Vec<Ratio> = Vec::new();
        let mut is_due: Vec<bool> = Vec::new();
        let mut not_due: Vec<bool> = Vec::new();
        let mut names: Vec<Vec<char>> = Vec::new();
        let ghost c = candidates(m);
        let mut k: usize = 0;
        while k < cands.len()
            invariant
                self@ == m,
                self.wf(),
                ids(cands@) == c,
                c == candidates(m),
                k <= cands.len(),
                tie.len() == k,
                overdue.len() == k,
                is_due.len() == k,
                not_due.len() == k,
                names.len() == k,
                forall|q: int| 0 <= q < k ==> #[trigger] tie@[q] == tie_of(m)(c[q]),
                forall|q: int| 0 <= q < k ==> #[trigger] overdue@[q] == overdue_of(m, now)(c[q]),
                forall|q: int| 0 <= q < k ==> #[trigger] is_due@[q] == due_in(m, now)(c[q]),
                forall|q: int| 0 <= q < k ==> #[trigger] not_due@[q] == not_due_in(m, now)(c[q]),
                forall|q: int| 0 <= q < k ==> (#[trigger] names@[q])@ == c[q],
            decreases cands.len() - k,
        {
            let s = lookup_stats(&self.word_stats, &cands[k]);
            proof {
                assert(ids(cands@)[k as int] == cands@[k as int]@);
                assert(s == stats_or_fresh(m.stats, c[k as int]));
            }
            let d = s.is_due(now);
            tie.push(s.tie_key());
            overdue.push(s.due_key(now));
            is_due.push(d);
            not_due.push(!d);
            names.push(chars_of(&cands[k]));
            k += 1;
        }
        proof {
            assert(tie@ =~= c.map_values(tie_of(m)));
            assert(overdue@ =~= c.map_values(overdue_of(m, now)));
            assert(is_due@ =~= c.map_values(due_in(m, now)));
            assert(not_due@ =~= c.map_values(not_due_in(m, now)));
            assert(names@.map_values(|n: Vec<char>| n@) =~= c);
            lemma_candidates_distinct(m);
            lemma_word_ranking_exists(c, tie_of(m), due_in(m, now));
            lemma_word_ranking_exists(c, overdue_of(m, now), not_due_in(m, now));
        }
        let due_idx = rank_desc(&tie, &names, &is_due);
        let cache_idx = rank_desc(&overdue, &names, &not_due);
        let pool = pick_words(&cands, &due_idx);
        let cache = pick_words(&cands, &cache_idx);
        let n_cands = cands.len();
        let n_due = pool.len();
        let n_cached = cache.len();
        self.dynamic_review_pool = pool;
        self.cache_pool = cache;
        self.dynamic_review_index = 0;
        self.cycle_stats = CycleStats { total_words: n_due, reviewed_words: 0, correct_count: 0 };
        reset_all_cycles(&mut self.word_stats);
        if n_cands == 0 {
            out.push(Notice::NothingToReview);
        } else {
            out.push(Notice::PoolUpdated { due: n_due, cached: n_cached });
        }
        proof {
            assert(self@.review_pool == regenerate(m, now).review_pool);
            assert(self@.cache_pool == regenerate(m, now).cache_pool);
            assert(self@ == regenerate(m, now));
        }
    }

    /// Ends the current cycle at time `now`: resizes the review-pool target
    /// from the cycle's accuracy, then starts a new cycle, all under the lock.
    pub fn perform_cycle_settlement(&mut self, now: i64, out: &mut Vec<Notice>)
        requires
            old(self).wf(),
        ensures
            final(self).wf(),
            final(self)@ == settle(old(self)@, now),
            final(self).all_words == old(self).all_words,
            final(out)@ == old(out)@ + settle_notices(old(self)@, now),
    {
        let ghost m = self@;
        let ghost o = out@;
        self.is_locked = true;
        let target = resize_target(
            self.review_pool_target_size,
            self.cycle_stats.correct_count,
            self.cycle_stats.reviewed_words,
        );
        self.review_pool_target_size = target;
        out.push(
            Notice::Settled {
                band: band_of(self.cycle_stats.correct_count, self.cycle_stats.reviewed_words),
                reviewed: self.cycle_stats.reviewed_words,
                correct: self.cycle_stats.correct_count,
                target,
            },
        );
        self.cache_pool = copy_words(&self.dynamic_review_pool);
        proof {
            assert(self@ == settling(m));
        }
        self.generate_review_pool(now, out);
        self.last_cycle_timestamp = now;
        self.is_locked = false;
        proof {
            assert(out@ =~= o + settle_notices(m, now));
        }
    }
}

impl AppState {
    /// Makes sure `w` has a row in the statistics table.
    fn ensure_stats(&mut self, w: &String)
        requires
            old(self).wf(),
        ensures
            unique_entries(final(self).word_stats@),
            final(self)@ == (StateModel { stats: with_stats(old(self)@, w@), ..old(self)@ }),
            final(self).all_words == old(self).all_words,
    {
        match find_entry(&self.word_stats, w) {
            Some(i) => {
                proof {
                    assert(self.word_stats@[i as int].word@ == w@);
                    assert(self@.stats.contains_key(w@));
                }
            },
            None => {
                put_stats(&mut self.word_stats, w, WordStats::default());
            },
        }
    }

    /// Toggles `w` in one bucket, keeping it out of the other.
    fn toggle(&mut self, w: &String, to_mastered: bool) -> (n: Notice)
        requires
            old(self).wf(),
        ensures
            final(self).wf(),
            final(self)@ == toggled(old(self)@, w@, to_mastered),
            final(self).all_words == old(self).all_words,
            n == toggle_notice(old(self)@, w@, to_mastered),
    {
        let ghost m = self@;
        proof {
            lemma_toggled_wf(m, w@, to_mastered);
        }
        if to_mastered {
            if remove_word(&mut self.mastered_words, w) {
                Notice::Unmarked { mastered: true }
            } else {
                push_word(&mut self.mastered_words, w);
                let moved = remove_word(&mut self.difficult_words, w);
                self.ensure_stats(w);
                if moved {
                    Notice::Moved { to_mastered: true }
                } else {
                    Notice::Marked { mastered: true }
                }
            }
        } else {
            if remove_word(&mut self.difficult_words, w) {
                Notice::Unmarked { mastered: false }
            } else {
                push_word(&mut self.difficult_words, w);
                let moved = remove_word(&mut self.mastered_words, w);
                self.ensure_stats(w);
                if moved {
                    Notice::Moved { to_mastered: false }
                } else {
                    Notice::Marked { mastered: false }
                }
            }
        }
    }

    fn mark_current(&mut self, to_mastered: bool, now: i64, out: &mut Vec<Notice>)
        requires
            old(self).wf(),
        ensures
            final(self).wf(),
            final(self)@ == mark(old(self)@, to_mastered, now),
            final(self).all_words == old(self).all_words,
            final(out)@ == old(out)@ + mark_notices(old(self)@, to_mastered, now),
    {
        let ghost m = self@;
        let ghost o = out@;
        if self.is_locked || self.new_words_index >= self.all_words.len() {
            proof {
                assert(out@ =~= o + mark_notices(m, to_mastered, now));
            }
            return;
        }
        let w = self.all_words[self.new_words_index].word.clone();
        proof {
            assert(w@ == m.catalog[m.new_index as int]);
        }
        let n = self.toggle(&w, to_mastered);
        out.push(n);
        self.generate_review_pool(now, out);
        out.push(Notice::SpeakWord);
        proof {
            assert(out@ =~= o + mark_notices(m, to_mastered, now));
        }
    }

    /// Toggles the current new word in the mastered bucket, then rebuilds the
    /// pools. A word put there leaves the difficult bucket and gets fresh
    /// statistics where it has none. Ignored while locked.
    pub fn mark_mastered(&mut self, now: i64, out: &mut Vec<Notice>)
        requires
            old(self).wf(),
        ensures
            final(self).wf(),
            final(self)@ == mark(old(self)@, true, now),
            final(self).all_words == old(self).all_words,
            final(out)@ == old(out)@ + mark_notices(old(self)@, true, now),
    {
        self.mark_current(true, now, out);
    }

    /// Toggles the current new word in the difficult bucket, then rebuilds the
    /// pools. A word put there leaves the mastered bucket and gets fresh
    /// statistics where it has none. Ignored while locked.
    pub fn mark_difficult(&mut self, now: i64, out: &mut Vec<Notice>)
        requires
            old(self).wf(),
        ensures
            final(self).wf(),
            final(self)@ == mark(old(self)@, false, now),
            final(self).all_words == old(self).all_words,
            final(out)@ == old(out)@ + mark_notices(old(self)@, false, now),
    {
        self.mark_current(false, now, out);
    }

    /// Applies an answer to the word under the review cursor, given whether it
    /// was correct, at time `now`. A correct answer that brings a difficult
    /// word's streak to 3 moves it to the mastered bucket; a wrong answer moves
    /// a mastered word to the difficult bucket. When every word of the pool
    /// has been answered in this cycle, the cycle is settled. Ignored while
    /// locked or when the cursor is outside the pool.
    pub fn submit_answer_outcome(&mut self, correct: bool, now: i64, out: &mut Vec<Notice>)
        requires
            old(self).wf(),
        ensures
            final(self).wf(),
            final(self)@ == answer(old(self)@, correct, now),
            final(self).all_words == old(self).all_words,
            final(out)@ == old(out)@ + answer_notices(old(self)@, correct, now),
    {
        let ghost m = self@;
        let ghost o = out@;
        if self.is_locked || self.dynamic_review_index >= self.dynamic_review_pool.len() {
            proof {
                assert(out@ =~= o + answer_notices(m, correct, now));
            }
            return;
        }
        let w = self.dynamic_review_pool[self.dynamic_review_index].clone();
        proof {
            assert(w@ == m.review_pool[m.review_index as int]);
            lemma_answer_applied_wf(m, correct, now);
        }
        let mut s = lookup_stats(&self.word_stats, &w);
        let first = !s.cycle_reviewed;
        s.record_answer(correct, now);
        put_stats(&mut self.word_stats, &w, s);
        if first {
            self.cycle_stats.reviewed_words = bump_counter(self.cycle_stats.reviewed_words);
            if correct {
                self.cycle_stats.correct_count = bump_counter(self.cycle_stats.correct_count);
            }
        }
        if correct {
            out.push(Notice::ShowCorrect);
        } else {
            out.push(Notice::ShowError);
        }
        let verdict: Notice;
        if correct {
            if s.consecutive_correct_answers >= 3 && contains_word(&self.difficult_words, &w) {
                remove_word(&mut self.difficult_words, &w);
                push_word(&mut self.mastered_words, &w);
                verdict = Notice::Promoted { interval: s.interval };
            } else {
                verdict =
                Notice::Correct { streak: s.consecutive_correct_answers, interval: s.interval };
            }
        } else {
            if contains_word(&self.mastered_words, &w) {
                remove_word(&mut self.mastered_words, &w);
                push_word(&mut self.difficult_words, &w);
                verdict = Notice::Demoted;
            } else {
                verdict = Notice::Incorrect;
            }
        }
        out.push(verdict);
        out.push(Notice::SpeakWord);
        proof {
            assert(self@ == answer_applied(m, correct, now));
        }
        if self.cycle_stats.reviewed_words >= self.dynamic_review_pool.len() {
            self.perform_cycle_settlement(now, out);
        }
        proof {
            assert(out@ =~= o + answer_notices(m, correct, now));
        }
    }

    /// Whether catalog position `i` holds a word in neither bucket.
    fn unmarked(&self, i: usize) -> (r: bool)
        ensures
            r == unmarked_at(self@, i as int),
    {
        if i >= self.all_words.len() {
            return false;
        }
        let w = &self.all_words[i].word;
        proof {
            assert(w@ == self@.catalog[i as int]);
        }
        !contains_word(&self.mastered_words, w) && !contains_word(&self.difficult_words, w)
    }

    /// Moves the catalog cursor to the next word in neither bucket; where there
    /// is none it stays and the end is reported. Ignored while locked.
    pub fn next_new_word(&mut self, out: &mut Vec<Notice>)
        ensures
            final(self)@ == step_new(old(self)@, true),
            final(self).all_words == old(self).all_words,
            final(self).word_stats == old(self).word_stats,
            final(out)@ == old(out)@ + step_new_notices(old(self)@, true),
    {
        let ghost m = self@;
        let ghost o = out@;
        if self.is_locked {
            proof {
                assert(out@ =~= o + step_new_notices(m, true));
            }
            return;
        }
        let len = self.all_words.len();
        let mut idx = self.new_words_index;
        let mut found = false;
        while !found && len > 0 && idx < len - 1
            invariant
                len == m.catalog.len(),
                idx >= m.new_index,
                found ==> next_unmarked(m, m.new_index + 1) == Some(idx as int),
                !found ==> next_unmarked(m, m.new_index + 1) == next_unmarked(m, idx + 1),
                self@ == m,
            decreases len - idx,
        {
            idx += 1;
            found = self.unmarked(idx);
        }
        if found {
            self.new_words_index = idx;
            out.push(Notice::SpeakWord);
        } else {
            out.push(Notice::LastNewWord);
        }
        proof {
            assert(out@ =~= o + step_new_notices(m, true));
        }
    }

    /// Moves the catalog cursor to the previous word in neither bucket; where
    /// there is none it stays and the start is reported. Ignored while locked.
    pub fn prev_new_word(&mut self, out: &mut Vec<Notice>)
        ensures
            final(self)@ == step_new(old(self)@, false),
            final(self).all_words == old(self).all_words,
            final(self).word_stats == old(self).word_stats,
            final(out)@ == old(out)@ + step_new_notices(old(self)@, false),
    {
        let ghost m = self@;
        let ghost o = out@;
        if self.is_locked {
            proof {
                assert(out@ =~= o + step_new_notices(m, false));
            }
            return;
        }
        let mut idx = self.new_words_index;
        let mut found = false;
        while !found && idx > 0
            invariant
                idx <= m.new_index,
                found ==> prev_unmarked(m, m.new_index - 1) == Some(idx as int),
                !found ==> prev_unmarked(m, m.new_index - 1) == prev_unmarked(m, idx - 1),
                self@ == m,
            decreases idx,
        {
            idx -= 1;
            found = self.unmarked(idx);
        }
        if found {
            self.new_words_index = idx;
            out.push(Notice::SpeakWord);
        } else {
            out.push(Notice::FirstNewWord);
        }
        proof {
            assert(out@ =~= o + step_new_notices(m, false));
        }
    }

    /// Moves the review cursor one word forward, wrapping to the start.
    /// Ignored while locked or when the pool is empty.
    pub fn next_review_word(&mut self)
        ensures
            final(self)@ == step_review(old(self)@, true),
            final(self).all_words == old(self).all_words,
            final(self).word_stats == old(self).word_stats,
    {
        let len = self.dynamic_review_pool.len();
        if !self.is_locked && len > 0 {
            let idx = self.dynamic_review_index;
            proof {
                vstd::arithmetic::div_mod::lemma_add_mod_noop_right(1, idx as int, len as int);
                vstd::arithmetic::div_mod::lemma_mod_bound(idx as int, len as int);
            }
            self.dynamic_review_index = (idx % len + 1) % len;
        }
    }

    /// Moves the review cursor one word back, wrapping to the end.
    /// Ignored while locked or when the pool is empty.
    pub fn prev_review_word(&mut self)
        ensures
            final(self)@ == step_review(old(self)@, false),
            final(self).all_words == old(self).all_words,
            final(self).word_stats == old(self).word_stats,
    {
        let len = self.dynamic_review_pool.len();
        if !self.is_locked && len > 0 {
            if self.dynamic_review_index == 0 {
                self.dynamic_review_index = len - 1;
            } else {
                self.dynamic_review_index = self.dynamic_review_index - 1;
            }
        }
    }

    /// Installs the word catalog; where words are classified and the review
    /// pool is empty, builds a first pool at time `now`.
    pub fn set_all_words(&mut self, words: Vec<Word>, now: i64, out: &mut Vec<Notice>)
        requires
            old(self).wf(),
        ensures
            final(self).wf(),
            final(self)@ == set_catalog(old(self)@, catalog_ids(words@), now),
            final(self).all_words == words,
            final(out)@ == old(out)@ + set_catalog_notices(old(self)@, catalog_ids(words@), now),
    {
        let ghost m = self@;
        let ghost o = out@;
        self.all_words = words;
        if self.mastered_words.len() == 0 && self.difficult_words.len() == 0 {
            out.push(Notice::StartByMarking);
        } else if self.dynamic_review_pool.len() == 0 {
            self.generate_review_pool(now, out);
        }
        proof {
            assert(out@ =~= o + set_catalog_notices(m, catalog_ids(words@), now));
        }
    }

    /// Replaces the state with a saved one, keeping the catalog.
    pub fn load_state(&mut self, state: AppState)
        requires
            state.wf(),
        ensures
            final(self).wf(),
            final(self)@ == (StateModel { catalog: old(self)@.catalog, ..state@ }),
            final(self).all_words == old(self).all_words,
    {
        let mut next = state;
        std::mem::swap(&mut next.all_words, &mut self.all_words);
        *self = next;
    }
}

/// The lower-case form of a text, as `str::to_lowercase` gives it.
pub uninterp spec fn lower_of(s: Seq<char>) -> Seq<char>;

/// Relies on `str::to_lowercase`: the lower-case form of `s`, which depends on
/// its characters alone.
#[verifier::external_body]
fn lowercase(s: &String) -> (r: String)
    ensures
        r@ == lower_of(s@),
{
    s.to_lowercase()
}

/// Two texts are equal ignoring case.
pub open spec fn same_ignoring_case(a: Seq<char>, b: Seq<char>) -> bool {
    lower_of(a) == lower_of(b)
}

/// An input to the engine.
#[derive(Debug, Clone)]
pub enum AppAction {
    /// Install the word catalog.
    SetAllWords(Vec<Word>),
    /// Replace the state with a saved one, keeping the catalog.
    LoadState(AppState),
    NextNewWord,
    PrevNewWord,
    NextReviewWord,
    PrevReviewWord,
    /// Toggle the current new word in the mastered bucket.
    MarkMastered,
    /// Toggle the current new word in the difficult bucket.
    MarkDifficult,
    /// The learner's answer and the correct spelling of the current review word.
    SubmitAnswer(String, String),
    GenerateReviewPool,
    CycleSettlement,
    SetLock(bool),
    /// Pass a message on to the presentation layer.
    SendL2DMessage(L2DMessage),
}

/// The action can be applied: a saved state to load is well formed.
pub open spec fn action_ok(a: AppAction) -> bool {
    match a {
        AppAction::LoadState(s) => s.wf(),
        _ => true,
    }
}

/// The state after applying `a` at time `now`.
pub open spec fn next_model(m: StateModel, a: AppAction, now: i64) -> StateModel {
    match a {
        AppAction::SetAllWords(words) => set_catalog(m, catalog_ids(words@), now),
        AppAction::LoadState(s) => StateModel { catalog: m.catalog, ..s@ },
        AppAction::NextNewWord => step_new(m, true),
        AppAction::PrevNewWord => step_new(m, false),
        AppAction::NextReviewWord => step_review(m, true),
        AppAction::PrevReviewWord => step_review(m, false),
        AppAction::MarkMastered => mark(m, true, now),
        AppAction::MarkDifficult => mark(m, false, now),
        AppAction::SubmitAnswer(u, c) => answer(m, same_ignoring_case(u@, c@), now),
        AppAction::GenerateReviewPool => regenerate(m, now),
        AppAction::CycleSettlement => settle(m, now),
        AppAction::SetLock(b) => StateModel { locked: b, ..m },
        AppAction::SendL2DMessage(_) => m,
    }
}

/// What applying `a` at time `now` reports.
pub open spec fn next_notices(m: StateModel, a: AppAction, now: i64) -> Seq<Notice> {
    match a {
        AppAction::SetAllWords(words) => set_catalog_notices(m, catalog_ids(words@), now),
        AppAction::NextNewWord => step_new_notices(m, true),
        AppAction::PrevNewWord => step_new_notices(m, false),
        AppAction::MarkMastered => mark_notices(m, true, now),
        AppAction::MarkDifficult => mark_notices(m, false, now),
        AppAction::SubmitAnswer(u, c) => answer_notices(m, same_ignoring_case(u@, c@), now),
        AppAction::GenerateReviewPool => seq![regenerate_notice(m, now)],
        AppAction::CycleSettlement => settle_notices(m, now),
        AppAction::SendL2DMessage(msg) => seq![Notice::Relay { kind: message_kind(msg) }],
        _ => seq![],
    }
}

impl AppState {
    /// Applies the learner's answer to the current review word at time `now`;
    /// it is correct when it equals the correct spelling ignoring case.
    pub fn submit_answer(
        &mut self,
        user_answer: &String,
        correct_answer: &String,
        now: i64,
        out: &mut Vec<Notice>,
    )
        requires
            old(self).wf(),
        ensures
            final(self).wf(),
            final(self)@ == answer(old(self)@, same_ignoring_case(user_answer@, correct_answer@), now),
            final(self).all_words == old(self).all_words,
            final(out)@ == old(out)@ + answer_notices(
                old(self)@,
                same_ignoring_case(user_answer@, correct_answer@),
                now,
            ),
    {
        let a = lowercase(user_answer);
        let b = lowercase(correct_answer);
        let correct = a == b;
        self.submit_answer_outcome(correct, now, out);
    }

    /// Applies one action at time `now` and returns what it reports.
    pub fn reduce(&mut self, action: AppAction, now: i64) -> (out: Vec<Notice>)
        requires
            old(self).wf(),
            action_ok(action),
        ensures
            final(self).wf(),
            final(self)@ == next_model(old(self)@, action, now),
            out@ == next_notices(old(self)@, action, now),
            final(self).all_words == (match action {
                AppAction::SetAllWords(words) => words,
                _ => old(self).all_words,
            }),
    {
        let ghost m = self@;
        let mut out: Vec<Notice> = Vec::new();
        match action {
            AppAction::SetAllWords(words) => self.set_all_words(words, now, &mut out),
            AppAction::LoadState(state) => self.load_state(state),
            AppAction::NextNewWord => self.next_new_word(&mut out),
            AppAction::PrevNewWord => self.prev_new_word(&mut out),
            AppAction::NextReviewWord => self.next_review_word(),
            AppAction::PrevReviewWord => self.prev_review_word(),
            AppAction::MarkMastered => self.mark_mastered(now, &mut out),
            AppAction::MarkDifficult => self.mark_difficult(now, &mut out),
            AppAction::SubmitAnswer(u, c) => self.submit_answer(&u, &c, now, &mut out),
            AppAction::GenerateReviewPool => self.generate_review_pool(now, &mut out),
            AppAction::CycleSettlement => self.perform_cycle_settlement(now, &mut out),
            AppAction::SetLock(locked) => self.is_locked = locked,
            AppAction::SendL2DMessage(msg) => out.push(Notice::Relay { kind: msg.kind() }),
        }
        proof {
            assert(out@ =~= next_notices(m, action, now));
        }
        out
    }
}

/// The words of `c` at the positions `order`.
fn pick_words(c: &Vec<String>, order: &Vec<usize>) -> (r: Vec<String>)
    requires
        forall|k: int| 0 <= k < order.len() ==> (#[trigger] order@[k]) < c.len(),
    ensures
        ids(r@) == pick(ids(c@), order@),
{
    let mut r: Vec<String> = Vec::new();
    let mut k: usize = 0;
    while k < order.len()
        invariant
            k <= order.len(),
            forall|q: int| 0 <= q < order.len() ==> (#[trigger] order@[q]) < c.len(),
            ids(r@) == pick(ids(c@), order@.take(k as int)),
        decreases order.len() - k,
    {
        push_word(&mut r, &c[order[k]]);
        proof {
            assert(pick(ids(c@), order@.take(k as int)).push(c@[order@[k as int] as int]@)
                =~= pick(ids(c@), order@.take(k + 1)));
        }
        k += 1;
    }
    proof {
        assert(order@.take(order.len() as int) =~= order@);
    }
    r
}

} // verus!
