use vocab_review::cycle::resize_target;
use vocab_review::ranking::{rank_desc, Ratio};
use vocab_review::stats::{day_number, scale_interval};
use vocab_review::{
    AccuracyBand, AppAction, AppState, CycleStats, L2DMessage, MessageKind, Notice, StatsEntry,
    Word, WordStats,
};

const NOW: i64 = 1_700_000_000_000;
const DAY: i64 = 86_400_000;

fn word(w: &str) -> Word {
    Word { word: w.to_string(), translations: vec![], phrases: vec![] }
}

fn catalog(words: &[&str]) -> Vec<Word> {
    words.iter().map(|w| word(w)).collect()
}

fn strings(words: &[&str]) -> Vec<String> {
    words.iter().map(|w| w.to_string()).collect()
}

fn stats_of(state: &AppState, w: &str) -> Option<WordStats> {
    state.word_stats.iter().find(|e| e.word == w).map(|e| e.stats)
}

fn no_overlap(state: &AppState) -> bool {
    state.mastered_words.iter().all(|w| !state.difficult_words.contains(w))
}

/// A state whose catalog is `words`, with the given buckets and fresh statistics
/// for every classified word.
fn state_with(words: &[&str], mastered: &[&str], difficult: &[&str]) -> AppState {
    let mut s = AppState::default();
    s.all_words = catalog(words);
    s.mastered_words = strings(mastered);
    s.difficult_words = strings(difficult);
    for w in mastered.iter().chain(difficult.iter()) {
        s.word_stats.push(StatsEntry { word: w.to_string(), stats: WordStats::default() });
    }
    s
}

#[test]
fn message_priorities() {
    assert_eq!(L2DMessage::Success("a".to_string()).priority(), 3);
    assert_eq!(L2DMessage::Error("a".to_string()).priority(), 3);
    assert_eq!(L2DMessage::Flow("a".to_string()).priority(), 2);
    assert_eq!(L2DMessage::System("a".to_string()).priority(), 2);
    assert_eq!(L2DMessage::Quiz("a".to_string()).priority(), 1);
}

#[test]
fn default_state_and_stats() {
    let s = AppState::default();
    assert_eq!(s.review_pool_target_size, 20);
    assert!(s.mastered_words.is_empty() && s.difficult_words.is_empty());
    assert_eq!(s.cycle_stats, CycleStats::default());
    let st = WordStats::default();
    assert_eq!(st.easiness_factor, 250);
    assert_eq!(st.interval, 1);
    assert_eq!(st.last_review_timestamp, 0);
    assert_eq!(st.cycle_first_answer_correct, None);
}

#[test]
fn interval_progression_of_a_fresh_word() {
    let mut s = WordStats::default();
    let mut intervals = vec![];
    for k in 0..3 {
        s.record_answer(true, NOW + k);
        intervals.push(s.interval);
    }
    // Easiness: 2.55, 2.60, then 2.75; the third interval is round(4 * 2.60),
    // scaled by the easiness from before the answer.
    assert_eq!(s.easiness_factor, 275);
    assert_eq!(intervals, vec![1, 4, 10]);
    s.record_answer(true, NOW + 3);
    // round(10 * 2.75) = round(27.5)
    assert_eq!(s.easiness_factor, 290);
    assert_eq!(s.interval, 28);
    assert_eq!(s.consecutive_correct_answers, 4);
    assert_eq!(s.total_correct, 4);
    assert_eq!(s.total_reviews, 4);
    assert_eq!(s.last_review_timestamp, NOW + 3);
}

#[test]
fn ease_floor_under_wrong_answers() {
    let mut s = WordStats::default();
    let expected = [230, 210, 190, 170, 150, 130, 130, 130];
    for (k, e) in expected.iter().enumerate() {
        s.record_answer(false, NOW + k as i64);
        assert_eq!(s.easiness_factor, *e);
        assert!(s.easiness_factor >= 130);
        assert_eq!(s.interval, 1);
        assert_eq!(s.consecutive_correct_answers, 0);
    }
    assert_eq!(s.total_incorrect_answers, 8);
    let mut low = WordStats { easiness_factor: 100, ..WordStats::default() };
    low.record_answer(false, NOW);
    assert_eq!(low.easiness_factor, 130);
}

#[test]
fn wrong_answer_resets_streak_and_cycle_fields() {
    let mut s = WordStats::default();
    s.record_answer(true, NOW);
    s.record_answer(true, NOW);
    s.record_answer(false, NOW);
    assert_eq!(s.consecutive_correct_answers, 0);
    assert_eq!(s.total_incorrect_answers, 1);
    assert_eq!(s.total_correct, 2);
    assert_eq!(s.cycle_first_answer_correct, Some(true));
    assert_eq!(s.cycle_attempts, 3);
    assert!(s.cycle_reviewed);
    s.reset_cycle();
    assert!(!s.cycle_reviewed);
    assert_eq!(s.cycle_first_answer_correct, None);
    assert_eq!(s.cycle_attempts, 0);
    assert_eq!(s.total_reviews, 3);
}

#[test]
fn interval_rounding_and_cap() {
    assert_eq!(scale_interval(4, 260), 10);
    assert_eq!(scale_interval(4, 275), 11);
    assert_eq!(scale_interval(1, 250), 3);
    assert_eq!(scale_interval(u32::MAX, 300), u32::MAX);
}

#[test]
fn day_numbers_round_down() {
    assert_eq!(day_number(0), 0);
    assert_eq!(day_number(DAY - 1), 0);
    assert_eq!(day_number(DAY), 1);
    assert_eq!(day_number(-1), -1);
    assert_eq!(day_number(-DAY), -1);
    assert_eq!(day_number(-DAY - 1), -2);
}

#[test]
fn due_rules() {
    let fresh = WordStats::default();
    assert!(fresh.is_due(NOW));
    assert_eq!(fresh.days_since_review(NOW), 1_000_000);
    let recent = WordStats { last_review_timestamp: NOW, interval: 30, ..WordStats::default() };
    assert!(!recent.is_due(NOW));
    assert_eq!(recent.days_since_review(NOW + 3 * DAY), 3);
    assert!(recent.is_due(NOW + 30 * DAY));
    let future = WordStats { last_review_timestamp: NOW + 5 * DAY, ..WordStats::default() };
    assert_eq!(future.days_since_review(NOW), 0);
    let zero_interval = WordStats { last_review_timestamp: NOW, interval: 0, ..WordStats::default() };
    assert_eq!(zero_interval.due_key(NOW + DAY), Ratio { num: 1, den: 1 });
    let missed = WordStats {
        total_incorrect_answers: 3,
        consecutive_correct_answers: 2,
        ..WordStats::default()
    };
    assert_eq!(missed.tie_key(), Ratio { num: 3, den: 3 });
}

#[test]
fn ranking_orders_descending_with_ties_by_name() {
    let keys = vec![
        Ratio { num: 1, den: 2 },
        Ratio { num: 3, den: 1 },
        Ratio { num: 2, den: 4 },
        Ratio { num: 0, den: 1 },
        Ratio { num: 5, den: 1 },
    ];
    let same: Vec<Vec<char>> = vec![vec![]; 5];
    assert_eq!(rank_desc(&keys, &same, &vec![true; 5]), vec![4, 1, 0, 2, 3]);
    assert_eq!(rank_desc(&keys, &same, &vec![true, false, true, true, false]), vec![0, 2, 3]);
    let names: Vec<Vec<char>> = ["z", "q", "y", "x", "w"].iter().map(|n| n.chars().collect()).collect();
    assert_eq!(rank_desc(&keys, &names, &vec![true; 5]), vec![4, 1, 2, 0, 3]);
    assert_eq!(rank_desc(&vec![], &vec![], &vec![]), Vec::<usize>::new());
}

#[test]
fn due_partition_splits_pools() {
    let mut s = state_with(&["A", "B"], &["A", "B"], &[]);
    s.word_stats[1].stats =
        WordStats { last_review_timestamp: NOW, interval: 30, ..WordStats::default() };
    let mut out = vec![];
    s.generate_review_pool(NOW, &mut out);
    assert_eq!(s.dynamic_review_pool, strings(&["A"]));
    assert_eq!(s.cache_pool, strings(&["B"]));
    assert_eq!(s.cycle_stats, CycleStats { total_words: 1, reviewed_words: 0, correct_count: 0 });
    assert_eq!(out, vec![Notice::PoolUpdated { due: 1, cached: 1 }]);
}

#[test]
fn review_pool_order_by_mistakes_then_word() {
    let mut s = state_with(&["d", "b", "c", "a"], &["d", "b"], &["c", "a"]);
    // Rows follow the buckets: d, b, c, a.
    s.word_stats[1].stats.total_incorrect_answers = 2;
    s.word_stats[2].stats.total_incorrect_answers = 4;
    s.word_stats[2].stats.consecutive_correct_answers = 1;
    s.dynamic_review_index = 3;
    let mut out = vec![];
    s.generate_review_pool(NOW, &mut out);
    // b: 2/1, c: 4/2, then a and d with 0, in lexicographic order.
    assert_eq!(s.dynamic_review_pool, strings(&["b", "c", "a", "d"]));
    assert_eq!(s.dynamic_review_index, 0);
}

#[test]
fn cache_pool_closest_to_due_first() {
    let mut s = state_with(&["a", "b", "c"], &["a", "b", "c"], &[]);
    s.word_stats[0].stats = WordStats { last_review_timestamp: NOW - DAY, interval: 10, ..WordStats::default() };
    s.word_stats[1].stats = WordStats { last_review_timestamp: NOW - 5 * DAY, interval: 10, ..WordStats::default() };
    s.word_stats[2].stats = WordStats { last_review_timestamp: NOW - 2 * DAY, interval: 4, ..WordStats::default() };
    let mut out = vec![];
    s.generate_review_pool(NOW, &mut out);
    assert!(s.dynamic_review_pool.is_empty());
    assert_eq!(s.cache_pool, strings(&["b", "c", "a"]));
    assert_eq!(out, vec![Notice::PoolUpdated { due: 0, cached: 3 }]);
}

#[test]
fn empty_buckets_give_empty_pools() {
    let mut s = AppState::default();
    s.dynamic_review_pool = strings(&["x"]);
    s.cache_pool = strings(&["y"]);
    s.cycle_stats = CycleStats { total_words: 4, reviewed_words: 2, correct_count: 1 };
    s.word_stats.push(StatsEntry {
        word: "x".to_string(),
        stats: WordStats { cycle_reviewed: true, cycle_attempts: 2, ..WordStats::default() },
    });
    let mut out = vec![];
    s.generate_review_pool(NOW, &mut out);
    assert!(s.dynamic_review_pool.is_empty() && s.cache_pool.is_empty());
    assert_eq!(s.cycle_stats, CycleStats::default());
    assert_eq!(out, vec![Notice::NothingToReview]);
    let x = stats_of(&s, "x").unwrap();
    assert!(!x.cycle_reviewed);
    assert_eq!(x.cycle_attempts, 0);
}

#[test]
fn settlement_sizing() {
    assert_eq!(resize_target(20, 5, 5), 40);
    assert_eq!(resize_target(20, 3, 5), 21);
    assert_eq!(resize_target(20, 1, 5), 10);
    assert_eq!(resize_target(1, 1, 5), 1);
    assert_eq!(resize_target(21, 0, 4), 11);
    assert_eq!(resize_target(20, 1, 2), 21);
    assert_eq!(resize_target(20, 0, 0), 10);
    assert_eq!(resize_target(usize::MAX, 2, 2), usize::MAX);
}

#[test]
fn explicit_settlement_resizes_and_starts_a_cycle() {
    let mut s = state_with(&["a"], &["a"], &[]);
    let mut out = vec![];
    s.generate_review_pool(NOW, &mut out);
    s.cycle_stats = CycleStats { total_words: 1, reviewed_words: 5, correct_count: 3 };
    let mut out = vec![];
    s.reduce_into(AppAction::CycleSettlement, NOW + 7, &mut out);
    assert_eq!(s.review_pool_target_size, 21);
    assert_eq!(s.last_cycle_timestamp, NOW + 7);
    assert!(!s.is_locked);
    assert_eq!(s.cycle_stats, CycleStats { total_words: 1, reviewed_words: 0, correct_count: 0 });
    assert_eq!(
        out,
        vec![
            Notice::Settled { band: AccuracyBand::Fair, reviewed: 5, correct: 3, target: 21 },
            Notice::PoolUpdated { due: 1, cached: 0 }
        ]
    );
}

trait ReduceInto {
    fn reduce_into(&mut self, action: AppAction, now: i64, out: &mut Vec<Notice>);
}

impl ReduceInto for AppState {
    fn reduce_into(&mut self, action: AppAction, now: i64, out: &mut Vec<Notice>) {
        out.extend(self.reduce(action, now));
    }
}

#[test]
fn cycle_auto_trigger_after_three_words() {
    let mut s = state_with(&["a", "b", "c"], &["a", "b", "c"], &[]);
    let mut out = vec![];
    s.generate_review_pool(NOW, &mut out);
    assert_eq!(s.dynamic_review_pool.len(), 3);
    s.reduce(AppAction::SubmitAnswer("a".to_string(), "a".to_string()), NOW);
    s.reduce(AppAction::NextReviewWord, NOW);
    s.reduce(AppAction::SubmitAnswer("x".to_string(), "b".to_string()), NOW);
    assert_eq!(s.cycle_stats.reviewed_words, 2);
    assert_eq!(s.cycle_stats.correct_count, 1);
    assert!(stats_of(&s, "a").unwrap().cycle_reviewed);
    s.reduce(AppAction::NextReviewWord, NOW);
    let out = s.reduce(AppAction::SubmitAnswer("C".to_string(), "c".to_string()), NOW);
    assert!(out.contains(&Notice::Settled { band: AccuracyBand::Fair, reviewed: 3, correct: 2, target: 21 }));
    assert_eq!(s.review_pool_target_size, 21);
    assert_eq!(s.last_cycle_timestamp, NOW);
    for e in &s.word_stats {
        assert!(!e.stats.cycle_reviewed);
        assert_eq!(e.stats.cycle_first_answer_correct, None);
        assert_eq!(e.stats.cycle_attempts, 0);
    }
    // Every word was just reviewed with an interval of 1 day: none is due.
    assert!(s.dynamic_review_pool.is_empty());
    assert_eq!(s.cache_pool.len(), 3);
    assert_eq!(s.cycle_stats, CycleStats::default());
}

#[test]
fn second_answer_in_cycle_does_not_count_again() {
    let mut s = state_with(&["a", "b"], &["a", "b"], &[]);
    let mut out = vec![];
    s.generate_review_pool(NOW, &mut out);
    s.reduce(AppAction::SubmitAnswer("no".to_string(), "a".to_string()), NOW);
    s.reduce(AppAction::SubmitAnswer("a".to_string(), "a".to_string()), NOW);
    assert_eq!(s.cycle_stats.reviewed_words, 1);
    assert_eq!(s.cycle_stats.correct_count, 0);
    let a = stats_of(&s, "a").unwrap();
    assert_eq!(a.cycle_first_answer_correct, Some(false));
    assert_eq!(a.cycle_attempts, 2);
    assert_eq!(a.consecutive_correct_answers, 1);
}

#[test]
fn promotion_after_three_correct_answers() {
    let mut s = state_with(&["a", "b"], &["b"], &["a"]);
    s.word_stats[1].stats.consecutive_correct_answers = 0;
    let mut out = vec![];
    s.generate_review_pool(NOW, &mut out);
    assert_eq!(s.dynamic_review_pool, strings(&["a", "b"]));
    s.dynamic_review_index = 0;
    let first = s.reduce(AppAction::SubmitAnswer("a".to_string(), "a".to_string()), NOW);
    assert_eq!(first[1], Notice::Correct { streak: 1, interval: 1 });
    s.dynamic_review_index = 0;
    s.reduce(AppAction::SubmitAnswer("a".to_string(), "a".to_string()), NOW);
    assert!(s.difficult_words.contains(&"a".to_string()));
    s.dynamic_review_index = 0;
    let third = s.reduce(AppAction::SubmitAnswer("A".to_string(), "a".to_string()), NOW);
    assert_eq!(third[1], Notice::Promoted { interval: 10 });
    assert!(s.mastered_words.contains(&"a".to_string()));
    assert!(!s.difficult_words.contains(&"a".to_string()));
    assert!(no_overlap(&s));
}

#[test]
fn promotion_after_an_earlier_reset() {
    let mut s = state_with(&["a"], &[], &["a"]);
    s.word_stats[0].stats = WordStats {
        consecutive_correct_answers: 2,
        total_incorrect_answers: 6,
        ..WordStats::default()
    };
    let mut out = vec![];
    s.generate_review_pool(NOW, &mut out);
    s.reduce(AppAction::SubmitAnswer("a".to_string(), "a".to_string()), NOW);
    assert_eq!(s.mastered_words, strings(&["a"]));
    assert!(s.difficult_words.is_empty());
}

#[test]
fn demotion_after_one_wrong_answer() {
    let mut s = state_with(&["a", "b"], &["a", "b"], &[]);
    let mut out = vec![];
    s.generate_review_pool(NOW, &mut out);
    let out = s.reduce(AppAction::SubmitAnswer("wrong".to_string(), "a".to_string()), NOW);
    assert_eq!(out, vec![Notice::ShowError, Notice::Demoted, Notice::SpeakWord]);
    assert_eq!(s.mastered_words, strings(&["b"]));
    assert_eq!(s.difficult_words, strings(&["a"]));
    let a = stats_of(&s, "a").unwrap();
    assert_eq!(a.easiness_factor, 230);
    assert_eq!(a.total_incorrect_answers, 1);
}

#[test]
fn answers_compare_ignoring_case() {
    let mut s = state_with(&["Apple", "b"], &["Apple", "b"], &[]);
    let mut out = vec![];
    s.generate_review_pool(NOW, &mut out);
    let out = s.reduce(AppAction::SubmitAnswer("aPPLE".to_string(), "Apple".to_string()), NOW);
    assert_eq!(out[0], Notice::ShowCorrect);
    assert_eq!(s.cycle_stats.correct_count, 1);
    assert_eq!(stats_of(&s, "Apple").unwrap().total_correct, 1);
}

#[test]
fn answer_without_a_pool_word_is_ignored() {
    let mut s = state_with(&["a"], &[], &[]);
    let before = s.clone();
    let out = s.reduce(AppAction::SubmitAnswer("a".to_string(), "a".to_string()), NOW);
    assert!(out.is_empty());
    assert_eq!(s.word_stats.len(), before.word_stats.len());
    assert_eq!(s.cycle_stats, before.cycle_stats);
}

#[test]
fn marking_moves_between_buckets() {
    let mut s = state_with(&["a", "b"], &[], &[]);
    let out = s.reduce(AppAction::MarkMastered, NOW);
    assert_eq!(
        out,
        vec![
            Notice::Marked { mastered: true },
            Notice::PoolUpdated { due: 1, cached: 0 },
            Notice::SpeakWord
        ]
    );
    assert_eq!(s.mastered_words, strings(&["a"]));
    assert!(stats_of(&s, "a").is_some());
    let out = s.reduce(AppAction::MarkDifficult, NOW);
    assert_eq!(out[0], Notice::Moved { to_mastered: false });
    assert!(s.mastered_words.is_empty());
    assert_eq!(s.difficult_words, strings(&["a"]));
    let out = s.reduce(AppAction::MarkDifficult, NOW);
    assert_eq!(out[0], Notice::Unmarked { mastered: false });
    assert_eq!(out[1], Notice::NothingToReview);
    assert!(s.difficult_words.is_empty());
    assert!(stats_of(&s, "a").is_some());
}

#[test]
fn marks_never_overlap() {
    let mut s = state_with(&["a", "b", "c"], &[], &[]);
    let actions = [
        AppAction::MarkMastered,
        AppAction::MarkDifficult,
        AppAction::MarkMastered,
        AppAction::MarkMastered,
        AppAction::MarkDifficult,
        AppAction::MarkMastered,
    ];
    for i in 0..3 {
        s.new_words_index = i;
        for a in actions.iter() {
            s.reduce(a.clone(), NOW);
            assert!(no_overlap(&s));
            assert!(s.is_well_formed());
        }
    }
}

#[test]
fn toggling_mastered_twice_returns_to_new() {
    let mut s = state_with(&["a", "b"], &["b"], &[]);
    s.new_words_index = 0;
    s.reduce(AppAction::MarkMastered, NOW);
    assert_eq!(s.mastered_words, strings(&["b", "a"]));
    let out = s.reduce(AppAction::MarkMastered, NOW);
    assert_eq!(out[0], Notice::Unmarked { mastered: true });
    assert_eq!(s.mastered_words, strings(&["b"]));
    assert!(s.difficult_words.is_empty());
    assert_eq!(stats_of(&s, "a"), Some(WordStats::default()));
}

#[test]
fn new_word_navigation_skips_marked_words() {
    let mut s = state_with(&["a", "b", "c", "d"], &["b"], &["c"]);
    let out = s.reduce(AppAction::NextNewWord, NOW);
    assert_eq!(s.new_words_index, 3);
    assert_eq!(out, vec![Notice::SpeakWord]);
    let out = s.reduce(AppAction::NextNewWord, NOW);
    assert_eq!(s.new_words_index, 3);
    assert_eq!(out, vec![Notice::LastNewWord]);
    let out = s.reduce(AppAction::PrevNewWord, NOW);
    assert_eq!(s.new_words_index, 0);
    assert_eq!(out, vec![Notice::SpeakWord]);
    let out = s.reduce(AppAction::PrevNewWord, NOW);
    assert_eq!(s.new_words_index, 0);
    assert_eq!(out, vec![Notice::FirstNewWord]);
}

#[test]
fn review_navigation_wraps() {
    let mut s = state_with(&["a", "b", "c"], &["a", "b", "c"], &[]);
    s.reduce(AppAction::GenerateReviewPool, NOW);
    s.reduce(AppAction::PrevReviewWord, NOW);
    assert_eq!(s.dynamic_review_index, 2);
    s.reduce(AppAction::NextReviewWord, NOW);
    assert_eq!(s.dynamic_review_index, 0);
    s.reduce(AppAction::NextReviewWord, NOW);
    assert_eq!(s.dynamic_review_index, 1);
    let mut empty = AppState::default();
    empty.reduce(AppAction::NextReviewWord, NOW);
    assert_eq!(empty.dynamic_review_index, 0);
}

#[test]
fn locked_state_ignores_marks_answers_and_navigation() {
    let mut s = state_with(&["a", "b"], &["a"], &[]);
    s.reduce(AppAction::GenerateReviewPool, NOW);
    s.reduce(AppAction::SetLock(true), NOW);
    assert!(s.is_locked);
    for a in [
        AppAction::MarkMastered,
        AppAction::MarkDifficult,
        AppAction::NextNewWord,
        AppAction::SubmitAnswer("a".to_string(), "a".to_string()),
    ] {
        assert!(s.reduce(a, NOW).is_empty());
    }
    assert_eq!(s.mastered_words, strings(&["a"]));
    assert_eq!(s.new_words_index, 0);
    assert_eq!(stats_of(&s, "a").unwrap().total_reviews, 0);
    s.reduce(AppAction::SetLock(false), NOW);
    s.reduce(AppAction::NextNewWord, NOW);
    assert_eq!(s.new_words_index, 1);
}

#[test]
fn installing_the_catalog() {
    let mut s = AppState::default();
    let out = s.reduce(AppAction::SetAllWords(catalog(&["a", "b"])), NOW);
    assert_eq!(out, vec![Notice::StartByMarking]);
    assert_eq!(s.all_words, catalog(&["a", "b"]));
    let mut t = state_with(&[], &["a"], &[]);
    let out = t.reduce(AppAction::SetAllWords(catalog(&["a"])), NOW);
    assert_eq!(out, vec![Notice::PoolUpdated { due: 1, cached: 0 }]);
    assert_eq!(t.dynamic_review_pool, strings(&["a"]));
}

#[test]
fn loading_keeps_the_catalog() {
    let mut s = state_with(&["a", "b"], &[], &[]);
    let mut saved = state_with(&[], &["b"], &["a"]);
    saved.review_pool_target_size = 7;
    assert!(saved.is_well_formed());
    let out = s.reduce(AppAction::LoadState(saved), NOW);
    assert!(out.is_empty());
    assert_eq!(s.all_words, catalog(&["a", "b"]));
    assert_eq!(s.review_pool_target_size, 7);
    assert_eq!(s.mastered_words, strings(&["b"]));
}

#[test]
fn well_formedness_check() {
    assert!(state_with(&[], &["a", "b"], &["c"]).is_well_formed());
    assert!(!state_with(&[], &["a", "a"], &[]).is_well_formed());
    assert!(!state_with(&[], &["a"], &["a"]).is_well_formed());
    let mut s = state_with(&[], &["a"], &[]);
    s.word_stats.push(StatsEntry { word: "a".to_string(), stats: WordStats::default() });
    assert!(!s.is_well_formed());
}

#[test]
fn relayed_messages() {
    let mut s = AppState::default();
    let out = s.reduce(AppAction::SendL2DMessage(L2DMessage::Quiz("hi".to_string())), NOW);
    assert_eq!(out, vec![Notice::Relay { kind: MessageKind::Quiz }]);
    assert_eq!(out[0].priority(), 1);
}

#[test]
fn pools_ignore_bucket_order() {
    let mut first = state_with(&["a", "b", "c"], &["a", "b"], &["c"]);
    let mut second = state_with(&["a", "b", "c"], &["b"], &["c", "a"]);
    let mut out = vec![];
    first.generate_review_pool(NOW, &mut out);
    second.generate_review_pool(NOW, &mut out);
    assert_eq!(first.dynamic_review_pool, strings(&["a", "b", "c"]));
    assert_eq!(second.dynamic_review_pool, first.dynamic_review_pool);
    let mut third = state_with(&["a", "b"], &["b", "a"], &[]);
    third.generate_review_pool(NOW, &mut out);
    assert_eq!(third.dynamic_review_pool, strings(&["a", "b"]));
}

#[test]
fn ties_use_lexicographic_word_order() {
    let mut s = state_with(&[], &["ab", "b", "a", "B", "aa"], &[]);
    let mut out = vec![];
    s.generate_review_pool(NOW, &mut out);
    assert_eq!(s.dynamic_review_pool, strings(&["B", "a", "aa", "ab", "b"]));
}

#[test]
fn cycle_accuracy_as_a_fraction() {
    let none = CycleStats::default();
    assert_eq!(none.accuracy(), Ratio { num: 0, den: 1 });
    let some = CycleStats { total_words: 5, reviewed_words: 4, correct_count: 3 };
    assert_eq!(some.accuracy(), Ratio { num: 3, den: 4 });
}

#[test]
fn notice_kinds_and_priorities() {
    assert_eq!(Notice::Correct { streak: 1, interval: 1 }.kind(), MessageKind::Success);
    assert_eq!(Notice::Correct { streak: 1, interval: 1 }.priority(), 3);
    assert_eq!(Notice::Incorrect.priority(), 3);
    assert_eq!(Notice::Demoted.kind(), MessageKind::Flow);
    assert_eq!(Notice::Moved { to_mastered: true }.priority(), 2);
    assert_eq!(Notice::PoolUpdated { due: 1, cached: 0 }.kind(), MessageKind::System);
    assert_eq!(Notice::Relay { kind: MessageKind::Error }.priority(), 3);
    assert_eq!(L2DMessage::Flow("x".to_string()).kind(), MessageKind::Flow);
    assert_eq!(MessageKind::Quiz.priority(), 1);
}

#[test]
fn well_formedness_covers_counts_and_target() {
    let mut s = state_with(&[], &["a"], &[]);
    s.cycle_stats = CycleStats { total_words: 1, reviewed_words: 1, correct_count: 2 };
    assert!(!s.is_well_formed());
    let mut t = state_with(&[], &["a"], &[]);
    t.review_pool_target_size = 0;
    assert!(!t.is_well_formed());
}

#[test]
fn settlement_bands() {
    let mut s = state_with(&["a"], &["a"], &[]);
    s.cycle_stats = CycleStats { total_words: 1, reviewed_words: 2, correct_count: 2 };
    let out = s.reduce(AppAction::CycleSettlement, NOW);
    assert_eq!(out[0], Notice::Settled { band: AccuracyBand::Perfect, reviewed: 2, correct: 2, target: 40 });
    let mut t = state_with(&["a"], &["a"], &[]);
    let out = t.reduce(AppAction::CycleSettlement, NOW);
    assert_eq!(out[0], Notice::Settled { band: AccuracyBand::Low, reviewed: 0, correct: 0, target: 10 });
}
