use vstd::prelude::*;
use crate::stats::{WordStats, fresh_stats, cycle_reset};

verus! {

/// One row of the statistics table: a word and its statistics.
#[derive(Debug, Clone, PartialEq)]
pub struct StatsEntry {
    pub word: String,
    pub stats: WordStats,
}

/// Some row of `e` is for `w`.
pub open spec fn has_entry(e: Seq<StatsEntry>, w: Seq<char>) -> bool {
    exists|i: int| 0 <= i < e.len() && (#[trigger] e[i]).word@ == w
}

/// The statistics in a row for `w`.
pub open spec fn entry_of(e: Seq<StatsEntry>, w: Seq<char>) -> WordStats {
    e[choose|i: int| 0 <= i < e.len() && (#[trigger] e[i]).word@ == w].stats
}

/// The table as a map from word to statistics.
pub open spec fn stats_table(e: Seq<StatsEntry>) -> Map<Seq<char>, WordStats> {
    Map::new(|w: Seq<char>| has_entry(e, w), |w: Seq<char>| entry_of(e, w))
}

/// No two rows are for the same word.
pub open spec fn unique_entries(e: Seq<StatsEntry>) -> bool {
    forall|i: int, j: int|
        0 <= i < e.len() && 0 <= j < e.len() && i != j ==> (#[trigger] e[i]).word@ != (#[trigger] e[j]).word@
}

/// The statistics of `w` in the map, or fresh ones where it has none.
pub open spec fn stats_or_fresh(m: Map<Seq<char>, WordStats>, w: Seq<char>) -> WordStats {
    if m.contains_key(w) {
        m[w]
    } else {
        fresh_stats()
    }
}

proof fn lemma_entry_at(e: Seq<StatsEntry>, i: int)
    requires
        unique_entries(e),
        0 <= i < e.len(),
    ensures
        stats_table(e).contains_key(e[i].word@),
        stats_table(e)[e[i].word@] == e[i].stats,
{
    let w = e[i].word@;
    assert(has_entry(e, w));
    let j = choose|j: int| 0 <= j < e.len() && (#[trigger] e[j]).word@ == w;
    assert(j == i);
}

/// The row for `w`, if there is one.
pub fn find_entry(e: &Vec<StatsEntry>, w: &String) -> (r: Option<usize>)
    ensures
        match r {
            Some(i) => i < e.len() && e@[i as int].word@ == w@,
            None => !has_entry(e@, w@),
        },
{
    let mut i: usize = 0;
    while i < e.len()
        invariant
            i <= e.len(),
            forall|k: int| 0 <= k < i ==> (#[trigger] e@[k]).word@ != w@,
        decreases e.len() - i,
    {
        if e[i].word == *w {
            return Some(i);
        }
        i += 1;
    }
    None
}

/// The statistics of `w`, or fresh ones where the table has none.
pub fn lookup_stats(e: &Vec<StatsEntry>, w: &String) -> (r: WordStats)
    requires
        unique_entries(e@),
    ensures
        r == stats_or_fresh(stats_table(e@), w@),
{
    match find_entry(e, w) {
        Some(i) => {
            proof {
                lemma_entry_at(e@, i as int);
            }
            e[i].stats
        },
        None => WordStats::default(),
    }
}

/// Sets the statistics of `w`, adding a row where there is none.
pub fn put_stats(e: &mut Vec<StatsEntry>, w: &String, s: WordStats)
    requires
        unique_entries(old(e)@),
    ensures
        unique_entries(final(e)@),
        stats_table(final(e)@) == stats_table(old(e)@).insert(w@, s),
{
    let ghost e0 = e@;
    match find_entry(e, w) {
        Some(i) => {
            e.set(i, StatsEntry { word: w.clone(), stats: s });
            proof {
                let e1 = e@;
                assert forall|a: int, b: int|
                    0 <= a < e1.len() && 0 <= b < e1.len() && a != b implies (#[trigger] e1[a]).word@
                    != (#[trigger] e1[b]).word@ by {
                    assert(e0[a].word@ == e1[a].word@ && e0[b].word@ == e1[b].word@);
                }
                assert forall|x: Seq<char>| has_entry(e1, x) == has_entry(e0, x) by {
                    if has_entry(e1, x) {
                        let k = choose|k: int| 0 <= k < e1.len() && (#[trigger] e1[k]).word@ == x;
                        assert(e0[k].word@ == x);
                    }
                    if has_entry(e0, x) {
                        let k = choose|k: int| 0 <= k < e0.len() && (#[trigger] e0[k]).word@ == x;
                        assert(e1[k].word@ == x);
                    }
                }
                assert forall|x: Seq<char>| #[trigger] has_entry(e1, x) implies entry_of(e1, x) == (
                if x == w@ {
                    s
                } else {
                    entry_of(e0, x)
                }) by {
                    let k = choose|k: int| 0 <= k < e1.len() && (#[trigger] e1[k]).word@ == x;
                    lemma_entry_at(e1, k);
                    if x != w@ {
                        assert(k != i);
                        lemma_entry_at(e0, k);
                    }
                }
                assert(stats_table(e1) =~= stats_table(e0).insert(w@, s));
            }
        },
        None => {
            e.push(StatsEntry { word: w.clone(), stats: s });
            proof {
                let e1 = e@;
                let n = e0.len() as int;
                assert forall|a: int, b: int|
                    0 <= a < e1.len() && 0 <= b < e1.len() && a != b implies (#[trigger] e1[a]).word@
                    != (#[trigger] e1[b]).word@ by {
                    if a == n {
                        assert(e0[b] == e1[b]);
                    } else if b == n {
                        assert(e0[a] == e1[a]);
                    } else {
                        assert(e0[a] == e1[a] && e0[b] == e1[b]);
                    }
                }
                assert forall|x: Seq<char>| has_entry(e1, x) == (has_entry(e0, x) || x == w@) by {
                    if has_entry(e1, x) {
                        let k = choose|k: int| 0 <= k < e1.len() && (#[trigger] e1[k]).word@ == x;
                        if k < n {
                            assert(e0[k] == e1[k]);
                        }
                    }
                    if has_entry(e0, x) {
                        let k = choose|k: int| 0 <= k < e0.len() && (#[trigger] e0[k]).word@ == x;
                        assert(e1[k] == e0[k]);
                    }
                    if x == w@ {
                        assert(e1[n].word@ == x);
                    }
                }
                assert forall|x: Seq<char>| #[trigger] has_entry(e1, x) implies entry_of(e1, x) == (
                if x == w@ {
                    s
                } else {
                    entry_of(e0, x)
                }) by {
                    let k = choose|k: int| 0 <= k < e1.len() && (#[trigger] e1[k]).word@ == x;
                    lemma_entry_at(e1, k);
                    if x != w@ {
                        assert(k != n);
                        assert(e1[k] == e0[k]);
                        lemma_entry_at(e0, k);
                    }
                }
                assert(stats_table(e1) =~= stats_table(e0).insert(w@, s));
            }
        },
    }
}

/// Clears the per-cycle fields of every row.
pub fn reset_all_cycles(e: &mut Vec<StatsEntry>)
    requires
        unique_entries(old(e)@),
    ensures
        unique_entries(final(e)@),
        stats_table(final(e)@) == stats_table(old(e)@).map_values(|s: WordStats| cycle_reset(s)),
{
    let ghost e0 = e@;
    let mut i: usize = 0;
    while i < e.len()
        invariant
            i <= e.len(),
            e.len() == e0.len(),
            forall|k: int| 0 <= k < e0.len() ==> (#[trigger] e@[k]).word == e0[k].word,
            forall|k: int| 0 <= k < i ==> (#[trigger] e@[k]).stats == cycle_reset(e0[k].stats),
            forall|k: int| i <= k < e0.len() ==> (#[trigger] e@[k]).stats == e0[k].stats,
        decreases e.len() - i,
    {
        let mut s = e[i].stats;
        s.reset_cycle();
        let word = e[i].word.clone();
        e.set(i, StatsEntry { word, stats: s });
        i += 1;
    }
    proof {
        let e1 = e@;
        assert forall|a: int, b: int|
            0 <= a < e1.len() && 0 <= b < e1.len() && a != b implies (#[trigger] e1[a]).word@
            != (#[trigger] e1[b]).word@ by {
            assert(e0[a].word == e1[a].word && e0[b].word == e1[b].word);
        }
        assert forall|x: Seq<char>| has_entry(e1, x) == has_entry(e0, x) by {
            if has_entry(e1, x) {
                let k = choose|k: int| 0 <= k < e1.len() && (#[trigger] e1[k]).word@ == x;
                assert(e0[k].word == e1[k].word);
            }
            if has_entry(e0, x) {
                let k = choose|k: int| 0 <= k < e0.len() && (#[trigger] e0[k]).word@ == x;
                assert(e1[k].word == e0[k].word);
            }
        }
        assert forall|x: Seq<char>| #[trigger] has_entry(e1, x) implies entry_of(e1, x)
            == cycle_reset(entry_of(e0, x)) by {
            let k = choose|k: int| 0 <= k < e1.len() && (#[trigger] e1[k]).word@ == x;
            lemma_entry_at(e1, k);
            assert(e0[k].word == e1[k].word);
            lemma_entry_at(e0, k);
        }
        assert(stats_table(e1) =~= stats_table(e0).map_values(|s: WordStats| cycle_reset(s)));
    }
}

} // verus!

verus! {

/// Whether no two rows are for the same word.
pub fn entries_unique(e: &Vec<StatsEntry>) -> (r: bool)
    ensures
        r == unique_entries(e@),
{
    let mut i: usize = 0;
    while i < e.len()
        invariant
            i <= e.len(),
            forall|a: int, b: int|
                0 <= a < i && 0 <= b < i && a != b ==> (#[trigger] e@[a]).word@ != (#[trigger] e@[b]).word@,
        decreases e.len() - i,
    {
        let mut j: usize = 0;
        while j < i
            invariant
                i < e.len(),
                j <= i,
                forall|b: int| 0 <= b < j ==> (#[trigger] e@[b]).word@ != e@[i as int].word@,
            decreases i - j,
        {
            if e[j].word == e[i].word {
                return false;
            }
            j += 1;
        }
        i += 1;
    }
    true
}

} // verus!
