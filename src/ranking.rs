use vstd::prelude::*;
use crate::order::{lemma_lex_asym, lemma_lex_total, lemma_lex_trans, lex_less, lex_lt};

verus! {

/// A non-negative fraction `num / den`. Fractions are only ranked when their
/// denominators are at least 1.
#[derive(Debug, Clone, Copy, PartialEq, Eq)]
pub struct Ratio {
    pub num: u64,
    pub den: u64,
}

/// The numerator of `a` scaled by the denominator of `b`.
pub open spec fn cross(a: Ratio, b: Ratio) -> int {
    a.num as int * b.den as int
}

/// `a` is strictly larger than `b` as a fraction.
pub open spec fn ratio_gt(a: Ratio, b: Ratio) -> bool {
    cross(a, b) > cross(b, a)
}

/// `a` and `b` are equal as fractions.
pub open spec fn ratio_eq(a: Ratio, b: Ratio) -> bool {
    cross(a, b) == cross(b, a)
}

/// Every fraction in `keys` has a positive denominator.
pub open spec fn valid_keys(keys: Seq<Ratio>) -> bool {
    forall|i: int| 0 <= i < keys.len() ==> (#[trigger] keys[i]).den >= 1
}

/// In a descending ranking, position `i` comes before position `j`: its
/// fraction is larger, or the fractions are equal and its name comes first
/// in lexicographic order (equal names: the smaller position first).
pub open spec fn precedes(keys: Seq<Ratio>, names: Seq<Seq<char>>, i: int, j: int) -> bool {
    ratio_gt(keys[i], keys[j]) || (ratio_eq(keys[i], keys[j]) && (lex_lt(names[i], names[j]) || (
    names[i] == names[j] && i < j)))
}

/// `r` lists exactly the flagged positions, each once, in descending order.
pub open spec fn is_ranking(
    keys: Seq<Ratio>,
    names: Seq<Seq<char>>,
    flags: Seq<bool>,
    r: Seq<usize>,
) -> bool {
    &&& forall|k: int| 0 <= k < r.len() ==> (#[trigger] r[k]) < keys.len() && flags[r[k] as int]
    &&& forall|i: int| 0 <= i < keys.len() && flags[i] ==> r.contains(i as usize)
    &&& forall|a: int, b: int|
        0 <= a < b < r.len() ==> precedes(keys, names, #[trigger] r[a] as int, #[trigger] r[b] as int)
}

/// The ranking of the flagged positions (there is exactly one).
pub open spec fn ranking(keys: Seq<Ratio>, names: Seq<Seq<char>>, flags: Seq<bool>) -> Seq<usize> {
    choose|r: Seq<usize>| is_ranking(keys, names, flags, r)
}

/// The keys, names and flags describe the same positions.
pub open spec fn same_len(keys: Seq<Ratio>, names: Seq<Seq<char>>, flags: Seq<bool>) -> bool {
    keys.len() == names.len() && keys.len() == flags.len() && keys.len() <= usize::MAX
}

proof fn lemma_ratio_trans(a: Ratio, b: Ratio, c: Ratio)
    requires
        a.den >= 1,
        b.den >= 1,
        c.den >= 1,
    ensures
        ratio_gt(a, b) && ratio_gt(b, c) ==> ratio_gt(a, c),
        ratio_gt(a, b) && ratio_eq(b, c) ==> ratio_gt(a, c),
        ratio_eq(a, b) && ratio_gt(b, c) ==> ratio_gt(a, c),
        ratio_eq(a, b) && ratio_eq(b, c) ==> ratio_eq(a, c),
{
    let (an, ad, bn, bd, cn, cd) = (
        a.num as int,
        a.den as int,
        b.num as int,
        b.den as int,
        c.num as int,
        c.den as int,
    );
    assert(an * bd > bn * ad && bn * cd > cn * bd ==> an * cd > cn * ad) by (nonlinear_arith)
        requires
            ad >= 1,
            bd >= 1,
            cd >= 1,
    {
        if an * bd > bn * ad && bn * cd > cn * bd {
            assert(an * bd * cd > bn * ad * cd);
            assert(bn * cd * ad > cn * bd * ad);
            assert(bd * (an * cd) > bd * (cn * ad));
        }
    }
    assert(an * bd > bn * ad && bn * cd == cn * bd ==> an * cd > cn * ad) by (nonlinear_arith)
        requires
            ad >= 1,
            bd >= 1,
            cd >= 1,
    {
        if an * bd > bn * ad && bn * cd == cn * bd {
            assert(an * bd * cd > bn * ad * cd);
            assert(bn * cd * ad == cn * bd * ad);
            assert(bd * (an * cd) > bd * (cn * ad));
        }
    }
    assert(an * bd == bn * ad && bn * cd > cn * bd ==> an * cd > cn * ad) by (nonlinear_arith)
        requires
            ad >= 1,
            bd >= 1,
            cd >= 1,
    {
        if an * bd == bn * ad && bn * cd > cn * bd {
            assert(an * bd * cd == bn * ad * cd);
            assert(bn * cd * ad > cn * bd * ad);
            assert(bd * (an * cd) > bd * (cn * ad));
        }
    }
    assert(an * bd == bn * ad && bn * cd == cn * bd ==> an * cd == cn * ad) by (nonlinear_arith)
        requires
            ad >= 1,
            bd >= 1,
            cd >= 1,
    {
        if an * bd == bn * ad && bn * cd == cn * bd {
            assert(an * bd * cd == bn * ad * cd);
            assert(bn * cd * ad == cn * bd * ad);
            assert(bd * (an * cd) == bd * (cn * ad));
        }
    }
}

proof fn lemma_precedes_trans(keys: Seq<Ratio>, names: Seq<Seq<char>>, i: int, j: int, k: int)
    requires
        valid_keys(keys),
        keys.len() == names.len(),
        0 <= i < keys.len(),
        0 <= j < keys.len(),
        0 <= k < keys.len(),
        precedes(keys, names, i, j),
        precedes(keys, names, j, k),
    ensures
        precedes(keys, names, i, k),
{
    lemma_ratio_trans(keys[i], keys[j], keys[k]);
    if lex_lt(names[i], names[j]) && lex_lt(names[j], names[k]) {
        lemma_lex_trans(names[i], names[j], names[k]);
    }
}

/// Of two different positions exactly one precedes the other.
proof fn lemma_precedes_total(keys: Seq<Ratio>, names: Seq<Seq<char>>, i: int, j: int)
    requires
        keys.len() == names.len(),
        0 <= i < keys.len(),
        0 <= j < keys.len(),
    ensures
        !(precedes(keys, names, i, j) && precedes(keys, names, j, i)),
        !precedes(keys, names, i, i),
        i != j ==> precedes(keys, names, i, j) || precedes(keys, names, j, i),
{
    lemma_lex_asym(names[i], names[j]);
    lemma_lex_asym(names[i], names[i]);
    lemma_lex_total(names[i], names[j]);
}

proof fn lemma_ranking_tail(keys: Seq<Ratio>, names: Seq<Seq<char>>, flags: Seq<bool>, r: Seq<usize>)
    requires
        same_len(keys, names, flags),
        is_ranking(keys, names, flags, r),
        r.len() > 0,
    ensures
        is_ranking(keys, names, flags.update(r[0] as int, false), r.drop_first()),
{
    let x = r[0];
    let f2 = flags.update(x as int, false);
    let t = r.drop_first();
    assert forall|k: int| 0 <= k < t.len() implies (#[trigger] t[k]) < keys.len() && f2[t[k] as int] by {
        assert(t[k] == r[k + 1]);
        assert(precedes(keys, names, r[0] as int, r[k + 1] as int));
        lemma_precedes_total(keys, names, x as int, x as int);
    }
    assert forall|i: int| 0 <= i < keys.len() && f2[i] implies t.contains(i as usize) by {
        assert(flags[i]);
        assert(r.contains(i as usize));
        let m = choose|m: int| 0 <= m < r.len() && r[m] == i as usize;
        if m == 0 {
            assert(f2[x as int] == false);
        }
        assert(t[m - 1] == i as usize);
    }
    assert forall|a: int, b: int| 0 <= a < b < t.len() implies precedes(
        keys,
        names,
        #[trigger] t[a] as int,
        #[trigger] t[b] as int,
    ) by {
        assert(t[a] == r[a + 1] && t[b] == r[b + 1]);
        assert(precedes(keys, names, r[a + 1] as int, r[b + 1] as int));
    }
}

/// A ranking is determined by its keys, names and flags.
proof fn lemma_ranking_unique(
    keys: Seq<Ratio>,
    names: Seq<Seq<char>>,
    flags: Seq<bool>,
    r1: Seq<usize>,
    r2: Seq<usize>,
)
    requires
        same_len(keys, names, flags),
        is_ranking(keys, names, flags, r1),
        is_ranking(keys, names, flags, r2),
    ensures
        r1 == r2,
    decreases r1.len(),
{
    if r1.len() == 0 {
        if r2.len() > 0 {
            assert(flags[r2[0] as int]);
            assert(r1.contains(r2[0]));
        }
        assert(r1 =~= r2);
    } else {
        let x = r1[0];
        assert(flags[x as int]);
        assert(r2.contains(x));
        let k = choose|k: int| 0 <= k < r2.len() && r2[k] == x;
        if k > 0 {
            let y = r2[0];
            assert(precedes(keys, names, y as int, x as int));
            assert(r1.contains(y));
            let m = choose|m: int| 0 <= m < r1.len() && r1[m] == y;
            lemma_precedes_total(keys, names, x as int, y as int);
            if m != 0 {
                assert(precedes(keys, names, x as int, y as int));
            }
            assert(false);
        }
        assert(r2[0] == x);
        lemma_ranking_tail(keys, names, flags, r1);
        lemma_ranking_tail(keys, names, flags, r2);
        lemma_ranking_unique(keys, names, flags.update(x as int, false), r1.drop_first(), r2.drop_first());
        assert(r1 =~= seq![x] + r1.drop_first());
        assert(r2 =~= seq![x] + r2.drop_first());
    }
}

proof fn lemma_u64_product_fits(x: u64, y: u64)
    ensures
        x as int * y as int <= u128::MAX,
{
    assert(x as int * y as int <= u64::MAX as int * u64::MAX as int) by (nonlinear_arith)
        requires
            x <= u64::MAX,
            y <= u64::MAX,
    ;
}

/// Whether position `i` comes before position `j` in a descending ranking.
fn ranks_before(keys: &Vec<Ratio>, names: &Vec<Vec<char>>, i: usize, j: usize) -> (r: bool)
    requires
        i < keys.len(),
        j < keys.len(),
        keys.len() == names.len(),
    ensures
        r == precedes(keys@, names@.map_values(|n: Vec<char>| n@), i as int, j as int),
{
    let a = keys[i];
    let b = keys[j];
    proof {
        lemma_u64_product_fits(a.num, b.den);
        lemma_u64_product_fits(b.num, a.den);
    }
    let x: u128 = a.num as u128 * b.den as u128;
    let y: u128 = b.num as u128 * a.den as u128;
    if x != y {
        return x > y;
    }
    let first = lex_less(&names[i], &names[j]);
    let second = lex_less(&names[j], &names[i]);
    proof {
        lemma_lex_total(names@[i as int]@, names@[j as int]@);
        lemma_lex_asym(names@[i as int]@, names@[j as int]@);
    }
    first || (!second && i < j)
}

/// The flags of the positions before `n`.
pub open spec fn flags_before(flags: Seq<bool>, n: int) -> Seq<bool> {
    Seq::new(flags.len(), |j: int| flags[j] && j < n)
}

/// Inserting an unranked position `x` at `p`, where no earlier entry comes
/// after `x` and the entry at `p` does, gives the ranking with `x` flagged.
proof fn lemma_insert(
    keys: Seq<Ratio>,
    names: Seq<Seq<char>>,
    flags: Seq<bool>,
    r: Seq<usize>,
    x: usize,
    p: int,
)
    requires
        same_len(keys, names, flags),
        valid_keys(keys),
        is_ranking(keys, names, flags, r),
        x < keys.len(),
        !flags[x as int],
        0 <= p <= r.len(),
        forall|q: int| 0 <= q < p ==> !precedes(keys, names, x as int, #[trigger] r[q] as int),
        p < r.len() ==> precedes(keys, names, x as int, r[p] as int),
    ensures
        is_ranking(keys, names, flags.update(x as int, true), r.insert(p, x)),
{
    let f2 = flags.update(x as int, true);
    let s = r.insert(p, x);
    assert forall|k: int| 0 <= k < s.len() implies (#[trigger] s[k]) < keys.len() && f2[s[k] as int] by {
        if k < p {
            assert(s[k] == r[k]);
        } else if k > p {
            assert(s[k] == r[k - 1]);
        }
    }
    assert forall|j: int| 0 <= j < keys.len() && f2[j] implies s.contains(j as usize) by {
        if j == x {
            assert(s[p] == x);
        } else {
            assert(r.contains(j as usize));
            let m = choose|m: int| 0 <= m < r.len() && r[m] == j as usize;
            if m < p {
                assert(s[m] == j as usize);
            } else {
                assert(s[m + 1] == j as usize);
            }
        }
    }
    assert forall|q: int| 0 <= q < p implies precedes(keys, names, #[trigger] r[q] as int, x as int) by {
        assert(!precedes(keys, names, x as int, r[q] as int));
        assert(r[q] != x);
        lemma_precedes_total(keys, names, x as int, r[q] as int);
    }
    assert forall|a: int, b: int| 0 <= a < b < s.len() implies precedes(
        keys,
        names,
        #[trigger] s[a] as int,
        #[trigger] s[b] as int,
    ) by {
        if b < p {
            assert(s[a] == r[a] && s[b] == r[b]);
        } else if b == p {
            assert(s[a] == r[a]);
        } else if a < p {
            assert(s[a] == r[a] && s[b] == r[b - 1]);
            assert(precedes(keys, names, r[a] as int, x as int));
            if b - 1 > p {
                assert(precedes(keys, names, r[p] as int, r[b - 1] as int));
                lemma_precedes_trans(keys, names, x as int, r[p] as int, r[b - 1] as int);
            }
            lemma_precedes_trans(keys, names, r[a] as int, x as int, r[b - 1] as int);
        } else if a == p {
            assert(s[b] == r[b - 1]);
            if b - 1 > p {
                assert(precedes(keys, names, r[p] as int, r[b - 1] as int));
                lemma_precedes_trans(keys, names, x as int, r[p] as int, r[b - 1] as int);
            }
        } else {
            assert(s[a] == r[a - 1] && s[b] == r[b - 1]);
        }
    }
}

/// The first place at or after `p` where `x` goes before the entry of `r`.
spec fn insert_pos(keys: Seq<Ratio>, names: Seq<Seq<char>>, r: Seq<usize>, x: usize, p: int) -> int
    decreases r.len() - p,
{
    if p < 0 || p >= r.len() || precedes(keys, names, x as int, r[p] as int) {
        p
    } else {
        insert_pos(keys, names, r, x, p + 1)
    }
}

proof fn lemma_insert_pos(keys: Seq<Ratio>, names: Seq<Seq<char>>, r: Seq<usize>, x: usize, p: int)
    requires
        0 <= p <= r.len(),
        forall|q: int| 0 <= q < p ==> !precedes(keys, names, x as int, #[trigger] r[q] as int),
    ensures
        p <= insert_pos(keys, names, r, x, p) <= r.len(),
        forall|q: int|
            0 <= q < insert_pos(keys, names, r, x, p) ==> !precedes(
                keys,
                names,
                x as int,
                #[trigger] r[q] as int,
            ),
        insert_pos(keys, names, r, x, p) < r.len() ==> precedes(
            keys,
            names,
            x as int,
            r[insert_pos(keys, names, r, x, p)] as int,
        ),
    decreases r.len() - p,
{
    if p < r.len() && !precedes(keys, names, x as int, r[p] as int) {
        lemma_insert_pos(keys, names, r, x, p + 1);
    }
}

/// A ranking of the flagged positions before `n` exists.
proof fn lemma_ranking_before(keys: Seq<Ratio>, names: Seq<Seq<char>>, flags: Seq<bool>, n: int) -> (r:
    Seq<usize>)
    requires
        same_len(keys, names, flags),
        valid_keys(keys),
        0 <= n <= keys.len(),
    ensures
        is_ranking(keys, names, flags_before(flags, n), r),
    decreases n,
{
    if n == 0 {
        let r: Seq<usize> = seq![];
        assert(is_ranking(keys, names, flags_before(flags, 0), r));
        r
    } else {
        let r0 = lemma_ranking_before(keys, names, flags, n - 1);
        let f0 = flags_before(flags, n - 1);
        if flags[n - 1] {
            let x = (n - 1) as usize;
            lemma_insert_pos(keys, names, r0, x, 0);
            let p = insert_pos(keys, names, r0, x, 0);
            lemma_insert(keys, names, f0, r0, x, p);
            assert(f0.update(n - 1, true) =~= flags_before(flags, n));
            r0.insert(p, x)
        } else {
            assert(f0 =~= flags_before(flags, n));
            r0
        }
    }
}

/// For fractions with positive denominators, any names and any flags, the
/// ranking exists, so `ranking` gives it.
pub proof fn lemma_ranking_exists(keys: Seq<Ratio>, names: Seq<Seq<char>>, flags: Seq<bool>)
    requires
        same_len(keys, names, flags),
        valid_keys(keys),
    ensures
        is_ranking(keys, names, flags, ranking(keys, names, flags)),
{
    let r = lemma_ranking_before(keys, names, flags, keys.len() as int);
    assert(flags_before(flags, keys.len() as int) =~= flags);
    assert(is_ranking(keys, names, flags, r));
}

/// Ranks the flagged positions: largest fraction first, equal fractions by
/// name in lexicographic order, equal names by position. The result is the
/// unique such ranking.
pub fn rank_desc(keys: &Vec<Ratio>, names: &Vec<Vec<char>>, flags: &Vec<bool>) -> (r: Vec<usize>)
    requires
        keys.len() == names.len(),
        keys.len() == flags.len(),
        valid_keys(keys@),
    ensures
        is_ranking(keys@, names@.map_values(|n: Vec<char>| n@), flags@, r@),
        r@ == ranking(keys@, names@.map_values(|n: Vec<char>| n@), flags@),
{
    let ghost nm = names@.map_values(|n: Vec<char>| n@);
    let mut r: Vec<usize> = Vec::new();
    let mut i: usize = 0;
    proof {
        assert(is_ranking(keys@, nm, flags_before(flags@, 0), r@));
    }
    while i < keys.len()
        invariant
            i <= keys.len(),
            keys.len() == flags.len(),
            keys.len() == names.len(),
            nm == names@.map_values(|n: Vec<char>| n@),
            valid_keys(keys@),
            is_ranking(keys@, nm, flags_before(flags@, i as int), r@),
        decreases keys.len() - i,
    {
        if flags[i] {
            let mut p: usize = 0;
            while p < r.len() && !ranks_before(keys, names, i, r[p])
                invariant
                    p <= r.len(),
                    i < keys.len(),
                    keys.len() == flags.len(),
                    keys.len() == names.len(),
                    nm == names@.map_values(|n: Vec<char>| n@),
                    is_ranking(keys@, nm, flags_before(flags@, i as int), r@),
                    forall|q: int| 0 <= q < p ==> !precedes(keys@, nm, i as int, #[trigger] r@[q] as int),
                decreases r.len() - p,
            {
                p += 1;
            }
            proof {
                lemma_insert(keys@, nm, flags_before(flags@, i as int), r@, i, p as int);
                assert(flags_before(flags@, i as int).update(i as int, true) =~= flags_before(
                    flags@,
                    i + 1,
                ));
            }
            r.insert(p, i);
        } else {
            proof {
                assert(flags_before(flags@, i as int) =~= flags_before(flags@, i + 1));
            }
        }
        i += 1;
    }
    proof {
        assert(flags_before(flags@, keys.len() as int) =~= flags@);
        lemma_ranking_exists(keys@, nm, flags@);
        lemma_ranking_unique(keys@, nm, flags@, r@, ranking(keys@, nm, flags@));
    }
    r
}

/// The words of `c` at the positions `order`.
pub open spec fn pick(c: Seq<Seq<char>>, order: Seq<usize>) -> Seq<Seq<char>> {
    order.map_values(|i: usize| c[i as int])
}

/// In a descending ranking of words by `key`, `a` comes before `b`: its
/// fraction is larger, or the fractions are equal and `a` comes first in
/// lexicographic order.
pub open spec fn word_before(key: spec_fn(Seq<char>) -> Ratio, a: Seq<char>, b: Seq<char>) -> bool {
    ratio_gt(key(a), key(b)) || (ratio_eq(key(a), key(b)) && lex_lt(a, b))
}

/// `p` lists exactly the flagged words of the set `words`, each once, in
/// descending order of `key`.
pub open spec fn is_word_ranking(
    words: Set<Seq<char>>,
    key: spec_fn(Seq<char>) -> Ratio,
    flag: spec_fn(Seq<char>) -> bool,
    p: Seq<Seq<char>>,
) -> bool {
    &&& forall|k: int| 0 <= k < p.len() ==> words.contains(#[trigger] p[k]) && flag(p[k])
    &&& forall|w: Seq<char>| words.contains(w) && flag(w) ==> #[trigger] p.contains(w)
    &&& forall|a: int, b: int| 0 <= a < b < p.len() ==> word_before(key, #[trigger] p[a], #[trigger] p[b])
}

/// The ranking of the flagged words of a set; it depends on the set, the key
/// and the flag alone.
pub open spec fn word_ranking(
    words: Set<Seq<char>>,
    key: spec_fn(Seq<char>) -> Ratio,
    flag: spec_fn(Seq<char>) -> bool,
) -> Seq<Seq<char>> {
    choose|p: Seq<Seq<char>>| is_word_ranking(words, key, flag, p)
}

proof fn lemma_word_ranking_tail(
    words: Set<Seq<char>>,
    key: spec_fn(Seq<char>) -> Ratio,
    flag: spec_fn(Seq<char>) -> bool,
    p: Seq<Seq<char>>,
)
    requires
        is_word_ranking(words, key, flag, p),
        p.len() > 0,
    ensures
        is_word_ranking(words.remove(p[0]), key, flag, p.drop_first()),
{
    let x = p[0];
    let t = p.drop_first();
    assert forall|k: int| 0 <= k < t.len() implies words.remove(x).contains(#[trigger] t[k]) && flag(
        t[k],
    ) by {
        assert(t[k] == p[k + 1]);
        assert(word_before(key, p[0], p[k + 1]));
        lemma_lex_asym(x, x);
    }
    assert forall|w: Seq<char>| words.remove(x).contains(w) && flag(w) implies #[trigger] t.contains(w) by {
        assert(p.contains(w));
        let m = choose|m: int| 0 <= m < p.len() && p[m] == w;
        assert(m != 0);
        assert(t[m - 1] == w);
    }
    assert forall|a: int, b: int| 0 <= a < b < t.len() implies word_before(
        key,
        #[trigger] t[a],
        #[trigger] t[b],
    ) by {
        assert(t[a] == p[a + 1] && t[b] == p[b + 1]);
    }
}

/// A ranking of words is determined by the set, the key and the flag.
pub proof fn lemma_word_ranking_unique(
    words: Set<Seq<char>>,
    key: spec_fn(Seq<char>) -> Ratio,
    flag: spec_fn(Seq<char>) -> bool,
    p1: Seq<Seq<char>>,
    p2: Seq<Seq<char>>,
)
    requires
        is_word_ranking(words, key, flag, p1),
        is_word_ranking(words, key, flag, p2),
    ensures
        p1 == p2,
    decreases p1.len(),
{
    if p1.len() == 0 {
        if p2.len() > 0 {
            assert(p1.contains(p2[0]));
        }
        assert(p1 =~= p2);
    } else {
        let x = p1[0];
        assert(p2.contains(x));
        let k = choose|k: int| 0 <= k < p2.len() && p2[k] == x;
        if k > 0 {
            let y = p2[0];
            assert(word_before(key, y, x));
            assert(p1.contains(y));
            let m = choose|m: int| 0 <= m < p1.len() && p1[m] == y;
            lemma_lex_asym(x, y);
            if m != 0 {
                assert(word_before(key, x, y));
            }
            assert(false);
        }
        lemma_word_ranking_tail(words, key, flag, p1);
        lemma_word_ranking_tail(words, key, flag, p2);
        lemma_word_ranking_unique(words.remove(x), key, flag, p1.drop_first(), p2.drop_first());
        assert(p1 =~= seq![x] + p1.drop_first());
        assert(p2 =~= seq![x] + p2.drop_first());
    }
}

/// Ranking the positions of a list of distinct words, named by themselves,
/// ranks the words.
proof fn lemma_positions_to_words(
    c: Seq<Seq<char>>,
    key: spec_fn(Seq<char>) -> Ratio,
    flag: spec_fn(Seq<char>) -> bool,
    r: Seq<usize>,
)
    requires
        c.no_duplicates(),
        c.len() <= usize::MAX,
        is_ranking(c.map_values(key), c, c.map_values(flag), r),
    ensures
        is_word_ranking(c.to_set(), key, flag, pick(c, r)),
{
    let keys = c.map_values(key);
    let flags = c.map_values(flag);
    let p = pick(c, r);
    assert forall|k: int| 0 <= k < p.len() implies c.to_set().contains(#[trigger] p[k]) && flag(p[k]) by {
        assert(flags[r[k] as int]);
        assert(c.contains(c[r[k] as int]));
    }
    assert forall|w: Seq<char>| c.to_set().contains(w) && flag(w) implies #[trigger] p.contains(w) by {
        assert(c.contains(w));
        let i = choose|i: int| 0 <= i < c.len() && c[i] == w;
        assert(flags[i]);
        assert(r.contains(i as usize));
        let k = choose|k: int| 0 <= k < r.len() && r[k] == i as usize;
        assert(p[k] == w);
    }
    assert forall|a: int, b: int| 0 <= a < b < p.len() implies word_before(
        key,
        #[trigger] p[a],
        #[trigger] p[b],
    ) by {
        let i = r[a] as int;
        let j = r[b] as int;
        assert(precedes(keys, c, i, j));
        lemma_lex_asym(c[i], c[i]);
        assert(i != j);
    }
}

/// For distinct words whose keys have positive denominators, the ranking of
/// words exists, and ranking their positions gives it.
pub proof fn lemma_word_ranking_exists(
    c: Seq<Seq<char>>,
    key: spec_fn(Seq<char>) -> Ratio,
    flag: spec_fn(Seq<char>) -> bool,
)
    requires
        c.no_duplicates(),
        c.len() <= usize::MAX,
        valid_keys(c.map_values(key)),
    ensures
        is_word_ranking(c.to_set(), key, flag, word_ranking(c.to_set(), key, flag)),
        word_ranking(c.to_set(), key, flag) == pick(
            c,
            ranking(c.map_values(key), c, c.map_values(flag)),
        ),
{
    let keys = c.map_values(key);
    let flags = c.map_values(flag);
    lemma_ranking_exists(keys, c, flags);
    let r = ranking(keys, c, flags);
    lemma_positions_to_words(c, key, flag, r);
    lemma_word_ranking_unique(c.to_set(), key, flag, pick(c, r), word_ranking(c.to_set(), key, flag));
}

} // verus!
