use vstd::prelude::*;

verus! {

/// The identities of a list of words.
pub open spec fn ids(v: Seq<String>) -> Seq<Seq<char>> {
    v.map_values(|s: String| s@)
}

/// `s` without `w`: the one occurrence of `w` is taken out where there is one.
pub open spec fn remove_id(s: Seq<Seq<char>>, w: Seq<char>) -> Seq<Seq<char>> {
    if s.contains(w) {
        s.remove(s.index_of(w))
    } else {
        s
    }
}

/// Removing a word from a list without duplicates keeps the other words.
pub proof fn lemma_remove_id(s: Seq<Seq<char>>, w: Seq<char>)
    requires
        s.no_duplicates(),
    ensures
        remove_id(s, w).no_duplicates(),
        forall|x: Seq<char>| #[trigger] remove_id(s, w).contains(x) == (s.contains(x) && x != w),
{
    if s.contains(w) {
        let i = s.index_of(w);
        let r = s.remove(i);
        s.remove_ensures(i);
        assert forall|x: Seq<char>| #[trigger] r.contains(x) == (s.contains(x) && x != w) by {
            if r.contains(x) {
                let k = choose|k: int| 0 <= k < r.len() && r[k] == x;
                if k < i {
                    assert(s[k] == x);
                } else {
                    assert(s[k + 1] == x);
                }
            }
            if s.contains(x) && x != w {
                let k = choose|k: int| 0 <= k < s.len() && s[k] == x;
                if k < i {
                    assert(r[k] == x);
                } else {
                    assert(k != i);
                    assert(r[k - 1] == x);
                }
            }
        }
        assert forall|a: int, b: int| 0 <= a < r.len() && 0 <= b < r.len() && a != b implies r[a]
            != r[b] by {
            let a2 = if a < i { a } else { a + 1 };
            let b2 = if b < i { b } else { b + 1 };
            assert(r[a] == s[a2] && r[b] == s[b2]);
        }
    }
}

/// In a list without duplicates, the position of a word is where it stands.
pub proof fn lemma_index_of_unique(s: Seq<Seq<char>>, i: int)
    requires
        s.no_duplicates(),
        0 <= i < s.len(),
    ensures
        s.index_of(s[i]) == i,
{
    assert(s.contains(s[i]));
}

/// Adding a word and taking it out again gives the list back.
pub proof fn lemma_remove_pushed(s: Seq<Seq<char>>, w: Seq<char>)
    requires
        !s.contains(w),
    ensures
        remove_id(s.push(w), w) == s,
{
    let t = s.push(w);
    assert(t[s.len() as int] == w);
    assert(t.contains(w));
    let i = t.index_of(w);
    if i != s.len() {
        assert(s[i] == w);
    }
    assert(t.remove(i) =~= s);
}

/// The position of `w` in `v`, if it is there: the first one.
pub fn position_of(v: &Vec<String>, w: &String) -> (r: Option<usize>)
    ensures
        match r {
            Some(i) => i < v.len() && v@[i as int]@ == w@ && forall|k: int|
                0 <= k < i ==> (#[trigger] v@[k])@ != w@,
            None => !ids(v@).contains(w@),
        },
{
    let mut i: usize = 0;
    while i < v.len()
        invariant
            i <= v.len(),
            forall|k: int| 0 <= k < i ==> (#[trigger] v@[k])@ != w@,
        decreases v.len() - i,
    {
        if v[i] == *w {
            return Some(i);
        }
        i += 1;
    }
    proof {
        if ids(v@).contains(w@) {
            let k = choose|k: int| 0 <= k < ids(v@).len() && ids(v@)[k] == w@;
            assert(v@[k]@ == w@);
        }
    }
    None
}

/// Whether `w` is in `v`.
pub fn contains_word(v: &Vec<String>, w: &String) -> (r: bool)
    ensures
        r == ids(v@).contains(w@),
{
    match position_of(v, w) {
        Some(i) => {
            proof {
                assert(ids(v@)[i as int] == w@);
            }
            true
        },
        None => false,
    }
}

/// Takes `w` out of `v`; returns whether it was there.
pub fn remove_word(v: &mut Vec<String>, w: &String) -> (removed: bool)
    requires
        ids(old(v)@).no_duplicates(),
    ensures
        removed == ids(old(v)@).contains(w@),
        ids(final(v)@) == remove_id(ids(old(v)@), w@),
{
    match position_of(v, w) {
        Some(i) => {
            let ghost s = ids(v@);
            proof {
                assert(s[i as int] == w@);
                lemma_index_of_unique(s, i as int);
            }
            v.remove(i);
            proof {
                assert(ids(v@) =~= s.remove(i as int));
            }
            true
        },
        None => false,
    }
}

/// Appends `w` to `v`.
pub fn push_word(v: &mut Vec<String>, w: &String)
    ensures
        ids(final(v)@) == ids(old(v)@).push(w@),
{
    v.push(w.clone());
    proof {
        assert(ids(v@) =~= ids(old(v)@).push(w@));
    }
}

} // verus!

verus! {

/// A copy of a list of words.
pub fn copy_words(v: &Vec<String>) -> (r: Vec<String>)
    ensures
        ids(r@) == ids(v@),
{
    let mut r: Vec<String> = Vec::new();
    let mut i: usize = 0;
    while i < v.len()
        invariant
            i <= v.len(),
            ids(r@) == ids(v@).take(i as int),
        decreases v.len() - i,
    {
        push_word(&mut r, &v[i]);
        proof {
            assert(ids(v@).take(i as int).push(v@[i as int]@) =~= ids(v@).take(i + 1));
        }
        i += 1;
    }
    proof {
        assert(ids(v@).take(v.len() as int) =~= ids(v@));
    }
    r
}

} // verus!

verus! {

/// Whether no word occurs twice in `v`.
pub fn has_no_duplicates(v: &Vec<String>) -> (r: bool)
    ensures
        r == ids(v@).no_duplicates(),
{
    let mut i: usize = 0;
    while i < v.len()
        invariant
            i <= v.len(),
            forall|a: int, b: int| 0 <= a < i && 0 <= b < i && a != b ==> (#[trigger] v@[a])@ != (#[trigger] v@[b])@,
        decreases v.len() - i,
    {
        let mut j: usize = 0;
        while j < i
            invariant
                i < v.len(),
                j <= i,
                forall|b: int| 0 <= b < j ==> (#[trigger] v@[b])@ != v@[i as int]@,
            decreases i - j,
        {
            if v[j] == v[i] {
                proof {
                    assert(ids(v@)[j as int] == ids(v@)[i as int]);
                }
                return false;
            }
            j += 1;
        }
        i += 1;
    }
    proof {
        assert forall|a: int, b: int| 0 <= a < ids(v@).len() && 0 <= b < ids(v@).len() && a != b implies ids(v@)[a]
            != ids(v@)[b] by {
            assert(v@[a]@ != v@[b]@);
        }
    }
    true
}

/// Whether some word is in both `a` and `b`.
pub fn shares_word(a: &Vec<String>, b: &Vec<String>) -> (r: bool)
    ensures
        r == exists|w: Seq<char>| #[trigger] ids(a@).contains(w) && ids(b@).contains(w),
{
    let mut i: usize = 0;
    while i < a.len()
        invariant
            i <= a.len(),
            forall|k: int| 0 <= k < i ==> !ids(b@).contains((#[trigger] a@[k])@),
        decreases a.len() - i,
    {
        if contains_word(b, &a[i]) {
            proof {
                assert(ids(a@)[i as int] == a@[i as int]@);
                assert(ids(a@).contains(a@[i as int]@));
            }
            return true;
        }
        i += 1;
    }
    proof {
        assert forall|w: Seq<char>| !(#[trigger] ids(a@).contains(w) && ids(b@).contains(w)) by {
            if ids(a@).contains(w) {
                let k = choose|k: int| 0 <= k < ids(a@).len() && ids(a@)[k] == w;
                assert(a@[k]@ == w);
            }
        }
    }
    false
}

} // verus!
