//! Counting how often entries occur in a list, and picking the most
//! frequent ones.

use vstd::prelude::*;
use crate::text::str_eq;

verus! {

/// How often `x` occurs in `s`.
pub open spec fn occurrences(s: Seq<Seq<char>>, x: Seq<char>) -> nat
    decreases s.len(),
{
    if s.len() == 0 { 0 } else { occurrences(s.drop_last(), x) + if s.last() == x { 1nat } else { 0nat } }
}

/// Whether `t` lists the most frequent entries of `all`: distinct entries
/// of it, as many as `limit` allows, from most to least frequent, and none
/// left out more frequent than any listed.
pub open spec fn most_frequent(all: Seq<Seq<char>>, t: Seq<Seq<char>>, limit: nat) -> bool {
    &&& t.no_duplicates()
    &&& forall|i: int| 0 <= i < t.len() ==> all.contains(#[trigger] t[i])
    &&& t.len() == if all.to_set().len() < limit { all.to_set().len() } else { limit }
    &&& forall|i: int, j: int| 0 <= i < j < t.len() ==> occurrences(all, #[trigger] t[i]) >= occurrences(all, #[trigger] t[j])
    &&& forall|x: Seq<char>, i: int| #![trigger all.contains(x), t[i]]
        all.contains(x) && !t.contains(x) && 0 <= i < t.len() ==> occurrences(all, x) <= occurrences(all, t[i])
}

/// An entry occurs at most as often as the list is long.
pub proof fn lemma_occurrences_bounded(s: Seq<Seq<char>>, x: Seq<char>)
    ensures
        occurrences(s, x) <= s.len(),
        occurrences(s, x) > 0 <==> s.contains(x),
    decreases s.len(),
{
    if s.len() > 0 {
        lemma_occurrences_bounded(s.drop_last(), x);
        if s.drop_last().contains(x) {
            let j = choose|j: int| 0 <= j < s.drop_last().len() && s.drop_last()[j] == x;
            assert(s[j] == x);
        }
        if s.contains(x) && s.last() != x {
            let j = choose|j: int| 0 <= j < s.len() && s[j] == x;
            assert(s.drop_last()[j] == x);
        }
    }
}

/// The keys of a count list.
pub open spec fn count_keys(c: Seq<(String, usize)>) -> Seq<Seq<char>> {
    c.map_values(|e: (String, usize)| e.0@)
}

/// Each distinct entry of the list once, in order of first occurrence,
/// with how often it occurs.
pub fn count_each(all: &Vec<String>) -> (c: Vec<(String, usize)>)
    ensures
        count_keys(c@).no_duplicates(),
        count_keys(c@).to_set() == all@.map_values(|t: String| t@).to_set(),
        forall|t: int| 0 <= t < c@.len() ==> #[trigger] c@[t].1 == occurrences(all@.map_values(|x: String| x@), c@[t].0@),
{
    let ghost a = all@.map_values(|t: String| t@);
    let mut c: Vec<(String, usize)> = Vec::new();
    let n = all.len();
    let mut i: usize = 0;
    proof {
        assert(a.take(0).to_set() =~= Set::<Seq<char>>::empty());
        assert(count_keys(c@).to_set() =~= Set::<Seq<char>>::empty());
    }
    while i < n
        invariant
            n == all@.len(),
            a == all@.map_values(|t: String| t@),
            i <= n,
            count_keys(c@).no_duplicates(),
            count_keys(c@).to_set() == a.take(i as int).to_set(),
            forall|t: int| 0 <= t < c@.len() ==> #[trigger] c@[t].1 == occurrences(a.take(i as int), c@[t].0@),
        decreases n - i,
    {
        let x = &all[i];
        let ghost xv = x@;
        let ghost pre = a.take(i as int);
        let ghost next = a.take(i + 1);
        proof {
            assert(next.drop_last() =~= pre);
            assert(next.last() == xv);
            assert(next =~= pre.push(xv));
            pre.lemma_push_to_set_commute(xv);
            lemma_occurrences_bounded(pre, xv);
        }
        let k = c.len();
        let mut p: usize = 0;
        while p < k
            invariant
                k == c@.len(),
                xv == x@,
                p <= k,
                forall|t: int| 0 <= t < p ==> c@[t].0@ != xv,
            ensures
                p <= k,
                forall|t: int| 0 <= t < p ==> c@[t].0@ != xv,
                p == k || c@[p as int].0@ == xv,
            decreases k - p,
        {
            if str_eq(c[p].0.as_str(), x.as_str()) {
                break;
            }
            p = p + 1;
        }
        let ghost before = c@;
        if p < k {
            let cur = c[p].1;
            let key = c[p].0.clone();
            proof {
                assert(count_keys(before)[p as int] == xv);
                assert(cur == occurrences(pre, xv));
            }
            c.set(p, (key, cur + 1));
            proof {
                assert(count_keys(c@) =~= count_keys(before));
                assert forall|t: int| 0 <= t < c@.len() implies #[trigger] c@[t].1 == occurrences(next, c@[t].0@) by {
                    if t != p {
                        assert(c@[t] == before[t]);
                        assert(count_keys(before)[t] != count_keys(before)[p as int]);
                    }
                }
                assert(pre.to_set().contains(xv)) by {
                    assert(count_keys(before).contains(xv));
                }
                assert(next.to_set() =~= pre.to_set());
            }
        } else {
            c.push((x.clone(), 1));
            proof {
                assert(count_keys(c@) =~= count_keys(before).push(xv));
                assert(!count_keys(before).contains(xv)) by {
                    if count_keys(before).contains(xv) {
                        let t = choose|t: int| 0 <= t < count_keys(before).len() && count_keys(before)[t] == xv;
                        assert(before[t].0@ == xv);
                    }
                }
                assert(!pre.to_set().contains(xv));
                assert(occurrences(pre, xv) == 0) by {
                    lemma_occurrences_bounded(pre, xv);
                }
                count_keys(before).lemma_push_to_set_commute(xv);
                assert forall|t: int| 0 <= t < c@.len() implies #[trigger] c@[t].1 == occurrences(next, c@[t].0@) by {
                    if t < before.len() {
                        assert(c@[t] == before[t]);
                        assert(count_keys(before)[t] != xv);
                    }
                }
            }
        }
        i = i + 1;
    }
    proof {
        assert(a.take(n as int) =~= a);
    }
    c
}

/// The most frequent entries with how often each occurs, at most `limit`
/// of them, most frequent first.
pub fn most_frequent_counts(all: &Vec<String>, limit: usize) -> (t: Vec<(String, usize)>)
    ensures
        most_frequent(all@.map_values(|x: String| x@), count_keys(t@), limit as nat),
        forall|i: int| 0 <= i < t@.len() ==> #[trigger] t@[i].1 == occurrences(all@.map_values(|x: String| x@), t@[i].0@),
{
    let ghost a = all@.map_values(|x: String| x@);
    let mut rem = count_each(all);
    let mut top: Vec<(String, usize)> = Vec::new();
    proof {
        count_keys(rem@).unique_seq_to_set();
        assert(count_keys(top@) + count_keys(rem@) =~= count_keys(rem@));
    }
    while top.len() < limit && rem.len() > 0
        invariant
            a == all@.map_values(|x: String| x@),
            top@.len() <= limit,
            ({
                let tv = count_keys(top@);
                let rk = count_keys(rem@);
                &&& (tv + rk).no_duplicates()
                &&& (tv + rk).to_set() == a.to_set()
                &&& tv.len() + rk.len() == a.to_set().len()
                &&& forall|i: int| 0 <= i < tv.len() ==> a.contains(#[trigger] tv[i])
                &&& forall|j: int| 0 <= j < rem@.len() ==> #[trigger] rem@[j].1 == occurrences(a, rem@[j].0@)
                &&& forall|j: int| 0 <= j < top@.len() ==> #[trigger] top@[j].1 == occurrences(a, top@[j].0@)
                &&& forall|i: int, j: int| 0 <= i < j < tv.len() ==> occurrences(a, #[trigger] tv[i]) >= occurrences(a, #[trigger] tv[j])
                &&& forall|j: int, i: int| 0 <= j < rk.len() && 0 <= i < tv.len()
                    ==> occurrences(a, #[trigger] rk[j]) <= occurrences(a, #[trigger] tv[i])
            }),
        decreases rem@.len(),
    {
        let ghost tv = count_keys(top@);
        let ghost rk = count_keys(rem@);
        let k = rem.len();
        let mut m: usize = 0;
        let mut j: usize = 1;
        while j < k
            invariant
                k == rem@.len(),
                1 <= j <= k,
                m < k,
                forall|t: int| 0 <= t < j ==> rem@[t].1 <= rem@[m as int].1,
            decreases k - j,
        {
            if rem[j].1 > rem[m].1 {
                m = j;
            }
            j = j + 1;
        }
        let ghost old_rem = rem@;
        proof {
            assert(old_rem[m as int].1 == occurrences(a, old_rem[m as int].0@));
        }
        let (key, cnt) = rem.remove(m);
        let ghost kv = key@;
        let ghost old_top = top@;
        top.push((key, cnt));
        proof {
            let tv2 = count_keys(top@);
            let rk2 = count_keys(rem@);
            assert(tv2 =~= tv.push(kv));
            assert(cnt == occurrences(a, kv));
            assert forall|j: int| 0 <= j < top@.len() implies #[trigger] top@[j].1 == occurrences(a, top@[j].0@) by {
                if j < top@.len() - 1 {
                    assert(top@[j] == old_top[j]);
                }
            }
            assert(rk2 =~= rk.remove(m as int));
            assert(rk[m as int] == kv);
            assert(forall|t: int| 0 <= t < rk2.len() ==> #[trigger] rk2[t] == rk[if t < m { t } else { t + 1 }]);
            assert((tv2 + rk2).to_multiset() =~= (tv + rk).to_multiset()) by {
                vstd::seq_lib::lemma_multiset_commutative(tv, rk);
                vstd::seq_lib::lemma_multiset_commutative(tv2, rk2);
                vstd::seq_lib::to_multiset_build(tv, kv);
                vstd::seq_lib::to_multiset_remove(rk, m as int);
                assert(rk.to_multiset().count(kv) > 0) by {
                    vstd::seq_lib::to_multiset_contains(rk, kv);
                }
                broadcast use vstd::multiset::group_multiset_axioms;
            }
            assert forall|x: Seq<char>| (tv2 + rk2).contains(x) <==> (tv + rk).contains(x) by {
                vstd::seq_lib::to_multiset_contains(tv2 + rk2, x);
                vstd::seq_lib::to_multiset_contains(tv + rk, x);
            }
            assert((tv2 + rk2).to_set() =~= (tv + rk).to_set());
            assert((tv2 + rk2).no_duplicates()) by {
                assert forall|a1: int, b1: int| 0 <= a1 < (tv2 + rk2).len() && 0 <= b1 < (tv2 + rk2).len() && a1 != b1
                    implies (tv2 + rk2)[a1] != (tv2 + rk2)[b1] by {
                    let w = tv + rk;
                    let n0 = tv.len() as int;
                    let src = |q: int| if q < n0 { q } else if q == n0 { n0 + m } else if q - n0 - 1 < m { q - 1 } else { q };
                    assert((tv2 + rk2)[a1] == w[src(a1)]);
                    assert((tv2 + rk2)[b1] == w[src(b1)]);
                }
            }
            assert forall|t: int| 0 <= t < rk2.len() implies occurrences(a, #[trigger] rk2[t]) <= occurrences(a, kv) by {
                let s2 = if t < m { t } else { t + 1 };
                assert(rem@[t] == old_rem[s2]);
                assert(old_rem[s2].1 <= old_rem[m as int].1);
                assert(old_rem[s2].1 == occurrences(a, old_rem[s2].0@));
            }
            assert forall|t: int| 0 <= t < rem@.len() implies #[trigger] rem@[t].1 == occurrences(a, rem@[t].0@) by {
                let s2 = if t < m { t } else { t + 1 };
                assert(rem@[t] == old_rem[s2]);
            }
            assert forall|i: int| 0 <= i < tv.len() implies occurrences(a, kv) <= occurrences(a, #[trigger] tv[i]) by {
                assert(occurrences(a, rk[m as int]) <= occurrences(a, tv[i]));
            }
            assert forall|i: int, j2: int| 0 <= i < j2 < tv2.len() implies occurrences(a, #[trigger] tv2[i]) >= occurrences(a, #[trigger] tv2[j2]) by {
                assert(tv2[i] == tv[i]);
                if j2 < tv.len() {
                    assert(tv2[j2] == tv[j2]);
                }
            }
            assert forall|j2: int, i: int| 0 <= j2 < rk2.len() && 0 <= i < tv2.len()
                implies occurrences(a, #[trigger] rk2[j2]) <= occurrences(a, #[trigger] tv2[i]) by {
                if i < tv.len() {
                    assert(tv2[i] == tv[i]);
                    let s2 = if j2 < m { j2 } else { j2 + 1 };
                    assert(rk2[j2] == rk[s2]);
                }
            }
            assert forall|i: int| 0 <= i < tv2.len() implies a.contains(#[trigger] tv2[i]) by {
                if i == tv.len() {
                    assert((tv + rk)[tv.len() + m] == kv);
                    assert((tv + rk).to_set().contains(kv));
                }
            }
        }
    }
    proof {
        let tv = count_keys(top@);
        let rk = count_keys(rem@);
        assert(tv.no_duplicates()) by {
            assert forall|a1: int, b1: int| 0 <= a1 < tv.len() && 0 <= b1 < tv.len() && a1 != b1 implies tv[a1] != tv[b1] by {
                assert((tv + rk)[a1] == tv[a1] && (tv + rk)[b1] == tv[b1]);
            }
        }
        assert forall|x: Seq<char>, i: int| #![trigger a.contains(x), tv[i]]
            a.contains(x) && !tv.contains(x) && 0 <= i < tv.len() implies occurrences(a, x) <= occurrences(a, tv[i]) by {
            assert(a.to_set().contains(x));
            assert((tv + rk).contains(x));
            let q = choose|q: int| 0 <= q < (tv + rk).len() && (tv + rk)[q] == x;
            if q < tv.len() {
                assert(tv[q] == x);
            } else {
                assert(rk[q - tv.len()] == x);
            }
        }
    }
    top
}

} // verus!
