//! Small text utilities: decimal rendering of integers and lexicographic
//! comparison of strings, each with an exact contract.

use vstd::prelude::*;

verus! {

/// The character of a decimal digit.
pub open spec fn digit_char(d: nat) -> char {
    if d == 0 { '0' }
    else if d == 1 { '1' }
    else if d == 2 { '2' }
    else if d == 3 { '3' }
    else if d == 4 { '4' }
    else if d == 5 { '5' }
    else if d == 6 { '6' }
    else if d == 7 { '7' }
    else if d == 8 { '8' }
    else { '9' }
}

/// Decimal rendering of a natural number, most significant digit first.
pub open spec fn nat_decimal(n: nat) -> Seq<char>
    decreases n,
{
    if n < 10 {
        seq![digit_char(n)]
    } else {
        nat_decimal(n / 10).push(digit_char(n % 10))
    }
}

/// Decimal rendering of an integer, with a leading '-' for negative values.
pub open spec fn int_decimal(i: int) -> Seq<char> {
    if i < 0 {
        seq!['-'] + nat_decimal((-i) as nat)
    } else {
        nat_decimal(i as nat)
    }
}

/// A decimal rendering has at least one character, the first of which is
/// a digit, and has exactly one when the number is below ten.
pub proof fn lemma_nat_decimal_shape(n: nat)
    ensures
        nat_decimal(n).len() >= 1,
        nat_decimal(n).len() == 1 <==> n < 10,
        nat_decimal(n)[0] != '-',
    decreases n,
{
    if n >= 10 {
        lemma_nat_decimal_shape(n / 10);
    }
}

/// Different numbers have different decimal renderings.
pub proof fn lemma_nat_decimal_injective(n: nat, m: nat)
    requires
        nat_decimal(n) == nat_decimal(m),
    ensures
        n == m,
    decreases n,
{
    lemma_nat_decimal_shape(n);
    lemma_nat_decimal_shape(m);
    if n >= 10 && m >= 10 {
        let a = nat_decimal(n);
        let b = nat_decimal(m);
        assert(a == nat_decimal(n / 10).push(digit_char(n % 10)));
        assert(b == nat_decimal(m / 10).push(digit_char(m % 10)));
        assert(a.drop_last() =~= nat_decimal(n / 10));
        assert(b.drop_last() =~= nat_decimal(m / 10));
        lemma_nat_decimal_injective(n / 10, m / 10);
        assert(a[a.len() - 1] == digit_char(n % 10));
        assert(b[b.len() - 1] == digit_char(m % 10));
        assert(digit_char(n % 10) == digit_char(m % 10));
        assert(n % 10 == m % 10);
    }
}

/// Different integers have different decimal renderings.
pub proof fn lemma_int_decimal_injective(i: int, j: int)
    requires
        int_decimal(i) == int_decimal(j),
    ensures
        i == j,
{
    if i < 0 && j < 0 {
        assert(int_decimal(i).drop_first() =~= nat_decimal((-i) as nat));
        assert(int_decimal(j).drop_first() =~= nat_decimal((-j) as nat));
        lemma_nat_decimal_injective((-i) as nat, (-j) as nat);
    } else if i >= 0 && j >= 0 {
        lemma_nat_decimal_injective(i as nat, j as nat);
    } else if i < 0 {
        lemma_nat_decimal_shape(j as nat);
        assert(int_decimal(i)[0] == '-');
    } else {
        lemma_nat_decimal_shape(i as nat);
        assert(int_decimal(j)[0] == '-');
    }
}

fn digit_str(d: u64) -> (s: &'static str)
    requires
        d < 10,
    ensures
        s@ == seq![digit_char(d as nat)],
{
    proof {
        reveal_strlit("0");
        reveal_strlit("1");
        reveal_strlit("2");
        reveal_strlit("3");
        reveal_strlit("4");
        reveal_strlit("5");
        reveal_strlit("6");
        reveal_strlit("7");
        reveal_strlit("8");
        reveal_strlit("9");
    }
    if d == 0 { "0" }
    else if d == 1 { "1" }
    else if d == 2 { "2" }
    else if d == 3 { "3" }
    else if d == 4 { "4" }
    else if d == 5 { "5" }
    else if d == 6 { "6" }
    else if d == 7 { "7" }
    else if d == 8 { "8" }
    else { "9" }
}

/// Renders an unsigned integer in decimal.
pub fn u64_to_string(n: u64) -> (s: String)
    ensures
        s@ == nat_decimal(n as nat),
    decreases n,
{
    if n < 10 {
        String::from_str(digit_str(n))
    } else {
        let mut s = u64_to_string(n / 10);
        s.append(digit_str(n % 10));
        s
    }
}

/// Renders a signed integer in decimal, as `i64::to_string` does.
pub fn i64_to_string(i: i64) -> (s: String)
    ensures
        s@ == int_decimal(i as int),
{
    if i < 0 {
        let wide: i128 = i as i128;
        let mag: u64 = (0i128 - wide) as u64;
        let digits = u64_to_string(mag);
        proof {
            reveal_strlit("-");
        }
        let s = String::from_str("-");
        s.concat(digits.as_str())
    } else {
        u64_to_string(i as u64)
    }
}

/// Renders an unsigned 128-bit integer in decimal.
pub fn u128_to_string(n: u128) -> (s: String)
    ensures
        s@ == nat_decimal(n as nat),
    decreases n,
{
    if n < 10 {
        String::from_str(digit_str(n as u64))
    } else {
        let mut s = u128_to_string(n / 10);
        s.append(digit_str((n % 10) as u64));
        s
    }
}

/// A count of tenths rendered with one decimal, as `{:.1}` prints it.
pub open spec fn tenths_decimal(q: nat) -> Seq<char> {
    nat_decimal(q / 10) + seq!['.', digit_char(q % 10)]
}

/// `num / den` in tenths, rounded to the nearest and, on a tie, to the
/// even neighbour.
pub open spec fn rounded_tenths(num: nat, den: nat) -> nat
    recommends
        den > 0,
{
    let q = (num * 10) / den;
    let r = (num * 10) % den;
    if 2 * r > den || (2 * r == den && q % 2 == 1) {
        q + 1
    } else {
        q
    }
}

/// Renders a count of tenths with one decimal.
pub fn tenths_to_string(q: u128) -> (s: String)
    ensures
        s@ == tenths_decimal(q as nat),
{
    let mut s = u128_to_string(q / 10);
    proof {
        reveal_strlit(".");
    }
    s.append(".");
    s.append(digit_str((q % 10) as u64));
    proof {
        assert(s@ =~= tenths_decimal(q as nat));
    }
    s
}

/// A count of hundredths rendered with two decimals, as `{:.2}` prints it:
/// the whole part in decimal, a point, then the two decimal digits.
pub open spec fn hundredths_decimal(q: nat) -> Seq<char> {
    nat_decimal(q / 100) + seq!['.', digit_char((q % 100) / 10), digit_char(q % 10)]
}

/// `num / den` in hundredths, rounded to the nearest and, on a tie, to the
/// even neighbour.
pub open spec fn rounded_hundredths(num: nat, den: nat) -> nat
    recommends
        den > 0,
{
    let q = (num * 100) / den;
    let r = (num * 100) % den;
    if 2 * r > den || (2 * r == den && q % 2 == 1) {
        q + 1
    } else {
        q
    }
}

/// Renders a count of hundredths with two decimals.
pub fn hundredths_to_string(q: u64) -> (s: String)
    ensures
        s@ == hundredths_decimal(q as nat),
{
    let mut s = u64_to_string(q / 100);
    proof {
        reveal_strlit(".");
    }
    s.append(".");
    s.append(digit_str((q % 100) / 10));
    s.append(digit_str(q % 10));
    proof {
        assert(s@ =~= hundredths_decimal(q as nat));
    }
    s
}

/// Lexicographic order on character sequences (by code point), as `str::cmp`
/// orders strings: true when `a` sorts strictly before `b`.
pub open spec fn seq_lt(a: Seq<char>, b: Seq<char>) -> bool
    decreases a.len(),
{
    if b.len() == 0 {
        false
    } else if a.len() == 0 {
        true
    } else if (a[0] as int) < (b[0] as int) {
        true
    } else if a[0] == b[0] {
        seq_lt(a.drop_first(), b.drop_first())
    } else {
        false
    }
}

/// Equality of two strings by their characters.
pub fn str_eq(a: &str, b: &str) -> (r: bool)
    ensures
        r == (a@ == b@),
{
    let n = a.unicode_len();
    let m = b.unicode_len();
    if n != m {
        return false;
    }
    let mut i: usize = 0;
    while i < n
        invariant
            n == a@.len(),
            m == b@.len(),
            n == m,
            i <= n,
            forall|j: int| 0 <= j < i ==> a@[j] == b@[j],
        decreases n - i,
    {
        if a.get_char(i) != b.get_char(i) {
            return false;
        }
        i = i + 1;
    }
    proof {
        assert(a@ =~= b@);
    }
    true
}

/// `seq_lt` is transitive.
pub proof fn lemma_seq_lt_transitive(a: Seq<char>, b: Seq<char>, c: Seq<char>)
    requires
        seq_lt(a, b),
        seq_lt(b, c),
    ensures
        seq_lt(a, c),
    decreases a.len(),
{
    if a.len() > 0 && b.len() > 0 && c.len() > 0 && a[0] == b[0] && b[0] == c[0] {
        lemma_seq_lt_transitive(a.drop_first(), b.drop_first(), c.drop_first());
    }
}

/// `seq_lt` is irreflexive.
pub proof fn lemma_seq_lt_irreflexive(a: Seq<char>)
    ensures
        !seq_lt(a, a),
    decreases a.len(),
{
    if a.len() > 0 {
        lemma_seq_lt_irreflexive(a.drop_first());
    }
}

/// Distinct sequences are ordered one way or the other.
pub proof fn lemma_seq_lt_total(a: Seq<char>, b: Seq<char>)
    ensures
        a == b || seq_lt(a, b) || seq_lt(b, a),
    decreases a.len(),
{
    if a.len() > 0 && b.len() > 0 && a[0] == b[0] {
        lemma_seq_lt_total(a.drop_first(), b.drop_first());
        if a.drop_first() == b.drop_first() {
            assert(a =~= seq![a[0]] + a.drop_first());
            assert(b =~= seq![b[0]] + b.drop_first());
        }
    } else if a.len() == 0 && b.len() == 0 {
        assert(a =~= b);
    } else if a.len() > 0 && b.len() > 0 {
        assert((a[0] as int) != (b[0] as int));
    }
}

/// Whether `a` sorts strictly before `b` (by code point, as `str` orders).
pub fn str_lt(a: &str, b: &str) -> (r: bool)
    ensures
        r == seq_lt(a@, b@),
{
    let n = a.unicode_len();
    let m = b.unicode_len();
    let mut i: usize = 0;
    proof {
        assert(a@.skip(0) =~= a@);
        assert(b@.skip(0) =~= b@);
    }
    while i < n && i < m
        invariant
            n == a@.len(),
            m == b@.len(),
            i <= n,
            i <= m,
            forall|j: int| 0 <= j < i ==> a@[j] == b@[j],
            seq_lt(a@, b@) == seq_lt(a@.skip(i as int), b@.skip(i as int)),
        decreases n - i,
    {
        let x = a.get_char(i);
        let y = b.get_char(i);
        proof {
            assert(a@.skip(i as int)[0] == x);
            assert(b@.skip(i as int)[0] == y);
            assert(a@.skip(i as int).drop_first() =~= a@.skip(i + 1));
            assert(b@.skip(i as int).drop_first() =~= b@.skip(i + 1));
        }
        if (x as u32) < (y as u32) {
            return true;
        }
        if x != y {
            return false;
        }
        i = i + 1;
    }
    i < m
}

/// Models of a list of strings.
pub open spec fn strs_view(v: Seq<String>) -> Seq<Seq<char>> {
    v.map_values(|s: String| s@)
}

/// A list of strings in ascending order: no element sorts before an
/// earlier one.
pub open spec fn strs_sorted(s: Seq<Seq<char>>) -> bool {
    forall|i: int, j: int| 0 <= i < j < s.len() ==> !seq_lt(#[trigger] s[j], #[trigger] s[i])
}

/// Sorts strings ascending, as `Vec::<String>::sort` does.
pub fn sort_strings(v: Vec<String>) -> (r: Vec<String>)
    ensures
        strs_sorted(strs_view(r@)),
        strs_view(r@).to_multiset() == strs_view(v@).to_multiset(),
{
    let n = v.len();
    let mut r: Vec<String> = Vec::new();
    let mut i: usize = 0;
    assert(strs_view(r@) =~= strs_view(v@.take(0)));
    while i < n
        invariant
            n == v@.len(),
            i <= n,
            strs_sorted(strs_view(r@)),
            strs_view(r@).to_multiset() == strs_view(v@.take(i as int)).to_multiset(),
        decreases n - i,
    {
        let x = v[i].clone();
        let m = r.len();
        let mut p: usize = 0;
        while p < m && !str_lt(x.as_str(), r[p].as_str())
            invariant
                m == r@.len(),
                p <= m,
                forall|t: int| 0 <= t < p ==> !seq_lt(x@, #[trigger] r@[t]@),
            decreases m - p,
        {
            p = p + 1;
        }
        let ghost before = strs_view(r@);
        let ghost xv = x@;
        r.insert(p, x);
        proof {
            let after = strs_view(r@);
            assert(after =~= before.insert(p as int, xv));
            assert forall|a: int, b: int| 0 <= a < b < after.len() implies !seq_lt(#[trigger] after[b], #[trigger] after[a]) by {
                if a < p && b == p {
                    assert(after[a] == before[a]);
                } else if a == p && b > p {
                    assert(after[b] == before[b - 1]);
                    if p < m {
                        assert(seq_lt(xv, before[p as int]));
                        if seq_lt(after[b], xv) {
                            lemma_seq_lt_transitive(after[b], xv, before[p as int]);
                            if b - 1 > p {
                                assert(!seq_lt(before[b - 1], before[p as int]));
                            } else {
                                lemma_seq_lt_irreflexive(before[p as int]);
                            }
                        }
                    }
                } else if a < p && b < p {
                    assert(after[a] == before[a] && after[b] == before[b]);
                } else if a < p && b > p {
                    assert(after[a] == before[a] && after[b] == before[b - 1]);
                } else {
                    assert(after[a] == before[a - 1] && after[b] == before[b - 1]);
                }
            }
            assert(after.remove(p as int) =~= before);
            after.to_multiset_ensures();
            assert(after.to_multiset().remove(xv) =~= before.to_multiset());
            assert(after.to_multiset().count(xv) > 0) by {
                assert(after[p as int] == xv);
                assert(after.contains(xv));
            }
            assert(after.to_multiset() =~= before.to_multiset().insert(xv));
            assert(v@.take(i + 1) =~= v@.take(i as int).push(v@[i as int]));
            assert(strs_view(v@.take(i + 1)) =~= strs_view(v@.take(i as int)).push(xv));
            strs_view(v@.take(i as int)).to_multiset_ensures();
        }
        i = i + 1;
    }
    proof {
        assert(v@.take(n as int) =~= v@);
    }
    r
}

/// Two ascending lists with the same elements are equal.
pub proof fn lemma_sorted_strs_unique(a: Seq<Seq<char>>, b: Seq<Seq<char>>)
    requires
        strs_sorted(a),
        strs_sorted(b),
        a.to_multiset() == b.to_multiset(),
    ensures
        a == b,
    decreases a.len(),
{
    a.to_multiset_ensures();
    b.to_multiset_ensures();
    assert(a.len() == b.len());
    if a.len() > 0 {
        assert(b.to_multiset().count(a[0]) > 0) by {
            assert(a.contains(a[0]));
        }
        assert(b.contains(a[0]));
        let j = choose|j: int| 0 <= j < b.len() && b[j] == a[0];
        assert(a.to_multiset().count(b[0]) > 0) by {
            assert(b.contains(b[0]));
        }
        assert(a.contains(b[0]));
        let i = choose|i: int| 0 <= i < a.len() && a[i] == b[0];
        if j > 0 {
            assert(!seq_lt(b[j], b[0]));
        } else {
            lemma_seq_lt_irreflexive(b[0]);
        }
        if i > 0 {
            assert(!seq_lt(a[i], a[0]));
        } else {
            lemma_seq_lt_irreflexive(a[0]);
        }
        lemma_seq_lt_total(a[0], b[0]);
        assert(a[0] == b[0]);
        let a1 = a.drop_first();
        let b1 = b.drop_first();
        assert(a.remove(0) =~= a1);
        assert(b.remove(0) =~= b1);
        assert(a1.to_multiset() =~= b1.to_multiset());
        assert forall|x: int, y: int| 0 <= x < y < a1.len() implies !seq_lt(#[trigger] a1[y], #[trigger] a1[x]) by {
            assert(a1[x] == a[x + 1] && a1[y] == a[y + 1]);
        }
        assert forall|x: int, y: int| 0 <= x < y < b1.len() implies !seq_lt(#[trigger] b1[y], #[trigger] b1[x]) by {
            assert(b1[x] == b[x + 1] && b1[y] == b[y + 1]);
        }
        lemma_sorted_strs_unique(a1, b1);
        assert forall|k: int| 0 <= k < a.len() implies a[k] == b[k] by {
            if k > 0 {
                assert(a[k] == a1[k - 1]);
                assert(b[k] == b1[k - 1]);
            }
        }
        assert(a =~= b);
    } else {
        assert(a =~= b);
    }
}

/// The ascending arrangement of a list of strings.
pub open spec fn canonical_strs(s: Seq<Seq<char>>) -> Seq<Seq<char>> {
    choose|t: Seq<Seq<char>>| strs_sorted(t) && t.to_multiset() == s.to_multiset()
}

/// The first position from `i` on whose string sorts after `x`, or the
/// length when there is none.
pub open spec fn first_after(t: Seq<Seq<char>>, x: Seq<char>, i: int) -> int
    decreases t.len() - i,
{
    if i >= t.len() {
        t.len() as int
    } else if seq_lt(x, t[i]) {
        i
    } else {
        first_after(t, x, i + 1)
    }
}

proof fn lemma_first_after(t: Seq<Seq<char>>, x: Seq<char>, i: int)
    requires
        0 <= i <= t.len(),
    ensures
        i <= first_after(t, x, i) <= t.len(),
        forall|j: int| i <= j < first_after(t, x, i) ==> !seq_lt(x, #[trigger] t[j]),
        first_after(t, x, i) < t.len() ==> seq_lt(x, t[first_after(t, x, i)]),
    decreases t.len() - i,
{
    if i < t.len() && !seq_lt(x, t[i]) {
        lemma_first_after(t, x, i + 1);
    }
}

/// Every list of strings has an ascending arrangement, so its canonical
/// arrangement is ascending and holds the same strings.
pub proof fn lemma_canonical_strs_exists(s: Seq<Seq<char>>)
    ensures
        strs_sorted(canonical_strs(s)),
        canonical_strs(s).to_multiset() == s.to_multiset(),
    decreases s.len(),
{
    if s.len() == 0 {
        let e = Seq::<Seq<char>>::empty();
        assert(e =~= s);
        assert(strs_sorted(e) && e.to_multiset() == s.to_multiset());
    } else {
        let d = s.drop_last();
        let xv = s.last();
        lemma_canonical_strs_exists(d);
        let before = canonical_strs(d);
        let m = before.len();
        lemma_first_after(before, xv, 0);
        let p = first_after(before, xv, 0);
        let after = before.insert(p, xv);
        assert forall|a: int, b: int| 0 <= a < b < after.len() implies !seq_lt(#[trigger] after[b], #[trigger] after[a]) by {
            if a < p && b == p {
                assert(after[a] == before[a]);
            } else if a == p && b > p {
                assert(after[b] == before[b - 1]);
                if p < m {
                    assert(seq_lt(xv, before[p]));
                    if seq_lt(after[b], xv) {
                        lemma_seq_lt_transitive(after[b], xv, before[p]);
                        if b - 1 > p {
                            assert(!seq_lt(before[b - 1], before[p]));
                        } else {
                            lemma_seq_lt_irreflexive(before[p]);
                        }
                    }
                }
            } else if a < p && b < p {
                assert(after[a] == before[a] && after[b] == before[b]);
            } else if a < p && b > p {
                assert(after[a] == before[a] && after[b] == before[b - 1]);
            } else {
                assert(after[a] == before[a - 1] && after[b] == before[b - 1]);
            }
        }
        assert(after.remove(p) =~= before);
        after.to_multiset_ensures();
        assert(after.to_multiset().count(xv) > 0) by {
            assert(after[p] == xv);
            assert(after.contains(xv));
        }
        assert(after.to_multiset() =~= before.to_multiset().insert(xv));
        assert(s =~= d.push(xv));
        d.to_multiset_ensures();
        assert(strs_sorted(after) && after.to_multiset() == s.to_multiset());
    }
}

/// An ascending arrangement of a list is its canonical arrangement.
pub proof fn lemma_canonical_strs(s: Seq<Seq<char>>, t: Seq<Seq<char>>)
    requires
        strs_sorted(t),
        t.to_multiset() == s.to_multiset(),
    ensures
        canonical_strs(s) == t,
{
    let c = canonical_strs(s);
    assert(strs_sorted(c) && c.to_multiset() == s.to_multiset());
    lemma_sorted_strs_unique(c, t);
}

/// Joins pieces with a separator between neighbours, as `[..].join(sep)`.
pub open spec fn join_with(parts: Seq<Seq<char>>, sep: Seq<char>) -> Seq<char>
    decreases parts.len(),
{
    if parts.len() == 0 {
        Seq::empty()
    } else if parts.len() == 1 {
        parts[0]
    } else {
        join_with(parts.drop_last(), sep) + sep + parts.last()
    }
}

/// Whether `n` occurs in `h` as a run of consecutive characters.
pub open spec fn has_substring(h: Seq<char>, n: Seq<char>) -> bool {
    exists|i: int| 0 <= i && i + n.len() <= h.len() && #[trigger] h.subrange(i, i + n.len()) == n
}

/// Whether `needle` occurs in `hay`, as `str::contains` with a `&str`
/// pattern tells.
pub fn contains_text(hay: &str, needle: &str) -> (b: bool)
    ensures
        b == has_substring(hay@, needle@),
{
    let n = hay.unicode_len();
    let m = needle.unicode_len();
    if m > n {
        proof {
            assert forall|i: int| 0 <= i && i + m <= n implies #[trigger] hay@.subrange(i, i + m) != needle@ by {
            }
        }
        return false;
    }
    let mut i: usize = 0;
    while i <= n - m
        invariant
            n == hay@.len(),
            m == needle@.len(),
            m <= n,
            i <= n - m + 1,
            forall|k: int| 0 <= k < i ==> #[trigger] hay@.subrange(k, k + m) != needle@,
        decreases n - i,
    {
        let mut j: usize = 0;
        while j < m && hay.get_char(i + j) == needle.get_char(j)
            invariant
                n == hay@.len(),
                m == needle@.len(),
                i + m <= n,
                j <= m,
                forall|t: int| 0 <= t < j ==> hay@[i + t] == needle@[t],
            decreases m - j,
        {
            j = j + 1;
        }
        if j == m {
            proof {
                assert(hay@.subrange(i as int, i + m) =~= needle@);
            }
            return true;
        }
        proof {
            assert(hay@.subrange(i as int, i + m)[j as int] != needle@[j as int]);
        }
        i = i + 1;
    }
    proof {
        assert forall|k: int| 0 <= k && k + m <= n implies #[trigger] hay@.subrange(k, k + m) != needle@ by {
            assert(k < i);
        }
    }
    false
}

} // verus!
