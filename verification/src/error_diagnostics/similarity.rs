//! How alike two messages are, by the words they share.

use vstd::prelude::*;
use crate::text::str_eq;
use crate::types::Ratio;

verus! {

/// White space in the sense of Unicode's `White_Space` property, which
/// `char::is_whitespace` and `str::split_whitespace` go by.
pub open spec fn is_white_space(c: char) -> bool {
    let u = c as int;
    ||| 0x9 <= u <= 0xD
    ||| u == 0x20
    ||| u == 0x85
    ||| u == 0xA0
    ||| u == 0x1680
    ||| 0x2000 <= u <= 0x200A
    ||| u == 0x2028
    ||| u == 0x2029
    ||| u == 0x202F
    ||| u == 0x205F
    ||| u == 0x3000
}

/// Whether positions `i..j` of `s` hold a word: a longest run of
/// characters none of which is white space.
pub open spec fn word_at(s: Seq<char>, i: int, j: int) -> bool {
    &&& 0 <= i < j <= s.len()
    &&& forall|k: int| i <= k < j ==> !is_white_space(#[trigger] s[k])
    &&& (i == 0 || is_white_space(s[i - 1]))
    &&& (j == s.len() || is_white_space(s[j]))
}

/// The set of words of `s`, the pieces that `split_whitespace` yields.
pub open spec fn word_set(s: Seq<char>) -> Set<Seq<char>> {
    Set::new(|w: Seq<char>| exists|i: int, j: int| word_at(s, i, j) && w == s.subrange(i, j))
}

/// The words of `s` that end before position `k`.
pub open spec fn words_ended_before(s: Seq<char>, k: int) -> Set<Seq<char>> {
    Set::new(|w: Seq<char>| exists|i: int, j: int| word_at(s, i, j) && j < k && w == s.subrange(i, j))
}

/// Models of a list of string slices.
pub open spec fn slices_view(v: Seq<&str>) -> Seq<Seq<char>> {
    v.map_values(|x: &str| x@)
}

/// Whether `c` is white space.
pub fn white_space(c: char) -> (b: bool)
    ensures
        b == is_white_space(c),
{
    let u = c as u32;
    (0x9 <= u && u <= 0xD) || u == 0x20 || u == 0x85 || u == 0xA0 || u == 0x1680 || (0x2000 <= u && u <= 0x200A)
        || u == 0x2028 || u == 0x2029 || u == 0x202F || u == 0x205F || u == 0x3000
}

/// Two words of `s` that end at the same position start at the same one.
proof fn lemma_word_start_unique(s: Seq<char>, i1: int, i2: int, j: int)
    requires
        word_at(s, i1, j),
        word_at(s, i2, j),
    ensures
        i1 == i2,
{
    if i1 < i2 {
        assert(!is_white_space(s[i2 - 1]));
    } else if i2 < i1 {
        assert(!is_white_space(s[i1 - 1]));
    }
}

/// Adds `w` to a list of distinct words unless it is there already.
fn add_distinct<'a>(words: &mut Vec<&'a str>, w: &'a str)
    requires
        slices_view(old(words)@).no_duplicates(),
    ensures
        slices_view(final(words)@).no_duplicates(),
        slices_view(final(words)@).to_set() == slices_view(old(words)@).to_set().insert(w@),
        final(words)@.len() <= old(words)@.len() + 1,
{
    let n = words.len();
    let mut i: usize = 0;
    while i < n
        invariant
            n == words@.len(),
            i <= n,
            slices_view(words@).no_duplicates(),
            forall|t: int| 0 <= t < i ==> #[trigger] words@[t]@ != w@,
        decreases n - i,
    {
        if str_eq(words[i], w) {
            proof {
                assert(slices_view(words@)[i as int] == w@);
                assert(slices_view(words@).to_set().insert(w@) =~= slices_view(words@).to_set());
            }
            return;
        }
        i = i + 1;
    }
    let ghost before = slices_view(words@);
    words.push(w);
    proof {
        assert(slices_view(words@) =~= before.push(w@));
        before.lemma_push_to_set_commute(w@);
        assert(!before.contains(w@)) by {
            if before.contains(w@) {
                let t = choose|t: int| 0 <= t < before.len() && before[t] == w@;
                assert(words@[t]@ == w@);
            }
        }
    }
}

/// The distinct words of `s`, in order of first occurrence.
pub fn distinct_words<'a>(s: &'a str) -> (w: Vec<&'a str>)
    ensures
        slices_view(w@).no_duplicates(),
        slices_view(w@).to_set() == word_set(s@),
        w@.len() <= s@.len(),
{
    let n = s.unicode_len();
    let mut words: Vec<&'a str> = Vec::new();
    let mut start: usize = 0;
    let mut in_word = false;
    let mut k: usize = 0;
    proof {
        assert(slices_view(words@).to_set() =~= words_ended_before(s@, 0));
    }
    while k < n
        invariant
            n == s@.len(),
            k <= n,
            in_word ==> start < k && (start == 0 || is_white_space(s@[start - 1]))
                && forall|q: int| start <= q < k ==> !is_white_space(#[trigger] s@[q]),
            !in_word ==> k == 0 || is_white_space(s@[k - 1]),
            words@.len() + (if in_word { 1int } else { 0int }) <= k,
            slices_view(words@).no_duplicates(),
            slices_view(words@).to_set() == words_ended_before(s@, k as int),
        decreases n - k,
    {
        let c = s.get_char(k);
        let ghost ended = words_ended_before(s@, k as int);
        if white_space(c) {
            if in_word {
                let piece = s.substring_char(start, k);
                add_distinct(&mut words, piece);
                in_word = false;
                proof {
                    assert(word_at(s@, start as int, k as int));
                    assert forall|x: Seq<char>| words_ended_before(s@, k + 1).contains(x) <==> ended.insert(piece@).contains(x) by {
                        if words_ended_before(s@, k + 1).contains(x) {
                            let (i, j) = choose|i: int, j: int| word_at(s@, i, j) && j < k + 1 && x == s@.subrange(i, j);
                            if j == k {
                                lemma_word_start_unique(s@, i, start as int, j);
                            }
                        }
                        if x == piece@ {
                            assert(word_at(s@, start as int, k as int) && x == s@.subrange(start as int, k as int));
                        }
                        if ended.contains(x) {
                            let (i, j) = choose|i: int, j: int| word_at(s@, i, j) && j < k && x == s@.subrange(i, j);
                            assert(word_at(s@, i, j) && j < k + 1 && x == s@.subrange(i, j));
                        }
                    }
                    assert(words_ended_before(s@, k + 1) =~= ended.insert(piece@));
                }
            } else {
                proof {
                    assert forall|x: Seq<char>| words_ended_before(s@, k + 1).contains(x) <==> ended.contains(x) by {
                        if words_ended_before(s@, k + 1).contains(x) {
                            let (i, j) = choose|i: int, j: int| word_at(s@, i, j) && j < k + 1 && x == s@.subrange(i, j);
                            if j == k {
                                assert(!is_white_space(s@[k - 1]));
                            }
                        }
                        if ended.contains(x) {
                            let (i, j) = choose|i: int, j: int| word_at(s@, i, j) && j < k && x == s@.subrange(i, j);
                            assert(word_at(s@, i, j) && j < k + 1 && x == s@.subrange(i, j));
                        }
                    }
                    assert(words_ended_before(s@, k + 1) =~= ended);
                }
            }
        } else {
            if !in_word {
                start = k;
                in_word = true;
            }
            proof {
                assert forall|x: Seq<char>| words_ended_before(s@, k + 1).contains(x) <==> ended.contains(x) by {
                    if words_ended_before(s@, k + 1).contains(x) {
                        let (i, j) = choose|i: int, j: int| word_at(s@, i, j) && j < k + 1 && x == s@.subrange(i, j);
                        if j == k {
                            assert(is_white_space(s@[k as int]));
                        }
                    }
                    if ended.contains(x) {
                        let (i, j) = choose|i: int, j: int| word_at(s@, i, j) && j < k && x == s@.subrange(i, j);
                        assert(word_at(s@, i, j) && j < k + 1 && x == s@.subrange(i, j));
                    }
                }
                assert(words_ended_before(s@, k + 1) =~= ended);
            }
        }
        k = k + 1;
    }
    let ghost ended = words_ended_before(s@, n as int);
    if in_word {
        let piece = s.substring_char(start, n);
        add_distinct(&mut words, piece);
        proof {
            assert(word_at(s@, start as int, n as int));
            assert forall|x: Seq<char>| word_set(s@).contains(x) <==> ended.insert(piece@).contains(x) by {
                if word_set(s@).contains(x) {
                    let (i, j) = choose|i: int, j: int| word_at(s@, i, j) && x == s@.subrange(i, j);
                    if j == n {
                        lemma_word_start_unique(s@, i, start as int, j);
                    } else {
                        assert(word_at(s@, i, j) && j < n && x == s@.subrange(i, j));
                    }
                }
                if x == piece@ {
                    assert(word_at(s@, start as int, n as int) && x == s@.subrange(start as int, n as int));
                }
                if ended.contains(x) {
                    let (i, j) = choose|i: int, j: int| word_at(s@, i, j) && j < n && x == s@.subrange(i, j);
                    assert(word_at(s@, i, j) && x == s@.subrange(i, j));
                }
            }
            assert(word_set(s@) =~= ended.insert(piece@));
        }
    } else {
        proof {
            assert forall|x: Seq<char>| word_set(s@).contains(x) <==> ended.contains(x) by {
                if word_set(s@).contains(x) {
                    let (i, j) = choose|i: int, j: int| word_at(s@, i, j) && x == s@.subrange(i, j);
                    if j == n {
                        assert(!is_white_space(s@[n - 1]));
                    } else {
                        assert(word_at(s@, i, j) && j < n && x == s@.subrange(i, j));
                    }
                }
                if ended.contains(x) {
                    let (i, j) = choose|i: int, j: int| word_at(s@, i, j) && j < n && x == s@.subrange(i, j);
                    assert(word_at(s@, i, j) && x == s@.subrange(i, j));
                }
            }
            assert(word_set(s@) =~= ended);
        }
    }
    words
}

/// Whether `w` is among `words`.
fn has_word(words: &Vec<&str>, w: &str) -> (b: bool)
    ensures
        b == slices_view(words@).contains(w@),
{
    let n = words.len();
    let mut i: usize = 0;
    while i < n
        invariant
            n == words@.len(),
            i <= n,
            forall|t: int| 0 <= t < i ==> #[trigger] words@[t]@ != w@,
        decreases n - i,
    {
        if str_eq(words[i], w) {
            proof {
                assert(slices_view(words@)[i as int] == w@);
            }
            return true;
        }
        i = i + 1;
    }
    proof {
        if slices_view(words@).contains(w@) {
            let t = choose|t: int| 0 <= t < n && slices_view(words@)[t] == w@;
            assert(words@[t]@ == w@);
        }
    }
    false
}

/// How alike two messages are: the words they share over all the words
/// either has, each message taken as the set of its words. Where neither
/// has a word the ratio is 0 of 0.
pub fn calculate_message_similarity(msg1: &str, msg2: &str) -> (r: Ratio)
    requires
        msg1@.len() + msg2@.len() <= usize::MAX,
    ensures
        r.part == word_set(msg1@).intersect(word_set(msg2@)).len(),
        r.whole == word_set(msg1@).union(word_set(msg2@)).len(),
{
    let a = distinct_words(msg1);
    let b = distinct_words(msg2);
    let ghost av = slices_view(a@);
    let ghost bv = slices_view(b@);
    let ghost sa = word_set(msg1@);
    let mut shared: usize = 0;
    let mut extra: usize = 0;
    let ghost mut both: Seq<Seq<char>> = Seq::empty();
    let ghost mut all: Seq<Seq<char>> = av;
    let n = b.len();
    let mut k: usize = 0;
    proof {
        assert(bv.take(0).to_set() =~= Set::<Seq<char>>::empty());
        assert(both.to_set() =~= Set::<Seq<char>>::empty());
        assert(all.to_set() =~= sa.union(bv.take(0).to_set()));
    }
    while k < n
        invariant
            n == b@.len(),
            k <= n,
            av == slices_view(a@),
            bv == slices_view(b@),
            sa == av.to_set(),
            av.no_duplicates(),
            bv.no_duplicates(),
            a@.len() <= msg1@.len(),
            b@.len() <= msg2@.len(),
            msg1@.len() + msg2@.len() <= usize::MAX,
            shared + extra == k,
            both.len() == shared,
            all.len() == a@.len() + extra,
            both.no_duplicates(),
            all.no_duplicates(),
            both.to_set() == sa.intersect(bv.take(k as int).to_set()),
            all.to_set() == sa.union(bv.take(k as int).to_set()),
        decreases n - k,
    {
        let x = b[k];
        let ghost xv = x@;
        let ghost seen = bv.take(k as int).to_set();
        proof {
            assert(bv.take(k + 1) =~= bv.take(k as int).push(xv));
            bv.take(k as int).lemma_push_to_set_commute(xv);
            assert(!seen.contains(xv)) by {
                if seen.contains(xv) {
                    let t = choose|t: int| 0 <= t < k && bv.take(k as int)[t] == xv;
                    assert(bv[t] == bv[k as int]);
                }
            }
        }
        if has_word(&a, x) {
            proof {
                assert(!both.to_set().contains(xv));
                assert(!both.contains(xv));
                both.lemma_push_to_set_commute(xv);
                both = both.push(xv);
                assert(both.to_set() =~= sa.intersect(bv.take(k + 1).to_set()));
                assert(all.to_set() =~= sa.union(bv.take(k + 1).to_set()));
            }
            shared = shared + 1;
        } else {
            proof {
                assert(!all.contains(xv)) by {
                    assert(!all.to_set().contains(xv));
                }
                all.lemma_push_to_set_commute(xv);
                all = all.push(xv);
                assert(both.to_set() =~= sa.intersect(bv.take(k + 1).to_set()));
                assert(all.to_set() =~= sa.union(bv.take(k + 1).to_set()));
            }
            extra = extra + 1;
        }
        k = k + 1;
    }
    proof {
        assert(bv.take(n as int) =~= bv);
        both.unique_seq_to_set();
        all.unique_seq_to_set();
    }
    Ratio { part: shared, whole: a.len() + extra }
}

/// The word of `s` that starts at position `i`.
pub open spec fn word_from(s: Seq<char>, i: int) -> Seq<char> {
    s.subrange(i, choose|j: int| word_at(s, i, j))
}

/// Two words of `s` that start at the same position end at the same one.
proof fn lemma_word_end_unique(s: Seq<char>, i: int, j1: int, j2: int)
    requires
        word_at(s, i, j1),
        word_at(s, i, j2),
    ensures
        j1 == j2,
{
    if j1 < j2 {
        assert(!is_white_space(s[j1]));
    } else if j2 < j1 {
        assert(!is_white_space(s[j2]));
    }
}

/// A text has finitely many words, no more than it has characters.
pub proof fn lemma_word_set_finite(s: Seq<char>)
    ensures
        word_set(s).finite(),
        word_set(s).len() <= s.len(),
{
    let starts = vstd::set_lib::set_int_range(0, s.len() as int);
    vstd::set_lib::lemma_int_range(0, s.len() as int);
    let f = |i: int| word_from(s, i);
    let img = starts.map(f);
    vstd::set_lib::lemma_map_size_bound(starts, img, f);
    assert forall|w: Seq<char>| word_set(s).contains(w) implies img.contains(w) by {
        let (i, j) = choose|i: int, j: int| word_at(s, i, j) && w == s.subrange(i, j);
        let j2 = choose|j2: int| word_at(s, i, j2);
        lemma_word_end_unique(s, i, j, j2);
        assert(starts.contains(i) && f(i) == w);
    }
    vstd::set_lib::lemma_len_subset(word_set(s), img);
}

/// A run of `k` characters that are not white space at the start of `s`
/// extends to a word.
proof fn lemma_first_word(s: Seq<char>, k: int)
    requires
        0 < k <= s.len(),
        forall|q: int| 0 <= q < k ==> !is_white_space(#[trigger] s[q]),
    ensures
        exists|j: int| word_at(s, 0, j),
    decreases s.len() - k,
{
    if k == s.len() {
        assert(word_at(s, 0, k));
    } else if is_white_space(s[k]) {
        assert(word_at(s, 0, k));
    } else {
        lemma_first_word(s, k + 1);
    }
}

/// A text that starts with a character other than white space has a word.
pub proof fn lemma_has_word(s: Seq<char>)
    requires
        s.len() > 0,
        !is_white_space(s[0]),
    ensures
        word_set(s).len() > 0,
{
    lemma_first_word(s, 1);
    lemma_word_set_finite(s);
    let j = choose|j: int| word_at(s, 0, j);
    assert(word_set(s).contains(s.subrange(0, j)));
}

/// Similarity does not depend on the order of the two messages: they
/// share the same words, and have the same words in all, either way round.
pub proof fn law_similarity_symmetric(a: Seq<char>, b: Seq<char>)
    ensures
        word_set(a).intersect(word_set(b)) == word_set(b).intersect(word_set(a)),
        word_set(a).union(word_set(b)) == word_set(b).union(word_set(a)),
{
    assert(word_set(a).intersect(word_set(b)) =~= word_set(b).intersect(word_set(a)));
    assert(word_set(a).union(word_set(b)) =~= word_set(b).union(word_set(a)));
}

/// Similarity is at most 1, and a message with a word is wholly like
/// itself: shared words never outnumber all words, and a message shares
/// all its words with itself.
pub proof fn law_similarity_bounded(a: Seq<char>, b: Seq<char>)
    ensures
        word_set(a).intersect(word_set(b)).len() <= word_set(a).union(word_set(b)).len(),
        word_set(a).intersect(word_set(a)).len() == word_set(a).union(word_set(a)).len(),
        word_set(a).intersect(word_set(a)).len() == word_set(a).len(),
{
    lemma_word_set_finite(a);
    lemma_word_set_finite(b);
    let u = word_set(a).union(word_set(b));
    assert(u.finite()) by {
        vstd::set_lib::lemma_set_union_finite_iff(word_set(a), word_set(b));
    }
    vstd::set_lib::lemma_len_subset(word_set(a).intersect(word_set(b)), u);
    assert(word_set(a).intersect(word_set(a)) =~= word_set(a));
    assert(word_set(a).union(word_set(a)) =~= word_set(a));
}

} // verus!
