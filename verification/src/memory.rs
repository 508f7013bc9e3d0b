//! Resident memory of the process: reading the `VmRSS:` entry of a
//! `/proc/self/status` text, deltas between measurements, and their
//! display in megabytes. Reading the file is left to the caller.

use vstd::prelude::*;
use std::time::Instant;
use crate::error::BingoResult;
use crate::clock::now;
use crate::text::{hundredths_decimal, hundredths_to_string, rounded_hundredths};

verus! {

/// What the process reports when its status text cannot be read: 1 MiB.
pub const FALLBACK_RSS_BYTES: usize = 1048576;

/// Whitespace as `char::is_whitespace` defines it (the Unicode
/// `White_Space` property).
pub open spec fn is_white(c: char) -> bool {
    ||| ('\u{9}' <= c && c <= '\u{d}')
    ||| c == ' '
    ||| c == '\u{85}'
    ||| c == '\u{a0}'
    ||| c == '\u{1680}'
    ||| ('\u{2000}' <= c && c <= '\u{200a}')
    ||| c == '\u{2028}'
    ||| c == '\u{2029}'
    ||| c == '\u{202f}'
    ||| c == '\u{205f}'
    ||| c == '\u{3000}'
}

fn is_white_exec(c: char) -> (b: bool)
    ensures
        b == is_white(c),
{
    ('\u{9}' <= c && c <= '\u{d}') || c == ' ' || c == '\u{85}' || c == '\u{a0}' || c == '\u{1680}'
        || ('\u{2000}' <= c && c <= '\u{200a}') || c == '\u{2028}' || c == '\u{2029}' || c == '\u{202f}'
        || c == '\u{205f}' || c == '\u{3000}'
}

/// Where the line that starts at `i` ends: the first line feed at or after
/// `i`, or the end of the text.
pub open spec fn line_end(s: Seq<char>, i: int) -> int
    decreases s.len() - i,
{
    if i >= s.len() || s[i] == '\n' {
        i
    } else {
        line_end(s, i + 1)
    }
}

/// A line ends at or after its start, and no later than the text.
pub proof fn lemma_line_end_bounds(s: Seq<char>, i: int)
    requires
        0 <= i <= s.len(),
    ensures
        i <= line_end(s, i) <= s.len(),
    decreases s.len() - i,
{
    if i < s.len() && s[i] != '\n' {
        lemma_line_end_bounds(s, i + 1);
    }
}

/// The first line, from the line starting at `i` on, that begins with
/// `VmRSS:`. Lines are split at line feeds, as `str::lines` splits them; a
/// carriage return before a feed stays in its line, where it only counts
/// as whitespace.
pub open spec fn rss_line_from(s: Seq<char>, i: int) -> Option<Seq<char>>
    decreases s.len() - i,
{
    if i < 0 || i > s.len() {
        None
    } else {
        let e = line_end(s, i);
        proof {
            lemma_line_end_bounds(s, i);
        }
        let line = s.subrange(i, e);
        if line.len() >= 6 && line.subrange(0, 6) == "VmRSS:"@ {
            Some(line)
        } else if e >= s.len() {
            None
        } else {
            rss_line_from(s, e + 1)
        }
    }
}

/// The first position at or after `i` that holds no whitespace (or the end).
pub open spec fn skip_white(l: Seq<char>, i: int) -> int
    decreases l.len() - i,
{
    if i >= l.len() || !is_white(l[i]) {
        i
    } else {
        skip_white(l, i + 1)
    }
}

/// The first position at or after `i` that holds whitespace (or the end).
pub open spec fn skip_word(l: Seq<char>, i: int) -> int
    decreases l.len() - i,
{
    if i >= l.len() || is_white(l[i]) {
        i
    } else {
        skip_word(l, i + 1)
    }
}

/// The second whitespace-separated word of a line, as
/// `split_whitespace().nth(1)` gives it.
pub open spec fn second_word(l: Seq<char>) -> Option<Seq<char>> {
    let s0 = skip_white(l, 0);
    let e0 = skip_word(l, s0);
    let s1 = skip_white(l, e0);
    let e1 = skip_word(l, s1);
    if s0 < l.len() && s1 < l.len() {
        Some(l.subrange(s1, e1))
    } else {
        None
    }
}

/// Whether a character is an ASCII digit.
pub open spec fn is_digit(c: char) -> bool {
    '0' <= c && c <= '9'
}

/// The value of a decimal digit character.
pub open spec fn digit_of(c: char) -> nat {
    if c == '1' { 1 }
    else if c == '2' { 2 }
    else if c == '3' { 3 }
    else if c == '4' { 4 }
    else if c == '5' { 5 }
    else if c == '6' { 6 }
    else if c == '7' { 7 }
    else if c == '8' { 8 }
    else if c == '9' { 9 }
    else { 0 }
}

fn digit_exec(c: char) -> (d: usize)
    ensures
        d == digit_of(c),
{
    if c == '1' { 1 }
    else if c == '2' { 2 }
    else if c == '3' { 3 }
    else if c == '4' { 4 }
    else if c == '5' { 5 }
    else if c == '6' { 6 }
    else if c == '7' { 7 }
    else if c == '8' { 8 }
    else if c == '9' { 9 }
    else { 0 }
}

/// The value of a string of decimal digits.
pub open spec fn digits_value(d: Seq<char>) -> nat
    decreases d.len(),
{
    if d.len() == 0 {
        0
    } else {
        digits_value(d.drop_last()) * 10 + digit_of(d.last())
    }
}

/// Whether every character is an ASCII digit.
pub open spec fn all_digits(d: Seq<char>) -> bool {
    forall|i: int| 0 <= i < d.len() ==> is_digit(#[trigger] d[i])
}

/// The digits of a number's text: without its leading `+`, if any.
pub open spec fn unsigned_part(t: Seq<char>) -> Seq<char> {
    if t.len() > 0 && t[0] == '+' { t.skip(1) } else { t }
}

/// `str::parse::<usize>`: an optional `+`, then one digit or more, whose
/// value fits in `usize`.
pub open spec fn parse_usize(t: Seq<char>) -> Option<usize> {
    let d = unsigned_part(t);
    if d.len() > 0 && all_digits(d) && digits_value(d) <= usize::MAX {
        Some(digits_value(d) as usize)
    } else {
        None
    }
}

/// The kilobytes a status text reports on its `VmRSS:` line: the second
/// word parsed as a number, zero when there is no such line or it does not
/// parse.
pub open spec fn status_rss_kb(s: Seq<char>) -> nat {
    match rss_line_from(s, 0) {
        Some(line) => match second_word(line) {
            Some(w) => match parse_usize(w) {
                Some(v) => v as nat,
                None => 0,
            },
            None => 0,
        },
        None => 0,
    }
}

fn chars_of(s: &str) -> (v: Vec<char>)
    ensures
        v@ == s@,
{
    let n = s.unicode_len();
    let mut v: Vec<char> = Vec::new();
    let mut i: usize = 0;
    while i < n
        invariant
            n == s@.len(),
            i <= n,
            v@ == s@.subrange(0, i as int),
        decreases n - i,
    {
        v.push(s.get_char(i));
        proof {
            assert(v@ =~= s@.subrange(0, i + 1));
        }
        i = i + 1;
    }
    proof {
        assert(s@.subrange(0, n as int) =~= s@);
    }
    v
}

fn find_line_end(v: &Vec<char>, start: usize) -> (e: usize)
    requires
        start <= v@.len(),
    ensures
        e == line_end(v@, start as int),
        start <= e <= v@.len(),
{
    let mut i = start;
    while i < v.len() && v[i] != '\n'
        invariant
            start <= i <= v@.len(),
            line_end(v@, i as int) == line_end(v@, start as int),
        decreases v@.len() - i,
    {
        i = i + 1;
    }
    i
}

fn skip_white_exec(l: &Vec<char>, from: usize, to: usize) -> (r: usize)
    requires
        from <= to <= l@.len(),
    ensures
        r == skip_white(l@.subrange(0, to as int), from as int),
        from <= r <= to,
{
    let ghost t = l@.subrange(0, to as int);
    let mut i = from;
    while i < to && is_white_exec(l[i])
        invariant
            from <= i <= to,
            to <= l@.len(),
            t == l@.subrange(0, to as int),
            skip_white(t, i as int) == skip_white(t, from as int),
        decreases to - i,
    {
        assert(t[i as int] == l@[i as int]);
        i = i + 1;
    }
    proof {
        if i < to {
            assert(t[i as int] == l@[i as int]);
        }
    }
    i
}

fn skip_word_exec(l: &Vec<char>, from: usize, to: usize) -> (r: usize)
    requires
        from <= to <= l@.len(),
    ensures
        r == skip_word(l@.subrange(0, to as int), from as int),
        from <= r <= to,
{
    let ghost t = l@.subrange(0, to as int);
    let mut i = from;
    while i < to && !is_white_exec(l[i])
        invariant
            from <= i <= to,
            to <= l@.len(),
            t == l@.subrange(0, to as int),
            skip_word(t, i as int) == skip_word(t, from as int),
        decreases to - i,
    {
        assert(t[i as int] == l@[i as int]);
        i = i + 1;
    }
    proof {
        if i < to {
            assert(t[i as int] == l@[i as int]);
        }
    }
    i
}

/// Skipping whitespace or a word within a line gives the same position in
/// the line as in the text from the line's start.
proof fn lemma_shift_skip(s: Seq<char>, a: int, b: int, i: int)
    requires
        0 <= a <= i <= b <= s.len(),
    ensures
        skip_white(s.subrange(a, b), i - a) == skip_white(s.subrange(0, b), i) - a,
        skip_word(s.subrange(a, b), i - a) == skip_word(s.subrange(0, b), i) - a,
    decreases b - i,
{
    let l = s.subrange(a, b);
    let t = s.subrange(0, b);
    if i < b {
        assert(l[i - a] == t[i]);
        lemma_shift_skip(s, a, b, i + 1);
    }
}

fn parse_digits(l: &Vec<char>, from: usize, to: usize) -> (r: Option<usize>)
    requires
        from <= to <= l@.len(),
    ensures
        r == parse_usize(l@.subrange(from as int, to as int)),
{
    let ghost t = l@.subrange(from as int, to as int);
    let mut i = from;
    if i < to && l[i] == '+' {
        i = i + 1;
    }
    let ghost d = l@.subrange(i as int, to as int);
    proof {
        if t.len() > 0 {
            assert(t[0] == l@[from as int]);
        }
        if t.len() > 0 && t[0] == '+' {
            assert(d =~= t.skip(1));
        } else {
            assert(d =~= t);
        }
    }
    if i == to {
        return None;
    }
    let start = i;
    let mut value: usize = 0;
    let mut overflow = false;
    while i < to
        invariant
            from <= start <= i <= to <= l@.len(),
            t == l@.subrange(from as int, to as int),
            d == unsigned_part(t),
            d == l@.subrange(start as int, to as int),
            d.len() > 0,
            forall|k: int| start <= k < i ==> is_digit(#[trigger] l@[k]),
            !overflow ==> value == digits_value(l@.subrange(start as int, i as int)),
            overflow ==> digits_value(l@.subrange(start as int, i as int)) > usize::MAX,
        decreases to - i,
    {
        let c = l[i];
        if !('0' <= c && c <= '9') {
            proof {
                assert(d[i - start] == c);
                assert(!is_digit(d[i - start]));
                assert(!(forall|k: int| 0 <= k < d.len() ==> is_digit(#[trigger] d[k])));
                assert(!all_digits(d));
                assert(t == l@.subrange(from as int, to as int));
            }
            return None;
        }
        let digit: usize = digit_exec(c);
        proof {
            let p = l@.subrange(start as int, i + 1);
            assert(p.drop_last() =~= l@.subrange(start as int, i as int));
            assert(p.last() == c);
        }
        if !overflow {
            match value.checked_mul(10) {
                Some(m) => match m.checked_add(digit) {
                    Some(v2) => {
                        value = v2;
                    },
                    None => {
                        overflow = true;
                    },
                },
                None => {
                    overflow = true;
                },
            }
        } else {
            proof {
                let p = l@.subrange(start as int, i + 1);
                let pv = digits_value(l@.subrange(start as int, i as int));
                assert(pv * 10 >= pv) by (nonlinear_arith) requires pv >= 0;
            }
        }
        i = i + 1;
    }
    proof {
        assert(l@.subrange(start as int, to as int) =~= d);
        assert forall|k: int| 0 <= k < d.len() implies is_digit(#[trigger] d[k]) by {
            assert(d[k] == l@[start + k]);
        }
        assert(all_digits(d));
    }
    if overflow {
        None
    } else {
        Some(value)
    }
}

/// The kilobytes reported on the `VmRSS:` line of a status text, zero when
/// there is none or its value does not parse.
pub fn rss_kb_from_status(status: &str) -> (kb: usize)
    ensures
        kb == status_rss_kb(status@),
{
    let v = chars_of(status);
    let n = v.len();
    let mut start: usize = 0;
    loop
        invariant
            n == v@.len(),
            v@ == status@,
            start <= n,
            rss_line_from(v@, start as int) == rss_line_from(v@, 0),
        decreases n - start,
    {
        let e = find_line_end(&v, start);
        let is_rss = e - start >= 6 && v[start] == 'V' && v[start + 1] == 'm' && v[start + 2] == 'R'
            && v[start + 3] == 'S' && v[start + 4] == 'S' && v[start + 5] == ':';
        proof {
            reveal_strlit("VmRSS:");
            lemma_line_end_bounds(v@, start as int);
            let line = v@.subrange(start as int, e as int);
            let lit = "VmRSS:"@;
            assert(lit.len() == 6);
            assert(lit[0] == 'V' && lit[1] == 'm' && lit[2] == 'R' && lit[3] == 'S' && lit[4] == 'S' && lit[5] == ':');
            if line.len() >= 6 {
                let p = line.subrange(0, 6);
                assert(p[0] == v@[start as int] && p[1] == v@[start + 1] && p[2] == v@[start + 2]);
                assert(p[3] == v@[start + 3] && p[4] == v@[start + 4] && p[5] == v@[start + 5]);
                if p == lit {
                    assert(p[0] == lit[0] && p[1] == lit[1] && p[2] == lit[2] && p[3] == lit[3] && p[4] == lit[4] && p[5] == lit[5]);
                }
                if is_rss {
                    assert(p =~= lit);
                }
            }
        }
        if is_rss {
            let ghost line = v@.subrange(start as int, e as int);
            let ghost t = v@.subrange(0, e as int);
            let s0 = skip_white_exec(&v, start, e);
            let e0 = skip_word_exec(&v, s0, e);
            let s1 = skip_white_exec(&v, e0, e);
            let e1 = skip_word_exec(&v, s1, e);
            proof {
                lemma_shift_skip(v@, start as int, e as int, start as int);
                lemma_shift_skip(v@, start as int, e as int, s0 as int);
                lemma_shift_skip(v@, start as int, e as int, e0 as int);
                lemma_shift_skip(v@, start as int, e as int, s1 as int);
                assert(line.subrange(s1 - start, e1 - start) =~= v@.subrange(s1 as int, e1 as int));
            }
            if s0 < e && s1 < e {
                return match parse_digits(&v, s1, e1) {
                    Some(kb) => kb,
                    None => 0,
                };
            }
            return 0;
        }
        if e >= n {
            return 0;
        }
        start = e + 1;
    }
}

/// Resident bytes as a status text reports them: its `VmRSS:` kilobytes
/// times 1024, or the 1 MiB fallback when the text could not be read.
pub open spec fn status_rss_bytes(status: Option<Seq<char>>) -> nat {
    match status {
        Some(s) => status_rss_kb(s) * 1024,
        None => FALLBACK_RSS_BYTES as nat,
    }
}

/// The model of an optional text.
pub open spec fn opt_text(status: Option<&str>) -> Option<Seq<char>> {
    match status {
        Some(s) => Some(s@),
        None => None,
    }
}

/// Resident bytes from the text of `/proc/self/status`, or `None` when it
/// could not be read.
pub fn rss_bytes_from_status(status: Option<&str>) -> (bytes: usize)
    requires
        status_rss_bytes(opt_text(status)) <= usize::MAX,
    ensures
        bytes == status_rss_bytes(opt_text(status)),
{
    match status {
        Some(s) => rss_kb_from_status(s) * 1024,
        None => FALLBACK_RSS_BYTES,
    }
}

/// A measurement of resident memory.
#[derive(Debug, Clone)]
pub struct MemoryStats {
    pub rss_bytes: usize,
    pub timestamp: Instant,
}

/// The text `{:.2} MB` gives for a byte count: megabytes with two decimals,
/// rounded half to even.
pub open spec fn rss_text(bytes: nat) -> Seq<char> {
    hundredths_decimal(rounded_hundredths(bytes, 1048576)) + " MB"@
}

impl MemoryStats {
    /// A measurement taken now, from the text of `/proc/self/status` (or
    /// `None` when it could not be read).
    pub fn current(status: Option<&str>) -> (r: BingoResult<MemoryStats>)
        requires
            status_rss_bytes(opt_text(status)) <= usize::MAX,
        ensures
            r matches Ok(m) && m.rss_bytes == status_rss_bytes(opt_text(status)),
    {
        Ok(MemoryStats { rss_bytes: rss_bytes_from_status(status), timestamp: now() })
    }

    /// Bytes gained since `other` (negative when memory was released).
    pub fn delta_from(&self, other: &MemoryStats) -> (d: i64)
        requires
            self.rss_bytes <= i64::MAX,
            other.rss_bytes <= i64::MAX,
        ensures
            d == self.rss_bytes - other.rss_bytes,
    {
        self.rss_bytes as i64 - other.rss_bytes as i64
    }

    /// The resident size in megabytes, such as `1.50 MB`.
    pub fn format_rss(&self) -> (s: String)
        ensures
            s@ == rss_text(self.rss_bytes as nat),
    {
        let bytes: u64 = self.rss_bytes as u64;
        let wide: u128 = (bytes as u128) * 100;
        let q: u128 = wide / 1048576;
        let r: u128 = wide % 1048576;
        let rounded: u128 = if 2 * r > 1048576 || (2 * r == 1048576 && q % 2 == 1) { q + 1 } else { q };
        assert(rounded <= u64::MAX) by (nonlinear_arith)
            requires
                wide == bytes * 100,
                q == wide / 1048576,
                rounded <= q + 1,
                bytes <= u64::MAX,
        ;
        let mut s = hundredths_to_string(rounded as u64);
        proof {
            reveal_strlit(" MB");
        }
        s.append(" MB");
        s
    }
}

/// Tracks memory from a starting measurement.
pub struct MemoryTracker {
    start_stats: MemoryStats,
}

impl MemoryTracker {
    /// The starting measurement.
    pub closed spec fn start_view(&self) -> MemoryStats {
        self.start_stats
    }

    /// The starting measurement.
    pub fn start_stats(&self) -> (r: &MemoryStats)
        ensures
            r.rss_bytes == self.start_view().rss_bytes,
    {
        &self.start_stats
    }

    /// Starts tracking from a measurement taken now from the status text.
    pub fn start(status: Option<&str>) -> (r: BingoResult<MemoryTracker>)
        requires
            status_rss_bytes(opt_text(status)) <= usize::MAX,
        ensures
            r matches Ok(t) && t.start_view().rss_bytes == status_rss_bytes(opt_text(status)),
    {
        let stats = MemoryStats::current(status);
        match stats {
            Ok(s) => Ok(MemoryTracker { start_stats: s }),
            Err(e) => Err(e),
        }
    }

    /// Bytes gained since the start, measured from the status text now.
    pub fn current_delta(&self, status: Option<&str>) -> (r: BingoResult<i64>)
        requires
            status_rss_bytes(opt_text(status)) <= usize::MAX,
            status_rss_bytes(opt_text(status)) <= i64::MAX,
            self.start_view().rss_bytes <= i64::MAX,
        ensures
            r matches Ok(d) && d == status_rss_bytes(opt_text(status)) - self.start_view().rss_bytes,
    {
        let current = MemoryStats::current(status);
        match current {
            Ok(c) => Ok(c.delta_from(&self.start_stats)),
            Err(e) => Err(e),
        }
    }

    /// Ends tracking: the start and end measurements and the bytes gained.
    pub fn finish(self, status: Option<&str>) -> (r: BingoResult<(MemoryStats, MemoryStats, i64)>)
        requires
            status_rss_bytes(opt_text(status)) <= usize::MAX,
            status_rss_bytes(opt_text(status)) <= i64::MAX,
            self.start_view().rss_bytes <= i64::MAX,
        ensures
            r matches Ok(t) && {
                &&& t.0.rss_bytes == self.start_view().rss_bytes
                &&& t.1.rss_bytes == status_rss_bytes(opt_text(status))
                &&& t.2 == t.1.rss_bytes - t.0.rss_bytes
            },
    {
        let end = MemoryStats::current(status);
        match end {
            Ok(end_stats) => {
                let delta = end_stats.delta_from(&self.start_stats);
                Ok((self.start_stats, end_stats, delta))
            },
            Err(e) => Err(e),
        }
    }
}

} // verus!
