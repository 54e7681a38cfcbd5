//! Partial ISO-8601 timestamps as the date frames hold them: `yyyy`,
//! `yyyy-MM`, `yyyy-MM-dd`, `yyyy-MM-ddTHH`, `yyyy-MM-ddTHH:mm` and
//! `yyyy-MM-ddTHH:mm:ss`, as code points.
use vstd::prelude::*;

verus! {

/// A timestamp in which each part after the year may be absent, and is
/// absent whenever the part before it is.
#[derive(Clone, Copy, Debug, PartialEq, Eq, Structural)]
pub struct Timestamp {
    /// The year, 0 to 9999.
    pub year: u16,
    /// The month, 1 to 12.
    pub month: Option<u8>,
    /// The day, 1 to 31.
    pub day: Option<u8>,
    /// The hour, 0 to 23.
    pub hour: Option<u8>,
    /// The minute, 0 to 59.
    pub minute: Option<u8>,
    /// The second, 0 to 59.
    pub second: Option<u8>,
}

/// Whether `x`, where present, lies in `lo..=hi`.
pub open spec fn in_range(x: Option<u8>, lo: u8, hi: u8) -> bool {
    x is Some ==> lo <= x->0 <= hi
}

impl Timestamp {
    /// The parts lie in their ranges, and a part is present only where the
    /// one before it is.
    pub open spec fn wf(self) -> bool {
        &&& self.year <= 9999
        &&& in_range(self.month, 1, 12) && in_range(self.day, 1, 31) && in_range(self.hour, 0, 23)
        &&& in_range(self.minute, 0, 59) && in_range(self.second, 0, 59)
        &&& self.day is Some ==> self.month is Some
        &&& self.hour is Some ==> self.day is Some
        &&& self.minute is Some ==> self.hour is Some
        &&& self.second is Some ==> self.minute is Some
    }
}

/// The code point of the decimal digit `d`.
pub open spec fn digit(d: int) -> u32 {
    (0x30 + d) as u32
}

/// Two decimal digits of `n`.
pub open spec fn two_digits(n: int) -> Seq<u32> {
    seq![digit(n / 10), digit(n % 10)]
}

/// `sep` followed by two digits of `x`, where `x` is present.
pub open spec fn part(sep: u32, x: Option<u8>) -> Seq<u32> {
    match x {
        Some(n) => seq![sep] + two_digits(n as int),
        None => Seq::empty(),
    }
}

/// The text of `t`.
pub open spec fn ts_text(t: Timestamp) -> Seq<u32> {
    let y = t.year as int;
    two_digits(y / 100) + two_digits(y % 100) + part(0x2D, t.month) + part(0x2D, t.day) + part(
        0x54,
        t.hour,
    ) + part(0x3A, t.minute) + part(0x3A, t.second)
}

/// Whether `c` is a decimal digit.
pub open spec fn is_digit(c: u32) -> bool {
    0x30 <= c <= 0x39
}

/// The number that the two digits at `i` in `s` stand for.
pub open spec fn read2(s: Seq<u32>, i: int) -> int {
    (s[i] - 0x30) * 10 + (s[i + 1] - 0x30)
}

/// Whether `s` holds the separator `sep` at `i` and two digits after it.
pub open spec fn part_at(s: Seq<u32>, i: int, sep: u32) -> bool {
    s[i] == sep && is_digit(s[i + 1]) && is_digit(s[i + 2])
}

/// The part whose separator stands at `i`, where `s` is long enough to hold
/// it.
pub open spec fn part_value(s: Seq<u32>, i: int) -> Option<u8> {
    if s.len() >= i + 3 { Some(read2(s, i + 1) as u8) } else { None }
}

/// The timestamp that `s` spells, or `None` where it spells none.
pub open spec fn ts_parsed(s: Seq<u32>) -> Option<Timestamp> {
    let n = s.len();
    if !(n == 4 || n == 7 || n == 10 || n == 13 || n == 16 || n == 19) {
        None
    } else if !(is_digit(s[0]) && is_digit(s[1]) && is_digit(s[2]) && is_digit(s[3])) {
        None
    } else if n >= 7 && !part_at(s, 4, 0x2D) || n >= 10 && !part_at(s, 7, 0x2D) || n >= 13
        && !part_at(s, 10, 0x54) || n >= 16 && !part_at(s, 13, 0x3A) || n >= 19 && !part_at(
        s,
        16,
        0x3A,
    ) {
        None
    } else {
        let t = Timestamp {
            year: (read2(s, 0) * 100 + read2(s, 2)) as u16,
            month: part_value(s, 4),
            day: part_value(s, 7),
            hour: part_value(s, 10),
            minute: part_value(s, 13),
            second: part_value(s, 16),
        };
        if t.wf() { Some(t) } else { None }
    }
}

proof fn lemma_two_digits(n: int)
    requires
        0 <= n < 100,
    ensures
        is_digit(two_digits(n)[0]) && is_digit(two_digits(n)[1]),
        read2(two_digits(n), 0) == n,
{
    assert(n == (n / 10) * 10 + n % 10 && 0 <= n / 10 < 10 && 0 <= n % 10 < 10) by (nonlinear_arith)
        requires 0 <= n < 100;
}

proof fn lemma_part_at(pre: Seq<u32>, sep: u32, x: u8, rest: Seq<u32>)
    requires
        x < 100,
    ensures
        ({
            let s = pre + part(sep, Some(x)) + rest;
            &&& part_at(s, pre.len() as int, sep)
            &&& read2(s, pre.len() as int + 1) == x
        }),
{
    lemma_two_digits(x as int);
    let s = pre + part(sep, Some(x)) + rest;
    let i = pre.len() as int;
    assert(s[i] == sep && s[i + 1] == two_digits(x as int)[0] && s[i + 2] == two_digits(x as int)[1]);
}

/// Parsing the text of a timestamp gives it back.
#[verifier::rlimit(100)]
pub proof fn lemma_timestamp_parse_text(t: Timestamp)
    requires
        t.wf(),
    ensures
        ts_parsed(ts_text(t)) == Some(t),
{
    let y = t.year as int;
    assert(0 <= y / 100 < 100 && 0 <= y % 100 < 100 && y == (y / 100) * 100 + y % 100) by (nonlinear_arith)
        requires 0 <= y <= 9999;
    lemma_two_digits(y / 100);
    lemma_two_digits(y % 100);
    let head = two_digits(y / 100) + two_digits(y % 100);
    let a = part(0x2D, t.month);
    let b = part(0x2D, t.day);
    let c = part(0x54, t.hour);
    let d = part(0x3A, t.minute);
    let e = part(0x3A, t.second);
    let s = ts_text(t);
    assert(s =~= head + a + b + c + d + e);
    assert(s[0] == head[0] && s[1] == head[1] && s[2] == head[2] && s[3] == head[3]);
    assert(read2(s, 0) == y / 100 && read2(s, 2) == y % 100);
    if t.month is Some {
        assert(s =~= head + a + (b + c + d + e));
        lemma_part_at(head, 0x2D, t.month->0, b + c + d + e);
    }
    if t.day is Some {
        assert(s =~= (head + a) + b + (c + d + e));
        lemma_part_at(head + a, 0x2D, t.day->0, c + d + e);
    }
    if t.hour is Some {
        assert(s =~= (head + a + b) + c + (d + e));
        lemma_part_at(head + a + b, 0x54, t.hour->0, d + e);
    }
    if t.minute is Some {
        assert(s =~= (head + a + b + c) + d + e);
        lemma_part_at(head + a + b + c, 0x3A, t.minute->0, e);
    }
    if t.second is Some {
        assert(s =~= (head + a + b + c + d) + e + Seq::<u32>::empty());
        lemma_part_at(head + a + b + c + d, 0x3A, t.second->0, Seq::empty());
    }
    let r = ts_parsed(s)->0;
    assert(ts_parsed(s) is Some);
    assert(r.year == t.year);
    assert(r == t);
}

proof fn lemma_read2_digits(s: Seq<u32>, i: int)
    requires
        0 <= i,
        i + 2 <= s.len(),
        is_digit(s[i]) && is_digit(s[i + 1]),
    ensures
        0 <= read2(s, i) < 100,
        two_digits(read2(s, i)) == s.subrange(i, i + 2),
{
    let (a, b) = ((s[i] - 0x30) as int, (s[i + 1] - 0x30) as int);
    assert((a * 10 + b) / 10 == a && (a * 10 + b) % 10 == b) by (nonlinear_arith)
        requires 0 <= a < 10, 0 <= b < 10;
    assert(two_digits(read2(s, i)) =~= s.subrange(i, i + 2));
}

proof fn lemma_part_text(s: Seq<u32>, i: int, sep: u32)
    requires
        0 <= i,
        i + 3 <= s.len(),
        part_at(s, i, sep),
    ensures
        part(sep, part_value(s, i)) == s.subrange(i, i + 3),
{
    lemma_read2_digits(s, i + 1);
    assert(part(sep, part_value(s, i)) =~= s.subrange(i, i + 3));
}

/// A text that parses is exactly the text of the timestamp it spells.
#[verifier::rlimit(100)]
pub proof fn lemma_timestamp_text_parse(s: Seq<u32>)
    requires
        ts_parsed(s) is Some,
    ensures
        ts_text(ts_parsed(s)->0) == s,
{
    let t = ts_parsed(s)->0;
    let n = s.len() as int;
    lemma_read2_digits(s, 0);
    lemma_read2_digits(s, 2);
    let (h, l) = (read2(s, 0), read2(s, 2));
    let y = h * 100 + l;
    assert(y / 100 == h && y % 100 == l) by (nonlinear_arith)
        requires 0 <= h < 100, 0 <= l < 100, y == h * 100 + l;
    assert(two_digits(y / 100) + two_digits(y % 100) =~= s.subrange(0, 4));
    if n >= 7 {
        lemma_part_text(s, 4, 0x2D);
    }
    if n >= 10 {
        lemma_part_text(s, 7, 0x2D);
    }
    if n >= 13 {
        lemma_part_text(s, 10, 0x54);
    }
    if n >= 16 {
        lemma_part_text(s, 13, 0x3A);
    }
    if n >= 19 {
        lemma_part_text(s, 16, 0x3A);
    }
    let pm = part(0x2D, t.month);
    let pd = part(0x2D, t.day);
    let ph = part(0x54, t.hour);
    let pn = part(0x3A, t.minute);
    let ps = part(0x3A, t.second);
    assert(pm =~= if n >= 7 { s.subrange(4, 7) } else { Seq::empty() });
    assert(pd =~= if n >= 10 { s.subrange(7, 10) } else { Seq::empty() });
    assert(ph =~= if n >= 13 { s.subrange(10, 13) } else { Seq::empty() });
    assert(pn =~= if n >= 16 { s.subrange(13, 16) } else { Seq::empty() });
    assert(ps =~= if n >= 19 { s.subrange(16, 19) } else { Seq::empty() });
    assert(ts_text(t) =~= s);
}

fn push_two(out: &mut Vec<u32>, n: u8)
    requires
        n < 100,
    ensures
        final(out)@ == old(out)@ + two_digits(n as int),
{
    out.push(0x30 + (n / 10) as u32);
    out.push(0x30 + (n % 10) as u32);
    assert(out@ =~= old(out)@ + two_digits(n as int));
}

fn push_part(out: &mut Vec<u32>, sep: u32, x: Option<u8>)
    requires
        in_range(x, 0, 99),
    ensures
        final(out)@ == old(out)@ + part(sep, x),
{
    match x {
        Some(n) => {
            out.push(sep);
            push_two(out, n);
            assert(out@ =~= old(out)@ + part(sep, x));
        },
        None => {
            assert(out@ =~= old(out)@ + part(sep, x));
        },
    }
}

/// The text of `t`.
pub fn format_timestamp(t: &Timestamp) -> (r: Vec<u32>)
    requires
        t.wf(),
    ensures
        r@ == ts_text(*t),
{
    let mut out: Vec<u32> = Vec::new();
    push_two(&mut out, (t.year / 100) as u8);
    push_two(&mut out, (t.year % 100) as u8);
    push_part(&mut out, 0x2D, t.month);
    push_part(&mut out, 0x2D, t.day);
    push_part(&mut out, 0x54, t.hour);
    push_part(&mut out, 0x3A, t.minute);
    push_part(&mut out, 0x3A, t.second);
    assert(out@ =~= ts_text(*t));
    out
}

fn digit_at(s: &[u32], i: usize) -> (r: bool)
    requires
        i < s@.len(),
    ensures
        r == is_digit(s@[i as int]),
{
    0x30 <= s[i] && s[i] <= 0x39
}

fn part_at_exec(s: &[u32], i: usize, sep: u32) -> (r: bool)
    requires
        i + 3 <= s@.len(),
    ensures
        r == part_at(s@, i as int, sep),
{
    s[i] == sep && digit_at(s, i + 1) && digit_at(s, i + 2)
}

fn read2_exec(s: &[u32], i: usize) -> (r: u8)
    requires
        i + 2 <= s@.len(),
        is_digit(s@[i as int]) && is_digit(s@[i + 1]),
    ensures
        r == read2(s@, i as int),
{
    ((s[i] - 0x30) * 10 + (s[i + 1] - 0x30)) as u8
}

fn part_value_exec(s: &[u32], i: usize) -> (r: Option<u8>)
    requires
        i < 17,
        s@.len() >= i + 3 ==> is_digit(s@[i + 1]) && is_digit(s@[i + 2]),
    ensures
        r == part_value(s@, i as int),
{
    if s.len() >= i + 3 {
        Some(read2_exec(s, i + 1))
    } else {
        None
    }
}

fn in_range_exec(x: Option<u8>, lo: u8, hi: u8) -> (r: bool)
    ensures
        r == in_range(x, lo, hi),
{
    match x {
        Some(n) => lo <= n && n <= hi,
        None => true,
    }
}

/// The timestamp that `s` spells, or `None` where it spells none.
pub fn parse_timestamp(s: &[u32]) -> (r: Option<Timestamp>)
    ensures
        r == ts_parsed(s@),
{
    let n = s.len();
    if !(n == 4 || n == 7 || n == 10 || n == 13 || n == 16 || n == 19) {
        return None;
    }
    if !(digit_at(s, 0) && digit_at(s, 1) && digit_at(s, 2) && digit_at(s, 3)) {
        return None;
    }
    if n >= 7 && !part_at_exec(s, 4, 0x2D) || n >= 10 && !part_at_exec(s, 7, 0x2D) || n >= 13
        && !part_at_exec(s, 10, 0x54) || n >= 16 && !part_at_exec(s, 13, 0x3A) || n >= 19
        && !part_at_exec(s, 16, 0x3A) {
        return None;
    }
    let hi = read2_exec(s, 0);
    let lo = read2_exec(s, 2);
    let t = Timestamp {
        year: (hi as u16) * 100 + lo as u16,
        month: part_value_exec(s, 4),
        day: part_value_exec(s, 7),
        hour: part_value_exec(s, 10),
        minute: part_value_exec(s, 13),
        second: part_value_exec(s, 16),
    };
    let wf = t.year <= 9999 && in_range_exec(t.month, 1, 12) && in_range_exec(t.day, 1, 31)
        && in_range_exec(t.hour, 0, 23) && in_range_exec(t.minute, 0, 59) && in_range_exec(
        t.second,
        0,
        59,
    ) && (t.day.is_none() || t.month.is_some()) && (t.hour.is_none() || t.day.is_some()) && (
    t.minute.is_none() || t.hour.is_some()) && (t.second.is_none() || t.minute.is_some());
    if wf {
        Some(t)
    } else {
        None
    }
}

} // verus!
