//! Rendering of elapsed time and parsing of due-time offsets. Time is a
//! plain count of seconds; reading the clock and calendar arithmetic live
//! with the program around the library.

use vstd::prelude::*;
use vstd::string::*;

verus! {

pub const ONE_HOUR_SEC: i64 = 3600;

pub const ONE_DAY_SEC: i64 = 3600 * 24;

pub const ONE_WEEK_SEC: i64 = 3600 * 24 * 7;

/// Timestamps are kept well inside the type so that differences never
/// overflow.
pub const TIMESTAMP_BOUND: i64 = 0x2000_0000_0000_0000;

/// The decimal digit character for value `d`. Meaningful for `0 <= d < 10`.
pub open spec fn dec_digit(d: int) -> char {
    (d + '0' as int) as char
}

/// The decimal digits of `n`, most significant first. Meaningful for
/// `n >= 0`.
pub open spec fn dec_str_of(n: int) -> Seq<char>
    decreases n,
{
    if n < 10 {
        seq![dec_digit(n)]
    } else {
        dec_str_of(n / 10) + seq![dec_digit(n % 10)]
    }
}

/// The one-character string for decimal digit value `d`.
fn digit_str(d: i64) -> (r: &'static str)
    requires
        0 <= d < 10,
    ensures
        r@.len() == 1,
        r@[0] == dec_digit(d as int),
{
    proof {
        reveal_strlit("0");
        reveal_strlit("1");
        reveal_strlit("2");
        reveal_strlit("3");
        reveal_strlit("4");
        reveal_strlit("5");
        reveal_strlit("6");
        reveal_strlit("7");
        reveal_strlit("8");
        reveal_strlit("9");
    }
    match d {
        0 => "0",
        1 => "1",
        2 => "2",
        3 => "3",
        4 => "4",
        5 => "5",
        6 => "6",
        7 => "7",
        8 => "8",
        _ => "9",
    }
}

/// `n` written in decimal.
pub fn format_i64(n: i64) -> (r: String)
    requires
        0 <= n,
    ensures
        r@ == dec_str_of(n as int),
    decreases n,
{
    let d = n % 10;
    let q = n / 10;
    let ds = digit_str(d);
    if q == 0 {
        let r = String::from_str(ds);
        proof {
            assert(r@ =~= seq![dec_digit(n as int)]);
        }
        r
    } else {
        let mut s = format_i64(q);
        s.append(ds);
        proof {
            assert(s@ =~= dec_str_of((n / 10) as int) + seq![dec_digit((n % 10) as int)]);
        }
        s
    }
}

/// The elapsed-time label between two moments: under an hour, a fixed
/// label; under a day, whole hours; under a week, whole days; else whole
/// weeks. The order of the two moments does not matter.
pub open spec fn time_span_str(from: int, to: int) -> Seq<char> {
    let lo = if from > to {
        to
    } else {
        from
    };
    let hi = if from > to {
        from
    } else {
        to
    };
    let diff = hi - lo;
    if diff < 3600 {
        "<1 h"@
    } else if diff < 86400 {
        dec_str_of(diff / 3600) + " h"@
    } else if diff < 604800 {
        dec_str_of(diff / 86400) + " d"@
    } else {
        dec_str_of(diff / 604800) + " w"@
    }
}

/// Render the elapsed time between two timestamps, in seconds.
pub fn get_str_by_time(from: i64, to: i64) -> (r: String)
    requires
        -TIMESTAMP_BOUND <= from <= TIMESTAMP_BOUND,
        -TIMESTAMP_BOUND <= to <= TIMESTAMP_BOUND,
    ensures
        r@ == time_span_str(from as int, to as int),
{
    let (lo, hi) = if from > to {
        (to, from)
    } else {
        (from, to)
    };
    let diff = hi - lo;
    if diff < ONE_HOUR_SEC {
        String::from_str("<1 h")
    } else if diff < ONE_DAY_SEC {
        let mut s = format_i64(diff / ONE_HOUR_SEC);
        s.append(" h");
        s
    } else if diff < ONE_WEEK_SEC {
        let mut s = format_i64(diff / ONE_DAY_SEC);
        s.append(" d");
        s
    } else {
        let mut s = format_i64(diff / ONE_WEEK_SEC);
        s.append(" w");
        s
    }
}

/// The due column of a rendered row: a dash when there is no due time, a
/// timeout mark when it lies in the past, the remaining span otherwise.
pub open spec fn due_str_of(due: Option<i64>, now: int) -> Seq<char> {
    match due {
        Option::None => "-"@,
        Option::Some(d) => if d < now {
            "TIMEOUT"@
        } else {
            time_span_str(d as int, now)
        },
    }
}

/// Render the due column for a due time and the current moment.
pub fn get_todo_due_str(due: Option<i64>, now: i64) -> (r: String)
    requires
        -TIMESTAMP_BOUND <= now <= TIMESTAMP_BOUND,
        due is Some ==> -TIMESTAMP_BOUND <= due->Some_0 <= TIMESTAMP_BOUND,
    ensures
        r@ == due_str_of(due, now as int),
{
    match due {
        None => String::from_str("-"),
        Some(d) => {
            if d < now {
                String::from_str("TIMEOUT")
            } else {
                get_str_by_time(d, now)
            }
        },
    }
}

/// Whether `c` is a decimal digit.
pub open spec fn is_dec_digit(c: char) -> bool {
    '0' <= c && c <= '9'
}

/// The number of leading decimal digits of `s`.
pub open spec fn digit_prefix_len(s: Seq<char>) -> int
    decreases s.len(),
{
    if s.len() == 0 {
        0
    } else if !is_dec_digit(s.first()) {
        0
    } else {
        1 + digit_prefix_len(s.drop_first())
    }
}

/// The decimal value of a digit string, most significant digit first.
/// Meaningful only when every character is a digit.
pub open spec fn dec_value(s: Seq<char>) -> int
    decreases s.len(),
{
    if s.len() == 0 {
        0
    } else {
        dec_value(s.drop_last()) * 10 + (s.last() as int - '0' as int)
    }
}

/// Whether `c` is ASCII whitespace.
pub open spec fn is_space_char(c: char) -> bool {
    c == ' ' || c == '\t' || c == '\n' || c == '\r'
}

/// `s` with trailing whitespace removed.
pub open spec fn trim_back(s: Seq<char>) -> Seq<char>
    decreases s.len(),
{
    if s.len() > 0 && is_space_char(s.last()) {
        trim_back(s.drop_last())
    } else {
        s
    }
}

/// `s` with leading and trailing whitespace removed.
pub open spec fn trim_of(s: Seq<char>) -> Seq<char>
    decreases s.len(),
{
    if s.len() > 0 && is_space_char(s.first()) {
        trim_of(s.drop_first())
    } else {
        trim_back(s)
    }
}

/// The seconds one unit word stands for: hours, days and weeks are fixed;
/// months and years are whatever the caller's calendar says; an unknown
/// word stands for nothing.
pub open spec fn unit_secs_of(u: Seq<char>, month: int, year: int) -> int {
    if u == "h"@ || u == "hour"@ || u == "hours"@ {
        3600
    } else if u == "d"@ || u == "day"@ || u == "days"@ {
        86400
    } else if u == "w"@ || u == "week"@ || u == "weeks"@ {
        604800
    } else if u == "M"@ || u == "month"@ || u == "months"@ {
        month
    } else if u == "y"@ || u == "year"@ || u == "years"@ {
        year
    } else {
        0
    }
}

/// The due offset written in `s`: a run of digits, then a unit word, with
/// whitespace allowed around the word. There is none when the digits are
/// missing or unbounded, when nothing follows them, when the unit word is
/// unknown or non-positive, or when the product leaves the result type.
pub open spec fn due_offset_of(s: Seq<char>, month: int, year: int) -> Option<int> {
    let p = digit_prefix_len(s);
    if p == 0 || p >= s.len() {
        Option::None
    } else if dec_value(s.take(p)) > u32::MAX {
        Option::None
    } else {
        let unit = unit_secs_of(trim_of(s.skip(p)), month, year);
        let v = dec_value(s.take(p)) * unit;
        if unit <= 0 {
            Option::None
        } else if v > i64::MAX {
            Option::None
        } else {
            Option::Some(v)
        }
    }
}

/// What `digit_prefix_len` returns: the position of the first non-digit,
/// or the length when there is none.
proof fn lemma_digit_prefix(s: Seq<char>)
    ensures
        ({
            let p = digit_prefix_len(s);
            &&& 0 <= p <= s.len()
            &&& forall|j: int| 0 <= j < p ==> is_dec_digit(#[trigger] s[j])
            &&& p < s.len() ==> !is_dec_digit(s[p])
        }),
    decreases s.len(),
{
    if s.len() > 0 && is_dec_digit(s.first()) {
        let rest = s.drop_first();
        lemma_digit_prefix(rest);
        assert(forall|j: int| 0 <= j < rest.len() ==> #[trigger] rest[j] == s[j + 1]);
        let p = digit_prefix_len(s);
        assert forall|j: int| 0 <= j < p implies is_dec_digit(#[trigger] s[j]) by {
            if j > 0 {
                assert(is_dec_digit(rest[j - 1]));
            }
        }
    }
}

/// Dropping leading whitespace up to `a` does not change the trimmed word.
proof fn lemma_trim_front(s: Seq<char>, p: int, a: int)
    requires
        0 <= p <= a <= s.len(),
        forall|j: int| p <= j < a ==> is_space_char(#[trigger] s[j]),
        a < s.len() ==> !is_space_char(s[a]),
    ensures
        trim_of(s.skip(p)) == trim_back(s.skip(a)),
    decreases a - p,
{
    if p == a {
        if p < s.len() {
            assert(s.skip(p).first() == s[p]);
        }
    } else {
        assert(s.skip(p).first() == s[p]);
        assert(is_space_char(s[p]));
        assert(s.skip(p).drop_first() =~= s.skip(p + 1));
        lemma_trim_front(s, p + 1, a);
    }
}

/// Dropping trailing whitespace down to `b` leaves exactly the subrange.
proof fn lemma_trim_back(s: Seq<char>, a: int, b: int, m: int)
    requires
        0 <= a <= b <= m <= s.len(),
        forall|j: int| b <= j < m ==> is_space_char(#[trigger] s[j]),
        b > a ==> !is_space_char(s[b - 1]),
    ensures
        trim_back(s.subrange(a, m)) == s.subrange(a, b),
    decreases m - b,
{
    let u = s.subrange(a, m);
    if m == b {
        if b > a {
            assert(u.last() == s[b - 1]);
        }
    } else {
        assert(u.last() == s[m - 1]);
        assert(is_space_char(s[m - 1]));
        assert(u.drop_last() =~= s.subrange(a, m - 1));
        lemma_trim_back(s, a, b, m - 1);
    }
}

/// Whether the character at `i` is a decimal digit.
fn char_at_is_digit(s: &str, i: usize) -> (r: bool)
    requires
        i < s@.len(),
    ensures
        r == is_dec_digit(s@[i as int]),
{
    let c = s.get_char(i);
    c >= '0' && c <= '9'
}

/// Whether the character at `i` is ASCII whitespace.
fn char_at_is_space(s: &str, i: usize) -> (r: bool)
    requires
        i < s@.len(),
    ensures
        r == is_space_char(s@[i as int]),
{
    let c = s.get_char(i);
    c == ' ' || c == '\t' || c == '\n' || c == '\r'
}

/// The digit value of `c`, meaningful when `c` is a digit.
fn digit_of(c: char) -> (d: u32)
    requires
        is_dec_digit(c),
    ensures
        d == c as int - '0' as int,
{
    c as u32 - 48
}

/// Parse a due offset such as a count of hours, days, weeks, months or
/// years into seconds: a run of digits followed by a unit word, whitespace
/// around the word allowed. The caller supplies what a month and a year
/// amount to. Returns nothing on any malformed or out-of-range input.
pub fn parse_due_offset(s: &str, month_secs: i64, year_secs: i64) -> (r: Option<i64>)
    ensures
        r is Some <==> due_offset_of(s@, month_secs as int, year_secs as int) is Some,
        r is Some ==> r->Some_0 == due_offset_of(
            s@,
            month_secs as int,
            year_secs as int,
        )->Some_0,
{
    let len = s.unicode_len();
    proof {
        lemma_digit_prefix(s@);
    }
    let mut p: usize = 0;
    while p < len && char_at_is_digit(s, p)
        invariant
            0 <= p <= len,
            len == s@.len(),
            forall|j: int| 0 <= j < p ==> is_dec_digit(#[trigger] s@[j]),
        decreases len - p,
    {
        p = p + 1;
    }
    proof {
        let dp = digit_prefix_len(s@);
        if dp < p {
            assert(is_dec_digit(s@[dp]));
            assert(false);
        }
        if dp > p {
            assert(is_dec_digit(s@[p as int]));
            assert(false);
        }
    }
    if p == 0 || p >= len {
        return None;
    }
    let ghost digits = s@.take(p as int);
    let mut val: u64 = 0;
    let mut over: bool = false;
    let mut j: usize = 0;
    proof {
        assert(digits.take(0) =~= Seq::<char>::empty());
    }
    while j < p
        invariant
            0 <= j <= p,
            p <= len,
            len == s@.len(),
            digits == s@.take(p as int),
            digits.len() == p,
            forall|k: int| 0 <= k < p ==> is_dec_digit(#[trigger] s@[k]),
            !over ==> 0 <= val <= u32::MAX && val == dec_value(digits.take(j as int)),
            over ==> dec_value(digits.take(j as int)) > u32::MAX,
        decreases p - j,
    {
        let c = s.get_char(j);
        let d = digit_of(c);
        proof {
            assert(digits[j as int] == s@[j as int]);
            assert(digits.take(j + 1).drop_last() =~= digits.take(j as int));
            assert(digits.take(j + 1).last() == digits[j as int]);
        }
        if !over {
            let next = val * 10 + d as u64;
            if next > u32::MAX as u64 {
                over = true;
            } else {
                val = next;
            }
        } else {
            proof {
                let prev = dec_value(digits.take(j as int));
                assert(dec_value(digits.take(j + 1)) == prev * 10 + (s@[j as int] as int
                    - '0' as int));
                assert(prev * 10 == prev + 9 * prev);
                assert(9 * prev > 0);
            }
        }
        j = j + 1;
    }
    proof {
        assert(digits.take(p as int) =~= digits);
    }
    if over {
        return None;
    }
    let mut a: usize = p;
    while a < len && char_at_is_space(s, a)
        invariant
            p <= a <= len,
            len == s@.len(),
            forall|j2: int| p <= j2 < a ==> is_space_char(#[trigger] s@[j2]),
        decreases len - a,
    {
        a = a + 1;
    }
    let mut b: usize = len;
    while b > a && char_at_is_space(s, b - 1)
        invariant
            a <= b <= len,
            len == s@.len(),
            forall|j2: int| b <= j2 < len ==> is_space_char(#[trigger] s@[j2]),
        decreases b,
    {
        b = b - 1;
    }
    proof {
        lemma_trim_front(s@, p as int, a as int);
        lemma_trim_back(s@, a as int, b as int, len as int);
        assert(s@.subrange(a as int, len as int) =~= s@.skip(a as int));
    }
    let unit_word = s.substring_char(a, b);
    let us = String::from_str(unit_word);
    let unit: i64 = if us == String::from_str("h") || us == String::from_str("hour") || us
        == String::from_str("hours") {
        ONE_HOUR_SEC
    } else if us == String::from_str("d") || us == String::from_str("day") || us
        == String::from_str("days") {
        ONE_DAY_SEC
    } else if us == String::from_str("w") || us == String::from_str("week") || us
        == String::from_str("weeks") {
        ONE_WEEK_SEC
    } else if us == String::from_str("M") || us == String::from_str("month") || us
        == String::from_str("months") {
        month_secs
    } else if us == String::from_str("y") || us == String::from_str("year") || us
        == String::from_str("years") {
        year_secs
    } else {
        0
    };
    proof {
        assert(unit as int == unit_secs_of(
            trim_of(s@.skip(p as int)),
            month_secs as int,
            year_secs as int,
        ));
    }
    if unit <= 0 {
        return None;
    }
    proof {
        let vi = val as int;
        let ui = unit as int;
        assert(0 <= vi * ui < 0x1_0000_0000_0000_0000_0000_0000int) by (nonlinear_arith)
            requires
                0 <= vi <= 0xffff_ffffu64,
                0 < ui < 0x8000_0000_0000_0000u64,
        ;
    }
    let product: i128 = val as i128 * unit as i128;
    if product > i64::MAX as i128 {
        return None;
    }
    Some(product as i64)
}

} // verus!
