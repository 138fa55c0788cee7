//! The civil calendar behind monthly storage keys: turning an epoch
//! timestamp in milliseconds into its Gregorian year and month, and
//! rendering zero-padded decimal strings, all verified against recursive
//! specifications of the calendar and of decimal notation.

use vstd::prelude::*;
use vstd::arithmetic::div_mod::{lemma_div_is_ordered, lemma_fundamental_div_mod_converse};
use vstd::string::StringExecFns;

verus! {

/// Milliseconds per civil day.
pub const MS_PER_DAY: u64 = 86400000;

/// Gregorian leap-year rule.
pub open spec fn is_leap_year(y: int) -> bool {
    (y % 4 == 0 && y % 100 != 0) || y % 400 == 0
}

/// Days in the year `y`.
pub open spec fn days_in_year(y: int) -> int {
    if is_leap_year(y) {
        366
    } else {
        365
    }
}

/// Days in month `m` (1-based) of year `y`.
pub open spec fn days_in_month(y: int, m: int) -> int {
    if m == 2 {
        if is_leap_year(y) {
            29
        } else {
            28
        }
    } else if m == 4 || m == 6 || m == 9 || m == 11 {
        30
    } else {
        31
    }
}

/// Consumes whole years starting at year `y`: the year that day `d`
/// (counted from the start of `y`) falls in, with the remaining day of
/// that year.
pub open spec fn year_and_day(d: int, y: int) -> (int, int)
    decreases d,
{
    if d < 0 || d < days_in_year(y) {
        (y, d)
    } else {
        year_and_day(d - days_in_year(y), y + 1)
    }
}

/// Consumes whole months of year `y` starting at month `m`: the month that
/// day `yd` (counted from the start of month `m`) falls in, with the
/// remaining day of that month.
pub open spec fn month_and_day(yd: int, y: int, m: int) -> (int, int)
    decreases 12 - m,
{
    if m >= 12 || yd < 0 || yd < days_in_month(y, m) {
        (m, yd)
    } else {
        month_and_day(yd - days_in_month(y, m), y, m + 1)
    }
}

/// The Gregorian year an epoch-millisecond timestamp falls in.
pub open spec fn year_of_ts(ts: u64) -> int {
    year_and_day(ts as int / MS_PER_DAY as int, 1970).0
}

/// The month (1-based) an epoch-millisecond timestamp falls in.
pub open spec fn month_of_ts(ts: u64) -> int {
    month_and_day(year_and_day(ts as int / MS_PER_DAY as int, 1970).1, year_of_ts(ts), 1).0
}

/// Months since year 0 of the month a timestamp falls in; consecutive
/// months have consecutive indices, which drives month-range iteration.
pub open spec fn month_index_of_ts(ts: u64) -> int {
    year_of_ts(ts) * 12 + month_of_ts(ts) - 1
}

/// Days in year `y`, executable.
fn days_in_year_x(y: u64) -> (r: u64)
    ensures
        r as int == days_in_year(y as int),
{
    if (y % 4 == 0 && y % 100 != 0) || y % 400 == 0 {
        366
    } else {
        365
    }
}

/// Days in month `m` of year `y`, executable.
fn days_in_month_x(y: u64, m: u64) -> (r: u64)
    ensures
        r as int == days_in_month(y as int, m as int),
{
    if m == 2 {
        if (y % 4 == 0 && y % 100 != 0) || y % 400 == 0 {
            29
        } else {
            28
        }
    } else if m == 4 || m == 6 || m == 9 || m == 11 {
        30
    } else {
        31
    }
}

/// The Gregorian year and month a timestamp falls in.
pub fn year_month_of_ts(ts: u64) -> (r: (u64, u64))
    ensures
        r.0 as int == year_of_ts(ts),
        r.1 as int == month_of_ts(ts),
        1970 <= r.0 < 600000000,
        1 <= r.1 <= 12,
{
    let mut d: u64 = ts / MS_PER_DAY;
    let ghost d0 = d as int;
    proof {
        lemma_div_is_ordered(ts as int, u64::MAX as int, MS_PER_DAY as int);
        assert(d0 <= u64::MAX as int / MS_PER_DAY as int);
    }
    let mut y: u64 = 1970;
    let mut diy = days_in_year_x(y);
    while d >= diy
        invariant
            1970 <= y,
            d0 <= u64::MAX as int / MS_PER_DAY as int,
            diy as int == days_in_year(y as int),
            365 * (y as int - 1970) <= d0 - d as int,
            year_and_day(d as int, y as int) == year_and_day(d0, 1970),
        decreases d,
    {
        d = d - diy;
        y = y + 1;
        diy = days_in_year_x(y);
    }
    proof {
        assert(year_and_day(d0, 1970) == (y as int, d as int));
    }
    let mut m: u64 = 1;
    let ghost yd0 = d as int;
    let mut dim = days_in_month_x(y, m);
    while m < 12 && d >= dim
        invariant
            1 <= m <= 12,
            d <= yd0,
            dim as int == days_in_month(y as int, m as int),
            month_and_day(d as int, y as int, m as int) == month_and_day(yd0, y as int, 1),
        decreases 12 - m,
    {
        d = d - dim;
        m = m + 1;
        dim = days_in_month_x(y, m);
    }
    proof {
        assert(month_and_day(yd0, y as int, 1) == (m as int, d as int));
    }
    (y, m)
}

/// Relates a (year, month) pair to its month index.
pub proof fn lemma_month_index_parts(y: int, m: int)
    requires
        0 <= y,
        1 <= m <= 12,
    ensures
        (y * 12 + m - 1) / 12 == y,
        (y * 12 + m - 1) % 12 == m - 1,
{
    lemma_fundamental_div_mod_converse(y * 12 + m - 1, 12, y, m - 1);
}

/// The decimal digit `d` as a character.
pub open spec fn digit_char(d: int) -> char {
    if d == 0 {
        '0'
    } else if d == 1 {
        '1'
    } else if d == 2 {
        '2'
    } else if d == 3 {
        '3'
    } else if d == 4 {
        '4'
    } else if d == 5 {
        '5'
    } else if d == 6 {
        '6'
    } else if d == 7 {
        '7'
    } else if d == 8 {
        '8'
    } else {
        '9'
    }
}

/// Decimal notation of `n`, most significant digit first, no leading
/// zeros.
pub open spec fn dec_chars(n: int) -> Seq<char>
    decreases n,
{
    if n < 10 {
        seq![digit_char(n)]
    } else {
        dec_chars(n / 10).push(digit_char(n % 10))
    }
}

/// Decimal notation of `n`, zero-padded on the left to at least four
/// characters.
pub open spec fn padded4_chars(n: int) -> Seq<char> {
    if n < 10 {
        seq!['0', '0', '0'] + dec_chars(n)
    } else if n < 100 {
        seq!['0', '0'] + dec_chars(n)
    } else if n < 1000 {
        seq!['0'] + dec_chars(n)
    } else {
        dec_chars(n)
    }
}

/// Decimal notation of `n`, zero-padded on the left to at least two
/// characters.
pub open spec fn padded2_chars(n: int) -> Seq<char> {
    if n < 10 {
        seq!['0'] + dec_chars(n)
    } else {
        dec_chars(n)
    }
}

/// Appends the digit `d` to `s`.
fn push_digit(s: &mut String, d: u64)
    requires
        d < 10,
    ensures
        final(s)@ == old(s)@ + seq![digit_char(d as int)],
{
    if d == 0 {
        s.append("0");
        proof {
            reveal_strlit("0");
            assert(old(s)@ + "0"@ =~= old(s)@ + seq![digit_char(0)]);
        }
    } else if d == 1 {
        s.append("1");
        proof {
            reveal_strlit("1");
            assert(old(s)@ + "1"@ =~= old(s)@ + seq![digit_char(1)]);
        }
    } else if d == 2 {
        s.append("2");
        proof {
            reveal_strlit("2");
            assert(old(s)@ + "2"@ =~= old(s)@ + seq![digit_char(2)]);
        }
    } else if d == 3 {
        s.append("3");
        proof {
            reveal_strlit("3");
            assert(old(s)@ + "3"@ =~= old(s)@ + seq![digit_char(3)]);
        }
    } else if d == 4 {
        s.append("4");
        proof {
            reveal_strlit("4");
            assert(old(s)@ + "4"@ =~= old(s)@ + seq![digit_char(4)]);
        }
    } else if d == 5 {
        s.append("5");
        proof {
            reveal_strlit("5");
            assert(old(s)@ + "5"@ =~= old(s)@ + seq![digit_char(5)]);
        }
    } else if d == 6 {
        s.append("6");
        proof {
            reveal_strlit("6");
            assert(old(s)@ + "6"@ =~= old(s)@ + seq![digit_char(6)]);
        }
    } else if d == 7 {
        s.append("7");
        proof {
            reveal_strlit("7");
            assert(old(s)@ + "7"@ =~= old(s)@ + seq![digit_char(7)]);
        }
    } else if d == 8 {
        s.append("8");
        proof {
            reveal_strlit("8");
            assert(old(s)@ + "8"@ =~= old(s)@ + seq![digit_char(8)]);
        }
    } else {
        s.append("9");
        proof {
            reveal_strlit("9");
            assert(old(s)@ + "9"@ =~= old(s)@ + seq![digit_char(9)]);
        }
    }
}

/// Appends the decimal notation of `n` to `s`.
fn push_dec(s: &mut String, n: u64)
    ensures
        final(s)@ == old(s)@ + dec_chars(n as int),
    decreases n,
{
    if n < 10 {
        push_digit(s, n);
    } else {
        push_dec(s, n / 10);
        push_digit(s, n % 10);
        proof {
            assert(s@ =~= old(s)@ + dec_chars(n as int));
        }
    }
}

/// Appends the four-wide zero-padded decimal notation of `n` to `s`.
fn push_padded4(s: &mut String, n: u64)
    ensures
        final(s)@ == old(s)@ + padded4_chars(n as int),
{
    if n < 10 {
        push_digit(s, 0);
        push_digit(s, 0);
        push_digit(s, 0);
    } else if n < 100 {
        push_digit(s, 0);
        push_digit(s, 0);
    } else if n < 1000 {
        push_digit(s, 0);
    }
    push_dec(s, n);
    proof {
        assert(s@ =~= old(s)@ + padded4_chars(n as int));
    }
}

/// Appends the two-wide zero-padded decimal notation of `n` to `s`.
fn push_padded2(s: &mut String, n: u64)
    ensures
        final(s)@ == old(s)@ + padded2_chars(n as int),
{
    if n < 10 {
        push_digit(s, 0);
    }
    push_dec(s, n);
    proof {
        assert(s@ =~= old(s)@ + padded2_chars(n as int));
    }
}

/// `"{YYYY}-{MM}"` for an explicit year and month.
pub open spec fn year_month_chars(y: int, m: int) -> Seq<char> {
    padded4_chars(y) + seq!['-'] + padded2_chars(m)
}

/// `"{YYYY}-{MM}"` of the month a timestamp falls in.
pub open spec fn month_chars_of_ts(ts: u64) -> Seq<char> {
    year_month_chars(year_of_ts(ts), month_of_ts(ts))
}

/// Renders `"{YYYY}-{MM}"` for an explicit year and month.
pub fn year_month_string(y: u64, m: u64) -> (r: String)
    ensures
        r@ == year_month_chars(y as int, m as int),
{
    let mut s = String::new();
    push_padded4(&mut s, y);
    s.append("-");
    proof {
        reveal_strlit("-");
    }
    push_padded2(&mut s, m);
    proof {
        assert(s@ =~= year_month_chars(y as int, m as int));
    }
    s
}

} // verus!
