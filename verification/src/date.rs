//! The calendar date carried by a document's filename: held as plain
//! year/month/day numbers, validated against the proleptic Gregorian
//! calendar, parsed from the fixed `YYYYMMDD` pattern and formatted as
//! `DD-Mon-YYYY` at emission time.
use crate::text::digit_char;
use crate::text::digit_str;
use vstd::prelude::*;

verus! {

/// A calendar date. `valid_date` is its well-formedness condition; every
/// `Date` the pipeline produces satisfies it.
#[derive(Clone, Copy, PartialEq, Eq, Structural, Debug)]
pub struct Date {
    pub year: u32,
    pub month: u32,
    pub day: u32,
}

pub open spec fn is_leap_year(y: int) -> bool {
    y % 4 == 0 && (y % 100 != 0 || y % 400 == 0)
}

pub open spec fn days_in_month(y: int, m: int) -> int {
    if m == 2 {
        if is_leap_year(y) {
            29
        } else {
            28
        }
    } else if m == 4 || m == 6 || m == 9 || m == 11 {
        30
    } else {
        31
    }
}

/// A valid Gregorian calendar date with a four-digit year.
pub open spec fn valid_date(d: Date) -> bool {
    &&& d.year <= 9999
    &&& 1 <= d.month <= 12
    &&& 1 <= d.day <= days_in_month(d.year as int, d.month as int)
}

pub open spec fn is_digit(c: char) -> bool {
    '0' <= c && c <= '9'
}

pub open spec fn digit_val(c: char) -> int {
    c as int - '0' as int
}

/// The numeric value of a sequence of decimal digit characters, read from
/// the left.
pub open spec fn digits_val(s: Seq<char>) -> int
    decreases s.len(),
{
    if s.len() == 0 {
        0
    } else {
        digits_val(s.drop_last()) * 10 + digit_val(s.last())
    }
}

pub open spec fn all_digits(s: Seq<char>) -> bool {
    forall|i: int| 0 <= i < s.len() ==> is_digit(#[trigger] s[i])
}

pub proof fn lemma_digits_val_nonneg(s: Seq<char>)
    requires
        all_digits(s),
    ensures
        digits_val(s) >= 0,
    decreases s.len(),
{
    if s.len() > 0 {
        let t = s.drop_last();
        assert forall|i: int| 0 <= i < t.len() implies is_digit(#[trigger] t[i]) by {
            assert(s[i] == t[i]);
        }
        lemma_digits_val_nonneg(t);
    }
}

/// What the fixed `YYYYMMDD` pattern accepts: exactly eight digits whose
/// three fields form a valid calendar date.
pub open spec fn spec_parse_date(s: Seq<char>) -> Option<Date> {
    if s.len() == 8 && all_digits(s) {
        let d = Date {
            year: digits_val(s.subrange(0, 4)) as u32,
            month: digits_val(s.subrange(4, 6)) as u32,
            day: digits_val(s.subrange(6, 8)) as u32,
        };
        if valid_date(d) {
            Some(d)
        } else {
            None
        }
    } else {
        None
    }
}

pub open spec fn pow10(k: nat) -> int
    decreases k,
{
    if k == 0 {
        1
    } else {
        10 * pow10((k - 1) as nat)
    }
}

proof fn lemma_pow10_le(j: nat, k: nat)
    requires
        j <= k,
    ensures
        1 <= pow10(j) <= pow10(k),
    decreases k,
{
    if k == 0 {
    } else if j == k {
        lemma_pow10_le(0, (k - 1) as nat);
    } else {
        lemma_pow10_le(j, (k - 1) as nat);
    }
}

/// Reads one decimal digit character in exec code.
fn digit_of(c: char) -> (r: Option<u32>)
    ensures
        match r {
            Some(v) => is_digit(c) && v == digit_val(c) && v < 10,
            None => !is_digit(c),
        },
{
    if '0' <= c && c <= '9' {
        Some((c as u32) - ('0' as u32))
    } else {
        None
    }
}

/// Reads the digits of `s` between `from` and `to` as a number.
fn digits_in(s: &str, from: usize, to: usize) -> (r: Option<u32>)
    requires
        from <= to <= s@.len(),
        to - from <= 8,
    ensures
        match r {
            Some(v) => all_digits(s@.subrange(from as int, to as int)) && v == digits_val(
                s@.subrange(from as int, to as int),
            ),
            None => !all_digits(s@.subrange(from as int, to as int)),
        },
{
    let mut v: u32 = 0;
    let mut i: usize = from;
    while i < to
        invariant
            from <= i <= to <= s@.len(),
            to - from <= 8,
            all_digits(s@.subrange(from as int, i as int)),
            v == digits_val(s@.subrange(from as int, i as int)),
            v < pow10((i - from) as nat),
        decreases to - i,
    {
        let ghost pre = s@.subrange(from as int, i as int);
        let c = s.get_char(i);
        match digit_of(c) {
            Some(d) => {
                proof {
                    assert(s@.subrange(from as int, (i + 1) as int).drop_last() =~= pre);
                    assert(s@.subrange(from as int, (i + 1) as int).last() == c);
                    lemma_pow10_le((i - from) as nat, 7);
                    reveal_with_fuel(pow10, 9);
                    assert(pow10(((i + 1) - from) as nat) == 10 * pow10((i - from) as nat));
                }
                v = v * 10 + d;
                i = i + 1;
            },
            None => {
                proof {
                    assert(s@.subrange(from as int, to as int)[i - from] == c);
                }
                return None;
            },
        }
    }
    assert(s@.subrange(from as int, i as int) =~= s@.subrange(from as int, to as int));
    Some(v)
}

/// Decodes a date from the fixed `YYYYMMDD` pattern, exactly as
/// `spec_parse_date` describes.
pub fn parse_date(s: &str) -> (r: Option<Date>)
    ensures
        r == spec_parse_date(s@),
        r matches Some(d) ==> valid_date(d),
{
    let n: usize = s.unicode_len();
    if n != 8 {
        return None;
    }
    let y = digits_in(s, 0, 4);
    let m = digits_in(s, 4, 6);
    let d = digits_in(s, 6, 8);
    match (y, m, d) {
        (Some(y), Some(m), Some(d)) => {
            proof {
                let w = s@;
                assert forall|i: int| 0 <= i < w.len() implies is_digit(#[trigger] w[i]) by {
                    if i < 4 {
                        assert(w.subrange(0, 4)[i] == w[i]);
                    } else if i < 6 {
                        assert(w.subrange(4, 6)[i - 4] == w[i]);
                    } else {
                        assert(w.subrange(6, 8)[i - 6] == w[i]);
                    }
                }
            }
            let date = Date { year: y, month: m, day: d };
            if date_is_valid(&date) {
                Some(date)
            } else {
                None
            }
        },
        _ => {
            proof {
                if all_digits(s@) {
                    assert forall|i: int| 0 <= i < 4 implies is_digit(
                        #[trigger] s@.subrange(0, 4)[i],
                    ) by {
                        assert(s@.subrange(0, 4)[i] == s@[i]);
                    }
                    assert forall|i: int| 0 <= i < 2 implies is_digit(
                        #[trigger] s@.subrange(4, 6)[i],
                    ) by {
                        assert(s@.subrange(4, 6)[i] == s@[i + 4]);
                    }
                    assert forall|i: int| 0 <= i < 2 implies is_digit(
                        #[trigger] s@.subrange(6, 8)[i],
                    ) by {
                        assert(s@.subrange(6, 8)[i] == s@[i + 6]);
                    }
                }
            }
            None
        },
    }
}

/// Checks `valid_date` in exec code.
pub fn date_is_valid(d: &Date) -> (r: bool)
    ensures
        r == valid_date(*d),
{
    if d.year > 9999 || d.month < 1 || d.month > 12 || d.day < 1 {
        return false;
    }
    let dim: u32 = if d.month == 2 {
        if d.year % 4 == 0 && (d.year % 100 != 0 || d.year % 400 == 0) {
            29
        } else {
            28
        }
    } else if d.month == 4 || d.month == 6 || d.month == 9 || d.month == 11 {
        30
    } else {
        31
    };
    d.day <= dim
}

/// The fixed three-letter month name.
pub open spec fn month_name(m: int) -> Seq<char> {
    if m == 1 {
        "Jan"@
    } else if m == 2 {
        "Feb"@
    } else if m == 3 {
        "Mar"@
    } else if m == 4 {
        "Apr"@
    } else if m == 5 {
        "May"@
    } else if m == 6 {
        "Jun"@
    } else if m == 7 {
        "Jul"@
    } else if m == 8 {
        "Aug"@
    } else if m == 9 {
        "Sep"@
    } else if m == 10 {
        "Oct"@
    } else if m == 11 {
        "Nov"@
    } else {
        "Dec"@
    }
}

/// Two digits, zero padded.
pub open spec fn pad2(n: int) -> Seq<char> {
    seq![digit_char(n / 10), digit_char(n % 10)]
}

/// Four digits, zero padded.
pub open spec fn pad4(n: int) -> Seq<char> {
    seq![
        digit_char(n / 1000),
        digit_char((n / 100) % 10),
        digit_char((n / 10) % 10),
        digit_char(n % 10),
    ]
}

/// The emitted `DD-Mon-YYYY` rendering of a date.
pub open spec fn spec_format_date(d: Date) -> Seq<char> {
    pad2(d.day as int) + seq!['-'] + month_name(d.month as int) + seq!['-'] + pad4(d.year as int)
}

fn month_str(m: u32) -> (r: &'static str)
    requires
        1 <= m <= 12,
    ensures
        r@ == month_name(m as int),
{
    if m == 1 {
        "Jan"
    } else if m == 2 {
        "Feb"
    } else if m == 3 {
        "Mar"
    } else if m == 4 {
        "Apr"
    } else if m == 5 {
        "May"
    } else if m == 6 {
        "Jun"
    } else if m == 7 {
        "Jul"
    } else if m == 8 {
        "Aug"
    } else if m == 9 {
        "Sep"
    } else if m == 10 {
        "Oct"
    } else if m == 11 {
        "Nov"
    } else {
        "Dec"
    }
}

/// Formats a date as the fixed `DD-Mon-YYYY` string (for example
/// `05-Sep-2025`).
pub fn format_date(d: &Date) -> (r: String)
    requires
        valid_date(*d),
    ensures
        r@ == spec_format_date(*d),
{
    proof {
        reveal_strlit("-");
    }
    let mut s = String::new();
    s.append(digit_str(d.day / 10));
    s.append(digit_str(d.day % 10));
    s.append("-");
    s.append(month_str(d.month));
    s.append("-");
    s.append(digit_str(d.year / 1000));
    s.append(digit_str((d.year / 100) % 10));
    s.append(digit_str((d.year / 10) % 10));
    s.append(digit_str(d.year % 10));
    proof {
        assert(s@ =~= spec_format_date(*d));
    }
    s
}

} // verus!
