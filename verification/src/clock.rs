//! Wall-clock timestamps: a trusted reading of the current time and a
//! verified rendering of epoch milliseconds as `YYYY-MM-DDTHH:MM:SS.mmm`.

use vstd::prelude::*;
use vstd::string::*;

verus! {

#[verifier::external_type_specification]
#[verifier::external_body]
pub struct ExSystemTime(std::time::SystemTime);

/// Relies on `std::time::SystemTime::now`: a reading of the system
/// clock. Nothing is assumed of its value.
#[verifier::external_body]
pub fn system_now() -> std::time::SystemTime {
    std::time::SystemTime::now()
}

/// Relies on `std::time::SystemTime::duration_since`: the distance
/// from the Unix epoch, zero for a time before it. Nothing is assumed
/// of the value.
#[verifier::external_body]
pub fn duration_since_epoch(t: &std::time::SystemTime) -> core::time::Duration {
    t.duration_since(std::time::UNIX_EPOCH).unwrap_or(core::time::Duration::ZERO)
}

/// Relies on `core::time::Duration::as_millis`: the duration in whole
/// milliseconds, narrowed to sixty-four bits. Nothing is assumed of
/// the value.
#[verifier::external_body]
pub fn duration_millis(d: &core::time::Duration) -> u64 {
    d.as_millis() as u64
}

/// The milliseconds from the Unix epoch to a clock reading.
pub fn millis_since_epoch(t: &std::time::SystemTime) -> u64 {
    let d = duration_since_epoch(t);
    duration_millis(&d)
}

/// Milliseconds in one day.
pub const MS_PER_DAY: u64 = 86_400_000;

/// The last millisecond of year 9999; later instants are clamped here
/// so a rendered year always has four digits.
pub const MAX_TS_MILLIS: u64 = 253_402_300_799_999;

/// A Gregorian leap year.
pub open spec fn is_leap_year(y: int) -> bool {
    y % 4 == 0 && (y % 100 != 0 || y % 400 == 0)
}

/// Days in a Gregorian year.
pub open spec fn days_in_year(y: int) -> int {
    if is_leap_year(y) {
        366
    } else {
        365
    }
}

/// Days in a month of a Gregorian year.
pub open spec fn month_len(y: int, m: int) -> int {
    if m == 2 {
        if is_leap_year(y) {
            29
        } else {
            28
        }
    } else if m == 4 || m == 6 || m == 9 || m == 11 {
        30
    } else {
        31
    }
}

/// The year reached from year `y` after `d` whole days, with the days
/// left over inside it.
pub open spec fn spec_year_of(y: int, d: int) -> (int, int)
    decreases d,
{
    if d < days_in_year(y) {
        (y, d)
    } else {
        spec_year_of(y + 1, d - days_in_year(y))
    }
}

/// The month reached from month `m` of year `y` after `d` whole days,
/// with the days left over inside it.
pub open spec fn spec_month_of(y: int, m: int, d: int) -> (int, int)
    decreases 12 - m,
{
    if m >= 12 || d < month_len(y, m) {
        (m, d)
    } else {
        spec_month_of(y, m + 1, d - month_len(y, m))
    }
}

/// The character of one decimal digit.
pub open spec fn digit_char(d: int) -> char {
    ((0x30 + d) as u8) as char
}

/// Decimal digits of a non-negative number, most significant first.
pub open spec fn spec_digits(n: int) -> Seq<char>
    decreases n,
{
    if n < 10 {
        seq![digit_char(n)]
    } else {
        spec_digits(n / 10).push(digit_char(n % 10))
    }
}

/// Decimal digits, left-padded with zeros to width two.
pub open spec fn pad2(n: int) -> Seq<char> {
    if n < 10 {
        seq!['0'] + spec_digits(n)
    } else {
        spec_digits(n)
    }
}

/// Decimal digits, left-padded with zeros to width three.
pub open spec fn pad3(n: int) -> Seq<char> {
    if n < 10 {
        seq!['0', '0'] + spec_digits(n)
    } else if n < 100 {
        seq!['0'] + spec_digits(n)
    } else {
        spec_digits(n)
    }
}

/// The timestamp text for an instant `ms` milliseconds after the Unix
/// epoch, clamped at the end of year 9999: date, `T`, time of day to
/// millisecond precision.
pub open spec fn spec_timestamp(ms: u64) -> Seq<char> {
    let cms = if ms > MAX_TS_MILLIS {
        MAX_TS_MILLIS as int
    } else {
        ms as int
    };
    let days = cms / (MS_PER_DAY as int);
    let msod = cms % (MS_PER_DAY as int);
    let yd = spec_year_of(1970, days);
    let md = spec_month_of(yd.0, 1, yd.1);
    let hh = msod / 3_600_000;
    let mi = (msod % 3_600_000) / 60_000;
    let ss = (msod % 60_000) / 1_000;
    let mmm = msod % 1_000;
    spec_digits(yd.0) + seq!['-'] + pad2(md.0) + seq!['-'] + pad2(md.1 + 1) + seq!['T'] + pad2(hh)
        + seq![':'] + pad2(mi) + seq![':'] + pad2(ss) + seq!['.'] + pad3(mmm)
}

fn is_leap_year_exec(y: u64) -> (r: bool)
    ensures
        r == is_leap_year(y as int),
{
    y % 4 == 0 && (y % 100 != 0 || y % 400 == 0)
}

fn days_in_year_exec(y: u64) -> (r: u64)
    ensures
        r as int == days_in_year(y as int),
{
    if is_leap_year_exec(y) {
        366
    } else {
        365
    }
}

fn month_len_exec(y: u64, m: u64) -> (r: u64)
    ensures
        r as int == month_len(y as int, m as int),
{
    if m == 2 {
        if is_leap_year_exec(y) {
            29
        } else {
            28
        }
    } else if m == 4 || m == 6 || m == 9 || m == 11 {
        30
    } else {
        31
    }
}

fn digit_str(d: u64) -> (r: &'static str)
    requires
        d <= 9,
    ensures
        r@ == seq![digit_char(d as int)],
{
    proof {
        reveal_strlit("0");
        reveal_strlit("1");
        reveal_strlit("2");
        reveal_strlit("3");
        reveal_strlit("4");
        reveal_strlit("5");
        reveal_strlit("6");
        reveal_strlit("7");
        reveal_strlit("8");
        reveal_strlit("9");
    }
    let r = match d {
        0 => "0",
        1 => "1",
        2 => "2",
        3 => "3",
        4 => "4",
        5 => "5",
        6 => "6",
        7 => "7",
        8 => "8",
        _ => "9",
    };
    proof {
        assert(r@ =~= seq![digit_char(d as int)]);
    }
    r
}

/// The decimal rendering of a number.
pub fn u64_to_dec(n: u64) -> (r: String)
    ensures
        r@ == spec_digits(n as int),
    decreases n,
{
    if n < 10 {
        digit_str(n).to_owned()
    } else {
        let mut s = u64_to_dec(n / 10);
        s.append(digit_str(n % 10));
        proof {
            assert(s@ =~= spec_digits(n as int));
        }
        s
    }
}

fn pad2_exec(n: u64) -> (r: String)
    ensures
        r@ == pad2(n as int),
{
    proof {
        reveal_strlit("0");
    }
    if n < 10 {
        let mut s = "0".to_owned();
        let ds = digit_str(n);
        s.append(ds);
        proof {
            assert(s@ =~= pad2(n as int));
        }
        s
    } else {
        u64_to_dec(n)
    }
}

fn pad3_exec(n: u64) -> (r: String)
    ensures
        r@ == pad3(n as int),
{
    proof {
        reveal_strlit("0");
        reveal_strlit("00");
    }
    if n < 10 {
        let mut s = "00".to_owned();
        let ds = digit_str(n);
        s.append(ds);
        proof {
            assert(s@ =~= pad3(n as int));
        }
        s
    } else if n < 100 {
        let mut s = "0".to_owned();
        let rest = u64_to_dec(n);
        s.append(rest.as_str());
        proof {
            assert(s@ =~= pad3(n as int));
        }
        s
    } else {
        u64_to_dec(n)
    }
}

/// Render an epoch-millisecond instant as its timestamp text.
pub fn format_timestamp(ms: u64) -> (r: String)
    ensures
        r@ == spec_timestamp(ms),
{
    let cms = if ms > MAX_TS_MILLIS {
        MAX_TS_MILLIS
    } else {
        ms
    };
    let days = cms / MS_PER_DAY;
    let msod = cms % MS_PER_DAY;

    // walk years forward from 1970
    let mut y: u64 = 1970;
    let mut d: u64 = days;
    proof {
        assert(spec_year_of(1970, days as int) == spec_year_of(y as int, d as int));
    }
    while d >= days_in_year_exec(y)
        invariant
            spec_year_of(1970, days as int) == spec_year_of(y as int, d as int),
            days <= MAX_TS_MILLIS,
            d <= days,
            1970 <= y,
            y - 1970 <= days - d,
        decreases d,
    {
        let dy = days_in_year_exec(y);
        d = d - dy;
        y = y + 1;
    }
    let ghost yd = spec_year_of(1970, days as int);
    proof {
        assert(yd == (y as int, d as int));
    }

    // walk months forward from January
    let mut m: u64 = 1;
    while m < 12 && d >= month_len_exec(y, m)
        invariant
            1 <= m <= 12,
            spec_month_of(y as int, 1, yd.1) == spec_month_of(y as int, m as int, d as int),
            d <= days,
        decreases 12 - m,
    {
        let ml = month_len_exec(y, m);
        d = d - ml;
        m = m + 1;
    }
    let ghost md = spec_month_of(y as int, 1, yd.1);
    proof {
        assert(md == (m as int, d as int));
    }

    let hh = msod / 3_600_000;
    let mi = (msod % 3_600_000) / 60_000;
    let ss = (msod % 60_000) / 1_000;
    let mmm = msod % 1_000;

    proof {
        reveal_strlit("-");
        reveal_strlit("T");
        reveal_strlit(":");
        reveal_strlit(".");
    }
    let mut r = u64_to_dec(y);
    r.append("-");
    let p = pad2_exec(m);
    r.append(p.as_str());
    r.append("-");
    let p = pad2_exec(d + 1);
    r.append(p.as_str());
    r.append("T");
    let p = pad2_exec(hh);
    r.append(p.as_str());
    r.append(":");
    let p = pad2_exec(mi);
    r.append(p.as_str());
    r.append(":");
    let p = pad2_exec(ss);
    r.append(p.as_str());
    r.append(".");
    let p = pad3_exec(mmm);
    r.append(p.as_str());
    proof {
        assert(r@ =~= spec_timestamp(ms));
    }
    r
}

/// The current instant, rendered as timestamp text.
pub fn now_timestamp() -> (r: String)
    ensures
        exists|ms: u64| r@ == spec_timestamp(ms),
{
    let t = system_now();
    let ms = millis_since_epoch(&t);
    let r = format_timestamp(ms);
    proof {
        assert(r@ == spec_timestamp(ms));
    }
    r
}

} // verus!
