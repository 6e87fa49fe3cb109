//! The local time as the site writes it, and the current UNIX time.
use vstd::prelude::*;
use chrono::{Datelike, Timelike};
use crate::text::{dec_int, dec_nat, is_digit, lemma_dec_nat, lemma_parse_fmt_i32, pad2, parse_i32_spec, push_dec_i64, push_pad2};

verus! {

/// The text of a moment: `YEAR-MM-DD HH:MM`, the year as it is and the other parts
/// padded to two digits.
pub open spec fn datetime_text(year: i32, month: u32, day: u32, hour: u32, minute: u32) -> Seq<char> {
    dec_int(year as int) + "-"@ + pad2(month as nat) + "-"@ + pad2(day as nat) + " "@ + pad2(hour as nat)
        + ":"@ + pad2(minute as nat)
}

/// The text of a moment.
pub fn format_datetime(year: i32, month: u32, day: u32, hour: u32, minute: u32) -> (s: String)
    ensures
        s@ == datetime_text(year, month, day, hour, minute),
{
    let mut s = String::new();
    push_dec_i64(&mut s, year as i64);
    s.append("-");
    push_pad2(&mut s, month);
    s.append("-");
    push_pad2(&mut s, day);
    s.append(" ");
    push_pad2(&mut s, hour);
    s.append(":");
    push_pad2(&mut s, minute);
    assert(s@ =~= datetime_text(year, month, day, hour, minute));
    s
}

proof fn lemma_pad2_reads_back(n: nat)
    requires
        n < 100,
    ensures
        pad2(n).len() == 2,
        parse_i32_spec(pad2(n)) == Some(n as i32),
{
    lemma_dec_nat(n);
    let p = pad2(n);
    if n < 10 {
        assert(dec_nat(n) == seq![crate::text::digit_char(n)]);
        assert(p =~= seq!['0', crate::text::digit_char(n)]);
        assert(p.drop_last() =~= seq!['0']);
        assert(seq!['0'].drop_last() =~= Seq::<char>::empty());
        assert(crate::text::digits_value(Seq::<char>::empty()) == 0);
        assert(crate::text::digit_value('0') == 0);
        assert(seq!['0'].last() == '0');
        assert(crate::text::digits_value(seq!['0']) == 0);
        assert(is_digit(p[1]));
    } else {
        lemma_dec_nat(n / 10);
        assert(dec_nat(n / 10).len() == 1);
        assert(p.len() == 2);
    }
    assert(is_digit(p[0]));
}

/// The text of a moment reads back field by field: the year is the number before the
/// first separator, then `-`, the month in two digits, `-`, the day, a space, the hour,
/// `:` and the minute, each in two digits (for fields under 100, as a clock gives them).
pub proof fn lemma_datetime_text_reads_back(year: i32, month: u32, day: u32, hour: u32, minute: u32)
    requires
        month < 100,
        day < 100,
        hour < 100,
        minute < 100,
    ensures
        ({
            let t = datetime_text(year, month, day, hour, minute);
            let n = t.len() as int;
            &&& n >= 12
            &&& parse_i32_spec(t.subrange(0, n - 12)) == Some(year)
            &&& t[n - 12] == '-'
            &&& parse_i32_spec(t.subrange(n - 11, n - 9)) == Some(month as i32)
            &&& t[n - 9] == '-'
            &&& parse_i32_spec(t.subrange(n - 8, n - 6)) == Some(day as i32)
            &&& t[n - 6] == ' '
            &&& parse_i32_spec(t.subrange(n - 5, n - 3)) == Some(hour as i32)
            &&& t[n - 3] == ':'
            &&& parse_i32_spec(t.subrange(n - 2, n)) == Some(minute as i32)
        }),
{
    reveal_strlit("-");
    reveal_strlit(" ");
    reveal_strlit(":");
    lemma_parse_fmt_i32(year);
    lemma_pad2_reads_back(month as nat);
    lemma_pad2_reads_back(day as nat);
    lemma_pad2_reads_back(hour as nat);
    lemma_pad2_reads_back(minute as nat);
    let y = dec_int(year as int);
    let t = datetime_text(year, month, day, hour, minute);
    let n = t.len() as int;
    let l = y.len() as int;
    assert(n == l + 12);
    assert(t.subrange(0, n - 12) =~= y);
    assert(t.subrange(n - 11, n - 9) =~= pad2(month as nat));
    assert(t.subrange(n - 8, n - 6) =~= pad2(day as nat));
    assert(t.subrange(n - 5, n - 3) =~= pad2(hour as nat));
    assert(t.subrange(n - 2, n) =~= pad2(minute as nat));
}

/// Calls `chrono::Local::now()` and returns its year, month, day, hour and minute, read
/// with `Datelike` and `Timelike`. Claimed, as chrono documents these readers: the month
/// is from 1 to 12, the day from 1 to 31, the hour from 0 to 23 and the minute from 0 to
/// 59. Which moment it is depends on the clock and is not stated.
#[verifier::external_body]
fn local_now_fields() -> (r: (i32, u32, u32, u32, u32))
    ensures
        1 <= r.1 <= 12,
        1 <= r.2 <= 31,
        r.3 <= 23,
        r.4 <= 59,
{
    let now = chrono::Local::now();
    (now.year(), now.month(), now.day(), now.hour(), now.minute())
}

/// Calls `chrono::Utc::now()` and returns its `timestamp()`, the seconds since the UNIX
/// epoch. Claimed: the result is not negative, since `Utc::now` stops (panics) rather than
/// give a time before the epoch, and takes the seconds since the epoch as they are. What
/// time it is depends on the clock and is not stated.
#[verifier::external_body]
pub(crate) fn utc_timestamp() -> (t: i64)
    ensures
        t >= 0,
{
    chrono::Utc::now().timestamp()
}

/// The local time now, as the site writes it in its log and its records.
pub fn get_nowtime_str() -> (s: String)
    ensures
        exists|y: i32, mo: u32, d: u32, h: u32, mi: u32|
            1 <= mo <= 12 && 1 <= d <= 31 && h <= 23 && mi <= 59
            && s@ == #[trigger] datetime_text(y, mo, d, h, mi),
{
    let (y, mo, d, h, mi) = local_now_fields();
    format_datetime(y, mo, d, h, mi)
}

} // verus!
