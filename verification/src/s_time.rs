//! Minute-resolution time values.
//!
//! An `STime` is a plain signed count of minutes from a reference zero. It is
//! deliberately not clamped to a 24-hour range: a computed duration, or a
//! clock-out rolled over past midnight, may legitimately exceed 1440 minutes,
//! and the rollover arithmetic below depends on that.

use vstd::prelude::*;

use crate::date::{chrono_days_between, chrono_valid, spec_days_between, Date};
use crate::err::TokErr;

verus! {

/// A count of minutes, positive or negative, without any day wraparound.
#[derive(Clone, Copy, PartialEq, Eq, PartialOrd, Ord, Debug)]
pub struct STime(i64);

impl View for STime {
    type V = int;

    closed spec fn view(&self) -> int {
        self.0 as int
    }
}

/// The decimal digit character for `d`.
pub open spec fn digit_char(d: int) -> char {
    ((48 + d) as u8) as char
}

/// The decimal digits of the non-negative number `n`, most significant first.
pub open spec fn dec_str(n: int) -> Seq<char>
    decreases n,
{
    if n < 10 {
        seq![digit_char(n)]
    } else {
        dec_str(n / 10).push(digit_char(n % 10))
    }
}

/// `s` left-padded with zeros to at least two characters.
pub open spec fn pad2(s: Seq<char>) -> Seq<char> {
    if s.len() >= 2 {
        s
    } else {
        seq!['0'] + s
    }
}

/// The zero-padded `HH:MM` rendering of `m` minutes; `HH` exceeds 23 for
/// counts past a day.
pub open spec fn spec_hhmm(m: int) -> Seq<char> {
    pad2(dec_str(m / 60)) + seq![':'] + pad2(dec_str(m % 60))
}

/// Appends the decimal digits of `n` to `s`.
fn push_dec(s: &mut String, n: u64)
    ensures
        final (s)@ == old(s)@ + dec_str(n as int),
    decreases n,
{
    if n < 10 {
        crate::text::push_char(s, (48 + n as u8) as char);
    } else {
        push_dec(s, n / 10);
        crate::text::push_char(s, (48 + (n % 10) as u8) as char);
    }
    proof {
        assert(s@ =~= old(s)@ + dec_str(n as int));
    }
}

proof fn lemma_dec_str_len(n: int)
    requires
        n >= 0,
    ensures
        dec_str(n).len() >= 1,
        n >= 10 ==> dec_str(n).len() >= 2,
        n < 10 ==> dec_str(n).len() == 1,
    decreases n,
{
    if n >= 10 {
        lemma_dec_str_len(n / 10);
    }
}

/// The elapsed minutes from `(then_time, then_date)` to `(now_time, now_date)`:
/// the clock difference plus a whole day for every day between the dates.
pub open spec fn spec_since(
    now_time: int,
    now_date: crate::date::DateV,
    then_time: int,
    then_date: crate::date::DateV,
) -> int {
    now_time + 1440 * spec_days_between(then_date, now_date) - then_time
}

impl STime {
    /// `hr` hours and `min` minutes of minutes.
    pub fn new(hr: i64, min: i64) -> (r: STime)
        requires
            i64::MIN <= hr * 60 + min <= i64::MAX,
        ensures
            r@ == hr * 60 + min,
    {
        let v: i128 = hr as i128 * 60 + min as i128;
        STime(v as i64)
    }

    /// A minute count taken as it is.
    pub(crate) fn from_minutes(m: i64) -> (r: STime)
        ensures
            r@ == m,
    {
        STime(m)
    }

    /// The raw minute count.
    pub fn minutes(&self) -> (r: i64)
        ensures
            r == self@,
    {
        self.0
    }

    /// The sum of two minute counts.
    pub fn plus(self, other: STime) -> (r: STime)
        requires
            i64::MIN <= self@ + other@ <= i64::MAX,
        ensures
            r@ == self@ + other@,
    {
        STime(self.0 + other.0)
    }

    /// The difference of two minute counts.
    pub fn minus(self, other: STime) -> (r: STime)
        requires
            i64::MIN <= self@ - other@ <= i64::MAX,
        ensures
            r@ == self@ - other@,
    {
        STime(self.0 - other.0)
    }

    /// The minutes elapsed since `then_time` on `then_date`, as of `self` on
    /// `now_date`. When both dates are equal this is plain subtraction; when
    /// they differ, the whole days between them are added, which makes the
    /// result right for sessions that span midnight.
    pub fn since(&self, now_date: &Date, then_time: STime, then_date: &Date) -> (r: STime)
        requires
            chrono_valid(now_date@),
            chrono_valid(then_date@),
            i64::MIN <= spec_since(self@, now_date@, then_time@, then_date@) <= i64::MAX,
        ensures
            r@ == spec_since(self@, now_date@, then_time@, then_date@),
            now_date@ == then_date@ ==> r@ == self@ - then_time@,
    {
        let days = match chrono_days_between(then_date, now_date) {
            Some(d) => d,
            None => unreached(),
        };
        let v: i128 = self.0 as i128 + 1440 * days as i128 - then_time.0 as i128;
        STime(v as i64)
    }

    /// The zero-padded `HH:MM` rendering of this count, where `HH` may exceed
    /// 23 after a rollover.
    pub fn to_hhmm(&self) -> (r: String)
        requires
            self@ >= 0,
        ensures
            r@ == spec_hhmm(self@),
    {
        let h: u64 = (self.0 / 60) as u64;
        let m: u64 = (self.0 % 60) as u64;
        let mut s = String::new();
        proof {
            lemma_dec_str_len(h as int);
            lemma_dec_str_len(m as int);
        }
        if h < 10 {
            crate::text::push_char(&mut s, '0');
        }
        push_dec(&mut s, h);
        crate::text::push_char(&mut s, ':');
        if m < 10 {
            crate::text::push_char(&mut s, '0');
        }
        push_dec(&mut s, m);
        proof {
            assert(s@ =~= spec_hhmm(self@));
        }
        s
    }

    /// Reads a time value `H:M` from the front of `s`; text after it is
    /// ignored, as the log's own parser ignores it.
    pub fn parse_stime(s: &str) -> (r: Result<STime, TokErr>)
        ensures
            match crate::gob::stime_at(s@, 0) {
                Some((v, e)) => r matches Ok(t) && t@ == v,
                None => r matches Err(e) && e matches TokErr::ParseErr(l, c) && l == 1usize && c
                    == 1usize,
            },
    {
        let chars = crate::text::str_to_chars(s);
        match crate::gob::parse_stime_at(&chars, 0) {
            Some((v, _e)) => Ok(STime::from_minutes(v)),
            None => Err(TokErr::ParseErr(1, 1)),
        }
    }

    /// As `since`, with the demands of that call tested rather than required:
    /// `None` exactly when a date is not a real calendar date in range, or the
    /// elapsed count does not fit.
    pub fn since_checked(&self, now_date: &Date, then_time: STime, then_date: &Date) -> (r: Option<
        STime,
    >)
        ensures
            match r {
                Some(v) => {
                    &&& chrono_valid(now_date@)
                    &&& chrono_valid(then_date@)
                    &&& v@ == spec_since(self@, now_date@, then_time@, then_date@)
                },
                None => !(chrono_valid(now_date@) && chrono_valid(then_date@)) || !(i64::MIN
                    <= spec_since(self@, now_date@, then_time@, then_date@) <= i64::MAX),
            },
    {
        let days = match chrono_days_between(then_date, now_date) {
            Some(d) => d,
            None => {
                return None;
            },
        };
        let v: i128 = self.0 as i128 + 1440 * days as i128 - then_time.0 as i128;
        if v < i64::MIN as i128 || v > i64::MAX as i128 {
            return None;
        }
        Some(self.since(now_date, then_time, then_date))
    }
}

impl core::str::FromStr for STime {
    type Err = TokErr;

    fn from_str(s: &str) -> Result<STime, TokErr> {
        STime::parse_stime(s)
    }
}

} // verus!
