//! Elapsed time: an hours and minutes pair, read from either of two forms.
//!
//! `"123"` is a total number of minutes and is split into hours and minutes.
//! `"2+03"` gives the hours and the minutes apart, and both are kept as they
//! were written: `"2+75"` is two hours and seventy-five minutes. The minutes
//! are folded into the total only when the pair is turned into seconds.

use crate::decimal::{
    int_text, lemma_int_text_has_no_plus, lemma_parse_int_text, parse_i32_in, parse_i32_spec,
    write_i32, IntParseError,
};
use crate::text::{chars_of, find_char, lemma_first_index, lemma_no_index, string_of};
use vstd::prelude::*;

verus! {

/// Why a piece of text is no elapsed time.
#[derive(Clone, Copy, Debug, PartialEq, Eq, Structural)]
pub enum ParseElapsedTimeError {
    /// One of its numbers is not an `i32` in decimal notation.
    Num(IntParseError),
}

impl ParseElapsedTimeError {
    /// What is shown for the failure: the words of the number that failed.
    pub open spec fn message_text(self) -> Seq<char> {
        match self {
            ParseElapsedTimeError::Num(cause) => cause.message_text(),
        }
    }

    /// What is shown for the failure.
    pub fn to_string(&self) -> (text: String)
        ensures
            text@ == self.message_text(),
    {
        match self {
            ParseElapsedTimeError::Num(cause) => cause.message().to_owned(),
        }
    }
}

/// A flight's duration in hours and minutes.
#[derive(Clone, Copy, Debug, PartialEq, Eq, Structural)]
pub struct ElapsedTime {
    pub hours: i32,
    pub minutes: i32,
}

/// The whole hours in `total` minutes, rounded toward zero.
pub open spec fn whole_hours(total: int) -> int {
    if total >= 0 {
        total / 60
    } else {
        -((-total) / 60)
    }
}

/// The minutes left of `total` beside its whole hours; their sign is that of
/// `total`.
pub open spec fn minutes_left(total: int) -> int {
    total - 60 * whole_hours(total)
}

/// The pair made of what was read for the hours and for the minutes. Where
/// both failed, the failure of the hours is the one that is given.
pub open spec fn pair_of(
    hours: Result<i32, IntParseError>,
    minutes: Result<i32, IntParseError>,
) -> Result<ElapsedTime, ParseElapsedTimeError> {
    match (hours, minutes) {
        (Err(e), _) => Err(ParseElapsedTimeError::Num(e)),
        (Ok(_), Err(e)) => Err(ParseElapsedTimeError::Num(e)),
        (Ok(hours), Ok(minutes)) => Ok(ElapsedTime { hours, minutes }),
    }
}

/// The elapsed time that `s` denotes, or the reason why it denotes none.
///
/// Where `s` holds a `+`, what stands before the first one is the hours and
/// what stands behind it the minutes; a failure in the hours is reported
/// before one in the minutes. Where it holds none, `s` is a total of minutes.
pub open spec fn parse_elapsed_spec(s: Seq<char>) -> Result<ElapsedTime, ParseElapsedTimeError> {
    match s.index_of_first('+') {
        Some(at) => pair_of(parse_i32_spec(s.take(at)), parse_i32_spec(s.skip(at + 1))),
        None => match parse_i32_spec(s) {
            Ok(total) => Ok(
                ElapsedTime {
                    hours: whole_hours(total as int) as i32,
                    minutes: minutes_left(total as int) as i32,
                },
            ),
            Err(e) => Err(ParseElapsedTimeError::Num(e)),
        },
    }
}

/// `chrono::Duration::hours` makes a duration of that many hours, and
/// `num_seconds` gives its length in whole seconds: 3600 for each hour. No
/// `i32` is out of the range that the constructor accepts.
#[verifier::external_body]
fn hours_in_seconds(hours: i32) -> (seconds: i64)
    ensures
        seconds == 3600 * hours,
{
    chrono::Duration::hours(i64::from(hours)).num_seconds()
}

/// `chrono::Duration::minutes` makes a duration of that many minutes, and
/// `num_seconds` gives its length in whole seconds: 60 for each minute. No
/// `i32` is out of the range that the constructor accepts.
#[verifier::external_body]
fn minutes_in_seconds(minutes: i32) -> (seconds: i64)
    ensures
        seconds == 60 * minutes,
{
    chrono::Duration::minutes(i64::from(minutes)).num_seconds()
}

impl ElapsedTime {
    /// The length of the flight in seconds.
    pub open spec fn total_seconds(self) -> int {
        3600 * self.hours + 60 * self.minutes
    }

    /// The text shown for the pair: the hours, a `+`, the minutes.
    pub open spec fn text(self) -> Seq<char> {
        int_text(self.hours as int) + seq!['+'] + int_text(self.minutes as int)
    }

    /// Reads an elapsed time in either form.
    pub fn from_str(s: &str) -> (r: Result<ElapsedTime, ParseElapsedTimeError>)
        ensures
            r == parse_elapsed_spec(s@),
    {
        let v = chars_of(s);
        let n = v.len();
        assert(v@.subrange(0, n as int) =~= v@);
        match find_char(&v, 0, n, '+') {
            Some(at) => {
                assert(v@.subrange(0, at as int) =~= v@.take(at as int));
                assert(v@.subrange(at + 1, n as int) =~= v@.skip(at + 1));
                let hours = match parse_i32_in(&v, 0, at) {
                    Ok(hours) => hours,
                    Err(e) => {
                        return Err(ParseElapsedTimeError::Num(e));
                    },
                };
                match parse_i32_in(&v, at + 1, n) {
                    Ok(minutes) => Ok(ElapsedTime { hours, minutes }),
                    Err(e) => Err(ParseElapsedTimeError::Num(e)),
                }
            },
            None => match parse_i32_in(&v, 0, n) {
                Ok(total) => Ok(ElapsedTime { hours: total / 60, minutes: total % 60 }),
                Err(e) => Err(ParseElapsedTimeError::Num(e)),
            },
        }
    }

    /// The length of the flight in seconds. Minutes of sixty and more count
    /// in full: nothing is cut off.
    pub fn into_duration(self) -> (seconds: i64)
        ensures
            seconds == self.total_seconds(),
            seconds == 3600 * self.hours + 60 * self.minutes,
    {
        hours_in_seconds(self.hours) + minutes_in_seconds(self.minutes)
    }

    /// The text shown for the pair, such as `2+30`.
    pub fn to_string(&self) -> (s: String)
        ensures
            s@ == self.text(),
    {
        let mut out: Vec<char> = Vec::new();
        write_i32(&mut out, self.hours);
        out.push('+');
        write_i32(&mut out, self.minutes);
        assert(out@ =~= self.text());
        let n = out.len();
        assert(out@.subrange(0, n as int) =~= out@);
        string_of(&out, 0, n)
    }
}

/// Reading the hours, a `+` and the minutes, each written as an integer,
/// gives exactly that pair back: the minutes are not carried into the hours,
/// whatever their size or sign.
pub proof fn lemma_parse_pair(hours: i32, minutes: i32)
    ensures
        parse_elapsed_spec(ElapsedTime { hours, minutes }.text()) == Ok::<
            ElapsedTime,
            ParseElapsedTimeError,
        >(ElapsedTime { hours, minutes }),
{
    let a = int_text(hours as int);
    let b = int_text(minutes as int);
    let s = ElapsedTime { hours, minutes }.text();
    let at = a.len() as int;
    lemma_int_text_has_no_plus(hours as int);
    assert forall|j: int| 0 <= j < at implies #[trigger] s[j] != '+' by {
        assert(s[j] == a[j]);
    }
    assert(s[at] == '+');
    lemma_first_index(s, '+', at);
    assert(s.take(at) =~= a);
    assert(s.skip(at + 1) =~= b);
    lemma_parse_int_text(hours as int);
    lemma_parse_int_text(minutes as int);
}

/// Reading a total of minutes, written as an integer, splits it by division
/// that rounds toward zero: the minutes left are fewer than sixty and have
/// the sign of the total, and the pair is as long as the total, sixty seconds
/// for each minute.
pub proof fn lemma_parse_total(total: i32)
    ensures
        parse_elapsed_spec(int_text(total as int)) is Ok,
        ({
            let e = parse_elapsed_spec(int_text(total as int))->Ok_0;
            &&& e.hours == whole_hours(total as int)
            &&& e.minutes == minutes_left(total as int)
            &&& -60 < e.minutes < 60
            &&& total >= 0 ==> e.hours >= 0 && e.minutes >= 0
            &&& total <= 0 ==> e.hours <= 0 && e.minutes <= 0
            &&& e.total_seconds() == 60 * total
        }),
{
    let s = int_text(total as int);
    lemma_int_text_has_no_plus(total as int);
    lemma_no_index(s, '+');
    lemma_parse_int_text(total as int);
}

} // verus!
