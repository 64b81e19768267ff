//! Calendar dates as plain year, month and day values, with a total
//! lexicographic order and a fixed `YYYY-MM-DD` text form.

use vstd::prelude::*;

verus! {

/// A calendar date. Events carry one as `event_date`; analytics bucket
/// events by its month and compare it against a reference day.
#[derive(Clone, Copy, Debug, PartialEq, Eq, Structural)]
pub struct Date {
    pub year: i64,
    pub month: u8,
    pub day: u8,
}

impl Date {
    /// Month and day lie in calendar range and the year has at most four
    /// digits, so that the date has a `YYYY-MM-DD` rendering.
    pub open spec fn wf(self) -> bool {
        &&& 1 <= self.month <= 12
        &&& 1 <= self.day <= 31
        &&& 0 <= self.year <= 9999
    }

    /// Lexicographic order on (year, month, day).
    pub open spec fn spec_le(self, other: Date) -> bool {
        if self.year != other.year {
            self.year < other.year
        } else if self.month != other.month {
            self.month < other.month
        } else {
            self.day <= other.day
        }
    }

    /// Strict lexicographic order on (year, month, day).
    pub open spec fn spec_lt(self, other: Date) -> bool {
        self.spec_le(other) && self != other
    }

    pub fn new(year: i64, month: u8, day: u8) -> (d: Date)
        ensures
            d == (Date { year, month, day }),
    {
        Date { year, month, day }
    }

    pub fn le(&self, other: &Date) -> (r: bool)
        ensures
            r == self.spec_le(*other),
    {
        if self.year != other.year {
            self.year < other.year
        } else if self.month != other.month {
            self.month < other.month
        } else {
            self.day <= other.day
        }
    }

    pub fn lt(&self, other: &Date) -> (r: bool)
        ensures
            r == self.spec_lt(*other),
    {
        if self.year != other.year {
            self.year < other.year
        } else if self.month != other.month {
            self.month < other.month
        } else {
            self.day < other.day
        }
    }
}

/// The ASCII digit character for `n`.
pub open spec fn digit_char(n: int) -> char
    recommends
        0 <= n <= 9,
{
    ((48 + n) as u8) as char
}

/// The ten characters of the `YYYY-MM-DD` rendering of `d`.
pub open spec fn date_chars(d: Date) -> Seq<char> {
    seq![
        digit_char(d.year as int / 1000 % 10),
        digit_char(d.year as int / 100 % 10),
        digit_char(d.year as int / 10 % 10),
        digit_char(d.year as int % 10),
        '-',
        digit_char(d.month as int / 10 % 10),
        digit_char(d.month as int % 10),
        '-',
        digit_char(d.day as int / 10 % 10),
        digit_char(d.day as int % 10),
    ]
}

/// Relies on `String::push`: appends exactly the given character.
#[verifier::external_body]
fn push_char(s: &mut String, c: char)
    ensures
        final(s)@ == old(s)@.push(c),
{
    s.push(c);
}

fn push_digit(s: &mut String, n: u8)
    requires
        n <= 9,
    ensures
        final(s)@ == old(s)@.push(digit_char(n as int)),
{
    let c: u8 = 48 + n;
    push_char(s, c as char);
}

/// Renders a date in `YYYY-MM-DD` form, zero-padded.
pub fn date_string(d: &Date) -> (r: String)
    requires
        d.wf(),
    ensures
        r@ == date_chars(*d),
{
    let mut s = String::new();
    push_digit(&mut s, (d.year / 1000 % 10) as u8);
    push_digit(&mut s, (d.year / 100 % 10) as u8);
    push_digit(&mut s, (d.year / 10 % 10) as u8);
    push_digit(&mut s, (d.year % 10) as u8);
    push_char(&mut s, '-');
    push_digit(&mut s, d.month / 10 % 10);
    push_digit(&mut s, d.month % 10);
    push_char(&mut s, '-');
    push_digit(&mut s, d.day / 10 % 10);
    push_digit(&mut s, d.day % 10);
    proof {
        assert(s@ =~= date_chars(*d));
    }
    s
}

/// The strict order chains through a weak bound on the right.
pub proof fn lemma_date_lt_le_trans(a: Date, b: Date, c: Date)
    requires
        a.spec_lt(b),
        b.spec_le(c),
    ensures
        a.spec_lt(c),
{
}

} // verus!
