//! Calendar dates, used to name daily notes.

use vstd::prelude::*;
use vstd::string::StringExecFns;

verus! {

/// True for leap years of the Gregorian calendar.
pub open spec fn leap_year(y: int) -> bool {
    (y % 4 == 0 && y % 100 != 0) || y % 400 == 0
}

/// The number of days of month `m` of year `y`.
pub open spec fn days_in_month(y: int, m: int) -> int
    recommends
        1 <= m <= 12,
{
    if m == 2 {
        if leap_year(y) {
            29
        } else {
            28
        }
    } else if m == 4 || m == 6 || m == 9 || m == 11 {
        30
    } else {
        31
    }
}

/// The decimal digit character for `d`.
pub open spec fn digit_char(d: int) -> char
    recommends
        0 <= d <= 9,
{
    if d == 0 {
        '0'
    } else if d == 1 {
        '1'
    } else if d == 2 {
        '2'
    } else if d == 3 {
        '3'
    } else if d == 4 {
        '4'
    } else if d == 5 {
        '5'
    } else if d == 6 {
        '6'
    } else if d == 7 {
        '7'
    } else if d == 8 {
        '8'
    } else {
        '9'
    }
}

/// `n` zero-padded to two decimal digits.
pub open spec fn two_digits(n: int) -> Seq<char> {
    seq![digit_char(n / 10 % 10), digit_char(n % 10)]
}

/// `n` zero-padded to four decimal digits.
pub open spec fn four_digits(n: int) -> Seq<char> {
    seq![
        digit_char(n / 1000 % 10),
        digit_char(n / 100 % 10),
        digit_char(n / 10 % 10),
        digit_char(n % 10),
    ]
}

/// A calendar date.
#[derive(Clone, Copy, Debug, PartialEq, Eq, Structural)]
pub struct Date {
    year: u16,
    month: u8,
    day: u8,
}

impl Date {
    /// The date's year.
    pub closed spec fn spec_year(&self) -> int {
        self.year as int
    }

    /// The date's month.
    pub closed spec fn spec_month(&self) -> int {
        self.month as int
    }

    /// The date's day of month.
    pub closed spec fn spec_day(&self) -> int {
        self.day as int
    }

    /// The date lies in the calendar: a four-digit year, a real month,
    /// and a day that month has.
    pub open spec fn valid(&self) -> bool {
        &&& self.spec_year() <= 9999
        &&& 1 <= self.spec_month() <= 12
        &&& 1 <= self.spec_day() <= days_in_month(self.spec_year(), self.spec_month())
    }

    /// The date in `YYYY-MM-DD` form.
    pub open spec fn iso_view(&self) -> Seq<char> {
        four_digits(self.spec_year()) + seq!['-'] + two_digits(self.spec_month()) + seq!['-']
            + two_digits(self.spec_day())
    }

    /// Creates the date `year-month-day`, if the calendar has it.
    pub fn new(year: u16, month: u8, day: u8) -> (r: Option<Date>)
        ensures
            match r {
                Some(d) => {
                    &&& d.spec_year() == year && d.spec_month() == month && d.spec_day() == day
                    &&& d.valid()
                },
                None => !(year <= 9999 && 1 <= month <= 12 && 1 <= day <= days_in_month(
                    year as int,
                    month as int,
                )),
            },
    {
        let ok: bool = year <= 9999 && 1 <= month && month <= 12 && 1 <= day && day
            <= days_in_month_count(year, month);
        if ok {
            Some(Date { year, month, day })
        } else {
            None
        }
    }

    /// Renders the date as `YYYY-MM-DD`, the name daily notes carry.
    pub fn iso_string(&self) -> (r: String)
        requires
            self.valid(),
        ensures
            r@ == self.iso_view(),
    {
        let y = self.year;
        let mut r = String::from_str(digit_str((y / 1000 % 10) as u8));
        r.append(digit_str((y / 100 % 10) as u8));
        r.append(digit_str((y / 10 % 10) as u8));
        r.append(digit_str((y % 10) as u8));
        r.append("-");
        r.append(digit_str(self.month / 10 % 10));
        r.append(digit_str(self.month % 10));
        r.append("-");
        r.append(digit_str(self.day / 10 % 10));
        r.append(digit_str(self.day % 10));
        proof {
            reveal_strlit("-");
            assert("-"@ =~= seq!['-']);
            assert(r@ =~= self.iso_view());
        }
        r
    }
}

/// The number of days of month `m` of year `y`.
pub fn days_in_month_count(y: u16, m: u8) -> (n: u8)
    requires
        1 <= m <= 12,
    ensures
        n == days_in_month(y as int, m as int),
{
    if m == 2 {
        if (y % 4 == 0 && y % 100 != 0) || y % 400 == 0 {
            29
        } else {
            28
        }
    } else if m == 4 || m == 6 || m == 9 || m == 11 {
        30
    } else {
        31
    }
}

/// The one-character text of the decimal digit `d`.
fn digit_str(d: u8) -> (r: &'static str)
    requires
        d <= 9,
    ensures
        r@ == seq![digit_char(d as int)],
{
    let r: &'static str = if d == 0 {
        "0"
    } else if d == 1 {
        "1"
    } else if d == 2 {
        "2"
    } else if d == 3 {
        "3"
    } else if d == 4 {
        "4"
    } else if d == 5 {
        "5"
    } else if d == 6 {
        "6"
    } else if d == 7 {
        "7"
    } else if d == 8 {
        "8"
    } else {
        "9"
    };
    proof {
        reveal_strlit("0");
        reveal_strlit("1");
        reveal_strlit("2");
        reveal_strlit("3");
        reveal_strlit("4");
        reveal_strlit("5");
        reveal_strlit("6");
        reveal_strlit("7");
        reveal_strlit("8");
        reveal_strlit("9");
        assert(r@ =~= seq![digit_char(d as int)]);
    }
    r
}

} // verus!
