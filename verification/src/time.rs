//! Civil (Gregorian) timestamps with second precision, and the calendar
//! arithmetic the pipeline needs: validity, chronological ordering, the
//! neighbouring calendar days, and shifting a stamp by less than a day.

use vstd::prelude::*;

verus! {

/// A calendar date with a time of day, second precision. The field ranges
/// are guarded by [`Stamp::valid`].
#[derive(Clone, Copy, Debug, PartialEq, Eq, Structural)]
pub struct Stamp {
    pub year: u16,
    pub month: u8,
    pub day: u8,
    pub hour: u8,
    pub minute: u8,
    pub second: u8,
}

pub open spec fn is_leap_year(y: int) -> bool {
    (y % 4 == 0 && y % 100 != 0) || y % 400 == 0
}

pub open spec fn days_in_month(y: int, m: int) -> int {
    if m == 2 {
        if is_leap_year(y) {
            29
        } else {
            28
        }
    } else if m == 4 || m == 6 || m == 9 || m == 11 {
        30
    } else {
        31
    }
}

pub open spec fn valid_date(y: int, m: int, d: int) -> bool {
    &&& 0 <= y <= 9999
    &&& 1 <= m <= 12
    &&& 1 <= d <= days_in_month(y, m)
}

impl Stamp {
    pub open spec fn valid(self) -> bool {
        &&& valid_date(self.year as int, self.month as int, self.day as int)
        &&& self.hour < 24
        &&& self.minute < 60
        &&& self.second < 60
    }

    /// Seconds elapsed since this stamp's own midnight.
    pub open spec fn sec_of_day(self) -> int {
        self.hour * 3600 + self.minute * 60 + self.second
    }

    /// The date packed as a decimal integer; orders valid dates
    /// chronologically.
    pub open spec fn date_key(self) -> int {
        self.year * 10000 + self.month * 100 + self.day
    }

    /// Orders valid stamps chronologically: first by date, then by time of
    /// day (the time of day is below 100000).
    pub open spec fn key(self) -> int {
        self.date_key() * 100000 + self.sec_of_day()
    }

    pub open spec fn is_midnight(self) -> bool {
        self.sec_of_day() == 0
    }

    /// The start (midnight) of this stamp's calendar day.
    pub open spec fn spec_midnight(self) -> Stamp {
        Stamp { hour: 0, minute: 0, second: 0, ..self }
    }

    /// Packs the ordering key into a machine integer.
    pub fn key_u64(&self) -> (k: u64)
        requires
            self.valid(),
        ensures
            k as int == self.key(),
    {
        (self.year as u64 * 10000 + self.month as u64 * 100 + self.day as u64) * 100000
            + self.hour as u64 * 3600 + self.minute as u64 * 60 + self.second as u64
    }

    /// The start of this stamp's calendar day; never after the stamp itself.
    pub fn midnight(&self) -> (r: Stamp)
        requires
            self.valid(),
        ensures
            r == self.spec_midnight(),
            r.valid(),
            r.is_midnight(),
            r.key() <= self.key(),
            r.date_key() == self.date_key(),
    {
        Stamp { hour: 0, minute: 0, second: 0, ..*self }
    }
}

/// The calendar day after (y, m, d); `None` only past the last
/// representable day, 9999-12-31.
pub open spec fn spec_next_date(y: int, m: int, d: int) -> Option<(int, int, int)> {
    if d < days_in_month(y, m) {
        Some((y, m, d + 1))
    } else if m < 12 {
        Some((y, m + 1, 1))
    } else if y < 9999 {
        Some((y + 1, 1, 1))
    } else {
        None
    }
}

/// The calendar day before (y, m, d); `None` only before the first
/// representable day, 0000-01-01.
pub open spec fn spec_prev_date(y: int, m: int, d: int) -> Option<(int, int, int)> {
    if d > 1 {
        Some((y, m, d - 1))
    } else if m > 1 {
        Some((y, m - 1, days_in_month(y, m - 1)))
    } else if y > 0 {
        Some((y - 1, 12, 31))
    } else {
        None
    }
}

pub fn month_length(y: u16, m: u8) -> (r: u8)
    requires
        1 <= m <= 12,
    ensures
        r as int == days_in_month(y as int, m as int),
{
    if m == 2 {
        if (y % 4 == 0 && y % 100 != 0) || y % 400 == 0 {
            29
        } else {
            28
        }
    } else if m == 4 || m == 6 || m == 9 || m == 11 {
        30
    } else {
        31
    }
}

pub fn next_date(y: u16, m: u8, d: u8) -> (r: Option<(u16, u8, u8)>)
    requires
        valid_date(y as int, m as int, d as int),
    ensures
        match r {
            Some(t) => spec_next_date(y as int, m as int, d as int)
                == Some((t.0 as int, t.1 as int, t.2 as int))
                && valid_date(t.0 as int, t.1 as int, t.2 as int),
            None => spec_next_date(y as int, m as int, d as int) is None,
        },
{
    if d < month_length(y, m) {
        Some((y, m, d + 1))
    } else if m < 12 {
        Some((y, m + 1, 1))
    } else if y < 9999 {
        Some((y + 1, 1, 1))
    } else {
        None
    }
}

pub fn prev_date(y: u16, m: u8, d: u8) -> (r: Option<(u16, u8, u8)>)
    requires
        valid_date(y as int, m as int, d as int),
    ensures
        match r {
            Some(t) => spec_prev_date(y as int, m as int, d as int)
                == Some((t.0 as int, t.1 as int, t.2 as int))
                && valid_date(t.0 as int, t.1 as int, t.2 as int),
            None => spec_prev_date(y as int, m as int, d as int) is None,
        },
{
    if d > 1 {
        Some((y, m, d - 1))
    } else if m > 1 {
        Some((y, m - 1, month_length(y, m - 1)))
    } else if y > 0 {
        Some((y - 1, 12, 31))
    } else {
        None
    }
}

/// The stamp with the same date but the given time of day.
pub open spec fn spec_with_tod(t: Stamp, tod: int) -> Stamp {
    Stamp {
        hour: (tod / 3600) as u8,
        minute: ((tod / 60) % 60) as u8,
        second: (tod % 60) as u8,
        ..t
    }
}

/// Shifting a stamp by `delta` seconds, `|delta|` below one day: the time of
/// day moves, crossing into the neighbouring calendar day where it wraps.
pub open spec fn spec_shift(t: Stamp, delta: int) -> Option<Stamp> {
    let tod = t.sec_of_day() + delta;
    if tod < 0 {
        match spec_prev_date(t.year as int, t.month as int, t.day as int) {
            Some(p) => Some(
                Stamp {
                    year: p.0 as u16,
                    month: p.1 as u8,
                    day: p.2 as u8,
                    ..spec_with_tod(t, tod + 86400)
                },
            ),
            None => None,
        }
    } else if tod < 86400 {
        Some(spec_with_tod(t, tod))
    } else {
        match spec_next_date(t.year as int, t.month as int, t.day as int) {
            Some(n) => Some(
                Stamp {
                    year: n.0 as u16,
                    month: n.1 as u8,
                    day: n.2 as u8,
                    ..spec_with_tod(t, tod - 86400)
                },
            ),
            None => None,
        }
    }
}

pub fn shift(t: &Stamp, delta: i32) -> (r: Option<Stamp>)
    requires
        t.valid(),
        -86400 < delta < 86400,
    ensures
        r == spec_shift(*t, delta as int),
        r matches Some(s) ==> s.valid(),
{
    let tod: i32 = t.hour as i32 * 3600 + t.minute as i32 * 60 + t.second as i32 + delta;
    if tod < 0 {
        let tod2: i32 = tod + 86400;
        match prev_date(t.year, t.month, t.day) {
            Some(p) => Some(
                Stamp {
                    year: p.0,
                    month: p.1,
                    day: p.2,
                    hour: (tod2 / 3600) as u8,
                    minute: ((tod2 / 60) % 60) as u8,
                    second: (tod2 % 60) as u8,
                },
            ),
            None => None,
        }
    } else if tod < 86400 {
        Some(
            Stamp {
                hour: (tod / 3600) as u8,
                minute: ((tod / 60) % 60) as u8,
                second: (tod % 60) as u8,
                ..*t
            },
        )
    } else {
        let tod2: i32 = tod - 86400;
        match next_date(t.year, t.month, t.day) {
            Some(n) => Some(
                Stamp {
                    year: n.0,
                    month: n.1,
                    day: n.2,
                    hour: (tod2 / 3600) as u8,
                    minute: ((tod2 / 60) % 60) as u8,
                    second: (tod2 % 60) as u8,
                },
            ),
            None => None,
        }
    }
}

/// A valid date before 9999-12-31 always has a next calendar day.
pub proof fn lemma_next_date_exists(y: int, m: int, d: int)
    requires
        valid_date(y, m, d),
        y < 9999,
    ensures
        spec_next_date(y, m, d) is Some,
{
}

/// Moving to the next calendar day strictly raises the packed date key.
pub proof fn lemma_next_date_key(y: int, m: int, d: int, ny: int, nm: int, nd: int)
    requires
        valid_date(y, m, d),
        spec_next_date(y, m, d) == Some((ny, nm, nd)),
    ensures
        ny * 10000 + nm * 100 + nd > y * 10000 + m * 100 + d,
        valid_date(ny, nm, nd),
{
}

/// A stamp on an earlier calendar day is chronologically earlier, whatever
/// the times of day.
pub proof fn lemma_date_key_orders(a: Stamp, b: Stamp)
    requires
        a.valid(),
        b.valid(),
        a.date_key() < b.date_key(),
    ensures
        a.key() < b.key(),
{
}

} // verus!
