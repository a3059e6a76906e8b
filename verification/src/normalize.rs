//! The timestamp normalizer: parses raw timestamp bytes (ISO-8601 with an
//! offset, `2023-06-01T12:00:00+0900`), converts the instant to Tokyo local
//! time, and derives the day-aligned axis range of a set of normalized
//! stamps. Bytes that do not fit the grammar yield `None`: the row they came
//! from counts as having no timestamp.

use crate::errors::ChartError;
use crate::time::{
    spec_next_date, spec_shift, valid_date, Stamp,
};
use crate::time::{lemma_date_key_orders, lemma_next_date_exists, lemma_next_date_key};
use crate::time::{next_date, shift};
use crate::tz::{tokyo_offset_of, tokyo_offset_seconds};
use vstd::prelude::*;

verus! {

pub open spec fn is_digit(c: u8) -> bool {
    48 <= c <= 57
}

pub open spec fn digit(c: u8) -> int {
    c - 48
}

/// The timezone suffix starting at byte 19: `Z`, or a sign followed by
/// `HHMM` or `HH:MM` with the hours below 24 and the minutes below 60. The
/// value is in seconds east of UTC.
pub open spec fn spec_offset_val(s: Seq<u8>) -> Option<int> {
    if s.len() == 20 && s[19] == 90 {
        Some(0)
    } else if s.len() == 24 && (s[19] == 43 || s[19] == 45) && is_digit(s[20]) && is_digit(s[21])
        && is_digit(s[22]) && is_digit(s[23]) {
        let hh = digit(s[20]) * 10 + digit(s[21]);
        let mm = digit(s[22]) * 10 + digit(s[23]);
        if hh <= 23 && mm <= 59 {
            if s[19] == 43 {
                Some(hh * 3600 + mm * 60)
            } else {
                Some(-(hh * 3600 + mm * 60))
            }
        } else {
            None
        }
    } else if s.len() == 25 && (s[19] == 43 || s[19] == 45) && is_digit(s[20]) && is_digit(s[21])
        && s[22] == 58 && is_digit(s[23]) && is_digit(s[24]) {
        let hh = digit(s[20]) * 10 + digit(s[21]);
        let mm = digit(s[23]) * 10 + digit(s[24]);
        if hh <= 23 && mm <= 59 {
            if s[19] == 43 {
                Some(hh * 3600 + mm * 60)
            } else {
                Some(-(hh * 3600 + mm * 60))
            }
        } else {
            None
        }
    } else {
        None
    }
}

/// The whole grammar: `YYYY-MM-DDTHH:MM:SS` followed by the timezone
/// suffix. The result is the civil stamp as written, with the offset in
/// seconds; `None` when the bytes do not fit or name no valid date or time.
pub open spec fn spec_parse_timestamp(s: Seq<u8>) -> Option<(Stamp, int)> {
    if s.len() < 20 {
        None
    } else if !(is_digit(s[0]) && is_digit(s[1]) && is_digit(s[2]) && is_digit(s[3]) && s[4] == 45
        && is_digit(s[5]) && is_digit(s[6]) && s[7] == 45 && is_digit(s[8]) && is_digit(s[9])
        && s[10] == 84 && is_digit(s[11]) && is_digit(s[12]) && s[13] == 58 && is_digit(s[14])
        && is_digit(s[15]) && s[16] == 58 && is_digit(s[17]) && is_digit(s[18])) {
        None
    } else {
        match spec_offset_val(s) {
            None => None,
            Some(off) => {
                let y = digit(s[0]) * 1000 + digit(s[1]) * 100 + digit(s[2]) * 10 + digit(s[3]);
                let mo = digit(s[5]) * 10 + digit(s[6]);
                let d = digit(s[8]) * 10 + digit(s[9]);
                let h = digit(s[11]) * 10 + digit(s[12]);
                let mi = digit(s[14]) * 10 + digit(s[15]);
                let se = digit(s[17]) * 10 + digit(s[18]);
                if valid_date(y, mo, d) && h < 24 && mi < 60 && se < 60 {
                    Some(
                        (
                            Stamp {
                                year: y as u16,
                                month: mo as u8,
                                day: d as u8,
                                hour: h as u8,
                                minute: mi as u8,
                                second: se as u8,
                            },
                            off,
                        ),
                    )
                } else {
                    None
                }
            },
        }
    }
}

/// A normalized stamp the pipeline will chart: valid, and with a calendar
/// day on each side inside the representable years.
pub open spec fn plottable(t: Stamp) -> bool {
    t.valid() && 1 <= t.year <= 9998
}

/// The full normalization of one raw timestamp: parse, move to UTC by the
/// written offset, move to Tokyo local time by the timezone's offset, and
/// keep only plottable results.
pub open spec fn spec_normalize(s: Seq<u8>) -> Option<Stamp> {
    match spec_parse_timestamp(s) {
        None => None,
        Some(po) => match spec_shift(po.0, -po.1) {
            None => None,
            Some(utc) => match spec_shift(
                utc,
                tokyo_offset_of(
                    utc.year as int,
                    utc.month as int,
                    utc.day as int,
                    utc.hour as int,
                    utc.minute as int,
                    utc.second as int,
                ),
            ) {
                None => None,
                Some(local) => if plottable(local) {
                    Some(local)
                } else {
                    None
                },
            },
        },
    }
}

fn digit_val(c: u8) -> (r: u8)
    requires
        is_digit(c),
    ensures
        r as int == digit(c),
{
    c - 48
}

/// Parses one raw timestamp according to the grammar of
/// [`spec_parse_timestamp`].
pub fn parse_timestamp(s: &[u8]) -> (r: Option<(Stamp, i32)>)
    ensures
        match r {
            Some(p) => spec_parse_timestamp(s@) == Some((p.0, p.1 as int)) && p.0.valid()
                && -86340 <= p.1 <= 86340,
            None => spec_parse_timestamp(s@) is None,
        },
{
    if s.len() < 20 {
        return None;
    }
    if !(is_digit_x(s[0]) && is_digit_x(s[1]) && is_digit_x(s[2]) && is_digit_x(s[3]) && s[4] == 45
        && is_digit_x(s[5]) && is_digit_x(s[6]) && s[7] == 45 && is_digit_x(s[8])
        && is_digit_x(s[9]) && s[10] == 84 && is_digit_x(s[11]) && is_digit_x(s[12]) && s[13] == 58
        && is_digit_x(s[14]) && is_digit_x(s[15]) && s[16] == 58 && is_digit_x(s[17])
        && is_digit_x(s[18])) {
        return None;
    }
    let off: i32 = match offset_val(s) {
        Some(o) => o,
        None => {
            return None;
        },
    };
    let y: u16 = digit_val(s[0]) as u16 * 1000 + digit_val(s[1]) as u16 * 100 + digit_val(
        s[2],
    ) as u16 * 10 + digit_val(s[3]) as u16;
    let mo: u8 = digit_val(s[5]) * 10 + digit_val(s[6]);
    let d: u8 = digit_val(s[8]) * 10 + digit_val(s[9]);
    let h: u8 = digit_val(s[11]) * 10 + digit_val(s[12]);
    let mi: u8 = digit_val(s[14]) * 10 + digit_val(s[15]);
    let se: u8 = digit_val(s[17]) * 10 + digit_val(s[18]);
    if 1 <= mo && mo <= 12 && 1 <= d && d <= crate::time::month_length(y, mo) && h < 24 && mi < 60
        && se < 60 {
        Some((Stamp { year: y, month: mo, day: d, hour: h, minute: mi, second: se }, off))
    } else {
        None
    }
}

fn is_digit_x(c: u8) -> (r: bool)
    ensures
        r == is_digit(c),
{
    48 <= c && c <= 57
}

fn offset_val(s: &[u8]) -> (r: Option<i32>)
    requires
        s@.len() >= 20,
    ensures
        match r {
            Some(o) => spec_offset_val(s@) == Some(o as int) && -86340 <= o <= 86340,
            None => spec_offset_val(s@) is None,
        },
{
    if s.len() == 20 && s[19] == 90 {
        Some(0)
    } else if s.len() == 24 && (s[19] == 43 || s[19] == 45) && is_digit_x(s[20]) && is_digit_x(
        s[21],
    ) && is_digit_x(s[22]) && is_digit_x(s[23]) {
        let hh: i32 = digit_val(s[20]) as i32 * 10 + digit_val(s[21]) as i32;
        let mm: i32 = digit_val(s[22]) as i32 * 10 + digit_val(s[23]) as i32;
        if hh <= 23 && mm <= 59 {
            if s[19] == 43 {
                Some(hh * 3600 + mm * 60)
            } else {
                Some(-(hh * 3600 + mm * 60))
            }
        } else {
            None
        }
    } else if s.len() == 25 && (s[19] == 43 || s[19] == 45) && is_digit_x(s[20]) && is_digit_x(
        s[21],
    ) && s[22] == 58 && is_digit_x(s[23]) && is_digit_x(s[24]) {
        let hh: i32 = digit_val(s[20]) as i32 * 10 + digit_val(s[21]) as i32;
        let mm: i32 = digit_val(s[23]) as i32 * 10 + digit_val(s[24]) as i32;
        if hh <= 23 && mm <= 59 {
            if s[19] == 43 {
                Some(hh * 3600 + mm * 60)
            } else {
                Some(-(hh * 3600 + mm * 60))
            }
        } else {
            None
        }
    } else {
        None
    }
}

/// Normalizes one raw timestamp as [`spec_normalize`] describes.
pub fn normalize_timestamp(s: &[u8]) -> (r: Option<Stamp>)
    ensures
        r == spec_normalize(s@),
        r matches Some(t) ==> plottable(t),
{
    match parse_timestamp(s) {
        None => None,
        Some((civil, off)) => match shift(&civil, -off) {
            None => None,
            Some(utc) => match tokyo_offset_seconds(&utc) {
                Some(toff) => match shift(&utc, toff) {
                    Some(local) => if 1 <= local.year && local.year <= 9998 {
                        Some(local)
                    } else {
                        None
                    },
                    None => None,
                },
                None => None,
            },
        },
    }
}

/// The half-open, day-aligned axis interval `[start, end)`.
#[derive(Clone, Copy, Debug, PartialEq, Eq, Structural)]
pub struct AxisRange {
    pub start: Stamp,
    pub end: Stamp,
}

/// The chronologically least stamp of a non-empty sequence (the earliest
/// occurrence on ties).
pub open spec fn spec_min_stamp(s: Seq<Stamp>) -> Stamp
    decreases s.len(),
{
    if s.len() <= 1 {
        s[0]
    } else {
        let m = spec_min_stamp(s.drop_last());
        if s.last().key() < m.key() {
            s.last()
        } else {
            m
        }
    }
}

/// The chronologically greatest stamp of a non-empty sequence (the earliest
/// occurrence on ties).
pub open spec fn spec_max_stamp(s: Seq<Stamp>) -> Stamp
    decreases s.len(),
{
    if s.len() <= 1 {
        s[0]
    } else {
        let m = spec_max_stamp(s.drop_last());
        if s.last().key() > m.key() {
            s.last()
        } else {
            m
        }
    }
}

pub proof fn lemma_min_max_stamp(s: Seq<Stamp>)
    requires
        s.len() > 0,
    ensures
        s.contains(spec_min_stamp(s)),
        s.contains(spec_max_stamp(s)),
        forall|i: int|
            0 <= i < s.len() ==> spec_min_stamp(s).key() <= (#[trigger] s[i]).key()
                <= spec_max_stamp(s).key(),
    decreases s.len(),
{
    if s.len() == 1 {
        assert(s[0] == s.last());
        assert(s.contains(s[0]));
    } else {
        lemma_min_max_stamp(s.drop_last());
        let d = s.drop_last();
        assert forall|i: int| 0 <= i < s.len() implies spec_min_stamp(s).key() <= (
        #[trigger] s[i]).key() <= spec_max_stamp(s).key() by {
            if i < s.len() - 1 {
                assert(s[i] == d[i]);
            } else {
                assert(s[i] == s.last());
            }
        }
        if d.contains(spec_min_stamp(s)) {
            let j = choose|j: int| 0 <= j < d.len() && d[j] == spec_min_stamp(s);
            assert(s[j] == spec_min_stamp(s));
        }
        if d.contains(spec_max_stamp(s)) {
            let j = choose|j: int| 0 <= j < d.len() && d[j] == spec_max_stamp(s);
            assert(s[j] == spec_max_stamp(s));
        }
        assert(s.last() == s[s.len() - 1]);
    }
}

/// The axis range a non-empty set of plottable stamps determines: from
/// midnight of the least stamp's day to midnight of the day after the
/// greatest stamp's day.
pub open spec fn spec_axis_range(stamps: Seq<Stamp>) -> AxisRange {
    let mn = spec_min_stamp(stamps);
    let mx = spec_max_stamp(stamps);
    match spec_next_date(mx.year as int, mx.month as int, mx.day as int) {
        Some(n) => AxisRange {
            start: mn.spec_midnight(),
            end: Stamp {
                year: n.0 as u16,
                month: n.1 as u8,
                day: n.2 as u8,
                hour: 0,
                minute: 0,
                second: 0,
            },
        },
        None => AxisRange { start: mn.spec_midnight(), end: mx },
    }
}

/// Derives the day-aligned axis range: both bounds are midnights, the start
/// is at or before every stamp, and the end is strictly after every stamp.
/// `EmptyInput` exactly when no stamp was given.
pub fn axis_range(stamps: &Vec<Stamp>) -> (r: Result<AxisRange, ChartError>)
    requires
        forall|i: int| 0 <= i < stamps@.len() ==> plottable(#[trigger] stamps@[i]),
    ensures
        stamps@.len() == 0 ==> r == Result::<AxisRange, ChartError>::Err(ChartError::EmptyInput),
        stamps@.len() > 0 ==> (r matches Ok(ar) && ar == spec_axis_range(stamps@) && ar.start.valid()
            && ar.end.valid() && ar.start.is_midnight() && ar.end.is_midnight() && forall|i: int|
            0 <= i < stamps@.len() ==> ar.start.key() <= (#[trigger] stamps@[i]).key()
                < ar.end.key()),
{
    if stamps.len() == 0 {
        return Err(ChartError::EmptyInput);
    }
    let mut mn: Stamp = stamps[0];
    let mut mx: Stamp = stamps[0];
    let mut i: usize = 1;
    proof {
        assert(stamps@.take(1).len() == 1);
        assert(stamps@.take(1)[0] == stamps@[0]);
    }
    while i < stamps.len()
        invariant
            1 <= i <= stamps@.len(),
            stamps@.len() > 0,
            forall|k: int| 0 <= k < stamps@.len() ==> plottable(#[trigger] stamps@[k]),
            mn == spec_min_stamp(stamps@.take(i as int)),
            mx == spec_max_stamp(stamps@.take(i as int)),
            plottable(mn),
            plottable(mx),
        decreases stamps@.len() - i,
    {
        proof {
            assert(stamps@.take(i as int + 1).drop_last() =~= stamps@.take(i as int));
            assert(stamps@.take(i as int + 1).last() == stamps@[i as int]);
        }
        let cur: Stamp = stamps[i];
        if cur.key_u64() < mn.key_u64() {
            mn = cur;
        }
        if cur.key_u64() > mx.key_u64() {
            mx = cur;
        }
        i = i + 1;
    }
    proof {
        assert(stamps@.take(stamps@.len() as int) =~= stamps@);
        lemma_min_max_stamp(stamps@);
        assert(stamps@.contains(mn));
        assert(stamps@.contains(mx));
        lemma_next_date_exists(mx.year as int, mx.month as int, mx.day as int);
    }
    let start = mn.midnight();
    match next_date(mx.year, mx.month, mx.day) {
        Some(n) => {
            let end = Stamp { year: n.0, month: n.1, day: n.2, hour: 0, minute: 0, second: 0 };
            proof {
                lemma_next_date_key(
                    mx.year as int,
                    mx.month as int,
                    mx.day as int,
                    n.0 as int,
                    n.1 as int,
                    n.2 as int,
                );
                lemma_date_key_orders(mx, end);
                assert forall|i: int| 0 <= i < stamps@.len() implies start.key() <= (
                #[trigger] stamps@[i]).key() < end.key() by {
                    lemma_min_max_stamp(stamps@);
                }
            }
            Ok(AxisRange { start, end })
        },
        None => Err(ChartError::EmptyInput),
    }
}

} // verus!
