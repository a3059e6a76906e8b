//! Tick labels for the x axis: a tick falling exactly on local midnight is
//! labelled with its date and weekday (`2023-06-01 Thu`), every other tick
//! with its time of day (`12:00:00`).

use crate::time::{valid_date, Stamp};
use vstd::prelude::*;

verus! {

/// Zeller's congruence over the Gregorian calendar, shifted by four
/// centuries (which repeats the weekday cycle exactly) so every
/// intermediate value stays non-negative: 0 is Saturday, 1 Sunday, up to 6
/// Friday.
pub open spec fn spec_weekday(y: int, m: int, d: int) -> int {
    let yy = if m <= 2 {
        y + 399
    } else {
        y + 400
    };
    let mm = if m <= 2 {
        m + 12
    } else {
        m
    };
    let kk = yy % 100;
    let jj = yy / 100;
    (d + (13 * (mm + 1)) / 5 + kk + kk / 4 + jj / 4 + 5 * jj) % 7
}

pub fn weekday(y: u16, m: u8, d: u8) -> (r: u8)
    requires
        valid_date(y as int, m as int, d as int),
    ensures
        r as int == spec_weekday(y as int, m as int, d as int),
        r < 7,
{
    let yy: u32 = if m <= 2 {
        y as u32 + 399
    } else {
        y as u32 + 400
    };
    let mm: u32 = if m <= 2 {
        m as u32 + 12
    } else {
        m as u32
    };
    let kk: u32 = yy % 100;
    let jj: u32 = yy / 100;
    ((d as u32 + (13 * (mm + 1)) / 5 + kk + kk / 4 + jj / 4 + 5 * jj) % 7) as u8
}

/// A number below one hundred as two decimal digit bytes.
pub open spec fn spec_two_digits(x: int) -> Seq<u8> {
    seq![(48 + x / 10) as u8, (48 + x % 10) as u8]
}

/// A number below ten thousand as four decimal digit bytes.
pub open spec fn spec_four_digits(x: int) -> Seq<u8> {
    seq![
        (48 + x / 1000) as u8,
        (48 + (x / 100) % 10) as u8,
        (48 + (x / 10) % 10) as u8,
        (48 + x % 10) as u8,
    ]
}

/// The three-letter English weekday abbreviation for a weekday number as
/// [`spec_weekday`] counts them.
pub open spec fn spec_weekday_name(w: int) -> Seq<u8> {
    if w == 0 {
        seq![83u8, 97u8, 116u8]
    } else if w == 1 {
        seq![83u8, 117u8, 110u8]
    } else if w == 2 {
        seq![77u8, 111u8, 110u8]
    } else if w == 3 {
        seq![84u8, 117u8, 101u8]
    } else if w == 4 {
        seq![87u8, 101u8, 100u8]
    } else if w == 5 {
        seq![84u8, 104u8, 117u8]
    } else {
        seq![70u8, 114u8, 105u8]
    }
}

/// The label of one tick: date and weekday at exactly midnight, time of
/// day otherwise.
pub open spec fn spec_tick_label(t: Stamp) -> Seq<u8> {
    if t.is_midnight() {
        spec_four_digits(t.year as int) + seq![45u8] + spec_two_digits(t.month as int) + seq![45u8]
            + spec_two_digits(t.day as int) + seq![32u8] + spec_weekday_name(
            spec_weekday(t.year as int, t.month as int, t.day as int),
        )
    } else {
        spec_two_digits(t.hour as int) + seq![58u8] + spec_two_digits(t.minute as int)
            + seq![58u8] + spec_two_digits(t.second as int)
    }
}

fn push_two(v: &mut Vec<u8>, x: u8)
    requires
        x < 100,
    ensures
        final(v)@ == old(v)@ + spec_two_digits(x as int),
{
    v.push(48 + x / 10);
    v.push(48 + x % 10);
    proof {
        assert(v@ =~= old(v)@ + spec_two_digits(x as int));
    }
}

/// Renders one tick label as [`spec_tick_label`] describes.
pub fn tick_label(t: &Stamp) -> (r: Vec<u8>)
    requires
        t.valid(),
    ensures
        r@ == spec_tick_label(*t),
{
    let mut v: Vec<u8> = Vec::new();
    if t.hour == 0 && t.minute == 0 && t.second == 0 {
        let y = t.year;
        v.push(48 + (y / 1000) as u8);
        v.push(48 + ((y / 100) % 10) as u8);
        v.push(48 + ((y / 10) % 10) as u8);
        v.push(48 + (y % 10) as u8);
        v.push(45);
        push_two(&mut v, t.month);
        v.push(45);
        push_two(&mut v, t.day);
        v.push(32);
        let w = weekday(t.year, t.month, t.day);
        if w == 0 {
            v.push(83);
            v.push(97);
            v.push(116);
        } else if w == 1 {
            v.push(83);
            v.push(117);
            v.push(110);
        } else if w == 2 {
            v.push(77);
            v.push(111);
            v.push(110);
        } else if w == 3 {
            v.push(84);
            v.push(117);
            v.push(101);
        } else if w == 4 {
            v.push(87);
            v.push(101);
            v.push(100);
        } else if w == 5 {
            v.push(84);
            v.push(104);
            v.push(117);
        } else {
            v.push(70);
            v.push(114);
            v.push(105);
        }
        proof {
            assert(v@ =~= spec_tick_label(*t));
        }
    } else {
        push_two(&mut v, t.hour);
        v.push(58);
        push_two(&mut v, t.minute);
        v.push(58);
        push_two(&mut v, t.second);
        proof {
            assert(v@ =~= spec_tick_label(*t));
        }
    }
    v
}

} // verus!
