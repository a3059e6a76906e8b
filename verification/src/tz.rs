//! The one capability only the timezone database can provide: the offset the
//! Asia/Tokyo timezone adds to a UTC instant.

use crate::time::Stamp;
use chrono::Offset;
use chrono::TimeZone;
use vstd::prelude::*;

verus! {

/// The offset, in seconds east of UTC, that the Asia/Tokyo timezone adds to
/// the given UTC instant (year, month, day, hour, minute, second). The
/// timezone database embedded in the chrono-tz crate makes this a function
/// of the instant alone.
pub uninterp spec fn tokyo_offset_of(y: int, mo: int, d: int, h: int, mi: int, s: int) -> int;

/// Relies on chrono-tz's `Tz::offset_from_utc_datetime` for `Asia::Tokyo`,
/// with chrono's `NaiveDate::from_ymd_opt` and `and_hms_opt` building the
/// instant: both builders return `Some` on a valid stamp (its fields are
/// inside chrono's documented ranges), the looked-up offset is determined by
/// the instant and the embedded timezone database, and chrono's
/// `FixedOffset` holds strictly less than one day of seconds.
#[verifier::external_body]
pub(crate) fn tokyo_offset_seconds(t: &Stamp) -> (r: Option<i32>)
    requires
        t.valid(),
    ensures
        r is Some,
        r matches Some(off) ==> off as int == tokyo_offset_of(
            t.year as int,
            t.month as int,
            t.day as int,
            t.hour as int,
            t.minute as int,
            t.second as int,
        ) && -86400 < off < 86400,
{
    let date = chrono::NaiveDate::from_ymd_opt(t.year as i32, t.month as u32, t.day as u32)?;
    let at = date.and_hms_opt(t.hour as u32, t.minute as u32, t.second as u32)?;
    Some(chrono_tz::Asia::Tokyo.offset_from_utc_datetime(&at).fix().local_minus_utc())
}

} // verus!
