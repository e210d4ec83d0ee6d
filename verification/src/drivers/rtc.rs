//! Real Time Clock (CMOS) decoding
//!
//! The CMOS clock is read register by register, twice, until both reads
//! agree; the registers hold BCD or binary digits and a 12- or 24-hour
//! hour.  This module turns such readings into a date and time, and a
//! date and time into seconds since the Unix epoch.

use vstd::prelude::*;

verus! {

#[derive(Clone, Copy, Debug, PartialEq, Eq, Structural)]
pub struct RtcDateTime {
    pub year: u16,
    pub month: u8,
    pub day: u8,
    pub hour: u8,
    pub minute: u8,
    pub second: u8,
}

/// One reading of the clock registers: seconds (0x00), minutes (0x02),
/// hours (0x04), day (0x07), month (0x08), year (0x09) and century
/// (0x32).
#[derive(Clone, Copy, Debug, PartialEq, Eq, Structural)]
pub struct CmosReading {
    pub second: u8,
    pub minute: u8,
    pub hour: u8,
    pub day: u8,
    pub month: u8,
    pub year: u8,
    pub century: u8,
}

/// A BCD byte's value: low digit plus ten times the high digit.
pub open spec fn bcd_value(v: u8) -> u8 {
    ((v & 0x0f) + (v >> 4u8) * 10) as u8
}

/// Decode a BCD byte.
pub fn bcd_to_bin(v: u8) -> (r: u8)
    ensures
        r == bcd_value(v),
{
    assert((v & 0x0f) <= 15 && (v >> 4u8) <= 15) by (bit_vector);
    (v & 0x0f) + ((v >> 4u8) * 10)
}

/// The 24-hour hour of an hour register: itself in 24-hour mode (bit 1 of
/// register B), else 12 counts as 0 and bit 7 marks the afternoon.
pub open spec fn hour_24(hour: u8, reg_b: u8) -> u8 {
    if reg_b & 0x02 != 0 {
        hour
    } else {
        let h = if hour & 0x7f == 12 {
            0
        } else {
            hour & 0x7f
        };
        if hour & 0x80 != 0 {
            if h + 12 > 255 {
                255
            } else {
                (h + 12) as u8
            }
        } else {
            h
        }
    }
}

/// Bring an hour to 24-hour form.
pub fn normalize_hour(hour: u8, reg_b: u8) -> (r: u8)
    ensures
        r == hour_24(hour, reg_b),
{
    let is_24h = (reg_b & 0x02) != 0;
    if is_24h {
        return hour;
    }
    let pm = (hour & 0x80) != 0;
    let mut h = hour & 0x7f;
    if h == 12 {
        h = 0;
    }
    if pm {
        h = h.saturating_add(12);
    }
    h
}

/// The date and time of a reading, with register B's format bits: BCD
/// digits decoded unless bit 2 says binary (the hour's afternoon bit
/// kept), the hour made 24-hour, and the year completed with the century
/// or, without one, in the 2000s.
pub open spec fn reading_time(r: CmosReading, reg_b: u8) -> RtcDateTime {
    let binary = reg_b & 0x04 != 0;
    let second = if binary { r.second } else { bcd_value(r.second) };
    let minute = if binary { r.minute } else { bcd_value(r.minute) };
    let hour = if binary { r.hour } else { bcd_value(r.hour & 0x7f) | (r.hour & 0x80) };
    let day = if binary { r.day } else { bcd_value(r.day) };
    let month = if binary { r.month } else { bcd_value(r.month) };
    let year = if binary { r.year } else { bcd_value(r.year) };
    let century = if binary { r.century } else { bcd_value(r.century) };
    RtcDateTime {
        year: if century != 0 {
            (century * 100 + year) as u16
        } else {
            (2000 + year) as u16
        },
        month,
        day,
        hour: hour_24(hour, reg_b),
        minute,
        second,
    }
}

/// The date and time from two readings taken one after the other: none
/// unless they agree.
pub fn read_consistent(first: CmosReading, second: CmosReading, reg_b: u8) -> (r: Option<RtcDateTime>)
    ensures
        r == (if first == second {
            Some(reading_time(first, reg_b))
        } else {
            None
        }),
{
    if !(first.second == second.second && first.minute == second.minute && first.hour == second.hour
        && first.day == second.day && first.month == second.month && first.year == second.year
        && first.century == second.century) {
        return None;
    }
    let is_binary = (reg_b & 0x04) != 0;
    let mut sec = first.second;
    let mut minute = first.minute;
    let mut hour = first.hour;
    let mut day = first.day;
    let mut month = first.month;
    let mut year = first.year;
    let mut century = first.century;
    if !is_binary {
        sec = bcd_to_bin(sec);
        minute = bcd_to_bin(minute);
        hour = bcd_to_bin(hour & 0x7f) | (hour & 0x80);
        day = bcd_to_bin(day);
        month = bcd_to_bin(month);
        year = bcd_to_bin(year);
        century = bcd_to_bin(century);
    }
    hour = normalize_hour(hour, reg_b);
    let full_year: u16 = if century != 0 {
        (century as u16) * 100 + (year as u16)
    } else {
        2000 + (year as u16)
    };
    Some(RtcDateTime { year: full_year, month, day, hour, minute, second: sec })
}

/// Days from 1970-01-01 to the given day of the proleptic Gregorian
/// calendar (a year being taken to start in March).
pub open spec fn civil_days(y: int, m: int, d: int) -> int {
    let y2 = if m <= 2 { y - 1 } else { y };
    let era = (if y2 >= 0 { y2 } else { y2 - 399 }) / 400;
    let yoe = y2 - era * 400;
    let mp = m + if m > 2 { -3int } else { 9int };
    let doy = (153 * mp + 2) / 5 + d - 1;
    let doe = yoe * 365 + yoe / 4 - yoe / 100 + doy;
    era * 146097 + doe - 719468
}

/// Days since the epoch of a date; the year and month are taken as they
/// come from the clock (`0 <= y < 65536`, `1 <= m <= 255`, `d <= 255`).
pub fn days_from_civil(y: i32, m: u32, d: u32) -> (r: i64)
    requires
        0 <= y <= 65535,
        1 <= m <= 255,
        d <= 255,
    ensures
        r == civil_days(y as int, m as int, d as int),
{
    let mut y = y;
    let m = m as i32;
    let d = d as i32;
    y -= if m <= 2 {
        1
    } else {
        0
    };
    let era = (if y >= 0 {
        y
    } else {
        y - 399
    }) / 400;
    let yoe = y - era * 400;
    let mp = m + if m > 2 {
        -3
    } else {
        9
    };
    let doy = (153 * mp + 2) / 5 + d - 1;
    let doe = yoe * 365 + yoe / 4 - yoe / 100 + doy;
    (era as i64) * 146097 + (doe as i64) - 719468
}

/// `x` cut to the range of `i64`.
pub open spec fn clamp_i64(x: int) -> i64 {
    if x > i64::MAX {
        i64::MAX
    } else if x < i64::MIN {
        i64::MIN
    } else {
        x as i64
    }
}

/// Saturating product.
fn sat_mul(a: i64, b: i64) -> (r: i64)
    ensures
        r == clamp_i64(a * b),
{
    assert(-0x4000_0000_0000_0000_0000_0000_0000_0000 <= (a as int) * (b as int) <= 0x4000_0000_0000_0000_0000_0000_0000_0000) by (nonlinear_arith)
        requires
            i64::MIN <= a <= i64::MAX,
            i64::MIN <= b <= i64::MAX,
    ;
    let p = (a as i128) * (b as i128);
    if p > i64::MAX as i128 {
        i64::MAX
    } else if p < i64::MIN as i128 {
        i64::MIN
    } else {
        p as i64
    }
}

/// Saturating sum.
fn sat_add(a: i64, b: i64) -> (r: i64)
    ensures
        r == clamp_i64(a + b),
{
    let p = (a as i128) + (b as i128);
    if p > i64::MAX as i128 {
        i64::MAX
    } else if p < i64::MIN as i128 {
        i64::MIN
    } else {
        p as i64
    }
}

/// Seconds since the epoch of a date and time (saturating); none for a
/// zero month or day.
pub open spec fn unix_seconds(dt: RtcDateTime) -> Option<i64> {
    if dt.month == 0 || dt.day == 0 {
        None
    } else {
        let days = civil_days(dt.year as int, dt.month as int, dt.day as int);
        Some(clamp_i64(clamp_i64(clamp_i64(clamp_i64(days * 86_400) + dt.hour * 3600) + dt.minute * 60) + dt.second))
    }
}

/// Seconds since the epoch of a date and time.
pub fn datetime_to_unix_seconds(dt: RtcDateTime) -> (r: Option<i64>)
    ensures
        r == unix_seconds(dt),
{
    if dt.month == 0 || dt.day == 0 {
        return None;
    }
    let days = days_from_civil(dt.year as i32, dt.month as u32, dt.day as u32);
    let secs = sat_add(sat_add(sat_add(sat_mul(days, 86_400), (dt.hour as i64) * 3600), (dt.minute as i64) * 60), dt.second as i64);
    Some(secs)
}

/// Whether the realtime clock was set from the CMOS clock already.
pub struct RtcState {
    time_init_done: bool,
}

impl RtcState {
    pub closed spec fn done(&self) -> bool {
        self.time_init_done
    }

    pub fn new() -> (r: Self)
        ensures
            !r.done(),
    {
        RtcState { time_init_done: false }
    }

    /// The realtime clock's value in microseconds, the first time only,
    /// from a clock reading (none where it could not be read or is
    /// invalid).
    pub fn init_system_time_from_rtc_once(&mut self, reading: Option<RtcDateTime>) -> (r: Option<i64>)
        ensures
            final(self).done(),
            old(self).done() ==> r is None,
            !old(self).done() ==> r == match reading {
                Some(dt) => match unix_seconds(dt) {
                    Some(s) => Some(clamp_i64(s * 1_000_000)),
                    None => None,
                },
                None => None,
            },
    {
        if self.time_init_done {
            return None;
        }
        self.time_init_done = true;
        let dt = match reading {
            Some(dt) => dt,
            None => return None,
        };
        match datetime_to_unix_seconds(dt) {
            Some(sec) => Some(sat_mul(sec, 1_000_000)),
            None => None,
        }
    }
}

/// Leap year of the Gregorian calendar.
pub open spec fn is_leap_year(y: int) -> bool {
    y % 4 == 0 && (y % 100 != 0 || y % 400 == 0)
}

/// Days of month `m` (1 to 12) of year `y`.
pub open spec fn month_days(y: int, m: int) -> int {
    if m == 2 {
        if is_leap_year(y) {
            29
        } else {
            28
        }
    } else if m == 4 || m == 6 || m == 9 || m == 11 {
        30
    } else {
        31
    }
}

/// The count `civil_days` gives 1 March of year `y2`, before its shift to
/// the epoch.
spec fn march_days(y2: int) -> int {
    let era = (if y2 >= 0 { y2 } else { y2 - 399 }) / 400;
    let yoe = y2 - era * 400;
    era * 146097 + yoe * 365 + yoe / 4 - yoe / 100
}

/// From 1 March of `y - 1` to 1 March of `y` there are 365 days, 366 when
/// `y` is a leap year.
proof fn lemma_march_year(y: int)
    requires
        y >= 1,
    ensures
        march_days(y) - march_days(y - 1) == if is_leap_year(y) {
            366int
        } else {
            365int
        },
{
    let e1 = y / 400;
    let e0 = (y - 1) / 400;
    let q1 = y - e1 * 400;
    let q0 = (y - 1) - e0 * 400;
    if y % 400 == 0 {
        assert(e0 == e1 - 1 && q0 == 399 && q1 == 0);
        assert(is_leap_year(y));
    } else {
        assert(e0 == e1 && q1 == q0 + 1);
        assert(y % 4 == q1 % 4 && y % 100 == q1 % 100);
        assert(q1 / 4 - q0 / 4 == if q1 % 4 == 0 { 1int } else { 0int });
        assert(q1 / 100 - q0 / 100 == if q1 % 100 == 0 { 1int } else { 0int });
    }
}

/// Law: `civil_days` counts the days of the Gregorian calendar.  Day 0 is
/// 1 January 1970; each day is one after the day before it; the first of
/// a month comes as many days after the first of the month before as that
/// month has; 1 January comes 31 days after 1 December.
pub proof fn law_civil_days_count(y: int, m: int, d: int)
    requires
        y >= 1,
        1 <= m <= 11,
    ensures
        civil_days(1970, 1, 1) == 0,
        civil_days(y, m, d + 1) == civil_days(y, m, d) + 1,
        civil_days(y, m + 1, 1) == civil_days(y, m, 1) + month_days(y, m),
        civil_days(y + 1, 1, 1) == civil_days(y, 12, 1) + 31,
{
    assert(civil_days(1970, 1, 1) == 0) by {
        assert(march_days(1969) == 4 * 146097 + 369 * 365 + 92 - 3);
    }
    assert(civil_days(y, m + 1, 1) == civil_days(y, m, 1) + month_days(y, m)) by {
        if m == 2 {
            lemma_march_year(y);
            assert(civil_days(y, 3, 1) == march_days(y) - 719468);
            assert(civil_days(y, 2, 1) == march_days(y - 1) + 337 - 719468);
        } else if m == 1 {
            assert((153 * 10 + 2) / 5 == 306 && (153 * 11 + 2) / 5 == 337);
        } else if m == 3 {
            assert((153 * 0 + 2) / 5 == 0 && (153 * 1 + 2) / 5 == 31);
        } else if m == 4 {
            assert((153 * 1 + 2) / 5 == 31 && (153 * 2 + 2) / 5 == 61);
        } else if m == 5 {
            assert((153 * 2 + 2) / 5 == 61 && (153 * 3 + 2) / 5 == 92);
        } else if m == 6 {
            assert((153 * 3 + 2) / 5 == 92 && (153 * 4 + 2) / 5 == 122);
        } else if m == 7 {
            assert((153 * 4 + 2) / 5 == 122 && (153 * 5 + 2) / 5 == 153);
        } else if m == 8 {
            assert((153 * 5 + 2) / 5 == 153 && (153 * 6 + 2) / 5 == 184);
        } else if m == 9 {
            assert((153 * 6 + 2) / 5 == 184 && (153 * 7 + 2) / 5 == 214);
        } else if m == 10 {
            assert((153 * 7 + 2) / 5 == 214 && (153 * 8 + 2) / 5 == 245);
        } else {
            assert((153 * 8 + 2) / 5 == 245 && (153 * 9 + 2) / 5 == 275);
        }
    }
    assert((153 * 9 + 2) / 5 == 275 && (153 * 10 + 2) / 5 == 306);
}

/// Law: a clock reading is converted without saturation.  For a date
/// with a month and a day, the seconds are the days since the epoch times
/// 86400 plus the time of day.
pub proof fn law_unix_seconds_exact(dt: RtcDateTime)
    requires
        dt.month != 0 && dt.day != 0,
    ensures
        unix_seconds(dt) == Some((civil_days(dt.year as int, dt.month as int, dt.day as int) * 86400
            + dt.hour * 3600 + dt.minute * 60 + dt.second) as i64),
{
    let y = dt.year as int;
    let m = dt.month as int;
    let d = dt.day as int;
    let y2 = if m <= 2 { y - 1 } else { y };
    let era = (if y2 >= 0 { y2 } else { y2 - 399 }) / 400;
    let yoe = y2 - era * 400;
    let mp = m + if m > 2 { -3int } else { 9int };
    assert(-1 <= era <= 164);
    assert(0 <= yoe < 400);
    assert(0 <= (153 * mp + 2) / 5 <= 153 * 264);
    let days = civil_days(y, m, d);
    assert(-2_000_000 <= days <= 40_000_000);
    assert(-2_000_000 * 86400 <= days * 86400 <= 40_000_000 * 86400) by (nonlinear_arith)
        requires
            -2_000_000 <= days <= 40_000_000,
    ;
}

} // verus!
