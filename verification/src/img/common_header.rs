//! The 21-byte header shared by every Garmin subfile, and the small field
//! writers that every subfile builder uses.
use vstd::prelude::*;
use crate::bytes::{le16, le24, le32, u24_of, push_u16, push_u24, push_u32, push_zeros};

verus! {

/// Length of the type string field.
pub const TYPE_LEN: usize = 10;

/// Length of the common header.
pub const COMMON_HEADER_LEN: usize = 21;

pub struct CommonHeader {
    pub header_length: u16,
    pub type_str: String,
}

/// Whether `year` is a Gregorian leap year.
pub open spec fn is_leap(year: int) -> bool {
    (year % 4 == 0 && year % 100 != 0) || year % 400 == 0
}

/// Days in `year`.
pub open spec fn year_days(year: int) -> int {
    if is_leap(year) { 366 } else { 365 }
}

/// Days in month `month` (1-based) of a year that is a leap year or not.
pub open spec fn month_days(leap: bool, month: int) -> int {
    if month == 2 {
        if leap { 29 } else { 28 }
    } else if month == 4 || month == 6 || month == 9 || month == 11 {
        30
    } else {
        31
    }
}

/// Year reached by counting `days` whole days from January 1st of `year`,
/// and the day of that year that remains.
pub open spec fn year_and_day(days: int, year: int) -> (int, int)
    decreases days,
{
    if days < year_days(year) {
        (year, days)
    } else {
        year_and_day(days - year_days(year), year + 1)
    }
}

/// Month reached by counting `days` from the first of `month` (months past
/// December keep 31 days), and the day of that month that remains.
pub open spec fn month_and_day(days: int, leap: bool, month: int) -> (int, int)
    decreases 13 - month,
{
    if month > 12 || days < month_days(leap, month) {
        (month, days)
    } else {
        month_and_day(days - month_days(leap, month), leap, month + 1)
    }
}

/// The UTC calendar date of `secs` seconds since 1970-01-01 (whole days taken
/// as a 32-bit signed count): `(year, month, day, hour, minute, second)`.
pub open spec fn calendar(secs: u64) -> (int, int, int, int, int, int) {
    let days = (secs / 86400) as i32;
    let (year, yday) = year_and_day(days as int, 1970);
    let (month, mday) = month_and_day(yday, is_leap(year), 1);
    (year, month, mday + 1, ((secs / 3600) % 24) as int, ((secs / 60) % 60) as int, (secs % 60) as int)
}

/// The 7 date bytes written for `secs`: year (2 bytes LE), month, day, hour,
/// minute, second.
pub open spec fn creation_time_bytes(secs: u64) -> Seq<u8> {
    let c = calendar(secs);
    le16(c.0 as u16) + seq![c.1 as u8, c.2 as u8, c.3 as u8, c.4 as u8, c.5 as u8]
}

/// The 10 type-string bytes: the UTF-8 bytes of `s`, cut or padded with zeros.
pub open spec fn type_field(s: Seq<u8>) -> Seq<u8> {
    Seq::new(TYPE_LEN as nat, |i: int| if i < s.len() { s[i] } else { 0u8 })
}

/// The 21 common-header bytes: header length, type string, 0x01, lock
/// byte 0, and the creation date of `secs`.
pub open spec fn header_bytes(header_length: u16, type_str: Seq<char>, secs: u64) -> Seq<u8> {
    le16(header_length) + type_field(vstd::utf8::encode_utf8(type_str))
        + seq![0x01u8, 0x00u8] + creation_time_bytes(secs)
}

impl CommonHeader {
    pub fn new(header_length: u16, type_str: &str) -> (h: Self)
        ensures
            h.header_length == header_length,
            h.type_str@ == type_str@,
    {
        CommonHeader { header_length, type_str: type_str.to_owned() }
    }

    /// The 21 header bytes for a file created at `secs` seconds after the epoch.
    pub open spec fn spec_bytes(&self, secs: u64) -> Seq<u8> {
        header_bytes(self.header_length, self.type_str@, secs)
    }

    /// Append the 21-byte header: length, type string padded to 10 bytes,
    /// 0x01, lock byte 0x00, and the creation date of `now_secs`.
    pub fn write(&self, buf: &mut Vec<u8>, now_secs: u64)
        ensures
            final(buf)@ == old(buf)@ + self.spec_bytes(now_secs),
    {
        let ghost start = buf@;
        push_u16(buf, self.header_length);
        let type_bytes = self.type_str.as_str().as_bytes();
        let mut i: usize = 0;
        while i < TYPE_LEN
            invariant
                i <= TYPE_LEN,
                type_bytes@ == vstd::utf8::encode_utf8(self.type_str@),
                buf@ == start + le16(self.header_length) + type_field(type_bytes@).subrange(0, i as int),
            decreases TYPE_LEN - i,
        {
            if i < type_bytes.len() {
                buf.push(type_bytes[i]);
            } else {
                buf.push(0x00);
            }
            i = i + 1;
            assert(buf@ =~= start + le16(self.header_length) + type_field(type_bytes@).subrange(0, i as int));
        }
        assert(type_field(type_bytes@).subrange(0, 10) =~= type_field(type_bytes@));
        buf.push(0x01);
        buf.push(0x00);
        write_creation_time(buf, now_secs);
        assert(buf@ =~= start + self.spec_bytes(now_secs));
    }
}

/// Append the 7-byte creation date of `secs`.
fn write_creation_time(buf: &mut Vec<u8>, secs: u64)
    ensures
        final(buf)@ == old(buf)@ + creation_time_bytes(secs),
{
    let (year, month, day, hour, min, sec) = unix_to_calendar(secs);
    let ghost start = buf@;
    push_u16(buf, year as u16);
    buf.push(month as u8);
    buf.push(day as u8);
    buf.push(hour as u8);
    buf.push(min as u8);
    buf.push(sec as u8);
    assert(buf@ =~= start + creation_time_bytes(secs));
}

/// Append a given date as the 7-byte creation time.
pub fn write_creation_time_fixed(buf: &mut Vec<u8>, year: u16, month: u8, day: u8, hour: u8, min: u8, sec: u8)
    ensures
        final(buf)@ == old(buf)@ + le16(year) + seq![month, day, hour, min, sec],
{
    let ghost start = buf@;
    push_u16(buf, year);
    buf.push(month);
    buf.push(day);
    buf.push(hour);
    buf.push(min);
    buf.push(sec);
    assert(buf@ =~= start + le16(year) + seq![month, day, hour, min, sec]);
}

/// Append a section descriptor: offset then size, both u32 LE.
pub fn write_section(buf: &mut Vec<u8>, offset: u32, size: u32)
    ensures
        final(buf)@ == old(buf)@ + le32(offset) + le32(size),
{
    push_u32(buf, offset);
    push_u32(buf, size);
}

/// Append the three low bytes of `val`, little-endian.
pub fn write_u24(buf: &mut Vec<u8>, val: u32)
    ensures
        final(buf)@ == old(buf)@ + le24(val),
{
    push_u24(buf, val);
}

/// Value of a 24-bit two's-complement number given as its unsigned bits.
pub open spec fn sign_extend24(u: u32) -> int {
    if u >= 0x80_0000 { u as int - 0x100_0000 } else { u as int }
}

/// Read a 24-bit signed little-endian value, sign-extended.
pub fn read_i24(bytes: &[u8]) -> (r: i32)
    requires
        bytes@.len() >= 3,
    ensures
        r as int == sign_extend24(u24_of(bytes@[0], bytes@[1], bytes@[2])),
{
    let b0 = bytes[0];
    let b1 = bytes[1];
    let b2 = bytes[2];
    let val = b0 as i32 | ((b1 as i32) << 8i32) | ((b2 as i32) << 16i32);
    let r = if val & 0x800000 != 0 { val | !0xFFFFFFi32 } else { val };
    let ghost u = u24_of(b0, b1, b2);
    assert(val == u as i32 && u < 0x100_0000) by (bit_vector)
        requires
            val == b0 as i32 | ((b1 as i32) << 8i32) | ((b2 as i32) << 16i32),
            u == (b0 as u32) | ((b1 as u32) << 8u32) | ((b2 as u32) << 16u32),
    ;
    assert(val & 0x800000 != 0 <==> u >= 0x80_0000) by (bit_vector)
        requires
            val == u as i32,
            u < 0x100_0000,
    ;
    assert((val & 0x800000 != 0 ==> (val | !0xFFFFFFi32) as int == u as int - 0x100_0000)
        && (val & 0x800000 == 0 ==> val as int == u as int)) by (bit_vector)
        requires
            val == u as i32,
            u < 0x100_0000,
    ;
    r
}

/// Map bounds `(north, east, south, west)` stored as 24-bit signed values at
/// TRE header offsets 21..33.
pub fn read_tre_bounds(tre_data: &[u8]) -> (r: (i32, i32, i32, i32))
    requires
        tre_data@.len() >= 33,
    ensures
        r.0 as int == sign_extend24(u24_of(tre_data@[21], tre_data@[22], tre_data@[23])),
        r.1 as int == sign_extend24(u24_of(tre_data@[24], tre_data@[25], tre_data@[26])),
        r.2 as int == sign_extend24(u24_of(tre_data@[27], tre_data@[28], tre_data@[29])),
        r.3 as int == sign_extend24(u24_of(tre_data@[30], tre_data@[31], tre_data@[32])),
{
    let north = read_i24(slice_from(tre_data, 21));
    let east = read_i24(slice_from(tre_data, 24));
    let south = read_i24(slice_from(tre_data, 27));
    let west = read_i24(slice_from(tre_data, 30));
    (north, east, south, west)
}

/// The tail of `s` starting at `start`.
pub fn slice_from(s: &[u8], start: usize) -> (r: &[u8])
    requires
        start <= s@.len(),
    ensures
        r@ == s@.subrange(start as int, s@.len() as int),
{
    let (_, tail) = s.split_at(start);
    tail
}

/// Append the three low bytes of `val` (two's complement), little-endian.
pub fn write_i24(buf: &mut Vec<u8>, val: i32)
    ensures
        final(buf)@ == old(buf)@ + le24(val as u32),
{
    push_u24(buf, val as u32);
}

/// Pad with zeros, or truncate, to exactly `target` bytes.
pub fn pad_to(buf: &mut Vec<u8>, target: usize)
    ensures
        target <= old(buf)@.len() ==> final(buf)@ == old(buf)@.subrange(0, target as int),
        target > old(buf)@.len() ==> final(buf)@ == old(buf)@ + Seq::new((target - old(buf)@.len()) as nat, |i: int| 0u8),
{
    if target <= buf.len() {
        buf.truncate(target);
    } else {
        let n = target - buf.len();
        push_zeros(buf, n);
    }
}

/// Exec form of `is_leap`.
fn is_leap_exec(year: i32) -> (r: bool)
    ensures
        r == is_leap(year as int),
{
    (year % 4 == 0 && year % 100 != 0) || year % 400 == 0
}

/// UTC calendar date of a Unix timestamp: `(year, month, day, hour, min, sec)`.
pub fn unix_to_calendar(secs: u64) -> (r: (i32, i32, i32, i32, i32, i32))
    ensures
        (r.0 as int, r.1 as int, r.2 as int, r.3 as int, r.4 as int, r.5 as int) == calendar(secs),
{
    let sec = (secs % 60) as i32;
    let min = ((secs / 60) % 60) as i32;
    let hour = ((secs / 3600) % 24) as i32;
    let mut days = (secs / 86400) as i32;
    let ghost days0 = days as int;
    let mut year: i32 = 1970;
    loop
        invariant_except_break
            1970 <= year,
            (year - 1970) * 365 <= days0 - days,
            days0 < 0x8000_0000,
            year_and_day(days as int, year as int) == year_and_day(days0, 1970),
        ensures
            year_and_day(days as int, year as int) == year_and_day(days0, 1970),
            days < year_days(year as int),
        decreases days,
    {
        let days_in_year: i32 = if is_leap_exec(year) { 366 } else { 365 };
        if days < days_in_year {
            break;
        }
        days = days - days_in_year;
        year = year + 1;
    }
    let leap = is_leap_exec(year);
    assert(year_and_day(days as int, year as int) == (year as int, days as int));
    let ghost yday = days as int;
    let mut month: i32 = 1;
    while month <= 12
        invariant_except_break
            1 <= month <= 13,
            days <= yday,
            month_and_day(days as int, leap, month as int) == month_and_day(yday, leap, 1),
        ensures
            month_and_day(days as int, leap, month as int) == month_and_day(yday, leap, 1),
            month_and_day(days as int, leap, month as int) == (month as int, days as int),
            days <= yday,
        decreases 13 - month,
    {
        let dim: i32 = if month == 2 {
            if leap { 29 } else { 28 }
        } else if month == 4 || month == 6 || month == 9 || month == 11 {
            30
        } else {
            31
        };
        if days < dim {
            break;
        }
        days = days - dim;
        month = month + 1;
    }
    (year, month, days + 1, hour, min, sec)
}

} // verus!
