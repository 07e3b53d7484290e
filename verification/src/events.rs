//! Decoding of raw input event records.
//!
//! A device yields a fixed 24-byte record per event: 8 bytes of seconds,
//! 8 bytes of microseconds, 2 bytes of event type, 2 bytes of key code and
//! 4 bytes of value, least-significant byte first.  Only key-down events
//! (type "key", value 1) are forwarded to the matcher.

use vstd::prelude::*;

use crate::key_codes::event_type_value;
use crate::key_codes::EventType;

verus! {

/// The integer spelled by a byte sequence, least-significant byte first.
pub open spec fn le_value(s: Seq<u8>) -> int
    decreases s.len(),
{
    if s.len() == 0 {
        0
    } else {
        s[0] + 256 * le_value(s.drop_first())
    }
}

/// One decoded event record.
pub struct EventRecord {
    pub tv_sec: u64,
    pub tv_usec: u64,
    pub event_type: u16,
    pub code: u16,
    pub value: i32,
}

/// Number of bytes in one raw event record.
pub const EVENT_RECORD_LEN: usize = 24;

fn read_u16_le(buf: &[u8], off: usize) -> (r: u16)
    requires
        off + 2 <= buf@.len(),
    ensures
        r as int == le_value(buf@.subrange(off as int, off as int + 2)),
{
    let b0 = buf[off] as u16;
    let b1 = buf[off + 1] as u16;
    proof {
        let s = buf@.subrange(off as int, off as int + 2);
        assert(s.drop_first() =~= buf@.subrange(off as int + 1, off as int + 2));
        assert(s.drop_first().drop_first() =~= Seq::<u8>::empty());
        assert(le_value(s.drop_first().drop_first()) == 0);
        assert(le_value(s.drop_first()) == s.drop_first()[0] + 256 * le_value(
            s.drop_first().drop_first(),
        ));
        assert(le_value(s) == s[0] + 256 * le_value(s.drop_first()));
    }
    b0 + 256 * b1
}

fn read_u32_le(buf: &[u8], off: usize) -> (r: u32)
    requires
        off + 4 <= buf@.len(),
    ensures
        r as int == le_value(buf@.subrange(off as int, off as int + 4)),
{
    let b0 = buf[off] as u32;
    let b1 = buf[off + 1] as u32;
    let b2 = buf[off + 2] as u32;
    let b3 = buf[off + 3] as u32;
    proof {
        let s0 = buf@.subrange(off as int, off as int + 4);
        let s1 = s0.drop_first();
        let s2 = s1.drop_first();
        let s3 = s2.drop_first();
        assert(s1 =~= buf@.subrange(off as int + 1, off as int + 4));
        assert(s2 =~= buf@.subrange(off as int + 2, off as int + 4));
        assert(s3 =~= buf@.subrange(off as int + 3, off as int + 4));
        assert(s3.drop_first() =~= Seq::<u8>::empty());
        assert(le_value(s3.drop_first()) == 0);
        assert(le_value(s3) == s3[0] + 256 * le_value(s3.drop_first()));
        assert(le_value(s2) == s2[0] + 256 * le_value(s3));
        assert(le_value(s1) == s1[0] + 256 * le_value(s2));
        assert(le_value(s0) == s0[0] + 256 * le_value(s1));
    }
    b0 + 256 * (b1 + 256 * (b2 + 256 * b3))
}

fn read_u64_le(buf: &[u8], off: usize) -> (r: u64)
    requires
        off + 8 <= buf@.len(),
    ensures
        r as int == le_value(buf@.subrange(off as int, off as int + 8)),
{
    let b0 = buf[off] as u64;
    let b1 = buf[off + 1] as u64;
    let b2 = buf[off + 2] as u64;
    let b3 = buf[off + 3] as u64;
    let b4 = buf[off + 4] as u64;
    let b5 = buf[off + 5] as u64;
    let b6 = buf[off + 6] as u64;
    let b7 = buf[off + 7] as u64;
    proof {
        let s0 = buf@.subrange(off as int, off as int + 8);
        let s1 = s0.drop_first();
        let s2 = s1.drop_first();
        let s3 = s2.drop_first();
        let s4 = s3.drop_first();
        let s5 = s4.drop_first();
        let s6 = s5.drop_first();
        let s7 = s6.drop_first();
        assert(s1 =~= buf@.subrange(off as int + 1, off as int + 8));
        assert(s2 =~= buf@.subrange(off as int + 2, off as int + 8));
        assert(s3 =~= buf@.subrange(off as int + 3, off as int + 8));
        assert(s4 =~= buf@.subrange(off as int + 4, off as int + 8));
        assert(s5 =~= buf@.subrange(off as int + 5, off as int + 8));
        assert(s6 =~= buf@.subrange(off as int + 6, off as int + 8));
        assert(s7 =~= buf@.subrange(off as int + 7, off as int + 8));
        assert(s7.drop_first() =~= Seq::<u8>::empty());
        assert(le_value(s7.drop_first()) == 0);
        assert(le_value(s7) == s7[0] + 256 * le_value(s7.drop_first()));
        assert(le_value(s6) == s6[0] + 256 * le_value(s7));
        assert(le_value(s5) == s5[0] + 256 * le_value(s6));
        assert(le_value(s4) == s4[0] + 256 * le_value(s5));
        assert(le_value(s3) == s3[0] + 256 * le_value(s4));
        assert(le_value(s2) == s2[0] + 256 * le_value(s3));
        assert(le_value(s1) == s1[0] + 256 * le_value(s2));
        assert(le_value(s0) == s0[0] + 256 * le_value(s1));
    }
    b0 + 256 * (b1 + 256 * (b2 + 256 * (b3 + 256 * (b4 + 256 * (b5 + 256 * (b6 + 256 * b7))))))
}

/// Decode one raw 24-byte event record into its five fields.
pub fn decode_event(buf: &[u8]) -> (r: EventRecord)
    requires
        buf@.len() == EVENT_RECORD_LEN,
    ensures
        r.tv_sec as int == le_value(buf@.subrange(0, 8)),
        r.tv_usec as int == le_value(buf@.subrange(8, 16)),
        r.event_type as int == le_value(buf@.subrange(16, 18)),
        r.code as int == le_value(buf@.subrange(18, 20)),
        r.value == le_value(buf@.subrange(20, 24)) as u32 as i32,
{
    let tv_sec = read_u64_le(buf, 0);
    let tv_usec = read_u64_le(buf, 8);
    let event_type = read_u16_le(buf, 16);
    let code = read_u16_le(buf, 18);
    let value_bits = read_u32_le(buf, 20);
    EventRecord { tv_sec, tv_usec, event_type, code, value: value_bits as i32 }
}

/// The key code carried by a record, if and only if the record is a
/// key-down event: event type "key" and value 1 (a press -- not a release,
/// not an auto-repeat).  Only such codes are forwarded to the matcher.
pub fn key_down_code(ev: &EventRecord) -> (r: Option<u16>)
    ensures
        r == (if ev.event_type == event_type_value(EventType::EvKey) && ev.value == 1i32 {
            Some(ev.code)
        } else {
            Option::<u16>::None
        }),
{
    if ev.event_type == EventType::EvKey.code() && ev.value == 1 {
        Some(ev.code)
    } else {
        None
    }
}

} // verus!
