//! Selection of the input device to listen on.
//!
//! The surrounding program obtains the list of input devices from an
//! external device-listing tool; here the list is filtered by USB vendor
//! and product id and by a name predicate, and exactly one device must
//! remain.

use vstd::prelude::*;

use crate::text::contains_sub;
use crate::text::text_contains;

verus! {

/// Collected information for one listed input device.
#[derive(Debug, Clone)]
pub struct XinputEntry {
    pub name: String,
    pub id: usize,
    pub keyboard: bool,
    pub pointer: bool,
    pub slave: bool,
    pub master: bool,
    pub floating: bool,
    pub device: String,
    pub usb_vid: u16,
    pub usb_pid: u16,
}

/// An inspectable include/exclude predicate over device names.
pub enum DeviceFilter {
    /// Accept every device.
    Always,
    /// Accept a device whose name contains this text.
    Contains(String),
    /// Accept a device whose name does not contain this text.
    Excludes(String),
    /// Accept a device that both filters accept.
    Both(Box<DeviceFilter>, Box<DeviceFilter>),
}

/// Whether the filter accepts a device name.
pub open spec fn filter_accepts(f: DeviceFilter, name: Seq<char>) -> bool
    decreases f,
{
    match f {
        DeviceFilter::Always => true,
        DeviceFilter::Contains(t) => contains_sub(name, t@),
        DeviceFilter::Excludes(t) => !contains_sub(name, t@),
        DeviceFilter::Both(a, b) => filter_accepts(*a, name) && filter_accepts(*b, name),
    }
}

/// Evaluate a device-name filter.
pub fn filter_matches(f: &DeviceFilter, name: &str) -> (r: bool)
    ensures
        r == filter_accepts(*f, name@),
    decreases *f,
{
    match f {
        DeviceFilter::Always => true,
        DeviceFilter::Contains(t) => text_contains(name, t.as_str()),
        DeviceFilter::Excludes(t) => !text_contains(name, t.as_str()),
        DeviceFilter::Both(a, b) => {
            let ra = filter_matches(a, name);
            let rb = filter_matches(b, name);
            ra && rb
        },
    }
}

/// Whether a device passes the vendor id, product id and name criteria.
pub open spec fn device_passes(
    d: XinputEntry,
    vid: Option<u16>,
    pid: Option<u16>,
    f: DeviceFilter,
) -> bool {
    &&& (vid is Some ==> d.usb_vid == vid->Some_0)
    &&& (pid is Some ==> d.usb_pid == pid->Some_0)
    &&& filter_accepts(f, d.name@)
}

/// How many of the listed devices pass the criteria.
pub open spec fn match_count(
    s: Seq<XinputEntry>,
    vid: Option<u16>,
    pid: Option<u16>,
    f: DeviceFilter,
) -> int
    decreases s.len(),
{
    if s.len() == 0 {
        0
    } else {
        match_count(s.drop_last(), vid, pid, f) + if device_passes(s.last(), vid, pid, f) {
            1int
        } else {
            0int
        }
    }
}

/// Why no single device could be selected.
#[derive(Debug)]
pub enum DeviceSelectError {
    /// No listed device passes the criteria.
    NoMatches,
    /// More than one device passes; the count is attached.
    TooMany(usize),
}

fn entry_passes(d: &XinputEntry, vid: Option<u16>, pid: Option<u16>, f: &DeviceFilter) -> (r: bool)
    ensures
        r == device_passes(*d, vid, pid, *f),
{
    let vid_ok = match vid {
        Some(v) => d.usb_vid == v,
        None => true,
    };
    let pid_ok = match pid {
        Some(p) => d.usb_pid == p,
        None => true,
    };
    if vid_ok && pid_ok {
        filter_matches(f, d.name.as_str())
    } else {
        false
    }
}

/// Select the one device that passes the vendor id, product id and name
/// criteria.
///
/// Returns the device when exactly one passes; otherwise reports whether
/// none passed or how many did.
pub fn select_device(
    devs: Vec<XinputEntry>,
    vid: Option<u16>,
    pid: Option<u16>,
    f: &DeviceFilter,
) -> (r: Result<XinputEntry, DeviceSelectError>)
    ensures
        match r {
            Ok(d) => match_count(devs@, vid, pid, *f) == 1 && device_passes(d, vid, pid, *f)
                && exists|i: int| 0 <= i < devs@.len() && devs@[i] == d,
            Err(DeviceSelectError::NoMatches) => match_count(devs@, vid, pid, *f) == 0,
            Err(DeviceSelectError::TooMany(n)) => match_count(devs@, vid, pid, *f) == n && n > 1,
        },
{
    let n = devs.len();
    let mut count: usize = 0;
    let mut first: usize = 0;
    let mut i: usize = 0;
    while i < n
        invariant
            n == devs@.len(),
            i <= n,
            count == match_count(devs@.subrange(0, i as int), vid, pid, *f),
            count <= i,
            count > 0 ==> first < i && device_passes(devs@[first as int], vid, pid, *f),
        decreases n - i,
    {
        let p = entry_passes(&devs[i], vid, pid, f);
        proof {
            let pre = devs@.subrange(0, i as int);
            let pre1 = devs@.subrange(0, i as int + 1);
            assert(pre1.drop_last() =~= pre);
            assert(pre1.last() == devs@[i as int]);
        }
        if p {
            if count == 0 {
                first = i;
            }
            count = count + 1;
        }
        i = i + 1;
    }
    proof {
        assert(devs@.subrange(0, n as int) =~= devs@);
    }
    if count == 0 {
        Err(DeviceSelectError::NoMatches)
    } else if count > 1 {
        Err(DeviceSelectError::TooMany(count))
    } else {
        let ghost devs0 = devs@;
        let mut devs = devs;
        let d = devs.remove(first);
        proof {
            assert(d == devs0[first as int]);
            assert(0 <= first < devs0.len() && devs0[first as int] == d);
        }
        Ok(d)
    }
}

} // verus!
