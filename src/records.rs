use vstd::prelude::*;
use crate::normalize::{backslash, lemma_normalize_idempotent, normalize, normalized};

verus! {

/// What was read from one device: its raw identifier, its friendly name and
/// its brightness, each either obtained or failed with the system's text.
#[derive(Debug, PartialEq, Eq)]
pub struct DeviceProbe {
    pub device_name: Result<String, String>,
    pub display_name: Result<Option<String>, String>,
    pub brightness: Result<u32, String>,
}

/// One entry of a device listing.
#[derive(Debug, Clone, PartialEq, Eq)]
pub struct DeviceRecord {
    pub device_name: String,
    pub friendly_name: Option<String>,
    pub current_brightness: Option<u32>,
}

/// Stands in for a name that could not be read.
pub open spec fn unknown_device() -> Seq<char> {
    "Unknown Device"@
}

pub open spec fn option_view(o: Option<String>) -> Option<Seq<char>> {
    match o {
        Some(s) => Some(s@),
        None => None,
    }
}

/// The raw identifier of a probed device, or the placeholder.
pub open spec fn raw_identifier(p: DeviceProbe) -> Seq<char> {
    match p.device_name {
        Ok(n) => n@,
        Err(_) => unknown_device(),
    }
}

/// The friendly name of a probed device: as reported (possibly absent), or
/// the placeholder when the query failed.
pub open spec fn friendly_name_of(p: DeviceProbe) -> Option<Seq<char>> {
    match p.display_name {
        Ok(n) => option_view(n),
        Err(_) => Some(unknown_device()),
    }
}

/// The brightness of a probed device, absent when the read failed.
pub open spec fn brightness_of(p: DeviceProbe) -> Option<u32> {
    match p.brightness {
        Ok(v) => Some(v),
        Err(_) => None,
    }
}

/// `r` is the listing entry of the device probed as `p`.
pub open spec fn is_record_of(r: DeviceRecord, p: DeviceProbe) -> bool {
    &&& r.device_name@ == normalized(raw_identifier(p))
    &&& option_view(r.friendly_name) == friendly_name_of(p)
    &&& r.current_brightness == brightness_of(p)
}

fn clone_option(o: &Option<String>) -> (r: Option<String>)
    ensures
        option_view(r) == option_view(*o),
{
    match o {
        Some(s) => Some(s.clone()),
        None => None,
    }
}

/// The listing entry of one device; each field is filled in on its own, so a
/// failure in one does not affect the others.
pub fn device_record(p: &DeviceProbe) -> (r: DeviceRecord)
    ensures
        is_record_of(r, *p),
{
    let device_name = match &p.device_name {
        Ok(n) => normalize(n.as_str()),
        Err(_) => normalize("Unknown Device"),
    };
    let friendly_name = match &p.display_name {
        Ok(n) => clone_option(n),
        Err(_) => Some(String::from_str("Unknown Device")),
    };
    let current_brightness = match &p.brightness {
        Ok(v) => Some(*v),
        Err(_) => None,
    };
    DeviceRecord { device_name, friendly_name, current_brightness }
}

/// The listing: one entry per device, in enumeration order. It never fails;
/// no devices give an empty listing.
pub fn device_records(probes: &Vec<DeviceProbe>) -> (r: Vec<DeviceRecord>)
    ensures
        r@.len() == probes@.len(),
        forall|i: int| 0 <= i < probes@.len() ==> is_record_of(#[trigger] r@[i], probes@[i]),
{
    let mut r: Vec<DeviceRecord> = Vec::new();
    let mut i: usize = 0;
    while i < probes.len()
        invariant
            i <= probes@.len(),
            r@.len() == i,
            forall|j: int| 0 <= j < i ==> is_record_of(#[trigger] r@[j], probes@[j]),
        decreases probes@.len() - i,
    {
        r.push(device_record(&probes[i]));
        i = i + 1;
    }
    r
}

/// A listing has one entry per device, in order; each entry's name is the
/// device's raw identifier normalised, so it holds no backslash; and where
/// every brightness read failed, every entry is still there, without a
/// brightness.
pub proof fn lemma_listing(probes: Seq<DeviceProbe>, records: Seq<DeviceRecord>)
    requires
        records.len() == probes.len(),
        forall|i: int| 0 <= i < probes.len() ==> is_record_of(#[trigger] records[i], probes[i]),
    ensures
        forall|i: int|
            0 <= i < probes.len() ==> #[trigger] records[i].device_name@ == normalized(
                raw_identifier(probes[i]),
            ) && !records[i].device_name@.contains(backslash()),
        (forall|i: int| 0 <= i < probes.len() ==> (#[trigger] probes[i]).brightness is Err) ==> (
        forall|i: int| 0 <= i < records.len() ==> (#[trigger] records[i]).current_brightness is None),
{
    assert forall|i: int| 0 <= i < probes.len() implies #[trigger] records[i].device_name@
        == normalized(raw_identifier(probes[i])) && !records[i].device_name@.contains(
        backslash(),
    ) by {
        assert(is_record_of(records[i], probes[i]));
        lemma_normalize_idempotent(raw_identifier(probes[i]));
    }
    if forall|i: int| 0 <= i < probes.len() ==> (#[trigger] probes[i]).brightness is Err {
        assert forall|i: int| 0 <= i < records.len() implies (
        #[trigger] records[i]).current_brightness is None by {
            assert(is_record_of(records[i], probes[i]));
            assert(probes[i].brightness is Err);
        }
    }
}

} // verus!
