//! Rules of the inventory database that do not need the database.
use vstd::prelude::*;
use crate::text::{chars_of, equals_text};
use crate::authgate::form::pairs_view;
use crate::sync::ccu::CcuDevice;
use crate::sync::hue::HueDevice;
use crate::sync::shelly::ShellyDevice;

verus! {

/// A firmware snapshot is written for a known device whose firmware differs
/// from its latest snapshot, or that has none yet.
pub open spec fn snapshot_due(device_known: bool, latest: Option<Seq<char>>, firmware: Seq<char>) -> bool {
    device_known && latest != Some(firmware)
}

/// Whether a firmware snapshot is to be written (see `snapshot_due`), given
/// whether the device is in the inventory and its latest recorded firmware.
pub fn firmware_change_due(device_known: bool, latest: Option<&str>, firmware: &str) -> (r: bool)
    ensures
        r == snapshot_due(
            device_known,
            match latest {
                Some(l) => Some(l@),
                None => None,
            },
            firmware@,
        ),
{
    if !device_known {
        return false;
    }
    match latest {
        Some(l) => !equals_text(chars_of(l).as_slice(), firmware),
        None => true,
    }
}

/// The CCU devices that report a firmware, as (address, firmware), in order.
pub open spec fn ccu_firmware(v: Seq<CcuDevice>) -> Seq<(Seq<char>, Seq<char>)>
    decreases v.len(),
{
    if v.len() == 0 {
        Seq::empty()
    } else if v.last().firmware@.len() > 0 {
        ccu_firmware(v.drop_last()).push((v.last().address@, v.last().firmware@))
    } else {
        ccu_firmware(v.drop_last())
    }
}

/// The Shellys that report a firmware, as (MAC, firmware), in order.
pub open spec fn shelly_firmware(v: Seq<ShellyDevice>) -> Seq<(Seq<char>, Seq<char>)>
    decreases v.len(),
{
    if v.len() == 0 {
        Seq::empty()
    } else if v.last().firmware@.len() > 0 {
        shelly_firmware(v.drop_last()).push((v.last().mac@, v.last().firmware@))
    } else {
        shelly_firmware(v.drop_last())
    }
}

/// The Hue devices that report a software version, as (unique id, version),
/// in order.
pub open spec fn hue_firmware(v: Seq<HueDevice>) -> Seq<(Seq<char>, Seq<char>)>
    decreases v.len(),
{
    if v.len() == 0 {
        Seq::empty()
    } else {
        match v.last().swversion {
            Some(s) => hue_firmware(v.drop_last()).push((v.last().uniqueid@, s@)),
            None => hue_firmware(v.drop_last()),
        }
    }
}

/// The firmware readings of a CCU sync (see `ccu_firmware`).
pub fn ccu_firmware_readings(devices: &[CcuDevice]) -> (r: Vec<(String, String)>)
    ensures
        pairs_view(r@) == ccu_firmware(devices@),
{
    let mut out: Vec<(String, String)> = Vec::new();
    let mut i: usize = 0;
    while i < devices.len()
        invariant
            i <= devices@.len(),
            pairs_view(out@) == ccu_firmware(devices@.take(i as int)),
        decreases devices@.len() - i,
    {
        let d = &devices[i];
        let ghost before = out@;
        assert(devices@.take(i + 1).drop_last() =~= devices@.take(i as int));
        if !d.firmware.as_str().is_empty() {
            out.push((d.address.clone(), d.firmware.clone()));
            assert(pairs_view(out@) =~= pairs_view(before).push((d.address@, d.firmware@)));
        }
        i = i + 1;
    }
    assert(devices@.take(devices@.len() as int) =~= devices@);
    out
}

/// The firmware readings of a Shelly sync (see `shelly_firmware`).
pub fn shelly_firmware_readings(devices: &[ShellyDevice]) -> (r: Vec<(String, String)>)
    ensures
        pairs_view(r@) == shelly_firmware(devices@),
{
    let mut out: Vec<(String, String)> = Vec::new();
    let mut i: usize = 0;
    while i < devices.len()
        invariant
            i <= devices@.len(),
            pairs_view(out@) == shelly_firmware(devices@.take(i as int)),
        decreases devices@.len() - i,
    {
        let d = &devices[i];
        let ghost before = out@;
        assert(devices@.take(i + 1).drop_last() =~= devices@.take(i as int));
        if !d.firmware.as_str().is_empty() {
            out.push((d.mac.clone(), d.firmware.clone()));
            assert(pairs_view(out@) =~= pairs_view(before).push((d.mac@, d.firmware@)));
        }
        i = i + 1;
    }
    assert(devices@.take(devices@.len() as int) =~= devices@);
    out
}

/// The firmware readings of a Hue sync (see `hue_firmware`).
pub fn hue_firmware_readings(devices: &[HueDevice]) -> (r: Vec<(String, String)>)
    ensures
        pairs_view(r@) == hue_firmware(devices@),
{
    let mut out: Vec<(String, String)> = Vec::new();
    let mut i: usize = 0;
    while i < devices.len()
        invariant
            i <= devices@.len(),
            pairs_view(out@) == hue_firmware(devices@.take(i as int)),
        decreases devices@.len() - i,
    {
        let d = &devices[i];
        let ghost before = out@;
        assert(devices@.take(i + 1).drop_last() =~= devices@.take(i as int));
        match &d.swversion {
            Some(s) => {
                out.push((d.uniqueid.clone(), s.clone()));
                assert(pairs_view(out@) =~= pairs_view(before).push((d.uniqueid@, s@)));
            },
            None => {},
        }
        i = i + 1;
    }
    assert(devices@.take(devices@.len() as int) =~= devices@);
    out
}

} // verus!
