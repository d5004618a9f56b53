//! Battery state and the power-saving profile, as UPower reports them.
use vstd::prelude::*;
use crate::text::{owned, str_eq};

verus! {

/// UPower's `Device.Type` value for a battery.
pub const DEVICE_TYPE_BATTERY: u32 = 2;

/// The battery as the interface shows it.
#[derive(Clone, Copy, Debug, PartialEq, Eq, Structural)]
pub struct BatteryState {
    /// Charge percentage, 0-100.
    pub level: u32,
    pub charging: bool,
    pub present: bool,
}

/// Whether UPower's charge state counts as "plugged in and gaining charge":
/// charging, fully charged and pending charge do; discharging, empty and
/// pending discharge do not; an unknown state falls back to whether the
/// system runs on mains power.
pub open spec fn charging_state(state: u32, on_battery: bool) -> bool {
    if state == 1 || state == 4 || state == 5 {
        true
    } else if state == 2 || state == 3 || state == 6 {
        false
    } else {
        !on_battery
    }
}

/// Map UPower's charge state to the flag the interface expects.
pub fn is_charging(state: u32, on_battery: bool) -> (r: bool)
    ensures
        r == charging_state(state, on_battery),
{
    match state {
        1 | 4 | 5 => true,
        2 | 3 | 6 => false,
        _ => !on_battery,
    }
}

/// A charge percentage as the interface shows it: at most 100.
pub open spec fn shown_level(level: u32) -> u32 {
    if level > 100 {
        100
    } else {
        level
    }
}

fn cap_level(level: u32) -> (r: u32)
    ensures
        r == shown_level(level),
{
    if level > 100 {
        100
    } else {
        level
    }
}

/// One UPower device, with the defaults UPower's absent properties take:
/// type 0, not present, level 0, state 0.
#[derive(Clone, Copy, Debug)]
pub struct DeviceReading {
    pub device_type: u32,
    pub present: bool,
    /// The charge percentage, rounded; shown capped at 100.
    pub level: u32,
    pub state: u32,
}

/// The composite battery UPower exposes for the whole system: `present` and
/// `level` are the properties as read (or the error reading them gave),
/// `state` is absent when it could not be read.
pub fn display_device_state(
    present: Result<bool, String>,
    level: Result<u32, String>,
    state: Option<u32>,
    on_battery: bool,
) -> (r: Result<BatteryState, String>)
    ensures
        match present {
            Err(e) => r == Err::<BatteryState, String>(e),
            Ok(false) => r matches Err(e) && e@ == "No battery is present"@,
            Ok(true) => match level {
                Err(e) => r == Err::<BatteryState, String>(e),
                Ok(l) => r == Ok::<BatteryState, String>(
                    BatteryState {
                        level: shown_level(l),
                        charging: charging_state(
                            match state {
                                Some(s) => s,
                                None => 0,
                            },
                            on_battery,
                        ),
                        present: true,
                    },
                ),
            },
        },
        r matches Ok(b) ==> b.level <= 100 && b.present,
{
    let present = match present {
        Ok(p) => p,
        Err(e) => return Err(e),
    };
    if !present {
        return Err(owned("No battery is present"));
    }
    let level = match level {
        Ok(l) => l,
        Err(e) => return Err(e),
    };
    let state = match state {
        Some(s) => s,
        None => 0,
    };
    Ok(BatteryState { level: cap_level(level), charging: is_charging(state, on_battery), present: true })
}

/// A device that is a battery and is present.
pub open spec fn is_battery(d: DeviceReading) -> bool {
    d.device_type == DEVICE_TYPE_BATTERY && d.present
}

/// What looking for the first real battery in `list` may return: the first
/// present battery's state, or, when there is none, the message saying so.
pub open spec fn battery_outcome(list: Seq<DeviceReading>, r: Result<BatteryState, String>) -> bool {
    match r {
        Ok(b) => exists|i: int|
            0 <= i < list.len() && is_battery(#[trigger] list[i]) && (forall|j: int|
                0 <= j < i ==> !is_battery(#[trigger] list[j])) && b == (BatteryState {
                level: shown_level(list[i].level),
                charging: charging_state(list[i].state, false),
                present: true,
            }),
        Err(e) => (forall|i: int| 0 <= i < list.len() ==> !is_battery(#[trigger] list[i]))
            && e@ == "No battery device is available"@,
    }
}

/// The same, when the listing itself may have failed: its error is passed on.
pub open spec fn enumerated_outcome(devices: Result<Vec<DeviceReading>, String>, r: Result<
    BatteryState,
    String,
>) -> bool {
    match devices {
        Err(e) => r == Err::<BatteryState, String>(e),
        Ok(list) => battery_outcome(list@, r),
    }
}

/// Fall back to the first real battery among the devices UPower lists, for
/// systems whose composite device reports none.
pub fn enumerated_battery(devices: Result<Vec<DeviceReading>, String>) -> (r: Result<
    BatteryState,
    String,
>)
    ensures
        enumerated_outcome(devices, r),
        r matches Ok(b) ==> b.level <= 100 && b.present,
{
    let ghost original = devices;
    let list = match devices {
        Ok(l) => l,
        Err(e) => return Err(e),
    };
    assert(original == Ok::<Vec<DeviceReading>, String>(list));
    let mut i: usize = 0;
    while i < list.len()
        invariant
            i <= list.len(),
            original == Ok::<Vec<DeviceReading>, String>(list),
            original == devices,
            forall|j: int| 0 <= j < i ==> !is_battery(#[trigger] list@[j]),
        decreases list.len() - i,
    {
        let d = list[i];
        if d.device_type == DEVICE_TYPE_BATTERY && d.present {
            let b = BatteryState { level: cap_level(d.level), charging: is_charging(d.state, false), present: true };
            assert(is_battery(list@[i as int]));
            assert(b == (BatteryState {
                level: shown_level(list@[i as int].level),
                charging: charging_state(list@[i as int].state, false),
                present: true,
            }));
            assert(battery_outcome(list@, Ok(b)));
            return Ok(b);
        }
        i = i + 1;
    }
    let r = Err(owned("No battery device is available"));
    assert(battery_outcome(list@, r));
    r
}

/// The battery state: the composite device when it reports a battery
/// (`present`, `level`, `charge` and `on_battery` are its readings, as for
/// `display_device_state`), otherwise the first real battery UPower lists.
pub fn state(
    present: Result<bool, String>,
    level: Result<u32, String>,
    charge: Option<u32>,
    on_battery: bool,
    devices: Result<Vec<DeviceReading>, String>,
) -> (r: Result<BatteryState, String>)
    ensures
        (present matches Ok(true) && level is Ok) ==> r == Ok::<BatteryState, String>(
            BatteryState {
                level: shown_level(level->Ok_0),
                charging: charging_state(
                    match charge {
                        Some(s) => s,
                        None => 0,
                    },
                    on_battery,
                ),
                present: true,
            },
        ),
        !(present matches Ok(true) && level is Ok) ==> enumerated_outcome(devices, r),
        r matches Ok(b) ==> b.level <= 100 && b.present,
{
    match display_device_state(present, level, charge, on_battery) {
        Ok(b) => Ok(b),
        Err(_) => enumerated_battery(devices),
    }
}

/// Whether the desktop's active power profile is the power-saving one.
pub fn power_saver_enabled(active_profile: &str) -> (r: bool)
    ensures
        r == (active_profile@ == "power-saver"@),
{
    str_eq(active_profile, "power-saver")
}

} // verus!
