//! Bluetooth through BlueZ: finding the adapter among the objects BlueZ
//! manages, what its replies mean, and where its settings live.
use vstd::prelude::*;
use crate::text::{prefixed, owned, str_eq};
use crate::launch::{Launch, launch, launch_views};

verus! {

/// An object BlueZ manages: its path and the interfaces it implements.
pub struct ManagedObject {
    pub path: String,
    pub interfaces: Vec<String>,
}

/// Whether an object implements BlueZ's adapter interface.
pub open spec fn is_adapter(o: ManagedObject) -> bool {
    exists|k: int| 0 <= k < o.interfaces@.len() && #[trigger] o.interfaces@[k]@ == "org.bluez.Adapter1"@
}

fn implements_adapter(o: &ManagedObject) -> (r: bool)
    ensures
        r == is_adapter(*o),
{
    let mut k: usize = 0;
    while k < o.interfaces.len()
        invariant
            k <= o.interfaces.len(),
            forall|j: int| 0 <= j < k ==> o.interfaces@[j]@ != "org.bluez.Adapter1"@,
        decreases o.interfaces.len() - k,
    {
        if str_eq(o.interfaces[k].as_str(), "org.bluez.Adapter1") {
            return true;
        }
        k = k + 1;
    }
    false
}

/// The message for BlueZ not answering at all.
pub fn bluez_unavailable(detail: &str) -> (r: String)
    ensures
        r@ == "BlueZ is unavailable: "@ + detail@,
{
    prefixed("BlueZ is unavailable: ", detail)
}

/// What looking for the adapter among `list` may return: the path of the
/// first adapter, or, when there is none, the message saying so.
pub open spec fn adapter_outcome(list: Seq<ManagedObject>, r: Result<String, String>) -> bool {
    match r {
        Ok(p) => exists|i: int|
            0 <= i < list.len() && is_adapter(#[trigger] list[i]) && (forall|j: int|
                0 <= j < i ==> !is_adapter(#[trigger] list[j])) && p@ == list[i].path@,
        Err(m) => (forall|i: int| 0 <= i < list.len() ==> !is_adapter(#[trigger] list[i]))
            && m@ == "No Bluetooth adapter was found"@,
    }
}

/// BlueZ's adapter path, normally `/org/bluez/hciN`: the first listed object
/// that is an adapter. `objects` is BlueZ's `GetManagedObjects` reply in the
/// order it was walked, or the error the call gave.
pub fn adapter_path(objects: Result<Vec<ManagedObject>, String>) -> (r: Result<String, String>)
    ensures
        match objects {
            Err(e) => r matches Err(m) && m@ == "BlueZ did not report its objects: "@ + e@,
            Ok(list) => adapter_outcome(list@, r),
        },
{
    let ghost original = objects;
    let list = match objects {
        Ok(l) => l,
        Err(e) => return Err(prefixed("BlueZ did not report its objects: ", e.as_str())),
    };
    let mut i: usize = 0;
    while i < list.len()
        invariant
            i <= list.len(),
            original == Ok::<Vec<ManagedObject>, String>(list),
            original == objects,
            forall|j: int| 0 <= j < i ==> !is_adapter(#[trigger] list@[j]),
        decreases list.len() - i,
    {
        if implements_adapter(&list[i]) {
            let p = owned(list[i].path.as_str());
            assert(is_adapter(list@[i as int]));
            assert(adapter_outcome(list@, Ok(p)));
            return Ok(p);
        }
        i = i + 1;
    }
    let r = Err(owned("No Bluetooth adapter was found"));
    assert(adapter_outcome(list@, r));
    r
}

/// Whether the adapter is powered, as read.
pub fn enabled(powered: Result<bool, String>) -> (r: Result<bool, String>)
    ensures
        powered is Ok ==> r == powered,
        powered matches Err(e) ==> (r matches Err(m) && m@ == "Bluetooth power state is unavailable: "@
            + e@),
{
    match powered {
        Ok(on) => Ok(on),
        Err(e) => Err(prefixed("Bluetooth power state is unavailable: ", e.as_str())),
    }
}

/// The outcome of powering the adapter on or off, with a refusal explained.
pub fn set_enabled(outcome: Result<(), String>) -> (r: Result<(), String>)
    ensures
        outcome is Ok ==> r is Ok,
        outcome matches Err(e) ==> (r matches Err(m) && m@
            == "BlueZ refused the Bluetooth change (authorization may be required): "@ + e@),
{
    match outcome {
        Ok(()) => Ok(()),
        Err(e) => Err(
            prefixed("BlueZ refused the Bluetooth change (authorization may be required): ", e.as_str()),
        ),
    }
}

/// Blueman, falling back to Cinnamon's Bluetooth panel.
pub fn open_settings() -> (r: Vec<Launch>)
    ensures
        launch_views(r@) == seq![
            ("blueman-manager"@, Seq::<Seq<char>>::empty()),
            ("cinnamon-settings"@, seq!["bluetooth"@]),
        ],
{
    let mut r: Vec<Launch> = Vec::new();
    r.push(launch("blueman-manager", &[]));
    r.push(launch("cinnamon-settings", &["bluetooth"]));
    proof {
        let v = launch_views(r@);
        assert(v[0].1 =~= Seq::<Seq<char>>::empty());
        assert(v[1].1 =~= seq!["bluetooth"@]);
    }
    assert(launch_views(r@) =~= seq![
        ("blueman-manager"@, Seq::<Seq<char>>::empty()),
        ("cinnamon-settings"@, seq!["bluetooth"@]),
    ]);
    r
}

/// Cinnamon has no airplane-mode panel, so the network panel, where the
/// radios are controlled, stands in for it. Radios are never blocked here,
/// because that needs root.
pub fn open_airplane_mode_settings() -> (r: Vec<Launch>)
    ensures
        launch_views(r@) == seq![("cinnamon-settings"@, seq!["network"@])],
{
    crate::launch::cinnamon_panel("network")
}

} // verus!
