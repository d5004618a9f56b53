//! Wi-Fi state through NetworkManager: what its replies mean for the
//! interface, and where its settings live.
use vstd::prelude::*;
use crate::text::prefixed;
use crate::launch::{Launch, launch, launch_views};

verus! {

/// The message for a system bus that cannot be reached.
pub fn bus_unreachable(detail: &str) -> (r: String)
    ensures
        r@ == "Cannot reach the system bus: "@ + detail@,
{
    prefixed("Cannot reach the system bus: ", detail)
}

/// Whether Wi-Fi is actually usable: the software switch as read, and the
/// hardware kill switch, which counts as on when it cannot be read.
pub fn wifi_enabled(enabled: Result<bool, String>, hardware: Option<bool>) -> (r: Result<bool, String>)
    ensures
        match enabled {
            Ok(on) => r == Ok::<bool, String>(on && hardware != Some(false)),
            Err(e) => r matches Err(m) && m@ == "NetworkManager Wi-Fi state is unavailable: "@ + e@,
        },
{
    match enabled {
        Ok(on) => {
            let hardware_on = match hardware {
                Some(h) => h,
                None => true,
            };
            Ok(on && hardware_on)
        },
        Err(e) => Err(prefixed("NetworkManager Wi-Fi state is unavailable: ", e.as_str())),
    }
}

/// The outcome of switching Wi-Fi, with a refusal explained.
pub fn set_wifi_enabled(outcome: Result<(), String>) -> (r: Result<(), String>)
    ensures
        outcome is Ok ==> r is Ok,
        outcome matches Err(e) ==> (r matches Err(m) && m@
            == "NetworkManager refused the Wi-Fi change (authorization may be required): "@ + e@),
{
    match outcome {
        Ok(()) => Ok(()),
        Err(e) => Err(
            prefixed(
                "NetworkManager refused the Wi-Fi change (authorization may be required): ",
                e.as_str(),
            ),
        ),
    }
}

/// Cinnamon's network settings, falling back to the connection editor.
pub fn open_settings() -> (r: Vec<Launch>)
    ensures
        launch_views(r@) == seq![
            ("cinnamon-settings"@, seq!["network"@]),
            ("nm-connection-editor"@, Seq::<Seq<char>>::empty()),
        ],
{
    let mut r: Vec<Launch> = Vec::new();
    r.push(launch("cinnamon-settings", &["network"]));
    r.push(launch("nm-connection-editor", &[]));
    proof {
        let v = launch_views(r@);
        assert(v[0].1 =~= seq!["network"@]);
        assert(v[1].1 =~= Seq::<Seq<char>>::empty());
    }
    assert(launch_views(r@) =~= seq![
        ("cinnamon-settings"@, seq!["network"@]),
        ("nm-connection-editor"@, Seq::<Seq<char>>::empty()),
    ]);
    r
}

} // verus!
