use vstd::prelude::*;

pub mod text;
pub mod number;
pub mod x11;
pub mod path;
pub mod imaging;
pub mod idmap;
pub mod textmap;
pub mod thumbnails;
pub mod types;
pub mod apps;
pub mod windows_manager;
pub mod visibility;
pub mod pointer;
pub mod theme;
pub mod media;
pub mod clock;
pub mod power;
pub mod launch;
pub mod network;
pub mod bluetooth;
pub mod system;
pub mod audio;
pub mod custom_icons;
pub mod settings;
pub mod icons;
pub mod windows_apps;
pub mod windows_desktop;

verus! {

} // verus!
