//! The control center's status tiles: what the Wi-Fi, Bluetooth and
//! battery tiles show for the state their integrations report.

use vstd::prelude::*;

use crate::api::{spec_wifi_strength_icon, wifi_strength_icon};
use crate::nav::{decimal, decimal_text};

verus! {

/// What a status tile shows: a title, an icon name and a caption.
#[derive(Debug, Clone, PartialEq, Eq)]
pub struct StatusTile {
    pub title: String,
    pub icon: &'static str,
    pub caption: &'static str,
}

/// The Wi-Fi tile: the network's name (or `No network`) while the radio is
/// on, `Off` otherwise; the signal icon (full strength when unknown) or a
/// crossed-out icon; and whether a network is connected.
pub open spec fn wifi_tile_spec(enabled: bool, connected: bool, name: Option<Seq<char>>, strength: Option<u8>) -> (
    Seq<char>,
    Seq<char>,
    Seq<char>,
) {
    let title = if enabled {
        match name {
            Some(name) => name,
            None => "No network"@,
        }
    } else {
        "Off"@
    };
    let icon = if !enabled {
        "wifi-slash"@
    } else {
        spec_wifi_strength_icon(
            match strength {
                Some(s) => s,
                None => 100u8,
            },
        )
    };
    let caption = if enabled && connected {
        "Connected"@
    } else if enabled {
        "Disconnected"@
    } else {
        "Radio off"@
    };
    (title, icon, caption)
}

/// The Wi-Fi tile for a radio that is `enabled` or not, a network that is
/// `connected` or not, the network's name and its signal strength.
pub fn wifi_tile(enabled: bool, connected: bool, name: Option<String>, strength: Option<u8>) -> (tile: StatusTile)
    ensures
        (tile.title@, tile.icon@, tile.caption@) == wifi_tile_spec(
            enabled,
            connected,
            match name {
                Some(n) => Some(n@),
                None => None,
            },
            strength,
        ),
{
    let title = if enabled {
        match name {
            Some(name) => name,
            None => "No network".to_owned(),
        }
    } else {
        "Off".to_owned()
    };
    let icon = if !enabled {
        "wifi-slash"
    } else {
        wifi_strength_icon(
            match strength {
                Some(s) => s,
                None => 100,
            },
        )
    };
    let caption = if enabled && connected {
        "Connected"
    } else if enabled {
        "Disconnected"
    } else {
        "Radio off"
    };
    StatusTile { title, icon, caption }
}

/// The Bluetooth tile: with a device connected, its name (or `Connected`);
/// with the adapter on, `On`; otherwise `Off`, with matching icons and
/// captions.
pub open spec fn bluetooth_tile_spec(powered: bool, connected: bool, device: Option<Seq<char>>) -> (
    Seq<char>,
    Seq<char>,
    Seq<char>,
) {
    if powered && connected {
        (
            match device {
                Some(name) => name,
                None => "Connected"@,
            },
            "bluetooth-connected"@,
            "Connected"@,
        )
    } else if powered {
        ("On"@, "bluetooth-on"@, "Available"@)
    } else {
        ("Off"@, "bluetooth-off"@, "Powered off"@)
    }
}

/// The Bluetooth tile for an adapter that is `powered` or not, a device
/// that is `connected` or not, and the connected device's name.
pub fn bluetooth_tile(powered: bool, connected: bool, device: Option<String>) -> (tile: StatusTile)
    ensures
        (tile.title@, tile.icon@, tile.caption@) == bluetooth_tile_spec(
            powered,
            connected,
            match device {
                Some(n) => Some(n@),
                None => None,
            },
        ),
{
    if powered && connected {
        let title = match device {
            Some(name) => name,
            None => "Connected".to_owned(),
        };
        StatusTile { title, icon: "bluetooth-connected", caption: "Connected" }
    } else if powered {
        StatusTile { title: "On".to_owned(), icon: "bluetooth-on", caption: "Available" }
    } else {
        StatusTile { title: "Off".to_owned(), icon: "bluetooth-off", caption: "Powered off" }
    }
}

/// The battery icon: a bolt while charging, otherwise by charge (an unknown
/// charge counting as empty): full from 80, mid from 50, low from 20.
pub open spec fn battery_icon_spec(percent: Option<u8>, charging: bool) -> Seq<char> {
    let level = match percent {
        Some(p) => p,
        None => 0u8,
    };
    if charging {
        "battery-bolt"@
    } else if level >= 80 {
        "battery-full"@
    } else if level >= 50 {
        "battery-mid"@
    } else if level >= 20 {
        "battery-low"@
    } else {
        "battery-empty"@
    }
}

/// The battery tile: the charge as `<n>%` (or `--` when unknown), the
/// battery icon, and a caption for an unknown or charging battery.
pub open spec fn battery_tile_spec(percent: Option<u8>, charging: bool) -> (Seq<char>, Seq<char>, Seq<char>) {
    let value = match percent {
        Some(p) => decimal(p as nat).push('%'),
        None => "--"@,
    };
    let caption = if percent is None {
        "(Unavailable)"@
    } else if charging {
        "(Charging)"@
    } else {
        ""@
    };
    (value, battery_icon_spec(percent, charging), caption)
}

/// The battery tile for the charge in percent, if known, and whether the
/// battery is charging.
pub fn battery_tile(percent: Option<u8>, charging: bool) -> (tile: StatusTile)
    ensures
        (tile.title@, tile.icon@, tile.caption@) == battery_tile_spec(percent, charging),
{
    let level: u8 = match percent {
        Some(p) => p,
        None => 0,
    };
    let icon = if charging {
        "battery-bolt"
    } else if level >= 80 {
        "battery-full"
    } else if level >= 50 {
        "battery-mid"
    } else if level >= 20 {
        "battery-low"
    } else {
        "battery-empty"
    };
    let title = match percent {
        Some(p) => {
            let mut text = decimal_text(p as usize);
            text.append("%");
            proof {
                reveal_strlit("%");
            }
            assert(text@ =~= decimal(p as nat).push('%'));
            text
        },
        None => "--".to_owned(),
    };
    let caption = if percent.is_none() {
        "(Unavailable)"
    } else if charging {
        "(Charging)"
    } else {
        ""
    };
    StatusTile { title, icon, caption }
}

} // verus!
