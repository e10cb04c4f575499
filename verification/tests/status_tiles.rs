use coconut::status::{battery_tile, bluetooth_tile, wifi_tile, StatusTile};

fn tile(title: &str, icon: &'static str, caption: &'static str) -> StatusTile {
    StatusTile { title: title.to_owned(), icon, caption }
}

#[test]
fn wifi_tile_follows_the_radio_and_the_connection() {
    assert_eq!(
        wifi_tile(true, true, Some("home".to_owned()), Some(60)),
        tile("home", "wifi-good", "Connected")
    );
    assert_eq!(wifi_tile(true, false, None, None), tile("No network", "wifi-excellent", "Disconnected"));
    assert_eq!(wifi_tile(false, true, Some("home".to_owned()), Some(10)), tile("Off", "wifi-slash", "Radio off"));
    assert_eq!(wifi_tile(true, true, Some("cafe".to_owned()), Some(10)).icon, "wifi-weak");
}

#[test]
fn bluetooth_tile_names_the_connected_device() {
    assert_eq!(
        bluetooth_tile(true, true, Some("Headphones".to_owned())),
        tile("Headphones", "bluetooth-connected", "Connected")
    );
    assert_eq!(bluetooth_tile(true, true, None), tile("Connected", "bluetooth-connected", "Connected"));
    assert_eq!(bluetooth_tile(true, false, Some("x".to_owned())), tile("On", "bluetooth-on", "Available"));
    assert_eq!(bluetooth_tile(false, true, None), tile("Off", "bluetooth-off", "Powered off"));
}

#[test]
fn battery_tile_shows_charge_and_charging() {
    assert_eq!(battery_tile(Some(85), false), tile("85%", "battery-full", ""));
    assert_eq!(battery_tile(Some(80), false).icon, "battery-full");
    assert_eq!(battery_tile(Some(79), false).icon, "battery-mid");
    assert_eq!(battery_tile(Some(50), false).icon, "battery-mid");
    assert_eq!(battery_tile(Some(49), false).icon, "battery-low");
    assert_eq!(battery_tile(Some(20), false).icon, "battery-low");
    assert_eq!(battery_tile(Some(19), false).icon, "battery-empty");
    assert_eq!(battery_tile(Some(5), true), tile("5%", "battery-bolt", "(Charging)"));
    assert_eq!(battery_tile(None, false), tile("--", "battery-empty", "(Unavailable)"));
    assert_eq!(battery_tile(None, true), tile("--", "battery-bolt", "(Unavailable)"));
    assert_eq!(battery_tile(Some(100), false).title, "100%");
    assert_eq!(battery_tile(Some(0), false).title, "0%");
}
