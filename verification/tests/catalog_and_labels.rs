use coconut::api::battery::{self, BatteryIntegration};
use coconut::api::bluetooth::{self, BluetoothIntegration};
use coconut::api::wifi_strength_icon;
use coconut::geo::{
    countries, country_name, is_country, is_region, region_name, regions, GeoCatalog, GeoEntry, RegionEntry,
};
use coconut::nav::{
    category_default, decimal_text, dock_label, is_kde_session, page_title, title_case, widget_label, Section,
};
use coconut::shortcuts::{shortcut_text, ShortcutKey, ShortcutModifiers};

fn catalog() -> GeoCatalog {
    GeoCatalog {
        countries: vec![
            GeoEntry { code: "FR".to_owned(), name: "France".to_owned() },
            GeoEntry { code: "DE".to_owned(), name: "Germany".to_owned() },
            GeoEntry { code: "NL".to_owned(), name: "Netherlands".to_owned() },
        ],
        regions: vec![
            RegionEntry { code: "FR-IDF".to_owned(), country: "FR".to_owned(), name: "Île-de-France".to_owned() },
            RegionEntry { code: "FR-BRE".to_owned(), country: "FR".to_owned(), name: "Bretagne".to_owned() },
            RegionEntry { code: "DE-BY".to_owned(), country: "DE".to_owned(), name: "Bayern".to_owned() },
        ],
    }
}

fn codes<'a>(entries: &[&'a GeoEntry]) -> Vec<&'a str> {
    entries.iter().map(|entry| entry.code.as_str()).collect()
}

#[test]
fn country_search_ignores_case_and_matches_codes() {
    let catalog = catalog();
    assert_eq!(codes(&countries(&catalog, "")), vec!["FR", "DE", "NL"]);
    assert_eq!(codes(&countries(&catalog, "GER")), vec!["DE"]);
    assert_eq!(codes(&countries(&catalog, "nl")), vec!["NL"]);
    assert_eq!(codes(&countries(&catalog, "an")), vec!["FR", "DE", "NL"]);
    assert!(countries(&catalog, "xyz").is_empty());
}

#[test]
fn region_search_stays_within_the_country() {
    let catalog = catalog();
    let french: Vec<&str> = regions(&catalog, "FR", "").iter().map(|r| r.code.as_str()).collect();
    assert_eq!(french, vec!["FR-IDF", "FR-BRE"]);
    let found: Vec<&str> = regions(&catalog, "FR", "bre").iter().map(|r| r.code.as_str()).collect();
    assert_eq!(found, vec!["FR-BRE"]);
    assert!(regions(&catalog, "NL", "").is_empty());
    assert!(regions(&catalog, "fr", "").is_empty());
}

#[test]
fn codes_resolve_to_names_exactly() {
    let catalog = catalog();
    assert!(is_country(&catalog, "DE"));
    assert!(!is_country(&catalog, "de"));
    assert!(is_region(&catalog, "DE-BY"));
    assert!(!is_region(&catalog, "DE"));
    assert_eq!(country_name(&catalog, "NL"), Some("Netherlands"));
    assert_eq!(country_name(&catalog, "XX"), None);
    assert_eq!(region_name(&catalog, "FR-IDF"), Some("Île-de-France"));
    assert_eq!(region_name(&catalog, "FR"), None);
}

#[test]
fn categories_open_their_first_page() {
    assert_eq!(category_default(Section::Appearance), Section::Theme);
    assert_eq!(category_default(Section::Panels), Section::Dock(0));
    assert_eq!(category_default(Section::Users), Section::Profile);
    assert_eq!(category_default(Section::Mouse), Section::Mouse);
    assert_eq!(category_default(Section::User("ada".to_owned())), Section::User("ada".to_owned()));
}

#[test]
fn docks_are_labelled_by_name_or_number() {
    assert_eq!(dock_label(0, &None), "Panel 1");
    assert_eq!(dock_label(11, &None), "Panel 12");
    assert_eq!(dock_label(3, &Some("Top bar".to_owned())), "Top bar");
    assert_eq!(decimal_text(0), "0");
    assert_eq!(decimal_text(4096), "4096");
}

#[test]
fn page_titles_follow_the_section() {
    let names = vec![None, Some("Side".to_owned())];
    assert_eq!(page_title(&Section::Dock(0), &names), "Panel 1");
    assert_eq!(page_title(&Section::Dock(1), &names), "Side");
    assert_eq!(page_title(&Section::Dock(5), &names), "Panel");
    assert_eq!(page_title(&Section::IconPack, &names), "Icons");
    assert_eq!(page_title(&Section::Appearance, &names), "Settings");
    assert_eq!(page_title(&Section::User("ada".to_owned()), &names), "ada");
}

#[test]
fn widgets_have_labels_and_themes_have_titles() {
    assert_eq!(widget_label("current_playing"), "Now playing");
    assert_eq!(widget_label("clock"), "Clock");
    assert_eq!(widget_label("custom"), "custom");
    assert_eq!(title_case("breeze-dark"), "Breeze-dark");
    assert_eq!(title_case("ßig"), "SSig");
    assert_eq!(title_case(""), "");
}

#[test]
fn kde_sessions_are_recognised_from_any_variable() {
    assert!(is_kde_session(&vec!["GNOME".to_owned(), "KDE".to_owned()]));
    assert!(is_kde_session(&vec!["Plasma-Wayland".to_owned()]));
    assert!(is_kde_session(&vec!["true kwin".to_owned()]));
    assert!(!is_kde_session(&vec!["GNOME".to_owned(), "sway".to_owned()]));
    assert!(!is_kde_session(&Vec::new()));
}

#[test]
fn shortcuts_need_a_modifier_and_a_known_key() {
    let ctrl_shift = ShortcutModifiers { ctrl: true, alt: false, shift: true, logo: false };
    let all = ShortcutModifiers { ctrl: true, alt: true, shift: true, logo: true };
    let none = ShortcutModifiers { ctrl: false, alt: false, shift: false, logo: false };
    assert_eq!(shortcut_text(ShortcutKey::Char('t'), ctrl_shift), Some("Ctrl+Shift+T".to_owned()));
    assert_eq!(shortcut_text(ShortcutKey::Enter, all), Some("Ctrl+Alt+Shift+Super+Return".to_owned()));
    assert_eq!(shortcut_text(ShortcutKey::Escape, ctrl_shift), Some("Ctrl+Shift+Escape".to_owned()));
    assert_eq!(shortcut_text(ShortcutKey::Char('t'), none), None);
    assert_eq!(shortcut_text(ShortcutKey::Other, all), None);
}

#[test]
fn wifi_strength_maps_to_four_icons() {
    assert_eq!(wifi_strength_icon(100), "wifi-excellent");
    assert_eq!(wifi_strength_icon(75), "wifi-excellent");
    assert_eq!(wifi_strength_icon(74), "wifi-good");
    assert_eq!(wifi_strength_icon(50), "wifi-good");
    assert_eq!(wifi_strength_icon(25), "wifi-fair");
    assert_eq!(wifi_strength_icon(24), "wifi-weak");
    assert_eq!(wifi_strength_icon(0), "wifi-weak");
}

#[test]
fn fallback_integrations_report_nothing() {
    let battery = battery::Fallback;
    assert_eq!(battery.percentage(), None);
    assert!(!battery.charging());
    assert!(battery.changes().is_none());
    let bluetooth = bluetooth::Fallback;
    assert!(!bluetooth.powered());
    assert!(!bluetooth.connected());
    assert_eq!(bluetooth.device_name(), None);
    assert!(bluetooth.devices().is_empty());
    assert!(!bluetooth.scanning());
    bluetooth.set_powered(true);
    assert!(!bluetooth.powered());
}

#[test]
fn longer_and_upper_case_queries_narrow_or_keep_the_results() {
    let catalog = catalog();
    for query in ["an", "e", "fr", "Ger", ""] {
        assert_eq!(
            codes(&countries(&catalog, &query.to_ascii_uppercase())),
            codes(&countries(&catalog, query))
        );
    }
    let shorter = codes(&countries(&catalog, "an"));
    let longer = codes(&countries(&catalog, "ance"));
    assert_eq!(longer, vec!["FR"]);
    assert!(longer.iter().all(|code| shorter.contains(code)));
}

#[test]
fn known_codes_match_the_catalog_exactly() {
    let catalog = catalog();
    for code in ["FR", "DE", "NL", "fr", "XX", ""] {
        let listed = catalog.countries.iter().any(|entry| entry.code == code);
        assert_eq!(is_country(&catalog, code), listed);
        assert_eq!(country_name(&catalog, code).is_some(), listed);
        if listed {
            assert!(countries(&catalog, code).iter().any(|entry| entry.code == code));
        }
    }
}
