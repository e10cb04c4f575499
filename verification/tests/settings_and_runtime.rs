use coconut::api::ChangeListener;
use coconut::debounce::{burst_step, BurstAction, BurstEvent};
use coconut::config::{
    AppearanceConfig, ClickAction, ClockWidgetConfig, DesktopColor, IconShape, ToggleWidgetConfig, WallpaperMode,
    WidgetsConfig,
};
use coconut::dock::{DockLayout, IslandEntry, SectionConfig};
use coconut::nav::{DockTab, PanelView};
use coconut::runtime::config_reaction;
use std::sync::mpsc;

fn docks_with_weather(shown: bool) -> Vec<DockLayout> {
    let mut section = SectionConfig::default();
    section.islands.push(IslandEntry::with_id("weather"));
    section.enabled = shown;
    vec![DockLayout { enabled: true, sections: vec![section] }]
}

#[test]
fn configuration_defaults() {
    let appearance = AppearanceConfig::default();
    assert_eq!(appearance.icon_theme, "hicolor");
    assert_eq!(appearance.sound_theme, "freedesktop");
    assert_eq!(WallpaperMode::default(), WallpaperMode::Image);
    assert_eq!(DesktopColor::default(), DesktopColor { r: 29, g: 37, b: 48 });
    assert_eq!(DesktopColor::icon_background(), DesktopColor { r: 59, g: 126, b: 193 });
    assert_eq!(IconShape::default(), IconShape::Rounded);
    assert_eq!(ClickAction::default(), ClickAction::Select);
    assert!(ToggleWidgetConfig::default().enabled);
    assert_eq!(ClockWidgetConfig::default().format, "%H:%M");
    let widgets = WidgetsConfig::default();
    assert!(widgets.weather.enabled && widgets.current_playing.enabled && widgets.app_launcher.enabled);
    assert!(widgets.control_center.enabled && widgets.clock.enabled);
}

#[test]
fn tabs_and_views_compare_by_variant() {
    assert_ne!(DockTab::Display, DockTab::Content);
    assert_eq!(PanelView::Bluetooth, PanelView::Bluetooth);
}

#[test]
fn a_new_configuration_reloads_only_what_changed() {
    let hidden = docks_with_weather(false);
    let shown = docks_with_weather(true);
    let reaction = config_reaction(&hidden, &shown, true, "hicolor", "hicolor");
    assert!(!reaction.reload_icons);
    assert!(reaction.refresh_weather);
    assert!(reaction.rebuild_docks);
    let reaction = config_reaction(&shown, &shown, false, "hicolor", "breeze");
    assert!(reaction.reload_icons);
    assert!(!reaction.refresh_weather);
    assert!(!reaction.rebuild_docks);
    let reaction = config_reaction(&shown, &hidden, true, "breeze", "breeze");
    assert!(!reaction.refresh_weather);
}

#[test]
fn change_listeners_wake_per_change_until_the_sender_leaves() {
    let (sender, receiver) = mpsc::channel();
    let listener = ChangeListener::new(receiver);
    let other = listener.clone();
    sender.send(()).unwrap();
    sender.send(()).unwrap();
    assert!(listener.wait());
    assert!(other.wait());
    drop(sender);
    assert!(!listener.wait());
}

#[test]
fn a_burst_of_updates_publishes_only_its_last_value() {
    let (pending, action) = burst_step(None, BurstEvent::Arrived(1));
    assert_eq!(action, BurstAction::Wait);
    let (pending, action) = burst_step(pending, BurstEvent::Arrived(2));
    assert_eq!(action, BurstAction::Wait);
    let (pending, action) = burst_step(pending, BurstEvent::Arrived(3));
    assert_eq!(action, BurstAction::Wait);
    let (pending, action) = burst_step(pending, BurstEvent::Quiet);
    assert_eq!(action, BurstAction::Publish(3));
    assert_eq!(pending, None);
    let (pending, action) = burst_step(pending, BurstEvent::Quiet);
    assert_eq!(action, BurstAction::Wait);
    let (pending, action) = burst_step(pending, BurstEvent::Arrived(4));
    assert_eq!(action, BurstAction::Wait);
    let (pending, action) = burst_step(pending, BurstEvent::Closed);
    assert_eq!(action, BurstAction::Finish(Some(4)));
    assert_eq!(pending, None);
    let (_, action) = burst_step(None::<u8>, BurstEvent::Closed);
    assert_eq!(action, BurstAction::Finish(None));
}
