//! Shell configuration values that carry no geometry: appearance themes,
//! desktop background choices and per-widget switches, with their defaults.

use vstd::prelude::*;

verus! {

/// The freedesktop icon and sound themes the shell uses.
#[derive(Debug, Clone, PartialEq, Eq)]
pub struct AppearanceConfig {
    pub icon_theme: String,
    pub sound_theme: String,
}

impl Default for AppearanceConfig {
    fn default() -> (config: Self)
        ensures
            config.icon_theme@ == "hicolor"@,
            config.sound_theme@ == "freedesktop"@,
    {
        AppearanceConfig { icon_theme: "hicolor".to_owned(), sound_theme: "freedesktop".to_owned() }
    }
}

/// Whether the desktop shows a wallpaper image or a solid color.
#[derive(Debug, Clone, Copy, PartialEq, Eq, Structural)]
pub enum WallpaperMode {
    Image,
    SolidColor,
}

impl Default for WallpaperMode {
    fn default() -> (mode: Self)
        ensures
            mode == WallpaperMode::Image,
    {
        WallpaperMode::Image
    }
}

/// An RGB color.
#[derive(Debug, Clone, Copy, PartialEq, Eq, Structural)]
pub struct DesktopColor {
    pub r: u8,
    pub g: u8,
    pub b: u8,
}

impl Default for DesktopColor {
    fn default() -> (color: Self)
        ensures
            color == (DesktopColor { r: 29, g: 37, b: 48 }),
    {
        DesktopColor { r: 29, g: 37, b: 48 }
    }
}

impl DesktopColor {
    /// The default background of desktop icons.
    pub fn icon_background() -> (color: DesktopColor)
        ensures
            color == (DesktopColor { r: 59, g: 126, b: 193 }),
    {
        DesktopColor { r: 59, g: 126, b: 193 }
    }
}

/// The shape of a desktop icon's background.
#[derive(Debug, Clone, Copy, PartialEq, Eq, Structural)]
pub enum IconShape {
    Square,
    Rounded,
    Circle,
}

impl Default for IconShape {
    fn default() -> (shape: Self)
        ensures
            shape == IconShape::Rounded,
    {
        IconShape::Rounded
    }
}

/// What a single click on a desktop icon does; double-clicking always opens.
#[derive(Debug, Clone, Copy, PartialEq, Eq, Structural)]
pub enum ClickAction {
    Select,
    Open,
}

impl Default for ClickAction {
    fn default() -> (action: Self)
        ensures
            action == ClickAction::Select,
    {
        ClickAction::Select
    }
}

/// A widget that can only be switched on or off.
#[derive(Debug, Clone, PartialEq, Eq, Structural)]
pub struct ToggleWidgetConfig {
    pub enabled: bool,
}

impl Default for ToggleWidgetConfig {
    fn default() -> (config: Self)
        ensures
            config.enabled,
    {
        ToggleWidgetConfig { enabled: true }
    }
}

/// The clock widget: shown or not, and its `strftime` time format.
#[derive(Debug, Clone, PartialEq, Eq)]
pub struct ClockWidgetConfig {
    pub enabled: bool,
    pub format: String,
}

impl Default for ClockWidgetConfig {
    fn default() -> (config: Self)
        ensures
            config.enabled,
            config.format@ == "%H:%M"@,
    {
        ClockWidgetConfig { enabled: true, format: "%H:%M".to_owned() }
    }
}

/// Which of the built-in widgets are shown.
#[derive(Debug, Clone, PartialEq, Eq)]
pub struct WidgetsConfig {
    pub weather: ToggleWidgetConfig,
    pub current_playing: ToggleWidgetConfig,
    pub app_launcher: ToggleWidgetConfig,
    pub control_center: ToggleWidgetConfig,
    pub clock: ClockWidgetConfig,
}

impl Default for WidgetsConfig {
    fn default() -> (config: Self)
        ensures
            config.weather.enabled,
            config.current_playing.enabled,
            config.app_launcher.enabled,
            config.control_center.enabled,
            config.clock.enabled,
            config.clock.format@ == "%H:%M"@,
    {
        WidgetsConfig {
            weather: ToggleWidgetConfig::default(),
            current_playing: ToggleWidgetConfig::default(),
            app_launcher: ToggleWidgetConfig::default(),
            control_center: ToggleWidgetConfig::default(),
            clock: ClockWidgetConfig::default(),
        }
    }
}

} // verus!
