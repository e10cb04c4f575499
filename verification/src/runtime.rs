//! How the shell reacts to a configuration that arrives while it runs.

use vstd::prelude::*;

use crate::dock::{island_present, island_shown_in, DockLayout};
use crate::geo::text_eq;

verus! {

/// What the shell redoes after replacing its configuration with a new one.
#[derive(Debug, Clone, Copy, PartialEq, Eq, Structural)]
pub struct ConfigReaction {
    /// The icon theme changed: the application catalog and the desktop
    /// icons are loaded again.
    pub reload_icons: bool,
    /// The weather island has just appeared: the forecast is fetched now
    /// rather than at the next scheduled refresh.
    pub refresh_weather: bool,
    /// The docks changed: every dock window is created anew.
    pub rebuild_docks: bool,
}

/// Decides what follows the arrival of a new configuration. `docks_changed`
/// is whether the dock settings differ at all (sizes and colours included);
/// `old_docks`/`new_docks` are their island-bearing parts.
pub fn config_reaction(
    old_docks: &Vec<DockLayout>,
    new_docks: &Vec<DockLayout>,
    docks_changed: bool,
    old_icon_theme: &str,
    new_icon_theme: &str,
) -> (reaction: ConfigReaction)
    ensures
        reaction.reload_icons == (old_icon_theme@ != new_icon_theme@),
        reaction.refresh_weather == (!island_shown_in(old_docks@, "weather"@) && island_shown_in(new_docks@, "weather"@)),
        reaction.rebuild_docks == docks_changed,
{
    let weather_was_shown = island_present(old_docks, "weather");
    let weather_is_shown = island_present(new_docks, "weather");
    ConfigReaction {
        reload_icons: !text_eq(old_icon_theme, new_icon_theme),
        refresh_weather: !weather_was_shown && weather_is_shown,
        rebuild_docks: docks_changed,
    }
}

} // verus!
