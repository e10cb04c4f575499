//! Verified core of the Coconut desktop shell: dock layout and island
//! order, configuration defaults, the file formats the shell reads, and the
//! decision procedures the shell and its settings application rely on.

pub mod accounts;
pub mod api;
pub mod config;
pub mod debounce;
pub mod dock;
pub mod fields;
pub mod gap;
pub mod geo;
pub mod icon_theme;
pub mod launcher;
pub mod nav;
pub mod order;
pub mod paths;
pub mod runtime;
pub mod shortcuts;
pub mod state;
pub mod status;
pub mod text;
pub mod toml_types;
pub mod user_dirs;
pub mod wallpaper;
pub mod wm_config;
