//! The battery an integration reports on.

use vstd::prelude::*;

use crate::api::ChangeListener;

verus! {

/// A source of battery state, implemented by each platform backend.
pub trait BatteryIntegration {
    /// The charge in percent, when a battery is present.
    fn percentage(&self) -> Option<u8>;

    /// Whether the battery is charging.
    fn charging(&self) -> bool;

    /// A listener that wakes whenever the backend's native hook observes a
    /// change; `None` when it has no such hook, so callers poll instead.
    fn changes(&self) -> (listener: Option<ChangeListener>)
        default_ensures
            listener is None,
    {
        None
    }
}

/// The backend used when no battery service is available: no battery, not
/// charging, no change notifications.
pub struct Fallback;

impl BatteryIntegration for Fallback {
    fn percentage(&self) -> (percent: Option<u8>)
        ensures
            percent is None,
    {
        None
    }

    fn charging(&self) -> (charging: bool)
        ensures
            !charging,
    {
        false
    }
}

} // verus!
