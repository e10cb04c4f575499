//! The Bluetooth adapter an integration controls.

use vstd::prelude::*;

use crate::api::{BluetoothDevice, ChangeListener};

verus! {

/// A Bluetooth adapter, implemented by each platform backend.
pub trait BluetoothIntegration {
    /// Whether the adapter is switched on.
    fn powered(&self) -> bool;

    /// Whether some device is connected.
    fn connected(&self) -> bool;

    /// The name of the connected device, if any.
    fn device_name(&self) -> Option<String>;

    /// Switches the adapter on or off.
    fn set_powered(&self, powered: bool);

    /// A listener that wakes whenever the backend's native hook observes a
    /// change; `None` when it has no such hook, so callers poll instead.
    fn changes(&self) -> (listener: Option<ChangeListener>)
        default_ensures
            listener is None,
    {
        None
    }

    /// Every device the adapter knows: the paired ones and those a scan in
    /// progress has found.
    fn devices(&self) -> (devices: Vec<BluetoothDevice>)
        default_ensures
            devices@.len() == 0,
    {
        Vec::new()
    }

    /// Whether the adapter is scanning for nearby devices.
    fn scanning(&self) -> (scanning: bool)
        default_ensures
            !scanning,
    {
        false
    }

    /// Starts a scan for nearby devices.
    fn start_scan(&self) {
    }

    /// Stops a scan in progress.
    fn stop_scan(&self) {
    }

    /// Pairs with, if needed, and connects to the device at `address`.
    fn connect(&self, _address: &str) {
    }

    /// Disconnects the device at `address`.
    fn disconnect(&self, _address: &str) {
    }

    /// Unpairs the device at `address` and forgets it.
    fn forget(&self, _address: &str) {
    }
}

/// The backend used when no Bluetooth service is available: an adapter
/// that is off, connected to nothing, and ignores requests.
pub struct Fallback;

impl BluetoothIntegration for Fallback {
    fn powered(&self) -> (powered: bool)
        ensures
            !powered,
    {
        false
    }

    fn connected(&self) -> (connected: bool)
        ensures
            !connected,
    {
        false
    }

    fn device_name(&self) -> (name: Option<String>)
        ensures
            name is None,
    {
        None
    }

    fn set_powered(&self, _powered: bool) {
    }
}

} // verus!
