//! The shell's system integrations: the data they report (media playback,
//! Bluetooth devices, open windows, Wi-Fi strength), the listener that
//! wakes on their changes, and the battery and Bluetooth interfaces.

use vstd::prelude::*;

pub mod battery;
pub mod bluetooth;

verus! {

#[verifier::external_type_specification]
#[verifier::external_body]
#[verifier::reject_recursive_types(T)]
pub struct MutexDeclaration<T: ?Sized>(std::sync::Mutex<T>);

#[verifier::external_type_specification]
#[verifier::external_body]
#[verifier::reject_recursive_types(T)]
pub struct ReceiverDeclaration<T>(std::sync::mpsc::Receiver<T>);

#[verifier::external_type_specification]
#[verifier::external_body]
#[verifier::reject_recursive_types(T)]
pub struct MutexGuardDeclaration<'a, T: ?Sized + 'a>(std::sync::MutexGuard<'a, T>);

/// `Mutex::new` wraps its value in a fresh, unlocked mutex.
pub assume_specification<T>[ std::sync::Mutex::<T>::new ](value: T) -> std::sync::Mutex<T>;

/// Calls `Mutex::lock`, blocking until the lock is free; `None` when a
/// thread panicked while holding it. Which happens depends on other
/// threads, so nothing is stated of the result.
#[verifier::external_body]
fn lock_receiver<'a>(
    receiver: &'a std::sync::Mutex<std::sync::mpsc::Receiver<()>>,
) -> Option<std::sync::MutexGuard<'a, std::sync::mpsc::Receiver<()>>> {
    receiver.lock().ok()
}

/// Calls `Receiver::recv`, blocking until a message arrives (`true`) or
/// every sender is gone (`false`). Which happens depends on other threads,
/// so nothing is stated of the result.
#[verifier::external_body]
fn receive(receiver: &std::sync::MutexGuard<'_, std::sync::mpsc::Receiver<()>>) -> bool {
    receiver.recv().is_ok()
}

/// A wake-up channel that a background event thread pushes into whenever an
/// integration's native hook (a D-Bus signal, a platform event) observes a
/// change, so that callers can block until the next one instead of polling.
#[derive(Clone)]
pub struct ChangeListener {
    receiver: std::sync::Arc<std::sync::Mutex<std::sync::mpsc::Receiver<()>>>,
}

impl ChangeListener {
    /// A listener that wakes on each message `receiver` gets.
    pub fn new(receiver: std::sync::mpsc::Receiver<()>) -> (listener: ChangeListener) {
        ChangeListener { receiver: std::sync::Arc::new(std::sync::Mutex::new(receiver)) }
    }

    /// Blocks until the next change arrives (`true`), or until the sending
    /// side is gone or the channel's lock was poisoned (`false`).
    pub fn wait(&self) -> bool {
        match lock_receiver(&*self.receiver) {
            Some(guard) => receive(&guard),
            None => false,
        }
    }
}

/// What a media player is playing.
#[derive(Clone, Debug, PartialEq, Eq)]
pub struct Playback {
    pub app_icon: Option<std::path::PathBuf>,
    pub title: String,
    pub artist: String,
    pub status: String,
    pub art_url: Option<std::path::PathBuf>,
    pub position: String,
    pub length: String,
}

/// One device known to the Bluetooth adapter, paired or only discovered.
#[derive(Clone, Debug)]
pub struct BluetoothDevice {
    pub address: String,
    pub name: String,
    pub paired: bool,
    pub connected: bool,
    pub trusted: bool,
    /// The device's own battery level, when it reports one.
    pub battery_percent: Option<u8>,
    /// A freedesktop icon name hint derived from the device class.
    pub icon_hint: Option<String>,
    /// The raw Bluetooth Class of Device bitmask, when reported.
    pub class: Option<u32>,
}

/// A window open on the desktop.
#[derive(Clone, Debug, PartialEq, Eq)]
pub struct OpenWindow {
    pub id: String,
    pub app_name: String,
    pub title: String,
    pub icon_path: Option<std::path::PathBuf>,
    pub active: bool,
}

/// The Wi-Fi icon for a signal strength in percent.
pub open spec fn spec_wifi_strength_icon(strength: u8) -> Seq<char> {
    if strength >= 75 {
        "wifi-excellent"@
    } else if strength >= 50 {
        "wifi-good"@
    } else if strength >= 25 {
        "wifi-fair"@
    } else {
        "wifi-weak"@
    }
}

/// The Wi-Fi icon for a signal strength in percent: excellent from 75,
/// good from 50, fair from 25, weak below.
pub fn wifi_strength_icon(strength: u8) -> (icon: &'static str)
    ensures
        icon@ == spec_wifi_strength_icon(strength),
{
    if strength >= 75 {
        "wifi-excellent"
    } else if strength >= 50 {
        "wifi-good"
    } else if strength >= 25 {
        "wifi-fair"
    } else {
        "wifi-weak"
    }
}

} // verus!
