//! Errors of the host's connection to a device.

use vstd::prelude::*;

verus! {

/// Why the host could not reach a device.
#[derive(Debug, Clone)]
pub enum LedgerDeviceError {
    /// The HID library failed.
    HidApi(String),
    /// The native HID transport failed.
    NativeTransport(String),
}

} // verus!
