//! Device connection decisions shared by the flash commands.

use crate::error::FlashError;
use vstd::prelude::*;

verus! {

/// The mode a device reports after USB and efex initialisation.
#[derive(Debug, Clone, Copy, PartialEq, Eq, Structural)]
pub enum DeviceMode {
    /// FEL (USB boot ROM).
    Fel,
    /// FES (u-boot service mode).
    Srv,
    /// Any other mode (update modes, or none reported).
    Other,
}

/// A USB bus / port pair.
#[derive(Debug, Clone, Copy, PartialEq, Eq)]
pub struct UsbLocation {
    pub bus: u8,
    pub port: u8,
}

/// How to find the device to open.
#[derive(Debug, Clone, Copy, PartialEq, Eq)]
pub enum ConnectPlan {
    /// Open the device at this bus and port.
    OpenAt(UsbLocation),
    /// Scan the bus and open the first device found.
    ScanFirst,
}

/// A specific bus+port when both are given, otherwise the first available
/// device.
pub fn plan_connect(bus: Option<u8>, port: Option<u8>) -> (p: ConnectPlan)
    ensures
        (bus, port) matches (Some(b), Some(q)) ==> p == ConnectPlan::OpenAt(
            UsbLocation { bus: b, port: q },
        ),
        !(bus is Some && port is Some) ==> p == ConnectPlan::ScanFirst,
{
    match (bus, port) {
        (Some(b), Some(q)) => ConnectPlan::OpenAt(UsbLocation { bus: b, port: q }),
        _ => ConnectPlan::ScanFirst,
    }
}

/// The first scanned device, or `DeviceNotFound` when the scan found none.
pub fn first_device(devices: &Vec<UsbLocation>) -> (r: Result<UsbLocation, FlashError>)
    ensures
        devices@.len() == 0 ==> r == Err::<UsbLocation, FlashError>(FlashError::DeviceNotFound),
        devices@.len() > 0 ==> r == Ok::<UsbLocation, FlashError>(devices@[0]),
{
    if devices.len() == 0 {
        Err(FlashError::DeviceNotFound)
    } else {
        Ok(devices[0])
    }
}

} // verus!
