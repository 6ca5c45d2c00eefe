//! How a device is brought into FES before writing.

use crate::error::FlashError;
use crate::flash::device_session::DeviceMode;
use crate::flash::raw_image::layout::RawBootstrap;
use vstd::prelude::*;

verus! {

/// Seconds to wait before the first reconnect attempt after bootstrap.
pub const RECONNECT_INITIAL_WAIT_SECS: u64 = 2;
/// Seconds between reconnect attempts.
pub const RECONNECT_RETRY_WAIT_SECS: u64 = 1;
/// Reconnect attempts before giving up.
pub const RECONNECT_MAX_RETRIES: u32 = 25;

/// What to do after one reconnect round.
#[derive(Debug, Clone, Copy, PartialEq, Eq)]
pub enum ReconnectAction {
    /// A device in FES mode was found: use it.
    Accept,
    /// None found: wait and scan again; this many rounds have failed so far.
    Retry(u32),
    /// None found in `RECONNECT_MAX_RETRIES` rounds: give up.
    GiveUp,
}

/// The reconnect decision after a round in which `retries` earlier rounds had
/// failed and a device in FES mode was (`found_srv`) or was not found. A
/// failed bus scan counts as a round without a device.
pub fn reconnect_step(retries: u32, found_srv: bool) -> (r: ReconnectAction)
    ensures
        found_srv ==> r == ReconnectAction::Accept,
        !found_srv && retries + 1 >= RECONNECT_MAX_RETRIES ==> r == ReconnectAction::GiveUp,
        !found_srv && retries + 1 < RECONNECT_MAX_RETRIES ==> r == ReconnectAction::Retry(
            (retries + 1) as u32,
        ),
{
    if found_srv {
        ReconnectAction::Accept
    } else if retries >= RECONNECT_MAX_RETRIES - 1 {
        ReconnectAction::GiveUp
    } else {
        ReconnectAction::Retry(retries + 1)
    }
}

/// How to reach FES mode before writing.
pub enum FesEntry<'a> {
    /// The device is already in FES: write directly.
    AlreadyInFes,
    /// Bootstrap from the fes1 + u-boot of this LiveSuit/IMAGEWTY firmware.
    BootstrapFirmware(String),
    /// Bootstrap from the boot0 + u-boot sliced out of the raw image.
    BootstrapRawImage(RawBootstrap<'a>),
}

/// flash-part: a device in FES is written directly; a device in FEL is
/// bootstrapped from the given firmware; otherwise the device is not usable.
pub fn plan_partition_fes_entry(mode: DeviceMode, bootstrap: &Option<String>) -> (r: Result<
    FesEntry<'static>,
    FlashError,
>)
    ensures
        mode == DeviceMode::Srv ==> r matches Ok(FesEntry::AlreadyInFes),
        mode == DeviceMode::Fel && bootstrap.is_some() ==> (r matches Ok(
            FesEntry::BootstrapFirmware(path),
        ) && path@ == bootstrap.unwrap()@),
        mode != DeviceMode::Srv && !(mode == DeviceMode::Fel && bootstrap.is_some()) ==> r
            == Err::<FesEntry<'static>, FlashError>(FlashError::DeviceNotInFes(mode)),
{
    match mode {
        DeviceMode::Srv => Ok(FesEntry::AlreadyInFes),
        DeviceMode::Fel => match bootstrap {
            Some(path) => Ok(FesEntry::BootstrapFirmware(path.clone())),
            None => Err(FlashError::DeviceNotInFes(mode)),
        },
        _ => Err(FlashError::DeviceNotInFes(mode)),
    }
}

} // verus!
