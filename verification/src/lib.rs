//! Transmitting side of a rolling-code radio protocol for motorised window
//! coverings: frame construction with checksum and whitening, a pulse-level
//! transmitter with the protocol's exact timing, and a rolling-code sequencer
//! with a pluggable durable store.

use vstd::prelude::*;

pub mod command;
pub mod frame;
pub mod remote;
pub mod sender;
pub mod spi_sender;
pub mod storage;

pub use command::{Command, UnknownCommand};
pub use frame::{Frame, FrameBuilder, SendFrame, Transmission};
pub use remote::Remote;
pub use sender::{
    FailingLine, Pulse, PulseLine, Sender, HALF_SYMBOL, HARDWARE_SYNC_COUNT_ONCE,
    HARDWARE_SYNC_COUNT_REPEAT, HARDWARE_SYNC_PULSE, INTER_FRAME_GAP, SOFTWARE_SYNC_HIGH,
    SYMBOL_WIDTH, WAKE_UP_HIGH, WAKE_UP_LOW,
};
pub use spi_sender::{coalesce_pulses, SpiPulseAccumulator, SpiSender};
pub use storage::{Storage, UnknownRemote};

verus! {

/// Error raised by a send: either the transmission itself failed (nothing was
/// sent in full), or the transmission succeeded but the advanced rolling code
/// could not be persisted. The two are distinct so a caller can tell
/// "nothing happened" from "it happened but may not be durably remembered".
#[derive(Debug)]
pub enum Error<T, S> {
    TransmitError(T),
    StorageError(S),
}

/// A durable mapping from receiver address to rolling code. The ghost
/// `codes` map models what the store holds.
pub trait RollingCodeStorage {
    type Error;

    /// The rolling code the store holds for each address it knows.
    spec fn codes(&self) -> Map<u32, u16>;

    /// Whether this kind of store promises that persisting succeeds
    /// whenever the address is known to it.
    open spec fn spec_reliable() -> bool {
        false
    }

    /// Durably overwrite the rolling code recorded for `remote`'s address.
    /// Success means the entry for that address existed and now holds the
    /// remote's current code; an address the store does not know is an
    /// error, never a silent no-op.
    fn persist(&mut self, remote: &Remote) -> (result: Result<(), Self::Error>)
        ensures
            result is Ok ==> old(self).codes().contains_key(remote.spec_address()) && final(self).codes() == old(self).codes().insert(
                remote.spec_address(),
                remote.spec_rolling_code(),
            ),
            Self::spec_reliable() && old(self).codes().contains_key(remote.spec_address())
                ==> result is Ok,
    ;
}

} // verus!
