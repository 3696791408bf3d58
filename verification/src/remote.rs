use vstd::prelude::*;
use vstd::arithmetic::div_mod::{lemma_add_mod_noop, lemma_small_mod};

use crate::command::Command;
use crate::frame::built_bytes;
use crate::frame::Frame;
use crate::frame::SendFrame;
use crate::frame::Transmission;
use crate::Error;
use crate::RollingCodeStorage;

verus! {

/// The whitening key every frame of this protocol is built with.
pub const FRAME_KEY: u8 = 0xA7;

/// The rolling code that follows `code`: one more, wrapping modulo 2^16.
pub open spec fn next_code(code: u16) -> u16 {
    if code == 0xFFFF {
        0
    } else {
        (code + 1) as u16
    }
}

/// One paired remote: the fixed 24-bit address of its receiver and the
/// rolling code to use for the next send. The code advances exactly once
/// per successful transmission and never otherwise.
#[derive(Debug, Clone, Copy)]
pub struct Remote {
    address: u32,
    rolling_code: u16,
}

impl Remote {
    /// The receiver address is 24 bits.
    #[verifier::type_invariant]
    pub closed spec fn wf(self) -> bool {
        self.address < 0x1000000
    }

    /// The paired receiver's address.
    pub closed spec fn spec_address(self) -> u32 {
        self.address
    }

    /// The rolling code the next send will use.
    pub closed spec fn spec_rolling_code(self) -> u16 {
        self.rolling_code
    }

    /// Create a remote for a 24-bit address, seeded with a rolling code.
    pub fn new(address: u32, rolling_code: u16) -> (remote: Remote)
        requires
            address < 0x1000000,
        ensures
            remote.spec_address() == address,
            remote.spec_rolling_code() == rolling_code,
    {
        Remote { address, rolling_code }
    }

    /// The paired receiver's address.
    pub fn address(&self) -> (address: u32)
        ensures
            address == self.spec_address(),
            address < 0x1000000,
    {
        proof {
            use_type_invariant(self);
        }
        self.address
    }

    /// The rolling code the next send will use.
    pub fn rolling_code(&self) -> (code: u16)
        ensures
            code == self.spec_rolling_code(),
    {
        self.rolling_code
    }

    /// Send `command` once. Equal to `send_repeat` with no repetitions.
    pub fn send<S, CS>(
        &mut self,
        sender: &mut S,
        storage: &mut CS,
        command: Command,
    ) -> (result: Result<(), Error<S::Error, CS::Error>>) where
        S: SendFrame,
        CS: RollingCodeStorage,

        ensures
            final(self).spec_address() == old(self).spec_address(),
            match result {
                Ok(()) => final(self).spec_rolling_code() == next_code(
                    old(self).spec_rolling_code(),
                ) && old(storage).codes().contains_key(old(self).spec_address()) && final(storage).codes() == old(storage).codes().insert(
                    old(self).spec_address(),
                    next_code(old(self).spec_rolling_code()),
                ),
                Err(Error::TransmitError(_)) => *final(self) == *old(self) && *final(storage)
                    == *old(storage),
                Err(Error::StorageError(_)) => final(self).spec_rolling_code() == next_code(
                    old(self).spec_rolling_code(),
                ),
            },
            final(sender).sent() == old(sender).sent().push(
                (Transmission {
                    bytes: built_bytes(
                        FRAME_KEY,
                        command,
                        old(self).spec_rolling_code(),
                        old(self).spec_address(),
                    ),
                    repetitions: 0,
                    succeeded: !(result matches Err(Error::TransmitError(_))),
                }),
            ),
            S::spec_infallible() && CS::spec_reliable() && old(storage).codes().contains_key(
                old(self).spec_address(),
            ) ==> result is Ok,
    {
        self.send_repeat(sender, storage, command, 0)
    }

    /// Send `command`, repeating the frame `repetitions` more times, and on
    /// success advance and persist the rolling code.
    ///
    /// The ordering is transmit, then advance, then persist. A transmit
    /// failure aborts before any code advancement: the rolling code is
    /// never advanced for a command that was not fully sent. A persistence
    /// failure after a successful transmission is reported as the distinct
    /// `StorageError`; it cannot undo the physical transmission, so the
    /// in-memory code has already advanced, and until the next successful
    /// persist the store lags behind it (a restart then risks replaying an
    /// already-used code).
    pub fn send_repeat<S, CS>(
        &mut self,
        sender: &mut S,
        storage: &mut CS,
        command: Command,
        repetitions: usize,
    ) -> (result: Result<(), Error<S::Error, CS::Error>>) where
        S: SendFrame,
        CS: RollingCodeStorage,

        ensures
            final(self).spec_address() == old(self).spec_address(),
            match result {
                Ok(()) => final(self).spec_rolling_code() == next_code(
                    old(self).spec_rolling_code(),
                ) && old(storage).codes().contains_key(old(self).spec_address()) && final(storage).codes() == old(storage).codes().insert(
                    old(self).spec_address(),
                    next_code(old(self).spec_rolling_code()),
                ),
                Err(Error::TransmitError(_)) => *final(self) == *old(self) && *final(storage)
                    == *old(storage),
                Err(Error::StorageError(_)) => final(self).spec_rolling_code() == next_code(
                    old(self).spec_rolling_code(),
                ),
            },
            final(sender).sent() == old(sender).sent().push(
                (Transmission {
                    bytes: built_bytes(
                        FRAME_KEY,
                        command,
                        old(self).spec_rolling_code(),
                        old(self).spec_address(),
                    ),
                    repetitions: repetitions as nat,
                    succeeded: !(result matches Err(Error::TransmitError(_))),
                }),
            ),
            S::spec_infallible() && CS::spec_reliable() && old(storage).codes().contains_key(
                old(self).spec_address(),
            ) ==> result is Ok,
    {
        proof {
            use_type_invariant(&*self);
        }
        let frame = Frame::builder()
            .key(FRAME_KEY)
            .command(command)
            .remote_address(self.address)
            .rolling_code(self.rolling_code)
            .build()
            .unwrap();

        if let Err(err) = sender.send_frame_repeat(&frame, repetitions) {
            return Err(Error::TransmitError(err));
        }

        self.rolling_code = if self.rolling_code == 0xFFFF {
            0
        } else {
            self.rolling_code + 1
        };
        if let Err(err) = storage.persist(&*self) {
            return Err(Error::StorageError(err));
        }

        Ok(())
    }
}

/// The rolling code after `n` consecutive advancements — as after `n`
/// consecutive successful sends — starting from `start`.
pub open spec fn advanced_code(start: u16, n: nat) -> u16
    decreases n,
{
    if n == 0 {
        start
    } else {
        next_code(advanced_code(start, (n - 1) as nat))
    }
}

/// Advancing once is adding one modulo 2^16.
proof fn lemma_next_code_is_mod(code: u16)
    ensures
        next_code(code) == (((code + 1) % 0x10000) as u16),
{
    if code < 0xFFFF {
        lemma_small_mod((code + 1) as nat, 0x10000);
    }
}

/// After `n` consecutive successful sends starting from rolling code
/// `start`, the rolling code equals `(start + n) % 65536`.
pub proof fn lemma_rolling_code_advances(start: u16, n: nat)
    ensures
        advanced_code(start, n) == (((start + n) % 0x10000) as u16),
    decreases n,
{
    if n == 0 {
        lemma_small_mod(start as nat, 0x10000);
    } else {
        lemma_rolling_code_advances(start, (n - 1) as nat);
        let prev = advanced_code(start, (n - 1) as nat);
        lemma_next_code_is_mod(prev);
        lemma_small_mod(1, 0x10000);
        lemma_add_mod_noop(start + (n - 1), 1, 0x10000);
    }
}

} // verus!
