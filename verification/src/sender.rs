use vstd::prelude::*;
use vstd::seq_lib::*;

use crate::frame::Frame;
use crate::frame::SendFrame;
use crate::frame::Transmission;

verus! {

/// Protocol timing table, in microseconds. These values are fixed by the
/// radio protocol and must be reproduced exactly for real receivers to
/// accept a transmission.
pub const SYMBOL_WIDTH: u32 = 1280;

/// Half a symbol period: the width of one Manchester half-bit pulse.
pub const HALF_SYMBOL: u32 = SYMBOL_WIDTH / 2;

/// Wake-up pulse: high for this long on the first frame of a burst.
pub const WAKE_UP_HIGH: u32 = 9415;

/// Wake-up pause: low for this long after the wake-up pulse.
pub const WAKE_UP_LOW: u32 = 89565;

/// Width of each high and each low pulse of the hardware sync.
pub const HARDWARE_SYNC_PULSE: u32 = 2 * SYMBOL_WIDTH;

/// Hardware-sync pulse pairs on the first frame of a burst.
pub const HARDWARE_SYNC_COUNT_ONCE: usize = 2;

/// Hardware-sync pulse pairs on every repeated frame of a burst.
pub const HARDWARE_SYNC_COUNT_REPEAT: usize = 7;

/// Software-sync high pulse width.
pub const SOFTWARE_SYNC_HIGH: u32 = 4550;

/// Quiet low interval after each frame's payload.
pub const INTER_FRAME_GAP: u32 = 30415;

/// One pulse of the output line: the line level and how long it is held.
#[derive(Debug, Clone, Copy, PartialEq, Eq, Structural)]
pub struct Pulse {
    pub high: bool,
    pub duration: u32,
}

/// Shorthand for a pulse value in specifications.
pub open spec fn pulse(high: bool, duration: u32) -> Pulse {
    Pulse { high, duration }
}

/// The capability the transmitter needs from the hardware: set the output
/// line to a level and hold it there for a duration. The ghost `pulses`
/// sequence models everything the line has emitted; a failed call emits
/// nothing.
pub trait PulseLine {
    type Error;

    /// Every pulse this line has emitted, in order. A verified
    /// implementation supplies its own model — under this constant default
    /// the contract of `send_pulse` is unsatisfiable — while an
    /// implementation outside the verifier may keep the default.
    open spec fn pulses(&self) -> Seq<Pulse> {
        Seq::empty()
    }

    /// Whether this kind of line can fail at all. A line that declares
    /// itself infallible promises that `send_pulse` always succeeds.
    open spec fn spec_infallible() -> bool {
        false
    }

    /// Drive the line to `high` and hold it for `duration` microseconds.
    /// On success exactly this pulse is appended; on failure nothing is.
    fn send_pulse(&mut self, high: bool, duration: u32) -> (result: Result<(), Self::Error>)
        ensures
            result is Ok ==> final(self).pulses() == old(self).pulses().push(
                pulse(high, duration),
            ),
            result is Err ==> final(self).pulses() == old(self).pulses(),
            Self::spec_infallible() ==> result is Ok,
    ;
}

/// Bit `i` of a byte, most significant first (bit 0 is the topmost).
pub open spec fn bit_at(byte: u8, i: int) -> bool {
    (byte >> ((7 - i) as u8)) & 1 == 1
}

/// The two Manchester half-symbol pulses of one bit: a logical 1 is
/// low-then-high, a logical 0 is high-then-low.
pub open spec fn bit_pulses(bit: bool) -> Seq<Pulse> {
    if bit {
        seq![pulse(false, HALF_SYMBOL), pulse(true, HALF_SYMBOL)]
    } else {
        seq![pulse(true, HALF_SYMBOL), pulse(false, HALF_SYMBOL)]
    }
}

/// The pulses of the first `n` bits of a byte, most significant bit first.
pub open spec fn byte_pulses_upto(byte: u8, n: int) -> Seq<Pulse>
    decreases n,
{
    if n <= 0 {
        Seq::empty()
    } else {
        byte_pulses_upto(byte, n - 1) + bit_pulses(bit_at(byte, n - 1))
    }
}

/// The 16 pulses of one byte.
pub open spec fn byte_pulses(byte: u8) -> Seq<Pulse> {
    byte_pulses_upto(byte, 8)
}

/// The pulses of the first `n` bytes of a payload.
pub open spec fn payload_pulses_upto(bytes: Seq<u8>, n: int) -> Seq<Pulse>
    decreases n,
{
    if n <= 0 {
        Seq::empty()
    } else {
        payload_pulses_upto(bytes, n - 1) + byte_pulses(bytes[n - 1])
    }
}

/// The pulses of a whole payload, bytes in order.
pub open spec fn payload_pulses(bytes: Seq<u8>) -> Seq<Pulse> {
    payload_pulses_upto(bytes, bytes.len() as int)
}

/// The wake-up phase: one long high pulse, one long low pause.
pub open spec fn wake_up_pulses() -> Seq<Pulse> {
    seq![pulse(true, WAKE_UP_HIGH), pulse(false, WAKE_UP_LOW)]
}

/// `n` symmetric high/low hardware-sync pulse pairs.
pub open spec fn hardware_sync_pulses(n: int) -> Seq<Pulse>
    decreases n,
{
    if n <= 0 {
        Seq::empty()
    } else {
        hardware_sync_pulses(n - 1) + seq![
            pulse(true, HARDWARE_SYNC_PULSE),
            pulse(false, HARDWARE_SYNC_PULSE),
        ]
    }
}

/// The software sync: one distinct high pulse, then low for half a symbol.
pub open spec fn software_sync_pulses() -> Seq<Pulse> {
    seq![pulse(true, SOFTWARE_SYNC_HIGH), pulse(false, HALF_SYMBOL)]
}

/// The quiet gap after a frame.
pub open spec fn gap_pulses() -> Seq<Pulse> {
    seq![pulse(false, INTER_FRAME_GAP)]
}

/// All pulses of one frame transmission with `sync_count` hardware-sync
/// pairs: hardware sync, software sync, the 7 payload bytes, then the
/// inter-frame gap.
pub open spec fn frame_pulses(bytes: Seq<u8>, sync_count: int) -> Seq<Pulse> {
    hardware_sync_pulses(sync_count) + software_sync_pulses() + payload_pulses(bytes)
        + gap_pulses()
}

/// The pulses of `n` repeated frames, each with the denser repeat sync.
pub open spec fn repeated_frames_pulses(bytes: Seq<u8>, n: int) -> Seq<Pulse>
    decreases n,
{
    if n <= 0 {
        Seq::empty()
    } else {
        repeated_frames_pulses(bytes, n - 1) + frame_pulses(
            bytes,
            HARDWARE_SYNC_COUNT_REPEAT as int,
        )
    }
}

/// The complete pulse train of one logical send: wake-up, one frame with
/// the short sync, then `repetitions` frames with the repeat sync.
pub open spec fn burst_pulses(bytes: Seq<u8>, repetitions: int) -> Seq<Pulse> {
    wake_up_pulses() + frame_pulses(bytes, HARDWARE_SYNC_COUNT_ONCE as int)
        + repeated_frames_pulses(bytes, repetitions)
}

/// Between `pre` and `post` the line emitted some prefix of `target` and
/// nothing else: what was already emitted stays, and nothing past the first
/// failure appears.
pub open spec fn sent_prefix(pre: Seq<Pulse>, post: Seq<Pulse>, target: Seq<Pulse>) -> bool {
    pre.is_prefix_of(post) && post.is_prefix_of(pre + target)
}

proof fn lemma_prefix_refl<A>(a: Seq<A>)
    ensures
        a.is_prefix_of(a),
{
    assert(a =~= a.subrange(0, a.len() as int));
}

proof fn lemma_prefix_self_app<A>(a: Seq<A>, x: Seq<A>)
    ensures
        a.is_prefix_of(a + x),
{
    assert(a =~= (a + x).subrange(0, a.len() as int));
}

proof fn lemma_prefix_trans<A>(a: Seq<A>, b: Seq<A>, c: Seq<A>)
    requires
        a.is_prefix_of(b),
        b.is_prefix_of(c),
    ensures
        a.is_prefix_of(c),
{
    assert(a =~= c.subrange(0, a.len() as int));
}

proof fn lemma_prefix_app<A>(x: Seq<A>, p: Seq<A>, t: Seq<A>)
    requires
        p.is_prefix_of(t),
    ensures
        (x + p).is_prefix_of(x + t),
{
    assert(x + p =~= (x + t).subrange(0, (x + p).len() as int));
}

/// Nothing emitted is the empty prefix.
proof fn lemma_sent_nothing(p: Seq<Pulse>, target: Seq<Pulse>)
    ensures
        sent_prefix(p, p, target),
{
    lemma_prefix_refl(p);
    lemma_prefix_self_app(p, target);
}

/// A prefix of `x` is also a prefix of any extension of `x`.
proof fn lemma_sent_prefix_weaken(pre: Seq<Pulse>, post: Seq<Pulse>, x: Seq<Pulse>, y: Seq<Pulse>)
    requires
        sent_prefix(pre, post, x),
        x.is_prefix_of(y),
    ensures
        sent_prefix(pre, post, y),
{
    lemma_prefix_app(pre, x, y);
    lemma_prefix_trans(post, pre + x, pre + y);
}

/// A completed phase followed by a partial one is a partial whole.
proof fn lemma_sent_then_prefix(
    pre: Seq<Pulse>,
    mid: Seq<Pulse>,
    post: Seq<Pulse>,
    x: Seq<Pulse>,
    y: Seq<Pulse>,
)
    requires
        mid == pre + x,
        sent_prefix(mid, post, y),
    ensures
        sent_prefix(pre, post, x + y),
{
    lemma_prefix_self_app(pre, x);
    lemma_prefix_trans(pre, mid, post);
    assert(mid + y =~= pre + (x + y));
}

proof fn lemma_hardware_sync_mono(i: int, n: int)
    requires
        0 <= i <= n,
    ensures
        hardware_sync_pulses(i).is_prefix_of(hardware_sync_pulses(n)),
    decreases n,
{
    if i == n {
        lemma_prefix_refl(hardware_sync_pulses(i));
    } else {
        lemma_hardware_sync_mono(i, n - 1);
        lemma_prefix_self_app(
            hardware_sync_pulses(n - 1),
            seq![pulse(true, HARDWARE_SYNC_PULSE), pulse(false, HARDWARE_SYNC_PULSE)],
        );
        lemma_prefix_trans(
            hardware_sync_pulses(i),
            hardware_sync_pulses(n - 1),
            hardware_sync_pulses(n),
        );
    }
}

proof fn lemma_byte_pulses_mono(byte: u8, i: int, n: int)
    requires
        0 <= i <= n,
    ensures
        byte_pulses_upto(byte, i).is_prefix_of(byte_pulses_upto(byte, n)),
    decreases n,
{
    if i == n {
        lemma_prefix_refl(byte_pulses_upto(byte, i));
    } else {
        lemma_byte_pulses_mono(byte, i, n - 1);
        lemma_prefix_self_app(byte_pulses_upto(byte, n - 1), bit_pulses(bit_at(byte, n - 1)));
        lemma_prefix_trans(
            byte_pulses_upto(byte, i),
            byte_pulses_upto(byte, n - 1),
            byte_pulses_upto(byte, n),
        );
    }
}

proof fn lemma_payload_pulses_mono(bytes: Seq<u8>, i: int, n: int)
    requires
        0 <= i <= n,
    ensures
        payload_pulses_upto(bytes, i).is_prefix_of(payload_pulses_upto(bytes, n)),
    decreases n,
{
    if i == n {
        lemma_prefix_refl(payload_pulses_upto(bytes, i));
    } else {
        lemma_payload_pulses_mono(bytes, i, n - 1);
        lemma_prefix_self_app(payload_pulses_upto(bytes, n - 1), byte_pulses(bytes[n - 1]));
        lemma_prefix_trans(
            payload_pulses_upto(bytes, i),
            payload_pulses_upto(bytes, n - 1),
            payload_pulses_upto(bytes, n),
        );
    }
}

proof fn lemma_repeated_frames_mono(bytes: Seq<u8>, i: int, n: int)
    requires
        0 <= i <= n,
    ensures
        repeated_frames_pulses(bytes, i).is_prefix_of(repeated_frames_pulses(bytes, n)),
    decreases n,
{
    if i == n {
        lemma_prefix_refl(repeated_frames_pulses(bytes, i));
    } else {
        lemma_repeated_frames_mono(bytes, i, n - 1);
        lemma_prefix_self_app(
            repeated_frames_pulses(bytes, n - 1),
            frame_pulses(bytes, HARDWARE_SYNC_COUNT_REPEAT as int),
        );
        lemma_prefix_trans(
            repeated_frames_pulses(bytes, i),
            repeated_frames_pulses(bytes, n - 1),
            repeated_frames_pulses(bytes, n),
        );
    }
}

/// Which hardware-sync pattern a frame gets: the short one on the first
/// frame of a burst, the denser one on every repetition.
#[derive(Debug, Clone, Copy)]
enum SyncType {
    Once,
    Repeat,
}

/// The number of hardware-sync pulse pairs for a sync pattern.
spec fn sync_count(sync_type: SyncType) -> int {
    match sync_type {
        SyncType::Once => HARDWARE_SYNC_COUNT_ONCE as int,
        SyncType::Repeat => HARDWARE_SYNC_COUNT_REPEAT as int,
    }
}

/// Drives the pulse-timing state machine of the protocol over any
/// [`PulseLine`]. Owns the line exclusively for the whole of a send: the
/// microsecond timing does not survive interleaving.
pub struct Sender<L> {
    pub transmitter: L,
    /// Ghost log of the transmissions performed through this sender.
    pub log: Ghost<Seq<Transmission>>,
}

impl<L: PulseLine> Sender<L> {
    /// Everything this sender's line has emitted.
    pub open spec fn pulses(&self) -> Seq<Pulse> {
        self.transmitter.pulses()
    }

    /// A sender that owns `transmitter` and has sent nothing through it.
    pub fn new(transmitter: L) -> (sender: Sender<L>)
        ensures
            sender.transmitter == transmitter,
            sender.sent() == Seq::<Transmission>::empty(),
    {
        Sender { transmitter, log: Ghost(Seq::empty()) }
    }

    /// Set the line and hold it, one pulse.
    fn send_state(&mut self, high: bool, time: u32) -> (result: Result<(), L::Error>)
        ensures
            result is Ok ==> final(self).pulses() == old(self).pulses().push(pulse(high, time)),
            result is Err ==> final(self).pulses() == old(self).pulses(),
            L::spec_infallible() ==> result is Ok,
            final(self).sent() == old(self).sent(),
    {
        self.transmitter.send_pulse(high, time)
    }

    /// The wake-up phase before the first frame of a burst.
    fn wake_up(&mut self) -> (result: Result<(), L::Error>)
        ensures
            result is Ok ==> final(self).pulses() == old(self).pulses() + wake_up_pulses(),
            result is Err ==> sent_prefix(old(self).pulses(), final(self).pulses(), wake_up_pulses()),
            L::spec_infallible() ==> result is Ok,
            final(self).sent() == old(self).sent(),
    {
        let ghost pre = self.pulses();
        match self.send_state(true, WAKE_UP_HIGH) {
            Ok(()) => {},
            Err(e) => {
                proof {
                    lemma_sent_nothing(pre, wake_up_pulses());
                }
                return Err(e);
            },
        }
        match self.send_state(false, WAKE_UP_LOW) {
            Ok(()) => {},
            Err(e) => {
                proof {
                    lemma_prefix_self_app(pre, seq![pulse(true, WAKE_UP_HIGH)]);
                    assert(pre + seq![pulse(true, WAKE_UP_HIGH)] =~= self.pulses());
                    assert(self.pulses() =~= (pre + wake_up_pulses()).subrange(
                        0,
                        self.pulses().len() as int,
                    ));
                }
                return Err(e);
            },
        }
        proof {
            assert(self.pulses() =~= pre + wake_up_pulses());
        }
        Ok(())
    }

    /// The hardware-sync phase: symmetric pulse pairs at a fixed width.
    fn hardware_sync(&mut self, sync_type: SyncType) -> (result: Result<(), L::Error>)
        ensures
            result is Ok ==> final(self).pulses() == old(self).pulses() + hardware_sync_pulses(
                sync_count(sync_type),
            ),
            result is Err ==> sent_prefix(
                old(self).pulses(),
                final(self).pulses(),
                hardware_sync_pulses(sync_count(sync_type)),
            ),
            L::spec_infallible() ==> result is Ok,
            final(self).sent() == old(self).sent(),
    {
        let count: usize = match sync_type {
            SyncType::Once => HARDWARE_SYNC_COUNT_ONCE,
            SyncType::Repeat => HARDWARE_SYNC_COUNT_REPEAT,
        };
        let ghost pre = self.pulses();
        let ghost target = hardware_sync_pulses(sync_count(sync_type));
        let mut i: usize = 0;
        while i < count
            invariant
                pre == old(self).pulses(),
                self.sent() == old(self).sent(),
                i <= count,
                count == sync_count(sync_type),
                target == hardware_sync_pulses(count as int),
                self.pulses() == pre + hardware_sync_pulses(i as int),
            decreases count - i,
        {
            match self.send_state(true, HARDWARE_SYNC_PULSE) {
                Ok(()) => {},
                Err(e) => {
                    proof {
                        lemma_prefix_self_app(pre, hardware_sync_pulses(i as int));
                        lemma_hardware_sync_mono(i as int, count as int);
                        lemma_prefix_app(pre, hardware_sync_pulses(i as int), target);
                        lemma_prefix_trans(pre, pre + hardware_sync_pulses(i as int), pre + target);
                    }
                    return Err(e);
                },
            }
            match self.send_state(false, HARDWARE_SYNC_PULSE) {
                Ok(()) => {},
                Err(e) => {
                    proof {
                        let done = hardware_sync_pulses(i as int).push(
                            pulse(true, HARDWARE_SYNC_PULSE),
                        );
                        assert(self.pulses() =~= pre + done);
                        assert(done.is_prefix_of(hardware_sync_pulses(i as int + 1))) by {
                            assert(done =~= hardware_sync_pulses(i as int + 1).subrange(
                                0,
                                done.len() as int,
                            ));
                        }
                        lemma_hardware_sync_mono(i as int + 1, count as int);
                        lemma_prefix_trans(
                            done,
                            hardware_sync_pulses(i as int + 1),
                            target,
                        );
                        lemma_prefix_app(pre, done, target);
                        lemma_prefix_self_app(pre, done);
                        lemma_prefix_trans(pre, pre + done, pre + target);
                    }
                    return Err(e);
                },
            }
            proof {
                assert(self.pulses() =~= pre + hardware_sync_pulses(i as int + 1));
            }
            i = i + 1;
        }
        Ok(())
    }

    /// The software-sync phase between hardware sync and payload.
    fn software_sync(&mut self) -> (result: Result<(), L::Error>)
        ensures
            result is Ok ==> final(self).pulses() == old(self).pulses() + software_sync_pulses(),
            result is Err ==> sent_prefix(
                old(self).pulses(),
                final(self).pulses(),
                software_sync_pulses(),
            ),
            L::spec_infallible() ==> result is Ok,
            final(self).sent() == old(self).sent(),
    {
        let ghost pre = self.pulses();
        match self.send_state(true, SOFTWARE_SYNC_HIGH) {
            Ok(()) => {},
            Err(e) => {
                proof {
                    lemma_sent_nothing(pre, software_sync_pulses());
                }
                return Err(e);
            },
        }
        match self.send_state(false, HALF_SYMBOL) {
            Ok(()) => {},
            Err(e) => {
                proof {
                    lemma_prefix_self_app(pre, seq![pulse(true, SOFTWARE_SYNC_HIGH)]);
                    assert(pre + seq![pulse(true, SOFTWARE_SYNC_HIGH)] =~= self.pulses());
                    assert(self.pulses() =~= (pre + software_sync_pulses()).subrange(
                        0,
                        self.pulses().len() as int,
                    ));
                }
                return Err(e);
            },
        }
        proof {
            assert(self.pulses() =~= pre + software_sync_pulses());
        }
        Ok(())
    }

    /// The quiet interval after a frame.
    fn inter_frame_gap(&mut self) -> (result: Result<(), L::Error>)
        ensures
            result is Ok ==> final(self).pulses() == old(self).pulses() + gap_pulses(),
            result is Err ==> sent_prefix(old(self).pulses(), final(self).pulses(), gap_pulses()),
            L::spec_infallible() ==> result is Ok,
            final(self).sent() == old(self).sent(),
    {
        let ghost pre = self.pulses();
        match self.send_state(false, INTER_FRAME_GAP) {
            Ok(()) => {
                proof {
                    assert(self.pulses() =~= pre + gap_pulses());
                }
                Ok(())
            },
            Err(e) => {
                proof {
                    lemma_sent_nothing(pre, gap_pulses());
                }
                Err(e)
            },
        }
    }

    /// One bit, Manchester encoded as two half-symbol pulses.
    fn send_bit(&mut self, bit: bool) -> (result: Result<(), L::Error>)
        ensures
            result is Ok ==> final(self).pulses() == old(self).pulses() + bit_pulses(bit),
            result is Err ==> sent_prefix(old(self).pulses(), final(self).pulses(), bit_pulses(bit)),
            L::spec_infallible() ==> result is Ok,
            final(self).sent() == old(self).sent(),
    {
        let from = !bit;
        let to = bit;
        let ghost pre = self.pulses();
        match self.send_state(from, HALF_SYMBOL) {
            Ok(()) => {},
            Err(e) => {
                proof {
                    lemma_sent_nothing(pre, bit_pulses(bit));
                }
                return Err(e);
            },
        }
        match self.send_state(to, HALF_SYMBOL) {
            Ok(()) => {},
            Err(e) => {
                proof {
                    lemma_prefix_self_app(pre, seq![pulse(from, HALF_SYMBOL)]);
                    assert(pre + seq![pulse(from, HALF_SYMBOL)] =~= self.pulses());
                    assert(self.pulses() =~= (pre + bit_pulses(bit)).subrange(
                        0,
                        self.pulses().len() as int,
                    ));
                }
                return Err(e);
            },
        }
        proof {
            assert(self.pulses() =~= pre + bit_pulses(bit));
        }
        Ok(())
    }

    /// One byte, most significant bit first.
    fn send_byte(&mut self, byte: u8) -> (result: Result<(), L::Error>)
        ensures
            result is Ok ==> final(self).pulses() == old(self).pulses() + byte_pulses(byte),
            result is Err ==> sent_prefix(
                old(self).pulses(),
                final(self).pulses(),
                byte_pulses(byte),
            ),
            L::spec_infallible() ==> result is Ok,
            final(self).sent() == old(self).sent(),
    {
        let ghost pre = self.pulses();
        let mut i: u8 = 0;
        while i < 8
            invariant
                pre == old(self).pulses(),
                self.sent() == old(self).sent(),
                i <= 8,
                self.pulses() == pre + byte_pulses_upto(byte, i as int),
            decreases 8 - i,
        {
            let bit = ((byte >> (7 - i)) & 1) == 1;
            proof {
                assert(bit == bit_at(byte, i as int));
            }
            let ghost mid = self.pulses();
            match self.send_bit(bit) {
                Ok(()) => {},
                Err(e) => {
                    proof {
                        lemma_sent_then_prefix(
                            pre,
                            mid,
                            self.pulses(),
                            byte_pulses_upto(byte, i as int),
                            bit_pulses(bit),
                        );
                        assert(byte_pulses_upto(byte, i as int) + bit_pulses(bit)
                            == byte_pulses_upto(byte, i as int + 1));
                        lemma_byte_pulses_mono(byte, i as int + 1, 8);
                        lemma_sent_prefix_weaken(
                            pre,
                            self.pulses(),
                            byte_pulses_upto(byte, i as int + 1),
                            byte_pulses(byte),
                        );
                    }
                    return Err(e);
                },
            }
            proof {
                assert(self.pulses() =~= pre + byte_pulses_upto(byte, i as int + 1));
            }
            i = i + 1;
        }
        Ok(())
    }

    /// One full frame with the given sync pattern: hardware sync, software
    /// sync, the 7 payload bytes, then the inter-frame gap.
    fn send_frame_with_type(&mut self, frame: &Frame, sync_type: SyncType) -> (result: Result<
        (),
        L::Error,
    >)
        ensures
            result is Ok ==> final(self).pulses() == old(self).pulses() + frame_pulses(
                frame@,
                sync_count(sync_type),
            ),
            result is Err ==> sent_prefix(
                old(self).pulses(),
                final(self).pulses(),
                frame_pulses(frame@, sync_count(sync_type)),
            ),
            L::spec_infallible() ==> result is Ok,
            final(self).sent() == old(self).sent(),
    {
        let ghost pre = self.pulses();
        let ghost hw = hardware_sync_pulses(sync_count(sync_type));
        let ghost sw = software_sync_pulses();
        let ghost pay = payload_pulses(frame@);
        let ghost target = frame_pulses(frame@, sync_count(sync_type));

        match self.hardware_sync(sync_type) {
            Ok(()) => {},
            Err(e) => {
                proof {
                    lemma_prefix_self_app(hw, sw);
                    lemma_prefix_self_app(hw + sw, pay);
                    lemma_prefix_self_app(hw + sw + pay, gap_pulses());
                    lemma_prefix_trans(hw, hw + sw, hw + sw + pay);
                    lemma_prefix_trans(hw, hw + sw + pay, target);
                    lemma_sent_prefix_weaken(pre, self.pulses(), hw, target);
                }
                return Err(e);
            },
        }
        let ghost after_hw = self.pulses();
        match self.software_sync() {
            Ok(()) => {},
            Err(e) => {
                proof {
                    lemma_sent_then_prefix(pre, after_hw, self.pulses(), hw, sw);
                    lemma_prefix_self_app(hw + sw, pay);
                    lemma_prefix_self_app(hw + sw + pay, gap_pulses());
                    lemma_prefix_trans(hw + sw, hw + sw + pay, target);
                    lemma_sent_prefix_weaken(pre, self.pulses(), hw + sw, target);
                }
                return Err(e);
            },
        }

        let bytes = frame.as_bytes();
        let ghost base = self.pulses();
        proof {
            assert(base =~= pre + (hw + sw));
        }
        let mut i: usize = 0;
        while i < bytes.len()
            invariant
                pre == old(self).pulses(),
                self.sent() == old(self).sent(),
                i <= bytes.len(),
                bytes@ == frame@,
                bytes@.len() == 7,
                hw == hardware_sync_pulses(sync_count(sync_type)),
                sw == software_sync_pulses(),
                pay == payload_pulses(frame@),
                target == frame_pulses(frame@, sync_count(sync_type)),
                pre.is_prefix_of(base),
                base == pre + (hw + sw),
                self.pulses() == base + payload_pulses_upto(frame@, i as int),
            decreases bytes.len() - i,
        {
            let byte = bytes[i];
            let ghost mid = self.pulses();
            match self.send_byte(byte) {
                Ok(()) => {},
                Err(e) => {
                    proof {
                        lemma_sent_then_prefix(
                            base,
                            mid,
                            self.pulses(),
                            payload_pulses_upto(frame@, i as int),
                            byte_pulses(frame@[i as int]),
                        );
                        assert(payload_pulses_upto(frame@, i as int) + byte_pulses(
                            frame@[i as int],
                        ) == payload_pulses_upto(frame@, i as int + 1));
                        lemma_payload_pulses_mono(frame@, i as int + 1, 7);
                        lemma_sent_prefix_weaken(
                            base,
                            self.pulses(),
                            payload_pulses_upto(frame@, i as int + 1),
                            pay,
                        );
                        lemma_sent_then_prefix(pre, base, self.pulses(), hw + sw, pay);
                        assert((hw + sw) + pay =~= hw + sw + pay);
                        lemma_prefix_self_app(hw + sw + pay, gap_pulses());
                        lemma_sent_prefix_weaken(pre, self.pulses(), hw + sw + pay, target);
                    }
                    return Err(e);
                },
            }
            proof {
                assert(self.pulses() =~= base + payload_pulses_upto(frame@, i as int + 1));
            }
            i = i + 1;
        }
        let ghost after_pay = self.pulses();
        match self.inter_frame_gap() {
            Ok(()) => {
                proof {
                    assert(after_pay =~= pre + (hw + sw + pay));
                    assert(self.pulses() =~= pre + target);
                }
                Ok(())
            },
            Err(e) => {
                proof {
                    assert(after_pay =~= pre + (hw + sw + pay));
                    lemma_sent_then_prefix(
                        pre,
                        after_pay,
                        self.pulses(),
                        hw + sw + pay,
                        gap_pulses(),
                    );
                    assert((hw + sw + pay) + gap_pulses() =~= target);
                }
                Err(e)
            },
        }
    }

    /// One logical send: wake-up, one frame with the short sync, then
    /// `repetitions` more frames with the repeat sync. On success the line
    /// emitted exactly the burst's pulse train; on failure it emitted some
    /// prefix of it and nothing after the failure, so a failure on one
    /// repetition emits no pulses for any later repetition.
    pub fn transmit(&mut self, frame: &Frame, repetitions: usize) -> (result: Result<
        (),
        L::Error,
    >)
        ensures
            result is Ok ==> final(self).pulses() == old(self).pulses() + burst_pulses(
                frame@,
                repetitions as int,
            ),
            result is Err ==> sent_prefix(
                old(self).pulses(),
                final(self).pulses(),
                burst_pulses(frame@, repetitions as int),
            ),
            result is Ok ==> final(self).sent() == old(self).sent().push(
                (Transmission {
                    bytes: frame@,
                    repetitions: repetitions as nat,
                    succeeded: true,
                }),
            ),
            result is Err ==> final(self).sent() == old(self).sent().push(
                (Transmission {
                    bytes: frame@,
                    repetitions: repetitions as nat,
                    succeeded: false,
                }),
            ),
            L::spec_infallible() ==> result is Ok,
    {
        let ghost pre = self.pulses();
        let ghost wake = wake_up_pulses();
        let ghost once = frame_pulses(frame@, HARDWARE_SYNC_COUNT_ONCE as int);
        let ghost target = burst_pulses(frame@, repetitions as int);

        match self.wake_up() {
            Ok(()) => {},
            Err(e) => {
                proof {
                    lemma_prefix_self_app(wake, once);
                    lemma_prefix_self_app(wake + once, repeated_frames_pulses(
                        frame@,
                        repetitions as int,
                    ));
                    lemma_prefix_trans(wake, wake + once, target);
                    lemma_sent_prefix_weaken(pre, self.pulses(), wake, target);
                    self.log@ = self.log@.push(
                        Transmission {
                            bytes: frame@,
                            repetitions: repetitions as nat,
                            succeeded: false,
                        },
                    );
                }
                return Err(e);
            },
        }
        let ghost after_wake = self.pulses();
        match self.send_frame_with_type(frame, SyncType::Once) {
            Ok(()) => {},
            Err(e) => {
                proof {
                    lemma_sent_then_prefix(pre, after_wake, self.pulses(), wake, once);
                    lemma_prefix_self_app(wake + once, repeated_frames_pulses(
                        frame@,
                        repetitions as int,
                    ));
                    lemma_sent_prefix_weaken(pre, self.pulses(), wake + once, target);
                    self.log@ = self.log@.push(
                        Transmission {
                            bytes: frame@,
                            repetitions: repetitions as nat,
                            succeeded: false,
                        },
                    );
                }
                return Err(e);
            },
        }
        let ghost base = self.pulses();
        proof {
            assert(base =~= pre + (wake + once));
        }
        let mut k: usize = 0;
        while k < repetitions
            invariant
                pre == old(self).pulses(),
                self.sent() == old(self).sent(),
                k <= repetitions,
                wake == wake_up_pulses(),
                once == frame_pulses(frame@, HARDWARE_SYNC_COUNT_ONCE as int),
                target == burst_pulses(frame@, repetitions as int),
                base == pre + (wake + once),
                self.pulses() == base + repeated_frames_pulses(frame@, k as int),
            decreases repetitions - k,
        {
            let ghost mid = self.pulses();
            match self.send_frame_with_type(frame, SyncType::Repeat) {
                Ok(()) => {},
                Err(e) => {
                    proof {
                        lemma_sent_then_prefix(
                            base,
                            mid,
                            self.pulses(),
                            repeated_frames_pulses(frame@, k as int),
                            frame_pulses(frame@, HARDWARE_SYNC_COUNT_REPEAT as int),
                        );
                        assert(repeated_frames_pulses(frame@, k as int) + frame_pulses(
                            frame@,
                            HARDWARE_SYNC_COUNT_REPEAT as int,
                        ) == repeated_frames_pulses(frame@, k as int + 1));
                        lemma_repeated_frames_mono(frame@, k as int + 1, repetitions as int);
                        lemma_sent_prefix_weaken(
                            base,
                            self.pulses(),
                            repeated_frames_pulses(frame@, k as int + 1),
                            repeated_frames_pulses(frame@, repetitions as int),
                        );
                        lemma_sent_then_prefix(
                            pre,
                            base,
                            self.pulses(),
                            wake + once,
                            repeated_frames_pulses(frame@, repetitions as int),
                        );
                        assert((wake + once) + repeated_frames_pulses(frame@, repetitions as int)
                            =~= target);
                        self.log@ = self.log@.push(
                            Transmission {
                                bytes: frame@,
                                repetitions: repetitions as nat,
                                succeeded: false,
                            },
                        );
                    }
                    return Err(e);
                },
            }
            proof {
                assert(self.pulses() =~= base + repeated_frames_pulses(frame@, k as int + 1));
            }
            k = k + 1;
        }
        proof {
            assert(self.pulses() =~= pre + target);
            self.log@ = self.log@.push(
                Transmission {
                    bytes: frame@,
                    repetitions: repetitions as nat,
                    succeeded: true,
                },
            );
        }
        Ok(())
    }
}

/// A test double line: emits pulses while a budget lasts and fails on
/// every call after it runs out, so a fault in the middle of a burst can
/// be exercised without hardware.
pub struct FailingLine {
    budget: usize,
    recorded: Vec<Pulse>,
}

impl FailingLine {
    /// A line that will accept exactly `budget` pulses and then fail.
    pub fn new(budget: usize) -> (line: FailingLine)
        ensures
            line.pulses() == Seq::<Pulse>::empty(),
    {
        FailingLine { budget, recorded: Vec::new() }
    }

    /// The pulses the line accepted before failing.
    pub fn sent(&self) -> (sent: &Vec<Pulse>)
        ensures
            sent@ == self.pulses(),
    {
        &self.recorded
    }
}

impl PulseLine for FailingLine {
    type Error = ();

    closed spec fn pulses(&self) -> Seq<Pulse> {
        self.recorded@
    }

    /// This line does fail.
    open spec fn spec_infallible() -> bool {
        false
    }

    fn send_pulse(&mut self, high: bool, duration: u32) -> (result: Result<(), ()>) {
        if self.budget == 0 {
            Err(())
        } else {
            self.budget = self.budget - 1;
            self.recorded.push(Pulse { high, duration });
            Ok(())
        }
    }
}

impl<L: PulseLine> SendFrame for Sender<L> {
    type Error = L::Error;

    /// The log kept alongside the line.
    closed spec fn sent(&self) -> Seq<Transmission> {
        self.log@
    }

    /// The sender fails exactly when its line can.
    open spec fn spec_infallible() -> bool {
        L::spec_infallible()
    }

    fn send_frame_repeat(&mut self, frame: &Frame, repetitions: usize) -> (result: Result<
        (),
        L::Error,
    >)
        ensures
            result is Ok ==> final(self).pulses() == old(self).pulses() + burst_pulses(
                frame@,
                repetitions as int,
            ),
            result is Err ==> sent_prefix(
                old(self).pulses(),
                final(self).pulses(),
                burst_pulses(frame@, repetitions as int),
            ),
    {
        self.transmit(frame, repetitions)
    }
}

} // verus!
