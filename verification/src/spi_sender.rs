use vstd::prelude::*;

use crate::frame::Frame;
use crate::frame::SendFrame;
use crate::frame::Transmission;
use crate::sender::{burst_pulses, pulse, Pulse, PulseLine, Sender};

verus! {

/// `a + b`, stopping at the largest representable duration.
pub open spec fn sat_add(a: u32, b: u32) -> u32 {
    if a + b > u32::MAX {
        u32::MAX
    } else {
        (a + b) as u32
    }
}

/// `pulses` with every run of equal-level pulses merged into one pulse
/// whose duration is the run's sum: the line-level waveform, as a port
/// that can only shift whole level/duration pairs out needs it.
pub open spec fn coalesce(pulses: Seq<Pulse>) -> Seq<Pulse>
    decreases pulses.len(),
{
    if pulses.len() == 0 {
        Seq::empty()
    } else {
        let rest = coalesce(pulses.drop_last());
        let last = pulses.last();
        if rest.len() > 0 && rest.last().high == last.high {
            rest.update(
                rest.len() - 1,
                pulse(last.high, sat_add(rest.last().duration, last.duration)),
            )
        } else {
            rest.push(last)
        }
    }
}

/// Merge every run of equal-level pulses into one pulse with the run's
/// summed duration.
pub fn coalesce_pulses(pulses: &Vec<Pulse>) -> (merged: Vec<Pulse>)
    ensures
        merged@ == coalesce(pulses@),
{
    let mut merged: Vec<Pulse> = Vec::new();
    let mut i: usize = 0;
    while i < pulses.len()
        invariant
            i <= pulses@.len(),
            merged@ == coalesce(pulses@.take(i as int)),
        decreases pulses@.len() - i,
    {
        let p = pulses[i];
        if merged.len() > 0 {
            let j = merged.len() - 1;
            if merged[j].high == p.high {
                let d = merged[j].duration;
                let summed = if d > u32::MAX - p.duration {
                    u32::MAX
                } else {
                    d + p.duration
                };
                let _ = merged.pop();
                merged.push(Pulse { high: p.high, duration: summed });
            } else {
                merged.push(p);
            }
        } else {
            merged.push(p);
        }
        proof {
            let taken = pulses@.take(i as int + 1);
            assert(taken.drop_last() =~= pulses@.take(i as int));
            assert(taken.last() == pulses@[i as int]);
            assert(merged@ =~= coalesce(taken));
        }
        i = i + 1;
    }
    proof {
        assert(pulses@.take(pulses@.len() as int) =~= pulses@);
    }
    merged
}

/// Records every pulse the transmitter asks for instead of driving
/// hardware; it never fails. `finish` hands the pulses out as the
/// line-level waveform.
pub struct SpiPulseAccumulator {
    recorded: Vec<Pulse>,
}

impl SpiPulseAccumulator {
    /// An accumulator that has recorded nothing.
    pub fn new() -> (accumulator: SpiPulseAccumulator)
        ensures
            accumulator.pulses() == Seq::<Pulse>::empty(),
    {
        SpiPulseAccumulator { recorded: Vec::new() }
    }

    /// The recorded pulses as the line-level waveform: every run of
    /// equal-level pulses merged into one.
    pub fn finish(self) -> (waveform: Vec<Pulse>)
        ensures
            waveform@ == coalesce(self.pulses()),
    {
        coalesce_pulses(&self.recorded)
    }
}

impl PulseLine for SpiPulseAccumulator {
    type Error = core::convert::Infallible;

    closed spec fn pulses(&self) -> Seq<Pulse> {
        self.recorded@
    }

    /// Recording cannot fail.
    open spec fn spec_infallible() -> bool {
        true
    }

    fn send_pulse(&mut self, high: bool, duration: u32) -> (result: Result<
        (),
        core::convert::Infallible,
    >) {
        self.recorded.push(Pulse { high, duration });
        Ok(())
    }
}

/// A sender that does not drive an output line itself: it computes the
/// line-level waveform of the burst and keeps it, for a caller to shift
/// out over a port or inspect.
pub struct SpiSender {
    waveform: Vec<Pulse>,
    log: Ghost<Seq<Transmission>>,
}

impl SpiSender {
    /// The waveform of the last send: level/duration pairs, equal levels
    /// merged.
    pub closed spec fn spec_waveform(&self) -> Seq<Pulse> {
        self.waveform@
    }

    /// A sender that has sent nothing yet.
    pub fn new() -> (sender: SpiSender)
        ensures
            sender.spec_waveform() == Seq::<Pulse>::empty(),
            sender.sent() == Seq::<Transmission>::empty(),
    {
        SpiSender { waveform: Vec::new(), log: Ghost(Seq::empty()) }
    }

    /// The waveform computed by the last send.
    pub fn waveform(&self) -> (waveform: &Vec<Pulse>)
        ensures
            waveform@ == self.spec_waveform(),
    {
        &self.waveform
    }

    /// Compute and keep the line-level waveform of one burst: the frame
    /// sent once with the short sync and `repetitions` more times with the
    /// repeat sync, with equal-level pulse runs merged.
    pub fn record(&mut self, frame: &Frame, repetitions: usize)
        ensures
            final(self).spec_waveform() == coalesce(burst_pulses(frame@, repetitions as int)),
            final(self).sent() == old(self).sent().push(
                (Transmission {
                    bytes: frame@,
                    repetitions: repetitions as nat,
                    succeeded: true,
                }),
            ),
    {
        let accumulator = SpiPulseAccumulator::new();
        let mut sender = Sender::new(accumulator);
        match sender.transmit(frame, repetitions) {
            Ok(()) => {
                self.waveform = sender.transmitter.finish();
            },
            Err(_) => {
                proof {
                    assert(false);
                }
                self.waveform = Vec::new();
            },
        }
        proof {
            self.log@ = self.log@.push(
                Transmission {
                    bytes: frame@,
                    repetitions: repetitions as nat,
                    succeeded: true,
                },
            );
        }
    }
}

impl SendFrame for SpiSender {
    type Error = core::convert::Infallible;

    /// The log of bursts whose waveforms were computed.
    closed spec fn sent(&self) -> Seq<Transmission> {
        self.log@
    }

    /// Computing a waveform cannot fail.
    open spec fn spec_infallible() -> bool {
        true
    }

    fn send_frame_repeat(&mut self, frame: &Frame, repetitions: usize) -> (result: Result<
        (),
        core::convert::Infallible,
    >)
        ensures
            final(self).spec_waveform() == coalesce(burst_pulses(frame@, repetitions as int)),
    {
        self.record(frame, repetitions);
        Ok(())
    }
}

} // verus!
