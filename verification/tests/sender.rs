use somfy::{
    coalesce_pulses, Command, FailingLine, Frame, Pulse, SendFrame, Sender, SpiSender,
    HALF_SYMBOL, HARDWARE_SYNC_PULSE, INTER_FRAME_GAP, SOFTWARE_SYNC_HIGH, WAKE_UP_HIGH,
    WAKE_UP_LOW,
};

fn pulse(high: bool, duration: u32) -> Pulse {
    Pulse { high, duration }
}

fn test_frame() -> Frame {
    Frame::builder()
        .key(0xA7)
        .command(Command::Up)
        .rolling_code(42)
        .remote_address(0xFFAA11)
        .build()
        .expect("Failed to build frame")
}

fn push_frame_pulses(bytes: &[u8], sync_pairs: usize, out: &mut Vec<Pulse>) {
    for _ in 0..sync_pairs {
        out.push(pulse(true, HARDWARE_SYNC_PULSE));
        out.push(pulse(false, HARDWARE_SYNC_PULSE));
    }
    out.push(pulse(true, SOFTWARE_SYNC_HIGH));
    out.push(pulse(false, HALF_SYMBOL));
    for &byte in bytes {
        for bit in 0..8 {
            if (byte >> (7 - bit)) & 1 == 1 {
                out.push(pulse(false, HALF_SYMBOL));
                out.push(pulse(true, HALF_SYMBOL));
            } else {
                out.push(pulse(true, HALF_SYMBOL));
                out.push(pulse(false, HALF_SYMBOL));
            }
        }
    }
    out.push(pulse(false, INTER_FRAME_GAP));
}

fn expected_burst(bytes: &[u8], repetitions: usize) -> Vec<Pulse> {
    let mut out = Vec::new();
    out.push(pulse(true, WAKE_UP_HIGH));
    out.push(pulse(false, WAKE_UP_LOW));
    push_frame_pulses(bytes, 2, &mut out);
    for _ in 0..repetitions {
        push_frame_pulses(bytes, 7, &mut out);
    }
    out
}

#[test]
fn transmit_emits_exactly_the_burst() {
    let frame = test_frame();
    let mut sender = Sender::new(FailingLine::new(usize::MAX));
    sender.transmit(&frame, 0).expect("transmit failed");
    assert_eq!(*sender.transmitter.sent(), expected_burst(&frame.as_bytes(), 0));
}

#[test]
fn repetitions_use_the_denser_sync() {
    let frame = test_frame();
    let mut sender = Sender::new(FailingLine::new(usize::MAX));
    sender.transmit(&frame, 2).expect("transmit failed");
    let expected = expected_burst(&frame.as_bytes(), 2);
    assert_eq!(expected.len(), 121 + 2 * 129);
    assert_eq!(*sender.transmitter.sent(), expected);
}

#[test]
fn single_burst_pulse_count() {
    let frame = test_frame();
    let mut sender = Sender::new(FailingLine::new(usize::MAX));
    sender.transmit(&frame, 0).expect("transmit failed");
    assert_eq!(sender.transmitter.sent().len(), 2 + 4 + 2 + 7 * 8 * 2 + 1);
}

#[test]
fn failure_cuts_the_burst_at_the_failing_pulse() {
    let frame = test_frame();
    let full = expected_burst(&frame.as_bytes(), 3);
    for budget in [0, 1, 5, 121, 200, 250] {
        let mut sender = Sender::new(FailingLine::new(budget));
        assert!(sender.transmit(&frame, 3).is_err());
        assert_eq!(*sender.transmitter.sent(), full[..budget]);
    }
}

#[test]
fn send_frame_sends_one_burst_without_repetition() {
    let frame = test_frame();
    let mut sender = Sender::new(FailingLine::new(usize::MAX));
    sender.send_frame(&frame).expect("send failed");
    assert_eq!(*sender.transmitter.sent(), expected_burst(&frame.as_bytes(), 0));
}

#[test]
fn coalesce_merges_runs_and_saturates() {
    let raw = vec![
        pulse(true, 5),
        pulse(true, 3),
        pulse(false, 2),
        pulse(false, 2),
        pulse(true, 1),
    ];
    assert_eq!(
        coalesce_pulses(&raw),
        vec![pulse(true, 8), pulse(false, 4), pulse(true, 1)]
    );
    let big = vec![pulse(true, u32::MAX), pulse(true, 5)];
    assert_eq!(coalesce_pulses(&big), vec![pulse(true, u32::MAX)]);
    assert_eq!(coalesce_pulses(&Vec::new()), Vec::<Pulse>::new());
}

#[test]
fn spi_waveform_matches_the_coalesced_burst() {
    let frame = test_frame();

    let mut raw_sender = Sender::new(FailingLine::new(usize::MAX));
    raw_sender.transmit(&frame, 1).expect("transmit failed");
    let raw = raw_sender.transmitter.sent();

    let mut spi = SpiSender::new();
    spi.send_frame_repeat(&frame, 1).expect("send failed");
    let waveform = spi.waveform();

    assert_eq!(*waveform, coalesce_pulses(raw));

    let raw_total: u64 = raw.iter().map(|p| p.duration as u64).sum();
    let merged_total: u64 = waveform.iter().map(|p| p.duration as u64).sum();
    assert_eq!(raw_total, merged_total);

    for pair in waveform.windows(2) {
        assert_ne!(pair[0].high, pair[1].high);
    }
    assert_eq!(waveform[0], pulse(true, WAKE_UP_HIGH));
}
