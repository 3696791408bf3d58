use somfy::{
    Command, Error, FailingLine, Remote, RollingCodeStorage, Sender, SpiSender, Storage,
};

fn storage_with(name: &str, address: u32, rolling_code: u16) -> Storage {
    let mut storage = Storage::new();
    assert!(storage.add_remote(String::from(name), address, rolling_code));
    storage
}

#[test]
fn successful_sends_advance_and_persist_the_code() {
    let mut storage = storage_with("bedroom", 0xFFAA11, 42);
    let mut remote = Remote::new(0xFFAA11, 42);
    let mut sender = SpiSender::new();

    let n = 5;
    for _ in 0..n {
        remote
            .send_repeat(&mut sender, &mut storage, Command::Up, 1)
            .expect("send failed");
    }

    assert_eq!(remote.rolling_code(), 42 + n);
    let stored = storage.remote("bedroom").expect("remote missing");
    assert_eq!(stored.rolling_code(), 42 + n);
    assert_eq!(stored.address(), 0xFFAA11);
}

#[test]
fn rolling_code_wraps_modulo_two_to_the_sixteen() {
    let mut storage = storage_with("edge", 0x000001, 0xFFFF);
    let mut remote = Remote::new(0x000001, 0xFFFF);
    let mut sender = SpiSender::new();

    remote
        .send_repeat(&mut sender, &mut storage, Command::Down, 0)
        .expect("send failed");
    assert_eq!(remote.rolling_code(), 0);
    assert_eq!(storage.remote("edge").expect("remote missing").rolling_code(), 0);
}

#[test]
fn transmit_failure_leaves_code_and_store_untouched() {
    let mut storage = storage_with("bedroom", 0xFFAA11, 42);
    let mut remote = Remote::new(0xFFAA11, 42);
    let mut sender = Sender::new(FailingLine::new(130));

    let result = remote.send_repeat(&mut sender, &mut storage, Command::Up, 3);
    assert!(matches!(result, Err(Error::TransmitError(()))));

    assert_eq!(remote.rolling_code(), 42);
    assert_eq!(storage.remote("bedroom").expect("remote missing").rolling_code(), 42);
}

#[test]
fn storage_failure_reports_distinctly_after_code_advanced() {
    let mut storage = Storage::new();
    let mut remote = Remote::new(0xFFAA11, 42);
    let mut sender = SpiSender::new();

    let result = remote.send_repeat(&mut sender, &mut storage, Command::Up, 0);
    assert!(matches!(result, Err(Error::StorageError(_))));

    assert_eq!(remote.rolling_code(), 43);
    assert!(!spi_waveform_is_empty(&sender));
}

fn spi_waveform_is_empty(sender: &SpiSender) -> bool {
    sender.waveform().is_empty()
}

#[test]
fn send_is_send_repeat_with_no_repetitions() {
    let mut storage = storage_with("bedroom", 0xFFAA11, 7);
    let mut remote = Remote::new(0xFFAA11, 7);
    let mut sender = SpiSender::new();

    remote.send(&mut sender, &mut storage, Command::My).expect("send failed");
    assert_eq!(remote.rolling_code(), 8);

    let mut reference = SpiSender::new();
    let mut reference_storage = storage_with("bedroom", 0xFFAA11, 7);
    let mut reference_remote = Remote::new(0xFFAA11, 7);
    reference_remote
        .send_repeat(&mut reference, &mut reference_storage, Command::My, 0)
        .expect("send failed");
    assert_eq!(sender.waveform(), reference.waveform());
}

#[test]
fn persist_updates_matching_entry_only() {
    let mut storage = Storage::new();
    assert!(storage.add_remote(String::from("a"), 0x000010, 1));
    assert!(storage.add_remote(String::from("b"), 0x000020, 2));

    let updated = Remote::new(0x000020, 99);
    storage.persist(&updated).expect("persist failed");

    assert_eq!(storage.remote("a").expect("remote missing").rolling_code(), 1);
    assert_eq!(storage.remote("b").expect("remote missing").rolling_code(), 99);
}
