use somfy::{Remote, RollingCodeStorage, Storage, UnknownRemote};

#[test]
fn lookup_finds_added_remotes_by_name() {
    let mut storage = Storage::new();
    assert!(storage.add_remote(String::from("Remote A"), 0xAA, 0xA7));
    assert!(storage.add_remote(String::from("Remote B"), 0xAF, 0xA7));

    let a = storage.remote("Remote A").expect("Remote A missing");
    assert_eq!(a.address(), 0xAA);
    assert_eq!(a.rolling_code(), 0xA7);

    let b = storage.remote("Remote B").expect("Remote B missing");
    assert_eq!(b.address(), 0xAF);

    assert!(storage.remote("Remote C").is_none());
    assert!(storage.remote("remote a").is_none());
}

#[test]
fn duplicate_name_or_address_is_refused() {
    let mut storage = Storage::new();
    assert!(storage.add_remote(String::from("a"), 0x10, 1));
    assert!(!storage.add_remote(String::from("a"), 0x20, 2));
    assert!(!storage.add_remote(String::from("b"), 0x10, 2));
    assert!(storage.add_remote(String::from("b"), 0x20, 2));
    assert_eq!(storage.remote("a").expect("a missing").address(), 0x10);
}

#[test]
fn names_and_remotes_share_entry_order() {
    let mut storage = Storage::new();
    assert!(storage.add_remote(String::from("first"), 0x01, 10));
    assert!(storage.add_remote(String::from("second"), 0x02, 20));

    let names = storage.names();
    let remotes = storage.remotes();
    assert_eq!(names.len(), 2);
    assert_eq!(remotes.len(), 2);
    for (name, remote) in names.iter().zip(remotes.iter()) {
        assert_eq!(storage.remote(name).expect("entry missing").address(), remote.address());
    }
}

#[test]
fn update_of_unknown_address_is_an_error_not_a_no_op() {
    let mut storage = Storage::new();
    assert!(storage.add_remote(String::from("a"), 0x10, 1));

    let unknown = Remote::new(0x99, 5);
    assert_eq!(storage.update_rolling_code(&unknown), Err(UnknownRemote));
    assert_eq!(storage.remote("a").expect("a missing").rolling_code(), 1);

    let known = Remote::new(0x10, 5);
    assert_eq!(storage.persist(&known), Ok(()));
    assert_eq!(storage.remote("a").expect("a missing").rolling_code(), 5);
}
