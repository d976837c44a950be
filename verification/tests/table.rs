use ethvm::table::{BuildError, OpcodeDescriptor, OpcodeTable};

fn descriptor(value: u16, mnemonic: &str, immediate_size: u8, removed: u8, added: u8) -> OpcodeDescriptor {
    OpcodeDescriptor {
        value,
        mnemonic: mnemonic.to_string(),
        immediate_size,
        stack_removed: removed,
        stack_added: added,
    }
}

#[test]
fn build_and_look_up() {
    let descs = vec![
        descriptor(0x00, "STOP", 0, 0, 0),
        descriptor(0x01, "ADD", 0, 2, 1),
        descriptor(0x20, "SHA3", 0, 2, 1),
        descriptor(0x60, "PUSH1", 1, 0, 1),
        descriptor(0x61, "PUSH2", 2, 0, 1),
    ];
    let table = OpcodeTable::build(&descs).unwrap();
    let add = table.lookup_value(0x01).unwrap();
    assert_eq!(add.mnemonic, "ADD");
    assert_eq!(add.immediate_size, 0);
    assert_eq!(add.stack_removed, 2);
    assert_eq!(add.stack_added, 1);
    let push1 = table.lookup_value(0x60).unwrap();
    assert_eq!(push1.mnemonic, "PUSH1");
    assert_eq!(push1.immediate_size, 1);
    assert!(table.lookup_value(0x02).is_none());
    assert_eq!(table.lookup_mnemonic("PUSH2"), Some(0x61));
    assert_eq!(table.lookup_mnemonic("SHA3"), Some(0x20));
    assert_eq!(table.lookup_mnemonic("MUL"), None);
    assert_eq!(table.lookup_mnemonic("push1"), None);
}

#[test]
fn duplicate_value_rejected() {
    let descs = vec![
        descriptor(0x01, "ADD", 0, 2, 1),
        descriptor(0x01, "MUL", 0, 2, 1),
    ];
    let err = OpcodeTable::build(&descs).unwrap_err();
    assert_eq!(err, BuildError::DuplicateValue(0x01));
}

#[test]
fn duplicate_mnemonic_rejected() {
    let descs = vec![
        descriptor(0x01, "ADD", 0, 2, 1),
        descriptor(0x02, "ADD", 0, 2, 1),
    ];
    let err = OpcodeTable::build(&descs).unwrap_err();
    assert_eq!(err, BuildError::DuplicateMnemonic("ADD".to_string()));
}

#[test]
fn value_out_of_range_rejected() {
    let descs = vec![
        descriptor(0x00, "STOP", 0, 0, 0),
        descriptor(0x100, "BIG", 0, 0, 0),
    ];
    let err = OpcodeTable::build(&descs).unwrap_err();
    assert_eq!(err, BuildError::ValueOutOfRange(0x100));
}

#[test]
fn first_offence_wins() {
    // The out-of-range value of the second descriptor is hit before the
    // duplicate value of the third.
    let descs = vec![
        descriptor(0x01, "ADD", 0, 2, 1),
        descriptor(0x300, "HUGE", 0, 0, 0),
        descriptor(0x01, "MUL", 0, 2, 1),
    ];
    let err = OpcodeTable::build(&descs).unwrap_err();
    assert_eq!(err, BuildError::ValueOutOfRange(0x300));
}

#[test]
fn empty_table_builds() {
    let descs: Vec<OpcodeDescriptor> = Vec::new();
    let table = OpcodeTable::build(&descs).unwrap();
    for v in 0..=255u8 {
        assert!(table.lookup_value(v).is_none());
    }
}
