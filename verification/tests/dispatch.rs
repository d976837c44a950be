use ethvm::dispatch::DispatchTable;
use ethvm::table::{BuildError, OpcodeDescriptor, OpcodeTable};

fn dispatch_table_rows() -> OpcodeTable {
    let rows: Vec<(u16, &str)> = vec![(0x00, "STOP"), (0x01, "ADD"), (0x02, "MUL")];
    let descs: Vec<OpcodeDescriptor> = rows
        .into_iter()
        .map(|(value, mnemonic)| OpcodeDescriptor {
            value,
            mnemonic: mnemonic.to_string(),
            immediate_size: 0,
            stack_removed: 0,
            stack_added: 0,
        })
        .collect();
    OpcodeTable::build(&descs).unwrap()
}

#[test]
fn builds_with_default_everywhere_else() {
    let table = dispatch_table_rows();
    let actions: Vec<(String, i32)> = vec![("ADD".to_string(), 10), ("STOP".to_string(), 20)];
    let dt = DispatchTable::build(&table, &actions, -1).unwrap();
    assert_eq!(dt.len(), 256);
    assert_eq!(dt.get(0x01), 10);
    assert_eq!(dt.get(0x00), 20);
    assert_eq!(dt.get(0x02), -1);
    assert_eq!(dt.get(0xff), -1);
}

#[test]
fn later_action_for_same_mnemonic_wins() {
    let table = dispatch_table_rows();
    let actions: Vec<(String, i32)> = vec![
        ("ADD".to_string(), 1),
        ("MUL".to_string(), 2),
        ("ADD".to_string(), 7),
    ];
    let dt = DispatchTable::build(&table, &actions, 0).unwrap();
    assert_eq!(dt.get(0x01), 7);
    assert_eq!(dt.get(0x02), 2);
}

#[test]
fn unresolved_mnemonic_fails_build() {
    let table = dispatch_table_rows();
    let actions: Vec<(String, i32)> = vec![("ADD".to_string(), 1), ("NOPE".to_string(), 2)];
    let err = DispatchTable::build(&table, &actions, 0).unwrap_err();
    assert_eq!(err, BuildError::UndefinedOpcode("NOPE".to_string()));
}

fn halt() -> u32 {
    1
}

fn arith() -> u32 {
    2
}

fn unknown() -> u32 {
    0
}

#[test]
fn dispatches_function_handlers() {
    let table = dispatch_table_rows();
    type Handler = fn() -> u32;
    let actions: Vec<(String, Handler)> = vec![
        ("STOP".to_string(), halt as Handler),
        ("ADD".to_string(), arith as Handler),
    ];
    let dt = DispatchTable::build(&table, &actions, unknown as Handler).unwrap();
    assert_eq!(dt.get(0x00)(), 1);
    assert_eq!(dt.get(0x01)(), 2);
    assert_eq!(dt.get(0x77)(), 0);
}
