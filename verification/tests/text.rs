use ethvm::codec::InstructionCodec;
use ethvm::opcode::{InstructionSequence, OpCode};
use ethvm::table::{OpcodeDescriptor, OpcodeTable};
use ethvm::text::TextError;

fn text_table() -> OpcodeTable {
    let rows: Vec<(u16, &str, u8)> = vec![
        (0x00, "STOP", 0),
        (0x01, "ADD", 0),
        (0x20, "SHA3", 0),
        (0x60, "PUSH1", 1),
        (0x61, "PUSH2", 2),
    ];
    let descs: Vec<OpcodeDescriptor> = rows
        .into_iter()
        .map(|(value, mnemonic, immediate_size)| OpcodeDescriptor {
            value,
            mnemonic: mnemonic.to_string(),
            immediate_size,
            stack_removed: 0,
            stack_added: 0,
        })
        .collect();
    OpcodeTable::build(&descs).unwrap()
}

fn prog_of(ops: Vec<OpCode>) -> InstructionSequence {
    InstructionSequence::from_ops(ops)
}

#[test]
fn render_program() {
    let table = text_table();
    let codec = InstructionCodec::new(&table);
    let prog = prog_of(vec![
        OpCode::Fixed("STOP".to_string()),
        OpCode::WithImmediate("PUSH2".to_string(), vec![0x01, 0xfe]),
        OpCode::Unrecognized(0x05),
        OpCode::Unrecognized(0xcc),
    ]);
    let text = codec.to_text(&prog);
    assert_eq!(text, "STOP\nPUSH2 0x01fe\nUNKNOWN 0x5\nUNKNOWN 0xcc\n");
}

#[test]
fn parse_fixed_and_immediate() {
    let table = text_table();
    let codec = InstructionCodec::new(&table);
    let prog = codec.from_text("PUSH1 0xab ADD STOP").unwrap();
    let expected = prog_of(vec![
        OpCode::WithImmediate("PUSH1".to_string(), vec![0xab]),
        OpCode::Fixed("ADD".to_string()),
        OpCode::Fixed("STOP".to_string()),
    ]);
    assert!(prog == expected);
}

#[test]
fn parse_right_aligns_short_literals() {
    let table = text_table();
    let codec = InstructionCodec::new(&table);
    let prog = codec.from_text("PUSH2 0xab").unwrap();
    let expected = prog_of(vec![OpCode::WithImmediate("PUSH2".to_string(), vec![0x00, 0xab])]);
    assert!(prog == expected);
    let prog = codec.from_text("PUSH2 0x123").unwrap();
    let expected = prog_of(vec![OpCode::WithImmediate("PUSH2".to_string(), vec![0x01, 0x23])]);
    assert!(prog == expected);
}

#[test]
fn parse_keccak_alias_matches_sha3() {
    let table = text_table();
    let codec = InstructionCodec::new(&table);
    let from_alias = codec.from_text("KECCAK256").unwrap();
    let from_canonical = codec.from_text("SHA3").unwrap();
    assert!(from_alias == from_canonical);
    let expected = prog_of(vec![OpCode::Fixed("SHA3".to_string())]);
    assert!(from_alias == expected);
}

#[test]
fn parse_unknown_byte_forms() {
    let table = text_table();
    let codec = InstructionCodec::new(&table);
    let prog = codec.from_text("UNKNOWN 0xcc").unwrap();
    let expected = prog_of(vec![OpCode::Unrecognized(0xcc)]);
    assert!(prog == expected);
    let prog = codec.from_text("0xcc").unwrap();
    assert!(prog == expected);
    let prog = codec.from_text("0x5 STOP").unwrap();
    let expected = prog_of(vec![OpCode::Unrecognized(0x05), OpCode::Fixed("STOP".to_string())]);
    assert!(prog == expected);
    let prog = codec.from_text("UNKNOWN 0xAB").unwrap();
    let expected = prog_of(vec![OpCode::Unrecognized(0xab)]);
    assert!(prog == expected);
}

#[test]
fn parse_reports_missing_literal() {
    let table = text_table();
    let codec = InstructionCodec::new(&table);
    let err = codec.from_text("PUSH1").unwrap_err();
    assert_eq!(err, TextError::BadHexSizeFor(1));
}

#[test]
fn parse_reports_wrong_literal_length() {
    let table = text_table();
    let codec = InstructionCodec::new(&table);
    let err = codec.from_text("PUSH1 0xabc").unwrap_err();
    assert_eq!(err, TextError::BadHexSizeFor(1));
    let err = codec.from_text("STOP PUSH1 0x").unwrap_err();
    assert_eq!(err, TextError::BadHexSizeFor(2));
}

#[test]
fn parse_reports_missing_prefix() {
    let table = text_table();
    let codec = InstructionCodec::new(&table);
    let err = codec.from_text("PUSH1 abcd").unwrap_err();
    assert_eq!(err, TextError::BadHexFor(1));
}

#[test]
fn parse_reports_bad_digit() {
    let table = text_table();
    let codec = InstructionCodec::new(&table);
    let err = codec.from_text("PUSH1 0xg").unwrap_err();
    assert_eq!(err, TextError::BadHexAt(1, "0xg".to_string(), 2));
    // The rightmost bad character is the one reported.
    let err = codec.from_text("PUSH2 0xg1z2").unwrap_err();
    assert_eq!(err, TextError::BadHexAt(1, "0xg1z2".to_string(), 4));
}

#[test]
fn parse_reports_unknown_token() {
    let table = text_table();
    let codec = InstructionCodec::new(&table);
    let err = codec.from_text("FOO").unwrap_err();
    assert_eq!(err, TextError::UnknownInstruction(0, "FOO".to_string()));
    let err = codec.from_text("UNKNOWN STOPPED").unwrap_err();
    assert_eq!(err, TextError::UnknownInstruction(1, "STOPPED".to_string()));
    let err = codec.from_text("STOP UNKNOWN").unwrap_err();
    assert_eq!(err, TextError::UnknownInstruction(2, String::new()));
    let err = codec.from_text("0xcccc").unwrap_err();
    assert_eq!(err, TextError::UnknownInstruction(0, "0xcccc".to_string()));
}

#[test]
fn text_round_trip() {
    let table = text_table();
    let codec = InstructionCodec::new(&table);
    let prog = prog_of(vec![
        OpCode::WithImmediate("PUSH2".to_string(), vec![0xde, 0xad]),
        OpCode::Fixed("SHA3".to_string()),
        OpCode::Unrecognized(0xfe),
        OpCode::Fixed("STOP".to_string()),
    ]);
    let text = codec.to_text(&prog);
    let parsed = codec.from_text(text.as_str()).unwrap();
    assert!(parsed == prog);
}

#[test]
fn tokenizing_splits_on_any_whitespace() {
    let table = text_table();
    let codec = InstructionCodec::new(&table);
    let prog = codec.from_text("  STOP\n\tADD \r\n SHA3  ").unwrap();
    let expected = prog_of(vec![
        OpCode::Fixed("STOP".to_string()),
        OpCode::Fixed("ADD".to_string()),
        OpCode::Fixed("SHA3".to_string()),
    ]);
    assert!(prog == expected);
}

#[test]
fn empty_text_parses_to_empty_program() {
    let table = text_table();
    let codec = InstructionCodec::new(&table);
    assert_eq!(codec.from_text("").unwrap().len(), 0);
    assert_eq!(codec.from_text("   \n ").unwrap().len(), 0);
}
