use ethvm::codec::{DecodeError, InstructionCodec};
use ethvm::opcode::{InstructionSequence, OpCode};
use ethvm::table::{OpcodeDescriptor, OpcodeTable};

fn sample_table() -> OpcodeTable {
    let descs = vec![
        OpcodeDescriptor {
            value: 0x00,
            mnemonic: "STOP".to_string(),
            immediate_size: 0,
            stack_removed: 0,
            stack_added: 0,
        },
        OpcodeDescriptor {
            value: 0x01,
            mnemonic: "ADD".to_string(),
            immediate_size: 0,
            stack_removed: 2,
            stack_added: 1,
        },
        OpcodeDescriptor {
            value: 0x20,
            mnemonic: "SHA3".to_string(),
            immediate_size: 0,
            stack_removed: 2,
            stack_added: 1,
        },
        OpcodeDescriptor {
            value: 0x60,
            mnemonic: "PUSH1".to_string(),
            immediate_size: 1,
            stack_removed: 0,
            stack_added: 1,
        },
        OpcodeDescriptor {
            value: 0x61,
            mnemonic: "PUSH2".to_string(),
            immediate_size: 2,
            stack_removed: 0,
            stack_added: 1,
        },
        OpcodeDescriptor {
            value: 0x7f,
            mnemonic: "PUSH32".to_string(),
            immediate_size: 32,
            stack_removed: 0,
            stack_added: 1,
        },
    ];
    OpcodeTable::build(&descs).unwrap()
}

fn fixed(m: &str) -> OpCode {
    OpCode::Fixed(m.to_string())
}

fn with_imm(m: &str, iv: &[u8]) -> OpCode {
    OpCode::WithImmediate(m.to_string(), iv.to_vec())
}

fn seq_of(ops: Vec<OpCode>) -> InstructionSequence {
    InstructionSequence::from_ops(ops)
}

#[test]
fn encode_program() {
    let table = sample_table();
    let codec = InstructionCodec::new(&table);
    let prog = seq_of(vec![
        with_imm("PUSH1", &[0xab]),
        with_imm("PUSH2", &[0x01, 0xfe]),
        fixed("ADD"),
        fixed("STOP"),
    ]);
    let bytes = codec.encode(&prog);
    assert_eq!(bytes, vec![0x60, 0xab, 0x61, 0x01, 0xfe, 0x01, 0x00]);
}

#[test]
fn encode_reemits_unrecognized() {
    let table = sample_table();
    let codec = InstructionCodec::new(&table);
    let prog = seq_of(vec![OpCode::Unrecognized(0xcc), fixed("STOP")]);
    let bytes = codec.encode(&prog);
    assert_eq!(bytes, vec![0xcc, 0x00]);
}

#[test]
fn decode_strict_program() {
    let table = sample_table();
    let codec = InstructionCodec::new(&table);
    let prog = codec.decode_strict(&[0x60, 0xab, 0x01, 0x00]).unwrap();
    let expected = seq_of(vec![with_imm("PUSH1", &[0xab]), fixed("ADD"), fixed("STOP")]);
    assert!(prog == expected);
}

#[test]
fn decode_strict_rejects_unknown_byte() {
    let table = sample_table();
    let codec = InstructionCodec::new(&table);
    let err = codec.decode_strict(&[0x00, 0x01, 0xcc, 0x00]).unwrap_err();
    assert_eq!(err, DecodeError::BadInstruction(2, 0xcc));
}

#[test]
fn decode_strict_truncated_immediate_zero_fills() {
    let table = sample_table();
    let codec = InstructionCodec::new(&table);
    // A PUSH1 with its operand missing: the operand reads as zero and the
    // scan ends after this instruction.
    let prog = codec.decode_strict(&[0x60]).unwrap();
    assert_eq!(prog.len(), 1);
    let expected = seq_of(vec![with_imm("PUSH1", &[0x00])]);
    assert!(prog == expected);
    // A PUSH32 with only two operand bytes: they fill the low-index end.
    let prog = codec.decode_strict(&[0x7f, 0xaa, 0xbb]).unwrap();
    let mut operand = vec![0xaa, 0xbb];
    operand.extend(std::iter::repeat(0u8).take(30));
    let expected = seq_of(vec![OpCode::WithImmediate("PUSH32".to_string(), operand)]);
    assert!(prog == expected);
}

#[test]
fn decode_permissive_tags_unknown_bytes() {
    let table = sample_table();
    let codec = InstructionCodec::new(&table);
    let prog = codec.decode_permissive(&[0xcc, 0x60, 0x05, 0xfe]);
    let expected = seq_of(vec![
        OpCode::Unrecognized(0xcc),
        with_imm("PUSH1", &[0x05]),
        OpCode::Unrecognized(0xfe),
    ]);
    assert!(prog == expected);
    assert!(prog.len() <= 4);
}

#[test]
fn round_trip_encode_then_decode() {
    let table = sample_table();
    let codec = InstructionCodec::new(&table);
    let prog = seq_of(vec![
        with_imm("PUSH2", &[0xde, 0xad]),
        with_imm("PUSH1", &[0x01]),
        fixed("ADD"),
        fixed("SHA3"),
        fixed("STOP"),
    ]);
    let bytes = codec.encode(&prog);
    let decoded = codec.decode_strict(&bytes).unwrap();
    assert!(decoded == prog);
}

#[test]
fn round_trip_decode_then_encode() {
    let table = sample_table();
    let codec = InstructionCodec::new(&table);
    let bytes = vec![0x61, 0x12, 0x34, 0x60, 0xff, 0x20, 0x00];
    let decoded = codec.decode_strict(&bytes).unwrap();
    let encoded = codec.encode(&decoded);
    assert_eq!(encoded, bytes);
}

#[test]
fn decode_empty_stream() {
    let table = sample_table();
    let codec = InstructionCodec::new(&table);
    assert_eq!(codec.decode_strict(&[]).unwrap().len(), 0);
    assert_eq!(codec.decode_permissive(&[]).len(), 0);
}

#[test]
fn value_and_entry_of_instructions() {
    let table = sample_table();
    let codec = InstructionCodec::new(&table);
    assert_eq!(codec.value_of(&fixed("ADD")), Some(0x01));
    assert_eq!(codec.value_of(&with_imm("PUSH1", &[0x09])), Some(0x60));
    assert_eq!(codec.value_of(&OpCode::Unrecognized(0xcc)), Some(0xcc));
    assert_eq!(codec.value_of(&fixed("NOPE")), None);
    let entry = codec.entry_of(&with_imm("PUSH2", &[0x00, 0x01])).unwrap();
    assert_eq!(entry.mnemonic, "PUSH2");
    assert_eq!(entry.immediate_size, 2);
    assert!(codec.entry_of(&OpCode::Unrecognized(0x01)).is_none());
    assert!(codec.entry_of(&fixed("NOPE")).is_none());
}
