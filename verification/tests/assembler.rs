use rvm::parser::{assemble_line, assemble_source, InstructionBuilder};
use rvm::vm::{decode_opcode, decode_target, decode_value, decode_value_as_register};
use rvm::Error;
use rvm::VMError;

#[test]
fn set_assembles_to_exact_word() {
    assert_eq!(assemble_line(b"set r0 200"), Ok(0x10C8));
}

#[test]
fn unknown_mnemonic_is_no_opcode() {
    assert_eq!(assemble_line(b"xyz r0 1"), Err(Error::ParseNoOpcodeError));
}

#[test]
fn missing_value_is_no_value() {
    assert_eq!(assemble_line(b"add r0"), Err(Error::ParseNoValueError));
}

#[test]
fn missing_target_is_no_target() {
    assert_eq!(assemble_line(b"add"), Err(Error::ParseNoTargetError));
}

#[test]
fn bad_register_is_no_target() {
    assert_eq!(assemble_line(b"add r9 r0"), Err(Error::ParseNoTargetError));
}

#[test]
fn literal_for_non_set_is_no_value() {
    assert_eq!(assemble_line(b"add r0 12"), Err(Error::ParseNoValueError));
}

#[test]
fn set_literal_bounds() {
    assert_eq!(assemble_line(b"set r0 0"), Ok(0x1000));
    assert_eq!(assemble_line(b"set r0 255"), Ok(0x10FF));
    assert_eq!(assemble_line(b"set r0 256"), Err(Error::ParseNoValueError));
    assert_eq!(assemble_line(b"set r0 999"), Err(Error::ParseNoValueError));
    assert_eq!(assemble_line(b"set r0 1x"), Err(Error::ParseNoValueError));
    assert_eq!(assemble_line(b"set r0 007"), Ok(0x1007));
}

#[test]
fn set_takes_register_name_as_literal_id() {
    assert_eq!(assemble_line(b"set r0 rn"), Ok(0x1008));
    assert_eq!(assemble_line(b"set rs 2"), Ok(0x1C02));
}

#[test]
fn interrupt_needs_no_target_or_value() {
    assert_eq!(assemble_line(b"int"), Ok(0x0000));
    assert_eq!(assemble_line(b"int rs"), Ok(0x0C00));
    assert_eq!(assemble_line(b"int r0 r1"), Ok(0x0001));
    assert_eq!(assemble_line(b"int xx"), Err(Error::ParseNoTargetError));
}

#[test]
fn empty_line_is_no_opcode() {
    assert_eq!(assemble_line(b""), Err(Error::ParseNoOpcodeError));
}

#[test]
fn double_space_makes_empty_target_token() {
    assert_eq!(assemble_line(b"set  r0"), Err(Error::ParseNoTargetError));
}

#[test]
fn every_mnemonic_maps_to_its_opcode() {
    let table: [(&str, u16); 16] = [
        ("int", 0x0),
        ("set", 0x1),
        ("psh", 0x2),
        ("pop", 0x3),
        ("add", 0x4),
        ("sub", 0x5),
        ("mul", 0x6),
        ("div", 0x7),
        ("chk", 0x8),
        ("cns", 0x9),
        ("lpt", 0xA),
        ("lsh", 0xB),
        ("rsh", 0xC),
        ("and", 0xD),
        ("bor", 0xE),
        ("xor", 0xF),
    ];
    for (mnemonic, opcode) in table.iter() {
        let line = format!("{} r1 r2", mnemonic);
        let expected = (opcode << 12) | (1 << 8) | 2;
        assert_eq!(assemble_line(line.as_bytes()), Ok(expected));
    }
}

#[test]
fn every_register_name_maps_to_its_id() {
    let table: [(&str, u16); 13] = [
        ("r0", 0),
        ("r1", 1),
        ("r2", 2),
        ("r3", 3),
        ("r4", 4),
        ("r5", 5),
        ("r6", 6),
        ("r7", 7),
        ("rn", 8),
        ("rd", 9),
        ("rf", 10),
        ("rc", 11),
        ("rs", 12),
    ];
    for (name, id) in table.iter() {
        let line = format!("set {} 1", name);
        let expected = (1 << 12) | (id << 8) | 1;
        assert_eq!(assemble_line(line.as_bytes()), Ok(expected));
    }
}

#[test]
fn assembled_fields_round_trip_through_decoding() {
    let mnemonics: [(&str, u16); 16] = [
        ("int", 0x0),
        ("set", 0x1),
        ("psh", 0x2),
        ("pop", 0x3),
        ("add", 0x4),
        ("sub", 0x5),
        ("mul", 0x6),
        ("div", 0x7),
        ("chk", 0x8),
        ("cns", 0x9),
        ("lpt", 0xA),
        ("lsh", 0xB),
        ("rsh", 0xC),
        ("and", 0xD),
        ("bor", 0xE),
        ("xor", 0xF),
    ];
    let registers: [(&str, u16); 13] = [
        ("r0", 0),
        ("r1", 1),
        ("r2", 2),
        ("r3", 3),
        ("r4", 4),
        ("r5", 5),
        ("r6", 6),
        ("r7", 7),
        ("rn", 8),
        ("rd", 9),
        ("rf", 10),
        ("rc", 11),
        ("rs", 12),
    ];
    for (mnemonic, opcode) in mnemonics.iter() {
        for (target_name, target) in registers.iter() {
            for (value_name, value) in registers.iter() {
                let line = format!("{} {} {}", mnemonic, target_name, value_name);
                let expected = (opcode << 12) | (target << 8) | value;
                assert_eq!(assemble_line(line.as_bytes()), Ok(expected));
                assert_eq!(decode_opcode(&expected), Ok(*opcode as u8));
                assert_eq!(decode_target(&expected), Ok(*target as u8));
                assert_eq!(decode_value_as_register(&expected), Ok(*value as u8));
                assert_eq!(decode_value(&expected), *value as u8);
            }
        }
    }
}

#[test]
fn decoding_rejects_fields_past_the_register_table() {
    assert_eq!(decode_target(&0x1D00), Err(VMError::VMInvalidTargetError));
    assert_eq!(decode_value_as_register(&0x400D), Err(VMError::VMInvalidTargetError));
    assert_eq!(decode_value_as_register(&0x40FF), Err(VMError::VMInvalidTargetError));
    assert_eq!(decode_opcode(&0xF000), Ok(0xF));
    assert_eq!(decode_value(&0x10C8), 200);
}

#[test]
fn builder_packs_and_reports_missing_fields() {
    let full = InstructionBuilder {
        opcode_hex: Some(0x1),
        target_hex: Some(0x0),
        value_hex: Some(200),
    };
    assert_eq!(full.build_instruction(), Ok(0x10C8));
    let no_opcode = InstructionBuilder { opcode_hex: None, target_hex: Some(0), value_hex: Some(0) };
    assert_eq!(no_opcode.build_instruction(), Err(Error::ParseNoOpcodeError));
    let interrupt_bare = InstructionBuilder { opcode_hex: Some(0x0), target_hex: None, value_hex: None };
    assert_eq!(interrupt_bare.build_instruction(), Ok(0x0000));
    let interrupt_half = InstructionBuilder {
        opcode_hex: Some(0x0),
        target_hex: Some(0xC),
        value_hex: None,
    };
    assert_eq!(interrupt_half.build_instruction(), Ok(0x0C00));
    let no_target = InstructionBuilder { opcode_hex: Some(0x4), target_hex: None, value_hex: None };
    assert_eq!(no_target.build_instruction(), Err(Error::ParseNoTargetError));
    let no_value = InstructionBuilder { opcode_hex: Some(0x4), target_hex: Some(0), value_hex: None };
    assert_eq!(no_value.build_instruction(), Err(Error::ParseNoValueError));
}

#[test]
fn source_skips_comments_and_blank_lines() {
    let source = b"# a comment\n\nset r0 5\n   \nint\n";
    assert_eq!(assemble_source(source), Ok(vec![0x1005, 0x0000]));
}

#[test]
fn source_reports_physical_line_number() {
    let source = b"set r0 5\n\n# note\nxyz r0 1\nint\n";
    assert_eq!(assemble_source(source), Err((3, Error::ParseNoOpcodeError)));
}

#[test]
fn source_stops_at_first_error() {
    let source = b"add r0\nxyz\n";
    assert_eq!(assemble_source(source), Err((0, Error::ParseNoValueError)));
}

#[test]
fn source_trims_carriage_returns_and_indent() {
    let source = b"  set r0 5\r\n\tint\r\n";
    assert_eq!(assemble_source(source), Ok(vec![0x1005, 0x0000]));
}

#[test]
fn source_without_trailing_newline() {
    let source = b"set r0 5\nint";
    assert_eq!(assemble_source(source), Ok(vec![0x1005, 0x0000]));
}

#[test]
fn assembling_twice_is_bit_identical() {
    let source = b"# demo\nset r0 200\npsh r0 r7\nint\n";
    let first = assemble_source(source).unwrap();
    let second = assemble_source(source).unwrap();
    assert_eq!(first, second);
}
