use lib::format::{BinaryProgram, Constant, FunctionInfo};
use lib::reader::BinaryReader;
use lib::writer::BinaryWriter;

fn create_simple_program() -> BinaryProgram {
    BinaryProgram {
        constants: vec![Constant::Int(1)],
        functions: vec![FunctionInfo {
            parameter_count: 0,
            local_count: 0,
            stack_size: 0,
            code_offset: 0,
            code_size: 1,
        }],
        code: vec![0xFF],
        entry_function: 0,
    }
}

#[test]
fn test_writer_reader_roundtrip() {
    let program = BinaryProgram {
        constants: vec![Constant::Int(42), Constant::String("hello".to_string())],
        functions: vec![FunctionInfo {
            parameter_count: 1,
            local_count: 2,
            stack_size: 3,
            code_offset: 0,
            code_size: 10,
        }],
        code: vec![0x01, 0x00, 0x00, 0x00],
        entry_function: 0,
    };

    let writer = BinaryWriter::new();
    let bytes = writer.generate(&program);

    let reader = BinaryReader { buffer: bytes, cursor: 0 };
    let loaded = reader.load_program();

    assert_eq!(loaded.constants.len(), program.constants.len());
    assert_eq!(loaded.functions.len(), program.functions.len());
    assert_eq!(loaded.code, program.code);
}

#[test]
fn test_writer_output_debug() {
    let program = create_simple_program();
    let bytes = BinaryWriter::new().generate(&program);
    println!("{:02X?}", &bytes);
}

#[test]
fn test_header_is_valid() {
    let program = create_simple_program();
    let bytes = BinaryWriter::new().generate(&program);
    assert_eq!(&bytes[0..4], b"FSBC");
    let version = u16::from_le_bytes([bytes[4], bytes[5]]);
    assert_eq!(version, 1);
}

#[test]
fn test_constants_encoding() {
    let program = BinaryProgram {
        constants: vec![
            Constant::Int(10),
            Constant::Float(2.5f64.to_bits()),
            Constant::String("abc".to_string()),
        ],
        functions: vec![],
        code: vec![],
        entry_function: 0,
    };
    let bytes = BinaryWriter::new().generate(&program);
    assert!(bytes.contains(&0));
    assert!(bytes.contains(&1));
    assert!(bytes.contains(&2));
}

#[test]
fn test_bytecode_written() {
    let program = BinaryProgram {
        constants: vec![],
        functions: vec![],
        code: vec![0x01, 0x02, 0x03],
        entry_function: 0,
    };
    let bytes = BinaryWriter::new().generate(&program);
    assert!(bytes.ends_with(&[0x01, 0x02, 0x03]));
}

#[test]
fn test_offsets_are_consistent() {
    let program = create_simple_program();
    let bytes = BinaryWriter::new().generate(&program);
    let constant_offset = u32::from_le_bytes([bytes[6], bytes[7], bytes[8], bytes[9]]);
    let function_offset = u32::from_le_bytes([bytes[10], bytes[11], bytes[12], bytes[13]]);
    assert!(function_offset > constant_offset);
}

// ---------------------------------------------------------------------------

#[test]
fn simple_program_exact_bytes() {
    let bytes = BinaryWriter::new().generate(&create_simple_program());
    let expected: Vec<u8> = vec![
        0x46, 0x53, 0x42, 0x43, // magic
        1, 0, // version
        38, 0, 0, 0, // constant offset, as declared
        47, 0, 0, 0, // function offset, as declared
        61, 0, 0, 0, // code offset, as declared
        1, 0, 0, 0, // code size
        1, 0, 0, 0, // constant count
        1, 0, 0, 0, // function count
        0, 0, 0, 0, // entry function
        0, 1, 0, 0, 0, 0, 0, 0, 0, // Int(1)
        0, 0, 0, 0, 0, 0, 0, 0, 0, 0, 1, 0, 0, 0, // function entry
        0xFF, // code
    ];
    assert_eq!(bytes, expected);
}

#[test]
fn offsets_point_at_sections() {
    let program = BinaryProgram {
        constants: vec![Constant::String("hé".to_string()), Constant::Int(-7)],
        functions: vec![
            FunctionInfo { parameter_count: 2, local_count: 3, stack_size: 4, code_offset: 5, code_size: 6 },
            FunctionInfo { parameter_count: 7, local_count: 8, stack_size: 9, code_offset: 10, code_size: 11 },
        ],
        code: vec![9, 8, 7],
        entry_function: 1,
    };
    let bytes = BinaryWriter::new().generate(&program);
    let read = |i: usize| u32::from_le_bytes([bytes[i], bytes[i + 1], bytes[i + 2], bytes[i + 3]]) as usize;
    // a text of 3 bytes takes 1 + 4 + 3; an integer 9; the declared
    // offsets count from 38, four past the 34 bytes of the header
    assert_eq!(read(6), 38);
    assert_eq!(read(10), 38 + 8 + 9);
    assert_eq!(read(14), 38 + 8 + 9 + 28);
    assert_eq!(read(18), 3);
    assert_eq!(read(22), 2);
    assert_eq!(read(26), 2);
    assert_eq!(read(30), 1);
    assert_eq!(&bytes[read(14) - 4..], &[9, 8, 7]);
    assert_eq!(bytes[34], 2);
    assert_eq!(bytes[read(10) - 4], 2);
}

#[test]
fn roundtrip_keeps_every_field() {
    let program = BinaryProgram {
        constants: vec![
            Constant::Int(i64::MIN),
            Constant::String("bonjour, monde ✓".to_string()),
            Constant::String(String::new()),
        ],
        functions: vec![FunctionInfo {
            parameter_count: 65535,
            local_count: 1,
            stack_size: 2,
            code_offset: 3,
            code_size: u32::MAX,
        }],
        code: vec![1, 2, 3, 4, 5],
        entry_function: 77,
    };
    let bytes = BinaryWriter::new().generate(&program);
    let loaded = BinaryReader { buffer: bytes, cursor: 0 }.load_program();
    assert_eq!(loaded, program);
}

#[test]
fn reader_starts_at_cursor() {
    let program = create_simple_program();
    let mut buffer = vec![0xAA, 0xBB];
    buffer.extend(BinaryWriter::new().generate(&program));
    let loaded = BinaryReader { buffer, cursor: 2 }.load_program();
    assert_eq!(loaded, program);
}

#[test]
fn reader_refuses_truncated_bytes() {
    let bytes = BinaryWriter::new().generate(&create_simple_program());
    let short = bytes[..20].to_vec();
    assert!(BinaryReader { buffer: short, cursor: 0 }.try_load_program().is_none());
    let no_function = bytes[..43 + 5].to_vec();
    assert!(BinaryReader { buffer: no_function, cursor: 0 }.try_load_program().is_none());
}

#[test]
fn reader_refuses_unknown_constant_tag() {
    let mut bytes = BinaryWriter::new().generate(&create_simple_program());
    bytes[34] = 3;
    assert!(BinaryReader { buffer: bytes, cursor: 0 }.try_load_program().is_none());
}

#[test]
fn reader_refuses_invalid_utf8() {
    let program = BinaryProgram {
        constants: vec![Constant::String("ab".to_string())],
        functions: vec![],
        code: vec![],
        entry_function: 0,
    };
    let mut bytes = BinaryWriter::new().generate(&program);
    bytes[34 + 5] = 0xFF;
    assert!(BinaryReader { buffer: bytes, cursor: 0 }.try_load_program().is_none());
}

#[test]
fn reader_takes_the_rest_as_code() {
    let mut bytes = BinaryWriter::new().generate(&create_simple_program());
    bytes.push(0x42);
    let loaded = BinaryReader { buffer: bytes, cursor: 0 }.load_program();
    assert_eq!(loaded.code, vec![0xFF, 0x42]);
}

#[test]
fn decimal_is_read_in_place() {
    let program = BinaryProgram {
        constants: vec![Constant::Float(2.5f64.to_bits())],
        functions: vec![],
        code: vec![1, 2, 3],
        entry_function: 0,
    };
    let bytes = BinaryWriter::new().generate(&program);
    let loaded = BinaryReader { buffer: bytes, cursor: 0 }.load_program();
    assert_eq!(loaded.constants, vec![Constant::Float(2.5f64.to_bits())]);
    let mut code = 2.5f64.to_bits().to_le_bytes().to_vec();
    code.extend([1, 2, 3]);
    assert_eq!(loaded.code, code);
}

#[test]
fn constant_after_a_decimal_is_read_from_its_payload() {
    let program = BinaryProgram {
        constants: vec![Constant::Float(2.5f64.to_bits()), Constant::Int(5)],
        functions: vec![],
        code: vec![9],
        entry_function: 0,
    };
    let bytes = BinaryWriter::new().generate(&program);
    let loaded = BinaryReader { buffer: bytes, cursor: 0 }.load_program();
    // the payload of 2.5 is 00 00 00 00 00 00 04 40: its first byte reads as
    // the tag of an integer, made of the seven others and the next tag byte
    assert_eq!(loaded.constants, vec![Constant::Float(2.5f64.to_bits()), Constant::Int(0x0040_0400_0000_0000)]);
    assert_eq!(loaded.code, vec![5, 0, 0, 0, 0, 0, 0, 0, 9]);
}
