use wasm_core::error::CodecError;
use wasm_core::expr::{BranchTable, InitExpr, MemoryImmed, Op};
use wasm_core::function::FunctionBody;
use wasm_core::section::{ExternalKind, ImportKind, Module, ResizableLimits, Section};
use wasm_core::ty::{BlockType, ValueType};

const HEADER: [u8; 8] = [0x00, 0x61, 0x73, 0x6d, 0x01, 0x00, 0x00, 0x00];

fn module_bytes(rest: &[u8]) -> Vec<u8> {
    let mut v = HEADER.to_vec();
    v.extend_from_slice(rest);
    v
}

fn reader(b: &[u8]) -> untrusted::Reader<'_> {
    untrusted::Reader::new(untrusted::Input::from(b))
}

#[test]
fn empty_module() {
    let m = Module::decode_from(&HEADER).unwrap();
    assert_eq!(m.sections.len(), 0);
}

#[test]
fn bad_magic_and_version() {
    let b = [0x01, 0x61, 0x73, 0x6d, 0x01, 0x00, 0x00, 0x00];
    assert_eq!(Module::decode_from(&b).err(), Some(CodecError::BadMagic));
    let b = [0x00, 0x61, 0x73, 0x6d, 0x02, 0x00, 0x00, 0x00];
    assert_eq!(Module::decode_from(&b).err(), Some(CodecError::BadVersion));
    assert_eq!(Module::decode_from(&HEADER[..7]).err(), Some(CodecError::Truncated));
}

#[test]
fn type_section_with_one_signature() {
    let b = module_bytes(&[0x01, 0x07, 0x01, 0x60, 0x02, 0x7f, 0x7f, 0x01, 0x7f]);
    let m = Module::decode_from(&b).unwrap();
    assert_eq!(m.sections.len(), 1);
    match &m.sections[0] {
        Section::Type(types) => {
            assert_eq!(types.len(), 1);
            assert_eq!(types[0].params, vec![ValueType::I32, ValueType::I32]);
            assert_eq!(types[0].ret, Some(ValueType::I32));
        },
        other => panic!("unexpected section {:?}", other),
    }
}

#[test]
fn truncating_a_module_gives_truncated() {
    let b = module_bytes(&[0x01, 0x07, 0x01, 0x60, 0x02, 0x7f, 0x7f, 0x01, 0x7f]);
    assert_eq!(Module::decode_from(&b[..b.len() - 1]).err(), Some(CodecError::Truncated));
    let b = module_bytes(&[0x01, 0x07]);
    assert_eq!(Module::decode_from(&b).err(), Some(CodecError::Truncated));
}

#[test]
fn payload_must_be_used_up() {
    let b = module_bytes(&[0x08, 0x02, 0x05, 0x00]);
    assert_eq!(Module::decode_from(&b).err(), Some(CodecError::TrailingData));
    let b = module_bytes(&[0x08, 0x01, 0x05]);
    let m = Module::decode_from(&b).unwrap();
    assert!(matches!(m.sections[0], Section::Start(5)));
}

#[test]
fn unknown_section_id() {
    let b = module_bytes(&[0x0c, 0x00]);
    assert_eq!(Module::decode_from(&b).err(), Some(CodecError::Unimpl));
}

#[test]
fn import_and_export_sections() {
    let b = module_bytes(&[
        0x02, 0x0c, 0x01, 0x03, b'e', b'n', b'v', 0x03, b'm', b'e', b'm', 0x02, 0x00, 0x01,
        0x07, 0x07, 0x01, 0x03, b'r', b'u', b'n', 0x00, 0x02,
    ]);
    let m = Module::decode_from(&b).unwrap();
    assert_eq!(m.sections.len(), 2);
    match &m.sections[0] {
        Section::Import(imports) => {
            assert_eq!(imports[0].module, "env");
            assert_eq!(imports[0].field, "mem");
            assert_eq!(imports[0].kind, ImportKind::Memory(wasm_core::section::MemoryType { limits: ResizableLimits::Initial(1) }));
        },
        other => panic!("unexpected section {:?}", other),
    }
    match &m.sections[1] {
        Section::Export(exports) => {
            assert_eq!(exports[0].field, "run");
            assert_eq!(exports[0].kind, ExternalKind::Function);
            assert_eq!(exports[0].index, 2);
        },
        other => panic!("unexpected section {:?}", other),
    }
}

#[test]
fn bad_utf8_name() {
    let b = module_bytes(&[0x00, 0x02, 0x01, 0xff]);
    assert_eq!(Module::decode_from(&b).err(), Some(CodecError::BadUTF8));
    let b = module_bytes(&[0x00, 0x04, 0x01, b'x', 0xaa, 0xbb]);
    let m = Module::decode_from(&b).unwrap();
    match &m.sections[0] {
        Section::Custom(c) => {
            assert_eq!(c.name, "x");
            assert_eq!(c.payload, &[0xaa, 0xbb]);
        },
        other => panic!("unexpected section {:?}", other),
    }
}

#[test]
fn code_and_data_sections() {
    let b = module_bytes(&[
        0x0a, 0x09, 0x01, 0x07, 0x01, 0x02, 0x7f, 0x41, 0x2a, 0x1a, 0x0b,
        0x0b, 0x08, 0x01, 0x00, 0x41, 0x10, 0x0b, 0x02, 0x68, 0x69,
    ]);
    let m = Module::decode_from(&b).unwrap();
    match &m.sections[0] {
        Section::Code(bodies) => {
            assert_eq!(bodies[0].locals.len(), 1);
            assert_eq!(bodies[0].locals[0].count, 2);
            assert_eq!(bodies[0].ops.len(), 2);
            assert!(matches!(bodies[0].ops[0], Op::I32Const(42)));
            assert!(matches!(bodies[0].ops[1], Op::Drop));
        },
        other => panic!("unexpected section {:?}", other),
    }
    match &m.sections[1] {
        Section::Data(datas) => {
            assert_eq!(datas[0].index, 0);
            assert!(matches!(datas[0].init.ops[0], Op::I32Const(16)));
            assert_eq!(datas[0].data, b"hi");
        },
        other => panic!("unexpected section {:?}", other),
    }
}

#[test]
fn function_body_must_end_with_end() {
    let b = [0x03, 0x00, 0x01, 0x01];
    assert_eq!(FunctionBody::decode(&mut reader(&b)).err(), Some(CodecError::BadFunctionEnd));
    let b = [0x05, 0x00, 0x02, 0x40, 0x0b, 0x0b];
    let f = FunctionBody::decode(&mut reader(&b)).unwrap();
    assert_eq!(f.ops.len(), 2);
    assert!(matches!(f.ops[0], Op::Block(BlockType::Void)));
    assert!(matches!(f.ops[1], Op::End));
    let b = [0x05, 0x00, 0x01];
    assert_eq!(FunctionBody::decode(&mut reader(&b)).err(), Some(CodecError::Truncated));
}

#[test]
fn init_expressions() {
    let b = [0x42, 0x7f, 0x0b, 0x99];
    let mut rd = reader(&b);
    let e = InitExpr::decode(&mut rd).unwrap();
    assert_eq!(e.ops.len(), 1);
    assert!(matches!(e.ops[0], Op::I64Const(-1)));
    assert!(!rd.at_end());
    let b = [0x01, 0x0b];
    assert_eq!(InitExpr::decode(&mut reader(&b)).err(), Some(CodecError::BadInitExpr));
}

#[test]
fn instruction_immediates() {
    let b = [0x28, 0x02, 0x10];
    match Op::decode(&mut reader(&b)).unwrap() {
        Op::I32Load(m) => assert_eq!(m, MemoryImmed { align: 2, offset: 16 }),
        other => panic!("unexpected op {:?}", other),
    }
    let b = [0x0e, 0x02, 0x01, 0x02, 0x03];
    match Op::decode(&mut reader(&b)).unwrap() {
        Op::BranchTable(BranchTable { targets, default }) => {
            assert_eq!(targets, vec![1, 2]);
            assert_eq!(default, 3);
        },
        other => panic!("unexpected op {:?}", other),
    }
    let b = [0x43, 0x00, 0x00, 0xc0, 0x3f];
    match Op::decode(&mut reader(&b)).unwrap() {
        Op::F32Const(bits) => assert_eq!(f32::from_bits(bits), 1.5),
        other => panic!("unexpected op {:?}", other),
    }
    let b = [0x11, 0x00, 0x01];
    assert_eq!(Op::decode(&mut reader(&b)).err(), Some(CodecError::BadOpArgs));
    let b = [0x11, 0x00, 0x02];
    assert_eq!(Op::decode(&mut reader(&b)).err(), Some(CodecError::BadOpArgs));
    let b = [0x11, 0x00, 0x80];
    assert_eq!(Op::decode(&mut reader(&b)).err(), Some(CodecError::BadOpArgs));
    let b = [0x11, 0x05, 0x00, 0x01];
    let mut rd = reader(&b);
    assert!(matches!(Op::decode(&mut rd).unwrap(), Op::CallIndirect(5)));
    assert!(!rd.at_end());
    let b = [0x06];
    assert_eq!(Op::decode(&mut reader(&b)).err(), Some(CodecError::BadOpcode(0x06)));
    let b = [0x02, 0x7e];
    assert!(matches!(Op::decode(&mut reader(&b)).unwrap(), Op::Block(BlockType::Single(ValueType::I64))));
    let b = [0x02, 0x70];
    assert_eq!(Op::decode(&mut reader(&b)).err(), Some(CodecError::BadType));
    let b = [0x40, 0x02];
    assert_eq!(Op::decode(&mut reader(&b)).err(), Some(CodecError::BadVarInt));
}
