use wasm_core::expr::MemoryImmed;
use wasm_core::mem::Memory;

fn immed(offs: usize) -> MemoryImmed {
    MemoryImmed { align: 1, offset: offs as u32 }
}

#[test]
fn test_load() {
    let mut m = Memory::new();
    m.grow(1);
    m.i32_store(0xffff, &immed(0));

    assert_eq!(Some(-1), m.i32_load8_s(&immed(0)));
    assert_eq!(Some(-1), m.i32_load8_s(&immed(1)));
    assert_eq!(Some(0), m.i32_load8_s(&immed(2)));
    assert_eq!(Some(0), m.i32_load8_s(&immed(3)));

    assert_eq!(Some(0xff), m.i32_load8_u(&immed(0)));
    assert_eq!(Some(0xff), m.i32_load8_u(&immed(1)));
    assert_eq!(Some(0), m.i32_load8_u(&immed(2)));
    assert_eq!(Some(0), m.i32_load8_u(&immed(3)));

    assert_eq!(Some(-1), m.i32_load16_s(&immed(0)));
    assert_eq!(Some(0), m.i32_load16_s(&immed(2)));

    assert_eq!(Some(0xffff), m.i32_load16_u(&immed(0)));
    assert_eq!(Some(0), m.i32_load16_u(&immed(2)));

    assert_eq!(Some(0xffff), m.i32_load(&immed(0)));
    assert_eq!(Some(0xff), m.i32_load(&immed(1)));

    assert_eq!(Some(-1), m.i64_load8_s(&immed(0)));
    assert_eq!(Some(-1), m.i64_load8_s(&immed(1)));
    assert_eq!(Some(0), m.i64_load8_s(&immed(2)));
    assert_eq!(Some(0), m.i64_load8_s(&immed(3)));

    assert_eq!(Some(0xff), m.i64_load8_u(&immed(0)));
    assert_eq!(Some(0xff), m.i64_load8_u(&immed(1)));
    assert_eq!(Some(0), m.i64_load8_u(&immed(2)));
    assert_eq!(Some(0), m.i64_load8_u(&immed(3)));

    assert_eq!(Some(-1), m.i64_load16_s(&immed(0)));
    assert_eq!(Some(0), m.i64_load16_s(&immed(2)));

    assert_eq!(Some(0xffff), m.i64_load16_u(&immed(0)));
    assert_eq!(Some(0), m.i64_load16_u(&immed(2)));

    assert_eq!(Some(0xffff), m.i64_load32_s(&immed(0)));
    assert_eq!(Some(0), m.i64_load32_s(&immed(2)));

    assert_eq!(Some(0xffff), m.i64_load32_u(&immed(0)));
    assert_eq!(Some(0), m.i64_load32_u(&immed(2)));

    assert_eq!(Some(0xffff), m.i64_load(&immed(0)));
    assert_eq!(Some(0xff), m.i64_load(&immed(1)));
}

#[test]
fn memory_starts_empty_and_grows() {
    let mut m = Memory::new();
    assert_eq!(m.len_pages(), 0);
    assert_eq!(m.i32_load8_u(&immed(0)), None);
    assert_eq!(m.grow(2), 0);
    assert_eq!(m.len_pages(), 2);
    assert_eq!(m.grow(-3), -1);
    assert_eq!(m.grow(65535), -1);
    assert_eq!(m.len_pages(), 2);
}

#[test]
fn stores_are_little_endian() {
    let mut m = Memory::new();
    m.grow(1);
    assert_eq!(m.i64_store(0x0807_0605_0403_0201, &immed(8)), Some(()));
    assert_eq!(m.i32_load8_u(&immed(8)), Some(0x01));
    assert_eq!(m.i32_load8_u(&immed(15)), Some(0x08));
    assert_eq!(m.i32_load16_u(&immed(9)), Some(0x0302));
    assert_eq!(m.f32_store(1.0f32.to_bits(), &immed(100)), Some(()));
    assert_eq!(m.f32_load(&immed(100)), Some(1.0f32.to_bits()));
    assert_eq!(m.f64_store(2.0f64.to_bits(), &immed(200)), Some(()));
    assert_eq!(m.f64_load(&immed(200)), Some(2.0f64.to_bits()));
}

#[test]
fn accesses_do_not_cross_pages() {
    let mut m = Memory::new();
    m.grow(2);
    assert_eq!(m.i32_load(&immed(65533)), None);
    assert_eq!(m.i32_load(&immed(65532)), Some(0));
    assert_eq!(m.i32_store(1, &immed(65534)), None);
    assert_eq!(m.i64_store32(-1, &immed(65536)), Some(()));
    assert_eq!(m.i64_load32_u(&immed(65536)), Some(0xffff_ffff));
    assert_eq!(m.i32_store8(0x1ff, &immed(131071)), Some(()));
    assert_eq!(m.i32_load8_u(&immed(131071)), Some(0xff));
    assert_eq!(m.i32_store8(1, &immed(131072)), None);
}
