use wasm_core::error::RuntimeError;
use wasm_core::exec::{Context, Value};
use wasm_core::expr::{MemoryImmed, Op};

fn run(ops: &[Op]) -> (Context, Result<(), RuntimeError>) {
    let mut ctx = Context::new();
    let mut last = Ok(());
    for op in ops {
        last = ctx.exec(op);
        if last.is_err() {
            break;
        }
    }
    (ctx, last)
}

fn top(ctx: &Context) -> Value {
    *ctx.stack().last().unwrap()
}

fn imm(offset: u32) -> MemoryImmed {
    MemoryImmed { align: 2, offset }
}

#[test]
fn test_basic() {
    let mut ctx = Context::new();
    ctx.exec(&Op::I32Const(0)).unwrap();
    ctx.exec(&Op::I32Const(3))
        .unwrap();
    ctx.exec(&Op::I32Store(MemoryImmed { align: 0, offset: 0 }))
        .unwrap();
}

#[test]
fn divide_by_zero_traps() {
    let (_, r) = run(&[Op::I32Const(5), Op::I32Const(0), Op::I32DivSigned]);
    assert_eq!(r, Err(RuntimeError::DivideByZero));
}

#[test]
fn signed_division_overflow_traps() {
    let (_, r) = run(&[Op::I32Const(i32::MIN), Op::I32Const(-1), Op::I32DivSigned]);
    assert_eq!(r, Err(RuntimeError::DivideByZero));
    let (_, r) = run(&[Op::I64Const(i64::MIN), Op::I64Const(-1), Op::I64DivSigned]);
    assert_eq!(r, Err(RuntimeError::DivideByZero));
}

#[test]
fn signed_division_truncates_toward_zero() {
    let (ctx, r) = run(&[Op::I32Const(-7), Op::I32Const(2), Op::I32DivSigned]);
    assert_eq!(r, Ok(()));
    assert_eq!(top(&ctx), Value::I32(-3));
    let (ctx, _) = run(&[Op::I32Const(7), Op::I32Const(-2), Op::I32DivSigned]);
    assert_eq!(top(&ctx), Value::I32(-3));
    let (ctx, _) = run(&[Op::I32Const(7), Op::I32Const(2), Op::I32Sub]);
    assert_eq!(top(&ctx), Value::I32(5));
}

#[test]
fn remainders() {
    let (ctx, _) = run(&[Op::I32Const(-7), Op::I32Const(2), Op::I32RemSigned]);
    assert_eq!(top(&ctx), Value::I32(-1));
    let (ctx, r) = run(&[Op::I32Const(i32::MIN), Op::I32Const(-1), Op::I32RemSigned]);
    assert_eq!(r, Ok(()));
    assert_eq!(top(&ctx), Value::I32(0));
    let (ctx, _) = run(&[Op::I32Const(-1), Op::I32Const(10), Op::I32RemUnsigned]);
    assert_eq!(top(&ctx), Value::I32(5));
    let (ctx, _) = run(&[Op::I32Const(-1), Op::I32Const(2), Op::I32DivUnsigned]);
    assert_eq!(top(&ctx), Value::I32(i32::MAX));
    let (_, r) = run(&[Op::I64Const(1), Op::I64Const(0), Op::I64RemUnsigned]);
    assert_eq!(r, Err(RuntimeError::DivideByZero));
}

#[test]
fn shifts_wrap_their_count() {
    let (ctx, _) = run(&[Op::I32Const(1), Op::I32Const(33), Op::I32Shl]);
    assert_eq!(top(&ctx), Value::I32(2));
    let (ctx, _) = run(&[Op::I32Const(-8), Op::I32Const(1), Op::I32ShrSigned]);
    assert_eq!(top(&ctx), Value::I32(-4));
    let (ctx, _) = run(&[Op::I32Const(-8), Op::I32Const(1), Op::I32ShrUnsigned]);
    assert_eq!(top(&ctx), Value::I32(0x7fff_fffc));
    let (ctx, _) = run(&[Op::I64Const(1), Op::I64Const(65), Op::I64Shl]);
    assert_eq!(top(&ctx), Value::I64(2));
}

#[test]
fn rotations_and_bit_counts() {
    let (ctx, _) = run(&[Op::I32Const(i32::MIN | 1), Op::I32Const(1), Op::I32Rotl]);
    assert_eq!(top(&ctx), Value::I32(3));
    let (ctx, _) = run(&[Op::I32Const(3), Op::I32Const(1), Op::I32Rotr]);
    assert_eq!(top(&ctx), Value::I32(i32::MIN | 1));
    let (ctx, _) = run(&[Op::I64Const(1), Op::I64Const(-1), Op::I64Rotl]);
    assert_eq!(top(&ctx), Value::I64(i64::MIN));
    let (ctx, _) = run(&[Op::I32Const(0xff), Op::I32Popcnt]);
    assert_eq!(top(&ctx), Value::I32(8));
    let (ctx, _) = run(&[Op::I32Const(1), Op::I32Clz]);
    assert_eq!(top(&ctx), Value::I32(31));
    let (ctx, _) = run(&[Op::I64Const(8), Op::I64Ctz]);
    assert_eq!(top(&ctx), Value::I64(3));
    let (ctx, _) = run(&[Op::I64Const(-1), Op::I64Popcnt]);
    assert_eq!(top(&ctx), Value::I64(64));
}

#[test]
fn wrapping_arithmetic() {
    let (ctx, _) = run(&[Op::I32Const(i32::MAX), Op::I32Const(1), Op::I32Add]);
    assert_eq!(top(&ctx), Value::I32(i32::MIN));
    let (ctx, _) = run(&[Op::I64Const(i64::MIN), Op::I64Const(1), Op::I64Sub]);
    assert_eq!(top(&ctx), Value::I64(i64::MAX));
}

#[test]
fn reinterpret_round_trip() {
    let (ctx, _) = run(&[Op::I32Const(-123), Op::F32ReinterpretI32]);
    assert_eq!(top(&ctx), Value::F32((-123i32) as u32));
    let (ctx, _) = run(&[Op::I32Const(-123), Op::F32ReinterpretI32, Op::I32ReinterpretF32]);
    assert_eq!(top(&ctx), Value::I32(-123));
    let bits = 1.5f32.to_bits();
    let (ctx, _) = run(&[Op::F32Const(bits), Op::I32ReinterpretF32, Op::F32ReinterpretI32]);
    assert_eq!(top(&ctx), Value::F32(bits));
}

#[test]
fn float_sign_operations() {
    let (ctx, _) = run(&[Op::F32Const((-2.5f32).to_bits()), Op::F32Abs]);
    assert_eq!(top(&ctx), Value::F32(2.5f32.to_bits()));
    let (ctx, _) = run(&[Op::F64Const(2.5f64.to_bits()), Op::F64Neg]);
    assert_eq!(top(&ctx), Value::F64((-2.5f64).to_bits()));
    let (ctx, _) = run(&[Op::F32Const(3.0f32.to_bits()), Op::F32Const((-1.0f32).to_bits()), Op::F32Copysign]);
    assert_eq!(top(&ctx), Value::F32((-3.0f32).to_bits()));
}

#[test]
fn conversions() {
    let (ctx, _) = run(&[Op::I64Const(0x1_0000_0005), Op::I32WrapI64]);
    assert_eq!(top(&ctx), Value::I32(5));
    let (ctx, _) = run(&[Op::I32Const(-1), Op::I64ExtendUnsignedI32]);
    assert_eq!(top(&ctx), Value::I64(0xffff_ffff));
    let (ctx, _) = run(&[Op::I32Const(-1), Op::I64ExtendSignedI32]);
    assert_eq!(top(&ctx), Value::I64(-1));
}

#[test]
fn stack_errors() {
    let (_, r) = run(&[Op::I32Add]);
    assert_eq!(r, Err(RuntimeError::StackUnderflow));
    let (_, r) = run(&[Op::I64Const(1), Op::I32Const(1), Op::I32Add]);
    assert_eq!(r, Err(RuntimeError::TypeFault));
    let (_, r) = run(&[Op::Unreachable]);
    assert_eq!(r, Err(RuntimeError::Unreachable));
    let (_, r) = run(&[Op::Drop]);
    assert_eq!(r, Err(RuntimeError::Unimpl));
    let (ctx, r) = run(&[Op::Nop]);
    assert_eq!(r, Ok(()));
    assert_eq!(ctx.stack().len(), 0);
}

#[test]
fn grow_then_current_memory() {
    let (ctx, r) = run(&[Op::I32Const(2), Op::GrowMemory(0)]);
    assert_eq!(r, Ok(()));
    assert_eq!(top(&ctx), Value::I32(1));
    let (ctx, _) = run(&[Op::I32Const(2), Op::GrowMemory(0), Op::CurrentMemory(0)]);
    assert_eq!(top(&ctx), Value::I32(3));
    assert_eq!(ctx.memory_pages(), 3);
}

#[test]
fn grow_negative_or_too_far_fails() {
    let (ctx, _) = run(&[Op::I32Const(-1), Op::GrowMemory(0)]);
    assert_eq!(top(&ctx), Value::I32(-1));
    let (ctx, _) = run(&[Op::I32Const(65536), Op::GrowMemory(0)]);
    assert_eq!(top(&ctx), Value::I32(-1));
    assert_eq!(ctx.memory_pages(), 1);
}

#[test]
fn new_pages_read_zero() {
    let (mut ctx, _) = run(&[Op::I32Const(1), Op::GrowMemory(0)]);
    ctx.exec(&Op::I32Const(65536)).unwrap();
    ctx.exec(&Op::I64Load(imm(8))).unwrap();
    assert_eq!(top(&ctx), Value::I64(0));
}

#[test]
fn store_then_load_uses_base_and_offset() {
    let (ctx, r) = run(&[
        Op::I32Const(16),
        Op::I32Const(-559038737),
        Op::I32Store(imm(4)),
        Op::I32Const(20),
        Op::I32Load(imm(0)),
    ]);
    assert_eq!(r, Ok(()));
    assert_eq!(top(&ctx), Value::I32(-559038737));
    let (ctx, _) = run(&[
        Op::I32Const(0),
        Op::I32Const(0x1234),
        Op::I32Store16(imm(0)),
        Op::I32Const(0),
        Op::I32Load8Unsigned(imm(0)),
    ]);
    assert_eq!(top(&ctx), Value::I32(0x34));
    let (ctx, _) = run(&[
        Op::I32Const(0),
        Op::I64Const(-2),
        Op::I64Store(imm(0)),
        Op::I32Const(0),
        Op::I64Load32Signed(imm(0)),
    ]);
    assert_eq!(top(&ctx), Value::I64(-2));
}

#[test]
fn out_of_range_access_faults() {
    let (_, r) = run(&[Op::I32Const(65534), Op::I32Load(imm(0))]);
    assert_eq!(r, Err(RuntimeError::MemoryFault));
    let (_, r) = run(&[Op::I32Const(-1), Op::I32Load8Unsigned(imm(2))]);
    assert_eq!(r, Err(RuntimeError::MemoryFault));
    let (_, r) = run(&[Op::I32Const(65536), Op::I32Const(1), Op::I32Store8(imm(0))]);
    assert_eq!(r, Err(RuntimeError::MemoryFault));
}
