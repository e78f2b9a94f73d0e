//! The evaluator: a value stack and a linear memory, changed one
//! instruction at a time.

use vstd::prelude::*;
use crate::error::RuntimeError;
use crate::expr::{MemoryImmed, Op};
use crate::mem::{Memory, in_range, load_value, write_at, pages_wf, zero_page, grown, lemma_grown_pages, MAX_PAGES};
use crate::bytes::{le_bytes, le_value, splice, pow256, lemma_le_round_trip};
use crate::mem::{bytes_at, page_of, offset_in_page};

verus! {

/// A value on the stack. Floats are held as their IEEE-754 bit patterns.
#[derive(Debug, Clone, Copy, PartialEq, Eq, Structural)]
pub enum Value {
    I32(i32),
    I64(i64),
    F32(u32),
    F64(u64),
}

/// What an evaluation context holds: its stack, top last, and its memory's pages.
pub struct ContextView {
    pub stack: Seq<Value>,
    pub pages: Seq<Seq<u8>>,
}

/// Takes an `i32` off the top of `st`.
pub open spec fn take_i32(st: Seq<Value>) -> Result<(i32, Seq<Value>), RuntimeError> {
    if st.len() == 0 {
        Err(RuntimeError::StackUnderflow)
    } else {
        match st.last() {
            Value::I32(x) => Ok((x, st.drop_last())),
            _ => Err(RuntimeError::TypeFault),
        }
    }
}

/// Takes an `i64` off the top of `st`.
pub open spec fn take_i64(st: Seq<Value>) -> Result<(i64, Seq<Value>), RuntimeError> {
    if st.len() == 0 {
        Err(RuntimeError::StackUnderflow)
    } else {
        match st.last() {
            Value::I64(x) => Ok((x, st.drop_last())),
            _ => Err(RuntimeError::TypeFault),
        }
    }
}

/// Takes the bits of an `f32` off the top of `st`.
pub open spec fn take_f32(st: Seq<Value>) -> Result<(u32, Seq<Value>), RuntimeError> {
    if st.len() == 0 {
        Err(RuntimeError::StackUnderflow)
    } else {
        match st.last() {
            Value::F32(x) => Ok((x, st.drop_last())),
            _ => Err(RuntimeError::TypeFault),
        }
    }
}

/// Takes the bits of an `f64` off the top of `st`.
pub open spec fn take_f64(st: Seq<Value>) -> Result<(u64, Seq<Value>), RuntimeError> {
    if st.len() == 0 {
        Err(RuntimeError::StackUnderflow)
    } else {
        match st.last() {
            Value::F64(x) => Ok((x, st.drop_last())),
            _ => Err(RuntimeError::TypeFault),
        }
    }
}

/// An operation with one operand: take it, push `f` of it.
pub open spec fn unary<T>(
    c: ContextView,
    take: spec_fn(Seq<Value>) -> Result<(T, Seq<Value>), RuntimeError>,
    f: spec_fn(T) -> Value,
) -> Result<ContextView, RuntimeError> {
    match take(c.stack) {
        Ok((x, rest)) => Ok(ContextView { stack: rest.push(f(x)), pages: c.pages }),
        Err(e) => Err(e),
    }
}

/// An operation with two operands: take the right one (the top), then the
/// left one, and push `f(left, right)` unless it traps.
pub open spec fn binary<T>(
    c: ContextView,
    take: spec_fn(Seq<Value>) -> Result<(T, Seq<Value>), RuntimeError>,
    f: spec_fn(T, T) -> Result<Value, RuntimeError>,
) -> Result<ContextView, RuntimeError> {
    match take(c.stack) {
        Ok((y, st1)) => match take(st1) {
            Ok((x, st2)) => match f(x, y) {
                Ok(v) => Ok(ContextView { stack: st2.push(v), pages: c.pages }),
                Err(e) => Err(e),
            },
            Err(e) => Err(e),
        },
        Err(e) => Err(e),
    }
}

/// The address that a memory instruction with immediate `m` reaches from `base`.
pub open spec fn effective_address(base: i32, m: MemoryImmed) -> int {
    (base as u32) as int + m.offset as int
}

/// A load of `n` bytes: take the base address, push `conv` of the number
/// stored at the effective address.
pub open spec fn load(
    c: ContextView,
    m: MemoryImmed,
    n: int,
    conv: spec_fn(nat) -> Value,
) -> Result<ContextView, RuntimeError> {
    match take_i32(c.stack) {
        Ok((a, rest)) => {
            let ea = effective_address(a, m);
            if in_range(c.pages, ea, n) {
                Ok(ContextView { stack: rest.push(conv(load_value(c.pages, ea, n))), pages: c.pages })
            } else {
                Err(RuntimeError::MemoryFault)
            }
        },
        Err(e) => Err(e),
    }
}

/// A store of `n` bytes: take the value, then the base address, and write
/// the low `n` bytes of `bytes` of the value at the effective address.
pub open spec fn store<T>(
    c: ContextView,
    m: MemoryImmed,
    n: int,
    take: spec_fn(Seq<Value>) -> Result<(T, Seq<Value>), RuntimeError>,
    bytes: spec_fn(T) -> nat,
) -> Result<ContextView, RuntimeError> {
    match take(c.stack) {
        Ok((v, st1)) => match take_i32(st1) {
            Ok((a, st2)) => {
                let ea = effective_address(a, m);
                if in_range(c.pages, ea, n) {
                    Ok(ContextView { stack: st2, pages: write_at(c.pages, ea, le_bytes(bytes(v), n as nat)) })
                } else {
                    Err(RuntimeError::MemoryFault)
                }
            },
            Err(e) => Err(e),
        },
        Err(e) => Err(e),
    }
}

/// An `i32` result as a stack value.
pub open spec fn lift_i32(r: Result<i32, RuntimeError>) -> Result<Value, RuntimeError> {
    match r {
        Ok(x) => Ok(Value::I32(x)),
        Err(e) => Err(e),
    }
}

/// An `i64` result as a stack value.
pub open spec fn lift_i64(r: Result<i64, RuntimeError>) -> Result<Value, RuntimeError> {
    match r {
        Ok(x) => Ok(Value::I64(x)),
        Err(e) => Err(e),
    }
}

/// `|a|`.
pub open spec fn abs(a: int) -> int {
    if a < 0 {
        -a
    } else {
        a
    }
}

/// `a / b` rounded toward zero.
pub open spec fn trunc_div(a: int, b: int) -> int {
    if (a < 0) == (b < 0) {
        abs(a) / abs(b)
    } else {
        -(abs(a) / abs(b))
    }
}

/// The remainder of `a / b` rounded toward zero: it has the sign of `a`.
pub open spec fn trunc_rem(a: int, b: int) -> int {
    if a < 0 {
        -(abs(a) % abs(b))
    } else {
        abs(a) % abs(b)
    }
}

/// Signed 32-bit division; traps on a zero divisor and on the one quotient
/// that does not fit.
pub open spec fn signed_div32(x: i32, y: i32) -> Result<i32, RuntimeError> {
    if y == 0 || (x == i32::MIN && y == -1) {
        Err(RuntimeError::DivideByZero)
    } else {
        Ok(trunc_div(x as int, y as int) as i32)
    }
}

/// Unsigned 32-bit division; traps on a zero divisor.
pub open spec fn unsigned_div32(x: i32, y: i32) -> Result<i32, RuntimeError> {
    if y == 0 {
        Err(RuntimeError::DivideByZero)
    } else {
        Ok(((x as u32) / (y as u32)) as i32)
    }
}

/// Signed 32-bit remainder; traps on a zero divisor.
pub open spec fn signed_rem32(x: i32, y: i32) -> Result<i32, RuntimeError> {
    if y == 0 {
        Err(RuntimeError::DivideByZero)
    } else {
        Ok(trunc_rem(x as int, y as int) as i32)
    }
}

/// Unsigned 32-bit remainder; traps on a zero divisor.
pub open spec fn unsigned_rem32(x: i32, y: i32) -> Result<i32, RuntimeError> {
    if y == 0 {
        Err(RuntimeError::DivideByZero)
    } else {
        Ok(((x as u32) % (y as u32)) as i32)
    }
}

/// Signed 64-bit division; traps on a zero divisor and on the one quotient
/// that does not fit.
pub open spec fn signed_div64(x: i64, y: i64) -> Result<i64, RuntimeError> {
    if y == 0 || (x == i64::MIN && y == -1) {
        Err(RuntimeError::DivideByZero)
    } else {
        Ok(trunc_div(x as int, y as int) as i64)
    }
}

/// Unsigned 64-bit division; traps on a zero divisor.
pub open spec fn unsigned_div64(x: i64, y: i64) -> Result<i64, RuntimeError> {
    if y == 0 {
        Err(RuntimeError::DivideByZero)
    } else {
        Ok(((x as u64) / (y as u64)) as i64)
    }
}

/// Signed 64-bit remainder; traps on a zero divisor.
pub open spec fn signed_rem64(x: i64, y: i64) -> Result<i64, RuntimeError> {
    if y == 0 {
        Err(RuntimeError::DivideByZero)
    } else {
        Ok(trunc_rem(x as int, y as int) as i64)
    }
}

/// Unsigned 64-bit remainder; traps on a zero divisor.
pub open spec fn unsigned_rem64(x: i64, y: i64) -> Result<i64, RuntimeError> {
    if y == 0 {
        Err(RuntimeError::DivideByZero)
    } else {
        Ok(((x as u64) % (y as u64)) as i64)
    }
}

/// The number of one bits in `x`.
pub open spec fn ones(x: u64) -> nat
    decreases x,
{
    if x == 0 {
        0
    } else {
        (x % 2) as nat + ones(x / 2)
    }
}

/// `x` rotated left by `k` modulo 32 bits.
pub open spec fn rotl32(x: u32, k: u32) -> u32 {
    let s = k % 32;
    if s == 0 {
        x
    } else {
        (x << s) | (x >> ((32 - s) as u32))
    }
}

/// `x` rotated right by `k` modulo 32 bits.
pub open spec fn rotr32(x: u32, k: u32) -> u32 {
    let s = k % 32;
    if s == 0 {
        x
    } else {
        (x >> s) | (x << ((32 - s) as u32))
    }
}

/// `x` rotated left by `k` modulo 64 bits.
pub open spec fn rotl64(x: u64, k: u32) -> u64 {
    let s = k % 64;
    if s == 0 {
        x
    } else {
        (x << s) | (x >> ((64 - s) as u32))
    }
}

/// `x` rotated right by `k` modulo 64 bits.
pub open spec fn rotr64(x: u64, k: u32) -> u64 {
    let s = k % 64;
    if s == 0 {
        x
    } else {
        (x >> s) | (x << ((64 - s) as u32))
    }
}

/// Whether `op` is an operation on the stack alone.
pub open spec fn num_kind(op: Op) -> bool {
    match op {
        Op::I32Clz | Op::I32Ctz | Op::I32Popcnt | Op::I32Add | Op::I32Sub | Op::I32Mul | Op::I32DivSigned | Op::I32DivUnsigned | Op::I32RemSigned | Op::I32RemUnsigned | Op::I32And | Op::I32Or | Op::I32Xor | Op::I32Shl | Op::I32ShrSigned | Op::I32ShrUnsigned | Op::I32Rotl | Op::I32Rotr | Op::I64Clz | Op::I64Ctz | Op::I64Popcnt | Op::I64Add | Op::I64Sub | Op::I64Mul | Op::I64DivSigned | Op::I64DivUnsigned | Op::I64RemSigned | Op::I64RemUnsigned | Op::I64And | Op::I64Or | Op::I64Xor | Op::I64Shl | Op::I64ShrSigned | Op::I64ShrUnsigned | Op::I64Rotl | Op::I64Rotr | Op::F32Abs | Op::F32Neg | Op::F32Copysign | Op::F64Abs | Op::F64Neg | Op::F64Copysign | Op::I32WrapI64 | Op::I64ExtendSignedI32 | Op::I64ExtendUnsignedI32 | Op::I32ReinterpretF32 | Op::I64ReinterpretF64 | Op::F32ReinterpretI32 | Op::F64ReinterpretI64 => true,
        _ => false,
    }
}

/// Whether `op` is a load.
pub open spec fn load_kind(op: Op) -> bool {
    match op {
        Op::I32Load(_) | Op::I64Load(_) | Op::F32Load(_) | Op::F64Load(_) | Op::I32Load8Signed(_) | Op::I32Load8Unsigned(_) | Op::I32Load16Signed(_) | Op::I32Load16Unsigned(_) | Op::I64Load8Signed(_) | Op::I64Load8Unsigned(_) | Op::I64Load16Signed(_) | Op::I64Load16Unsigned(_) | Op::I64Load32Signed(_) | Op::I64Load32Unsigned(_) => true,
        _ => false,
    }
}

/// Whether `op` is a store.
pub open spec fn store_kind(op: Op) -> bool {
    match op {
        Op::I32Store(_) | Op::I64Store(_) | Op::F32Store(_) | Op::F64Store(_) | Op::I32Store8(_) | Op::I32Store16(_) | Op::I64Store8(_) | Op::I64Store16(_) | Op::I64Store32(_) => true,
        _ => false,
    }
}

/// What executing `op` does to a context: the context after it, or the trap.
/// Floating-point arithmetic, comparisons and control flow are not
/// interpreted here and give `Unimpl`.
pub open spec fn step(c: ContextView, op: Op) -> Result<ContextView, RuntimeError> {
    match op {
        Op::Unreachable => Err(RuntimeError::Unreachable),
        Op::Nop => Ok(c),
        Op::I32Clz => unary(c, |s: Seq<Value>| take_i32(s), |x: i32| Value::I32((x as u32).leading_zeros() as i32)),
        Op::I32Ctz => unary(c, |s: Seq<Value>| take_i32(s), |x: i32| Value::I32((x as u32).trailing_zeros() as i32)),
        Op::I32Popcnt => unary(c, |s: Seq<Value>| take_i32(s), |x: i32| Value::I32(ones((x as u32) as u64) as i32)),
        Op::I32Add => binary(c, |s: Seq<Value>| take_i32(s), |x: i32, y: i32| Ok(Value::I32(x.wrapping_add(y)))),
        Op::I32Sub => binary(c, |s: Seq<Value>| take_i32(s), |x: i32, y: i32| Ok(Value::I32(x.wrapping_sub(y)))),
        Op::I32Mul => binary(c, |s: Seq<Value>| take_i32(s), |x: i32, y: i32| Ok(Value::I32(x.wrapping_mul(y)))),
        Op::I32DivSigned => binary(c, |s: Seq<Value>| take_i32(s), |x: i32, y: i32| lift_i32(signed_div32(x, y))),
        Op::I32DivUnsigned => binary(c, |s: Seq<Value>| take_i32(s), |x: i32, y: i32| lift_i32(unsigned_div32(x, y))),
        Op::I32RemSigned => binary(c, |s: Seq<Value>| take_i32(s), |x: i32, y: i32| lift_i32(signed_rem32(x, y))),
        Op::I32RemUnsigned => binary(c, |s: Seq<Value>| take_i32(s), |x: i32, y: i32| lift_i32(unsigned_rem32(x, y))),
        Op::I32And => binary(c, |s: Seq<Value>| take_i32(s), |x: i32, y: i32| Ok(Value::I32(x & y))),
        Op::I32Or => binary(c, |s: Seq<Value>| take_i32(s), |x: i32, y: i32| Ok(Value::I32(x | y))),
        Op::I32Xor => binary(c, |s: Seq<Value>| take_i32(s), |x: i32, y: i32| Ok(Value::I32(x ^ y))),
        Op::I32Shl => binary(c, |s: Seq<Value>| take_i32(s), |x: i32, y: i32| Ok(Value::I32(x.wrapping_shl(y as u32)))),
        Op::I32ShrSigned => binary(c, |s: Seq<Value>| take_i32(s), |x: i32, y: i32| Ok(Value::I32(x.wrapping_shr(y as u32)))),
        Op::I32ShrUnsigned => binary(c, |s: Seq<Value>| take_i32(s), |x: i32, y: i32| Ok(Value::I32((x as u32).wrapping_shr(y as u32) as i32))),
        Op::I32Rotl => binary(c, |s: Seq<Value>| take_i32(s), |x: i32, y: i32| Ok(Value::I32(rotl32(x as u32, y as u32) as i32))),
        Op::I32Rotr => binary(c, |s: Seq<Value>| take_i32(s), |x: i32, y: i32| Ok(Value::I32(rotr32(x as u32, y as u32) as i32))),
        Op::I64Clz => unary(c, |s: Seq<Value>| take_i64(s), |x: i64| Value::I64(vstd::std_specs::bits::u64_leading_zeros(x as u64) as i64)),
        Op::I64Ctz => unary(c, |s: Seq<Value>| take_i64(s), |x: i64| Value::I64((x as u64).trailing_zeros() as i64)),
        Op::I64Popcnt => unary(c, |s: Seq<Value>| take_i64(s), |x: i64| Value::I64(ones(x as u64) as i64)),
        Op::I64Add => binary(c, |s: Seq<Value>| take_i64(s), |x: i64, y: i64| Ok(Value::I64(x.wrapping_add(y)))),
        Op::I64Sub => binary(c, |s: Seq<Value>| take_i64(s), |x: i64, y: i64| Ok(Value::I64(x.wrapping_sub(y)))),
        Op::I64Mul => binary(c, |s: Seq<Value>| take_i64(s), |x: i64, y: i64| Ok(Value::I64(x.wrapping_mul(y)))),
        Op::I64DivSigned => binary(c, |s: Seq<Value>| take_i64(s), |x: i64, y: i64| lift_i64(signed_div64(x, y))),
        Op::I64DivUnsigned => binary(c, |s: Seq<Value>| take_i64(s), |x: i64, y: i64| lift_i64(unsigned_div64(x, y))),
        Op::I64RemSigned => binary(c, |s: Seq<Value>| take_i64(s), |x: i64, y: i64| lift_i64(signed_rem64(x, y))),
        Op::I64RemUnsigned => binary(c, |s: Seq<Value>| take_i64(s), |x: i64, y: i64| lift_i64(unsigned_rem64(x, y))),
        Op::I64And => binary(c, |s: Seq<Value>| take_i64(s), |x: i64, y: i64| Ok(Value::I64(x & y))),
        Op::I64Or => binary(c, |s: Seq<Value>| take_i64(s), |x: i64, y: i64| Ok(Value::I64(x | y))),
        Op::I64Xor => binary(c, |s: Seq<Value>| take_i64(s), |x: i64, y: i64| Ok(Value::I64(x ^ y))),
        Op::I64Shl => binary(c, |s: Seq<Value>| take_i64(s), |x: i64, y: i64| Ok(Value::I64(x.wrapping_shl(y as u32)))),
        Op::I64ShrSigned => binary(c, |s: Seq<Value>| take_i64(s), |x: i64, y: i64| Ok(Value::I64(x.wrapping_shr(y as u32)))),
        Op::I64ShrUnsigned => binary(c, |s: Seq<Value>| take_i64(s), |x: i64, y: i64| Ok(Value::I64((x as u64).wrapping_shr(y as u32) as i64))),
        Op::I64Rotl => binary(c, |s: Seq<Value>| take_i64(s), |x: i64, y: i64| Ok(Value::I64(rotl64(x as u64, y as u32) as i64))),
        Op::I64Rotr => binary(c, |s: Seq<Value>| take_i64(s), |x: i64, y: i64| Ok(Value::I64(rotr64(x as u64, y as u32) as i64))),
        Op::F32Abs => unary(c, |s: Seq<Value>| take_f32(s), |x: u32| Value::F32(x & 0x7fff_ffff)),
        Op::F32Neg => unary(c, |s: Seq<Value>| take_f32(s), |x: u32| Value::F32(x ^ 0x8000_0000)),
        Op::F32Copysign => binary(c, |s: Seq<Value>| take_f32(s), |x: u32, y: u32| Ok(Value::F32((x & 0x7fff_ffff) | (y & 0x8000_0000)))),
        Op::F64Abs => unary(c, |s: Seq<Value>| take_f64(s), |x: u64| Value::F64(x & 0x7fff_ffff_ffff_ffff)),
        Op::F64Neg => unary(c, |s: Seq<Value>| take_f64(s), |x: u64| Value::F64(x ^ 0x8000_0000_0000_0000)),
        Op::F64Copysign => binary(c, |s: Seq<Value>| take_f64(s), |x: u64, y: u64| Ok(Value::F64((x & 0x7fff_ffff_ffff_ffff) | (y & 0x8000_0000_0000_0000)))),
        Op::I32WrapI64 => unary(c, |s: Seq<Value>| take_i64(s), |x: i64| Value::I32(x as i32)),
        Op::I64ExtendSignedI32 => unary(c, |s: Seq<Value>| take_i32(s), |x: i32| Value::I64(x as i64)),
        Op::I64ExtendUnsignedI32 => unary(c, |s: Seq<Value>| take_i32(s), |x: i32| Value::I64((x as u32) as i64)),
        Op::I32ReinterpretF32 => unary(c, |s: Seq<Value>| take_f32(s), |x: u32| Value::I32(x as i32)),
        Op::I64ReinterpretF64 => unary(c, |s: Seq<Value>| take_f64(s), |x: u64| Value::I64(x as i64)),
        Op::F32ReinterpretI32 => unary(c, |s: Seq<Value>| take_i32(s), |x: i32| Value::F32(x as u32)),
        Op::F64ReinterpretI64 => unary(c, |s: Seq<Value>| take_i64(s), |x: i64| Value::F64(x as u64)),
        Op::I32Load(m) => load(c, m, 4, |v: nat| Value::I32((v as u32) as i32)),
        Op::I64Load(m) => load(c, m, 8, |v: nat| Value::I64((v as u64) as i64)),
        Op::F32Load(m) => load(c, m, 4, |v: nat| Value::F32(v as u32)),
        Op::F64Load(m) => load(c, m, 8, |v: nat| Value::F64(v as u64)),
        Op::I32Load8Signed(m) => load(c, m, 1, |v: nat| Value::I32((v as u8 as i8) as i32)),
        Op::I32Load8Unsigned(m) => load(c, m, 1, |v: nat| Value::I32(v as i32)),
        Op::I32Load16Signed(m) => load(c, m, 2, |v: nat| Value::I32((v as u16 as i16) as i32)),
        Op::I32Load16Unsigned(m) => load(c, m, 2, |v: nat| Value::I32(v as i32)),
        Op::I64Load8Signed(m) => load(c, m, 1, |v: nat| Value::I64((v as u8 as i8) as i64)),
        Op::I64Load8Unsigned(m) => load(c, m, 1, |v: nat| Value::I64(v as i64)),
        Op::I64Load16Signed(m) => load(c, m, 2, |v: nat| Value::I64((v as u16 as i16) as i64)),
        Op::I64Load16Unsigned(m) => load(c, m, 2, |v: nat| Value::I64(v as i64)),
        Op::I64Load32Signed(m) => load(c, m, 4, |v: nat| Value::I64((v as u32 as i32) as i64)),
        Op::I64Load32Unsigned(m) => load(c, m, 4, |v: nat| Value::I64(v as i64)),
        Op::I32Store(m) => store(c, m, 4, |s: Seq<Value>| take_i32(s), |v: i32| (v as u32) as nat),
        Op::I64Store(m) => store(c, m, 8, |s: Seq<Value>| take_i64(s), |v: i64| (v as u64) as nat),
        Op::F32Store(m) => store(c, m, 4, |s: Seq<Value>| take_f32(s), |v: u32| (v) as nat),
        Op::F64Store(m) => store(c, m, 8, |s: Seq<Value>| take_f64(s), |v: u64| (v) as nat),
        Op::I32Store8(m) => store(c, m, 1, |s: Seq<Value>| take_i32(s), |v: i32| (v as u8) as nat),
        Op::I32Store16(m) => store(c, m, 2, |s: Seq<Value>| take_i32(s), |v: i32| (v as u16) as nat),
        Op::I64Store8(m) => store(c, m, 1, |s: Seq<Value>| take_i64(s), |v: i64| (v as u8) as nat),
        Op::I64Store16(m) => store(c, m, 2, |s: Seq<Value>| take_i64(s), |v: i64| (v as u16) as nat),
        Op::I64Store32(m) => store(c, m, 4, |s: Seq<Value>| take_i64(s), |v: i64| (v as u32) as nat),
        Op::I32Const(v) => Ok(ContextView { stack: c.stack.push(Value::I32(v)), pages: c.pages }),
        Op::I64Const(v) => Ok(ContextView { stack: c.stack.push(Value::I64(v)), pages: c.pages }),
        Op::F32Const(v) => Ok(ContextView { stack: c.stack.push(Value::F32(v)), pages: c.pages }),
        Op::F64Const(v) => Ok(ContextView { stack: c.stack.push(Value::F64(v)), pages: c.pages }),
        Op::CurrentMemory(0) => Ok(
            ContextView { stack: c.stack.push(Value::I32(c.pages.len() as i32)), pages: c.pages },
        ),
        Op::GrowMemory(0) => match take_i32(c.stack) {
            Ok((d, rest)) => if d < 0 || c.pages.len() + d > MAX_PAGES {
                Ok(ContextView { stack: rest.push(Value::I32(-1i32)), pages: c.pages })
            } else {
                Ok(
                    ContextView {
                        stack: rest.push(Value::I32(c.pages.len() as i32)),
                        pages: grown(c.pages, d as nat),
                    },
                )
            },
            Err(e) => Err(e),
        },
        _ => Err(RuntimeError::Unimpl),
    }
}

proof fn lemma_trunc_div(x: int, d: int)
    requires
        d != 0,
    ensures
        trunc_div(x, d) == if x == 0 {
            0
        } else if x > 0 && d > 0 {
            x / d
        } else if x < 0 && d < 0 {
            (x * -1) / (d * -1)
        } else if x < 0 {
            ((x * -1) / d) * -1
        } else {
            (x / (d * -1)) * -1
        },
        abs(trunc_div(x, d)) <= abs(x),
        abs(trunc_div(x, d)) == abs(x) && x != 0 ==> abs(d) == 1,
{
    let a = abs(x);
    let b = abs(d);
    assert(a / b <= a) by (nonlinear_arith)
        requires a >= 0, b >= 1;
    if b >= 2 && a > 0 {
        assert(a / b < a) by (nonlinear_arith)
            requires a > 0, b >= 2;
    }
    if x == 0 {
        assert(a / b == 0);
    }
}

proof fn lemma_trunc_rem(x: int, d: int)
    requires
        d != 0,
    ensures
        trunc_rem(x, d) == if x == 0 {
            0
        } else if x > 0 && d > 0 {
            x % d
        } else if x < 0 && d < 0 {
            ((x * -1) % (d * -1)) * -1
        } else if x < 0 {
            ((x * -1) % d) * -1
        } else {
            x % (d * -1)
        },
        abs(trunc_rem(x, d)) < abs(d),
{
    if x == 0 {
        assert(0int % abs(d) == 0);
    }
}

/// `signed_div32` of the operands, computed.
pub fn div_i32(x: i32, y: i32) -> (r: Result<i32, RuntimeError>)
    ensures
        r == signed_div32(x, y),
{
    proof {
        if y != 0 {
            lemma_trunc_div(x as int, y as int);
            let q = trunc_div(x as int, y as int);
            if x == i32::MIN && y == -1 {
                assert(q == -(x as int));
            } else {
                assert(i32::MIN <= q <= i32::MAX);
            }
        }
    }
    match x.checked_div(y) {
        Some(q) => Ok(q),
        None => Err(RuntimeError::DivideByZero),
    }
}

/// `unsigned_div32` of the operands, computed.
pub fn div_u32(x: i32, y: i32) -> (r: Result<i32, RuntimeError>)
    ensures
        r == unsigned_div32(x, y),
{
    assert(y != 0 ==> (y as u32) != 0) by (bit_vector);
    if y == 0 {
        Err(RuntimeError::DivideByZero)
    } else {
        Ok(((x as u32) / (y as u32)) as i32)
    }
}

/// `signed_rem32` of the operands, computed.
pub fn rem_i32(x: i32, y: i32) -> (r: Result<i32, RuntimeError>)
    ensures
        r == signed_rem32(x, y),
{
    proof {
        if y != 0 {
            lemma_trunc_rem(x as int, y as int);
        }
    }
    if y == 0 {
        Err(RuntimeError::DivideByZero)
    } else if y == -1 {
        Ok(0)
    } else {
        match x.checked_rem(y) {
            Some(q) => Ok(q),
            None => Err(RuntimeError::DivideByZero),
        }
    }
}

/// `unsigned_rem32` of the operands, computed.
pub fn rem_u32(x: i32, y: i32) -> (r: Result<i32, RuntimeError>)
    ensures
        r == unsigned_rem32(x, y),
{
    assert(y != 0 ==> (y as u32) != 0) by (bit_vector);
    if y == 0 {
        Err(RuntimeError::DivideByZero)
    } else {
        Ok(((x as u32) % (y as u32)) as i32)
    }
}

/// `signed_div64` of the operands, computed.
pub fn div_i64(x: i64, y: i64) -> (r: Result<i64, RuntimeError>)
    ensures
        r == signed_div64(x, y),
{
    proof {
        if y != 0 {
            lemma_trunc_div(x as int, y as int);
            let q = trunc_div(x as int, y as int);
            if x == i64::MIN && y == -1 {
                assert(q == -(x as int));
            } else {
                assert(i64::MIN <= q <= i64::MAX);
            }
        }
    }
    match x.checked_div(y) {
        Some(q) => Ok(q),
        None => Err(RuntimeError::DivideByZero),
    }
}

/// `unsigned_div64` of the operands, computed.
pub fn div_u64(x: i64, y: i64) -> (r: Result<i64, RuntimeError>)
    ensures
        r == unsigned_div64(x, y),
{
    assert(y != 0 ==> (y as u64) != 0) by (bit_vector);
    if y == 0 {
        Err(RuntimeError::DivideByZero)
    } else {
        Ok(((x as u64) / (y as u64)) as i64)
    }
}

/// `signed_rem64` of the operands, computed.
pub fn rem_i64(x: i64, y: i64) -> (r: Result<i64, RuntimeError>)
    ensures
        r == signed_rem64(x, y),
{
    proof {
        if y != 0 {
            lemma_trunc_rem(x as int, y as int);
        }
    }
    if y == 0 {
        Err(RuntimeError::DivideByZero)
    } else if y == -1 {
        Ok(0)
    } else {
        match x.checked_rem(y) {
            Some(q) => Ok(q),
            None => Err(RuntimeError::DivideByZero),
        }
    }
}

/// `unsigned_rem64` of the operands, computed.
pub fn rem_u64(x: i64, y: i64) -> (r: Result<i64, RuntimeError>)
    ensures
        r == unsigned_rem64(x, y),
{
    assert(y != 0 ==> (y as u64) != 0) by (bit_vector);
    if y == 0 {
        Err(RuntimeError::DivideByZero)
    } else {
        Ok(((x as u64) % (y as u64)) as i64)
    }
}

/// The number of one bits in `x`.
fn popcount(x: u64) -> (r: u64)
    ensures
        r as nat == ones(x),
{
    let mut v = x;
    let mut n: u64 = 0;
    proof {
        lemma_ones_le(x);
    }
    while v != 0
        invariant
            n + ones(v) == ones(x),
            ones(v) <= v,
        decreases v,
    {
        proof {
            lemma_ones_le(v / 2);
            assert(ones(v) == (v % 2) as nat + ones(v / 2));
            lemma_ones_le(x);
        }
        n = n + v % 2;
        v = v / 2;
    }
    n
}

proof fn lemma_ones_le(x: u64)
    ensures
        ones(x) <= x,
    decreases x,
{
    if x != 0 {
        lemma_ones_le(x / 2);
    }
}

/// `x` rotated left by `k` modulo 32 bits, computed.
fn rotl32_exec(x: u32, k: u32) -> (r: u32)
    ensures
        r == rotl32(x, k),
{
    let s = k % 32;
    if s == 0 {
        x
    } else {
        (x << s) | (x >> (32 - s))
    }
}

/// `x` rotated right by `k` modulo 32 bits, computed.
fn rotr32_exec(x: u32, k: u32) -> (r: u32)
    ensures
        r == rotr32(x, k),
{
    let s = k % 32;
    if s == 0 {
        x
    } else {
        (x >> s) | (x << (32 - s))
    }
}

/// `x` rotated left by `k` modulo 64 bits, computed.
fn rotl64_exec(x: u64, k: u32) -> (r: u64)
    ensures
        r == rotl64(x, k),
{
    let s = k % 64;
    if s == 0 {
        x
    } else {
        (x << s) | (x >> (64 - s))
    }
}

/// `x` rotated right by `k` modulo 64 bits, computed.
fn rotr64_exec(x: u64, k: u32) -> (r: u64)
    ensures
        r == rotr64(x, k),
{
    let s = k % 64;
    if s == 0 {
        x
    } else {
        (x >> s) | (x << (64 - s))
    }
}

/// An evaluation context: a linear memory and a stack of values.
pub struct Context {
    mem: Memory,
    stack: Vec<Value>,
}

impl View for Context {
    type V = ContextView;

    closed spec fn view(&self) -> ContextView {
        ContextView { stack: self.stack@, pages: self.mem@ }
    }
}

impl Context {
    /// The context's memory is well formed.
    pub open spec fn wf(&self) -> bool {
        pages_wf(self@.pages)
    }

    /// A context with one zero page of memory and an empty stack.
    pub fn new() -> (r: Context)
        ensures
            r.wf(),
            r@.stack == Seq::<Value>::empty(),
            r@.pages == seq![zero_page()],
    {
        let mut mem = Memory::new();
        mem.grow(1);
        let stack = Vec::new();
        let r = Context { mem, stack };
        assert(r@.pages =~= seq![zero_page()]);
        r
    }

    /// The values on the stack, top last.
    pub fn stack(&self) -> (r: &Vec<Value>)
        ensures
            r@ == self@.stack,
    {
        &self.stack
    }

    /// The number of pages of memory.
    pub fn memory_pages(&self) -> (r: usize)
        ensures
            r == self@.pages.len(),
    {
        self.mem.len_pages()
    }

    /// Pushes a value.
    pub fn push(&mut self, v: Value)
        ensures
            final(self)@.stack == old(self)@.stack.push(v),
            final(self)@.pages == old(self)@.pages,
    {
        self.stack.push(v);
    }

    /// Takes a value of the expected kind off the top of the stack.
    pub fn pop_i32(&mut self) -> (r: Result<i32, RuntimeError>)
        ensures
            final(self)@.pages == old(self)@.pages,
            match take_i32(old(self)@.stack) {
                Ok((x, rest)) => r == Ok::<i32, RuntimeError>(x) && final(self)@.stack == rest,
                Err(e) => r == Err::<i32, RuntimeError>(e),
            },
    {
        match self.stack.pop() {
            Some(Value::I32(x)) => Ok(x),
            Some(_) => Err(RuntimeError::TypeFault),
            None => Err(RuntimeError::StackUnderflow),
        }
    }

    /// Takes a value of the expected kind off the top of the stack.
    pub fn pop_i64(&mut self) -> (r: Result<i64, RuntimeError>)
        ensures
            final(self)@.pages == old(self)@.pages,
            match take_i64(old(self)@.stack) {
                Ok((x, rest)) => r == Ok::<i64, RuntimeError>(x) && final(self)@.stack == rest,
                Err(e) => r == Err::<i64, RuntimeError>(e),
            },
    {
        match self.stack.pop() {
            Some(Value::I64(x)) => Ok(x),
            Some(_) => Err(RuntimeError::TypeFault),
            None => Err(RuntimeError::StackUnderflow),
        }
    }

    /// Takes a value of the expected kind off the top of the stack.
    pub fn pop_f32(&mut self) -> (r: Result<u32, RuntimeError>)
        ensures
            final(self)@.pages == old(self)@.pages,
            match take_f32(old(self)@.stack) {
                Ok((x, rest)) => r == Ok::<u32, RuntimeError>(x) && final(self)@.stack == rest,
                Err(e) => r == Err::<u32, RuntimeError>(e),
            },
    {
        match self.stack.pop() {
            Some(Value::F32(x)) => Ok(x),
            Some(_) => Err(RuntimeError::TypeFault),
            None => Err(RuntimeError::StackUnderflow),
        }
    }

    /// Takes a value of the expected kind off the top of the stack.
    pub fn pop_f64(&mut self) -> (r: Result<u64, RuntimeError>)
        ensures
            final(self)@.pages == old(self)@.pages,
            match take_f64(old(self)@.stack) {
                Ok((x, rest)) => r == Ok::<u64, RuntimeError>(x) && final(self)@.stack == rest,
                Err(e) => r == Err::<u64, RuntimeError>(e),
            },
    {
        match self.stack.pop() {
            Some(Value::F64(x)) => Ok(x),
            Some(_) => Err(RuntimeError::TypeFault),
            None => Err(RuntimeError::StackUnderflow),
        }
    }

    /// Takes the base address off the stack and gives the immediate that
    /// reaches the effective address, or traps when that lies beyond 32 bits.
    fn address(&mut self, m: &MemoryImmed) -> (r: Result<MemoryImmed, RuntimeError>)
        ensures
            final(self)@.pages == old(self)@.pages,
            match take_i32(old(self)@.stack) {
                Ok((a, rest)) => if effective_address(a, *m) <= u32::MAX {
                    r == Ok::<MemoryImmed, RuntimeError>(
                        MemoryImmed { align: m.align, offset: effective_address(a, *m) as u32 },
                    ) && final(self)@.stack == rest
                } else {
                    r == Err::<MemoryImmed, RuntimeError>(RuntimeError::MemoryFault)
                },
                Err(e) => r == Err::<MemoryImmed, RuntimeError>(e),
            },
    {
        let a = self.pop_i32()?;
        let ea = (a as u32) as u64 + m.offset as u64;
        if ea > u32::MAX as u64 {
            Err(RuntimeError::MemoryFault)
        } else {
            Ok(MemoryImmed { align: m.align, offset: ea as u32 })
        }
    }

    /// Executes an operation on the stack alone.
    fn exec_numeric(&mut self, op: &Op) -> (r: Result<(), RuntimeError>)
        requires
            old(self).wf(),
            num_kind(*op),
        ensures
            final(self).wf(),
            match step(old(self)@, *op) {
                Ok(c) => r is Ok && final(self)@ == c,
                Err(e) => r == Err::<(), RuntimeError>(e),
            },
    {
        match op {
            Op::I32Clz => {
                let x = self.pop_i32()?;
                self.push(Value::I32((x as u32).leading_zeros() as i32));
                Ok(())
            },
            Op::I32Ctz => {
                let x = self.pop_i32()?;
                self.push(Value::I32((x as u32).trailing_zeros() as i32));
                Ok(())
            },
            Op::I32Popcnt => {
                let x = self.pop_i32()?;
                self.push(Value::I32(popcount((x as u32) as u64) as i32));
                Ok(())
            },
            Op::I32Add => {
                let y = self.pop_i32()?;
                let x = self.pop_i32()?;
                self.push(Value::I32(x.wrapping_add(y)));
                Ok(())
            },
            Op::I32Sub => {
                let y = self.pop_i32()?;
                let x = self.pop_i32()?;
                self.push(Value::I32(x.wrapping_sub(y)));
                Ok(())
            },
            Op::I32Mul => {
                let y = self.pop_i32()?;
                let x = self.pop_i32()?;
                self.push(Value::I32(x.wrapping_mul(y)));
                Ok(())
            },
            Op::I32DivSigned => {
                let y = self.pop_i32()?;
                let x = self.pop_i32()?;
                let v = div_i32(x, y)?;
                self.push(Value::I32(v));
                Ok(())
            },
            Op::I32DivUnsigned => {
                let y = self.pop_i32()?;
                let x = self.pop_i32()?;
                let v = div_u32(x, y)?;
                self.push(Value::I32(v));
                Ok(())
            },
            Op::I32RemSigned => {
                let y = self.pop_i32()?;
                let x = self.pop_i32()?;
                let v = rem_i32(x, y)?;
                self.push(Value::I32(v));
                Ok(())
            },
            Op::I32RemUnsigned => {
                let y = self.pop_i32()?;
                let x = self.pop_i32()?;
                let v = rem_u32(x, y)?;
                self.push(Value::I32(v));
                Ok(())
            },
            Op::I32And => {
                let y = self.pop_i32()?;
                let x = self.pop_i32()?;
                self.push(Value::I32(x & y));
                Ok(())
            },
            Op::I32Or => {
                let y = self.pop_i32()?;
                let x = self.pop_i32()?;
                self.push(Value::I32(x | y));
                Ok(())
            },
            Op::I32Xor => {
                let y = self.pop_i32()?;
                let x = self.pop_i32()?;
                self.push(Value::I32(x ^ y));
                Ok(())
            },
            Op::I32Shl => {
                let y = self.pop_i32()?;
                let x = self.pop_i32()?;
                self.push(Value::I32(x.wrapping_shl(y as u32)));
                Ok(())
            },
            Op::I32ShrSigned => {
                let y = self.pop_i32()?;
                let x = self.pop_i32()?;
                self.push(Value::I32(x.wrapping_shr(y as u32)));
                Ok(())
            },
            Op::I32ShrUnsigned => {
                let y = self.pop_i32()?;
                let x = self.pop_i32()?;
                self.push(Value::I32((x as u32).wrapping_shr(y as u32) as i32));
                Ok(())
            },
            Op::I32Rotl => {
                let y = self.pop_i32()?;
                let x = self.pop_i32()?;
                self.push(Value::I32(rotl32_exec(x as u32, y as u32) as i32));
                Ok(())
            },
            Op::I32Rotr => {
                let y = self.pop_i32()?;
                let x = self.pop_i32()?;
                self.push(Value::I32(rotr32_exec(x as u32, y as u32) as i32));
                Ok(())
            },
            Op::I64Clz => {
                let x = self.pop_i64()?;
                self.push(Value::I64((x as u64).leading_zeros() as i64));
                Ok(())
            },
            Op::I64Ctz => {
                let x = self.pop_i64()?;
                self.push(Value::I64((x as u64).trailing_zeros() as i64));
                Ok(())
            },
            Op::I64Popcnt => {
                let x = self.pop_i64()?;
                self.push(Value::I64(popcount(x as u64) as i64));
                Ok(())
            },
            Op::I64Add => {
                let y = self.pop_i64()?;
                let x = self.pop_i64()?;
                self.push(Value::I64(x.wrapping_add(y)));
                Ok(())
            },
            Op::I64Sub => {
                let y = self.pop_i64()?;
                let x = self.pop_i64()?;
                self.push(Value::I64(x.wrapping_sub(y)));
                Ok(())
            },
            Op::I64Mul => {
                let y = self.pop_i64()?;
                let x = self.pop_i64()?;
                self.push(Value::I64(x.wrapping_mul(y)));
                Ok(())
            },
            Op::I64DivSigned => {
                let y = self.pop_i64()?;
                let x = self.pop_i64()?;
                let v = div_i64(x, y)?;
                self.push(Value::I64(v));
                Ok(())
            },
            Op::I64DivUnsigned => {
                let y = self.pop_i64()?;
                let x = self.pop_i64()?;
                let v = div_u64(x, y)?;
                self.push(Value::I64(v));
                Ok(())
            },
            Op::I64RemSigned => {
                let y = self.pop_i64()?;
                let x = self.pop_i64()?;
                let v = rem_i64(x, y)?;
                self.push(Value::I64(v));
                Ok(())
            },
            Op::I64RemUnsigned => {
                let y = self.pop_i64()?;
                let x = self.pop_i64()?;
                let v = rem_u64(x, y)?;
                self.push(Value::I64(v));
                Ok(())
            },
            Op::I64And => {
                let y = self.pop_i64()?;
                let x = self.pop_i64()?;
                self.push(Value::I64(x & y));
                Ok(())
            },
            Op::I64Or => {
                let y = self.pop_i64()?;
                let x = self.pop_i64()?;
                self.push(Value::I64(x | y));
                Ok(())
            },
            Op::I64Xor => {
                let y = self.pop_i64()?;
                let x = self.pop_i64()?;
                self.push(Value::I64(x ^ y));
                Ok(())
            },
            Op::I64Shl => {
                let y = self.pop_i64()?;
                let x = self.pop_i64()?;
                self.push(Value::I64(x.wrapping_shl(y as u32)));
                Ok(())
            },
            Op::I64ShrSigned => {
                let y = self.pop_i64()?;
                let x = self.pop_i64()?;
                self.push(Value::I64(x.wrapping_shr(y as u32)));
                Ok(())
            },
            Op::I64ShrUnsigned => {
                let y = self.pop_i64()?;
                let x = self.pop_i64()?;
                self.push(Value::I64((x as u64).wrapping_shr(y as u32) as i64));
                Ok(())
            },
            Op::I64Rotl => {
                let y = self.pop_i64()?;
                let x = self.pop_i64()?;
                self.push(Value::I64(rotl64_exec(x as u64, y as u32) as i64));
                Ok(())
            },
            Op::I64Rotr => {
                let y = self.pop_i64()?;
                let x = self.pop_i64()?;
                self.push(Value::I64(rotr64_exec(x as u64, y as u32) as i64));
                Ok(())
            },
            Op::F32Abs => {
                let x = self.pop_f32()?;
                self.push(Value::F32(x & 0x7fff_ffff));
                Ok(())
            },
            Op::F32Neg => {
                let x = self.pop_f32()?;
                self.push(Value::F32(x ^ 0x8000_0000));
                Ok(())
            },
            Op::F32Copysign => {
                let y = self.pop_f32()?;
                let x = self.pop_f32()?;
                self.push(Value::F32((x & 0x7fff_ffff) | (y & 0x8000_0000)));
                Ok(())
            },
            Op::F64Abs => {
                let x = self.pop_f64()?;
                self.push(Value::F64(x & 0x7fff_ffff_ffff_ffff));
                Ok(())
            },
            Op::F64Neg => {
                let x = self.pop_f64()?;
                self.push(Value::F64(x ^ 0x8000_0000_0000_0000));
                Ok(())
            },
            Op::F64Copysign => {
                let y = self.pop_f64()?;
                let x = self.pop_f64()?;
                self.push(Value::F64((x & 0x7fff_ffff_ffff_ffff) | (y & 0x8000_0000_0000_0000)));
                Ok(())
            },
            Op::I32WrapI64 => {
                let x = self.pop_i64()?;
                self.push(Value::I32(x as i32));
                Ok(())
            },
            Op::I64ExtendSignedI32 => {
                let x = self.pop_i32()?;
                self.push(Value::I64(x as i64));
                Ok(())
            },
            Op::I64ExtendUnsignedI32 => {
                let x = self.pop_i32()?;
                self.push(Value::I64((x as u32) as i64));
                Ok(())
            },
            Op::I32ReinterpretF32 => {
                let x = self.pop_f32()?;
                self.push(Value::I32(x as i32));
                Ok(())
            },
            Op::I64ReinterpretF64 => {
                let x = self.pop_f64()?;
                self.push(Value::I64(x as i64));
                Ok(())
            },
            Op::F32ReinterpretI32 => {
                let x = self.pop_i32()?;
                self.push(Value::F32(x as u32));
                Ok(())
            },
            Op::F64ReinterpretI64 => {
                let x = self.pop_i64()?;
                self.push(Value::F64(x as u64));
                Ok(())
            },
            _ => Err(RuntimeError::Unimpl),
        }
    }

    /// Executes a load.
    fn exec_load(&mut self, op: &Op) -> (r: Result<(), RuntimeError>)
        requires
            old(self).wf(),
            load_kind(*op),
        ensures
            final(self).wf(),
            match step(old(self)@, *op) {
                Ok(c) => r is Ok && final(self)@ == c,
                Err(e) => r == Err::<(), RuntimeError>(e),
            },
    {
        match op {
            Op::I32Load(m) => {
                let at = self.address(m)?;
                match self.mem.i32_load(&at) {
                    Some(v) => {
                        self.push(Value::I32(v));
                        Ok(())
                    },
                    None => Err(RuntimeError::MemoryFault),
                }
            },
            Op::I64Load(m) => {
                let at = self.address(m)?;
                match self.mem.i64_load(&at) {
                    Some(v) => {
                        self.push(Value::I64(v));
                        Ok(())
                    },
                    None => Err(RuntimeError::MemoryFault),
                }
            },
            Op::F32Load(m) => {
                let at = self.address(m)?;
                match self.mem.f32_load(&at) {
                    Some(v) => {
                        self.push(Value::F32(v));
                        Ok(())
                    },
                    None => Err(RuntimeError::MemoryFault),
                }
            },
            Op::F64Load(m) => {
                let at = self.address(m)?;
                match self.mem.f64_load(&at) {
                    Some(v) => {
                        self.push(Value::F64(v));
                        Ok(())
                    },
                    None => Err(RuntimeError::MemoryFault),
                }
            },
            Op::I32Load8Signed(m) => {
                let at = self.address(m)?;
                match self.mem.i32_load8_s(&at) {
                    Some(v) => {
                        self.push(Value::I32(v));
                        Ok(())
                    },
                    None => Err(RuntimeError::MemoryFault),
                }
            },
            Op::I32Load8Unsigned(m) => {
                let at = self.address(m)?;
                match self.mem.i32_load8_u(&at) {
                    Some(v) => {
                        self.push(Value::I32(v));
                        Ok(())
                    },
                    None => Err(RuntimeError::MemoryFault),
                }
            },
            Op::I32Load16Signed(m) => {
                let at = self.address(m)?;
                match self.mem.i32_load16_s(&at) {
                    Some(v) => {
                        self.push(Value::I32(v));
                        Ok(())
                    },
                    None => Err(RuntimeError::MemoryFault),
                }
            },
            Op::I32Load16Unsigned(m) => {
                let at = self.address(m)?;
                match self.mem.i32_load16_u(&at) {
                    Some(v) => {
                        self.push(Value::I32(v));
                        Ok(())
                    },
                    None => Err(RuntimeError::MemoryFault),
                }
            },
            Op::I64Load8Signed(m) => {
                let at = self.address(m)?;
                match self.mem.i64_load8_s(&at) {
                    Some(v) => {
                        self.push(Value::I64(v));
                        Ok(())
                    },
                    None => Err(RuntimeError::MemoryFault),
                }
            },
            Op::I64Load8Unsigned(m) => {
                let at = self.address(m)?;
                match self.mem.i64_load8_u(&at) {
                    Some(v) => {
                        self.push(Value::I64(v));
                        Ok(())
                    },
                    None => Err(RuntimeError::MemoryFault),
                }
            },
            Op::I64Load16Signed(m) => {
                let at = self.address(m)?;
                match self.mem.i64_load16_s(&at) {
                    Some(v) => {
                        self.push(Value::I64(v));
                        Ok(())
                    },
                    None => Err(RuntimeError::MemoryFault),
                }
            },
            Op::I64Load16Unsigned(m) => {
                let at = self.address(m)?;
                match self.mem.i64_load16_u(&at) {
                    Some(v) => {
                        self.push(Value::I64(v));
                        Ok(())
                    },
                    None => Err(RuntimeError::MemoryFault),
                }
            },
            Op::I64Load32Signed(m) => {
                let at = self.address(m)?;
                match self.mem.i64_load32_s(&at) {
                    Some(v) => {
                        self.push(Value::I64(v));
                        Ok(())
                    },
                    None => Err(RuntimeError::MemoryFault),
                }
            },
            Op::I64Load32Unsigned(m) => {
                let at = self.address(m)?;
                match self.mem.i64_load32_u(&at) {
                    Some(v) => {
                        self.push(Value::I64(v));
                        Ok(())
                    },
                    None => Err(RuntimeError::MemoryFault),
                }
            },
            _ => Err(RuntimeError::Unimpl),
        }
    }

    /// Executes a store.
    fn exec_store(&mut self, op: &Op) -> (r: Result<(), RuntimeError>)
        requires
            old(self).wf(),
            store_kind(*op),
        ensures
            final(self).wf(),
            match step(old(self)@, *op) {
                Ok(c) => r is Ok && final(self)@ == c,
                Err(e) => r == Err::<(), RuntimeError>(e),
            },
    {
        match op {
            Op::I32Store(m) => {
                let v = self.pop_i32()?;
                let at = self.address(m)?;
                match self.mem.i32_store(v, &at) {
                    Some(()) => Ok(()),
                    None => Err(RuntimeError::MemoryFault),
                }
            },
            Op::I64Store(m) => {
                let v = self.pop_i64()?;
                let at = self.address(m)?;
                match self.mem.i64_store(v, &at) {
                    Some(()) => Ok(()),
                    None => Err(RuntimeError::MemoryFault),
                }
            },
            Op::F32Store(m) => {
                let v = self.pop_f32()?;
                let at = self.address(m)?;
                match self.mem.f32_store(v, &at) {
                    Some(()) => Ok(()),
                    None => Err(RuntimeError::MemoryFault),
                }
            },
            Op::F64Store(m) => {
                let v = self.pop_f64()?;
                let at = self.address(m)?;
                match self.mem.f64_store(v, &at) {
                    Some(()) => Ok(()),
                    None => Err(RuntimeError::MemoryFault),
                }
            },
            Op::I32Store8(m) => {
                let v = self.pop_i32()?;
                let at = self.address(m)?;
                match self.mem.i32_store8(v, &at) {
                    Some(()) => Ok(()),
                    None => Err(RuntimeError::MemoryFault),
                }
            },
            Op::I32Store16(m) => {
                let v = self.pop_i32()?;
                let at = self.address(m)?;
                match self.mem.i32_store16(v, &at) {
                    Some(()) => Ok(()),
                    None => Err(RuntimeError::MemoryFault),
                }
            },
            Op::I64Store8(m) => {
                let v = self.pop_i64()?;
                let at = self.address(m)?;
                match self.mem.i64_store8(v, &at) {
                    Some(()) => Ok(()),
                    None => Err(RuntimeError::MemoryFault),
                }
            },
            Op::I64Store16(m) => {
                let v = self.pop_i64()?;
                let at = self.address(m)?;
                match self.mem.i64_store16(v, &at) {
                    Some(()) => Ok(()),
                    None => Err(RuntimeError::MemoryFault),
                }
            },
            Op::I64Store32(m) => {
                let v = self.pop_i64()?;
                let at = self.address(m)?;
                match self.mem.i64_store32(v, &at) {
                    Some(()) => Ok(()),
                    None => Err(RuntimeError::MemoryFault),
                }
            },
            _ => Err(RuntimeError::Unimpl),
        }
    }

    /// Executes one instruction. On success the context is what `step` says;
    /// on a trap the error is what `step` says and the context is to be
    /// discarded.
    pub fn exec(&mut self, op: &Op) -> (r: Result<(), RuntimeError>)
        requires
            old(self).wf(),
        ensures
            final(self).wf(),
            match step(old(self)@, *op) {
                Ok(c) => r is Ok && final(self)@ == c,
                Err(e) => r == Err::<(), RuntimeError>(e),
            },
    {
        match op {
            Op::Unreachable => Err(RuntimeError::Unreachable),
            Op::Nop => Ok(()),
            Op::I32Const(c) => {
                self.push(Value::I32(*c));
                Ok(())
            },
            Op::I64Const(c) => {
                self.push(Value::I64(*c));
                Ok(())
            },
            Op::F32Const(c) => {
                self.push(Value::F32(*c));
                Ok(())
            },
            Op::F64Const(c) => {
                self.push(Value::F64(*c));
                Ok(())
            },
            Op::CurrentMemory(0) => {
                let pages = self.mem.len_pages() as i32;
                self.push(Value::I32(pages));
                Ok(())
            },
            Op::GrowMemory(0) => {
                let delta = self.pop_i32()?;
                let r = self.mem.grow(delta);
                self.push(Value::I32(r));
                Ok(())
            },
            Op::I32Clz | Op::I32Ctz | Op::I32Popcnt | Op::I32Add | Op::I32Sub | Op::I32Mul | Op::I32DivSigned | Op::I32DivUnsigned | Op::I32RemSigned | Op::I32RemUnsigned | Op::I32And | Op::I32Or | Op::I32Xor | Op::I32Shl | Op::I32ShrSigned | Op::I32ShrUnsigned | Op::I32Rotl | Op::I32Rotr | Op::I64Clz | Op::I64Ctz | Op::I64Popcnt | Op::I64Add | Op::I64Sub | Op::I64Mul | Op::I64DivSigned | Op::I64DivUnsigned | Op::I64RemSigned | Op::I64RemUnsigned | Op::I64And | Op::I64Or | Op::I64Xor | Op::I64Shl | Op::I64ShrSigned | Op::I64ShrUnsigned | Op::I64Rotl | Op::I64Rotr | Op::F32Abs | Op::F32Neg | Op::F32Copysign | Op::F64Abs | Op::F64Neg | Op::F64Copysign | Op::I32WrapI64 | Op::I64ExtendSignedI32 | Op::I64ExtendUnsignedI32 | Op::I32ReinterpretF32 | Op::I64ReinterpretF64 | Op::F32ReinterpretI32 | Op::F64ReinterpretI64 => self.exec_numeric(op),
            Op::I32Load(_) | Op::I64Load(_) | Op::F32Load(_) | Op::F64Load(_) | Op::I32Load8Signed(_) | Op::I32Load8Unsigned(_) | Op::I32Load16Signed(_) | Op::I32Load16Unsigned(_) | Op::I64Load8Signed(_) | Op::I64Load8Unsigned(_) | Op::I64Load16Signed(_) | Op::I64Load16Unsigned(_) | Op::I64Load32Signed(_) | Op::I64Load32Unsigned(_) => self.exec_load(op),
            Op::I32Store(_) | Op::I64Store(_) | Op::F32Store(_) | Op::F64Store(_) | Op::I32Store8(_) | Op::I32Store16(_) | Op::I64Store8(_) | Op::I64Store16(_) | Op::I64Store32(_) => self.exec_store(op),
            _ => Err(RuntimeError::Unimpl),
        }
    }
}

/// Signed 32-bit division of `a` by `b` pushes `a / b` rounded toward zero,
/// whenever `b` is not zero and the quotient fits.
pub proof fn lemma_i32_div_signed(c: ContextView, rest: Seq<Value>, a: i32, b: i32)
    requires
        c.stack == rest.push(Value::I32(a)).push(Value::I32(b)),
        b != 0,
        !(a == i32::MIN && b == -1),
    ensures
        i32::MIN <= trunc_div(a as int, b as int) <= i32::MAX,
        step(c, Op::I32DivSigned) == Ok::<ContextView, RuntimeError>(
            ContextView { stack: rest.push(Value::I32(trunc_div(a as int, b as int) as i32)), pages: c.pages },
        ),
{
    lemma_trunc_div(a as int, b as int);
    let q = trunc_div(a as int, b as int);
    assert(i32::MIN <= q <= i32::MAX);
    assert(rest.push(Value::I32(a)).push(Value::I32(b)).drop_last() == rest.push(Value::I32(a)));
    assert(rest.push(Value::I32(a)).drop_last() == rest);
}

/// Shifting `a` left by `k` shifts it by `k` modulo 32.
pub proof fn lemma_i32_shl(c: ContextView, rest: Seq<Value>, a: i32, k: i32)
    requires
        c.stack == rest.push(Value::I32(a)).push(Value::I32(k)),
    ensures
        step(c, Op::I32Shl) == Ok::<ContextView, RuntimeError>(
            ContextView { stack: rest.push(Value::I32(a << ((k as u32) % 32))), pages: c.pages },
        ),
{
    assert(rest.push(Value::I32(a)).push(Value::I32(k)).drop_last() == rest.push(Value::I32(a)));
    assert(rest.push(Value::I32(a)).drop_last() == rest);
}

/// Reinterpreting the bits of an `i32` as an `f32` and back gives the
/// `i32` again, and the other way round.
pub proof fn lemma_reinterpret_32(c: ContextView, rest: Seq<Value>, x: i32, b: u32)
    ensures
        c.stack == rest.push(Value::I32(x)) ==> (step(c, Op::F32ReinterpretI32) matches Ok(d)
            && step(d, Op::I32ReinterpretF32) == Ok::<ContextView, RuntimeError>(c)),
        c.stack == rest.push(Value::F32(b)) ==> (step(c, Op::I32ReinterpretF32) matches Ok(d)
            && step(d, Op::F32ReinterpretI32) == Ok::<ContextView, RuntimeError>(c)),
{
    assert((x as u32) as i32 == x) by (bit_vector);
    assert((b as i32) as u32 == b) by (bit_vector);
    assert(rest.push(Value::I32(x)).drop_last() == rest);
    assert(rest.push(Value::F32(b)).drop_last() == rest);
    assert(rest.push(Value::F32(x as u32)).drop_last() == rest);
    assert(rest.push(Value::I32(b as i32)).drop_last() == rest);
}

/// Reinterpreting the bits of an `i64` as an `f64` and back gives the
/// `i64` again, and the other way round.
pub proof fn lemma_reinterpret_64(c: ContextView, rest: Seq<Value>, x: i64, b: u64)
    ensures
        c.stack == rest.push(Value::I64(x)) ==> (step(c, Op::F64ReinterpretI64) matches Ok(d)
            && step(d, Op::I64ReinterpretF64) == Ok::<ContextView, RuntimeError>(c)),
        c.stack == rest.push(Value::F64(b)) ==> (step(c, Op::I64ReinterpretF64) matches Ok(d)
            && step(d, Op::F64ReinterpretI64) == Ok::<ContextView, RuntimeError>(c)),
{
    assert((x as u64) as i64 == x) by (bit_vector);
    assert((b as i64) as u64 == b) by (bit_vector);
    assert(rest.push(Value::I64(x)).drop_last() == rest);
    assert(rest.push(Value::F64(b)).drop_last() == rest);
    assert(rest.push(Value::F64(x as u64)).drop_last() == rest);
    assert(rest.push(Value::I64(b as i64)).drop_last() == rest);
}

/// Growing memory by `n` pages, when it stays within the largest size, pushes
/// the previous page count, adds `n` pages, and every load from the new
/// pages reads zero; the page count that follows is the old one plus `n`.
pub proof fn lemma_grow(c: ContextView, rest: Seq<Value>, n: i32)
    requires
        pages_wf(c.pages),
        c.stack == rest.push(Value::I32(n)),
        0 <= n,
        c.pages.len() + n <= MAX_PAGES,
    ensures
        step(c, Op::GrowMemory(0)) matches Ok(d) && d.stack == rest.push(Value::I32(c.pages.len() as i32))
            && d.pages.len() == c.pages.len() + n && pages_wf(d.pages)
            && (forall|addr: int, k: int|
                page_of(addr) >= c.pages.len() && #[trigger] in_range(d.pages, addr, k)
                    ==> #[trigger] load_value(d.pages, addr, k) == 0)
            && step(ContextView { stack: rest, pages: d.pages }, Op::CurrentMemory(0))
                == Ok::<ContextView, RuntimeError>(
                ContextView { stack: rest.push(Value::I32((c.pages.len() + n) as i32)), pages: d.pages },
            ),
{
    assert(rest.push(Value::I32(n)).drop_last() == rest);
    let pages = grown(c.pages, n as nat);
    let d = ContextView { stack: rest.push(Value::I32(c.pages.len() as i32)), pages };
    assert(step(c, Op::GrowMemory(0)) == Ok::<ContextView, RuntimeError>(d));
    lemma_grown_pages(c.pages, n as nat);
}

/// An `i32` stored at an in-range address and loaded back from it is the
/// value stored.
pub proof fn lemma_i32_store_load(c: ContextView, rest: Seq<Value>, m: MemoryImmed, a: i32, v: i32)
    requires
        pages_wf(c.pages),
        c.stack == rest.push(Value::I32(a)).push(Value::I32(v)),
        in_range(c.pages, effective_address(a, m), 4),
    ensures
        step(c, Op::I32Store(m)) matches Ok(d) && d.stack == rest
            && step(ContextView { stack: rest.push(Value::I32(a)), pages: d.pages }, Op::I32Load(m))
                == Ok::<ContextView, RuntimeError>(
                ContextView { stack: rest.push(Value::I32(v)), pages: d.pages },
            ),
{
    assert(rest.push(Value::I32(a)).push(Value::I32(v)).drop_last() == rest.push(Value::I32(a)));
    assert(rest.push(Value::I32(a)).drop_last() == rest);
    let ea = effective_address(a, m);
    let x = (v as u32) as nat;
    let w = le_bytes(x, 4);
    lemma_le_round_trip(x, 4);
    assert(pow256(4) == 0x1_0000_0000) by {
        reveal_with_fuel(pow256, 5);
    }
    let pages2 = write_at(c.pages, ea, w);
    let pg = c.pages[page_of(ea)];
    let o = offset_in_page(ea);
    assert(splice(pg, o, w).subrange(o, o + 4) =~= w);
    assert(bytes_at(pages2, ea, 4) == w);
    assert(in_range(pages2, ea, 4));
    let d = ContextView { stack: rest, pages: pages2 };
    assert(step(c, Op::I32Store(m)) == Ok::<ContextView, RuntimeError>(d));
    let y = v as u32;
    assert(x as u32 == y);
    assert((y as i32) == v) by (bit_vector)
        requires y == v as u32;
}

} // verus!
