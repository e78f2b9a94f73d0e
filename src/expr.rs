//! Instructions and the expressions built from them.

use vstd::prelude::*;
use crate::ty::{BlockType, block_type_spec};
use crate::error::CodecError;
use crate::codec::{read_u8, read_u32, read_u64, read_varu1, read_varu32, read_vari32, read_vari64,
    varu1_spec, varu32_spec, vari32_spec, vari64_spec, u32_spec, u64_spec, u8_spec, decoded, many, prepend,
    lemma_many_step, lemma_prepend_empty};
use crate::reader::unread;

verus! {

/// The alignment-and-offset immediate of a memory instruction. The alignment
/// is advisory and has no effect on what an access does.
#[derive(Debug, Clone, Copy, PartialEq, Eq, Structural)]
pub struct MemoryImmed {
    pub align: u8,
    pub offset: u32,
}

/// What decoding a memory immediate at the start of `s` gives: a flags
/// number, whose low byte is the alignment, then the offset.
pub open spec fn memimmed_spec(s: Seq<u8>) -> Result<(MemoryImmed, nat), CodecError> {
    match varu32_spec(s) {
        Ok((flags, k)) => match varu32_spec(s.skip(k as int)) {
            Ok((offset, j)) => Ok((MemoryImmed { align: flags as u8, offset }, k + j)),
            Err(e) => Err(e),
        },
        Err(e) => Err(e),
    }
}

/// Skipping `k` then `j` bytes is skipping `k + j`.
pub proof fn lemma_skip_skip(s: Seq<u8>, k: int, j: int)
    requires
        0 <= k <= s.len(),
        0 <= j <= s.len() - k,
    ensures
        s.skip(k).skip(j) == s.skip((k + j) as int),
{
    assert(s.skip(k).skip(j) =~= s.skip((k + j) as int));
}

impl MemoryImmed {
    /// Decodes a memory immediate.
    pub fn decode(rd: &mut untrusted::Reader) -> (r: Result<MemoryImmed, CodecError>)
        ensures
            decoded(r, memimmed_spec(unread(*old(rd))), unread(*old(rd)), unread(*final(rd))),
    {
        let ghost s = unread(*rd);
        let flags = read_varu32(rd)?;
        let offset = read_varu32(rd)?;
        proof {
            let k = varu32_spec(s)->Ok_0.1;
            let j = varu32_spec(s.skip(k as int))->Ok_0.1;
            lemma_skip_skip(s, k as int, j as int);
        }
        let align = flags as u8;
        Ok(MemoryImmed { align, offset })
    }
}

/// The index of a function type, then a reserved byte that must be zero;
/// any other value of it is a bad immediate.
pub open spec fn call_indirect_spec(s: Seq<u8>) -> Result<(u32, nat), CodecError> {
    match varu32_spec(s) {
        Ok((index, k)) => match u8_spec(s.skip(k as int)) {
            Ok((b, j)) => if b != 0 {
                Err(CodecError::BadOpArgs)
            } else {
                Ok((index, k + j))
            },
            Err(e) => Err(e),
        },
        Err(e) => Err(e),
    }
}

/// Decodes the immediates of an indirect call.
pub fn call_indirect(rd: &mut untrusted::Reader) -> (r: Result<u32, CodecError>)
    ensures
        decoded(r, call_indirect_spec(unread(*old(rd))), unread(*old(rd)), unread(*final(rd))),
{
    let ghost s = unread(*rd);
    let index = read_varu32(rd)?;
    let reserved = read_u8(rd)?;
    proof {
        let k = varu32_spec(s)->Ok_0.1;
        let j = u8_spec(s.skip(k as int))->Ok_0.1;
        lemma_skip_skip(s, k as int, j as int);
    }
    if reserved != 0 {
        Err(CodecError::BadOpArgs)
    } else {
        Ok(index)
    }
}

/// What decoding `n` indices in a row from `s` gives.
pub open spec fn u32s_spec(s: Seq<u8>, n: nat) -> Result<(Seq<u32>, nat), CodecError> {
    many(s, n, |x: Seq<u8>| varu32_spec(x))
}

/// What decoding a branch table at the start of `s` gives: a count, that
/// many targets, then the default target.
pub open spec fn branch_table_spec(s: Seq<u8>) -> Result<(Seq<u32>, u32, nat), CodecError> {
    match varu32_spec(s) {
        Ok((count, k)) => match u32s_spec(s.skip(k as int), count as nat) {
            Ok((ts, j)) => match varu32_spec(s.skip((k + j) as int)) {
                Ok((d, i)) => Ok((ts, d, k + j + i)),
                Err(e) => Err(e),
            },
            Err(e) => Err(e),
        },
        Err(e) => Err(e),
    }
}

/// Decodes `n` indices in a row.
pub fn read_u32s(rd: &mut untrusted::Reader, n: u32) -> (r: Result<Vec<u32>, CodecError>)
    ensures
        match u32s_spec(unread(*old(rd)), n as nat) {
            Ok((ts, k)) => r matches Ok(v) && v@ == ts && k <= unread(*old(rd)).len()
                && unread(*final(rd)) == unread(*old(rd)).skip(k as int),
            Err(e) => r == Err::<Vec<u32>, CodecError>(e),
        },
{
    let ghost s = unread(*rd);
    let mut items: Vec<u32> = Vec::new();
    let mut i: u32 = 0;
    let ghost mut used: nat = 0;
    proof {
        lemma_prepend_empty(u32s_spec(s, n as nat));
        assert(s.skip(0) =~= s);
    }
    while i < n
        invariant
            i <= n,
            s == unread(*old(rd)),
            items@.len() == i,
            used <= s.len(),
            unread(*rd) == s.skip(used as int),
            u32s_spec(s, n as nat) == prepend(items@, used, u32s_spec(unread(*rd), (n - i) as nat)),
        decreases n - i,
    {
        let ghost cur = unread(*rd);
        let x = match read_varu32(rd) {
            Ok(x) => x,
            Err(e) => {
                proof {
                    assert(u32s_spec(cur, (n - i) as nat) == Err::<(Seq<u32>, nat), CodecError>(e));
                    assert(u32s_spec(s, n as nat) == Err::<(Seq<u32>, nat), CodecError>(e));
                }
                return Err(e);
            },
        };
        proof {
            let k = varu32_spec(cur)->Ok_0.1;
            lemma_many_step(items@, used, cur, (n - i) as nat, |x: Seq<u8>| varu32_spec(x));
            lemma_skip_skip(s, used as int, k as int);
            used = used + k;
        }
        items.push(x);
        i = i + 1;
    }
    proof {
        assert(u32s_spec(unread(*rd), 0) == Ok::<(Seq<u32>, nat), CodecError>((Seq::empty(), 0)));
        assert(items@ + Seq::<u32>::empty() =~= items@);
    }
    Ok(items)
}

impl BranchTable {
    /// Decodes a branch table.
    pub fn decode(rd: &mut untrusted::Reader) -> (r: Result<BranchTable, CodecError>)
        ensures
            match branch_table_spec(unread(*old(rd))) {
                Ok((ts, d, k)) => r matches Ok(t) && t.targets@ == ts && t.default == d
                    && k <= unread(*old(rd)).len() && unread(*final(rd)) == unread(*old(rd)).skip(k as int),
                Err(e) => r == Err::<BranchTable, CodecError>(e),
            },
    {
        let ghost s = unread(*rd);
        let count = read_varu32(rd)?;
        let ghost k = varu32_spec(s)->Ok_0.1;
        let targets = read_u32s(rd, count)?;
        let ghost j = u32s_spec(s.skip(k as int), count as nat)->Ok_0.1;
        proof {
            lemma_skip_skip(s, k as int, j as int);
        }
        let default = read_varu32(rd)?;
        proof {
            let i = varu32_spec(s.skip((k + j) as int))->Ok_0.1;
            lemma_skip_skip(s, (k + j) as int, i as int);
        }
        Ok(BranchTable { targets, default })
    }
}

/// A branch table: the targets by index, and the target for any other index.
#[derive(Debug, Clone)]
pub struct BranchTable {
    pub targets: Vec<u32>,
    pub default: u32,
}

/// One WebAssembly instruction with its immediates. Float constants are held
/// as their IEEE-754 bit patterns.
#[derive(Debug, Clone)]
pub enum Op {
    Unreachable,
    Nop,
    Block(BlockType),
    Loop(BlockType),
    If(BlockType),
    Else,
    End,
    Branch(u32),
    BranchIf(u32),
    BranchTable(BranchTable),
    Return,
    Call(u32),
    CallIndirect(u32),
    Drop,
    Select,
    GetLocal(u32),
    SetLocal(u32),
    TeeLocal(u32),
    GetGlobal(u32),
    SetGlobal(u32),
    I32Const(i32),
    I64Const(i64),
    F32Const(u32),
    F64Const(u64),
    I32Eqz,
    I32Eq,
    I32Ne,
    I32LtSigned,
    I32LtUnsigned,
    I32GtSigned,
    I32GtUnsigned,
    I32LeSigned,
    I32LeUnsigned,
    I32GeSigned,
    I32GeUnsigned,
    I64Eqz,
    I64Eq,
    I64Ne,
    I64LtSigned,
    I64LtUnsigned,
    I64GtSigned,
    I64GtUnsigned,
    I64LeSigned,
    I64LeUnsigned,
    I64GeSigned,
    I64GeUnsigned,
    F32Eq,
    F32Ne,
    F32Lt,
    F32Gt,
    F32Le,
    F32Ge,
    F64Eq,
    F64Ne,
    F64Lt,
    F64Gt,
    F64Le,
    F64Ge,
    I32Clz,
    I32Ctz,
    I32Popcnt,
    I32Add,
    I32Sub,
    I32Mul,
    I32DivSigned,
    I32DivUnsigned,
    I32RemSigned,
    I32RemUnsigned,
    I32And,
    I32Or,
    I32Xor,
    I32Shl,
    I32ShrSigned,
    I32ShrUnsigned,
    I32Rotl,
    I32Rotr,
    I64Clz,
    I64Ctz,
    I64Popcnt,
    I64Add,
    I64Sub,
    I64Mul,
    I64DivSigned,
    I64DivUnsigned,
    I64RemSigned,
    I64RemUnsigned,
    I64And,
    I64Or,
    I64Xor,
    I64Shl,
    I64ShrSigned,
    I64ShrUnsigned,
    I64Rotl,
    I64Rotr,
    F32Abs,
    F32Neg,
    F32Ceil,
    F32Floor,
    F32Trunc,
    F32Nearest,
    F32Sqrt,
    F32Add,
    F32Sub,
    F32Mul,
    F32Div,
    F32Min,
    F32Max,
    F32Copysign,
    F64Abs,
    F64Neg,
    F64Ceil,
    F64Floor,
    F64Trunc,
    F64Nearest,
    F64Sqrt,
    F64Add,
    F64Sub,
    F64Mul,
    F64Div,
    F64Min,
    F64Max,
    F64Copysign,
    I32WrapI64,
    I32TruncSignedF32,
    I32TruncUnsignedF32,
    I32TruncSignedF64,
    I32TruncUnsignedF64,
    I64ExtendSignedI32,
    I64ExtendUnsignedI32,
    I64TruncSignedF32,
    I64TruncUnsignedF32,
    I64TruncSignedF64,
    I64TruncUnsignedF64,
    F32ConvertSignedI32,
    F32ConvertUnsignedI32,
    F32ConvertSignedI64,
    F32ConvertUnsignedI64,
    F32DemoteF64,
    F64ConvertSignedI32,
    F64ConvertUnsignedI32,
    F64ConvertSignedI64,
    F64ConvertUnsignedI64,
    F64PromoteF32,
    I32ReinterpretF32,
    I64ReinterpretF64,
    F32ReinterpretI32,
    F64ReinterpretI64,
    I32Load(MemoryImmed),
    I64Load(MemoryImmed),
    F32Load(MemoryImmed),
    F64Load(MemoryImmed),
    I32Load8Signed(MemoryImmed),
    I32Load8Unsigned(MemoryImmed),
    I32Load16Signed(MemoryImmed),
    I32Load16Unsigned(MemoryImmed),
    I64Load8Signed(MemoryImmed),
    I64Load8Unsigned(MemoryImmed),
    I64Load16Signed(MemoryImmed),
    I64Load16Unsigned(MemoryImmed),
    I64Load32Signed(MemoryImmed),
    I64Load32Unsigned(MemoryImmed),
    I32Store(MemoryImmed),
    I64Store(MemoryImmed),
    F32Store(MemoryImmed),
    F64Store(MemoryImmed),
    I32Store8(MemoryImmed),
    I32Store16(MemoryImmed),
    I64Store8(MemoryImmed),
    I64Store16(MemoryImmed),
    I64Store32(MemoryImmed),
    CurrentMemory(u8),
    GrowMemory(u8),
}


/// The opcode of an instruction.
pub open spec fn op_code(op: Op) -> u8 {
    match op {
        Op::Unreachable => 0x00,
        Op::Nop => 0x01,
        Op::Block(..) => 0x02,
        Op::Loop(..) => 0x03,
        Op::If(..) => 0x04,
        Op::Else => 0x05,
        Op::End => 0x0b,
        Op::Branch(..) => 0x0c,
        Op::BranchIf(..) => 0x0d,
        Op::BranchTable(..) => 0x0e,
        Op::Return => 0x0f,
        Op::Call(..) => 0x10,
        Op::CallIndirect(..) => 0x11,
        Op::Drop => 0x1a,
        Op::Select => 0x1b,
        Op::GetLocal(..) => 0x20,
        Op::SetLocal(..) => 0x21,
        Op::TeeLocal(..) => 0x22,
        Op::GetGlobal(..) => 0x23,
        Op::SetGlobal(..) => 0x24,
        Op::I32Load(..) => 0x28,
        Op::I64Load(..) => 0x29,
        Op::F32Load(..) => 0x2a,
        Op::F64Load(..) => 0x2b,
        Op::I32Load8Signed(..) => 0x2c,
        Op::I32Load8Unsigned(..) => 0x2d,
        Op::I32Load16Signed(..) => 0x2e,
        Op::I32Load16Unsigned(..) => 0x2f,
        Op::I64Load8Signed(..) => 0x30,
        Op::I64Load8Unsigned(..) => 0x31,
        Op::I64Load16Signed(..) => 0x32,
        Op::I64Load16Unsigned(..) => 0x33,
        Op::I64Load32Signed(..) => 0x34,
        Op::I64Load32Unsigned(..) => 0x35,
        Op::I32Store(..) => 0x36,
        Op::I64Store(..) => 0x37,
        Op::F32Store(..) => 0x38,
        Op::F64Store(..) => 0x39,
        Op::I32Store8(..) => 0x3a,
        Op::I32Store16(..) => 0x3b,
        Op::I64Store8(..) => 0x3c,
        Op::I64Store16(..) => 0x3d,
        Op::I64Store32(..) => 0x3e,
        Op::CurrentMemory(..) => 0x3f,
        Op::GrowMemory(..) => 0x40,
        Op::I32Const(..) => 0x41,
        Op::I64Const(..) => 0x42,
        Op::F32Const(..) => 0x43,
        Op::F64Const(..) => 0x44,
        Op::I32Eqz => 0x45,
        Op::I32Eq => 0x46,
        Op::I32Ne => 0x47,
        Op::I32LtSigned => 0x48,
        Op::I32LtUnsigned => 0x49,
        Op::I32GtSigned => 0x4a,
        Op::I32GtUnsigned => 0x4b,
        Op::I32LeSigned => 0x4c,
        Op::I32LeUnsigned => 0x4d,
        Op::I32GeSigned => 0x4e,
        Op::I32GeUnsigned => 0x4f,
        Op::I64Eqz => 0x50,
        Op::I64Eq => 0x51,
        Op::I64Ne => 0x52,
        Op::I64LtSigned => 0x53,
        Op::I64LtUnsigned => 0x54,
        Op::I64GtSigned => 0x55,
        Op::I64GtUnsigned => 0x56,
        Op::I64LeSigned => 0x57,
        Op::I64LeUnsigned => 0x58,
        Op::I64GeSigned => 0x59,
        Op::I64GeUnsigned => 0x5a,
        Op::F32Eq => 0x5b,
        Op::F32Ne => 0x5c,
        Op::F32Lt => 0x5d,
        Op::F32Gt => 0x5e,
        Op::F32Le => 0x5f,
        Op::F32Ge => 0x60,
        Op::F64Eq => 0x61,
        Op::F64Ne => 0x62,
        Op::F64Lt => 0x63,
        Op::F64Gt => 0x64,
        Op::F64Le => 0x65,
        Op::F64Ge => 0x66,
        Op::I32Clz => 0x67,
        Op::I32Ctz => 0x68,
        Op::I32Popcnt => 0x69,
        Op::I32Add => 0x6a,
        Op::I32Sub => 0x6b,
        Op::I32Mul => 0x6c,
        Op::I32DivSigned => 0x6d,
        Op::I32DivUnsigned => 0x6e,
        Op::I32RemSigned => 0x6f,
        Op::I32RemUnsigned => 0x70,
        Op::I32And => 0x71,
        Op::I32Or => 0x72,
        Op::I32Xor => 0x73,
        Op::I32Shl => 0x74,
        Op::I32ShrSigned => 0x75,
        Op::I32ShrUnsigned => 0x76,
        Op::I32Rotl => 0x77,
        Op::I32Rotr => 0x78,
        Op::I64Clz => 0x79,
        Op::I64Ctz => 0x7a,
        Op::I64Popcnt => 0x7b,
        Op::I64Add => 0x7c,
        Op::I64Sub => 0x7d,
        Op::I64Mul => 0x7e,
        Op::I64DivSigned => 0x7f,
        Op::I64DivUnsigned => 0x80,
        Op::I64RemSigned => 0x81,
        Op::I64RemUnsigned => 0x82,
        Op::I64And => 0x83,
        Op::I64Or => 0x84,
        Op::I64Xor => 0x85,
        Op::I64Shl => 0x86,
        Op::I64ShrSigned => 0x87,
        Op::I64ShrUnsigned => 0x88,
        Op::I64Rotl => 0x89,
        Op::I64Rotr => 0x8a,
        Op::F32Abs => 0x8b,
        Op::F32Neg => 0x8c,
        Op::F32Ceil => 0x8d,
        Op::F32Floor => 0x8e,
        Op::F32Trunc => 0x8f,
        Op::F32Nearest => 0x90,
        Op::F32Sqrt => 0x91,
        Op::F32Add => 0x92,
        Op::F32Sub => 0x93,
        Op::F32Mul => 0x94,
        Op::F32Div => 0x95,
        Op::F32Min => 0x96,
        Op::F32Max => 0x97,
        Op::F32Copysign => 0x98,
        Op::F64Abs => 0x99,
        Op::F64Neg => 0x9a,
        Op::F64Ceil => 0x9b,
        Op::F64Floor => 0x9c,
        Op::F64Trunc => 0x9d,
        Op::F64Nearest => 0x9e,
        Op::F64Sqrt => 0x9f,
        Op::F64Add => 0xa0,
        Op::F64Sub => 0xa1,
        Op::F64Mul => 0xa2,
        Op::F64Div => 0xa3,
        Op::F64Min => 0xa4,
        Op::F64Max => 0xa5,
        Op::F64Copysign => 0xa6,
        Op::I32WrapI64 => 0xa7,
        Op::I32TruncSignedF32 => 0xa8,
        Op::I32TruncUnsignedF32 => 0xa9,
        Op::I32TruncSignedF64 => 0xaa,
        Op::I32TruncUnsignedF64 => 0xab,
        Op::I64ExtendSignedI32 => 0xac,
        Op::I64ExtendUnsignedI32 => 0xad,
        Op::I64TruncSignedF32 => 0xae,
        Op::I64TruncUnsignedF32 => 0xaf,
        Op::I64TruncSignedF64 => 0xb0,
        Op::I64TruncUnsignedF64 => 0xb1,
        Op::F32ConvertSignedI32 => 0xb2,
        Op::F32ConvertUnsignedI32 => 0xb3,
        Op::F32ConvertSignedI64 => 0xb4,
        Op::F32ConvertUnsignedI64 => 0xb5,
        Op::F32DemoteF64 => 0xb6,
        Op::F64ConvertSignedI32 => 0xb7,
        Op::F64ConvertUnsignedI32 => 0xb8,
        Op::F64ConvertSignedI64 => 0xb9,
        Op::F64ConvertUnsignedI64 => 0xba,
        Op::F64PromoteF32 => 0xbb,
        Op::I32ReinterpretF32 => 0xbc,
        Op::I64ReinterpretF64 => 0xbd,
        Op::F32ReinterpretI32 => 0xbe,
        Op::F64ReinterpretI64 => 0xbf,
    }
}

/// Whether `c` is the opcode of an instruction without immediates.
pub open spec fn plain_code(c: u8) -> bool {
    (0x00 <= c <= 0x01) || c == 0x05 || c == 0x0b || c == 0x0f || (0x1a <= c <= 0x1b) || (0x45 <= c <= 0xbf)
}

/// Whether `c` is the opcode of an instruction whose immediate is a block type.
pub open spec fn block_code(c: u8) -> bool {
    (0x02 <= c <= 0x04)
}

/// Whether `c` is the opcode of an instruction whose immediate is an index.
pub open spec fn index_code(c: u8) -> bool {
    (0x0c <= c <= 0x0d) || c == 0x10 || (0x20 <= c <= 0x24)
}

/// Whether `c` is the opcode of a memory access.
pub open spec fn memory_code(c: u8) -> bool {
    (0x28 <= c <= 0x3e)
}

/// How many bytes a decoder whose result is `r` took, counting one more byte
/// before it.
pub open spec fn after_code<T>(r: Result<(T, nat), CodecError>) -> Result<nat, CodecError> {
    match r {
        Ok((v, k)) => Ok(k + 1),
        Err(e) => Err(e),
    }
}

/// How many bytes the instruction at the start of `s` takes, or why it
/// cannot be decoded.
pub open spec fn op_len(s: Seq<u8>) -> Result<nat, CodecError> {
    if s.len() == 0 {
        Err(CodecError::Truncated)
    } else {
        let c = s[0];
        let rest = s.drop_first();
        if plain_code(c) {
            Ok(1)
        } else if block_code(c) {
            after_code(block_type_spec(rest))
        } else if index_code(c) {
            after_code(varu32_spec(rest))
        } else if c == 0x0e {
            match branch_table_spec(rest) {
                Ok((ts, d, k)) => Ok(k + 1),
                Err(e) => Err(e),
            }
        } else if c == 0x11 {
            after_code(call_indirect_spec(rest))
        } else if memory_code(c) {
            after_code(memimmed_spec(rest))
        } else if c == 0x3f || c == 0x40 {
            after_code(varu1_spec(rest))
        } else if c == 0x41 {
            after_code(vari32_spec(rest))
        } else if c == 0x42 {
            after_code(vari64_spec(rest))
        } else if c == 0x43 {
            after_code(u32_spec(rest))
        } else if c == 0x44 {
            after_code(u64_spec(rest))
        } else {
            Err(CodecError::BadOpcode(c))
        }
    }
}

/// `op` is the instruction that `s` starts with: its opcode is the first
/// byte, and its immediates are what the bytes after it encode.
pub open spec fn op_denotes(op: Op, s: Seq<u8>) -> bool {
    &&& s.len() > 0
    &&& op_code(op) == s[0]
    &&& match op {
        Op::Block(x) | Op::Loop(x) | Op::If(x) => block_type_spec(s.drop_first()) matches Ok((v, _)) && v == x,
        Op::Branch(x) | Op::BranchIf(x) | Op::Call(x) | Op::GetLocal(x) | Op::SetLocal(x) | Op::TeeLocal(x) | Op::GetGlobal(x) | Op::SetGlobal(x) => varu32_spec(s.drop_first()) matches Ok((v, _)) && v == x,
        Op::CallIndirect(x) => call_indirect_spec(s.drop_first()) matches Ok((v, _)) && v == x,
        Op::I32Load(x) | Op::I64Load(x) | Op::F32Load(x) | Op::F64Load(x) | Op::I32Load8Signed(x) | Op::I32Load8Unsigned(x) | Op::I32Load16Signed(x) | Op::I32Load16Unsigned(x) | Op::I64Load8Signed(x) | Op::I64Load8Unsigned(x) | Op::I64Load16Signed(x) | Op::I64Load16Unsigned(x) | Op::I64Load32Signed(x) | Op::I64Load32Unsigned(x) | Op::I32Store(x) | Op::I64Store(x) | Op::F32Store(x) | Op::F64Store(x) | Op::I32Store8(x) | Op::I32Store16(x) | Op::I64Store8(x) | Op::I64Store16(x) | Op::I64Store32(x) => memimmed_spec(s.drop_first()) matches Ok((v, _)) && v == x,
        Op::CurrentMemory(x) | Op::GrowMemory(x) => varu1_spec(s.drop_first()) matches Ok((v, _)) && v == x,
        Op::I32Const(x) => vari32_spec(s.drop_first()) matches Ok((v, _)) && v == x,
        Op::I64Const(x) => vari64_spec(s.drop_first()) matches Ok((v, _)) && v == x,
        Op::F32Const(x) => u32_spec(s.drop_first()) matches Ok((v, _)) && v == x,
        Op::F64Const(x) => u64_spec(s.drop_first()) matches Ok((v, _)) && v == x,
        Op::BranchTable(t) => branch_table_spec(s.drop_first()) matches Ok((ts, d, _)) && t.targets@ == ts
            && t.default == d,
        _ => true,
    }
}

/// The instruction without immediates whose opcode is `c`, if there is one.
fn plain_op(c: u8) -> (r: Option<Op>)
    ensures
        r is Some <==> plain_code(c),
        r matches Some(op) ==> op_code(op) == c && op_denotes(op, seq![c]),
{
    match c {
        0x00 => Some(Op::Unreachable),
        0x01 => Some(Op::Nop),
        0x05 => Some(Op::Else),
        0x0b => Some(Op::End),
        0x0f => Some(Op::Return),
        0x1a => Some(Op::Drop),
        0x1b => Some(Op::Select),
        0x45 => Some(Op::I32Eqz),
        0x46 => Some(Op::I32Eq),
        0x47 => Some(Op::I32Ne),
        0x48 => Some(Op::I32LtSigned),
        0x49 => Some(Op::I32LtUnsigned),
        0x4a => Some(Op::I32GtSigned),
        0x4b => Some(Op::I32GtUnsigned),
        0x4c => Some(Op::I32LeSigned),
        0x4d => Some(Op::I32LeUnsigned),
        0x4e => Some(Op::I32GeSigned),
        0x4f => Some(Op::I32GeUnsigned),
        0x50 => Some(Op::I64Eqz),
        0x51 => Some(Op::I64Eq),
        0x52 => Some(Op::I64Ne),
        0x53 => Some(Op::I64LtSigned),
        0x54 => Some(Op::I64LtUnsigned),
        0x55 => Some(Op::I64GtSigned),
        0x56 => Some(Op::I64GtUnsigned),
        0x57 => Some(Op::I64LeSigned),
        0x58 => Some(Op::I64LeUnsigned),
        0x59 => Some(Op::I64GeSigned),
        0x5a => Some(Op::I64GeUnsigned),
        0x5b => Some(Op::F32Eq),
        0x5c => Some(Op::F32Ne),
        0x5d => Some(Op::F32Lt),
        0x5e => Some(Op::F32Gt),
        0x5f => Some(Op::F32Le),
        0x60 => Some(Op::F32Ge),
        0x61 => Some(Op::F64Eq),
        0x62 => Some(Op::F64Ne),
        0x63 => Some(Op::F64Lt),
        0x64 => Some(Op::F64Gt),
        0x65 => Some(Op::F64Le),
        0x66 => Some(Op::F64Ge),
        0x67 => Some(Op::I32Clz),
        0x68 => Some(Op::I32Ctz),
        0x69 => Some(Op::I32Popcnt),
        0x6a => Some(Op::I32Add),
        0x6b => Some(Op::I32Sub),
        0x6c => Some(Op::I32Mul),
        0x6d => Some(Op::I32DivSigned),
        0x6e => Some(Op::I32DivUnsigned),
        0x6f => Some(Op::I32RemSigned),
        0x70 => Some(Op::I32RemUnsigned),
        0x71 => Some(Op::I32And),
        0x72 => Some(Op::I32Or),
        0x73 => Some(Op::I32Xor),
        0x74 => Some(Op::I32Shl),
        0x75 => Some(Op::I32ShrSigned),
        0x76 => Some(Op::I32ShrUnsigned),
        0x77 => Some(Op::I32Rotl),
        0x78 => Some(Op::I32Rotr),
        0x79 => Some(Op::I64Clz),
        0x7a => Some(Op::I64Ctz),
        0x7b => Some(Op::I64Popcnt),
        0x7c => Some(Op::I64Add),
        0x7d => Some(Op::I64Sub),
        0x7e => Some(Op::I64Mul),
        0x7f => Some(Op::I64DivSigned),
        0x80 => Some(Op::I64DivUnsigned),
        0x81 => Some(Op::I64RemSigned),
        0x82 => Some(Op::I64RemUnsigned),
        0x83 => Some(Op::I64And),
        0x84 => Some(Op::I64Or),
        0x85 => Some(Op::I64Xor),
        0x86 => Some(Op::I64Shl),
        0x87 => Some(Op::I64ShrSigned),
        0x88 => Some(Op::I64ShrUnsigned),
        0x89 => Some(Op::I64Rotl),
        0x8a => Some(Op::I64Rotr),
        0x8b => Some(Op::F32Abs),
        0x8c => Some(Op::F32Neg),
        0x8d => Some(Op::F32Ceil),
        0x8e => Some(Op::F32Floor),
        0x8f => Some(Op::F32Trunc),
        0x90 => Some(Op::F32Nearest),
        0x91 => Some(Op::F32Sqrt),
        0x92 => Some(Op::F32Add),
        0x93 => Some(Op::F32Sub),
        0x94 => Some(Op::F32Mul),
        0x95 => Some(Op::F32Div),
        0x96 => Some(Op::F32Min),
        0x97 => Some(Op::F32Max),
        0x98 => Some(Op::F32Copysign),
        0x99 => Some(Op::F64Abs),
        0x9a => Some(Op::F64Neg),
        0x9b => Some(Op::F64Ceil),
        0x9c => Some(Op::F64Floor),
        0x9d => Some(Op::F64Trunc),
        0x9e => Some(Op::F64Nearest),
        0x9f => Some(Op::F64Sqrt),
        0xa0 => Some(Op::F64Add),
        0xa1 => Some(Op::F64Sub),
        0xa2 => Some(Op::F64Mul),
        0xa3 => Some(Op::F64Div),
        0xa4 => Some(Op::F64Min),
        0xa5 => Some(Op::F64Max),
        0xa6 => Some(Op::F64Copysign),
        0xa7 => Some(Op::I32WrapI64),
        0xa8 => Some(Op::I32TruncSignedF32),
        0xa9 => Some(Op::I32TruncUnsignedF32),
        0xaa => Some(Op::I32TruncSignedF64),
        0xab => Some(Op::I32TruncUnsignedF64),
        0xac => Some(Op::I64ExtendSignedI32),
        0xad => Some(Op::I64ExtendUnsignedI32),
        0xae => Some(Op::I64TruncSignedF32),
        0xaf => Some(Op::I64TruncUnsignedF32),
        0xb0 => Some(Op::I64TruncSignedF64),
        0xb1 => Some(Op::I64TruncUnsignedF64),
        0xb2 => Some(Op::F32ConvertSignedI32),
        0xb3 => Some(Op::F32ConvertUnsignedI32),
        0xb4 => Some(Op::F32ConvertSignedI64),
        0xb5 => Some(Op::F32ConvertUnsignedI64),
        0xb6 => Some(Op::F32DemoteF64),
        0xb7 => Some(Op::F64ConvertSignedI32),
        0xb8 => Some(Op::F64ConvertUnsignedI32),
        0xb9 => Some(Op::F64ConvertSignedI64),
        0xba => Some(Op::F64ConvertUnsignedI64),
        0xbb => Some(Op::F64PromoteF32),
        0xbc => Some(Op::I32ReinterpretF32),
        0xbd => Some(Op::I64ReinterpretF64),
        0xbe => Some(Op::F32ReinterpretI32),
        0xbf => Some(Op::F64ReinterpretI64),
        _ => None,
    }
}


/// Whether `c` is the opcode of an instruction allowed in an initialiser
/// expression: a constant, or the read of a global.
pub open spec fn init_code(c: u8) -> bool {
    c == 0x41 || c == 0x42 || c == 0x43 || c == 0x44 || c == 0x23
}

/// `offs` with `k` added to each.
pub open spec fn shifted(offs: Seq<int>, k: int) -> Seq<int> {
    offs.map_values(|o: int| o + k)
}

/// What decoding an initialiser expression at the start of `s` gives: where
/// each of its instructions starts, and the bytes it takes with the final
/// `End`; or why it cannot be decoded.
pub open spec fn init_expr_spec(s: Seq<u8>) -> Result<(Seq<int>, nat), CodecError>
    decreases s.len(),
{
    match op_len(s) {
        Ok(k) => if s[0] == 0x0b {
            Ok((Seq::empty(), k))
        } else if !init_code(s[0]) {
            Err(CodecError::BadInitExpr)
        } else if 0 < k <= s.len() {
            match init_expr_spec(s.skip(k as int)) {
                Ok((offs, j)) => Ok((seq![0int] + shifted(offs, k as int), k + j)),
                Err(e) => Err(e),
            }
        } else {
            Err(CodecError::Truncated)
        },
        Err(e) => Err(e),
    }
}

/// The instructions `ops` are those that start at `offs` in `s`.
pub open spec fn ops_at(ops: Seq<Op>, s: Seq<u8>, offs: Seq<int>) -> bool {
    &&& ops.len() == offs.len()
    &&& forall|i: int| 0 <= i < ops.len() ==> 0 <= #[trigger] offs[i] <= s.len() && op_denotes(ops[i], s.skip(offs[i]))
}

/// Whether `op` may stand in an initialiser expression.
pub open spec fn init_op(op: Op) -> bool {
    match op {
        Op::I32Const(_) | Op::I64Const(_) | Op::F32Const(_) | Op::F64Const(_) | Op::GetGlobal(_) => true,
        _ => false,
    }
}

/// An op that `s` starts with is the end marker exactly when `s` starts with
/// its opcode, and may stand in an initialiser expression exactly when its
/// opcode says so.
proof fn lemma_op_kind(op: Op, s: Seq<u8>)
    requires
        op_denotes(op, s),
    ensures
        (op is End) <==> s[0] == 0x0b,
        init_op(op) <==> init_code(s[0]),
{
}

/// Decodes the immediates of a control or variable instruction whose opcode `code` was just read.
fn decode_control(code: u8, rd: &mut untrusted::Reader, Ghost(s): Ghost<Seq<u8>>) -> (r: Result<Op, CodecError>)
    requires
        code < 0x28,
        s.len() > 0,
        s[0] == code,
        !plain_code(code),
        unread(*old(rd)) == s.drop_first(),
    ensures
        match op_len(s) {
            Ok(k) => r matches Ok(op) && op_denotes(op, s) && k <= s.len()
                && unread(*final(rd)) == s.skip(k as int),
            Err(e) => r == Err::<Op, CodecError>(e),
        },
{
    proof {
        assert forall|k: int| 0 <= k <= s.len() - 1 implies #[trigger] s.drop_first().skip(k) == s.skip(k + 1) by {
            assert(s.drop_first().skip(k) =~= s.skip(k + 1));
        }
    }
    match code {
        0x02 => Ok(Op::Block(BlockType::decode(rd)?)),
        0x03 => Ok(Op::Loop(BlockType::decode(rd)?)),
        0x04 => Ok(Op::If(BlockType::decode(rd)?)),
        0x0c => Ok(Op::Branch(read_varu32(rd)?)),
        0x0d => Ok(Op::BranchIf(read_varu32(rd)?)),
        0x0e => Ok(Op::BranchTable(BranchTable::decode(rd)?)),
        0x10 => Ok(Op::Call(read_varu32(rd)?)),
        0x11 => Ok(Op::CallIndirect(call_indirect(rd)?)),
        0x20 => Ok(Op::GetLocal(read_varu32(rd)?)),
        0x21 => Ok(Op::SetLocal(read_varu32(rd)?)),
        0x22 => Ok(Op::TeeLocal(read_varu32(rd)?)),
        0x23 => Ok(Op::GetGlobal(read_varu32(rd)?)),
        0x24 => Ok(Op::SetGlobal(read_varu32(rd)?)),
        _ => Err(CodecError::BadOpcode(code)),
    }
}

/// Decodes the immediates of a memory instruction or a constant whose opcode `code` was just read.
fn decode_memory_or_const(code: u8, rd: &mut untrusted::Reader, Ghost(s): Ghost<Seq<u8>>) -> (r: Result<Op, CodecError>)
    requires
        code >= 0x28,
        s.len() > 0,
        s[0] == code,
        !plain_code(code),
        unread(*old(rd)) == s.drop_first(),
    ensures
        match op_len(s) {
            Ok(k) => r matches Ok(op) && op_denotes(op, s) && k <= s.len()
                && unread(*final(rd)) == s.skip(k as int),
            Err(e) => r == Err::<Op, CodecError>(e),
        },
{
    proof {
        assert forall|k: int| 0 <= k <= s.len() - 1 implies #[trigger] s.drop_first().skip(k) == s.skip(k + 1) by {
            assert(s.drop_first().skip(k) =~= s.skip(k + 1));
        }
    }
    match code {
        0x28 => Ok(Op::I32Load(MemoryImmed::decode(rd)?)),
        0x29 => Ok(Op::I64Load(MemoryImmed::decode(rd)?)),
        0x2a => Ok(Op::F32Load(MemoryImmed::decode(rd)?)),
        0x2b => Ok(Op::F64Load(MemoryImmed::decode(rd)?)),
        0x2c => Ok(Op::I32Load8Signed(MemoryImmed::decode(rd)?)),
        0x2d => Ok(Op::I32Load8Unsigned(MemoryImmed::decode(rd)?)),
        0x2e => Ok(Op::I32Load16Signed(MemoryImmed::decode(rd)?)),
        0x2f => Ok(Op::I32Load16Unsigned(MemoryImmed::decode(rd)?)),
        0x30 => Ok(Op::I64Load8Signed(MemoryImmed::decode(rd)?)),
        0x31 => Ok(Op::I64Load8Unsigned(MemoryImmed::decode(rd)?)),
        0x32 => Ok(Op::I64Load16Signed(MemoryImmed::decode(rd)?)),
        0x33 => Ok(Op::I64Load16Unsigned(MemoryImmed::decode(rd)?)),
        0x34 => Ok(Op::I64Load32Signed(MemoryImmed::decode(rd)?)),
        0x35 => Ok(Op::I64Load32Unsigned(MemoryImmed::decode(rd)?)),
        0x36 => Ok(Op::I32Store(MemoryImmed::decode(rd)?)),
        0x37 => Ok(Op::I64Store(MemoryImmed::decode(rd)?)),
        0x38 => Ok(Op::F32Store(MemoryImmed::decode(rd)?)),
        0x39 => Ok(Op::F64Store(MemoryImmed::decode(rd)?)),
        0x3a => Ok(Op::I32Store8(MemoryImmed::decode(rd)?)),
        0x3b => Ok(Op::I32Store16(MemoryImmed::decode(rd)?)),
        0x3c => Ok(Op::I64Store8(MemoryImmed::decode(rd)?)),
        0x3d => Ok(Op::I64Store16(MemoryImmed::decode(rd)?)),
        0x3e => Ok(Op::I64Store32(MemoryImmed::decode(rd)?)),
        0x3f => Ok(Op::CurrentMemory(read_varu1(rd)?)),
        0x40 => Ok(Op::GrowMemory(read_varu1(rd)?)),
        0x41 => Ok(Op::I32Const(read_vari32(rd)?)),
        0x42 => Ok(Op::I64Const(read_vari64(rd)?)),
        0x43 => Ok(Op::F32Const(read_u32(rd)?)),
        0x44 => Ok(Op::F64Const(read_u64(rd)?)),
        _ => Err(CodecError::BadOpcode(code)),
    }
}

impl Op {
    /// Decodes one instruction.
    pub fn decode(rd: &mut untrusted::Reader) -> (r: Result<Op, CodecError>)
        ensures
            match op_len(unread(*old(rd))) {
                Ok(k) => r matches Ok(op) && op_denotes(op, unread(*old(rd))) && k <= unread(*old(rd)).len()
                    && unread(*final(rd)) == unread(*old(rd)).skip(k as int),
                Err(e) => r == Err::<Op, CodecError>(e),
            },
    {
        let ghost s = unread(*rd);
        let op = read_u8(rd)?;
        if let Some(p) = plain_op(op) {
            proof {
                assert(s.skip(1) =~= s.drop_first());
            }
            return Ok(p);
        }
        if op < 0x28 {
            decode_control(op, rd, Ghost(s))
        } else {
            decode_memory_or_const(op, rd, Ghost(s))
        }
    }

    /// Whether this instruction may stand in an initialiser expression.
    pub fn is_init_op(&self) -> (r: bool)
        ensures
            r == init_op(*self),
    {
        match *self {
            Op::I32Const(_) | Op::I64Const(_) | Op::F32Const(_) | Op::F64Const(_) | Op::GetGlobal(_) => true,
            _ => false,
        }
    }
}

/// An initialiser expression: constant instructions, without the final `End`.
#[derive(Debug, Clone)]
pub struct InitExpr {
    pub ops: Vec<Op>,
}

impl InitExpr {
    /// Decodes an initialiser expression up to and with its `End`.
    pub fn decode(rd: &mut untrusted::Reader) -> (r: Result<InitExpr, CodecError>)
        ensures
            match init_expr_spec(unread(*old(rd))) {
                Ok((offs, k)) => r matches Ok(e) && ops_at(e.ops@, unread(*old(rd)), offs)
                    && k <= unread(*old(rd)).len() && unread(*final(rd)) == unread(*old(rd)).skip(k as int),
                Err(e) => r == Err::<InitExpr, CodecError>(e),
            },
    {
        let ghost s = unread(*rd);
        let mut ops: Vec<Op> = Vec::new();
        let ghost mut used: nat = 0;
        let ghost mut offs: Seq<int> = Seq::empty();
        proof {
            assert(s.skip(0) =~= s);
            match init_expr_spec(s) {
                Ok((o, j)) => {
                    assert(shifted(o, 0) =~= o);
                    assert(offs + shifted(o, 0) =~= o);
                },
                Err(e) => {},
            }
        }
        loop
            invariant
                s == unread(*old(rd)),
                used <= s.len(),
                unread(*rd) == s.skip(used as int),
                ops_at(ops@, s, offs),
                match init_expr_spec(s.skip(used as int)) {
                    Ok((o, j)) => init_expr_spec(s) == Ok::<(Seq<int>, nat), CodecError>(
                        (offs + shifted(o, used as int), used + j),
                    ),
                    Err(e) => init_expr_spec(s) == Err::<(Seq<int>, nat), CodecError>(e),
                },
            decreases s.len() - used,
        {
            let ghost cur = unread(*rd);
            let op = Op::decode(rd)?;
            let ghost k = op_len(cur)->Ok_0;
            proof {
                lemma_op_kind(op, cur);
                lemma_skip_skip(s, used as int, k as int);
            }
            if let Op::End = op {
                return Ok(InitExpr { ops });
            }
            if !op.is_init_op() {
                return Err(CodecError::BadInitExpr);
            }
            proof {
                assert(cur.skip(k as int) == s.skip((used + k) as int));
                match init_expr_spec(s.skip((used + k) as int)) {
                    Ok((o, j)) => {
                        assert(offs.push(used as int) + shifted(o, (used + k) as int) =~= offs + shifted(
                            seq![0int] + shifted(o, k as int),
                            used as int,
                        ));
                    },
                    Err(e) => {},
                }
                let offs2 = offs.push(used as int);
                assert forall|i: int| 0 <= i < ops@.push(op).len() implies 0 <= #[trigger] offs2[i] <= s.len()
                    && op_denotes(ops@.push(op)[i], s.skip(offs2[i])) by {
                    if i < ops@.len() {
                        assert(offs2[i] == offs[i]);
                    }
                }
                offs = offs2;
                used = used + k;
            }
            ops.push(op);
        }
    }
}

} // verus!
