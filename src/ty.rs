//! Value, block and element types.

use vstd::prelude::*;
use crate::error::CodecError;
use crate::codec::{read_vari7, vari7_spec, decoded, lemma_varu_len_ok_bound};
use crate::reader::{unread, reader_peek, reader_read_byte};

verus! {

/// The type of a value: a 32- or 64-bit integer or float.
#[derive(Debug, Clone, Copy, PartialEq, Eq, Structural)]
pub enum ValueType {
    I32,
    I64,
    F32,
    F64,
}

/// The value type that the signed number `v` encodes.
pub open spec fn value_type_of(v: int) -> Option<ValueType> {
    if v == -0x01 {
        Some(ValueType::I32)
    } else if v == -0x02 {
        Some(ValueType::I64)
    } else if v == -0x03 {
        Some(ValueType::F32)
    } else if v == -0x04 {
        Some(ValueType::F64)
    } else {
        None
    }
}

/// What decoding a value type at the start of `s` gives, and the bytes it takes.
pub open spec fn value_type_spec(s: Seq<u8>) -> Result<(ValueType, nat), CodecError> {
    match vari7_spec(s) {
        Ok((v, k)) => match value_type_of(v) {
            Some(t) => Ok((t, k)),
            None => Err(CodecError::BadType),
        },
        Err(e) => Err(e),
    }
}

impl ValueType {
    /// Decodes a value type.
    pub fn decode(rd: &mut untrusted::Reader) -> (r: Result<ValueType, CodecError>)
        ensures
            decoded(r, value_type_spec(unread(*old(rd))), unread(*old(rd)), unread(*final(rd))),
    {
        proof {
            lemma_varu_len_ok_bound(unread(*rd), 1);
        }
        let ty = read_vari7(rd)?;
        match ty {
            -0x01 => Ok(ValueType::I32),
            -0x02 => Ok(ValueType::I64),
            -0x03 => Ok(ValueType::F32),
            -0x04 => Ok(ValueType::F64),
            _ => Err(CodecError::BadType),
        }
    }
}

/// The result type of a block: nothing, or one value.
#[derive(Debug, Clone, Copy, PartialEq, Eq, Structural)]
pub enum BlockType {
    Single(ValueType),
    Void,
}

/// What decoding a block type at the start of `s` gives: the byte `0x40` is
/// the empty type, anything else a value type.
pub open spec fn block_type_spec(s: Seq<u8>) -> Result<(BlockType, nat), CodecError> {
    if s.len() > 0 && s[0] == 0x40 {
        Ok((BlockType::Void, 1))
    } else {
        match value_type_spec(s) {
            Ok((t, k)) => Ok((BlockType::Single(t), k)),
            Err(e) => Err(e),
        }
    }
}

impl BlockType {
    /// Decodes a block type.
    pub fn decode(rd: &mut untrusted::Reader) -> (r: Result<BlockType, CodecError>)
        ensures
            decoded(r, block_type_spec(unread(*old(rd))), unread(*old(rd)), unread(*final(rd))),
    {
        if reader_peek(rd, 0x40) {
            let _ = reader_read_byte(rd);
            Ok(BlockType::Void)
        } else {
            Ok(BlockType::Single(ValueType::decode(rd)?))
        }
    }
}

/// The one element type: any function.
#[derive(Debug, Clone, Copy, PartialEq, Eq, Structural)]
pub struct AnyFunction;

/// The element type of a table.
pub type ElementType = AnyFunction;

/// What decoding an element type at the start of `s` gives.
pub open spec fn element_type_spec(s: Seq<u8>) -> Result<(AnyFunction, nat), CodecError> {
    match vari7_spec(s) {
        Ok((v, k)) => if v == -0x10 {
            Ok((AnyFunction, k))
        } else {
            Err(CodecError::BadType)
        },
        Err(e) => Err(e),
    }
}

impl AnyFunction {
    /// Decodes an element type.
    pub fn decode(rd: &mut untrusted::Reader) -> (r: Result<AnyFunction, CodecError>)
        ensures
            decoded(r, element_type_spec(unread(*old(rd))), unread(*old(rd)), unread(*final(rd))),
    {
        proof {
            lemma_varu_len_ok_bound(unread(*rd), 1);
        }
        let ty = read_vari7(rd)?;
        if ty == -0x10 {
            Ok(AnyFunction)
        } else {
            Err(CodecError::BadType)
        }
    }
}

} // verus!
