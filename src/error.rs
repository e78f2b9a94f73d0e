use vstd::prelude::*;

verus! {

/// Why a byte sequence could not be decoded.
#[derive(Debug, Clone, Copy, PartialEq, Eq, Structural)]
pub enum CodecError {
    BadMagic,
    BadVersion,
    Unimpl,
    TrailingData,
    Truncated,
    BadVarInt,
    BadUTF8,
    BadType,
    BadOpcode(u8),
    BadInitExpr,
    BadFunctionEnd,
    BadOpArgs,
}

/// Why the evaluator trapped.
#[derive(Debug, Clone, Copy, PartialEq, Eq, Structural)]
pub enum RuntimeError {
    MemoryFault,
    TypeFault,
    StackUnderflow,
    DivideByZero,
    Unreachable,
    Unimpl,
}

} // verus!
