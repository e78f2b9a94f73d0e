//! Sections and the module envelope.

use vstd::prelude::*;
use crate::error::CodecError;
use crate::ty::{ValueType, ElementType, value_type_spec, element_type_spec};
use crate::expr::{InitExpr, ops_at, init_expr_spec, lemma_skip_skip, u32s_spec, read_u32s};
use crate::function::{FunctionBody, BodyParts, body_spec, body_is};
use crate::codec::{read_u8, read_u32, read_varu1, read_varu7, read_varu32, read_utf8, varu1_spec, varu7_spec,
    varu32_spec, u8_spec, u32_spec, decoded, many, prepend, lemma_many_step, lemma_prepend_empty,
    lemma_varu_len_ok_bound, lemma_varu_stable, lemma_varu_cut};
use crate::reader::{unread, input_slice, input_from, reader_read_bytes, reader_read_to_end,
    reader_new, reader_at_end};

verus! {

/// The limits of a table or memory: an initial size, and perhaps a maximum.
#[derive(Debug, Clone, Copy, PartialEq, Eq, Structural)]
pub enum ResizableLimits {
    Initial(u32),
    InitialMax(u32, u32),
}

/// What decoding limits at the start of `s` gives: a flag, the initial size,
/// and the maximum when the flag is 1.
pub open spec fn limits_spec(s: Seq<u8>) -> Result<(ResizableLimits, nat), CodecError> {
    match varu1_spec(s) {
        Ok((flags, k)) => match varu32_spec(s.skip(k as int)) {
            Ok((initial, j)) => if flags == 1 {
                match varu32_spec(s.skip((k + j) as int)) {
                    Ok((max, i)) => Ok((ResizableLimits::InitialMax(initial, max), k + j + i)),
                    Err(e) => Err(e),
                }
            } else {
                Ok((ResizableLimits::Initial(initial), k + j))
            },
            Err(e) => Err(e),
        },
        Err(e) => Err(e),
    }
}

impl ResizableLimits {
    /// Decodes limits.
    pub fn decode(rd: &mut untrusted::Reader) -> (r: Result<ResizableLimits, CodecError>)
        ensures
            decoded(r, limits_spec(unread(*old(rd))), unread(*old(rd)), unread(*final(rd))),
    {
        let ghost s = unread(*rd);
        let flags = read_varu1(rd)?;
        let ghost k = varu1_spec(s)->Ok_0.1;
        let initial = read_varu32(rd)?;
        let ghost j = varu32_spec(s.skip(k as int))->Ok_0.1;
        proof {
            lemma_skip_skip(s, k as int, j as int);
        }
        if flags == 1 {
            let max = read_varu32(rd)?;
            proof {
                let i = varu32_spec(s.skip((k + j) as int))->Ok_0.1;
                lemma_skip_skip(s, (k + j) as int, i as int);
            }
            Ok(ResizableLimits::InitialMax(initial, max))
        } else {
            Ok(ResizableLimits::Initial(initial))
        }
    }
}

/// The type of a table: its element type and limits.
#[derive(Debug, Clone, Copy, PartialEq, Eq, Structural)]
pub struct TableType {
    pub element_ty: ElementType,
    pub limits: ResizableLimits,
}

/// What decoding a table type at the start of `s` gives.
pub open spec fn table_type_spec(s: Seq<u8>) -> Result<(TableType, nat), CodecError> {
    match element_type_spec(s) {
        Ok((element_ty, k)) => match limits_spec(s.skip(k as int)) {
            Ok((limits, j)) => Ok((TableType { element_ty, limits }, k + j)),
            Err(e) => Err(e),
        },
        Err(e) => Err(e),
    }
}

impl TableType {
    /// Decodes a table type.
    pub fn decode(rd: &mut untrusted::Reader) -> (r: Result<TableType, CodecError>)
        ensures
            decoded(r, table_type_spec(unread(*old(rd))), unread(*old(rd)), unread(*final(rd))),
    {
        let ghost s = unread(*rd);
        let element_ty = ElementType::decode(rd)?;
        let limits = ResizableLimits::decode(rd)?;
        proof {
            let k = element_type_spec(s)->Ok_0.1;
            let j = limits_spec(s.skip(k as int))->Ok_0.1;
            lemma_skip_skip(s, k as int, j as int);
        }
        Ok(TableType { element_ty, limits })
    }
}

/// The type of a memory: its limits, in pages.
#[derive(Debug, Clone, Copy, PartialEq, Eq, Structural)]
pub struct MemoryType {
    pub limits: ResizableLimits,
}

/// What decoding a memory type at the start of `s` gives.
pub open spec fn memory_type_spec(s: Seq<u8>) -> Result<(MemoryType, nat), CodecError> {
    match limits_spec(s) {
        Ok((limits, k)) => Ok((MemoryType { limits }, k)),
        Err(e) => Err(e),
    }
}

impl MemoryType {
    /// Decodes a memory type.
    pub fn decode(rd: &mut untrusted::Reader) -> (r: Result<MemoryType, CodecError>)
        ensures
            decoded(r, memory_type_spec(unread(*old(rd))), unread(*old(rd)), unread(*final(rd))),
    {
        let limits = ResizableLimits::decode(rd)?;
        Ok(MemoryType { limits })
    }
}

/// The type of a global: its value type and whether it may change.
#[derive(Debug, Clone, Copy, PartialEq, Eq, Structural)]
pub struct GlobalType {
    pub content: ValueType,
    pub mutable: bool,
}

/// What decoding a global type at the start of `s` gives.
pub open spec fn global_type_spec(s: Seq<u8>) -> Result<(GlobalType, nat), CodecError> {
    match value_type_spec(s) {
        Ok((content, k)) => match varu1_spec(s.skip(k as int)) {
            Ok((m, j)) => Ok((GlobalType { content, mutable: m == 1 }, k + j)),
            Err(e) => Err(e),
        },
        Err(e) => Err(e),
    }
}

impl GlobalType {
    /// Decodes a global type.
    pub fn decode(rd: &mut untrusted::Reader) -> (r: Result<GlobalType, CodecError>)
        ensures
            decoded(r, global_type_spec(unread(*old(rd))), unread(*old(rd)), unread(*final(rd))),
    {
        let ghost s = unread(*rd);
        let content = ValueType::decode(rd)?;
        let m = read_varu1(rd)?;
        proof {
            let k = value_type_spec(s)->Ok_0.1;
            let j = varu1_spec(s.skip(k as int))->Ok_0.1;
            lemma_skip_skip(s, k as int, j as int);
        }
        let mutable = m == 1;
        Ok(GlobalType { content, mutable })
    }
}

/// What an import or export refers to.
#[derive(Debug, Clone, Copy, PartialEq, Eq, Structural)]
pub enum ExternalKind {
    Function,
    Table,
    Memory,
    Global,
}

/// What decoding an external kind at the start of `s` gives: one byte,
/// from 0 to 3.
pub open spec fn external_kind_spec(s: Seq<u8>) -> Result<(ExternalKind, nat), CodecError> {
    match u8_spec(s) {
        Ok((b, k)) => if b == 0 {
            Ok((ExternalKind::Function, k))
        } else if b == 1 {
            Ok((ExternalKind::Table, k))
        } else if b == 2 {
            Ok((ExternalKind::Memory, k))
        } else if b == 3 {
            Ok((ExternalKind::Global, k))
        } else {
            Err(CodecError::BadType)
        },
        Err(e) => Err(e),
    }
}

impl ExternalKind {
    /// Decodes an external kind.
    pub fn decode(rd: &mut untrusted::Reader) -> (r: Result<ExternalKind, CodecError>)
        ensures
            decoded(r, external_kind_spec(unread(*old(rd))), unread(*old(rd)), unread(*final(rd))),
    {
        let k = read_u8(rd)?;
        match k {
            0 => Ok(ExternalKind::Function),
            1 => Ok(ExternalKind::Table),
            2 => Ok(ExternalKind::Memory),
            3 => Ok(ExternalKind::Global),
            _ => Err(CodecError::BadType),
        }
    }
}

/// What an import brings in, with its type.
#[derive(Debug, Clone, Copy, PartialEq, Eq, Structural)]
pub enum ImportKind {
    Function(u32),
    Table(TableType),
    Memory(MemoryType),
    Global(GlobalType),
}

/// What decoding an import description at the start of `s` gives: an
/// external kind, then a type index or the type of what is imported.
pub open spec fn import_kind_spec(s: Seq<u8>) -> Result<(ImportKind, nat), CodecError> {
    match external_kind_spec(s) {
        Ok((kind, k)) => {
            let rest = s.skip(k as int);
            match kind {
                ExternalKind::Function => match varu32_spec(rest) {
                    Ok((i, j)) => Ok((ImportKind::Function(i), k + j)),
                    Err(e) => Err(e),
                },
                ExternalKind::Table => match table_type_spec(rest) {
                    Ok((t, j)) => Ok((ImportKind::Table(t), k + j)),
                    Err(e) => Err(e),
                },
                ExternalKind::Memory => match memory_type_spec(rest) {
                    Ok((t, j)) => Ok((ImportKind::Memory(t), k + j)),
                    Err(e) => Err(e),
                },
                ExternalKind::Global => match global_type_spec(rest) {
                    Ok((t, j)) => Ok((ImportKind::Global(t), k + j)),
                    Err(e) => Err(e),
                },
            }
        },
        Err(e) => Err(e),
    }
}

impl ImportKind {
    /// Decodes an import description.
    pub fn decode(rd: &mut untrusted::Reader) -> (r: Result<ImportKind, CodecError>)
        ensures
            decoded(r, import_kind_spec(unread(*old(rd))), unread(*old(rd)), unread(*final(rd))),
    {
        let ghost s = unread(*rd);
        let kind = ExternalKind::decode(rd)?;
        let ghost k = external_kind_spec(s)->Ok_0.1;
        let ghost rest = s.skip(k as int);
        let r = match kind {
            ExternalKind::Function => ImportKind::Function(read_varu32(rd)?),
            ExternalKind::Table => ImportKind::Table(TableType::decode(rd)?),
            ExternalKind::Memory => ImportKind::Memory(MemoryType::decode(rd)?),
            ExternalKind::Global => ImportKind::Global(GlobalType::decode(rd)?),
        };
        proof {
            let j = (rest.len() - unread(*rd).len()) as nat;
            assert(unread(*rd) == rest.skip(j as int));
            lemma_skip_skip(s, k as int, j as int);
        }
        Ok(r)
    }
}


/// An initialiser expression as decoded: the bytes it starts, and where each
/// of its instructions starts in them.
pub struct ExprParts {
    pub bytes: Seq<u8>,
    pub offsets: Seq<int>,
}

/// What decoding an initialiser expression at the start of `s` gives.
pub open spec fn expr_spec(s: Seq<u8>) -> Result<(ExprParts, nat), CodecError> {
    match init_expr_spec(s) {
        Ok((offsets, k)) => Ok((ExprParts { bytes: s, offsets }, k)),
        Err(e) => Err(e),
    }
}

/// `e` is the expression that `p` describes.
pub open spec fn expr_is(e: InitExpr, p: ExprParts) -> bool {
    ops_at(e.ops@, p.bytes, p.offsets)
}

/// What decoding a name at the start of `s` gives: a byte length, then that
/// many bytes of UTF-8.
pub open spec fn name_spec(s: Seq<u8>) -> Result<(Seq<char>, nat), CodecError> {
    match varu32_spec(s) {
        Ok((len, k)) => if len > s.len() - k {
            Err(CodecError::Truncated)
        } else {
            let b = s.skip(k as int).take(len as int);
            if vstd::utf8::valid_utf8(b) {
                Ok((vstd::utf8::decode_utf8(b), k + len as nat))
            } else {
                Err(CodecError::BadUTF8)
            }
        },
        Err(e) => Err(e),
    }
}

/// Decodes a name.
fn read_name<'a>(rd: &mut untrusted::Reader<'a>) -> (r: Result<&'a str, CodecError>)
    ensures
        match name_spec(unread(*old(rd))) {
            Ok((t, k)) => r matches Ok(x) && x@ == t && k <= unread(*old(rd)).len()
                && unread(*final(rd)) == unread(*old(rd)).skip(k as int),
            Err(e) => r == Err::<&str, CodecError>(e),
        },
{
    let ghost s = unread(*rd);
    let len = read_varu32(rd)?;
    let ghost k = varu32_spec(s)->Ok_0.1;
    proof {
        if len <= s.len() - k {
            lemma_skip_skip(s, k as int, len as int);
        }
    }
    read_utf8(rd, len as usize)
}

/// A function signature as decoded.
pub struct FuncTypeParts {
    pub params: Seq<ValueType>,
    pub ret: Option<ValueType>,
}

/// What decoding a function signature at the start of `s` gives: a form
/// byte, which is not checked, the parameter types, and a result count of 0
/// or 1 with the result type.
pub open spec fn function_type_spec(s: Seq<u8>) -> Result<(FuncTypeParts, nat), CodecError> {
    match varu7_spec(s) {
        Ok((form, k0)) => {
            let s1 = s.skip(k0 as int);
            match varu32_spec(s1) {
                Ok((n, k1)) => {
                    let s2 = s1.skip(k1 as int);
                    match value_types_spec(s2, n as nat) {
                        Ok((params, k2)) => {
                            let s3 = s2.skip(k2 as int);
                            match varu1_spec(s3) {
                                Ok((rc, k3)) => if rc == 1 {
                                    match value_type_spec(s3.skip(k3 as int)) {
                                        Ok((t, k4)) => Ok(
                                            (FuncTypeParts { params, ret: Some(t) }, k0 + k1 + k2 + k3 + k4),
                                        ),
                                        Err(e) => Err(e),
                                    }
                                } else {
                                    Ok((FuncTypeParts { params, ret: None }, k0 + k1 + k2 + k3))
                                },
                                Err(e) => Err(e),
                            }
                        },
                        Err(e) => Err(e),
                    }
                },
                Err(e) => Err(e),
            }
        },
        Err(e) => Err(e),
    }
}

/// The signature of a function: parameter types and at most one result.
#[derive(Debug, Clone)]
pub struct FunctionType {
    pub params: Vec<ValueType>,
    pub ret: Option<ValueType>,
}

/// `f` is the signature that `p` describes.
pub open spec fn function_type_is(f: FunctionType, p: FuncTypeParts) -> bool {
    f.params@ == p.params && f.ret == p.ret
}

/// `s` with `a`, `b`, `c` and `d` bytes skipped in turn is `s` with their sum skipped.
proof fn lemma_skip4(s: Seq<u8>, a: nat, b: nat, c: nat, d: nat)
    requires
        a + b + c + d <= s.len(),
    ensures
        s.skip(a as int).skip(b as int).skip(c as int).skip(d as int) == s.skip((a + b + c + d) as int),
{
    assert(s.skip(a as int).skip(b as int).skip(c as int).skip(d as int) =~= s.skip((a + b + c + d) as int));
}

impl FunctionType {
    /// Decodes a function signature.
    pub fn decode(rd: &mut untrusted::Reader) -> (r: Result<FunctionType, CodecError>)
        ensures
            match function_type_spec(unread(*old(rd))) {
                Ok((p, k)) => r matches Ok(f) && function_type_is(f, p) && k <= unread(*old(rd)).len()
                    && unread(*final(rd)) == unread(*old(rd)).skip(k as int),
                Err(e) => r == Err::<FunctionType, CodecError>(e),
            },
    {
        let ghost s = unread(*rd);
        let _form = read_varu7(rd)?;
        let ghost s1 = unread(*rd);
        let param_count = read_varu32(rd)?;
        let ghost s2 = unread(*rd);
        let params = read_value_types(rd, param_count)?;
        proof {
            let (vs, kk) = value_types_spec(s2, param_count as nat)->Ok_0;
            assert(params@ =~= vs);
        }
        let ghost s3 = unread(*rd);
        let return_count = read_varu1(rd)?;
        let ghost s4 = unread(*rd);
        let ghost k0 = varu7_spec(s)->Ok_0.1;
        let ghost k1 = varu32_spec(s1)->Ok_0.1;
        let ghost k2 = value_types_spec(s2, param_count as nat)->Ok_0.1;
        let ghost k3 = varu1_spec(s3)->Ok_0.1;
        proof {
            lemma_skip4(s, k0, k1, k2, k3);
            assert(s4 == s.skip((k0 + k1 + k2 + k3) as int));
        }
        let ret = if return_count == 1 {
            let t = ValueType::decode(rd)?;
            proof {
                let k4 = value_type_spec(s4)->Ok_0.1;
                lemma_skip_skip(s, (k0 + k1 + k2 + k3) as int, k4 as int);
            }
            Some(t)
        } else {
            None
        };
        Ok(FunctionType { params, ret })
    }
}

/// An import: the module and field it comes from, and what it is.
#[derive(Debug, Clone, Copy)]
pub struct ImportEntry<'a> {
    pub module: &'a str,
    pub field: &'a str,
    pub kind: ImportKind,
}

/// An import as decoded.
pub struct ImportParts {
    pub module: Seq<char>,
    pub field: Seq<char>,
    pub kind: ImportKind,
}

/// What decoding an import at the start of `s` gives.
pub open spec fn import_spec(s: Seq<u8>) -> Result<(ImportParts, nat), CodecError> {
    match name_spec(s) {
        Ok((module, k)) => match name_spec(s.skip(k as int)) {
            Ok((field, j)) => match import_kind_spec(s.skip((k + j) as int)) {
                Ok((kind, i)) => Ok((ImportParts { module, field, kind }, k + j + i)),
                Err(e) => Err(e),
            },
            Err(e) => Err(e),
        },
        Err(e) => Err(e),
    }
}

/// `e` is the import that `p` describes.
pub open spec fn import_is(e: ImportEntry, p: ImportParts) -> bool {
    e.module@ == p.module && e.field@ == p.field && e.kind == p.kind
}

impl<'a> ImportEntry<'a> {
    /// Decodes an import.
    pub fn decode(rd: &mut untrusted::Reader<'a>) -> (r: Result<ImportEntry<'a>, CodecError>)
        ensures
            match import_spec(unread(*old(rd))) {
                Ok((p, k)) => r matches Ok(e) && import_is(e, p) && k <= unread(*old(rd)).len()
                    && unread(*final(rd)) == unread(*old(rd)).skip(k as int),
                Err(e) => r == Err::<ImportEntry, CodecError>(e),
            },
    {
        let ghost s = unread(*rd);
        let module = read_name(rd)?;
        let ghost k = name_spec(s)->Ok_0.1;
        let field = read_name(rd)?;
        let ghost j = name_spec(s.skip(k as int))->Ok_0.1;
        proof {
            lemma_skip_skip(s, k as int, j as int);
        }
        let kind = ImportKind::decode(rd)?;
        proof {
            let i = import_kind_spec(s.skip((k + j) as int))->Ok_0.1;
            lemma_skip_skip(s, (k + j) as int, i as int);
        }
        Ok(ImportEntry { module, field, kind })
    }
}

/// A global: its type and initial value.
#[derive(Debug, Clone)]
pub struct GlobalVariable {
    pub ty: GlobalType,
    pub init: InitExpr,
}

/// A global as decoded.
pub struct GlobalParts {
    pub ty: GlobalType,
    pub init: ExprParts,
}

/// What decoding a global at the start of `s` gives.
pub open spec fn global_spec(s: Seq<u8>) -> Result<(GlobalParts, nat), CodecError> {
    match global_type_spec(s) {
        Ok((ty, k)) => match expr_spec(s.skip(k as int)) {
            Ok((init, j)) => Ok((GlobalParts { ty, init }, k + j)),
            Err(e) => Err(e),
        },
        Err(e) => Err(e),
    }
}

/// `g` is the global that `p` describes.
pub open spec fn global_is(g: GlobalVariable, p: GlobalParts) -> bool {
    g.ty == p.ty && expr_is(g.init, p.init)
}

impl GlobalVariable {
    /// Decodes a global.
    pub fn decode(rd: &mut untrusted::Reader) -> (r: Result<GlobalVariable, CodecError>)
        ensures
            match global_spec(unread(*old(rd))) {
                Ok((p, k)) => r matches Ok(g) && global_is(g, p) && k <= unread(*old(rd)).len()
                    && unread(*final(rd)) == unread(*old(rd)).skip(k as int),
                Err(e) => r == Err::<GlobalVariable, CodecError>(e),
            },
    {
        let ghost s = unread(*rd);
        let ty = GlobalType::decode(rd)?;
        let init = InitExpr::decode(rd)?;
        proof {
            let k = global_type_spec(s)->Ok_0.1;
            let j = init_expr_spec(s.skip(k as int))->Ok_0.1;
            lemma_skip_skip(s, k as int, j as int);
        }
        Ok(GlobalVariable { ty, init })
    }
}

/// An export: its name, what it refers to, and that item's index.
#[derive(Debug, Clone, Copy)]
pub struct ExportEntry<'a> {
    pub field: &'a str,
    pub kind: ExternalKind,
    pub index: u32,
}

/// An export as decoded.
pub struct ExportParts {
    pub field: Seq<char>,
    pub kind: ExternalKind,
    pub index: u32,
}

/// What decoding an export at the start of `s` gives.
pub open spec fn export_spec(s: Seq<u8>) -> Result<(ExportParts, nat), CodecError> {
    match name_spec(s) {
        Ok((field, k)) => match external_kind_spec(s.skip(k as int)) {
            Ok((kind, j)) => match varu32_spec(s.skip((k + j) as int)) {
                Ok((index, i)) => Ok((ExportParts { field, kind, index }, k + j + i)),
                Err(e) => Err(e),
            },
            Err(e) => Err(e),
        },
        Err(e) => Err(e),
    }
}

/// `e` is the export that `p` describes.
pub open spec fn export_is(e: ExportEntry, p: ExportParts) -> bool {
    e.field@ == p.field && e.kind == p.kind && e.index == p.index
}

impl<'a> ExportEntry<'a> {
    /// Decodes an export.
    pub fn decode(rd: &mut untrusted::Reader<'a>) -> (r: Result<ExportEntry<'a>, CodecError>)
        ensures
            match export_spec(unread(*old(rd))) {
                Ok((p, k)) => r matches Ok(e) && export_is(e, p) && k <= unread(*old(rd)).len()
                    && unread(*final(rd)) == unread(*old(rd)).skip(k as int),
                Err(e) => r == Err::<ExportEntry, CodecError>(e),
            },
    {
        let ghost s = unread(*rd);
        let field = read_name(rd)?;
        let ghost k = name_spec(s)->Ok_0.1;
        let kind = ExternalKind::decode(rd)?;
        let ghost j = external_kind_spec(s.skip(k as int))->Ok_0.1;
        proof {
            lemma_skip_skip(s, k as int, j as int);
        }
        let index = read_varu32(rd)?;
        proof {
            let i = varu32_spec(s.skip((k + j) as int))->Ok_0.1;
            lemma_skip_skip(s, (k + j) as int, i as int);
        }
        Ok(ExportEntry { field, kind, index })
    }
}

/// An element segment: a table index, the offset expression, and the
/// function indices placed from that offset.
#[derive(Debug, Clone)]
pub struct ElementSegment {
    pub index: u32,
    pub offset: InitExpr,
    pub elems: Vec<u32>,
}

/// An element segment as decoded.
pub struct ElementParts {
    pub index: u32,
    pub offset: ExprParts,
    pub elems: Seq<u32>,
}

/// What decoding an element segment at the start of `s` gives.
pub open spec fn element_spec(s: Seq<u8>) -> Result<(ElementParts, nat), CodecError> {
    match varu32_spec(s) {
        Ok((index, k0)) => {
            let s1 = s.skip(k0 as int);
            match expr_spec(s1) {
                Ok((offset, k1)) => {
                    let s2 = s1.skip(k1 as int);
                    match varu32_spec(s2) {
                        Ok((n, k2)) => match u32s_spec(s2.skip(k2 as int), n as nat) {
                            Ok((elems, k3)) => Ok((ElementParts { index, offset, elems }, k0 + k1 + k2 + k3)),
                            Err(e) => Err(e),
                        },
                        Err(e) => Err(e),
                    }
                },
                Err(e) => Err(e),
            }
        },
        Err(e) => Err(e),
    }
}

/// `e` is the segment that `p` describes.
pub open spec fn element_is(e: ElementSegment, p: ElementParts) -> bool {
    e.index == p.index && expr_is(e.offset, p.offset) && e.elems@ == p.elems
}

impl ElementSegment {
    /// Decodes an element segment.
    pub fn decode(rd: &mut untrusted::Reader) -> (r: Result<ElementSegment, CodecError>)
        ensures
            match element_spec(unread(*old(rd))) {
                Ok((p, k)) => r matches Ok(e) && element_is(e, p) && k <= unread(*old(rd)).len()
                    && unread(*final(rd)) == unread(*old(rd)).skip(k as int),
                Err(e) => r == Err::<ElementSegment, CodecError>(e),
            },
    {
        let ghost s = unread(*rd);
        let index = read_varu32(rd)?;
        let ghost s1 = unread(*rd);
        let offset = InitExpr::decode(rd)?;
        let ghost s2 = unread(*rd);
        let count = read_varu32(rd)?;
        let ghost s3 = unread(*rd);
        let elems = read_u32s(rd, count)?;
        proof {
            let k0 = varu32_spec(s)->Ok_0.1;
            let k1 = init_expr_spec(s1)->Ok_0.1;
            let k2 = varu32_spec(s2)->Ok_0.1;
            let k3 = u32s_spec(s3, count as nat)->Ok_0.1;
            lemma_skip4(s, k0, k1, k2, k3);
        }
        Ok(ElementSegment { index, offset, elems })
    }
}



/// What decoding `n` value types in a row from `s` gives.
pub open spec fn value_types_spec(s: Seq<u8>, n: nat) -> Result<(Seq<ValueType>, nat), CodecError> {
    many(s, n, |x: Seq<u8>| value_type_spec(x))
}

/// Decodes `n` value types in a row.
fn read_value_types(rd: &mut untrusted::Reader, n: u32) -> (r: Result<Vec<ValueType>, CodecError>)
    ensures
        match value_types_spec(unread(*old(rd)), n as nat) {
            Ok((vs, k)) => r matches Ok(v) && v@.len() == vs.len()
                && (forall|j: int| 0 <= j < vs.len() ==> v@[j] == vs[j])
                && k <= unread(*old(rd)).len() && unread(*final(rd)) == unread(*old(rd)).skip(k as int),
            Err(e) => r == Err::<Vec<ValueType>, CodecError>(e),
        },
{
    let ghost s = unread(*rd);
    let mut items: Vec<ValueType> = Vec::new();
    let mut i: u32 = 0;
    let ghost mut used: nat = 0;
    let ghost mut vals: Seq<ValueType> = Seq::empty();
    proof {
        lemma_prepend_empty(value_types_spec(s, n as nat));
        assert(s.skip(0) =~= s);
    }
    while i < n
        invariant
            i <= n,
            s == unread(*old(rd)),
            items@.len() == i,
            vals.len() == i,
            forall|j: int| 0 <= j < i ==> items@[j] == vals[j],
            used <= s.len(),
            unread(*rd) == s.skip(used as int),
            value_types_spec(s, n as nat) == prepend(vals, used, value_types_spec(unread(*rd), (n - i) as nat)),
        decreases n - i,
    {
        let ghost cur = unread(*rd);
        let x = match ValueType::decode(rd) {
            Ok(x) => x,
            Err(e) => {
                proof {
                    assert(value_types_spec(cur, (n - i) as nat) == Err::<(Seq<ValueType>, nat), CodecError>(e));
                    assert(value_types_spec(s, n as nat) == Err::<(Seq<ValueType>, nat), CodecError>(e));
                }
                return Err(e);
            },
        };
        proof {
            let (v, k) = value_type_spec(cur)->Ok_0;
            lemma_many_step(vals, used, cur, (n - i) as nat, |x: Seq<u8>| value_type_spec(x));
            lemma_skip_skip(s, used as int, k as int);
            used = used + k;
            vals = vals.push(v);
        }
        items.push(x);
        i = i + 1;
    }
    proof {
        assert(value_types_spec(unread(*rd), 0) == Ok::<(Seq<ValueType>, nat), CodecError>((Seq::empty(), 0)));
        assert(vals + Seq::<ValueType>::empty() =~= vals);
    }
    Ok(items)
}


/// A data segment: a memory index, the offset expression, and the bytes
/// placed from that offset, borrowed from the module's input.
#[derive(Debug, Clone)]
pub struct DataSegment<'a> {
    pub index: u32,
    pub init: InitExpr,
    pub data: &'a [u8],
}

/// A data segment as decoded.
pub struct DataParts {
    pub index: u32,
    pub init: ExprParts,
    pub data: Seq<u8>,
}

/// What decoding a data segment at the start of `s` gives.
pub open spec fn data_spec(s: Seq<u8>) -> Result<(DataParts, nat), CodecError> {
    match varu32_spec(s) {
        Ok((index, k0)) => {
            let s1 = s.skip(k0 as int);
            match expr_spec(s1) {
                Ok((init, k1)) => {
                    let s2 = s1.skip(k1 as int);
                    match varu32_spec(s2) {
                        Ok((size, k2)) => if size > s2.len() - k2 {
                            Err(CodecError::Truncated)
                        } else {
                            Ok(
                                (
                                    DataParts { index, init, data: s2.skip(k2 as int).take(size as int) },
                                    k0 + k1 + k2 + size as nat,
                                ),
                            )
                        },
                        Err(e) => Err(e),
                    }
                },
                Err(e) => Err(e),
            }
        },
        Err(e) => Err(e),
    }
}

/// `d` is the segment that `p` describes.
pub open spec fn data_is(d: DataSegment, p: DataParts) -> bool {
    d.index == p.index && expr_is(d.init, p.init) && d.data@ == p.data
}

impl<'a> DataSegment<'a> {
    /// Decodes a data segment.
    pub fn decode(rd: &mut untrusted::Reader<'a>) -> (r: Result<DataSegment<'a>, CodecError>)
        ensures
            match data_spec(unread(*old(rd))) {
                Ok((p, k)) => r matches Ok(d) && data_is(d, p) && k <= unread(*old(rd)).len()
                    && unread(*final(rd)) == unread(*old(rd)).skip(k as int),
                Err(e) => r == Err::<DataSegment, CodecError>(e),
            },
    {
        let ghost s = unread(*rd);
        let index = read_varu32(rd)?;
        let ghost s1 = unread(*rd);
        let init = InitExpr::decode(rd)?;
        let ghost s2 = unread(*rd);
        let size = read_varu32(rd)?;
        let ghost s3 = unread(*rd);
        let inp = match reader_read_bytes(rd, size as usize) {
            Some(inp) => inp,
            None => {
                return Err(CodecError::Truncated);
            },
        };
        let data = input_slice(&inp);
        proof {
            let k0 = varu32_spec(s)->Ok_0.1;
            let k1 = init_expr_spec(s1)->Ok_0.1;
            let k2 = varu32_spec(s2)->Ok_0.1;
            lemma_skip4(s, k0, k1, k2, size as nat);
        }
        Ok(DataSegment { index, init, data })
    }
}

/// A custom section: its name and its bytes, borrowed from the module's input.
#[derive(Debug, Clone, Copy)]
pub struct CustomSection<'a> {
    pub name: &'a str,
    pub payload: &'a [u8],
}

/// What decoding `n` function signatures in a row from `s` gives.
pub open spec fn function_types_spec(s: Seq<u8>, n: nat) -> Result<(Seq<FuncTypeParts>, nat), CodecError> {
    many(s, n, |x: Seq<u8>| function_type_spec(x))
}

/// Decodes `n` function signatures in a row.
fn read_function_types(rd: &mut untrusted::Reader, n: u32) -> (r: Result<Vec<FunctionType>, CodecError>)
    ensures
        match function_types_spec(unread(*old(rd)), n as nat) {
            Ok((vs, k)) => r matches Ok(v) && v@.len() == vs.len()
                && (forall|j: int| 0 <= j < vs.len() ==> function_type_is(v@[j], vs[j]))
                && k <= unread(*old(rd)).len() && unread(*final(rd)) == unread(*old(rd)).skip(k as int),
            Err(e) => r == Err::<Vec<FunctionType>, CodecError>(e),
        },
{
    let ghost s = unread(*rd);
    let mut items: Vec<FunctionType> = Vec::new();
    let mut i: u32 = 0;
    let ghost mut used: nat = 0;
    let ghost mut vals: Seq<FuncTypeParts> = Seq::empty();
    proof {
        lemma_prepend_empty(function_types_spec(s, n as nat));
        assert(s.skip(0) =~= s);
    }
    while i < n
        invariant
            i <= n,
            s == unread(*old(rd)),
            items@.len() == i,
            vals.len() == i,
            forall|j: int| 0 <= j < i ==> function_type_is(items@[j], vals[j]),
            used <= s.len(),
            unread(*rd) == s.skip(used as int),
            function_types_spec(s, n as nat) == prepend(vals, used, function_types_spec(unread(*rd), (n - i) as nat)),
        decreases n - i,
    {
        let ghost cur = unread(*rd);
        let x = match FunctionType::decode(rd) {
            Ok(x) => x,
            Err(e) => {
                proof {
                    assert(function_types_spec(cur, (n - i) as nat) == Err::<(Seq<FuncTypeParts>, nat), CodecError>(e));
                    assert(function_types_spec(s, n as nat) == Err::<(Seq<FuncTypeParts>, nat), CodecError>(e));
                }
                return Err(e);
            },
        };
        proof {
            let (v, k) = function_type_spec(cur)->Ok_0;
            lemma_many_step(vals, used, cur, (n - i) as nat, |x: Seq<u8>| function_type_spec(x));
            lemma_skip_skip(s, used as int, k as int);
            used = used + k;
            vals = vals.push(v);
        }
        items.push(x);
        i = i + 1;
    }
    proof {
        assert(function_types_spec(unread(*rd), 0) == Ok::<(Seq<FuncTypeParts>, nat), CodecError>((Seq::empty(), 0)));
        assert(vals + Seq::<FuncTypeParts>::empty() =~= vals);
    }
    Ok(items)
}

/// What decoding `n` imports in a row from `s` gives.
pub open spec fn imports_spec(s: Seq<u8>, n: nat) -> Result<(Seq<ImportParts>, nat), CodecError> {
    many(s, n, |x: Seq<u8>| import_spec(x))
}

/// Decodes `n` imports in a row.
fn read_imports<'a>(rd: &mut untrusted::Reader<'a>, n: u32) -> (r: Result<Vec<ImportEntry<'a>>, CodecError>)
    ensures
        match imports_spec(unread(*old(rd)), n as nat) {
            Ok((vs, k)) => r matches Ok(v) && v@.len() == vs.len()
                && (forall|j: int| 0 <= j < vs.len() ==> import_is(v@[j], vs[j]))
                && k <= unread(*old(rd)).len() && unread(*final(rd)) == unread(*old(rd)).skip(k as int),
            Err(e) => r == Err::<Vec<ImportEntry<'a>>, CodecError>(e),
        },
{
    let ghost s = unread(*rd);
    let mut items: Vec<ImportEntry<'a>> = Vec::new();
    let mut i: u32 = 0;
    let ghost mut used: nat = 0;
    let ghost mut vals: Seq<ImportParts> = Seq::empty();
    proof {
        lemma_prepend_empty(imports_spec(s, n as nat));
        assert(s.skip(0) =~= s);
    }
    while i < n
        invariant
            i <= n,
            s == unread(*old(rd)),
            items@.len() == i,
            vals.len() == i,
            forall|j: int| 0 <= j < i ==> import_is(items@[j], vals[j]),
            used <= s.len(),
            unread(*rd) == s.skip(used as int),
            imports_spec(s, n as nat) == prepend(vals, used, imports_spec(unread(*rd), (n - i) as nat)),
        decreases n - i,
    {
        let ghost cur = unread(*rd);
        let x = match ImportEntry::decode(rd) {
            Ok(x) => x,
            Err(e) => {
                proof {
                    assert(imports_spec(cur, (n - i) as nat) == Err::<(Seq<ImportParts>, nat), CodecError>(e));
                    assert(imports_spec(s, n as nat) == Err::<(Seq<ImportParts>, nat), CodecError>(e));
                }
                return Err(e);
            },
        };
        proof {
            let (v, k) = import_spec(cur)->Ok_0;
            lemma_many_step(vals, used, cur, (n - i) as nat, |x: Seq<u8>| import_spec(x));
            lemma_skip_skip(s, used as int, k as int);
            used = used + k;
            vals = vals.push(v);
        }
        items.push(x);
        i = i + 1;
    }
    proof {
        assert(imports_spec(unread(*rd), 0) == Ok::<(Seq<ImportParts>, nat), CodecError>((Seq::empty(), 0)));
        assert(vals + Seq::<ImportParts>::empty() =~= vals);
    }
    Ok(items)
}

/// What decoding `n` table types in a row from `s` gives.
pub open spec fn table_types_spec(s: Seq<u8>, n: nat) -> Result<(Seq<TableType>, nat), CodecError> {
    many(s, n, |x: Seq<u8>| table_type_spec(x))
}

/// Decodes `n` table types in a row.
fn read_table_types(rd: &mut untrusted::Reader, n: u32) -> (r: Result<Vec<TableType>, CodecError>)
    ensures
        match table_types_spec(unread(*old(rd)), n as nat) {
            Ok((vs, k)) => r matches Ok(v) && v@.len() == vs.len()
                && (forall|j: int| 0 <= j < vs.len() ==> v@[j] == vs[j])
                && k <= unread(*old(rd)).len() && unread(*final(rd)) == unread(*old(rd)).skip(k as int),
            Err(e) => r == Err::<Vec<TableType>, CodecError>(e),
        },
{
    let ghost s = unread(*rd);
    let mut items: Vec<TableType> = Vec::new();
    let mut i: u32 = 0;
    let ghost mut used: nat = 0;
    let ghost mut vals: Seq<TableType> = Seq::empty();
    proof {
        lemma_prepend_empty(table_types_spec(s, n as nat));
        assert(s.skip(0) =~= s);
    }
    while i < n
        invariant
            i <= n,
            s == unread(*old(rd)),
            items@.len() == i,
            vals.len() == i,
            forall|j: int| 0 <= j < i ==> items@[j] == vals[j],
            used <= s.len(),
            unread(*rd) == s.skip(used as int),
            table_types_spec(s, n as nat) == prepend(vals, used, table_types_spec(unread(*rd), (n - i) as nat)),
        decreases n - i,
    {
        let ghost cur = unread(*rd);
        let x = match TableType::decode(rd) {
            Ok(x) => x,
            Err(e) => {
                proof {
                    assert(table_types_spec(cur, (n - i) as nat) == Err::<(Seq<TableType>, nat), CodecError>(e));
                    assert(table_types_spec(s, n as nat) == Err::<(Seq<TableType>, nat), CodecError>(e));
                }
                return Err(e);
            },
        };
        proof {
            let (v, k) = table_type_spec(cur)->Ok_0;
            lemma_many_step(vals, used, cur, (n - i) as nat, |x: Seq<u8>| table_type_spec(x));
            lemma_skip_skip(s, used as int, k as int);
            used = used + k;
            vals = vals.push(v);
        }
        items.push(x);
        i = i + 1;
    }
    proof {
        assert(table_types_spec(unread(*rd), 0) == Ok::<(Seq<TableType>, nat), CodecError>((Seq::empty(), 0)));
        assert(vals + Seq::<TableType>::empty() =~= vals);
    }
    Ok(items)
}

/// What decoding `n` memory types in a row from `s` gives.
pub open spec fn memory_types_spec(s: Seq<u8>, n: nat) -> Result<(Seq<MemoryType>, nat), CodecError> {
    many(s, n, |x: Seq<u8>| memory_type_spec(x))
}

/// Decodes `n` memory types in a row.
fn read_memory_types(rd: &mut untrusted::Reader, n: u32) -> (r: Result<Vec<MemoryType>, CodecError>)
    ensures
        match memory_types_spec(unread(*old(rd)), n as nat) {
            Ok((vs, k)) => r matches Ok(v) && v@.len() == vs.len()
                && (forall|j: int| 0 <= j < vs.len() ==> v@[j] == vs[j])
                && k <= unread(*old(rd)).len() && unread(*final(rd)) == unread(*old(rd)).skip(k as int),
            Err(e) => r == Err::<Vec<MemoryType>, CodecError>(e),
        },
{
    let ghost s = unread(*rd);
    let mut items: Vec<MemoryType> = Vec::new();
    let mut i: u32 = 0;
    let ghost mut used: nat = 0;
    let ghost mut vals: Seq<MemoryType> = Seq::empty();
    proof {
        lemma_prepend_empty(memory_types_spec(s, n as nat));
        assert(s.skip(0) =~= s);
    }
    while i < n
        invariant
            i <= n,
            s == unread(*old(rd)),
            items@.len() == i,
            vals.len() == i,
            forall|j: int| 0 <= j < i ==> items@[j] == vals[j],
            used <= s.len(),
            unread(*rd) == s.skip(used as int),
            memory_types_spec(s, n as nat) == prepend(vals, used, memory_types_spec(unread(*rd), (n - i) as nat)),
        decreases n - i,
    {
        let ghost cur = unread(*rd);
        let x = match MemoryType::decode(rd) {
            Ok(x) => x,
            Err(e) => {
                proof {
                    assert(memory_types_spec(cur, (n - i) as nat) == Err::<(Seq<MemoryType>, nat), CodecError>(e));
                    assert(memory_types_spec(s, n as nat) == Err::<(Seq<MemoryType>, nat), CodecError>(e));
                }
                return Err(e);
            },
        };
        proof {
            let (v, k) = memory_type_spec(cur)->Ok_0;
            lemma_many_step(vals, used, cur, (n - i) as nat, |x: Seq<u8>| memory_type_spec(x));
            lemma_skip_skip(s, used as int, k as int);
            used = used + k;
            vals = vals.push(v);
        }
        items.push(x);
        i = i + 1;
    }
    proof {
        assert(memory_types_spec(unread(*rd), 0) == Ok::<(Seq<MemoryType>, nat), CodecError>((Seq::empty(), 0)));
        assert(vals + Seq::<MemoryType>::empty() =~= vals);
    }
    Ok(items)
}

/// What decoding `n` globals in a row from `s` gives.
pub open spec fn globals_spec(s: Seq<u8>, n: nat) -> Result<(Seq<GlobalParts>, nat), CodecError> {
    many(s, n, |x: Seq<u8>| global_spec(x))
}

/// Decodes `n` globals in a row.
fn read_globals(rd: &mut untrusted::Reader, n: u32) -> (r: Result<Vec<GlobalVariable>, CodecError>)
    ensures
        match globals_spec(unread(*old(rd)), n as nat) {
            Ok((vs, k)) => r matches Ok(v) && v@.len() == vs.len()
                && (forall|j: int| 0 <= j < vs.len() ==> global_is(v@[j], vs[j]))
                && k <= unread(*old(rd)).len() && unread(*final(rd)) == unread(*old(rd)).skip(k as int),
            Err(e) => r == Err::<Vec<GlobalVariable>, CodecError>(e),
        },
{
    let ghost s = unread(*rd);
    let mut items: Vec<GlobalVariable> = Vec::new();
    let mut i: u32 = 0;
    let ghost mut used: nat = 0;
    let ghost mut vals: Seq<GlobalParts> = Seq::empty();
    proof {
        lemma_prepend_empty(globals_spec(s, n as nat));
        assert(s.skip(0) =~= s);
    }
    while i < n
        invariant
            i <= n,
            s == unread(*old(rd)),
            items@.len() == i,
            vals.len() == i,
            forall|j: int| 0 <= j < i ==> global_is(items@[j], vals[j]),
            used <= s.len(),
            unread(*rd) == s.skip(used as int),
            globals_spec(s, n as nat) == prepend(vals, used, globals_spec(unread(*rd), (n - i) as nat)),
        decreases n - i,
    {
        let ghost cur = unread(*rd);
        let x = match GlobalVariable::decode(rd) {
            Ok(x) => x,
            Err(e) => {
                proof {
                    assert(globals_spec(cur, (n - i) as nat) == Err::<(Seq<GlobalParts>, nat), CodecError>(e));
                    assert(globals_spec(s, n as nat) == Err::<(Seq<GlobalParts>, nat), CodecError>(e));
                }
                return Err(e);
            },
        };
        proof {
            let (v, k) = global_spec(cur)->Ok_0;
            lemma_many_step(vals, used, cur, (n - i) as nat, |x: Seq<u8>| global_spec(x));
            lemma_skip_skip(s, used as int, k as int);
            used = used + k;
            vals = vals.push(v);
        }
        items.push(x);
        i = i + 1;
    }
    proof {
        assert(globals_spec(unread(*rd), 0) == Ok::<(Seq<GlobalParts>, nat), CodecError>((Seq::empty(), 0)));
        assert(vals + Seq::<GlobalParts>::empty() =~= vals);
    }
    Ok(items)
}

/// What decoding `n` exports in a row from `s` gives.
pub open spec fn exports_spec(s: Seq<u8>, n: nat) -> Result<(Seq<ExportParts>, nat), CodecError> {
    many(s, n, |x: Seq<u8>| export_spec(x))
}

/// Decodes `n` exports in a row.
fn read_exports<'a>(rd: &mut untrusted::Reader<'a>, n: u32) -> (r: Result<Vec<ExportEntry<'a>>, CodecError>)
    ensures
        match exports_spec(unread(*old(rd)), n as nat) {
            Ok((vs, k)) => r matches Ok(v) && v@.len() == vs.len()
                && (forall|j: int| 0 <= j < vs.len() ==> export_is(v@[j], vs[j]))
                && k <= unread(*old(rd)).len() && unread(*final(rd)) == unread(*old(rd)).skip(k as int),
            Err(e) => r == Err::<Vec<ExportEntry<'a>>, CodecError>(e),
        },
{
    let ghost s = unread(*rd);
    let mut items: Vec<ExportEntry<'a>> = Vec::new();
    let mut i: u32 = 0;
    let ghost mut used: nat = 0;
    let ghost mut vals: Seq<ExportParts> = Seq::empty();
    proof {
        lemma_prepend_empty(exports_spec(s, n as nat));
        assert(s.skip(0) =~= s);
    }
    while i < n
        invariant
            i <= n,
            s == unread(*old(rd)),
            items@.len() == i,
            vals.len() == i,
            forall|j: int| 0 <= j < i ==> export_is(items@[j], vals[j]),
            used <= s.len(),
            unread(*rd) == s.skip(used as int),
            exports_spec(s, n as nat) == prepend(vals, used, exports_spec(unread(*rd), (n - i) as nat)),
        decreases n - i,
    {
        let ghost cur = unread(*rd);
        let x = match ExportEntry::decode(rd) {
            Ok(x) => x,
            Err(e) => {
                proof {
                    assert(exports_spec(cur, (n - i) as nat) == Err::<(Seq<ExportParts>, nat), CodecError>(e));
                    assert(exports_spec(s, n as nat) == Err::<(Seq<ExportParts>, nat), CodecError>(e));
                }
                return Err(e);
            },
        };
        proof {
            let (v, k) = export_spec(cur)->Ok_0;
            lemma_many_step(vals, used, cur, (n - i) as nat, |x: Seq<u8>| export_spec(x));
            lemma_skip_skip(s, used as int, k as int);
            used = used + k;
            vals = vals.push(v);
        }
        items.push(x);
        i = i + 1;
    }
    proof {
        assert(exports_spec(unread(*rd), 0) == Ok::<(Seq<ExportParts>, nat), CodecError>((Seq::empty(), 0)));
        assert(vals + Seq::<ExportParts>::empty() =~= vals);
    }
    Ok(items)
}

/// What decoding `n` element segments in a row from `s` gives.
pub open spec fn elements_spec(s: Seq<u8>, n: nat) -> Result<(Seq<ElementParts>, nat), CodecError> {
    many(s, n, |x: Seq<u8>| element_spec(x))
}

/// Decodes `n` element segments in a row.
fn read_elements(rd: &mut untrusted::Reader, n: u32) -> (r: Result<Vec<ElementSegment>, CodecError>)
    ensures
        match elements_spec(unread(*old(rd)), n as nat) {
            Ok((vs, k)) => r matches Ok(v) && v@.len() == vs.len()
                && (forall|j: int| 0 <= j < vs.len() ==> element_is(v@[j], vs[j]))
                && k <= unread(*old(rd)).len() && unread(*final(rd)) == unread(*old(rd)).skip(k as int),
            Err(e) => r == Err::<Vec<ElementSegment>, CodecError>(e),
        },
{
    let ghost s = unread(*rd);
    let mut items: Vec<ElementSegment> = Vec::new();
    let mut i: u32 = 0;
    let ghost mut used: nat = 0;
    let ghost mut vals: Seq<ElementParts> = Seq::empty();
    proof {
        lemma_prepend_empty(elements_spec(s, n as nat));
        assert(s.skip(0) =~= s);
    }
    while i < n
        invariant
            i <= n,
            s == unread(*old(rd)),
            items@.len() == i,
            vals.len() == i,
            forall|j: int| 0 <= j < i ==> element_is(items@[j], vals[j]),
            used <= s.len(),
            unread(*rd) == s.skip(used as int),
            elements_spec(s, n as nat) == prepend(vals, used, elements_spec(unread(*rd), (n - i) as nat)),
        decreases n - i,
    {
        let ghost cur = unread(*rd);
        let x = match ElementSegment::decode(rd) {
            Ok(x) => x,
            Err(e) => {
                proof {
                    assert(elements_spec(cur, (n - i) as nat) == Err::<(Seq<ElementParts>, nat), CodecError>(e));
                    assert(elements_spec(s, n as nat) == Err::<(Seq<ElementParts>, nat), CodecError>(e));
                }
                return Err(e);
            },
        };
        proof {
            let (v, k) = element_spec(cur)->Ok_0;
            lemma_many_step(vals, used, cur, (n - i) as nat, |x: Seq<u8>| element_spec(x));
            lemma_skip_skip(s, used as int, k as int);
            used = used + k;
            vals = vals.push(v);
        }
        items.push(x);
        i = i + 1;
    }
    proof {
        assert(elements_spec(unread(*rd), 0) == Ok::<(Seq<ElementParts>, nat), CodecError>((Seq::empty(), 0)));
        assert(vals + Seq::<ElementParts>::empty() =~= vals);
    }
    Ok(items)
}

/// What decoding `n` function bodies in a row from `s` gives.
pub open spec fn bodies_spec(s: Seq<u8>, n: nat) -> Result<(Seq<BodyParts>, nat), CodecError> {
    many(s, n, |x: Seq<u8>| body_spec(x))
}

/// Decodes `n` function bodies in a row.
fn read_bodies(rd: &mut untrusted::Reader, n: u32) -> (r: Result<Vec<FunctionBody>, CodecError>)
    ensures
        match bodies_spec(unread(*old(rd)), n as nat) {
            Ok((vs, k)) => r matches Ok(v) && v@.len() == vs.len()
                && (forall|j: int| 0 <= j < vs.len() ==> body_is(v@[j], vs[j]))
                && k <= unread(*old(rd)).len() && unread(*final(rd)) == unread(*old(rd)).skip(k as int),
            Err(e) => r == Err::<Vec<FunctionBody>, CodecError>(e),
        },
{
    let ghost s = unread(*rd);
    let mut items: Vec<FunctionBody> = Vec::new();
    let mut i: u32 = 0;
    let ghost mut used: nat = 0;
    let ghost mut vals: Seq<BodyParts> = Seq::empty();
    proof {
        lemma_prepend_empty(bodies_spec(s, n as nat));
        assert(s.skip(0) =~= s);
    }
    while i < n
        invariant
            i <= n,
            s == unread(*old(rd)),
            items@.len() == i,
            vals.len() == i,
            forall|j: int| 0 <= j < i ==> body_is(items@[j], vals[j]),
            used <= s.len(),
            unread(*rd) == s.skip(used as int),
            bodies_spec(s, n as nat) == prepend(vals, used, bodies_spec(unread(*rd), (n - i) as nat)),
        decreases n - i,
    {
        let ghost cur = unread(*rd);
        let x = match FunctionBody::decode(rd) {
            Ok(x) => x,
            Err(e) => {
                proof {
                    assert(bodies_spec(cur, (n - i) as nat) == Err::<(Seq<BodyParts>, nat), CodecError>(e));
                    assert(bodies_spec(s, n as nat) == Err::<(Seq<BodyParts>, nat), CodecError>(e));
                }
                return Err(e);
            },
        };
        proof {
            let (v, k) = body_spec(cur)->Ok_0;
            lemma_many_step(vals, used, cur, (n - i) as nat, |x: Seq<u8>| body_spec(x));
            lemma_skip_skip(s, used as int, k as int);
            used = used + k;
            vals = vals.push(v);
        }
        items.push(x);
        i = i + 1;
    }
    proof {
        assert(bodies_spec(unread(*rd), 0) == Ok::<(Seq<BodyParts>, nat), CodecError>((Seq::empty(), 0)));
        assert(vals + Seq::<BodyParts>::empty() =~= vals);
    }
    Ok(items)
}

/// What decoding `n` data segments in a row from `s` gives.
pub open spec fn datas_spec(s: Seq<u8>, n: nat) -> Result<(Seq<DataParts>, nat), CodecError> {
    many(s, n, |x: Seq<u8>| data_spec(x))
}

/// Decodes `n` data segments in a row.
fn read_datas<'a>(rd: &mut untrusted::Reader<'a>, n: u32) -> (r: Result<Vec<DataSegment<'a>>, CodecError>)
    ensures
        match datas_spec(unread(*old(rd)), n as nat) {
            Ok((vs, k)) => r matches Ok(v) && v@.len() == vs.len()
                && (forall|j: int| 0 <= j < vs.len() ==> data_is(v@[j], vs[j]))
                && k <= unread(*old(rd)).len() && unread(*final(rd)) == unread(*old(rd)).skip(k as int),
            Err(e) => r == Err::<Vec<DataSegment<'a>>, CodecError>(e),
        },
{
    let ghost s = unread(*rd);
    let mut items: Vec<DataSegment<'a>> = Vec::new();
    let mut i: u32 = 0;
    let ghost mut used: nat = 0;
    let ghost mut vals: Seq<DataParts> = Seq::empty();
    proof {
        lemma_prepend_empty(datas_spec(s, n as nat));
        assert(s.skip(0) =~= s);
    }
    while i < n
        invariant
            i <= n,
            s == unread(*old(rd)),
            items@.len() == i,
            vals.len() == i,
            forall|j: int| 0 <= j < i ==> data_is(items@[j], vals[j]),
            used <= s.len(),
            unread(*rd) == s.skip(used as int),
            datas_spec(s, n as nat) == prepend(vals, used, datas_spec(unread(*rd), (n - i) as nat)),
        decreases n - i,
    {
        let ghost cur = unread(*rd);
        let x = match DataSegment::decode(rd) {
            Ok(x) => x,
            Err(e) => {
                proof {
                    assert(datas_spec(cur, (n - i) as nat) == Err::<(Seq<DataParts>, nat), CodecError>(e));
                    assert(datas_spec(s, n as nat) == Err::<(Seq<DataParts>, nat), CodecError>(e));
                }
                return Err(e);
            },
        };
        proof {
            let (v, k) = data_spec(cur)->Ok_0;
            lemma_many_step(vals, used, cur, (n - i) as nat, |x: Seq<u8>| data_spec(x));
            lemma_skip_skip(s, used as int, k as int);
            used = used + k;
            vals = vals.push(v);
        }
        items.push(x);
        i = i + 1;
    }
    proof {
        assert(datas_spec(unread(*rd), 0) == Ok::<(Seq<DataParts>, nat), CodecError>((Seq::empty(), 0)));
        assert(vals + Seq::<DataParts>::empty() =~= vals);
    }
    Ok(items)
}

/// A section's contents as decoded.
pub enum SectionParts {
    Custom(Seq<char>, Seq<u8>),
    Type(Seq<FuncTypeParts>),
    Import(Seq<ImportParts>),
    Function(Seq<u32>),
    Table(Seq<TableType>),
    Memory(Seq<MemoryType>),
    Global(Seq<GlobalParts>),
    Export(Seq<ExportParts>),
    Element(Seq<ElementParts>),
    Code(Seq<BodyParts>),
    Data(Seq<DataParts>),
    Start(u32),
}

/// `parts`, when they took all `used` bytes of the payload `p`.
pub open spec fn whole(parts: SectionParts, used: nat, p: Seq<u8>) -> Result<SectionParts, CodecError> {
    if used == p.len() {
        Ok(parts)
    } else {
        Err(CodecError::TrailingData)
    }
}

/// What decoding the payload `p` of a section with id `id` gives. Every
/// section but the start section and custom sections holds a count and that
/// many entries; the entries must fill the payload.
#[verifier::opaque]
pub open spec fn payload_spec(id: u8, p: Seq<u8>) -> Result<SectionParts, CodecError> {
    if id == 0 {
        match name_spec(p) {
            Ok((name, k)) => Ok(SectionParts::Custom(name, p.skip(k as int))),
            Err(e) => Err(e),
        }
    } else if id == 8 {
        match varu32_spec(p) {
            Ok((index, k)) => whole(SectionParts::Start(index), k, p),
            Err(e) => Err(e),
        }
    } else if id == 1 {
        match varu32_spec(p) {
            Ok((n, k)) => match function_types_spec(p.skip(k as int), n as nat) {
                Ok((vs, j)) => whole(SectionParts::Type(vs), k + j, p),
                Err(e) => Err(e),
            },
            Err(e) => Err(e),
        }
    } else if id == 2 {
        match varu32_spec(p) {
            Ok((n, k)) => match imports_spec(p.skip(k as int), n as nat) {
                Ok((vs, j)) => whole(SectionParts::Import(vs), k + j, p),
                Err(e) => Err(e),
            },
            Err(e) => Err(e),
        }
    } else if id == 3 {
        match varu32_spec(p) {
            Ok((n, k)) => match u32s_spec(p.skip(k as int), n as nat) {
                Ok((vs, j)) => whole(SectionParts::Function(vs), k + j, p),
                Err(e) => Err(e),
            },
            Err(e) => Err(e),
        }
    } else if id == 4 {
        match varu32_spec(p) {
            Ok((n, k)) => match table_types_spec(p.skip(k as int), n as nat) {
                Ok((vs, j)) => whole(SectionParts::Table(vs), k + j, p),
                Err(e) => Err(e),
            },
            Err(e) => Err(e),
        }
    } else if id == 5 {
        match varu32_spec(p) {
            Ok((n, k)) => match memory_types_spec(p.skip(k as int), n as nat) {
                Ok((vs, j)) => whole(SectionParts::Memory(vs), k + j, p),
                Err(e) => Err(e),
            },
            Err(e) => Err(e),
        }
    } else if id == 6 {
        match varu32_spec(p) {
            Ok((n, k)) => match globals_spec(p.skip(k as int), n as nat) {
                Ok((vs, j)) => whole(SectionParts::Global(vs), k + j, p),
                Err(e) => Err(e),
            },
            Err(e) => Err(e),
        }
    } else if id == 7 {
        match varu32_spec(p) {
            Ok((n, k)) => match exports_spec(p.skip(k as int), n as nat) {
                Ok((vs, j)) => whole(SectionParts::Export(vs), k + j, p),
                Err(e) => Err(e),
            },
            Err(e) => Err(e),
        }
    } else if id == 9 {
        match varu32_spec(p) {
            Ok((n, k)) => match elements_spec(p.skip(k as int), n as nat) {
                Ok((vs, j)) => whole(SectionParts::Element(vs), k + j, p),
                Err(e) => Err(e),
            },
            Err(e) => Err(e),
        }
    } else if id == 10 {
        match varu32_spec(p) {
            Ok((n, k)) => match bodies_spec(p.skip(k as int), n as nat) {
                Ok((vs, j)) => whole(SectionParts::Code(vs), k + j, p),
                Err(e) => Err(e),
            },
            Err(e) => Err(e),
        }
    } else if id == 11 {
        match varu32_spec(p) {
            Ok((n, k)) => match datas_spec(p.skip(k as int), n as nat) {
                Ok((vs, j)) => whole(SectionParts::Data(vs), k + j, p),
                Err(e) => Err(e),
            },
            Err(e) => Err(e),
        }
    } else {
        Err(CodecError::Unimpl)
    }
}

/// What decoding a section at the start of `s` gives: an id, a payload
/// length, and the payload, decoded on its own.
pub open spec fn section_spec(s: Seq<u8>) -> Result<(SectionParts, nat), CodecError> {
    match varu7_spec(s) {
        Ok((id, k0)) => match varu32_spec(s.skip(k0 as int)) {
            Ok((len, k1)) => if len > s.len() - k0 - k1 {
                Err(CodecError::Truncated)
            } else {
                match payload_spec(id, s.skip((k0 + k1) as int).take(len as int)) {
                    Ok(parts) => Ok((parts, k0 + k1 + len as nat)),
                    Err(e) => Err(e),
                }
            },
            Err(e) => Err(e),
        },
        Err(e) => Err(e),
    }
}

/// One section of a module.
#[derive(Debug, Clone)]
pub enum Section<'a> {
    Custom(CustomSection<'a>),
    Type(Vec<FunctionType>),
    Import(Vec<ImportEntry<'a>>),
    Function(Vec<u32>),
    Table(Vec<TableType>),
    Memory(Vec<MemoryType>),
    Global(Vec<GlobalVariable>),
    Export(Vec<ExportEntry<'a>>),
    Element(Vec<ElementSegment>),
    Code(Vec<FunctionBody>),
    Data(Vec<DataSegment<'a>>),
    Start(u32),
}

/// `sec` is the section that `parts` describe.
pub open spec fn section_is(sec: Section, parts: SectionParts) -> bool {
    match (sec, parts) {
        (Section::Custom(c), SectionParts::Custom(name, payload)) => c.name@ == name && c.payload@ == payload,
        (Section::Start(i), SectionParts::Start(j)) => i == j,
        (Section::Type(xs), SectionParts::Type(ps)) => xs@.len() == ps.len() && (forall|j: int| 0 <= j < ps.len() ==> function_type_is(xs@[j], ps[j])),
        (Section::Import(xs), SectionParts::Import(ps)) => xs@.len() == ps.len() && (forall|j: int| 0 <= j < ps.len() ==> import_is(xs@[j], ps[j])),
        (Section::Function(xs), SectionParts::Function(ps)) => xs@.len() == ps.len() && (forall|j: int| 0 <= j < ps.len() ==> xs@[j] == ps[j]),
        (Section::Table(xs), SectionParts::Table(ps)) => xs@.len() == ps.len() && (forall|j: int| 0 <= j < ps.len() ==> xs@[j] == ps[j]),
        (Section::Memory(xs), SectionParts::Memory(ps)) => xs@.len() == ps.len() && (forall|j: int| 0 <= j < ps.len() ==> xs@[j] == ps[j]),
        (Section::Global(xs), SectionParts::Global(ps)) => xs@.len() == ps.len() && (forall|j: int| 0 <= j < ps.len() ==> global_is(xs@[j], ps[j])),
        (Section::Export(xs), SectionParts::Export(ps)) => xs@.len() == ps.len() && (forall|j: int| 0 <= j < ps.len() ==> export_is(xs@[j], ps[j])),
        (Section::Element(xs), SectionParts::Element(ps)) => xs@.len() == ps.len() && (forall|j: int| 0 <= j < ps.len() ==> element_is(xs@[j], ps[j])),
        (Section::Code(xs), SectionParts::Code(ps)) => xs@.len() == ps.len() && (forall|j: int| 0 <= j < ps.len() ==> body_is(xs@[j], ps[j])),
        (Section::Data(xs), SectionParts::Data(ps)) => xs@.len() == ps.len() && (forall|j: int| 0 <= j < ps.len() ==> data_is(xs@[j], ps[j])),
        _ => false,
    }
}

impl<'a> Section<'a> {
    /// Decodes a section.
    pub fn decode(rd: &mut untrusted::Reader<'a>) -> (r: Result<Section<'a>, CodecError>)
        ensures
            match section_spec(unread(*old(rd))) {
                Ok((p, k)) => r matches Ok(sec) && section_is(sec, p) && k <= unread(*old(rd)).len()
                    && unread(*final(rd)) == unread(*old(rd)).skip(k as int),
                Err(e) => r == Err::<Section, CodecError>(e),
            },
    {
        let ghost s = unread(*rd);
        let id = read_varu7(rd)?;
        let ghost k0 = varu7_spec(s)->Ok_0.1;
        let len = read_varu32(rd)?;
        let ghost k1 = varu32_spec(s.skip(k0 as int))->Ok_0.1;
        proof {
            lemma_skip_skip(s, k0 as int, k1 as int);
        }
        let payload = match reader_read_bytes(rd, len as usize) {
            Some(p) => p,
            None => {
                return Err(CodecError::Truncated);
            },
        };
        proof {
            lemma_skip_skip(s, (k0 + k1) as int, len as int);
        }
        let mut prd = reader_new(payload);
        let ghost p = unread(prd);
        proof {
            reveal(payload_spec);
        }
        let section = if id == 0 {
            let name = read_name(&mut prd)?;
            let rest = reader_read_to_end(&mut prd);
            Section::Custom(CustomSection { name, payload: input_slice(&rest) })
        } else if id == 8 {
            Section::Start(read_varu32(&mut prd)?)
        } else if id == 1 {
            let count = read_varu32(&mut prd)?;
            let ghost k = varu32_spec(p)->Ok_0.1;
            let items = read_function_types(&mut prd, count)?;
            proof {
                let j = function_types_spec(p.skip(k as int), count as nat)->Ok_0.1;
                lemma_skip_skip(p, k as int, j as int);
            }
            Section::Type(items)
        } else if id == 2 {
            let count = read_varu32(&mut prd)?;
            let ghost k = varu32_spec(p)->Ok_0.1;
            let items = read_imports(&mut prd, count)?;
            proof {
                let j = imports_spec(p.skip(k as int), count as nat)->Ok_0.1;
                lemma_skip_skip(p, k as int, j as int);
            }
            Section::Import(items)
        } else if id == 3 {
            let count = read_varu32(&mut prd)?;
            let ghost k = varu32_spec(p)->Ok_0.1;
            let items = read_u32s(&mut prd, count)?;
            proof {
                let j = u32s_spec(p.skip(k as int), count as nat)->Ok_0.1;
                lemma_skip_skip(p, k as int, j as int);
                let (vs, jj) = u32s_spec(p.skip(k as int), count as nat)->Ok_0;
                assert(items@ =~= vs);
            }
            Section::Function(items)
        } else if id == 4 {
            let count = read_varu32(&mut prd)?;
            let ghost k = varu32_spec(p)->Ok_0.1;
            let items = read_table_types(&mut prd, count)?;
            proof {
                let j = table_types_spec(p.skip(k as int), count as nat)->Ok_0.1;
                lemma_skip_skip(p, k as int, j as int);
                let (vs, jj) = table_types_spec(p.skip(k as int), count as nat)->Ok_0;
                assert(items@ =~= vs);
            }
            Section::Table(items)
        } else if id == 5 {
            let count = read_varu32(&mut prd)?;
            let ghost k = varu32_spec(p)->Ok_0.1;
            let items = read_memory_types(&mut prd, count)?;
            proof {
                let j = memory_types_spec(p.skip(k as int), count as nat)->Ok_0.1;
                lemma_skip_skip(p, k as int, j as int);
                let (vs, jj) = memory_types_spec(p.skip(k as int), count as nat)->Ok_0;
                assert(items@ =~= vs);
            }
            Section::Memory(items)
        } else if id == 6 {
            let count = read_varu32(&mut prd)?;
            let ghost k = varu32_spec(p)->Ok_0.1;
            let items = read_globals(&mut prd, count)?;
            proof {
                let j = globals_spec(p.skip(k as int), count as nat)->Ok_0.1;
                lemma_skip_skip(p, k as int, j as int);
            }
            Section::Global(items)
        } else if id == 7 {
            let count = read_varu32(&mut prd)?;
            let ghost k = varu32_spec(p)->Ok_0.1;
            let items = read_exports(&mut prd, count)?;
            proof {
                let j = exports_spec(p.skip(k as int), count as nat)->Ok_0.1;
                lemma_skip_skip(p, k as int, j as int);
            }
            Section::Export(items)
        } else if id == 9 {
            let count = read_varu32(&mut prd)?;
            let ghost k = varu32_spec(p)->Ok_0.1;
            let items = read_elements(&mut prd, count)?;
            proof {
                let j = elements_spec(p.skip(k as int), count as nat)->Ok_0.1;
                lemma_skip_skip(p, k as int, j as int);
            }
            Section::Element(items)
        } else if id == 10 {
            let count = read_varu32(&mut prd)?;
            let ghost k = varu32_spec(p)->Ok_0.1;
            let items = read_bodies(&mut prd, count)?;
            proof {
                let j = bodies_spec(p.skip(k as int), count as nat)->Ok_0.1;
                lemma_skip_skip(p, k as int, j as int);
            }
            Section::Code(items)
        } else if id == 11 {
            let count = read_varu32(&mut prd)?;
            let ghost k = varu32_spec(p)->Ok_0.1;
            let items = read_datas(&mut prd, count)?;
            proof {
                let j = datas_spec(p.skip(k as int), count as nat)->Ok_0.1;
                lemma_skip_skip(p, k as int, j as int);
            }
            Section::Data(items)
        } else {
            return Err(CodecError::Unimpl);
        };
        if !reader_at_end(&prd) {
            return Err(CodecError::TrailingData);
        }
        Ok(section)
    }
}

/// What decoding the sections that fill `s` gives, or the first error.
pub open spec fn sections_spec(s: Seq<u8>) -> Result<Seq<SectionParts>, CodecError>
    decreases s.len(),
{
    if s.len() == 0 {
        Ok(Seq::empty())
    } else {
        match section_spec(s) {
            Ok((p, k)) => if 0 < k <= s.len() {
                match sections_spec(s.skip(k as int)) {
                    Ok(ps) => Ok(seq![p] + ps),
                    Err(e) => Err(e),
                }
            } else {
                Err(CodecError::Truncated)
            },
            Err(e) => Err(e),
        }
    }
}

/// The magic number that starts every module: the bytes `\0asm`.
pub const MAGIC: u32 = 0x6d736100;

/// The binary format version this decoder reads.
pub const VERSION: u32 = 1;

/// What decoding a whole module from `s` gives: the magic number, the
/// version, then sections up to the end.
pub open spec fn module_spec(s: Seq<u8>) -> Result<Seq<SectionParts>, CodecError> {
    match u32_spec(s) {
        Ok((magic, k)) => if magic != MAGIC {
            Err(CodecError::BadMagic)
        } else {
            match u32_spec(s.skip(4)) {
                Ok((version, j)) => if version != VERSION {
                    Err(CodecError::BadVersion)
                } else {
                    sections_spec(s.skip(8))
                },
                Err(e) => Err(e),
            }
        },
        Err(e) => Err(e),
    }
}

/// A decoded module: its sections in order. Names and data borrow from the
/// input bytes.
#[derive(Debug, Clone)]
pub struct Module<'a> {
    pub sections: Vec<Section<'a>>,
}

/// `m` holds the sections that `ps` describe, in order.
pub open spec fn module_is(m: Module, ps: Seq<SectionParts>) -> bool {
    m.sections@.len() == ps.len() && forall|j: int| 0 <= j < ps.len() ==> section_is(m.sections@[j], ps[j])
}

impl<'a> Module<'a> {
    /// Decodes a module from all that the reader holds.
    pub fn decode(rd: &mut untrusted::Reader<'a>) -> (r: Result<Module<'a>, CodecError>)
        ensures
            match module_spec(unread(*old(rd))) {
                Ok(ps) => r matches Ok(m) && module_is(m, ps) && unread(*final(rd)).len() == 0,
                Err(e) => r == Err::<Module, CodecError>(e),
            },
    {
        let ghost s = unread(*rd);
        if read_u32(rd)? != MAGIC {
            return Err(CodecError::BadMagic);
        }
        proof {
            assert(unread(*rd) == s.skip(4));
        }
        if read_u32(rd)? != VERSION {
            return Err(CodecError::BadVersion);
        }
        proof {
            lemma_skip_skip(s, 4, 4);
        }
        let ghost t = unread(*rd);
        let mut sections: Vec<Section<'a>> = Vec::new();
        let ghost mut used: nat = 0;
        let ghost mut parts: Seq<SectionParts> = Seq::empty();
        proof {
            assert(t.skip(0) =~= t);
            match sections_spec(t) {
                Ok(ps) => {
                    assert(parts + ps =~= ps);
                },
                Err(e) => {},
            }
        }
        while !reader_at_end(rd)
            invariant
                s == unread(*old(rd)),
                t == s.skip(8),
                module_spec(s) == sections_spec(t),
                used <= t.len(),
                unread(*rd) == t.skip(used as int),
                sections@.len() == parts.len(),
                forall|j: int| 0 <= j < parts.len() ==> section_is(sections@[j], parts[j]),
                match sections_spec(t.skip(used as int)) {
                    Ok(ps) => sections_spec(t) == Ok::<Seq<SectionParts>, CodecError>(parts + ps),
                    Err(e) => sections_spec(t) == Err::<Seq<SectionParts>, CodecError>(e),
                },
            decreases t.len() - used,
        {
            let ghost cur = unread(*rd);
            let sec = Section::decode(rd)?;
            proof {
                let (p, k) = section_spec(cur)->Ok_0;
                lemma_section_len(cur);
                lemma_skip_skip(t, used as int, k as int);
                match sections_spec(t.skip((used + k) as int)) {
                    Ok(ps) => {
                        assert(parts.push(p) + ps =~= parts + (seq![p] + ps));
                    },
                    Err(e) => {},
                }
                used = used + k;
                parts = parts.push(p);
            }
            sections.push(sec);
        }
        proof {
            assert(parts + Seq::<SectionParts>::empty() =~= parts);
        }
        Ok(Module { sections })
    }

    /// Decodes a module from `bytes`, all of which it must take.
    pub fn decode_from(bytes: &'a [u8]) -> (r: Result<Module<'a>, CodecError>)
        ensures
            match module_spec(bytes@) {
                Ok(ps) => r matches Ok(m) && module_is(m, ps),
                Err(e) => r == Err::<Module, CodecError>(e),
            },
    {
        let inp = input_from(bytes);
        let mut rd = reader_new(inp);
        let m = Module::decode(&mut rd)?;
        if !reader_at_end(&rd) {
            return Err(CodecError::TrailingData);
        }
        Ok(m)
    }
}

/// A section takes at least one byte.
pub proof fn lemma_section_len(s: Seq<u8>)
    ensures
        section_spec(s) matches Ok((p, k)) ==> 0 < k <= s.len(),
{
    lemma_varu_len_ok_bound(s, 1);
}

/// The id and payload of the section at the start of `s`, and the bytes the
/// section takes, when its header can be read and its payload is all there.
pub open spec fn frame(s: Seq<u8>) -> Option<(u8, Seq<u8>, nat)> {
    match varu7_spec(s) {
        Ok((id, k0)) => match varu32_spec(s.skip(k0 as int)) {
            Ok((len, k1)) => if len <= s.len() - k0 - k1 {
                Some((id, s.skip((k0 + k1) as int).take(len as int), k0 + k1 + len as nat))
            } else {
                None
            },
            Err(e) => None,
        },
        Err(e) => None,
    }
}

/// The ids and payloads of the sections one after another in `s`, as far as
/// their headers can be read.
pub open spec fn frames(s: Seq<u8>) -> Seq<(u8, Seq<u8>)>
    decreases s.len(),
{
    if s.len() == 0 {
        Seq::empty()
    } else {
        match frame(s) {
            Some((id, p, k)) => if 0 < k <= s.len() {
                seq![(id, p)] + frames(s.skip(k as int))
            } else {
                Seq::empty()
            },
            None => Seq::empty(),
        }
    }
}

/// The section frames, header then declared payload, follow one another and
/// end exactly at the end of `s`.
pub open spec fn frames_tile(s: Seq<u8>) -> bool
    decreases s.len(),
{
    if s.len() == 0 {
        true
    } else {
        match frame(s) {
            Some((id, p, k)) => 0 < k <= s.len() && frames_tile(s.skip(k as int)),
            None => false,
        }
    }
}

proof fn lemma_sections_frames(t: Seq<u8>)
    requires
        sections_spec(t) is Ok,
    ensures
        ({
            let ps = sections_spec(t)->Ok_0;
            let fs = frames(t);
            &&& frames_tile(t)
            &&& ps.len() == fs.len()
            &&& forall|i: int| 0 <= i < fs.len() ==> payload_spec(fs[i].0, fs[i].1) == Ok::<SectionParts, CodecError>(ps[i])
        }),
    decreases t.len(),
{
    if t.len() > 0 {
        let (p, k) = section_spec(t)->Ok_0;
        lemma_sections_frames(t.skip(k as int));
        let ps = sections_spec(t)->Ok_0;
        let fs = frames(t);
        let rest = frames(t.skip(k as int));
        assert(fs == seq![(frame(t)->Some_0.0, frame(t)->Some_0.1)] + rest);
        assert forall|i: int| 0 <= i < fs.len() implies payload_spec(fs[i].0, fs[i].1)
            == Ok::<SectionParts, CodecError>(ps[i]) by {
            if i > 0 {
                assert(fs[i] == rest[i - 1]);
            }
        }
    }
}

/// In a module that decodes, the section frames (header, then as many
/// payload bytes as it declares) fill the bytes after the envelope exactly;
/// there is one section for each frame, and each section is what its payload
/// decodes to on its own, using all of it.
pub proof fn lemma_module_frames(b: Seq<u8>)
    requires
        module_spec(b) is Ok,
    ensures
        ({
            let ps = module_spec(b)->Ok_0;
            let fs = frames(b.skip(8));
            &&& frames_tile(b.skip(8))
            &&& ps.len() == fs.len()
            &&& forall|i: int| 0 <= i < fs.len() ==> payload_spec(fs[i].0, fs[i].1) == Ok::<SectionParts, CodecError>(ps[i])
        }),
{
    lemma_sections_frames(b.skip(8));
}

proof fn lemma_section_stable(s: Seq<u8>, t: Seq<u8>)
    requires
        section_spec(s) matches Ok((p, k)) && k <= t.len() && k <= s.len() && t.take(k as int) == s.take(k as int),
    ensures
        section_spec(t) == section_spec(s),
{
    let (p, k) = section_spec(s)->Ok_0;
    let k0 = varu7_spec(s)->Ok_0.1;
    lemma_varu_len_ok_bound(s, 1);
    assert(t.take(k0 as int) =~= t.take(k as int).take(k0 as int));
    assert(s.take(k0 as int) =~= s.take(k as int).take(k0 as int));
    lemma_varu_stable(s, t, 1);
    let s1 = s.skip(k0 as int);
    let t1 = t.skip(k0 as int);
    let k1 = varu32_spec(s1)->Ok_0.1;
    lemma_varu_len_ok_bound(s1, 5);
    assert(t1.take(k1 as int) =~= t.take(k as int).skip(k0 as int).take(k1 as int));
    assert(s1.take(k1 as int) =~= s.take(k as int).skip(k0 as int).take(k1 as int));
    lemma_varu_stable(s1, t1, 5);
    let len = varu32_spec(s1)->Ok_0.0;
    assert(t.skip((k0 + k1) as int).take(len as int) =~= s.skip((k0 + k1) as int).take(len as int)) by {
        assert forall|i: int| 0 <= i < len implies #[trigger] t.skip((k0 + k1) as int).take(len as int)[i]
            == s.skip((k0 + k1) as int).take(len as int)[i] by {
            assert(t.take(k as int)[k0 + k1 + i] == s.take(k as int)[k0 + k1 + i]);
        }
    }
}

proof fn lemma_section_cut(s: Seq<u8>)
    requires
        section_spec(s) matches Ok((p, k)) && k == s.len(),
    ensures
        section_spec(s.drop_last()) == Err::<(SectionParts, nat), CodecError>(CodecError::Truncated),
{
    let t = s.drop_last();
    let (p, k) = section_spec(s)->Ok_0;
    let k0 = varu7_spec(s)->Ok_0.1;
    lemma_varu_len_ok_bound(s, 1);
    let s1 = s.skip(k0 as int);
    let k1 = varu32_spec(s1)->Ok_0.1;
    lemma_varu_len_ok_bound(s1, 5);
    let len = varu32_spec(s1)->Ok_0.0;
    assert(t.take(k0 as int) =~= s.take(k0 as int));
    lemma_varu_stable(s, t, 1);
    let t1 = t.skip(k0 as int);
    if len == 0 {
        assert(t1 =~= s1.take(t1.len() as int));
        lemma_varu_cut(s1, t1, 5);
    } else {
        assert(t1.take(k1 as int) =~= s1.take(k1 as int));
        lemma_varu_stable(s1, t1, 5);
    }
}

proof fn lemma_sections_cut(t: Seq<u8>)
    requires
        sections_spec(t) is Ok,
        t.len() > 0,
    ensures
        sections_spec(t.drop_last()) == Err::<Seq<SectionParts>, CodecError>(CodecError::Truncated),
    decreases t.len(),
{
    let (p, k) = section_spec(t)->Ok_0;
    let t2 = t.drop_last();
    if k == t.len() {
        lemma_section_cut(t);
    } else {
        assert(t2.take(k as int) =~= t.take(k as int));
        lemma_section_stable(t, t2);
        assert(t2.skip(k as int) =~= t.skip(k as int).drop_last());
        lemma_sections_cut(t.skip(k as int));
    }
}

/// Cutting the last byte off a module that decodes leaves one that fails to
/// decode, with `Truncated`.
pub proof fn lemma_module_truncated(b: Seq<u8>)
    requires
        module_spec(b) is Ok,
    ensures
        module_spec(b.drop_last()) == Err::<Seq<SectionParts>, CodecError>(CodecError::Truncated),
{
    let c = b.drop_last();
    assert(c.take(4) =~= b.take(4));
    if b.len() == 8 {
        assert(c.skip(4).len() < 4);
    } else {
        assert(c.skip(4).take(4) =~= b.skip(4).take(4));
        assert(c.skip(8) =~= b.skip(8).drop_last());
        lemma_sections_cut(b.skip(8));
    }
}

} // verus!
