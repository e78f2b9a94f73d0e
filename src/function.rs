//! Function bodies: local declarations and code.

use vstd::prelude::*;
use crate::error::CodecError;
use crate::ty::{ValueType, value_type_spec};
use crate::expr::{Op, op_len, op_denotes, ops_at, shifted, lemma_skip_skip};
use crate::codec::{read_varu32, varu32_spec, decoded, many, prepend, lemma_many_step, lemma_prepend_empty};
use crate::reader::{unread, reader_read_bytes, reader_new, reader_at_end, input_bytes};

verus! {

/// A run of locals of one type.
#[derive(Debug, Clone, Copy, PartialEq, Eq, Structural)]
pub struct Local {
    pub count: u32,
    pub ty: ValueType,
}

/// What decoding a local declaration at the start of `s` gives.
pub open spec fn local_spec(s: Seq<u8>) -> Result<(Local, nat), CodecError> {
    match varu32_spec(s) {
        Ok((count, k)) => match value_type_spec(s.skip(k as int)) {
            Ok((ty, j)) => Ok((Local { count, ty }, k + j)),
            Err(e) => Err(e),
        },
        Err(e) => Err(e),
    }
}

impl Local {
    /// Decodes a local declaration.
    pub fn decode(rd: &mut untrusted::Reader) -> (r: Result<Local, CodecError>)
        ensures
            decoded(r, local_spec(unread(*old(rd))), unread(*old(rd)), unread(*final(rd))),
    {
        let ghost s = unread(*rd);
        let count = read_varu32(rd)?;
        let ty = ValueType::decode(rd)?;
        proof {
            let k = varu32_spec(s)->Ok_0.1;
            let j = value_type_spec(s.skip(k as int))->Ok_0.1;
            lemma_skip_skip(s, k as int, j as int);
        }
        Ok(Local { count, ty })
    }
}

/// What decoding `n` local declarations in a row from `s` gives.
pub open spec fn locals_spec(s: Seq<u8>, n: nat) -> Result<(Seq<Local>, nat), CodecError> {
    many(s, n, |x: Seq<u8>| local_spec(x))
}

/// Where each instruction of the code `b` starts, the last one, an `End`,
/// left out; or why the code cannot be decoded. The code must end with an
/// `End` exactly at the end of `b`; an `End` before it closes a block.
pub open spec fn code_spec(b: Seq<u8>) -> Result<Seq<int>, CodecError>
    decreases b.len(),
{
    match op_len(b) {
        Ok(k) => if k >= b.len() {
            if b[0] == 0x0b {
                Ok(Seq::empty())
            } else {
                Err(CodecError::BadFunctionEnd)
            }
        } else if k > 0 {
            match code_spec(b.skip(k as int)) {
                Ok(offs) => Ok(seq![0int] + shifted(offs, k as int)),
                Err(e) => Err(e),
            }
        } else {
            Err(CodecError::Truncated)
        },
        Err(e) => Err(e),
    }
}

/// A function body as decoded: its locals, its code bytes after the locals,
/// and where each of its instructions starts in them.
pub struct BodyParts {
    pub locals: Seq<Local>,
    pub code: Seq<u8>,
    pub offsets: Seq<int>,
}

/// What decoding a function body at the start of `s` gives: a byte size,
/// then within that many bytes a count of local declarations, the
/// declarations, and the code.
pub open spec fn body_spec(s: Seq<u8>) -> Result<(BodyParts, nat), CodecError> {
    match varu32_spec(s) {
        Ok((size, k0)) => if size > s.len() - k0 {
            Err(CodecError::Truncated)
        } else {
            let b = s.skip(k0 as int).take(size as int);
            match varu32_spec(b) {
                Ok((n, k1)) => match locals_spec(b.skip(k1 as int), n as nat) {
                    Ok((locals, k2)) => {
                        let code = b.skip((k1 + k2) as int);
                        match code_spec(code) {
                            Ok(offsets) => Ok((BodyParts { locals, code, offsets }, k0 + size as nat)),
                            Err(e) => Err(e),
                        }
                    },
                    Err(e) => Err(e),
                },
                Err(e) => Err(e),
            }
        },
        Err(e) => Err(e),
    }
}

/// The body of a function: its locals and its instructions, without the
/// final `End`.
#[derive(Debug, Clone)]
pub struct FunctionBody {
    pub locals: Vec<Local>,
    pub ops: Vec<Op>,
}

/// `f` is the body that `p` describes.
pub open spec fn body_is(f: FunctionBody, p: BodyParts) -> bool {
    f.locals@ == p.locals && ops_at(f.ops@, p.code, p.offsets)
}

/// Decodes `n` local declarations in a row.
fn read_locals(rd: &mut untrusted::Reader, n: u32) -> (r: Result<Vec<Local>, CodecError>)
    ensures
        match locals_spec(unread(*old(rd)), n as nat) {
            Ok((ls, k)) => r matches Ok(v) && v@ == ls && k <= unread(*old(rd)).len()
                && unread(*final(rd)) == unread(*old(rd)).skip(k as int),
            Err(e) => r == Err::<Vec<Local>, CodecError>(e),
        },
{
    let ghost s = unread(*rd);
    let mut items: Vec<Local> = Vec::new();
    let mut i: u32 = 0;
    let ghost mut used: nat = 0;
    proof {
        lemma_prepend_empty(locals_spec(s, n as nat));
        assert(s.skip(0) =~= s);
    }
    while i < n
        invariant
            i <= n,
            s == unread(*old(rd)),
            items@.len() == i,
            used <= s.len(),
            unread(*rd) == s.skip(used as int),
            locals_spec(s, n as nat) == prepend(items@, used, locals_spec(unread(*rd), (n - i) as nat)),
        decreases n - i,
    {
        let ghost cur = unread(*rd);
        let x = match Local::decode(rd) {
            Ok(x) => x,
            Err(e) => {
                proof {
                    assert(locals_spec(cur, (n - i) as nat) == Err::<(Seq<Local>, nat), CodecError>(e));
                    assert(locals_spec(s, n as nat) == Err::<(Seq<Local>, nat), CodecError>(e));
                }
                return Err(e);
            },
        };
        proof {
            let k = local_spec(cur)->Ok_0.1;
            lemma_many_step(items@, used, cur, (n - i) as nat, |x: Seq<u8>| local_spec(x));
            lemma_skip_skip(s, used as int, k as int);
            used = used + k;
        }
        items.push(x);
        i = i + 1;
    }
    proof {
        assert(locals_spec(unread(*rd), 0) == Ok::<(Seq<Local>, nat), CodecError>((Seq::empty(), 0)));
        assert(items@ + Seq::<Local>::empty() =~= items@);
    }
    Ok(items)
}

/// Decodes the code of a function body, which must fill the reader.
fn read_code(body: &mut untrusted::Reader) -> (r: Result<Vec<Op>, CodecError>)
    ensures
        match code_spec(unread(*old(body))) {
            Ok(offs) => r matches Ok(ops) && ops_at(ops@, unread(*old(body)), offs),
            Err(e) => r == Err::<Vec<Op>, CodecError>(e),
        },
{
    let ghost s = unread(*body);
    let mut ops: Vec<Op> = Vec::new();
    let ghost mut used: nat = 0;
    let ghost mut offs: Seq<int> = Seq::empty();
    proof {
        assert(s.skip(0) =~= s);
        match code_spec(s) {
            Ok(o) => {
                assert(shifted(o, 0) =~= o);
                assert(offs + shifted(o, 0) =~= o);
            },
            Err(e) => {},
        }
    }
    loop
        invariant
            s == unread(*old(body)),
            used <= s.len(),
            unread(*body) == s.skip(used as int),
            ops_at(ops@, s, offs),
            match code_spec(s.skip(used as int)) {
                Ok(o) => code_spec(s) == Ok::<Seq<int>, CodecError>(offs + shifted(o, used as int)),
                Err(e) => code_spec(s) == Err::<Seq<int>, CodecError>(e),
            },
        decreases s.len() - used,
    {
        let ghost cur = unread(*body);
        let op = Op::decode(body)?;
        let ghost k = op_len(cur)->Ok_0;
        proof {
            lemma_skip_skip(s, used as int, k as int);
        }
        if reader_at_end(body) {
            proof {
                assert(op_denotes(op, cur));
                assert((op is End) <==> cur[0] == 0x0b);
                assert(offs + shifted(Seq::<int>::empty(), used as int) =~= offs);
            }
            if let Op::End = op {
                return Ok(ops);
            }
            return Err(CodecError::BadFunctionEnd);
        }
        proof {
            match code_spec(s.skip((used + k) as int)) {
                Ok(o) => {
                    assert(offs.push(used as int) + shifted(o, (used + k) as int) =~= offs + shifted(
                        seq![0int] + shifted(o, k as int),
                        used as int,
                    ));
                },
                Err(e) => {},
            }
            let offs2 = offs.push(used as int);
            assert forall|i: int| 0 <= i < ops@.push(op).len() implies 0 <= #[trigger] offs2[i] <= s.len()
                && op_denotes(ops@.push(op)[i], s.skip(offs2[i])) by {
                if i < ops@.len() {
                    assert(offs2[i] == offs[i]);
                }
            }
            offs = offs2;
            used = used + k;
        }
        ops.push(op);
    }
}

impl FunctionBody {
    /// Decodes a function body.
    pub fn decode(rd: &mut untrusted::Reader) -> (r: Result<FunctionBody, CodecError>)
        ensures
            match body_spec(unread(*old(rd))) {
                Ok((p, k)) => r matches Ok(f) && body_is(f, p) && k <= unread(*old(rd)).len()
                    && unread(*final(rd)) == unread(*old(rd)).skip(k as int),
                Err(e) => r == Err::<FunctionBody, CodecError>(e),
            },
    {
        let ghost s = unread(*rd);
        let body_size = read_varu32(rd)?;
        let ghost k0 = varu32_spec(s)->Ok_0.1;
        let inp = match reader_read_bytes(rd, body_size as usize) {
            Some(inp) => inp,
            None => {
                return Err(CodecError::Truncated);
            },
        };
        proof {
            assert(s.skip(k0 as int).take(body_size as int) == input_bytes(inp));
            lemma_skip_skip(s, k0 as int, body_size as int);
        }
        let mut body = reader_new(inp);
        let ghost b = unread(body);
        let local_count = read_varu32(&mut body)?;
        let ghost k1 = varu32_spec(b)->Ok_0.1;
        let locals = read_locals(&mut body, local_count)?;
        let ghost k2 = locals_spec(b.skip(k1 as int), local_count as nat)->Ok_0.1;
        proof {
            lemma_skip_skip(b, k1 as int, k2 as int);
        }
        let ops = read_code(&mut body)?;
        Ok(FunctionBody { locals, ops })
    }
}

} // verus!
