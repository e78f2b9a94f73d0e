//! Fixed-width little-endian integers, LEB128 numbers and UTF-8 strings,
//! read from an `untrusted::Reader`.

use vstd::prelude::*;
use vstd::arithmetic::div_mod::{lemma_add_mod_noop, lemma_small_mod, lemma_mod_multiples_vanish};
use crate::error::CodecError;
use crate::reader::{unread, input_slice, reader_read_byte, reader_read_bytes};
use crate::bytes::{le_value, read_le_u32, read_le_u64, str_from_utf8};


verus! {

/// 2^64, the modulus of `u64` arithmetic.
pub open spec fn u64_modulus() -> int {
    0x1_0000_0000_0000_0000
}

/// The number that the LEB128 groups in `p` stand for: seven bits from each
/// byte, least significant group first.
pub open spec fn leb_value(p: Seq<u8>) -> nat
    decreases p.len(),
{
    if p.len() == 0 {
        0
    } else {
        (p[0] % 128) as nat + 128 * leb_value(p.drop_first())
    }
}

/// How many bytes an unsigned LEB128 number of at most `n` bytes takes at the
/// start of `s`, or why it cannot be read: the input ends first, or the `n`th
/// byte still announces a continuation.
pub open spec fn varu_len(s: Seq<u8>, n: nat) -> Result<nat, CodecError>
    decreases n,
{
    if s.len() == 0 {
        Err(CodecError::Truncated)
    } else if s[0] < 0x80 {
        Ok(1)
    } else if n <= 1 {
        Err(CodecError::BadVarInt)
    } else {
        match varu_len(s.drop_first(), (n - 1) as nat) {
            Ok(k) => Ok(k + 1),
            Err(e) => Err(e),
        }
    }
}

/// The value of an unsigned LEB128 number held in `p`, cut to 64 bits.
pub open spec fn varu_value(p: Seq<u8>) -> u64 {
    (leb_value(p) as int % u64_modulus()) as u64
}

/// The value of a signed LEB128 number held in `p`: the unsigned value,
/// extended by the sign bit of the last seven-bit group.
pub open spec fn vari_value(p: Seq<u8>) -> int {
    if p.len() > 0 && p.last() & 0x40 != 0 {
        leb_value(p) - pow128(p.len())
    } else {
        leb_value(p) as int
    }
}

/// 128 to the power `k`: the weight of the `k`th seven-bit group.
pub open spec fn pow128(k: nat) -> nat
    decreases k,
{
    if k == 0 {
        1
    } else {
        128 * pow128((k - 1) as nat)
    }
}

/// `x` as a two's-complement integer of the width whose modulus is `m`.
pub open spec fn wrap(x: int, m: int) -> int {
    let r = x % m;
    if r >= m / 2 {
        r - m
    } else {
        r
    }
}

/// What reading an unsigned LEB128 number of at most `n` bytes from `s` gives:
/// its value cut to 64 bits and the bytes it takes.
pub open spec fn varu_spec(s: Seq<u8>, n: nat) -> Result<(u64, nat), CodecError> {
    match varu_len(s, n) {
        Ok(k) => Ok((varu_value(s.take(k as int)), k)),
        Err(e) => Err(e),
    }
}

/// The reader went from `before` to `after` by taking at most `n` bytes off
/// the front.
pub open spec fn took_at_most(before: Seq<u8>, after: Seq<u8>, n: nat) -> bool {
    &&& after.len() <= before.len()
    &&& before.len() - after.len() <= n
    &&& after == before.skip(before.len() - after.len())
}

/// A decoder's result `r` and the reader's bytes `after` are what `spec`
/// says of the bytes `before`: the value and the number of bytes it takes,
/// or the error.
pub open spec fn decoded<T>(
    r: Result<T, CodecError>,
    spec: Result<(T, nat), CodecError>,
    before: Seq<u8>,
    after: Seq<u8>,
) -> bool {
    match spec {
        Ok((v, k)) => r == Ok::<T, CodecError>(v) && k <= before.len() && after == before.skip(k as int),
        Err(e) => r == Err::<T, CodecError>(e),
    }
}

/// What reading a signed LEB128 number of one byte from `s` gives.
pub open spec fn vari7_spec(s: Seq<u8>) -> Result<(int, nat), CodecError> {
    match varu_len(s, 1) {
        Ok(k) => Ok((vari_value(s.take(k as int)), k)),
        Err(e) => Err(e),
    }
}

/// What reading a one-byte unsigned LEB128 number from `s` gives.
pub open spec fn varu7_spec(s: Seq<u8>) -> Result<(u8, nat), CodecError> {
    match varu_spec(s, 1) {
        Ok((v, k)) => Ok((v as u8, k)),
        Err(e) => Err(e),
    }
}

/// What reading a one-byte LEB128 number that must be 0 or 1 from `s` gives.
pub open spec fn varu1_spec(s: Seq<u8>) -> Result<(u8, nat), CodecError> {
    match varu_spec(s, 1) {
        Ok((v, k)) => if v <= 1 {
            Ok((v as u8, k))
        } else {
            Err(CodecError::BadVarInt)
        },
        Err(e) => Err(e),
    }
}

/// What reading an unsigned LEB128 number of at most five bytes, cut to 32
/// bits, from `s` gives.
pub open spec fn varu32_spec(s: Seq<u8>) -> Result<(u32, nat), CodecError> {
    match varu_spec(s, 5) {
        Ok((v, k)) => Ok(((v as int % 0x1_0000_0000) as u32, k)),
        Err(e) => Err(e),
    }
}

/// What reading a signed LEB128 number of at most five bytes, cut to 32
/// bits, from `s` gives.
pub open spec fn vari32_spec(s: Seq<u8>) -> Result<(i32, nat), CodecError> {
    match varu_len(s, 5) {
        Ok(k) => Ok((wrap(vari_value(s.take(k as int)), 0x1_0000_0000) as i32, k)),
        Err(e) => Err(e),
    }
}

/// What reading a signed LEB128 number of at most ten bytes, cut to 64
/// bits, from `s` gives.
pub open spec fn vari64_spec(s: Seq<u8>) -> Result<(i64, nat), CodecError> {
    match varu_len(s, 10) {
        Ok(k) => Ok((wrap(vari_value(s.take(k as int)), u64_modulus()) as i64, k)),
        Err(e) => Err(e),
    }
}

/// What reading a 32-bit little-endian integer from `s` gives.
pub open spec fn u32_spec(s: Seq<u8>) -> Result<(u32, nat), CodecError> {
    if s.len() < 4 {
        Err(CodecError::Truncated)
    } else {
        Ok((le_value(s.take(4)) as u32, 4))
    }
}

/// What reading a 64-bit little-endian integer from `s` gives.
pub open spec fn u64_spec(s: Seq<u8>) -> Result<(u64, nat), CodecError> {
    if s.len() < 8 {
        Err(CodecError::Truncated)
    } else {
        Ok((le_value(s.take(8)) as u64, 8))
    }
}

/// What reading one byte from `s` gives.
pub open spec fn u8_spec(s: Seq<u8>) -> Result<(u8, nat), CodecError> {
    if s.len() == 0 {
        Err(CodecError::Truncated)
    } else {
        Ok((s[0], 1))
    }
}

/// What decoding `n` items in a row from `s` gives, each as `one` decodes
/// it: their values in order and the bytes they take, or the first error.
pub open spec fn many<V>(s: Seq<u8>, n: nat, one: spec_fn(Seq<u8>) -> Result<(V, nat), CodecError>) -> Result<
    (Seq<V>, nat),
    CodecError,
>
    decreases n,
{
    if n == 0 {
        Ok((Seq::empty(), 0))
    } else {
        match one(s) {
            Ok((v, k)) => if k <= s.len() {
                match many(s.skip(k as int), (n - 1) as nat, one) {
                    Ok((vs, j)) => Ok((seq![v] + vs, k + j)),
                    Err(e) => Err(e),
                }
            } else {
                Err(CodecError::Truncated)
            },
            Err(e) => Err(e),
        }
    }
}

/// `r` with the values `vs`, which took `used` bytes, put before it.
pub open spec fn prepend<V>(vs: Seq<V>, used: nat, r: Result<(Seq<V>, nat), CodecError>) -> Result<
    (Seq<V>, nat),
    CodecError,
> {
    match r {
        Ok((ws, k)) => Ok((vs + ws, used + k)),
        Err(e) => Err(e),
    }
}

/// Taking one more item off the front of a run of items.
pub proof fn lemma_many_step<V>(
    vs: Seq<V>,
    used: nat,
    cur: Seq<u8>,
    n: nat,
    one: spec_fn(Seq<u8>) -> Result<(V, nat), CodecError>,
)
    requires
        n > 0,
        one(cur) matches Ok((v, k)) && k <= cur.len(),
    ensures
        ({
            let (v, k) = one(cur)->Ok_0;
            prepend(vs, used, many(cur, n, one)) == prepend(
                vs.push(v),
                used + k,
                many(cur.skip(k as int), (n - 1) as nat, one),
            )
        }),
{
    let (v, k) = one(cur)->Ok_0;
    match many(cur.skip(k as int), (n - 1) as nat, one) {
        Ok((ws, j)) => {
            assert(vs + (seq![v] + ws) =~= vs.push(v) + ws);
        },
        Err(e) => {},
    }
}

/// Nothing put before a result leaves it as it is.
pub proof fn lemma_prepend_empty<V>(r: Result<(Seq<V>, nat), CodecError>)
    ensures
        prepend(Seq::<V>::empty(), 0, r) == r,
{
    match r {
        Ok((ws, k)) => {
            assert(Seq::<V>::empty() + ws =~= ws);
        },
        Err(e) => {},
    }
}

proof fn lemma_pow128_mono(a: nat, b: nat)
    requires
        a <= b,
    ensures
        pow128(a) <= pow128(b),
    decreases b,
{
    if a < b {
        lemma_pow128_mono(a, (b - 1) as nat);
    }
}

pub proof fn lemma_varu_len_ok_bound(s: Seq<u8>, n: nat)
    requires
        n >= 1,
    ensures
        varu_len(s, n) matches Ok(k) ==> 1 <= k <= n && k <= s.len(),
    decreases n,
{
    if s.len() > 0 && s[0] >= 0x80 && n > 1 {
        lemma_varu_len_ok_bound(s.drop_first(), (n - 1) as nat);
    }
}

proof fn lemma_leb_bound(p: Seq<u8>)
    ensures
        leb_value(p) < pow128(p.len()),
    decreases p.len(),
{
    if p.len() > 0 {
        let q = p.drop_first();
        lemma_leb_bound(q);
        let a = leb_value(q) as int;
        let b = pow128(q.len());
        assert(pow128(p.len()) == 128 * b);
        assert((p[0] % 128) + 128 * a < 128 * b) by (nonlinear_arith)
            requires a < b, 0 <= p[0] % 128 < 128;
    }
}

proof fn lemma_leb_push(p: Seq<u8>, b: u8)
    ensures
        leb_value(p.push(b)) == leb_value(p) + (b % 128) as nat * pow128(p.len()),
    decreases p.len(),
{
    if p.len() == 0 {
        assert(p.push(b).drop_first() =~= Seq::<u8>::empty());
        assert(p.push(b)[0] == b);
        assert(pow128(0) == 1);
        assert(leb_value(p) == 0);
        assert(leb_value(p.push(b)) == (b % 128) as nat + 128 * leb_value(Seq::<u8>::empty()));
    } else {
        let q = p.drop_first();
        assert(p.push(b).drop_first() =~= q.push(b));
        assert(p.push(b)[0] == p[0]);
        lemma_leb_push(q, b);
        let x = (b % 128) as int;
        let t = pow128(q.len());
        assert(pow128(p.len()) == 128 * t);
        assert(128 * (leb_value(q) + x * t) == 128 * leb_value(q) + x * (128 * t)) by (nonlinear_arith);
        assert(leb_value(p.push(b)) == (p[0] % 128) as nat + 128 * leb_value(q.push(b)));
        assert(leb_value(p) == (p[0] % 128) as nat + 128 * leb_value(q));
    }
}

proof fn lemma_varu_len_skip(s: Seq<u8>, n: nat, k: nat)
    requires
        k < n,
        k <= s.len(),
        forall|i: int| 0 <= i < k ==> s[i] >= 0x80,
    ensures
        varu_len(s, n) == match varu_len(s.skip(k as int), (n - k) as nat) {
            Ok(j) => Ok::<nat, CodecError>(j + k),
            Err(e) => Err(e),
        },
    decreases k,
{
    if k == 0 {
        assert(s.skip(0) =~= s);
        match varu_len(s, n) {
            Ok(j) => {},
            Err(e) => {},
        }
    } else {
        let t = s.drop_first();
        assert forall|i: int| 0 <= i < k - 1 implies t[i] >= 0x80 by {
            assert(s[i + 1] >= 0x80);
        }
        lemma_varu_len_skip(t, (n - 1) as nat, (k - 1) as nat);
        assert(t.skip(k - 1) =~= s.skip(k as int));
    }
}

/// An unsigned LEB128 number as read: its value cut to 64 bits, the number
/// of bytes it took and the last of them.
struct Leb {
    value: u64,
    len: usize,
    last: u8,
    weight: u64,
}

impl Leb {
    /// This is what reading the bytes `p` gave.
    spec fn read_from(self, p: Seq<u8>) -> bool {
        &&& 1 <= p.len() <= 10
        &&& self.len == p.len()
        &&& self.value == varu_value(p)
        &&& self.last == p.last()
        &&& self.weight == pow128((p.len() - 1) as nat)
    }
}

/// Reads an unsigned LEB128 number of at most `n` bytes.
fn read_leb(rd: &mut untrusted::Reader, n: usize) -> (r: Result<Leb, CodecError>)
    requires
        1 <= n <= 10,
    ensures
        took_at_most(unread(*old(rd)), unread(*final(rd)), n as nat),
        match varu_len(unread(*old(rd)), n as nat) {
            Ok(k) => r matches Ok(l) && l.read_from(unread(*old(rd)).take(k as int))
                && unread(*final(rd)) == unread(*old(rd)).skip(k as int),
            Err(e) => r == Err::<Leb, CodecError>(e),
        },
{
    let ghost s = unread(*rd);
    let mut acc: u64 = 0;
    let mut scale: u64 = 1;
    let mut k: usize = 0;
    proof {
        assert(s.skip(0) =~= s);
        assert(s.take(0) =~= Seq::<u8>::empty());
    }
    loop
        invariant
            1 <= n <= 10,
            k < n,
            k <= s.len(),
            s == unread(*old(rd)),
            unread(*rd) == s.skip(k as int),
            forall|i: int| 0 <= i < k ==> s[i] >= 0x80,
            acc as nat == leb_value(s.take(k as int)),
            scale as int == pow128(k as nat),
        decreases n - k,
    {
        proof {
            lemma_varu_len_skip(s, n as nat, k as nat);
        }
        let b = match reader_read_byte(rd) {
            Some(b) => b,
            None => {
                proof {
                    assert(s.skip(k as int).skip(0) =~= s.skip(k as int));
                }
                return Err(CodecError::Truncated);
            },
        };
        proof {
            assert(s.skip(k as int)[0] == s[k as int]);
            assert(s.skip(k as int).drop_first() =~= s.skip(k + 1));
            assert(s.take(k + 1) =~= s.take(k as int).push(b));
            lemma_leb_push(s.take(k as int), b);
            lemma_leb_bound(s.take(k as int));
            lemma_leb_bound(s.take(k + 1));
        }
        if b >= 0x80 && k + 1 == n {
            return Err(CodecError::BadVarInt);
        }
        let x: u64 = (b & 0x7f) as u64;
        assert(x == b % 128) by (bit_vector)
            requires x == (b & 0x7f) as u64;
        let part = x.wrapping_mul(scale);
        let next = acc.wrapping_add(part);
        proof {
            let full = leb_value(s.take(k + 1)) as int;
            assert(full == acc + x * scale);
            lemma_add_mod_noop(acc as int, x * scale, u64_modulus());
            lemma_small_mod(acc as nat, u64_modulus() as nat);
            assert(next as int == full % u64_modulus());
        }
        if b < 0x80 {
            proof {
                assert(s.take(k + 1).last() == b);
                lemma_varu_len_ok_bound(s, n as nat);
            }
            return Ok(Leb { value: next, len: k + 1, last: b, weight: scale });
        }
        proof {
            assert(k + 1 <= 9);
            assert(pow128((k + 1) as nat) == 128 * pow128(k as nat));
            assert(pow128(9) == 0x8000_0000_0000_0000) by {
                reveal_with_fuel(pow128, 10);
            }
            lemma_pow128_mono((k + 1) as nat, 9);
            lemma_small_mod(leb_value(s.take(k + 1)), u64_modulus() as nat);
        }
        acc = next;
        scale = scale * 128;
        k = k + 1;
    }
}

/// Reads one byte.
pub fn read_u8(rd: &mut untrusted::Reader) -> (r: Result<u8, CodecError>)
    ensures
        unread(*old(rd)).len() == 0 ==> r == Err::<u8, CodecError>(CodecError::Truncated),
        unread(*old(rd)).len() > 0 ==> r == Ok::<u8, CodecError>(unread(*old(rd))[0])
            && unread(*final(rd)) == unread(*old(rd)).drop_first(),
        decoded(r, u8_spec(unread(*old(rd))), unread(*old(rd)), unread(*final(rd))),
{
    match reader_read_byte(rd) {
        Some(b) => Ok(b),
        None => Err(CodecError::Truncated),
    }
}

/// Reads a 32-bit little-endian integer.
pub fn read_u32(rd: &mut untrusted::Reader) -> (r: Result<u32, CodecError>)
    ensures
        unread(*old(rd)).len() < 4 ==> r == Err::<u32, CodecError>(CodecError::Truncated),
        unread(*old(rd)).len() >= 4 ==> (r matches Ok(v)
            && v as nat == le_value(unread(*old(rd)).take(4))
            && unread(*final(rd)) == unread(*old(rd)).skip(4)),
        decoded(r, u32_spec(unread(*old(rd))), unread(*old(rd)), unread(*final(rd))),
{
    match reader_read_bytes(rd, 4) {
        Some(inp) => {
            let b = input_slice(&inp);
            proof {
                assert(b@.subrange(0, 4) =~= b@);
            }
            Ok(read_le_u32(b, 0))
        },
        None => Err(CodecError::Truncated),
    }
}

/// Reads a 64-bit little-endian integer.
pub fn read_u64(rd: &mut untrusted::Reader) -> (r: Result<u64, CodecError>)
    ensures
        unread(*old(rd)).len() < 8 ==> r == Err::<u64, CodecError>(CodecError::Truncated),
        unread(*old(rd)).len() >= 8 ==> (r matches Ok(v)
            && v as nat == le_value(unread(*old(rd)).take(8))
            && unread(*final(rd)) == unread(*old(rd)).skip(8)),
        decoded(r, u64_spec(unread(*old(rd))), unread(*old(rd)), unread(*final(rd))),
{
    match reader_read_bytes(rd, 8) {
        Some(inp) => {
            let b = input_slice(&inp);
            proof {
                assert(b@.subrange(0, 8) =~= b@);
            }
            Ok(read_le_u64(b, 0))
        },
        None => Err(CodecError::Truncated),
    }
}

/// Reads an unsigned LEB128 number of at most `len` bytes.
pub fn read_varu(rd: &mut untrusted::Reader, len: usize) -> (r: Result<u64, CodecError>)
    requires
        1 <= len <= 10,
    ensures
        took_at_most(unread(*old(rd)), unread(*final(rd)), len as nat),
        match varu_spec(unread(*old(rd)), len as nat) {
            Ok((v, k)) => r == Ok::<u64, CodecError>(v)
                && unread(*final(rd)) == unread(*old(rd)).skip(k as int),
            Err(e) => r == Err::<u64, CodecError>(e),
        },
{
    let l = read_leb(rd, len)?;
    Ok(l.value)
}

/// Reads an unsigned LEB128 number of one byte.
pub fn read_varu7(rd: &mut untrusted::Reader) -> (r: Result<u8, CodecError>)
    ensures
        took_at_most(unread(*old(rd)), unread(*final(rd)), 1),
        match varu_spec(unread(*old(rd)), 1) {
            Ok((v, k)) => r == Ok::<u8, CodecError>(v as u8) && v < 0x80
                && unread(*final(rd)) == unread(*old(rd)).skip(k as int),
            Err(e) => r == Err::<u8, CodecError>(e),
        },
        decoded(r, varu7_spec(unread(*old(rd))), unread(*old(rd)), unread(*final(rd))),
{
    let l = match read_leb(rd, 1) {
        Ok(l) => l,
        Err(e) => {
            return Err(e);
        },
    };
    proof {
        let p = unread(*old(rd)).take(1);
        lemma_leb_bound(p);
        assert(pow128(1) == 128) by {
            reveal_with_fuel(pow128, 2);
        }
        lemma_small_mod(leb_value(p), u64_modulus() as nat);
    }
    Ok(l.value as u8)
}

/// Reads a one-byte LEB128 number that must be 0 or 1.
pub fn read_varu1(rd: &mut untrusted::Reader) -> (r: Result<u8, CodecError>)
    ensures
        took_at_most(unread(*old(rd)), unread(*final(rd)), 1),
        match varu_spec(unread(*old(rd)), 1) {
            Ok((v, k)) => (if v <= 1 {
                r == Ok::<u8, CodecError>(v as u8)
            } else {
                r == Err::<u8, CodecError>(CodecError::BadVarInt)
            }) && unread(*final(rd)) == unread(*old(rd)).skip(k as int),
            Err(e) => r == Err::<u8, CodecError>(e),
        },
        decoded(r, varu1_spec(unread(*old(rd))), unread(*old(rd)), unread(*final(rd))),
{
    let v = read_varu7(rd)?;
    if v <= 1 {
        Ok(v)
    } else {
        Err(CodecError::BadVarInt)
    }
}

/// Reads an unsigned LEB128 number of at most five bytes, cut to 32 bits.
pub fn read_varu32(rd: &mut untrusted::Reader) -> (r: Result<u32, CodecError>)
    ensures
        took_at_most(unread(*old(rd)), unread(*final(rd)), 5),
        match varu_spec(unread(*old(rd)), 5) {
            Ok((v, k)) => r matches Ok(x) && x as int == v as int % 0x1_0000_0000
                && unread(*final(rd)) == unread(*old(rd)).skip(k as int),
            Err(e) => r == Err::<u32, CodecError>(e),
        },
        decoded(r, varu32_spec(unread(*old(rd))), unread(*old(rd)), unread(*final(rd))),
{
    proof {
        lemma_varu_len_ok_bound(unread(*rd), 5);
    }
    let v = read_varu(rd, 5)?;
    let x = (v % 0x1_0000_0000) as u32;
    Ok(x)
}

/// The signed value of the LEB128 bytes that `l` was read from, up to a
/// multiple of 2^64.
fn signed_value(l: &Leb, Ghost(p): Ghost<Seq<u8>>) -> (r: i128)
    requires
        l.read_from(p),
    ensures
        -0x1_0000_0000_0000_0000_0000 < r < 0x1_0000_0000_0000_0000_0000,
        (r - vari_value(p)) % u64_modulus() == 0,
        p.len() <= 9 ==> r == vari_value(p),
{
    proof {
        lemma_leb_bound(p);
        lemma_pow128_mono(p.len(), 10);
        assert(pow128(10) == 0x40_0000_0000_0000_0000) by {
            reveal_with_fuel(pow128, 11);
        }
        assert(pow128(p.len()) == 128 * l.weight);
        if p.len() <= 9 {
            lemma_pow128_mono(p.len(), 9);
            assert(pow128(9) == 0x8000_0000_0000_0000) by {
                reveal_with_fuel(pow128, 10);
            }
            lemma_small_mod(leb_value(p), u64_modulus() as nat);
        } else {
            let q = leb_value(p) as int / u64_modulus();
            vstd::arithmetic::div_mod::lemma_fundamental_div_mod(leb_value(p) as int, u64_modulus());
            assert((l.value - leb_value(p)) == -(u64_modulus() * q));
            assert(-(u64_modulus() * q) == u64_modulus() * (-q)) by (nonlinear_arith);
            lemma_mod_multiples_vanish(-q, 0, u64_modulus());
            assert(0x40_0000_0000_0000_0000 == u64_modulus() * 64);
            lemma_mod_multiples_vanish(-q + 64, 0, u64_modulus());
            assert(u64_modulus() * (-q + 64) == u64_modulus() * (-q) + u64_modulus() * 64) by (nonlinear_arith);
        }
    }
    let v = l.value as i128;
    if l.last & 0x40 != 0 {
        v - (l.weight as i128) * 128
    } else {
        v
    }
}

/// `x` cut to the two's-complement range of the width whose modulus is `m`.
fn wrap_to(x: i128, m: u128) -> (r: i128)
    requires
        -0x1_0000_0000_0000_0000_0000 < x < 0x1_0000_0000_0000_0000_0000,
        m == 0x100 || m == 0x1_0000_0000 || m == 0x1_0000_0000_0000_0000,
    ensures
        r == wrap(x as int, m as int),
        -(m as int) / 2 <= r < m as int / 2,
{
    let bias: i128 = 0x1_0000_0000_0000_0000_0000;
    let t = (x + bias) as u128;
    let low = t % m;
    proof {
        assert(bias as int == (m as int) * (bias as int / m as int));
        lemma_mod_multiples_vanish(bias as int / m as int, x as int, m as int);
        assert(m as int * (bias as int / m as int) + x == t as int);
    }
    if low >= m / 2 {
        low as i128 - m as i128
    } else {
        low as i128
    }
}

/// Reads a signed LEB128 number of one byte.
pub fn read_vari7(rd: &mut untrusted::Reader) -> (r: Result<i8, CodecError>)
    ensures
        took_at_most(unread(*old(rd)), unread(*final(rd)), 1),
        match varu_len(unread(*old(rd)), 1) {
            Ok(k) => r matches Ok(x) && x as int == vari_value(unread(*old(rd)).take(k as int))
                && unread(*final(rd)) == unread(*old(rd)).skip(k as int),
            Err(e) => r == Err::<i8, CodecError>(e),
        },
{
    let l = match read_leb(rd, 1) {
        Ok(l) => l,
        Err(e) => {
            return Err(e);
        },
    };
    let ghost p = unread(*old(rd)).take(1);
    let sv = signed_value(&l, Ghost(p));
    let x = wrap_to(sv, 0x100);
    proof {
        lemma_leb_bound(p);
        assert(pow128(1) == 128) by {
            reveal_with_fuel(pow128, 2);
        }
        let b = p[0];
        assert(p.drop_first() =~= Seq::<u8>::empty());
        assert(leb_value(p.drop_first()) == 0);
        assert(leb_value(p) == b % 128);
        assert(p.last() == b);
        assert((b & 0x40 != 0) <==> (b % 128 >= 64)) by (bit_vector);
        assert(-64 <= sv < 64);
        if sv < 0 {
            lemma_small_mod((sv + 256) as nat, 256);
            vstd::arithmetic::div_mod::lemma_mod_add_multiples_vanish(sv as int, 256);
        } else {
            lemma_small_mod(sv as nat, 256);
        }
    }
    Ok(x as i8)
}

/// Reads a signed LEB128 number of at most five bytes, cut to 32 bits.
pub fn read_vari32(rd: &mut untrusted::Reader) -> (r: Result<i32, CodecError>)
    ensures
        took_at_most(unread(*old(rd)), unread(*final(rd)), 5),
        match varu_len(unread(*old(rd)), 5) {
            Ok(k) => r matches Ok(x)
                && x as int == wrap(vari_value(unread(*old(rd)).take(k as int)), 0x1_0000_0000)
                && unread(*final(rd)) == unread(*old(rd)).skip(k as int),
            Err(e) => r == Err::<i32, CodecError>(e),
        },
        decoded(r, vari32_spec(unread(*old(rd))), unread(*old(rd)), unread(*final(rd))),
{
    let l = match read_leb(rd, 5) {
        Ok(l) => l,
        Err(e) => {
            return Err(e);
        },
    };
    let ghost p = unread(*old(rd)).take(l.len as int);
    proof {
        lemma_varu_len_ok_bound(unread(*old(rd)), 5);
    }
    let sv = signed_value(&l, Ghost(p));
    let x = wrap_to(sv, 0x1_0000_0000);
    Ok(x as i32)
}

/// Reads a signed LEB128 number of at most ten bytes, cut to 64 bits.
pub fn read_vari64(rd: &mut untrusted::Reader) -> (r: Result<i64, CodecError>)
    ensures
        took_at_most(unread(*old(rd)), unread(*final(rd)), 10),
        match varu_len(unread(*old(rd)), 10) {
            Ok(k) => r matches Ok(x)
                && x as int == wrap(vari_value(unread(*old(rd)).take(k as int)), u64_modulus())
                && unread(*final(rd)) == unread(*old(rd)).skip(k as int),
            Err(e) => r == Err::<i64, CodecError>(e),
        },
        decoded(r, vari64_spec(unread(*old(rd))), unread(*old(rd)), unread(*final(rd))),
{
    let l = match read_leb(rd, 10) {
        Ok(l) => l,
        Err(e) => {
            return Err(e);
        },
    };
    let ghost p = unread(*old(rd)).take(l.len as int);
    proof {
        lemma_varu_len_ok_bound(unread(*old(rd)), 10);
    }
    let sv = signed_value(&l, Ghost(p));
    let x = wrap_to(sv, 0x1_0000_0000_0000_0000);
    proof {
        lemma_wrap_congruent(sv as int, vari_value(p), u64_modulus());
    }
    Ok(x as i64)
}

proof fn lemma_wrap_congruent(a: int, b: int, m: int)
    requires
        m > 0,
        (a - b) % m == 0,
    ensures
        wrap(a, m) == wrap(b, m),
{
    vstd::arithmetic::div_mod::lemma_fundamental_div_mod(a - b, m);
    let j = (a - b) / m;
    assert(a == b + m * j);
    lemma_mod_multiples_vanish(j, b, m);
}

/// Reads `len` bytes that must be well-formed UTF-8 and gives them as text.
pub fn read_utf8<'a>(rd: &mut untrusted::Reader<'a>, len: usize) -> (r: Result<&'a str, CodecError>)
    ensures
        len > unread(*old(rd)).len() ==> r == Err::<&str, CodecError>(CodecError::Truncated),
        len <= unread(*old(rd)).len() ==> unread(*final(rd)) == unread(*old(rd)).skip(len as int)
            && if vstd::utf8::valid_utf8(unread(*old(rd)).take(len as int)) {
                r matches Ok(t) && t@ == vstd::utf8::decode_utf8(unread(*old(rd)).take(len as int))
            } else {
                r == Err::<&str, CodecError>(CodecError::BadUTF8)
            },
{
    match reader_read_bytes(rd, len) {
        Some(inp) => match str_from_utf8(input_slice(&inp)) {
            Some(t) => Ok(t),
            None => Err(CodecError::BadUTF8),
        },
        None => Err(CodecError::Truncated),
    }
}

/// A number whose first `n` bytes all announce a continuation is malformed
/// when at most `n` bytes are allowed.
pub proof fn lemma_varu_too_long(s: Seq<u8>, n: nat)
    requires
        n >= 1,
        s.len() >= n,
        forall|i: int| 0 <= i < n ==> s[i] >= 0x80,
    ensures
        varu_len(s, n) == Err::<nat, CodecError>(CodecError::BadVarInt),
    decreases n,
{
    if n > 1 {
        let t = s.drop_first();
        assert forall|i: int| 0 <= i < n - 1 implies t[i] >= 0x80 by {
            assert(s[i + 1] >= 0x80);
        }
        lemma_varu_too_long(t, (n - 1) as nat);
    }
}

/// A well-formed number reads the same whatever follows it.
pub proof fn lemma_varu_prefix(x: Seq<u8>, t: Seq<u8>, n: nat)
    requires
        varu_len(x, n) == Ok::<nat, CodecError>(x.len()),
    ensures
        varu_len(x + t, n) == Ok::<nat, CodecError>(x.len()),
        (x + t).take(x.len() as int) == x,
    decreases n,
{
    assert((x + t).take(x.len() as int) =~= x);
    if x.len() > 0 && x[0] >= 0x80 && n > 1 {
        let y = x.drop_first();
        match varu_len(y, (n - 1) as nat) {
            Ok(k) => {
                lemma_varu_prefix(y, t, (n - 1) as nat);
                assert((x + t).drop_first() =~= y + t);
            },
            Err(e) => {},
        }
    }
}

/// Reading two numbers in a row from the concatenation of their encodings
/// gives the two values, in order, each taking its own bytes.
pub proof fn lemma_varu_concat(x: Seq<u8>, y: Seq<u8>, rest: Seq<u8>, n: nat)
    requires
        varu_len(x, n) == Ok::<nat, CodecError>(x.len()),
        varu_len(y, n) == Ok::<nat, CodecError>(y.len()),
    ensures
        varu_spec(x + y + rest, n) == Ok::<(u64, nat), CodecError>((varu_value(x), x.len())),
        varu_spec((x + y + rest).skip(x.len() as int), n)
            == Ok::<(u64, nat), CodecError>((varu_value(y), y.len())),
{
    assert(x + y + rest =~= x + (y + rest));
    lemma_varu_prefix(x, y + rest, n);
    assert((x + y + rest).skip(x.len() as int) =~= y + rest);
    lemma_varu_prefix(y, rest, n);
}

/// A number reads the same from any input that agrees on its bytes.
pub proof fn lemma_varu_stable(s: Seq<u8>, t: Seq<u8>, n: nat)
    requires
        varu_len(s, n) matches Ok(k) && k <= t.len() && k <= s.len() && t.take(k as int) == s.take(k as int),
    ensures
        varu_len(t, n) == varu_len(s, n),
    decreases n,
{
    let k = varu_len(s, n)->Ok_0;
    assert(t[0] == t.take(k as int)[0]);
    assert(s[0] == s.take(k as int)[0]);
    if s[0] >= 0x80 && n > 1 {
        let k1 = varu_len(s.drop_first(), (n - 1) as nat)->Ok_0;
        assert(t.drop_first().take(k1 as int) =~= t.take(k as int).drop_first());
        assert(s.drop_first().take(k1 as int) =~= s.take(k as int).drop_first());
        lemma_varu_stable(s.drop_first(), t.drop_first(), (n - 1) as nat);
    }
}

/// A number cut short before its last byte cannot be read: the input ends
/// first.
pub proof fn lemma_varu_cut(s: Seq<u8>, t: Seq<u8>, n: nat)
    requires
        varu_len(s, n) matches Ok(k) && t.len() < k && k <= s.len() && t == s.take(t.len() as int),
    ensures
        varu_len(t, n) == Err::<nat, CodecError>(CodecError::Truncated),
    decreases n,
{
    if t.len() > 0 {
        assert(t[0] == s[0]);
        let k = varu_len(s, n)->Ok_0;
        if s[0] >= 0x80 && n > 1 {
            assert(t.drop_first() =~= s.drop_first().take(t.len() - 1));
            lemma_varu_cut(s.drop_first(), t.drop_first(), (n - 1) as nat);
        }
    }
}

} // verus!
