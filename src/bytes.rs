//! Little-endian integers in byte sequences, read and written through the
//! `byteorder` crate, and UTF-8 text checked by std.

use vstd::prelude::*;
use byteorder::ByteOrder;

verus! {

/// The number that `s` stands for, least significant byte first.
pub open spec fn le_value(s: Seq<u8>) -> nat
    decreases s.len(),
{
    if s.len() == 0 {
        0
    } else {
        s[0] as nat + 256 * le_value(s.drop_first())
    }
}

/// The `n` low bytes of `v`, least significant first.
pub open spec fn le_bytes(v: nat, n: nat) -> Seq<u8>
    decreases n,
{
    if n == 0 {
        Seq::empty()
    } else {
        seq![(v % 256) as u8] + le_bytes(v / 256, (n - 1) as nat)
    }
}

/// 256 to the power `n`.
pub open spec fn pow256(n: nat) -> nat
    decreases n,
{
    if n == 0 {
        1
    } else {
        256 * pow256((n - 1) as nat)
    }
}

/// `s` with the bytes from `at` on replaced by `w`.
pub open spec fn splice(s: Seq<u8>, at: int, w: Seq<u8>) -> Seq<u8> {
    s.subrange(0, at) + w + s.subrange(at + w.len(), s.len() as int)
}

/// Writing `n` bytes of `v` and reading them back gives `v` modulo `256^n`.
pub proof fn lemma_le_round_trip(v: nat, n: nat)
    ensures
        le_bytes(v, n).len() == n,
        le_value(le_bytes(v, n)) == v % pow256(n),
    decreases n,
{
    if n > 0 {
        let w = le_bytes(v, n);
        lemma_le_round_trip(v / 256, (n - 1) as nat);
        assert(w.drop_first() =~= le_bytes(v / 256, (n - 1) as nat));
        let p = pow256((n - 1) as nat);
        assert(p > 0) by {
            lemma_pow256_positive((n - 1) as nat);
        }
        assert((v % 256) + 256 * ((v / 256) % p) == v % (256 * p)) by {
            vstd::arithmetic::div_mod::lemma_breakdown(v as int, 256, p as int);
        }
    } else {
        assert(v % 1 == 0);
    }
}

proof fn lemma_pow256_positive(n: nat)
    ensures
        pow256(n) > 0,
    decreases n,
{
    if n > 0 {
        lemma_pow256_positive((n - 1) as nat);
    }
}

/// Relies on `byteorder::LittleEndian::read_u16`: the two bytes at `at`,
/// least significant first.
#[verifier::external_body]
pub(crate) fn read_le_u16(buf: &[u8], at: usize) -> (r: u16)
    requires
        at + 2 <= buf@.len(),
    ensures
        r as nat == le_value(buf@.subrange(at as int, at + 2)),
{
    byteorder::LittleEndian::read_u16(&buf[at..at + 2])
}

/// Relies on `byteorder::LittleEndian::read_u32`: the four bytes at `at`,
/// least significant first.
#[verifier::external_body]
pub(crate) fn read_le_u32(buf: &[u8], at: usize) -> (r: u32)
    requires
        at + 4 <= buf@.len(),
    ensures
        r as nat == le_value(buf@.subrange(at as int, at + 4)),
{
    byteorder::LittleEndian::read_u32(&buf[at..at + 4])
}

/// Relies on `byteorder::LittleEndian::read_u64`: the eight bytes at `at`,
/// least significant first.
#[verifier::external_body]
pub(crate) fn read_le_u64(buf: &[u8], at: usize) -> (r: u64)
    requires
        at + 8 <= buf@.len(),
    ensures
        r as nat == le_value(buf@.subrange(at as int, at + 8)),
{
    byteorder::LittleEndian::read_u64(&buf[at..at + 8])
}

/// Relies on `byteorder::LittleEndian::write_u16`: `v` into the two bytes at
/// `at`, least significant first; nothing else changes.
#[verifier::external_body]
pub(crate) fn write_le_u16(buf: &mut Vec<u8>, at: usize, v: u16)
    requires
        at + 2 <= old(buf)@.len(),
    ensures
        final(buf)@ == splice(old(buf)@, at as int, le_bytes(v as nat, 2)),
{
    byteorder::LittleEndian::write_u16(&mut buf[at..at + 2], v)
}

/// Relies on `byteorder::LittleEndian::write_u32`: `v` into the four bytes at
/// `at`, least significant first; nothing else changes.
#[verifier::external_body]
pub(crate) fn write_le_u32(buf: &mut Vec<u8>, at: usize, v: u32)
    requires
        at + 4 <= old(buf)@.len(),
    ensures
        final(buf)@ == splice(old(buf)@, at as int, le_bytes(v as nat, 4)),
{
    byteorder::LittleEndian::write_u32(&mut buf[at..at + 4], v)
}

/// Relies on `byteorder::LittleEndian::write_u64`: `v` into the eight bytes at
/// `at`, least significant first; nothing else changes.
#[verifier::external_body]
pub(crate) fn write_le_u64(buf: &mut Vec<u8>, at: usize, v: u64)
    requires
        at + 8 <= old(buf)@.len(),
    ensures
        final(buf)@ == splice(old(buf)@, at as int, le_bytes(v as nat, 8)),
{
    byteorder::LittleEndian::write_u64(&mut buf[at..at + 8], v)
}

/// Relies on `std::str::from_utf8`: the text that `b` encodes, if `b` is
/// well-formed UTF-8.
#[verifier::external_body]
pub(crate) fn str_from_utf8<'a>(b: &'a [u8]) -> (r: Option<&'a str>)
    ensures
        r is Some <==> vstd::utf8::valid_utf8(b@),
        r is Some ==> r->0@ == vstd::utf8::decode_utf8(b@),
{
    std::str::from_utf8(b).ok()
}

} // verus!
