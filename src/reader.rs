//! The byte cursor of the `untrusted` crate, as the decoders see it: a
//! reader is modelled by the bytes it has not handed out yet.

use vstd::prelude::*;

verus! {

#[verifier::external_type_specification]
#[verifier::external_body]
pub struct ExReader<'a>(untrusted::Reader<'a>);

#[verifier::external_type_specification]
#[verifier::external_body]
pub struct ExInput<'a>(untrusted::Input<'a>);

/// The bytes that a reader has not yet handed out.
pub uninterp spec fn unread(rd: untrusted::Reader) -> Seq<u8>;

/// The bytes that an input covers.
pub uninterp spec fn input_bytes(inp: untrusted::Input) -> Seq<u8>;

/// Relies on `untrusted::Input::from`: the input covers exactly the slice.
#[verifier::external_body]
pub(crate) fn input_from<'a>(bytes: &'a [u8]) -> (r: untrusted::Input<'a>)
    ensures
        input_bytes(r) == bytes@,
{
    untrusted::Input::from(bytes)
}

/// Relies on `untrusted::Reader::new`: a new reader starts at the first byte.
#[verifier::external_body]
pub(crate) fn reader_new<'a>(inp: untrusted::Input<'a>) -> (r: untrusted::Reader<'a>)
    ensures
        unread(r) == input_bytes(inp),
{
    untrusted::Reader::new(inp)
}

/// Relies on `untrusted::Input::as_slice_less_safe`: the slice is the input's bytes.
#[verifier::external_body]
pub(crate) fn input_slice<'a>(inp: &untrusted::Input<'a>) -> (r: &'a [u8])
    ensures
        r@ == input_bytes(*inp),
{
    inp.as_slice_less_safe()
}

/// Relies on `untrusted::Reader::read_byte`: the next byte, or nothing at the end.
#[verifier::external_body]
pub(crate) fn reader_read_byte(rd: &mut untrusted::Reader) -> (r: Option<u8>)
    ensures
        unread(*old(rd)).len() == 0 ==> r is None && unread(*final(rd)) == unread(*old(rd)),
        unread(*old(rd)).len() > 0 ==> r == Some(unread(*old(rd))[0])
            && unread(*final(rd)) == unread(*old(rd)).drop_first(),
{
    rd.read_byte().ok()
}

/// Relies on `untrusted::Reader::read_bytes`: the next `n` bytes, or nothing,
/// and no move, when fewer remain.
#[verifier::external_body]
pub(crate) fn reader_read_bytes<'a>(rd: &mut untrusted::Reader<'a>, n: usize) -> (r: Option<untrusted::Input<'a>>)
    ensures
        n > unread(*old(rd)).len() ==> r is None && unread(*final(rd)) == unread(*old(rd)),
        n <= unread(*old(rd)).len() ==> r is Some
            && input_bytes(r->0) == unread(*old(rd)).take(n as int)
            && unread(*final(rd)) == unread(*old(rd)).skip(n as int),
{
    rd.read_bytes(n).ok()
}

/// Relies on `untrusted::Reader::read_bytes_to_end`: all that is left.
#[verifier::external_body]
pub(crate) fn reader_read_to_end<'a>(rd: &mut untrusted::Reader<'a>) -> (r: untrusted::Input<'a>)
    ensures
        input_bytes(r) == unread(*old(rd)),
        unread(*final(rd)) == Seq::<u8>::empty(),
{
    rd.read_bytes_to_end()
}

/// Relies on `untrusted::Reader::peek`: whether the next byte is `b`.
#[verifier::external_body]
pub(crate) fn reader_peek(rd: &untrusted::Reader, b: u8) -> (r: bool)
    ensures
        r == (unread(*rd).len() > 0 && unread(*rd)[0] == b),
{
    rd.peek(b)
}

/// Relies on `untrusted::Reader::at_end`: whether nothing is left.
#[verifier::external_body]
pub(crate) fn reader_at_end(rd: &untrusted::Reader) -> (r: bool)
    ensures
        r == (unread(*rd).len() == 0),
{
    rd.at_end()
}

} // verus!
