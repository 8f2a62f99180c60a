//! Encoder and decoder over `bytes` buffers, for use behind a stream adapter.
use bytes::{Bytes, BytesMut};
use vstd::prelude::*;
use crate::buffer::Buffer;
use crate::parser::{ConsumeToken, Error, JunkKind, Parser};
use crate::wire::Outcome;
use crate::{ETX, STX};

verus! {

/// `bytes::BytesMut`, a growable byte buffer; opaque to the verifier.
#[verifier::external_type_specification]
#[verifier::external_body]
pub struct ExBytesMut(bytes::BytesMut);

/// `bytes::Bytes`, an immutable byte buffer; opaque to the verifier.
#[verifier::external_type_specification]
#[verifier::external_body]
pub struct ExBytes(bytes::Bytes);

/// The bytes that a `BytesMut` holds, in order.
pub uninterp spec fn bytes_mut_view(buf: BytesMut) -> Seq<u8>;

/// The bytes that a `Bytes` holds, in order.
pub uninterp spec fn bytes_view(buf: Bytes) -> Seq<u8>;

/// `BytesMut::extend_from_slice`.
///
/// Trusted: the buffer grows as needed and `bytes` is appended to what it
/// held.
#[verifier::external_body]
fn buf_extend(dst: &mut BytesMut, bytes: &[u8])
    ensures
        bytes_mut_view(*final(dst)) == bytes_mut_view(*old(dst)) + bytes@,
{
    dst.extend_from_slice(bytes)
}

/// `BytesMut` read as a slice, through its `AsRef<[u8]>`.
///
/// Trusted: the slice is the buffer's content.
#[verifier::external_body]
fn buf_as_slice(src: &BytesMut) -> (bytes: &[u8])
    ensures
        bytes@ == bytes_mut_view(*src),
{
    src.as_ref()
}

/// `BytesMut::split_to`.
///
/// Trusted: the first `at` bytes are returned and the buffer keeps the rest.
/// The outside function panics where `at` exceeds the length.
#[verifier::external_body]
fn buf_split_to(src: &mut BytesMut, at: usize) -> (front: BytesMut)
    requires
        at <= bytes_mut_view(*old(src)).len(),
    ensures
        bytes_mut_view(front) == bytes_mut_view(*old(src)).subrange(0, at as int),
        bytes_mut_view(*final(src)) == bytes_mut_view(*old(src)).skip(at as int),
{
    src.split_to(at)
}

/// `BytesMut::with_capacity`.
///
/// Trusted: the new buffer holds nothing.
#[verifier::external_body]
fn buf_with_capacity(capacity: usize) -> (buf: BytesMut)
    requires
        capacity <= isize::MAX,
    ensures
        bytes_mut_view(buf) == Seq::<u8>::empty(),
{
    BytesMut::with_capacity(capacity)
}

/// `BytesMut::freeze`.
///
/// Trusted: the immutable handle holds what the buffer held.
#[verifier::external_body]
fn buf_freeze(buf: BytesMut) -> (frozen: Bytes)
    ensures
        bytes_view(frozen) == bytes_mut_view(buf),
{
    buf.freeze()
}

/// Appends to `dst` a frame around `item` whose checksum field holds `sum`.
pub fn put_frame(item: &[u8], sum: u16, dst: &mut BytesMut)
    requires
        item@.len() <= u16::MAX,
    ensures
        bytes_mut_view(*final(dst)) == bytes_mut_view(*old(dst)) + crate::wire::frame_with(
            item@,
            sum as int,
            crate::wire::etx(),
        ),
{
    let len: usize = item.len();
    let header: [u8; 4] = [STX[0], STX[1], (len / 256) as u8, (len % 256) as u8];
    let footer: [u8; 4] = [(sum / 256) as u8, (sum % 256) as u8, ETX[0], ETX[1]];
    buf_extend(dst, header.as_slice());
    buf_extend(dst, item);
    buf_extend(dst, footer.as_slice());
    proof {
        let before = bytes_mut_view(*old(dst));
        assert(header@ =~= crate::wire::stx() + crate::wire::word_bytes(len as int));
        assert(footer@ =~= crate::wire::word_bytes(sum as int) + crate::wire::etx());
        assert(before + header@ + item@ + footer@ =~= before + crate::wire::frame_with(
            item@,
            sum as int,
            crate::wire::etx(),
        ));
    }
}

/// Why a body cannot be framed.
#[derive(Debug, Clone, Copy, PartialEq, Eq, Structural)]
pub enum EncodeError {
    /// The body's length does not fit the 16-bit length field.
    BodyTooLarge { len: usize },
}

/// Stateless encoder of frames.
pub struct Encoder(());

impl Encoder {
    /// A new encoder.
    pub fn new() -> (encoder: Self) {
        Self(())
    }

    /// Appends to `dst` the wire form of a frame with body `item`.
    ///
    /// A body longer than 65,535 bytes is refused and `dst` is left as it
    /// was.
    pub fn encode(&mut self, item: &[u8], dst: &mut BytesMut) -> (result: Result<(), EncodeError>)
        ensures
            match result {
                Ok(_) => {
                    &&& item@.len() <= u16::MAX
                    &&& bytes_mut_view(*final(dst)) == bytes_mut_view(*old(dst))
                        + crate::wire::frame_bytes(item@)
                },
                Err(error) => {
                    &&& item@.len() > u16::MAX
                    &&& error == (EncodeError::BodyTooLarge { len: item@.len() as usize })
                    &&& bytes_mut_view(*final(dst)) == bytes_mut_view(*old(dst))
                },
            },
    {
        let len: usize = item.len();
        if len > 0xffff {
            return Err(EncodeError::BodyTooLarge { len });
        }
        put_frame(item, crate::crc::checksum(item), dst);
        Ok(())
    }
}

/// What one decode step hands out.
#[derive(Debug, PartialEq, Eq)]
pub enum Decoded {
    /// The body of a valid frame, copied out of the buffer.
    Frame(Bytes),
    /// Junk of the given kind was skipped.
    Junk(JunkKind),
}

/// Decoder of frames from a byte stream, over a parser with buffer `B`.
pub struct Decoder<B> {
    parser: Parser<B>,
}

impl<B: Buffer> Decoder<B> {
    /// The bytes taken from the stream and not yet decoded.
    pub closed spec fn view(&self) -> Seq<u8> {
        self.parser@
    }

    /// The capacity of the parser's buffer.
    pub closed spec fn limit(&self) -> nat {
        self.parser.limit()
    }

    /// A decoder that buffers in `buf`.
    pub fn new(buf: B) -> (decoder: Self)
        ensures
            decoder@ == buf.content(),
            decoder.limit() == buf.limit(),
    {
        let parser = Parser::with_buffer(buf);
        Self { parser }
    }

    /// One decode step: moves as much of `src` as fits into the buffer,
    /// reads, and evicts what the read decided on.
    ///
    /// Returns `None` where more input is needed.
    pub fn decode(&mut self, src: &mut BytesMut) -> (result: Option<Decoded>)
        ensures
            ({
                let offered = bytes_mut_view(*old(src));
                let accepted = crate::wire::fill_accepts(
                    old(self)@.len() as int,
                    old(self).limit() as int,
                    offered.len() as int,
                );
                let held = old(self)@ + offered.subrange(0, accepted);
                let outcome = crate::wire::read_outcome(held, old(self).limit() as int);
                &&& bytes_mut_view(*final(src)) == offered.skip(accepted)
                &&& final(self)@ == held.skip(crate::wire::evicted(outcome))
                &&& final(self).limit() == old(self).limit()
                &&& match result {
                    None => outcome == Outcome::Incomplete,
                    Some(Decoded::Junk(kind)) => outcome is Junk && outcome->kind == kind,
                    Some(Decoded::Frame(body)) => outcome is Frame && bytes_view(body)
                        == crate::wire::body_of(held, outcome->body_len),
                }
            }),
    {
        let filled_len: usize = self.parser.fill(buf_as_slice(src));
        let _ = buf_split_to(src, filled_len);
        match self.parser.read() {
            Err(Error::Incomplete) => {
                assert(self.parser@.skip(0) =~= self.parser@);
                None
            },
            Ok(token) => {
                let body = self.parser.get_body(&token);
                let mut buf = buf_with_capacity(token.body_size());
                buf_extend(&mut buf, body.0);
                buf_extend(&mut buf, body.1);
                assert(Seq::<u8>::empty() + body.0@ + body.1@ =~= body.0@ + body.1@);
                let order: ConsumeToken = ConsumeToken::from(token);
                self.parser.consume(order);
                Some(Decoded::Frame(buf_freeze(buf)))
            },
            Err(Error::Junk { token, kind }) => {
                self.parser.consume(token);
                Some(Decoded::Junk(kind))
            },
        }
    }
}

} // verus!
