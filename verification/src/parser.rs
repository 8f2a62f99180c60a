//! The incremental frame parser.
//!
//! A parser owns one buffer and keeps no other state: every read decides anew
//! from what the buffer holds. The cycle is fill, read, then consume what the
//! read told to evict.
use core::marker::PhantomData;
use vstd::prelude::*;
use crate::buffer::Buffer;
use crate::slices::{slices_endx, slices_read_u16, slices_start};
use crate::wire::Outcome;
use crate::{CRC_SIZE, ETX_WORD, FOOTER_SIZE, HEADER_SIZE, STX_SIZE, STX_WORD};

verus! {

/// Why a stretch of buffered bytes cannot be a frame.
#[derive(Debug, Clone, Copy, PartialEq, Eq, Structural)]
pub enum JunkKind {
    /// The bytes do not begin with the start marker.
    InvalidStx,
    /// The length field announces a frame that the buffer can never hold.
    InvalidLength,
    /// The stored checksum is not that of the body.
    InvalidCrc,
    /// The end marker is not where the length field puts it.
    InvalidEtx,
}

/// Handle on a validated frame at the front of a parser's buffer.
///
/// It borrows the parser, so the buffer cannot change while the body is read
/// through it. Turning it into a [`ConsumeToken`] ends the borrow.
pub struct FrameToken<'a> {
    body_size: usize,
    phantom: PhantomData<&'a ()>,
}

impl<'a> FrameToken<'a> {
    #[verifier::type_invariant]
    spec fn inv(self) -> bool {
        self.body_size <= u16::MAX
    }

    /// Length of the frame's body.
    pub closed spec fn spec_body_size(&self) -> usize {
        self.body_size
    }

    /// Length of the frame's body.
    #[verifier::when_used_as_spec(spec_body_size)]
    pub fn body_size(&self) -> (n: usize)
        ensures
            n == self.spec_body_size(),
            n <= u16::MAX,
    {
        proof {
            use_type_invariant(self);
        }
        self.body_size
    }

    /// The same handle, cut loose from the parser it was read from.
    ///
    /// The caller takes over the duty of not changing the buffer while the
    /// handle is in use.
    pub fn forge<'b>(self) -> (token: FrameToken<'b>)
        ensures
            token.spec_body_size() == self.spec_body_size(),
    {
        proof {
            use_type_invariant(&self);
        }
        FrameToken { body_size: self.body_size, phantom: PhantomData }
    }
}

/// An order to evict a number of bytes from the front of the buffer.
pub struct ConsumeToken {
    len: usize,
}

impl ConsumeToken {
    /// Number of bytes to evict.
    pub closed spec fn spec_len(&self) -> usize {
        self.len
    }

    /// Number of bytes to evict.
    #[verifier::when_used_as_spec(spec_len)]
    pub fn len(&self) -> (n: usize)
        ensures
            n == self.spec_len(),
    {
        self.len
    }
}

impl<'a> From<FrameToken<'a>> for ConsumeToken {
    /// The order to evict the whole frame: header, body and footer.
    fn from(ft: FrameToken<'a>) -> (token: ConsumeToken)
        ensures
            token.spec_len() == ft.spec_body_size() + 8,
    {
        proof {
            use_type_invariant(&ft);
        }
        let len: usize = ft.body_size + HEADER_SIZE + FOOTER_SIZE;
        ConsumeToken { len }
    }
}

impl<'a> vstd::std_specs::convert::FromSpecImpl<FrameToken<'a>> for ConsumeToken {
    open spec fn obeys_from_spec() -> bool {
        true
    }

    closed spec fn from_spec(ft: FrameToken<'a>) -> ConsumeToken {
        ConsumeToken { len: (ft.body_size + 8) as usize }
    }
}

/// What a read returns when no frame is ready.
pub enum Error {
    /// More input is needed; the buffer is left as it is.
    Incomplete,
    /// The front of the buffer is junk: consume `token`, then read again.
    Junk { token: ConsumeToken, kind: JunkKind },
}

/// The verdict on a complete candidate frame whose end marker is in place:
/// the frame is accepted where the checksum stored in it is the checksum
/// computed over its body, and is junk otherwise, to be skipped by the width
/// of the start marker.
pub fn check_crc<'a>(body_size: u16, expected_crc: u16, actual_crc: u16) -> (result: Result<
    FrameToken<'a>,
    Error,
>)
    ensures
        match result {
            Ok(token) => expected_crc == actual_crc && token.body_size() == body_size,
            Err(Error::Junk { token, kind }) => {
                &&& expected_crc != actual_crc
                &&& token.len() == STX_SIZE
                &&& kind == JunkKind::InvalidCrc
            },
            Err(Error::Incomplete) => false,
        },
{
    if expected_crc != actual_crc {
        return Err(
            Error::Junk { token: ConsumeToken { len: STX_SIZE }, kind: JunkKind::InvalidCrc },
        );
    }
    Ok(FrameToken { body_size: body_size as usize, phantom: PhantomData })
}

/// Incremental parser over a buffer `B`.
pub struct Parser<B> {
    buf: B,
}

impl<B: Buffer> Parser<B> {
    /// The buffered bytes, oldest first.
    pub closed spec fn view(&self) -> Seq<u8> {
        self.buf.content()
    }

    /// The buffer's capacity: the largest frame, header and footer included,
    /// that the parser can recognise.
    pub closed spec fn limit(&self) -> nat {
        self.buf.limit()
    }

    /// Offset of the first start marker in the buffer.
    pub fn find_stx(&self) -> (found: Option<usize>)
        ensures
            match found {
                Some(at) => crate::wire::is_first_stx(self@, at as int),
                None => !crate::wire::has_stx(self@),
            },
    {
        let pair = self.buf.data();
        let len: usize = self.buf.len();
        let mut at: usize = 0;
        while at + 1 < len
            invariant
                len == self@.len(),
                at == 0 || at < len,
                crate::slices::joined(pair) == self@,
                forall|before: int| 0 <= before < at ==> !crate::wire::stx_at(self@, before),
            decreases len - at,
        {
            if slices_read_u16(pair, at) == STX_WORD {
                return Some(at);
            }
            at = at + 1;
        }
        None
    }

    /// A parser over `buf`, keeping what `buf` already holds.
    pub fn with_buffer(buf: B) -> (parser: Self)
        ensures
            parser@ == buf.content(),
            parser.limit() == buf.limit(),
    {
        Self { buf }
    }

    /// Appends as much of `input` as fits and returns how many bytes were
    /// taken, from the front of `input`.
    pub fn fill(&mut self, input: &[u8]) -> (accepted: usize)
        ensures
            accepted == crate::wire::fill_accepts(
                old(self)@.len() as int,
                old(self).limit() as int,
                input@.len() as int,
            ),
            final(self)@ == old(self)@ + input@.subrange(0, accepted as int),
            final(self).limit() == old(self).limit(),
            final(self)@.len() <= final(self).limit(),
    {
        let free: usize = self.buf.capacity() - self.buf.len();
        let copy_len: usize = if input.len() < free {
            input.len()
        } else {
            free
        };
        self.buf.write(&input[0..copy_len]);
        copy_len
    }

    /// Whether the buffer has no room left.
    pub fn is_full(&self) -> (full: bool)
        ensures
            full == (self@.len() == self.limit()),
            self@.len() <= self.limit(),
    {
        self.buf.len() == self.buf.capacity()
    }

    /// Evicts from the front of the buffer the bytes that `token` orders.
    pub fn consume(&mut self, token: ConsumeToken)
        requires
            token.len() <= old(self)@.len(),
        ensures
            final(self)@ == old(self)@.skip(token.len() as int),
            final(self).limit() == old(self).limit(),
    {
        let ConsumeToken { len } = token;
        self.buf.consume(len);
    }

    /// Decides what stands at the front of the buffer.
    ///
    /// Nothing is evicted: on `Ok` the caller reads the body through the
    /// token and consumes it, on junk the caller consumes the token that
    /// comes with it.
    pub fn read<'a>(&'a self) -> (result: Result<FrameToken<'a>, Error>)
        ensures
            crate::wire::read_outcome(self@, self.limit() as int) == (match result {
                Ok(token) => Outcome::Frame { body_len: token.body_size() as int },
                Err(Error::Incomplete) => Outcome::Incomplete,
                Err(Error::Junk { token, kind }) => Outcome::Junk { skip: token.len() as int, kind },
            }),
            match result {
                Ok(token) => token.body_size() + 8 <= self@.len(),
                Err(Error::Incomplete) => true,
                Err(Error::Junk { token, kind }) => 0 < token.len() <= self@.len(),
            },
            self@.len() <= self.limit(),
    {
        let len: usize = self.buf.len();
        if len < HEADER_SIZE + FOOTER_SIZE {
            return Err(Error::Incomplete);
        }
        match self.find_stx() {
            Some(pos) => {
                proof {
                    crate::wire::lemma_first_stx_unique(self@, pos as int);
                }
                if pos != 0 {
                    return Err(
                        Error::Junk { token: ConsumeToken { len: pos }, kind: JunkKind::InvalidStx },
                    );
                }
                let stored_size: u16 = self.body_size();
                let body_size: usize = stored_size as usize;
                let frame_size: usize = body_size + HEADER_SIZE + FOOTER_SIZE;
                if frame_size > self.max_frame_size() {
                    return Err(
                        Error::Junk {
                            token: ConsumeToken { len: STX_SIZE },
                            kind: JunkKind::InvalidLength,
                        },
                    );
                }
                if len < frame_size {
                    return Err(Error::Incomplete);
                }
                let tail = slices_start(self.buf.data(), HEADER_SIZE);
                let footer = slices_start(tail, body_size);
                let body = slices_endx(tail, body_size);
                let expected_crc: u16 = slices_read_u16(footer, 0);
                let etx: u16 = slices_read_u16(footer, CRC_SIZE);
                assert(crate::slices::joined(body) =~= crate::wire::body_of(
                    self@,
                    body_size as int,
                ));
                if etx != ETX_WORD {
                    return Err(
                        Error::Junk {
                            token: ConsumeToken { len: STX_SIZE },
                            kind: JunkKind::InvalidEtx,
                        },
                    );
                }
                let actual_crc: u16 = crate::crc::digest_pair(body.0, body.1);
                check_crc(stored_size, expected_crc, actual_crc)
            },
            None => Err(
                Error::Junk {
                    token: ConsumeToken { len: len - (STX_SIZE - 1) },
                    kind: JunkKind::InvalidStx,
                },
            ),
        }
    }

    /// The body of the frame that `token` stands for, as two slices of the
    /// buffer; the second follows the first.
    pub fn get_body<'a>(&'a self, token: &FrameToken) -> (body: (&'a [u8], &'a [u8]))
        requires
            HEADER_SIZE + token.body_size() <= self@.len(),
        ensures
            crate::slices::joined(body) == crate::wire::body_of(self@, token.body_size() as int),
            body.0@.len() + body.1@.len() == token.body_size(),
    {
        let body = slices_endx(slices_start(self.buf.data(), HEADER_SIZE), token.body_size());
        assert(crate::slices::joined(body) =~= crate::wire::body_of(
            self@,
            token.body_size() as int,
        ));
        body
    }

    /// The largest frame, header and footer included, that can be recognised.
    pub fn max_frame_size(&self) -> (size: usize)
        ensures
            size == self.limit(),
    {
        self.buf.capacity()
    }

    /// The length field of the frame at the front of the buffer.
    pub fn body_size(&self) -> (size: u16)
        requires
            self@.len() >= HEADER_SIZE,
        ensures
            size == crate::wire::word_at(self@, 2),
    {
        slices_read_u16(self.buf.data(), STX_SIZE)
    }
}

} // verus!
