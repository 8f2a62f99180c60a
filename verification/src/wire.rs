//! The wire format and the parser's verdict on a buffer, as mathematics.
//!
//! Everything here is ghost code: the contracts of the parser, the encoder
//! and the decoder are stated over these functions.
use vstd::prelude::*;
use crate::parser::JunkKind;

verus! {

/// The start marker as a byte sequence.
pub open spec fn stx() -> Seq<u8> {
    seq![0xeb_u8, 0x90_u8]
}

/// The end marker as a byte sequence.
pub open spec fn etx() -> Seq<u8> {
    seq![0xc5_u8, 0x79_u8]
}

/// The markers as constants are the markers as byte sequences, and the
/// markers as numbers are those bytes read big-endian.
pub proof fn lemma_markers()
    ensures
        crate::STX@ == stx(),
        crate::ETX@ == etx(),
        crate::STX_WORD == word_at(stx(), 0),
        crate::ETX_WORD == word_at(etx(), 0),
{
    assert(crate::STX@ =~= stx());
    assert(crate::ETX@ =~= etx());
}

/// The big-endian number held by the two bytes at `at`.
pub open spec fn word_at(bytes: Seq<u8>, at: int) -> int
    recommends
        0 <= at,
        at + 2 <= bytes.len(),
{
    bytes[at] as int * 256 + bytes[at + 1] as int
}

/// The two bytes of a big-endian 16-bit field holding `value`.
pub open spec fn word_bytes(value: int) -> Seq<u8>
    recommends
        0 <= value <= u16::MAX,
{
    seq![(value / 256) as u8, (value % 256) as u8]
}

/// Whether the start marker stands at offset `at`.
pub open spec fn stx_at(bytes: Seq<u8>, at: int) -> bool {
    &&& 0 <= at
    &&& at + 2 <= bytes.len()
    &&& bytes[at] == 0xeb_u8
    &&& bytes[at + 1] == 0x90_u8
}

/// Whether the start marker occurs anywhere.
pub open spec fn has_stx(bytes: Seq<u8>) -> bool {
    exists|at: int| stx_at(bytes, at)
}

/// Whether `at` is the offset of the first start marker.
pub open spec fn is_first_stx(bytes: Seq<u8>, at: int) -> bool {
    &&& stx_at(bytes, at)
    &&& forall|before: int| 0 <= before < at ==> !stx_at(bytes, before)
}

/// Offset of the first start marker, where there is one.
pub open spec fn first_stx(bytes: Seq<u8>) -> int {
    choose|at: int| is_first_stx(bytes, at)
}

/// A frame-shaped byte sequence: start marker, length of `body`, `body`, the
/// number `sum` where the checksum belongs, and `end` where the end marker
/// belongs.
pub open spec fn frame_with(body: Seq<u8>, sum: int, end: Seq<u8>) -> Seq<u8>
    recommends
        body.len() <= u16::MAX,
        0 <= sum <= u16::MAX,
        end.len() == 2,
{
    stx() + word_bytes(body.len() as int) + body + word_bytes(sum) + end
}

/// The wire form of a frame with the given body.
pub open spec fn frame_bytes(body: Seq<u8>) -> Seq<u8>
    recommends
        body.len() <= u16::MAX,
{
    frame_with(body, crate::crc::crc16(body) as int, etx())
}

/// The body of the frame that starts the buffer, given its length.
pub open spec fn body_of(bytes: Seq<u8>, body_len: int) -> Seq<u8>
    recommends
        0 <= body_len,
        4 + body_len <= bytes.len(),
{
    bytes.subrange(4, 4 + body_len)
}

/// What one read decides about a buffer.
pub enum Outcome {
    /// More input is needed; nothing is to be evicted.
    Incomplete,
    /// The first `skip` bytes are to be evicted as junk of the given kind.
    Junk { skip: int, kind: JunkKind },
    /// A valid frame with a body of `body_len` bytes starts the buffer.
    Frame { body_len: int },
}

/// The verdict on a buffer that starts with the start marker.
pub open spec fn candidate_outcome(bytes: Seq<u8>, capacity: int) -> Outcome
    recommends
        bytes.len() >= 8,
{
    let body_len = word_at(bytes, 2);
    if body_len + 8 > capacity {
        Outcome::Junk { skip: 2, kind: JunkKind::InvalidLength }
    } else if bytes.len() < body_len + 8 {
        Outcome::Incomplete
    } else if word_at(bytes, 4 + body_len + 2) != crate::ETX_WORD {
        Outcome::Junk { skip: 2, kind: JunkKind::InvalidEtx }
    } else if word_at(bytes, 4 + body_len) != crate::crc::crc16(body_of(bytes, body_len)) {
        Outcome::Junk { skip: 2, kind: JunkKind::InvalidCrc }
    } else {
        Outcome::Frame { body_len }
    }
}

/// The verdict of one read on a buffer holding `bytes`, for a parser whose
/// buffer has room for `capacity` bytes.
pub open spec fn read_outcome(bytes: Seq<u8>, capacity: int) -> Outcome {
    if bytes.len() < 8 {
        Outcome::Incomplete
    } else if stx_at(bytes, 0) {
        candidate_outcome(bytes, capacity)
    } else if has_stx(bytes) {
        Outcome::Junk { skip: first_stx(bytes), kind: JunkKind::InvalidStx }
    } else {
        Outcome::Junk { skip: bytes.len() - 1, kind: JunkKind::InvalidStx }
    }
}

/// The bytes that a read's verdict tells the caller to evict.
pub open spec fn evicted(outcome: Outcome) -> int {
    match outcome {
        Outcome::Incomplete => 0,
        Outcome::Junk { skip, .. } => skip,
        Outcome::Frame { body_len } => body_len + 8,
    }
}

/// How many of `offered` bytes a buffer takes that holds `held` bytes and has
/// room for `capacity`.
pub open spec fn fill_accepts(held: int, capacity: int, offered: int) -> int {
    if offered < capacity - held {
        offered
    } else {
        capacity - held
    }
}

/// A first start marker is the only first start marker.
pub proof fn lemma_first_stx_unique(bytes: Seq<u8>, at: int)
    requires
        is_first_stx(bytes, at),
    ensures
        has_stx(bytes),
        first_stx(bytes) == at,
{
    let found = first_stx(bytes);
    assert(is_first_stx(bytes, found));
    if found < at {
        assert(!stx_at(bytes, found));
    }
    if at < found {
        assert(!stx_at(bytes, at));
    }
}

} // verus!
