//! What holds of framing and parsing together, proved over the wire format.
use vstd::prelude::*;
use crate::parser::JunkKind;
use crate::wire::Outcome;

verus! {

/// A 16-bit field holds the number that was written to it.
pub proof fn lemma_word_bytes(value: int)
    requires
        0 <= value <= u16::MAX,
    ensures
        crate::wire::word_bytes(value).len() == 2,
        crate::wire::word_at(crate::wire::word_bytes(value), 0) == value,
{
    let field = crate::wire::word_bytes(value);
    assert(field[0] == (value / 256) as u8);
    assert(field[1] == (value % 256) as u8);
}

/// Two bytes keep their value where bytes are put in front of them and
/// behind them.
proof fn lemma_word_in_place(left: Seq<u8>, field: Seq<u8>, right: Seq<u8>)
    requires
        field.len() == 2,
    ensures
        crate::wire::word_at(left + field + right, left.len() as int) == crate::wire::word_at(
            field,
            0,
        ),
{
    let all = left + field + right;
    assert(all[left.len() as int] == field[0]);
    assert(all[left.len() as int + 1] == field[1]);
}

/// The layout of a frame-shaped sequence followed by anything: where its
/// fields stand and what they hold.
pub proof fn lemma_frame_layout(body: Seq<u8>, sum: int, end: Seq<u8>, rest: Seq<u8>)
    requires
        body.len() <= u16::MAX,
        0 <= sum <= u16::MAX,
        end.len() == 2,
    ensures
        ({
            let bytes = crate::wire::frame_with(body, sum, end) + rest;
            let n = body.len() as int;
            &&& bytes.len() == n + 8 + rest.len()
            &&& crate::wire::stx_at(bytes, 0)
            &&& crate::wire::word_at(bytes, 2) == n
            &&& crate::wire::body_of(bytes, n) == body
            &&& crate::wire::word_at(bytes, 4 + n) == sum
            &&& crate::wire::word_at(bytes, 4 + n + 2) == crate::wire::word_at(end, 0)
            &&& bytes.skip(n + 8) == rest
        }),
{
    let bytes = crate::wire::frame_with(body, sum, end) + rest;
    let n = body.len() as int;
    let stx = crate::wire::stx();
    let len_field = crate::wire::word_bytes(n);
    let sum_field = crate::wire::word_bytes(sum);
    lemma_word_bytes(n);
    lemma_word_bytes(sum);
    assert(bytes.len() == n + 8 + rest.len());
    assert(crate::wire::stx_at(bytes, 0)) by {
        assert(bytes =~= stx + (len_field + body + sum_field + end + rest));
    }
    assert(crate::wire::word_at(bytes, 2) == n) by {
        assert(bytes =~= stx + len_field + (body + sum_field + end + rest));
        lemma_word_in_place(stx, len_field, body + sum_field + end + rest);
    }
    assert(crate::wire::body_of(bytes, n) == body) by {
        assert(bytes =~= (stx + len_field) + body + (sum_field + end + rest));
        assert(crate::wire::body_of(bytes, n) =~= body);
    }
    assert(crate::wire::word_at(bytes, 4 + n) == sum) by {
        assert(bytes =~= (stx + len_field + body) + sum_field + (end + rest));
        lemma_word_in_place(stx + len_field + body, sum_field, end + rest);
    }
    assert(crate::wire::word_at(bytes, 4 + n + 2) == crate::wire::word_at(end, 0)) by {
        assert(bytes =~= (stx + len_field + body + sum_field) + end + rest);
        lemma_word_in_place(stx + len_field + body + sum_field, end, rest);
    }
    assert(bytes.skip(n + 8) =~= rest);
}

/// The verdict on a buffer that starts with the start marker, from what its
/// fields hold.
proof fn lemma_candidate(bytes: Seq<u8>, capacity: int)
    requires
        bytes.len() >= 8,
        crate::wire::stx_at(bytes, 0),
    ensures
        ({
            let n = crate::wire::word_at(bytes, 2);
            crate::wire::read_outcome(bytes, capacity) == if n + 8 > capacity {
                Outcome::Junk { skip: 2, kind: JunkKind::InvalidLength }
            } else if bytes.len() < n + 8 {
                Outcome::Incomplete
            } else if crate::wire::word_at(bytes, 4 + n + 2) != crate::ETX_WORD {
                Outcome::Junk { skip: 2, kind: JunkKind::InvalidEtx }
            } else if crate::wire::word_at(bytes, 4 + n) != crate::crc::crc16(
                crate::wire::body_of(bytes, n),
            ) {
                Outcome::Junk { skip: 2, kind: JunkKind::InvalidCrc }
            } else {
                Outcome::Frame { body_len: n }
            }
        }),
{
}

/// A frame at the front of the buffer is read as that frame, whatever
/// follows it, as long as the buffer has room for it.
pub proof fn lemma_frame_then_rest(body: Seq<u8>, rest: Seq<u8>, capacity: int)
    requires
        body.len() <= u16::MAX,
        body.len() + 8 <= capacity,
    ensures
        ({
            let bytes = crate::wire::frame_bytes(body) + rest;
            &&& bytes.len() == body.len() + 8 + rest.len()
            &&& crate::wire::read_outcome(bytes, capacity) == Outcome::Frame {
                body_len: body.len() as int,
            }
            &&& crate::wire::body_of(bytes, body.len() as int) == body
            &&& crate::wire::word_at(bytes, 4 + body.len() as int) == crate::crc::crc16(body)
            &&& bytes.skip(body.len() as int + 8) == rest
        }),
{
    let bytes = crate::wire::frame_bytes(body) + rest;
    lemma_frame_layout(body, crate::crc::crc16(body) as int, crate::wire::etx(), rest);
    crate::wire::lemma_markers();
    lemma_candidate(bytes, capacity);
}

/// Round trip: the wire form of any body of up to 65,535 bytes is read as
/// one frame with exactly that body, and the checksum it carries is that of
/// the body.
pub proof fn lemma_round_trip(body: Seq<u8>, capacity: int)
    requires
        body.len() <= u16::MAX,
        body.len() + 8 <= capacity,
    ensures
        ({
            let bytes = crate::wire::frame_bytes(body);
            &&& bytes.len() == body.len() + 8
            &&& crate::wire::read_outcome(bytes, capacity) == Outcome::Frame {
                body_len: body.len() as int,
            }
            &&& crate::wire::body_of(bytes, body.len() as int) == body
            &&& crate::wire::word_at(bytes, 4 + body.len() as int) == crate::crc::crc16(body)
        }),
{
    lemma_frame_then_rest(body, Seq::empty(), capacity);
    assert(crate::wire::frame_bytes(body) + Seq::<u8>::empty() =~= crate::wire::frame_bytes(body));
}

/// A frame of which only a proper prefix has arrived reads as incomplete, so
/// nothing of it is evicted while the rest is awaited.
pub proof fn lemma_prefix_incomplete(body: Seq<u8>, capacity: int, arrived: int)
    requires
        body.len() <= u16::MAX,
        body.len() + 8 <= capacity,
        0 <= arrived < body.len() + 8,
    ensures
        crate::wire::read_outcome(crate::wire::frame_bytes(body).subrange(0, arrived), capacity)
            == Outcome::Incomplete,
{
    let bytes = crate::wire::frame_bytes(body);
    let prefix = bytes.subrange(0, arrived);
    if arrived >= 8 {
        lemma_frame_layout(body, crate::crc::crc16(body) as int, crate::wire::etx(), Seq::empty());
        assert(bytes + Seq::<u8>::empty() =~= bytes);
        assert(crate::wire::stx_at(prefix, 0));
        assert(crate::wire::word_at(prefix, 2) == crate::wire::word_at(bytes, 2));
        lemma_candidate(prefix, capacity);
    }
}

/// The first `upto` chunks, joined in order.
pub open spec fn joined_chunks(chunks: Seq<Seq<u8>>, upto: int) -> Seq<u8>
    decreases upto,
{
    if upto <= 0 {
        Seq::empty()
    } else {
        joined_chunks(chunks, upto - 1) + chunks[upto - 1]
    }
}

/// What an empty buffer of the given capacity holds after the first `upto`
/// chunks were offered to it one by one, nothing being evicted in between.
pub open spec fn delivered(chunks: Seq<Seq<u8>>, capacity: int, upto: int) -> Seq<u8>
    decreases upto,
{
    if upto <= 0 {
        Seq::empty()
    } else {
        let held = delivered(chunks, capacity, upto - 1);
        let chunk = chunks[upto - 1];
        held + chunk.subrange(
            0,
            crate::wire::fill_accepts(held.len() as int, capacity, chunk.len() as int),
        )
    }
}

/// The first `upto` chunks form a prefix of all of them, and a proper one
/// where a non-empty chunk is still to come.
proof fn lemma_joined_chunks_prefix(chunks: Seq<Seq<u8>>, upto: int)
    requires
        0 <= upto <= chunks.len(),
        forall|i: int| 0 <= i < chunks.len() ==> (#[trigger] chunks[i]).len() > 0,
    ensures
        joined_chunks(chunks, upto).len() <= joined_chunks(chunks, chunks.len() as int).len(),
        upto < chunks.len() ==> joined_chunks(chunks, upto).len() < joined_chunks(
            chunks,
            chunks.len() as int,
        ).len(),
        joined_chunks(chunks, upto) == joined_chunks(chunks, chunks.len() as int).subrange(
            0,
            joined_chunks(chunks, upto).len() as int,
        ),
    decreases chunks.len() - upto,
{
    let all = joined_chunks(chunks, chunks.len() as int);
    if upto == chunks.len() {
        assert(all =~= all.subrange(0, all.len() as int));
    } else {
        lemma_joined_chunks_prefix(chunks, upto + 1);
        let next = joined_chunks(chunks, upto + 1);
        assert(next == joined_chunks(chunks, upto) + chunks[upto]);
        assert(chunks[upto].len() > 0);
        assert(joined_chunks(chunks, upto) =~= all.subrange(
            0,
            joined_chunks(chunks, upto).len() as int,
        ));
    }
}

/// Incremental delivery: however the wire form of a frame is cut into
/// non-empty chunks, a parser with room for the frame that is offered the
/// chunks one by one takes each chunk whole, reads as incomplete after every
/// chunk but the last, and after the last reads the frame with the body that
/// delivery in one piece gives.
pub proof fn lemma_incremental_delivery(
    body: Seq<u8>,
    capacity: int,
    chunks: Seq<Seq<u8>>,
    upto: int,
)
    requires
        body.len() <= u16::MAX,
        body.len() + 8 <= capacity,
        forall|i: int| 0 <= i < chunks.len() ==> (#[trigger] chunks[i]).len() > 0,
        joined_chunks(chunks, chunks.len() as int) == crate::wire::frame_bytes(body),
        0 <= upto <= chunks.len(),
    ensures
        delivered(chunks, capacity, upto) == joined_chunks(chunks, upto),
        upto < chunks.len() ==> crate::wire::read_outcome(
            delivered(chunks, capacity, upto),
            capacity,
        ) == Outcome::Incomplete,
        upto == chunks.len() ==> {
            &&& crate::wire::read_outcome(delivered(chunks, capacity, upto), capacity)
                == Outcome::Frame { body_len: body.len() as int }
            &&& crate::wire::body_of(delivered(chunks, capacity, upto), body.len() as int) == body
        },
    decreases upto,
{
    let frame = crate::wire::frame_bytes(body);
    lemma_round_trip(body, capacity);
    lemma_joined_chunks_prefix(chunks, upto);
    if upto > 0 {
        lemma_incremental_delivery(body, capacity, chunks, upto - 1);
        let held = delivered(chunks, capacity, upto - 1);
        let chunk = chunks[upto - 1];
        assert(held.len() + chunk.len() == joined_chunks(chunks, upto).len());
        assert(chunk.subrange(0, chunk.len() as int) =~= chunk);
    }
    if upto < chunks.len() {
        lemma_prefix_incomplete(body, capacity, joined_chunks(chunks, upto).len() as int);
    } else {
        assert(joined_chunks(chunks, upto) == frame);
    }
}

/// Resynchronisation: with two frames in the buffer and, between them, junk
/// that holds no start marker, the reads and evictions go: the first frame;
/// one junk verdict for a missing start marker that covers exactly the junk;
/// the second frame; incomplete.
pub proof fn lemma_resynchronization(
    first: Seq<u8>,
    junk: Seq<u8>,
    last: Seq<u8>,
    capacity: int,
)
    requires
        first.len() <= u16::MAX,
        last.len() <= u16::MAX,
        junk.len() > 0,
        !crate::wire::has_stx(junk),
        first.len() + 8 + junk.len() + last.len() + 8 <= capacity,
    ensures
        ({
            let start = crate::wire::frame_bytes(first) + junk + crate::wire::frame_bytes(last);
            let after_first = start.skip(first.len() as int + 8);
            let after_junk = after_first.skip(junk.len() as int);
            let after_last = after_junk.skip(last.len() as int + 8);
            &&& crate::wire::read_outcome(start, capacity) == Outcome::Frame {
                body_len: first.len() as int,
            }
            &&& crate::wire::body_of(start, first.len() as int) == first
            &&& crate::wire::read_outcome(after_first, capacity) == Outcome::Junk {
                skip: junk.len() as int,
                kind: JunkKind::InvalidStx,
            }
            &&& crate::wire::read_outcome(after_junk, capacity) == Outcome::Frame {
                body_len: last.len() as int,
            }
            &&& crate::wire::body_of(after_junk, last.len() as int) == last
            &&& crate::wire::read_outcome(after_last, capacity) == Outcome::Incomplete
        }),
{
    let frame_first = crate::wire::frame_bytes(first);
    let frame_last = crate::wire::frame_bytes(last);
    let start = frame_first + junk + frame_last;
    let after_first = junk + frame_last;
    assert(start =~= frame_first + after_first);
    lemma_frame_then_rest(first, after_first, capacity);

    lemma_round_trip(last, capacity);
    lemma_frame_layout(last, crate::crc::crc16(last) as int, crate::wire::etx(), Seq::empty());
    assert(frame_last + Seq::<u8>::empty() =~= frame_last);
    let at = junk.len() as int;
    assert(crate::wire::stx_at(frame_last, 0));
    assert(crate::wire::stx_at(after_first, at)) by {
        assert(after_first[at] == frame_last[0]);
        assert(after_first[at + 1] == frame_last[1]);
    }
    assert forall|before: int| 0 <= before < at implies !crate::wire::stx_at(
        after_first,
        before,
    ) by {
        if before + 1 < at {
            assert(!crate::wire::stx_at(junk, before));
            assert(after_first[before] == junk[before]);
            assert(after_first[before + 1] == junk[before + 1]);
        } else {
            assert(after_first[before + 1] == frame_last[0]);
        }
    }
    crate::wire::lemma_first_stx_unique(after_first, at);
    assert(!crate::wire::stx_at(after_first, 0));

    assert(after_first.skip(at) =~= frame_last);
    assert(frame_last.skip(last.len() as int + 8).len() == 0);
}

/// A stored checksum that is not the checksum of the body makes the frame
/// junk with an invalid checksum: only the start marker is skipped, and the
/// frame is never accepted.
pub proof fn lemma_checksum_mismatch(body: Seq<u8>, sum: int, rest: Seq<u8>, capacity: int)
    requires
        body.len() <= u16::MAX,
        body.len() + 8 <= capacity,
        0 <= sum <= u16::MAX,
        sum != crate::crc::crc16(body),
    ensures
        crate::wire::read_outcome(
            crate::wire::frame_with(body, sum, crate::wire::etx()) + rest,
            capacity,
        ) == (Outcome::Junk { skip: 2, kind: JunkKind::InvalidCrc }),
{
    lemma_frame_layout(body, sum, crate::wire::etx(), rest);
    crate::wire::lemma_markers();
    lemma_candidate(crate::wire::frame_with(body, sum, crate::wire::etx()) + rest, capacity);
}

/// A body that was changed after the checksum was computed, so that its
/// checksum differs from the one stored, is junk with an invalid checksum.
pub proof fn lemma_tampered_body(
    body: Seq<u8>,
    tampered: Seq<u8>,
    rest: Seq<u8>,
    capacity: int,
)
    requires
        body.len() <= u16::MAX,
        body.len() + 8 <= capacity,
        tampered.len() == body.len(),
        crate::crc::crc16(tampered) != crate::crc::crc16(body),
    ensures
        crate::wire::read_outcome(
            crate::wire::frame_with(tampered, crate::crc::crc16(body) as int, crate::wire::etx())
                + rest,
            capacity,
        ) == (Outcome::Junk { skip: 2, kind: JunkKind::InvalidCrc }),
{
    lemma_checksum_mismatch(tampered, crate::crc::crc16(body) as int, rest, capacity);
}

/// Two bytes other than the end marker where the end marker belongs make the
/// frame junk with an invalid end marker, whatever the checksum field holds;
/// only the start marker is skipped.
pub proof fn lemma_bad_end_marker(
    body: Seq<u8>,
    sum: int,
    end: Seq<u8>,
    rest: Seq<u8>,
    capacity: int,
)
    requires
        body.len() <= u16::MAX,
        body.len() + 8 <= capacity,
        0 <= sum <= u16::MAX,
        end.len() == 2,
        end != crate::wire::etx(),
    ensures
        crate::wire::read_outcome(crate::wire::frame_with(body, sum, end) + rest, capacity) == (
        Outcome::Junk { skip: 2, kind: JunkKind::InvalidEtx }),
{
    lemma_frame_layout(body, sum, end, rest);
    crate::wire::lemma_markers();
    assert(crate::wire::word_at(end, 0) != crate::ETX_WORD) by {
        if end[0] == 0xc5_u8 && end[1] == 0x79_u8 {
            assert(end =~= crate::wire::etx());
        }
    }
    lemma_candidate(crate::wire::frame_with(body, sum, end) + rest, capacity);
}

/// A length field that announces a frame larger than the buffer's capacity
/// is junk with an invalid length as soon as eight bytes are buffered,
/// however many more have or have not arrived.
pub proof fn lemma_oversized_length(bytes: Seq<u8>, capacity: int)
    requires
        bytes.len() >= 8,
        crate::wire::stx_at(bytes, 0),
        crate::wire::word_at(bytes, 2) + 8 > capacity,
    ensures
        crate::wire::read_outcome(bytes, capacity) == (Outcome::Junk {
            skip: 2,
            kind: JunkKind::InvalidLength,
        }),
{
}

/// Every verdict but incomplete evicts at least one byte and no more than
/// are buffered, so a caller that consumes what each read orders always
/// makes progress; an accepted frame fits the capacity.
pub proof fn lemma_outcome_bounds(bytes: Seq<u8>, capacity: int)
    ensures
        match crate::wire::read_outcome(bytes, capacity) {
            Outcome::Incomplete => true,
            Outcome::Junk { skip, .. } => 0 < skip <= bytes.len(),
            Outcome::Frame { body_len } => {
                &&& 0 <= body_len <= u16::MAX
                &&& body_len + 8 <= bytes.len()
                &&& body_len + 8 <= capacity
            },
        },
{
    if bytes.len() >= 8 && !crate::wire::stx_at(bytes, 0) && crate::wire::has_stx(bytes) {
        let at = crate::wire::first_stx(bytes);
        assert(crate::wire::is_first_stx(bytes, at)) by {
            let some = choose|some: int| crate::wire::stx_at(bytes, some);
            lemma_first_stx_exists(bytes, some);
        }
    }
}

/// Where the start marker occurs, it occurs for a first time.
proof fn lemma_first_stx_exists(bytes: Seq<u8>, at: int)
    requires
        crate::wire::stx_at(bytes, at),
    ensures
        exists|first: int| crate::wire::is_first_stx(bytes, first),
    decreases at,
{
    if forall|before: int| 0 <= before < at ==> !crate::wire::stx_at(bytes, before) {
        assert(crate::wire::is_first_stx(bytes, at));
    } else {
        let before = choose|before: int| 0 <= before < at && crate::wire::stx_at(bytes, before);
        lemma_first_stx_exists(bytes, before);
    }
}

/// Backpressure loses nothing: what a full buffer did not take of an input
/// is taken when the rest is offered again after an eviction, and the buffer
/// then holds what it would hold had the bytes arrived in one piece.
pub proof fn lemma_refill_after_consume(
    held: Seq<u8>,
    capacity: int,
    input: Seq<u8>,
    evict: int,
)
    requires
        held.len() <= capacity,
        0 <= evict <= held.len() + crate::wire::fill_accepts(
            held.len() as int,
            capacity,
            input.len() as int,
        ),
    ensures
        ({
            let first = crate::wire::fill_accepts(held.len() as int, capacity, input.len() as int);
            let filled = held + input.subrange(0, first);
            let drained = filled.skip(evict);
            let rest = input.skip(first);
            let second = crate::wire::fill_accepts(drained.len() as int, capacity, rest.len() as int);
            let refilled = drained + rest.subrange(0, second);
            &&& 0 <= first <= input.len()
            &&& filled.len() <= capacity
            &&& first < input.len() ==> filled.len() == capacity
            &&& first < input.len() ==> second == if rest.len() < evict {
                rest.len() as int
            } else {
                evict
            }
            &&& refilled.len() <= capacity
            &&& refilled == (held + input.subrange(0, first + second)).skip(evict)
        }),
{
    let first = crate::wire::fill_accepts(held.len() as int, capacity, input.len() as int);
    let filled = held + input.subrange(0, first);
    let drained = filled.skip(evict);
    let rest = input.skip(first);
    let second = crate::wire::fill_accepts(drained.len() as int, capacity, rest.len() as int);
    let refilled = drained + rest.subrange(0, second);
    assert(refilled =~= (held + input.subrange(0, first + second)).skip(evict));
}

} // verus!
