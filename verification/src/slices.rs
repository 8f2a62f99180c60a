//! Arithmetic on a two-slice view: one logical byte range that a ring buffer
//! hands out as two physical slices, the second following the first.
use vstd::prelude::*;

verus! {

/// The logical byte range that a pair of slices stands for.
pub open spec fn joined(pair: (&[u8], &[u8])) -> Seq<u8> {
    pair.0@ + pair.1@
}

/// The view from logical offset `start` to the end.
pub fn slices_start<'a>(pair: (&'a [u8], &'a [u8]), start: usize) -> (rest: (&'a [u8], &'a [u8]))
    requires
        start <= pair.0@.len() + pair.1@.len(),
    ensures
        joined(rest) == joined(pair).subrange(start as int, joined(pair).len() as int),
        rest.0@.len() + rest.1@.len() == pair.0@.len() + pair.1@.len() - start,
{
    let (a, b) = pair;
    let empty: &[u8] = &b[0..0];
    if start < a.len() {
        let rest = (&a[start..a.len()], b);
        assert(joined(rest) =~= joined(pair).subrange(start as int, joined(pair).len() as int));
        rest
    } else {
        let rest = (empty, &b[start - a.len()..b.len()]);
        assert(joined(rest) =~= joined(pair).subrange(start as int, joined(pair).len() as int));
        rest
    }
}

/// The view of the first `endx` logical bytes.
pub fn slices_endx<'a>(pair: (&'a [u8], &'a [u8]), endx: usize) -> (front: (&'a [u8], &'a [u8]))
    requires
        endx <= pair.0@.len() + pair.1@.len(),
    ensures
        joined(front) == joined(pair).subrange(0, endx as int),
        front.0@.len() + front.1@.len() == endx,
{
    let (a, b) = pair;
    if endx <= a.len() {
        let front = (&a[0..endx], &b[0..0]);
        assert(joined(front) =~= joined(pair).subrange(0, endx as int));
        front
    } else {
        let front = (a, &b[0..endx - a.len()]);
        assert(joined(front) =~= joined(pair).subrange(0, endx as int));
        front
    }
}

/// The big-endian 16-bit number at logical offset `index`, whether its two
/// bytes lie in one slice or one in each.
pub fn slices_read_u16(pair: (&[u8], &[u8]), index: usize) -> (value: u16)
    requires
        index + 2 <= pair.0@.len() + pair.1@.len(),
    ensures
        value == crate::wire::word_at(joined(pair), index as int),
{
    let (a, b) = pair;
    let (hi, lo): (u8, u8) = if index < a.len() {
        if index + 1 < a.len() {
            (a[index], a[index + 1])
        } else {
            (a[index], b[0])
        }
    } else {
        let within: usize = index - a.len();
        (b[within], b[within + 1])
    };
    (hi as u16) * 256 + (lo as u16)
}

} // verus!
