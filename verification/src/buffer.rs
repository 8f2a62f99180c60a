//! The byte store behind a parser, and its backends.
use std::collections::VecDeque;
use vstd::prelude::*;

verus! {

/// A bounded first-in, first-out byte store.
///
/// Bytes are appended at the back and evicted from the front. The content is
/// read as a pair of slices: a store that wraps around hands out its logical
/// content in two physical parts.
pub trait Buffer {
    /// The bytes held, oldest first.
    spec fn content(&self) -> Seq<u8>;

    /// The number of bytes the store can hold.
    spec fn limit(&self) -> nat;

    /// The number of bytes the store can hold.
    fn capacity(&self) -> (n: usize)
        ensures
            n == self.limit(),
    ;

    /// The number of bytes held, which never exceeds the capacity.
    fn len(&self) -> (n: usize)
        ensures
            n == self.content().len(),
            n <= self.limit(),
    ;

    /// The content as two slices; the second follows the first.
    fn data(&self) -> (pair: (&[u8], &[u8]))
        ensures
            pair.0@ + pair.1@ == self.content(),
    ;

    /// Evicts the first `len` bytes.
    fn consume(&mut self, len: usize)
        requires
            len <= old(self).content().len(),
        ensures
            final(self).content() == old(self).content().skip(len as int),
            final(self).limit() == old(self).limit(),
    ;

    /// Appends all of `input`, which must fit.
    fn write(&mut self, input: &[u8])
        requires
            old(self).content().len() + input@.len() <= old(self).limit(),
        ensures
            final(self).content() == old(self).content() + input@,
            final(self).limit() == old(self).limit(),
    ;

    /// Whether the store holds no byte.
    fn is_empty(&self) -> (empty: bool)
        ensures
            empty == (self.content().len() == 0),
    {
        self.len() == 0
    }
}

/// A ring store of fixed capacity `N` that needs no allocation.
///
/// The content starts at `head` and wraps around the end of the array, so
/// eviction moves no byte.
pub struct Ring<const N: usize> {
    store: [u8; N],
    head: usize,
    len: usize,
}

impl<const N: usize> Ring<N> {
    #[verifier::type_invariant]
    spec fn inv(self) -> bool {
        &&& self.len <= N
        &&& (self.head < N || self.head == 0)
    }

    /// The array index of the `i`-th byte of the content.
    spec fn slot(self, i: int) -> int {
        if self.head + i < N {
            self.head + i
        } else {
            self.head + i - N
        }
    }

    /// The bytes held, oldest first.
    pub closed spec fn view(&self) -> Seq<u8> {
        Seq::new(self.len as nat, |i: int| self.store@[self.slot(i)])
    }

    /// An empty ring.
    pub fn new() -> (ring: Self)
        ensures
            ring@ == Seq::<u8>::empty(),
    {
        let ring = Ring { store: [0u8; N], head: 0, len: 0 };
        assert(ring@ =~= Seq::<u8>::empty());
        ring
    }
}

impl<const N: usize> Buffer for Ring<N> {
    open spec fn content(&self) -> Seq<u8> {
        self@
    }

    open spec fn limit(&self) -> nat {
        N as nat
    }

    fn capacity(&self) -> (n: usize) {
        N
    }

    fn len(&self) -> (n: usize) {
        proof {
            use_type_invariant(self);
            assert(self.limit() == N);
        }
        self.len
    }

    fn data(&self) -> (pair: (&[u8], &[u8])) {
        proof {
            use_type_invariant(self);
        }
        let all: &[u8] = self.store.as_slice();
        let room: usize = N - self.head;
        if self.len <= room {
            let pair = (&all[self.head..self.head + self.len], &all[0..0]);
            assert(pair.0@ + pair.1@ =~= self@);
            pair
        } else {
            let pair = (&all[self.head..N], &all[0..self.len - room]);
            assert(pair.0@ + pair.1@ =~= self@);
            pair
        }
    }

    fn consume(&mut self, len: usize) {
        proof {
            use_type_invariant(&*self);
        }
        let room: usize = N - self.head;
        if len >= room {
            self.head = len - room;
        } else {
            self.head = self.head + len;
        }
        self.len = self.len - len;
        assert(self@ =~= old(self)@.skip(len as int));
    }

    fn write(&mut self, input: &[u8]) {
        proof {
            use_type_invariant(&*self);
        }
        let mut i: usize = 0;
        while i < input.len()
            invariant
                i <= input@.len(),
                self.head == old(self).head,
                self.len == old(self).len + i,
                old(self).len + input@.len() <= N,
                self.head < N || self.head == 0,
                self@ == old(self)@ + input@.subrange(0, i as int),
            decreases input@.len() - i,
        {
            let room: usize = N - self.head;
            let at: usize = if self.len < room {
                self.head + self.len
            } else {
                self.len - room
            };
            let ghost before = self@;
            self.store[at] = input[i];
            self.len = self.len + 1;
            i = i + 1;
            assert(self@ =~= before.push(input@[i - 1]));
            assert(input@.subrange(0, i as int) =~= input@.subrange(0, i - 1).push(input@[i - 1]));
        }
        assert(input@.subrange(0, i as int) =~= input@);
    }
}

/// A contiguous store of fixed capacity `N` that needs no allocation.
///
/// The content always starts at the front of the array, so it is read as
/// one slice; eviction shifts what remains to the front.
pub struct Linear<const N: usize> {
    store: [u8; N],
    len: usize,
}

impl<const N: usize> Linear<N> {
    #[verifier::type_invariant]
    spec fn inv(self) -> bool {
        self.len <= N
    }

    /// The bytes held, oldest first.
    pub closed spec fn view(&self) -> Seq<u8> {
        self.store@.subrange(0, self.len as int)
    }

    /// An empty store.
    pub fn new() -> (store: Self)
        ensures
            store@ == Seq::<u8>::empty(),
    {
        let store = Linear { store: [0u8; N], len: 0 };
        assert(store@ =~= Seq::<u8>::empty());
        store
    }
}

impl<const N: usize> Buffer for Linear<N> {
    open spec fn content(&self) -> Seq<u8> {
        self@
    }

    open spec fn limit(&self) -> nat {
        N as nat
    }

    fn capacity(&self) -> (n: usize) {
        N
    }

    fn len(&self) -> (n: usize) {
        proof {
            use_type_invariant(self);
            assert(self.limit() == N);
        }
        self.len
    }

    fn data(&self) -> (pair: (&[u8], &[u8]))
        ensures
            pair.1@.len() == 0,
    {
        proof {
            use_type_invariant(self);
        }
        let all: &[u8] = self.store.as_slice();
        let pair = (&all[0..self.len], &all[0..0]);
        assert(pair.0@ + pair.1@ =~= self@);
        pair
    }

    fn consume(&mut self, len: usize) {
        proof {
            use_type_invariant(&*self);
        }
        let kept: usize = self.len - len;
        let mut i: usize = 0;
        while i < kept
            invariant
                i <= kept,
                kept + len == self.len,
                self.len == old(self).len,
                self.len <= N,
                forall|j: int| 0 <= j < i ==> self.store@[j] == old(self).store@[j + len],
                forall|j: int| i <= j < N ==> self.store@[j] == old(self).store@[j],
            decreases kept - i,
        {
            self.store[i] = self.store[i + len];
            i = i + 1;
        }
        self.len = kept;
        assert(self@ =~= old(self)@.skip(len as int));
    }

    fn write(&mut self, input: &[u8]) {
        proof {
            use_type_invariant(&*self);
        }
        let mut i: usize = 0;
        while i < input.len()
            invariant
                i <= input@.len(),
                self.len == old(self).len + i,
                old(self).len + input@.len() <= N,
                self@ == old(self)@ + input@.subrange(0, i as int),
            decreases input@.len() - i,
        {
            let ghost before = self@;
            self.store[self.len] = input[i];
            self.len = self.len + 1;
            i = i + 1;
            assert(self@ =~= before.push(input@[i - 1]));
            assert(input@.subrange(0, i as int) =~= input@.subrange(0, i - 1).push(input@[i - 1]));
        }
        assert(input@.subrange(0, i as int) =~= input@);
    }
}

/// `VecDeque::as_slices` of the standard library.
///
/// Trusted: the two slices hold, in order, the content of the deque.
#[verifier::external_body]
fn deque_slices(deque: &VecDeque<u8>) -> (pair: (&[u8], &[u8]))
    ensures
        pair.0@ + pair.1@ == deque@,
{
    deque.as_slices()
}

/// A ring store on the heap, bounded by a capacity chosen at construction.
pub struct HeapRing {
    store: VecDeque<u8>,
    limit: usize,
}

impl HeapRing {
    #[verifier::type_invariant]
    spec fn inv(self) -> bool {
        self.store@.len() <= self.limit
    }

    /// The bytes held, oldest first.
    pub closed spec fn view(&self) -> Seq<u8> {
        self.store@
    }

    /// The capacity chosen at construction.
    pub closed spec fn bound(&self) -> nat {
        self.limit as nat
    }

    /// An empty ring with room for `capacity` bytes.
    pub fn with_capacity(capacity: usize) -> (ring: Self)
        ensures
            ring@ == Seq::<u8>::empty(),
            ring.bound() == capacity,
    {
        HeapRing { store: VecDeque::with_capacity(capacity), limit: capacity }
    }
}

impl Buffer for HeapRing {
    open spec fn content(&self) -> Seq<u8> {
        self@
    }

    open spec fn limit(&self) -> nat {
        self.bound()
    }

    fn capacity(&self) -> (n: usize) {
        self.limit
    }

    fn len(&self) -> (n: usize) {
        proof {
            use_type_invariant(self);
            assert(self.limit() == self.limit);
        }
        self.store.len()
    }

    fn data(&self) -> (pair: (&[u8], &[u8])) {
        deque_slices(&self.store)
    }

    fn consume(&mut self, len: usize) {
        proof {
            use_type_invariant(&*self);
        }
        let mut store: VecDeque<u8> = VecDeque::new();
        std::mem::swap(&mut self.store, &mut store);
        let mut done: usize = 0;
        while done < len
            invariant
                done <= len <= old(self).store@.len(),
                store@ == old(self).store@.skip(done as int),
            decreases len - done,
        {
            let _ = store.pop_front();
            done = done + 1;
            assert(store@ =~= old(self).store@.skip(done as int));
        }
        std::mem::swap(&mut self.store, &mut store);
    }

    fn write(&mut self, input: &[u8]) {
        proof {
            use_type_invariant(&*self);
        }
        let mut store: VecDeque<u8> = VecDeque::new();
        std::mem::swap(&mut self.store, &mut store);
        let mut i: usize = 0;
        while i < input.len()
            invariant
                i <= input@.len(),
                store@ == old(self).store@ + input@.subrange(0, i as int),
            decreases input@.len() - i,
        {
            store.push_back(input[i]);
            i = i + 1;
            assert(store@ =~= old(self).store@ + input@.subrange(0, i as int));
        }
        assert(input@.subrange(0, i as int) =~= input@);
        std::mem::swap(&mut self.store, &mut store);
    }
}

} // verus!
