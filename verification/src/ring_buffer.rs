//! Fixed-capacity scrollback for warm reattach.
//!
//! `append` copies whole slices, in one piece or in two where it wraps; it
//! never goes byte by byte.

use vstd::arithmetic::power2::*;
use vstd::bits::*;
use vstd::prelude::*;

verus! {

/// The last `n` elements of `s`, or all of them where there are fewer.
pub open spec fn tail(s: Seq<u8>, n: nat) -> Seq<u8> {
    if s.len() <= n {
        s
    } else {
        s.skip(s.len() - n)
    }
}

/// The pieces one after the other.
pub open spec fn concat(pieces: Seq<Seq<u8>>) -> Seq<u8> {
    pieces.flatten()
}

/// `<[T]>::copy_from_slice` copies every element of `src` into the slice,
/// which must have the same length.
pub assume_specification<T: Copy>[ <[T]>::copy_from_slice ](dst: &mut [T], src: &[T])
    requires
        old(dst)@.len() == src@.len(),
    ensures
        final(dst)@ == src@,
;

/// A fixed-capacity byte ring buffer. Once it is full, new bytes replace the
/// oldest ones: this is scrollback, not a log.
pub struct RingBuffer {
    buf: Vec<u8>,
    /// Physical index of the oldest valid byte.
    head: usize,
    /// Number of valid bytes, at most the capacity.
    len: usize,
}

/// The contents, oldest byte first.
impl View for RingBuffer {
    type V = Seq<u8>;

    closed spec fn view(&self) -> Seq<u8> {
        Seq::new(self.len as nat, |i: int| self.buf@[self.slot(i)])
    }
}

impl RingBuffer {
    /// The number of bytes that the buffer can hold.
    pub closed spec fn cap(&self) -> nat {
        self.buf@.len()
    }

    /// The physical index of the `i`-th byte after the oldest.
    spec fn slot(&self, i: int) -> int {
        (self.head + i) % (self.cap() as int)
    }

    /// The capacity is a power of two that an allocation can have, and the
    /// contents lie within it.
    pub closed spec fn wf(&self) -> bool {
        &&& is_pow2(self.cap() as int)
        &&& self.cap() <= isize::MAX
        &&& self.head < self.cap()
        &&& self.len <= self.cap()
    }

    /// Whether a buffer can have this capacity: it must be a power of two (so
    /// that an index wraps by a mask) and fit in one allocation.
    pub fn valid_capacity(capacity: usize) -> (ok: bool)
        ensures
            ok == (is_pow2(capacity as int) && capacity <= isize::MAX),
    {
        proof {
            reveal(is_pow2);
        }
        if capacity == 0 || capacity > isize::MAX as usize {
            return false;
        }
        let mut rest: usize = capacity;
        while rest % 2 == 0
            invariant
                rest > 0,
                is_pow2(rest as int) == is_pow2(capacity as int),
            decreases rest,
        {
            proof {
                reveal(is_pow2);
            }
            rest = rest / 2;
        }
        rest == 1
    }

    /// An empty buffer of the given capacity, which must be a power of two.
    pub fn new(capacity: usize) -> (r: Self)
        requires
            is_pow2(capacity as int),
            capacity <= isize::MAX,
        ensures
            r.wf(),
            r.cap() == capacity,
            r@ == Seq::<u8>::empty(),
    {
        proof {
            reveal(is_pow2);
        }
        let r = RingBuffer { buf: vec![0u8; capacity], head: 0, len: 0 };
        assert(r@ =~= Seq::<u8>::empty());
        r
    }

    /// The number of bytes that the buffer can hold.
    pub fn capacity(&self) -> (n: usize)
        ensures
            n == self.cap(),
    {
        self.buf.len()
    }

    /// The number of bytes that the buffer holds.
    pub fn len(&self) -> (n: usize)
        ensures
            n == self@.len(),
            self.wf() ==> n <= self.cap(),
    {
        self.len
    }

    /// Whether the buffer holds nothing.
    pub fn is_empty(&self) -> (r: bool)
        ensures
            r == (self@.len() == 0),
    {
        self.len == 0
    }

    /// Appends `data`: the contents are then the last bytes of what was there
    /// followed by `data`, as many as fit.
    pub fn append(&mut self, data: &[u8])
        requires
            old(self).wf(),
        ensures
            final(self).wf(),
            final(self).cap() == old(self).cap(),
            final(self)@ == tail(old(self)@ + data@, old(self).cap()),
    {
        let ghost before = *self;
        if data.len() == 0 {
            assert(before@ + data@ =~= before@);
            return;
        }
        let cap: usize = self.buf.len();
        let mask: usize = cap - 1;
        let ghost all = data@;
        let data: &[u8] = if data.len() >= cap {
            data.split_at(data.len() - cap).1
        } else {
            data
        };
        assert(data@ =~= tail(all, cap as nat));
        proof {
            lemma_mask((self.head + self.len) as usize, cap);
        }
        let write_pos: usize = (self.head + self.len) & mask;
        let room: usize = cap - write_pos;
        let first_len: usize = if room < data.len() {
            room
        } else {
            data.len()
        };
        let (front, rest) = data.split_at(first_len);
        write_at(&mut self.buf, write_pos, front);
        if first_len < data.len() {
            write_at(&mut self.buf, 0, rest);
        }
        let new_total: usize = self.len + data.len();
        if new_total > cap {
            proof {
                lemma_mask((write_pos + data@.len()) as usize, cap);
            }
            self.head = (write_pos + data.len()) & mask;
            self.len = cap;
        } else {
            self.len = new_total;
        }
        proof {
            lemma_appended(before, *self, all, data@, write_pos as int);
        }
    }

    /// The contents, oldest byte first.
    pub fn snapshot(&self) -> (out: Vec<u8>)
        requires
            self.wf(),
        ensures
            out@ == self@,
    {
        let cap: usize = self.buf.len();
        let mask: usize = cap - 1;
        let mut out: Vec<u8> = Vec::with_capacity(self.len);
        let mut i: usize = 0;
        while i < self.len
            invariant
                self.wf(),
                cap == self.cap(),
                mask == cap - 1,
                i <= self.len,
                out@ == self@.take(i as int),
            decreases self.len - i,
        {
            proof {
                lemma_mask((self.head + i) as usize, cap);
            }
            let b: u8 = self.buf[(self.head + i) & mask];
            out.push(b);
            assert(out@ =~= self@.take(i + 1));
            i += 1;
        }
        assert(self@.take(i as int) =~= self@);
        out
    }
}

/// The contents of a buffer of capacity `cap` that held `start`, after the
/// pieces were appended one by one.
pub open spec fn after_appends(start: Seq<u8>, pieces: Seq<Seq<u8>>, cap: nat) -> Seq<u8>
    decreases pieces.len(),
{
    if pieces.len() == 0 {
        start
    } else {
        tail(after_appends(start, pieces.drop_last(), cap) + pieces.last(), cap)
    }
}

/// Keeping the tail before an append changes nothing in the tail after it.
pub proof fn lemma_tail_of_tail(a: Seq<u8>, b: Seq<u8>, n: nat)
    ensures
        tail(tail(a, n) + b, n) == tail(a + b, n),
{
    assert(tail(tail(a, n) + b, n) =~= tail(a + b, n));
}

/// After any appends the buffer holds the last bytes ever written, as many as
/// its capacity.
pub proof fn law_scrollback_is_the_tail(start: Seq<u8>, pieces: Seq<Seq<u8>>, cap: nat)
    requires
        start.len() <= cap,
    ensures
        after_appends(start, pieces, cap) == tail(start + concat(pieces), cap),
    decreases pieces.len(),
{
    if pieces.len() == 0 {
        assert(start + concat(pieces) =~= start);
    } else {
        let init = pieces.drop_last();
        law_scrollback_is_the_tail(start, init, cap);
        lemma_concat_push(init, pieces.last());
        assert(init.push(pieces.last()) =~= pieces);
        lemma_tail_of_tail(start + concat(init), pieces.last(), cap);
        assert((start + concat(init)) + pieces.last() =~= start + concat(pieces));
    }
}

/// How a stream is cut into appends does not show in the contents.
pub proof fn law_scrollback_ignores_chunking(
    start: Seq<u8>,
    some: Seq<Seq<u8>>,
    other: Seq<Seq<u8>>,
    cap: nat,
)
    requires
        start.len() <= cap,
        concat(some) == concat(other),
    ensures
        after_appends(start, some, cap) == after_appends(start, other, cap),
{
    law_scrollback_is_the_tail(start, some, cap);
    law_scrollback_is_the_tail(start, other, cap);
}

/// One piece more is appended to the concatenation.
pub proof fn lemma_concat_push(pieces: Seq<Seq<u8>>, piece: Seq<u8>)
    ensures
        concat(pieces.push(piece)) == concat(pieces) + piece,
{
    pieces.lemma_flatten_push(piece);
}

/// Overwrites the bytes of `buf` from `at` on by `src`.
fn write_at(buf: &mut Vec<u8>, at: usize, src: &[u8])
    requires
        at + src@.len() <= old(buf)@.len(),
    ensures
        final(buf)@.len() == old(buf)@.len(),
        forall|j: int|
            0 <= j < old(buf)@.len() ==> #[trigger] final(buf)@[j] == if at <= j < at + src@.len() {
                src@[j - at]
            } else {
                old(buf)@[j]
            },
{
    let (_, from) = buf.as_mut_slice().split_at_mut(at);
    let (to, _) = from.split_at_mut(src.len());
    to.copy_from_slice(src);
}

/// A mask of `cap - 1` takes the remainder by `cap`.
proof fn lemma_mask(x: usize, cap: usize)
    requires
        is_pow2(cap as int),
    ensures
        cap > 0,
        x & (cap - 1) as usize == x % cap,
{
    is_pow2_equiv(cap as int);
    let n = choose|i: nat| vstd::arithmetic::power::pow(2, i) == cap as int;
    assert(pow2(n) == cap);
    if n >= 64 {
        lemma2_to64();
        if n > 64 {
            lemma_pow2_strictly_increases(64, n);
        }
        assert(false);
    }
    lemma_u64_low_bits_mask_is_mod(x as u64, n);
    lemma_pow2_pos(n);
    assert(low_bits_mask(n) == cap - 1);
    assert((x as u64) & ((cap - 1) as u64) == (x & ((cap - 1) as usize)) as u64);
}

/// What `append` leaves: `all` is the data, `data` its last `cap` bytes, which
/// went to the slots from `pos` on.
proof fn lemma_appended(
    before: RingBuffer,
    after: RingBuffer,
    all: Seq<u8>,
    data: Seq<u8>,
    pos: int,
)
    requires
        before.wf(),
        after.cap() == before.cap(),
        data == tail(all, before.cap()),
        pos == before.slot(before.len as int),
        forall|i: int|
            0 <= i < data.len() ==> #[trigger] data[i] == after.buf@[if pos + i < before.cap() {
                pos + i
            } else {
                pos + i - before.cap()
            }],
        forall|j: int|
            0 <= j < before.cap() && !(pos <= j < pos + data.len()) && !(j + before.cap() < pos
                + data.len()) ==> #[trigger] after.buf@[j] == before.buf@[j],
        after.len == if before.len + data.len() > before.cap() {
            before.cap() as int
        } else {
            before.len + data.len()
        },
        after.head == if before.len + data.len() > before.cap() {
            (pos + data.len()) % (before.cap() as int)
        } else {
            before.head as int
        },
    ensures
        after.wf(),
        after@ == tail(before@ + all, before.cap()),
{
    let cap = before.cap() as int;
    let kept = before@ + data;
    lemma_wrap(before.head + before.len, cap);
    lemma_wrap(pos + data.len(), cap);
    assert(tail(before@ + all, before.cap()) =~= tail(kept, before.cap()));
    assert forall|i: int| 0 <= i < after.len implies #[trigger] after@[i] == tail(
        kept,
        before.cap(),
    )[i] by {
        let k = if kept.len() > cap {
            kept.len() - cap + i
        } else {
            i
        };
        assert(tail(kept, before.cap())[i] == kept[k]);
        lemma_wrap(after.head + i, cap);
        if k < before.len {
            lemma_wrap(before.head + k, cap);
            assert(kept[k] == before.buf@[before.slot(k)]);
        } else {
            assert(kept[k] == data[k - before.len]);
        }
    }
    assert(after@ =~= tail(kept, before.cap()));
}

/// A remainder by `cap` of what is under twice `cap`.
proof fn lemma_wrap(x: int, cap: int)
    requires
        0 <= x < 2 * cap,
    ensures
        x % cap == if x < cap { x } else { x - cap },
{
    if x < cap {
        vstd::arithmetic::div_mod::lemma_small_mod(x as nat, cap as nat);
    } else {
        vstd::arithmetic::div_mod::lemma_small_mod((x - cap) as nat, cap as nat);
        vstd::arithmetic::div_mod::lemma_mod_add_multiples_vanish(x - cap, cap);
    }
}

/// The tail of a sequence is its end, as long as it may be and as long as it can.
pub proof fn law_tail_is_the_end(s: Seq<u8>, n: nat)
    ensures
        tail(s, n).is_suffix_of(s),
        tail(s, n).len() == if s.len() <= n { s.len() } else { n },
{
    let t = tail(s, n);
    assert(t =~= s.subrange(s.len() - t.len(), s.len() as int));
}

/// Pieces are put together one behind the other.
pub proof fn law_concat_puts_pieces_together(pieces: Seq<Seq<u8>>, piece: Seq<u8>)
    ensures
        concat(Seq::empty()) == Seq::<u8>::empty(),
        concat(pieces.push(piece)) == concat(pieces) + piece,
{
    lemma_concat_push(pieces, piece);
    assert(concat(Seq::empty()) =~= Seq::<u8>::empty());
}

/// After an append, a snapshot is the end of what a snapshot was before,
/// followed by the data: all of it where that fits, else as much as fits.
pub proof fn law_snapshot_ends_with_what_was_appended(
    before: &RingBuffer,
    first: Vec<u8>,
    ring: &mut RingBuffer,
    data: &[u8],
    after: &RingBuffer,
    second: Vec<u8>,
    capacity: usize,
)
    requires
        before.wf(),
        call_ensures(RingBuffer::snapshot, (before,), first),
        call_ensures(RingBuffer::capacity, (before,), capacity),
        *old(ring) == *before,
        call_ensures(RingBuffer::append, (ring, data), ()),
        *after == *final(ring),
        call_ensures(RingBuffer::snapshot, (after,), second),
    ensures
        second@.is_suffix_of(first@ + data@),
        second@.len() == if first@.len() + data@.len() <= capacity {
            first@.len() + data@.len()
        } else {
            capacity as nat
        },
        after.cap() == capacity,
{
    law_tail_is_the_end(first@ + data@, before.cap());
}

/// A new buffer has the capacity that was asked for and holds nothing, and a
/// buffer tells how much it holds.
pub proof fn law_new_buffer_is_empty(
    capacity: usize,
    ring: RingBuffer,
    n: usize,
    empty: bool,
    held: &RingBuffer,
    count: usize,
    none: bool,
    snapshot: Vec<u8>,
)
    requires
        call_ensures(RingBuffer::new, (capacity,), ring),
        call_ensures(RingBuffer::capacity, (&ring,), n),
        call_ensures(RingBuffer::is_empty, (&ring,), empty),
        call_ensures(RingBuffer::len, (held,), count),
        call_ensures(RingBuffer::is_empty, (held,), none),
        call_ensures(RingBuffer::snapshot, (held,), snapshot),
    ensures
        n == capacity,
        empty,
        count == snapshot@.len(),
        none <==> snapshot@.len() == 0,
{
}

/// A capacity is valid exactly where it is a power of two that one allocation
/// can have; half a valid capacity is valid too, until one byte is left.
pub proof fn law_valid_capacities_are_powers_of_two(
    capacity: usize,
    ok: bool,
    half: usize,
    half_ok: bool,
)
    requires
        call_ensures(RingBuffer::valid_capacity, (capacity,), ok),
        call_ensures(RingBuffer::valid_capacity, (half,), half_ok),
        half == capacity / 2,
    ensures
        capacity == 0 || capacity > isize::MAX ==> !ok,
        capacity == 1 ==> ok,
        1 < capacity <= isize::MAX ==> (ok <==> capacity % 2 == 0 && half_ok),
{
    reveal_with_fuel(is_pow2, 2);
}

} // verus!
