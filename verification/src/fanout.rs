//! Fans pty output out to attached clients.
//!
//! Combines the scrollback ring buffer (the snapshot that a newly attaching
//! client needs) with a broadcast channel (live output from then on). Every
//! operation takes the whole [`Fanout`], so with one lock around it a client
//! can never observe a gap or a duplicate: what was pushed before `attach` is
//! in the snapshot, what is pushed after it comes through the receiver, as long
//! as the client does not fall further behind than the channel retains. A
//! client that does is told so, and misses nothing unnoticed.
//!
//! The broadcast payload is [`Bytes`], so that fanning out to many clients
//! costs reference counts and not copies.

use crate::buffers::{bytes_seq, bytes_slice};
use crate::ring_buffer::{
    concat, law_tail_is_the_end, lemma_concat_push, lemma_tail_of_tail, tail, RingBuffer,
};
use bytes::Bytes;
use tokio::sync::broadcast;
use vstd::arithmetic::power2::is_pow2;
use vstd::prelude::*;

verus! {

/// The sending half of a tokio broadcast channel.
#[verifier::external_type_specification]
#[verifier::external_body]
#[verifier::reject_recursive_types(M)]
pub struct ExSender<M>(broadcast::Sender<M>);

/// A receiving half of a tokio broadcast channel.
#[verifier::external_type_specification]
#[verifier::external_body]
#[verifier::reject_recursive_types(M)]
pub struct ExReceiver<M>(broadcast::Receiver<M>);

/// The values that were handed to the sender so far, in order.
pub uninterp spec fn sent(tx: broadcast::Sender<Bytes>) -> Seq<Seq<u8>>;

/// The number of values that the channel retains for receivers that have not
/// taken them yet. It is settled when the channel is made.
pub uninterp spec fn retained(tx: broadcast::Sender<Bytes>) -> nat;

/// The number of values that had been handed to the sender when the receiver
/// subscribed to its channel; `None` for a receiver of another channel. The
/// receiver takes the values from that position on, each once and in order.
/// Where more than [`retained`] of them wait to be taken, it is told how many
/// it lost.
pub uninterp spec fn first_value(
    tx: broadcast::Sender<Bytes>,
    rx: broadcast::Receiver<Bytes>,
) -> Option<nat>;

/// `tokio::sync::broadcast::channel`: a channel to which nothing was sent yet.
/// It retains as many values as the capacity, rounded up to a power of two.
/// It panics on a capacity of zero and on one whose queue, allocated at once
/// with a slot of under 64 bytes for each value, cannot be had.
#[verifier::external_body]
fn channel(capacity: usize) -> (r: (broadcast::Sender<Bytes>, broadcast::Receiver<Bytes>))
    requires
        0 < capacity <= isize::MAX / 128,
    ensures
        sent(r.0) == Seq::<Seq<u8>>::empty(),
        capacity <= retained(r.0) < 2 * capacity,
        is_pow2(retained(r.0) as int),
        first_value(r.0, r.1) == Some(0nat),
{
    broadcast::channel(capacity)
}

/// `tokio::sync::broadcast::Sender::send`: hands the value to every receiver
/// that is subscribed, and drops it where there is none. What the channel
/// retains and who is subscribed since when stay as they are. The result says
/// only how many receivers there are.
#[verifier::external_body]
fn send(tx: &mut broadcast::Sender<Bytes>, value: Bytes)
    ensures
        sent(*final(tx)) == sent(*old(tx)).push(bytes_seq(value)),
        retained(*final(tx)) == retained(*old(tx)),
        forall|rx: broadcast::Receiver<Bytes>|
            #[trigger] first_value(*final(tx), rx) == first_value(*old(tx), rx),
{
    let _ = tx.send(value);
}

/// `tokio::sync::broadcast::Sender::subscribe`: a receiver of the values that
/// are sent after this call. (It panics at a quarter of `usize::MAX` live
/// receivers, more than an address space can hold.)
#[verifier::external_body]
fn subscribe(tx: &broadcast::Sender<Bytes>) -> (rx: broadcast::Receiver<Bytes>)
    ensures
        first_value(*tx, rx) == Some(sent(*tx).len()),
{
    tx.subscribe()
}

/// What a receiver has still to take when `next` is the position of the next
/// value that it takes: everything from there on, each value once and in
/// order. `None` where that is more than `backlog` values, so that some are
/// lost to it, which it is told.
pub open spec fn unread(pushed: Seq<Seq<u8>>, next: nat, backlog: nat) -> Option<Seq<Seq<u8>>> {
    if next <= pushed.len() <= next + backlog {
        Some(pushed.skip(next as int))
    } else {
        None
    }
}

/// Scrollback and live output of one session.
pub struct Fanout {
    ring: RingBuffer,
    tx: broadcast::Sender<Bytes>,
}

impl Fanout {
    /// Everything that was pushed so far, piece by piece.
    pub closed spec fn pushed(&self) -> Seq<Seq<u8>> {
        sent(self.tx)
    }

    /// The number of bytes of scrollback that are kept.
    pub closed spec fn scrollback(&self) -> nat {
        self.ring.cap()
    }

    /// How many pieces a receiver may have still to take before some are lost
    /// to it.
    pub closed spec fn backlog(&self) -> nat {
        retained(self.tx)
    }

    /// How much had been pushed when the receiver subscribed, if it did here.
    pub closed spec fn subscribed_at(&self, rx: broadcast::Receiver<Bytes>) -> Option<nat> {
        first_value(self.tx, rx)
    }

    /// The scrollback is the tail of everything that was pushed.
    pub closed spec fn wf(&self) -> bool {
        &&& self.ring.wf()
        &&& self.ring@ == tail(concat(sent(self.tx)), self.ring.cap())
    }

    /// A fanout to which nothing was pushed yet. The scrollback capacity must
    /// be one that a [`RingBuffer`] can have. A receiver may fall
    /// `broadcast_capacity` pieces behind, rounded up to a power of two.
    pub fn new(scrollback_capacity: usize, broadcast_capacity: usize) -> (f: Self)
        requires
            is_pow2(scrollback_capacity as int),
            scrollback_capacity <= isize::MAX,
            0 < broadcast_capacity <= isize::MAX / 128,
        ensures
            f.wf(),
            f.pushed() == Seq::<Seq<u8>>::empty(),
            f.scrollback() == scrollback_capacity,
            broadcast_capacity <= f.backlog() < 2 * broadcast_capacity,
            is_pow2(f.backlog() as int),
    {
        let (tx, _rx) = channel(broadcast_capacity);
        let f = Fanout { ring: RingBuffer::new(scrollback_capacity), tx };
        assert(concat(Seq::<Seq<u8>>::empty()) =~= Seq::<u8>::empty());
        f
    }

    /// Records `data` in the scrollback and hands it to the live receivers.
    pub fn push(&mut self, data: Bytes)
        requires
            old(self).wf(),
        ensures
            final(self).wf(),
            final(self).scrollback() == old(self).scrollback(),
            final(self).backlog() == old(self).backlog(),
            forall|rx: broadcast::Receiver<Bytes>|
                #[trigger] final(self).subscribed_at(rx) == old(self).subscribed_at(rx),
            final(self).pushed() == old(self).pushed().push(bytes_seq(data)),
    {
        let ghost before = sent(self.tx);
        self.ring.append(bytes_slice(&data));
        send(&mut self.tx, data);
        proof {
            lemma_concat_push(before, bytes_seq(data));
            lemma_tail_of_tail(concat(before), bytes_seq(data), self.ring.cap());
        }
    }

    /// Subscribes for live output and takes a snapshot of the scrollback: the
    /// snapshot holds the tail of everything that was pushed before, the
    /// receiver delivers everything that is pushed from now on, as long as no
    /// more than the backlog waits to be taken.
    pub fn attach(&self) -> (r: (Vec<u8>, broadcast::Receiver<Bytes>))
        requires
            self.wf(),
        ensures
            r.0@ == tail(concat(self.pushed()), self.scrollback()),
            self.subscribed_at(r.1) == Some(self.pushed().len()),
    {
        let rx = subscribe(&self.tx);
        (self.ring.snapshot(), rx)
    }
}

/// What a client sees that attached when the pieces `before` had been pushed
/// and that has received the pieces `after` since then.
pub open spec fn seen(before: Seq<Seq<u8>>, after: Seq<Seq<u8>>, scrollback: nat) -> Seq<u8> {
    tail(concat(before), scrollback) + concat(after)
}

/// No gap and no duplicate. A client attached to `at`, so that its receiver
/// starts behind everything that was pushed until then. At a later time, when
/// the fanout is `now` and the client is at most the backlog behind, what the
/// receiver delivers is exactly what was pushed since, and the snapshot
/// followed by it is a suffix of everything that was ever pushed: no byte is
/// missed, and none comes twice.
pub proof fn law_attach_has_no_gap_and_no_duplicate(
    at: Fanout,
    now: Fanout,
    rx: broadcast::Receiver<Bytes>,
)
    requires
        at.subscribed_at(rx) == Some(at.pushed().len()),
        now.subscribed_at(rx) == at.subscribed_at(rx),
        at.pushed().is_prefix_of(now.pushed()),
        now.pushed().len() - at.pushed().len() <= now.backlog(),
    ensures
        unread(now.pushed(), now.subscribed_at(rx)->0, now.backlog()) matches Some(after)
            && at.pushed() + after == now.pushed()
            && seen(at.pushed(), after, at.scrollback()).is_suffix_of(concat(now.pushed()))
            && seen(at.pushed(), after, at.scrollback()).len() == tail(
            concat(at.pushed()),
            at.scrollback(),
        ).len() + concat(now.pushed()).len() - concat(at.pushed()).len(),
{
    let before = at.pushed();
    let after = now.pushed().skip(before.len() as int);
    assert(before + after =~= now.pushed());
    lemma_seen(before, after, at.scrollback());
}

proof fn lemma_seen(before: Seq<Seq<u8>>, after: Seq<Seq<u8>>, scrollback: nat)
    ensures
        concat(before + after) == concat(before) + concat(after),
        seen(before, after, scrollback).is_suffix_of(concat(before + after)),
{
    vstd::seq_lib::lemma_flatten_concat(before, after);
    let s = seen(before, after, scrollback);
    let all = concat(before + after);
    assert(s =~= all.subrange(all.len() - s.len(), all.len() as int));
}

/// A client that takes its output in several goes, and is never more than the
/// backlog behind, gets everything once and in order: what it takes now, then
/// what it takes later, is all that was pushed since its position.
pub proof fn law_reading_goes_on_where_it_stopped(
    now: Seq<Seq<u8>>,
    later: Seq<Seq<u8>>,
    next: nat,
    backlog: nat,
)
    requires
        now.is_prefix_of(later),
        next <= now.len() <= next + backlog,
        later.len() <= now.len() + backlog,
    ensures
        unread(now, next, backlog) matches Some(first) && unread(
            later,
            now.len(),
            backlog,
        ) matches Some(second) && first + second == later.skip(next as int),
{
    assert(now.skip(next as int) + later.skip(now.len() as int) =~= later.skip(next as int));
}

/// A client that reattaches sees what a client that never left has on screen,
/// as far as the scrollback reaches.
pub proof fn law_reattach_resumes(
    before: Seq<Seq<u8>>,
    missed: Seq<Seq<u8>>,
    after: Seq<Seq<u8>>,
    scrollback: nat,
)
    ensures
        seen(before + missed, after, scrollback).is_suffix_of(concat(before + missed + after)),
        concat(before + missed).len() <= scrollback ==> seen(before + missed, after, scrollback)
            == seen(before, missed + after, scrollback),
{
    let left = before + missed;
    lemma_seen(left, after, scrollback);
    vstd::seq_lib::lemma_flatten_concat(before, missed);
    vstd::seq_lib::lemma_flatten_concat(missed, after);
    if concat(left).len() <= scrollback {
        assert(seen(left, after, scrollback) =~= seen(before, missed + after, scrollback));
    }
}

/// Two clients receive identical bytes from the position at which both are
/// attached, whenever each of them came, as long as neither is further behind
/// than the backlog.
pub proof fn law_clients_see_identical_output(
    pushed: Seq<Seq<u8>>,
    a: nat,
    b: nat,
    backlog: nat,
)
    requires
        a <= b <= pushed.len() <= a + backlog,
    ensures
        unread(pushed, a, backlog) matches Some(early) && unread(
            pushed,
            b,
            backlog,
        ) matches Some(late) && concat(early) == concat(pushed.subrange(a as int, b as int))
            + concat(late),
{
    let middle = pushed.subrange(a as int, b as int);
    assert(middle + pushed.skip(b as int) =~= pushed.skip(a as int));
    vstd::seq_lib::lemma_flatten_concat(middle, pushed.skip(b as int));
}

/// A push and then an attach: the snapshot is the end of everything that was
/// pushed before, followed by the data, as much as the scrollback keeps; the
/// receiver starts behind it, and earlier receivers stay where they started.
pub proof fn law_snapshot_ends_with_what_was_pushed(
    fanout: &mut Fanout,
    data: Bytes,
    now: &Fanout,
    attached: (Vec<u8>, broadcast::Receiver<Bytes>),
    earlier: broadcast::Receiver<Bytes>,
)
    requires
        call_ensures(Fanout::push, (fanout, data), ()),
        *now == *final(fanout),
        call_ensures(Fanout::attach, (now,), attached),
    ensures
        ({
            let all = concat(old(fanout).pushed()) + bytes_seq(data);
            &&& attached.0@.is_suffix_of(all)
            &&& attached.0@.len() == if all.len() <= old(fanout).scrollback() {
                all.len()
            } else {
                old(fanout).scrollback()
            }
        }),
        now.pushed() == old(fanout).pushed().push(bytes_seq(data)),
        now.subscribed_at(attached.1) == Some(old(fanout).pushed().len() + 1),
        now.subscribed_at(earlier) == old(fanout).subscribed_at(earlier),
        now.backlog() == old(fanout).backlog(),
        now.scrollback() == old(fanout).scrollback(),
{
    lemma_concat_push(old(fanout).pushed(), bytes_seq(data));
    law_tail_is_the_end(concat(now.pushed()), now.scrollback());
}

/// A new fanout holds nothing, keeps as much as is asked for, and lets a
/// receiver fall behind at least as far as is asked for, and less than twice as
/// far.
pub proof fn law_new_fanout_is_as_asked(scrollback: usize, backlog: usize, fanout: Fanout)
    requires
        call_ensures(Fanout::new, (scrollback, backlog), fanout),
    ensures
        fanout.pushed().len() == 0,
        fanout.scrollback() == scrollback,
        backlog <= fanout.backlog(),
        fanout.backlog() < 2 * backlog,
        is_pow2(fanout.backlog() as int),
{
}

} // verus!
