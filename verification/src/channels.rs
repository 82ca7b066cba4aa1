//! The two channels between the main thread and an instance's audio thread:
//! an `rtrb` ring buffer carrying commands one way, and `arc_swap`
//! snapshot cells the audio thread republishes the other way.
//!
//! Each end keeps, as ghost state, what the main thread did through it:
//! the commands the ring accepted, and the last value the main thread
//! read from and wrote to a cell. What the audio thread does in between
//! is not modelled.

use vstd::prelude::*;
use rtrb::{Consumer, Producer, PushError, RingBuffer};
use std::sync::Arc;
use arc_swap::ArcSwap;

verus! {

#[verifier::external_type_specification]
#[verifier::external_body]
#[verifier::reject_recursive_types(T)]
pub struct ExProducer<T>(Producer<T>);

#[verifier::external_type_specification]
#[verifier::external_body]
#[verifier::reject_recursive_types(T)]
pub struct ExConsumer<T>(Consumer<T>);

#[verifier::external_type_specification]
#[verifier::reject_recursive_types(T)]
pub struct ExPushError<T>(PushError<T>);

/// Creates an `rtrb` ring buffer (`rtrb::RingBuffer::new`) and returns its
/// two ends. That they are the two ends of one new, empty buffer is not
/// stated: no contract here can name a buffer's contents.
#[verifier::external_body]
fn ring_buffer_new<T>(capacity: usize) -> (r: (Producer<T>, Consumer<T>))
    requires
        capacity * 2 <= usize::MAX,
{
    RingBuffer::new(capacity)
}

/// Pushes onto an `rtrb` ring buffer (`rtrb::Producer::push`). Whether the
/// buffer has room depends on how far the consumer thread has read, so
/// neither outcome is promised; when it is full, the value comes back
/// inside the error.
#[verifier::external_body]
fn producer_push<T>(producer: &mut Producer<T>, value: T) -> (r: Result<(), PushError<T>>)
    ensures
        r matches Err(PushError::Full(v)) ==> v == value,
{
    producer.push(value)
}

/// The sending end of an instance's command buffer.
#[verifier::reject_recursive_types(T)]
pub struct CommandSender<T> {
    producer: Producer<T>,
    offered: Ghost<Seq<T>>,
    sent: Ghost<Seq<T>>,
}

impl<T> CommandSender<T> {
    /// Every command offered to the buffer from this end, in order, whether
    /// or not it was accepted.
    pub closed spec fn offered(&self) -> Seq<T> {
        self.offered@
    }

    /// The commands the buffer has accepted from this end, in order.
    pub closed spec fn sent(&self) -> Seq<T> {
        self.sent@
    }

    /// A new buffer of `capacity` commands: its sending end, with nothing
    /// sent yet, and its receiving end.
    pub fn channel(capacity: usize) -> (r: (Self, Consumer<T>))
        requires
            capacity * 2 <= usize::MAX,
        ensures
            r.0.offered() == Seq::<T>::empty(),
            r.0.sent() == Seq::<T>::empty(),
    {
        let (producer, consumer) = ring_buffer_new(capacity);
        (CommandSender { producer, offered: Ghost(Seq::empty()), sent: Ghost(Seq::empty()) }, consumer)
    }

    /// Offers `value` to the buffer; `true` when it was accepted, `false`
    /// when the buffer was full and `value` was dropped.
    pub fn send(&mut self, value: T) -> (r: bool)
        ensures
            final(self).offered() == old(self).offered().push(value),
            r ==> final(self).sent() == old(self).sent().push(value),
            !r ==> final(self).sent() == old(self).sent(),
    {
        let ghost v = value;
        proof {
            self.offered@ = self.offered@.push(v);
        }
        let result = producer_push(&mut self.producer, value);
        match result {
            Ok(()) => {
                proof {
                    self.sent@ = self.sent@.push(v);
                }
                true
            },
            Err(_) => false,
        }
    }
}

/// A snapshot cell shared between the main thread and an audio thread:
/// an `arc_swap::ArcSwap` behind an `Arc`. Verus cannot declare
/// `arc_swap::ArcSwapAny` (its bounds name arc_swap's own traits), so the
/// cell is held in this opaque struct.
#[verifier::external_body]
#[verifier::reject_recursive_types(V)]
pub struct SharedCache<V> {
    cell: Arc<ArcSwap<V>>,
}

impl<V> SharedCache<V> {
    /// A fresh cell holding `value` (`ArcSwap::from_pointee`).
    #[verifier::external_body]
    fn new(value: V) -> (r: Self) {
        SharedCache { cell: Arc::new(ArcSwap::from_pointee(value)) }
    }

    /// A second handle on the same cell (`Arc::clone`).
    #[verifier::external_body]
    fn share(&self) -> (r: Self) {
        SharedCache { cell: Arc::clone(&self.cell) }
    }

    /// A copy of the value most recently stored (`ArcSwap::load`). Another
    /// thread may store at any time, so nothing is stated about it.
    #[verifier::external_body]
    fn load(&self) -> (r: V)
        where V: Clone
    {
        (**self.cell.load()).clone()
    }

    /// Replaces the value (`ArcSwap::store`).
    #[verifier::external_body]
    fn store(&self, value: V) {
        self.cell.store(Arc::new(value))
    }
}

/// One handle on a snapshot cell. Handles made by [`SnapshotCell::share`]
/// reach the same cell and carry the same `ident`.
#[verifier::reject_recursive_types(V)]
pub struct SnapshotCell<V> {
    cache: SharedCache<V>,
    ident: Ghost<int>,
    seen: Ghost<Option<V>>,
    written: Ghost<Option<V>>,
}

impl<V> SnapshotCell<V> {
    /// Which cell this handle reaches.
    pub closed spec fn ident(&self) -> int {
        self.ident@
    }

    /// The value this handle last read with [`Self::load_seen`], if any.
    pub closed spec fn seen(&self) -> Option<V> {
        self.seen@
    }

    /// The value this handle last wrote with [`Self::new`] or
    /// [`Self::store`], if any.
    pub closed spec fn written(&self) -> Option<V> {
        self.written@
    }

    /// A new cell holding `value`. Nothing is promised of its `ident`
    /// beyond what [`Self::share`] keeps.
    pub fn new(value: V) -> (r: Self)
        ensures
            r.seen() is None,
            r.written() == Some(value),
    {
        let ghost v = value;
        SnapshotCell { cache: SharedCache::new(value), ident: Ghost(arbitrary()), seen: Ghost(None), written: Ghost(Some(v)) }
    }

    /// Another handle on the same cell, with nothing read or written yet.
    pub fn share(&self) -> (r: Self)
        ensures
            r.ident() == self.ident(),
            r.seen() is None,
            r.written() is None,
    {
        SnapshotCell { cache: self.cache.share(), ident: Ghost(self.ident@), seen: Ghost(None), written: Ghost(None) }
    }

    /// The cell's current value, which the other thread may have replaced
    /// at any time.
    pub fn load(&self) -> (r: V)
        where V: Clone
    {
        self.cache.load()
    }

    /// The cell's current value, remembered as the value seen before a
    /// rewrite.
    pub fn load_seen(&mut self) -> (r: V)
        where V: Clone
        ensures
            final(self).ident() == old(self).ident(),
            final(self).written() == old(self).written(),
            final(self).seen() == Some(r),
    {
        let r = self.cache.load();
        proof {
            self.seen@ = Some(r);
        }
        r
    }

    /// Replaces the cell's value, remembered as this handle's last write.
    pub fn store(&mut self, value: V)
        ensures
            final(self).ident() == old(self).ident(),
            final(self).seen() == old(self).seen(),
            final(self).written() == Some(value),
    {
        let ghost v = value;
        self.cache.store(value);
        proof {
            self.written@ = Some(v);
        }
    }

    /// Replaces the cell's value from the publishing thread, which keeps no
    /// record of it.
    pub fn publish(&self, value: V) {
        self.cache.store(value);
    }
}

} // verus!
