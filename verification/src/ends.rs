//! The ends of channels. An end that one owner holds keeps a record of what went through it, which
//! nothing but the calls into the channel extends; an end that several owners share has none.
use crossbeam_channel::{Receiver, Sender};
use vstd::prelude::*;

verus! {

// ---------------------------------------------------------------- channels between threads

/// The sending half of a channel of `crossbeam_channel`.
#[verifier::external_type_specification]
#[verifier::external_body]
#[verifier::reject_recursive_types(T)]
pub struct ExSender<T>(crossbeam_channel::Sender<T>);

/// The receiving half of a channel of `crossbeam_channel`.
#[verifier::external_type_specification]
#[verifier::external_body]
#[verifier::reject_recursive_types(T)]
pub struct ExReceiver<T>(crossbeam_channel::Receiver<T>);

/// What became of an item that was offered to a channel.
#[derive(Debug)]
pub enum Offer<T> {
    Accepted,
    /// No room, within the time given; the item comes back.
    Full(T),
    /// Nobody receives any more; the item comes back.
    Disconnected(T),
}

/// What a look into a channel brought.
#[derive(Debug)]
pub enum Taken<T> {
    Item(T),
    Empty,
    Disconnected,
}

/// An item that was handed to a channel: for how many milliseconds it might wait for room, if it
/// might, and what became of it.
#[derive(Debug)]
pub struct Handed<T> {
    pub item: T,
    pub within: Option<u64>,
    pub fate: Offer<T>,
}

/// `crossbeam_channel::bounded`: a channel that holds up to `capacity` items. Which of the two
/// ends is used where is up to the caller; nothing is stated of them.
#[verifier::external_body]
fn channel<T>(capacity: usize) -> (r: (Sender<T>, Receiver<T>))
    requires
        1 <= capacity <= 0x1_0000,
{
    crossbeam_channel::bounded(capacity)
}

/// Whether these are the two ends of a channel that was made for so many items.
pub closed spec fn made<T>(capacity: usize, tx: Sender<T>, rx: Receiver<T>) -> bool {
    call_ensures(channel::<T>, (capacity,), (tx, rx))
}

/// Makes a channel for so many items.
pub(crate) fn make_channel<T>(capacity: usize) -> (r: (Sender<T>, Receiver<T>))
    requires
        1 <= capacity <= 0x1_0000,
    ensures
        made(capacity, r.0, r.1),
{
    channel(capacity)
}

/// `Sender::try_send` on an end that is shared: whether the item is accepted depends on the other
/// threads; an item that is not accepted comes back unchanged.
#[verifier::external_body]
fn offer<T>(tx: &Sender<T>, item: T) -> (r: Offer<T>)
    ensures
        r matches Offer::Full(back) ==> back == item,
        r matches Offer::Disconnected(back) ==> back == item,
{
    match tx.try_send(item) {
        Ok(()) => Offer::Accepted,
        Err(crossbeam_channel::TrySendError::Full(back)) => Offer::Full(back),
        Err(crossbeam_channel::TrySendError::Disconnected(back)) => Offer::Disconnected(back),
    }
}

/// `Sender::send_timeout` on an end that is shared: waits for room for at most the given time; an
/// item that is not accepted comes back unchanged.
#[verifier::external_body]
fn offer_within<T>(tx: &Sender<T>, item: T, millis: u64) -> (r: Offer<T>)
    ensures
        r matches Offer::Full(back) ==> back == item,
        r matches Offer::Disconnected(back) ==> back == item,
{
    match tx.send_timeout(item, std::time::Duration::from_millis(millis)) {
        Ok(()) => Offer::Accepted,
        Err(crossbeam_channel::SendTimeoutError::Timeout(back)) => Offer::Full(back),
        Err(crossbeam_channel::SendTimeoutError::Disconnected(back)) => Offer::Disconnected(back),
    }
}

/// Whether an item was handed to a shared end without waiting, and this became of it.
pub closed spec fn offered<T>(tx: Sender<T>, item: T, fate: Offer<T>) -> bool {
    call_ensures(offer::<T>, (&tx, item), fate)
}

/// Whether an item was handed to a shared end, waiting for room for at most so many milliseconds,
/// and this became of it.
pub closed spec fn offered_within<T>(tx: Sender<T>, item: T, millis: u64, fate: Offer<T>) -> bool {
    call_ensures(offer_within::<T>, (&tx, item, millis), fate)
}

/// Hands an item to a shared end without waiting.
pub(crate) fn hand_shared<T>(tx: &Sender<T>, item: T) -> (r: Offer<T>)
    ensures
        offered(*tx, item, r),
{
    offer(tx, item)
}

/// Hands an item to a shared end, waiting for room for at most so many milliseconds.
pub(crate) fn hand_shared_within<T>(tx: &Sender<T>, item: T, millis: u64) -> (r: Offer<T>)
    ensures
        offered_within(*tx, item, millis, r),
{
    offer_within(tx, item, millis)
}

/// `Sender::len`: the number of items that wait at this moment. Other threads change it, so
/// nothing is stated of it.
#[verifier::external_body]
fn waiting<T>(tx: &Sender<T>) -> (r: usize) {
    tx.len()
}

/// Whether so many items waited in a channel when it was asked.
pub closed spec fn held<T>(tx: Sender<T>, depth: usize) -> bool {
    call_ensures(waiting::<T>, (&tx,), depth)
}

/// The number of items that wait in a channel.
pub(crate) fn depth_of<T>(tx: &Sender<T>) -> (r: usize)
    ensures
        held(*tx, r),
{
    waiting(tx)
}

/// A sending end with one owner.
#[verifier::reject_recursive_types(T)]
pub struct Outbox<T> {
    tx: Sender<T>,
    record: Ghost<Seq<Handed<T>>>,
}

impl<T> Outbox<T> {
    /// The end itself.
    pub closed spec fn end(&self) -> Sender<T> {
        self.tx
    }

    /// What was handed over through this end, in order.
    pub closed spec fn record(&self) -> Seq<Handed<T>> {
        self.record@
    }

    /// An end through which nothing went yet.
    pub fn new(tx: Sender<T>) -> (r: Outbox<T>)
        ensures
            r.end() == tx,
            r.record() == Seq::<Handed<T>>::empty(),
    {
        Outbox { tx, record: Ghost(Seq::empty()) }
    }

    /// `Sender::try_send` by the one owner of an end: one item is handed over. Whether it is
    /// accepted depends on the other threads; one that is not accepted comes back unchanged.
    #[verifier::external_body]
    pub(crate) fn hand(&mut self, item: T) -> (r: Offer<T>)
        ensures
            final(self).end() == old(self).end(),
            final(self).record() == old(self).record().push(
                Handed { item, within: None, fate: r },
            ),
            r matches Offer::Full(back) ==> back == item,
            r matches Offer::Disconnected(back) ==> back == item,
    {
        match self.tx.try_send(item) {
            Ok(()) => Offer::Accepted,
            Err(crossbeam_channel::TrySendError::Full(back)) => Offer::Full(back),
            Err(crossbeam_channel::TrySendError::Disconnected(back)) => Offer::Disconnected(back),
        }
    }

    /// `Sender::send_timeout` by the one owner of an end: one item is handed over, and waits for
    /// room for at most the given time; one that is not accepted comes back unchanged.
    #[verifier::external_body]
    pub(crate) fn hand_within(&mut self, item: T, millis: u64) -> (r: Offer<T>)
        ensures
            final(self).end() == old(self).end(),
            final(self).record() == old(self).record().push(
                Handed { item, within: Some(millis), fate: r },
            ),
            r matches Offer::Full(back) ==> back == item,
            r matches Offer::Disconnected(back) ==> back == item,
    {
        match self.tx.send_timeout(item, std::time::Duration::from_millis(millis)) {
            Ok(()) => Offer::Accepted,
            Err(crossbeam_channel::SendTimeoutError::Timeout(back)) => Offer::Full(back),
            Err(crossbeam_channel::SendTimeoutError::Disconnected(back)) => Offer::Disconnected(back),
        }
    }

    /// The number of items that wait.
    pub(crate) fn depth(&self) -> (r: usize)
        ensures
            held(self.end(), r),
    {
        depth_of(&self.tx)
    }
}

/// A receiving end with one owner.
#[verifier::reject_recursive_types(T)]
pub struct Inbox<T> {
    rx: Receiver<T>,
    looks: Ghost<Seq<Taken<T>>>,
}

impl<T> Inbox<T> {
    /// The end itself.
    pub closed spec fn end(&self) -> Receiver<T> {
        self.rx
    }

    /// What the looks through this end brought, in order.
    pub closed spec fn looks(&self) -> Seq<Taken<T>> {
        self.looks@
    }

    /// An end that nobody looked through yet.
    pub fn new(rx: Receiver<T>) -> (r: Inbox<T>)
        ensures
            r.end() == rx,
            r.looks() == Seq::<Taken<T>>::empty(),
    {
        Inbox { rx, looks: Ghost(Seq::empty()) }
    }

    /// `Receiver::try_recv` by the one owner of an end: one look, which takes an item where one
    /// waits. Which one depends on the other threads.
    #[verifier::external_body]
    pub(crate) fn look(&mut self) -> (r: Taken<T>)
        ensures
            final(self).end() == old(self).end(),
            final(self).looks() == old(self).looks().push(r),
    {
        match self.rx.try_recv() {
            Ok(item) => Taken::Item(item),
            Err(crossbeam_channel::TryRecvError::Empty) => Taken::Empty,
            Err(crossbeam_channel::TryRecvError::Disconnected) => Taken::Disconnected,
        }
    }
}

// ---------------------------------------------------------------- channels of the standard library

/// The receiving half of a channel of `std::sync::mpsc`.
#[verifier::external_type_specification]
#[verifier::external_body]
#[verifier::reject_recursive_types(T)]
pub struct ExStdReceiver<T>(std::sync::mpsc::Receiver<T>);

/// A receiving end of the standard library, which always has one owner.
#[verifier::reject_recursive_types(T)]
pub struct StdInbox<T> {
    rx: std::sync::mpsc::Receiver<T>,
    looks: Ghost<Seq<Taken<T>>>,
}

impl<T> StdInbox<T> {
    /// The end itself.
    pub closed spec fn end(&self) -> std::sync::mpsc::Receiver<T> {
        self.rx
    }

    /// What the looks through this end brought, in order.
    pub closed spec fn looks(&self) -> Seq<Taken<T>> {
        self.looks@
    }

    /// The items that came out of this end, in order.
    pub open spec fn so_far(&self) -> Seq<T> {
        items(self.looks())
    }

    /// Whether one look was made through this end, and brought this.
    pub open spec fn looked(&self, before: &StdInbox<T>, taken: Taken<T>) -> bool {
        self.end() == before.end() && self.looks() == before.looks().push(taken)
    }

    /// An end that nobody looked through yet.
    pub fn new(rx: std::sync::mpsc::Receiver<T>) -> (r: StdInbox<T>)
        ensures
            r.end() == rx,
            r.looks() == Seq::<Taken<T>>::empty(),
    {
        StdInbox { rx, looks: Ghost(Seq::empty()) }
    }

    /// `std::sync::mpsc::Receiver::try_recv`: one look, which takes an item where one waits. Which
    /// one depends on the other threads.
    #[verifier::external_body]
    pub(crate) fn look(&mut self) -> (r: Taken<T>)
        ensures
            final(self).looked(old(self), r),
    {
        match self.rx.try_recv() {
            Ok(item) => Taken::Item(item),
            Err(std::sync::mpsc::TryRecvError::Empty) => Taken::Empty,
            Err(std::sync::mpsc::TryRecvError::Disconnected) => Taken::Disconnected,
        }
    }
}

/// The items that some looks brought, in order.
pub open spec fn items<T>(looks: Seq<Taken<T>>) -> Seq<T>
    decreases looks.len(),
{
    if looks.len() == 0 {
        seq![]
    } else {
        let before = items(looks.drop_last());
        match looks.last() {
            Taken::Item(x) => before.push(x),
            _ => before,
        }
    }
}

/// A further look adds the item that it brought, if it brought one.
pub proof fn lemma_items_pushed<T>(looks: Seq<Taken<T>>, taken: Taken<T>)
    ensures
        items(looks.push(taken)) == match taken {
            Taken::Item(x) => items(looks).push(x),
            _ => items(looks),
        },
{
    assert(looks.push(taken).drop_last() =~= looks);
}

// ---------------------------------------------------------------- channels between tasks

/// The sending half of a channel of `tokio::sync::mpsc`.
#[verifier::external_type_specification]
#[verifier::external_body]
#[verifier::reject_recursive_types(T)]
pub struct ExMpscSender<T>(tokio::sync::mpsc::Sender<T>);

/// The receiving half of a channel of `tokio::sync::mpsc`.
#[verifier::external_type_specification]
#[verifier::external_body]
#[verifier::reject_recursive_types(T)]
pub struct ExMpscReceiver<T>(tokio::sync::mpsc::Receiver<T>);

/// `tokio::sync::mpsc::channel`: a channel that holds up to `capacity` items. Nothing is stated of
/// its two ends.
#[verifier::external_body]
fn mpsc_channel<T>(capacity: usize) -> (r: (
    tokio::sync::mpsc::Sender<T>,
    tokio::sync::mpsc::Receiver<T>,
))
    requires
        1 <= capacity <= 0x1_0000,
{
    tokio::sync::mpsc::channel(capacity)
}

/// Whether these are the two ends of a channel that was made for so many items.
pub closed spec fn mpsc_made<T>(
    capacity: usize,
    tx: tokio::sync::mpsc::Sender<T>,
    rx: tokio::sync::mpsc::Receiver<T>,
) -> bool {
    call_ensures(mpsc_channel::<T>, (capacity,), (tx, rx))
}

/// Makes a channel for so many items.
pub(crate) fn open_channel<T>(capacity: usize) -> (r: (
    tokio::sync::mpsc::Sender<T>,
    tokio::sync::mpsc::Receiver<T>,
))
    requires
        1 <= capacity <= 0x1_0000,
    ensures
        mpsc_made(capacity, r.0, r.1),
{
    mpsc_channel(capacity)
}

/// `Sender::try_send` on an end that is shared: hands an item over where there is room. Whether
/// there is depends on the other tasks, so nothing is stated of the answer.
#[verifier::external_body]
fn mpsc_offer<T>(tx: &tokio::sync::mpsc::Sender<T>, item: T) -> (r: bool) {
    tx.try_send(item).is_ok()
}

/// Whether an item was handed to a shared end, which accepted it or not.
pub closed spec fn mpsc_offered<T>(
    tx: tokio::sync::mpsc::Sender<T>,
    item: T,
    accepted: bool,
) -> bool {
    call_ensures(mpsc_offer::<T>, (&tx, item), accepted)
}

/// Hands an item to a shared end without waiting; whether it was accepted.
pub(crate) fn hand_over<T>(tx: &tokio::sync::mpsc::Sender<T>, item: T) -> (r: bool)
    ensures
        mpsc_offered(*tx, item, r),
{
    mpsc_offer(tx, item)
}

/// `Sender::capacity`: the room that is left at this moment. Other tasks change it, so nothing is
/// stated of it.
#[verifier::external_body]
fn mpsc_room<T>(tx: &tokio::sync::mpsc::Sender<T>) -> (r: usize) {
    tx.capacity()
}

/// `Sender::max_capacity`: the room of the empty channel. It is the one that the channel was made
/// with; the contracts here need nothing of it.
#[verifier::external_body]
fn mpsc_size<T>(tx: &tokio::sync::mpsc::Sender<T>) -> (r: usize) {
    tx.max_capacity()
}

/// Whether so many items waited in a channel when it was asked: what its size exceeds its room by.
pub closed spec fn mpsc_held<T>(tx: tokio::sync::mpsc::Sender<T>, depth: usize) -> bool {
    exists|size: usize, room: usize|
        #![trigger call_ensures(mpsc_size::<T>, (&tx,), size), call_ensures(mpsc_room::<T>, (&tx,), room)]
        call_ensures(mpsc_size::<T>, (&tx,), size) && call_ensures(mpsc_room::<T>, (&tx,), room)
            && depth == if size > room {
            size - room
        } else {
            0
        }
}

/// A sending end between tasks with one owner.
#[verifier::reject_recursive_types(T)]
pub struct MpscOutbox<T> {
    tx: tokio::sync::mpsc::Sender<T>,
    record: Ghost<Seq<(T, bool)>>,
}

impl<T> MpscOutbox<T> {
    /// The end itself.
    pub closed spec fn end(&self) -> tokio::sync::mpsc::Sender<T> {
        self.tx
    }

    /// What was handed over through this end, in order, and whether it was accepted.
    pub closed spec fn record(&self) -> Seq<(T, bool)> {
        self.record@
    }

    /// An end through which nothing went yet.
    pub fn new(tx: tokio::sync::mpsc::Sender<T>) -> (r: MpscOutbox<T>)
        ensures
            r.end() == tx,
            r.record() == Seq::<(T, bool)>::empty(),
    {
        MpscOutbox { tx, record: Ghost(Seq::empty()) }
    }

    /// `Sender::try_send` by the one owner of an end: one item is handed over. Whether it is
    /// accepted depends on the other tasks.
    #[verifier::external_body]
    pub(crate) fn hand(&mut self, item: T) -> (r: bool)
        ensures
            final(self).end() == old(self).end(),
            final(self).record() == old(self).record().push((item, r)),
    {
        self.tx.try_send(item).is_ok()
    }

    /// The number of items that wait.
    pub(crate) fn depth(&self) -> (r: usize)
        ensures
            mpsc_held(self.end(), r),
    {
        let size: usize = mpsc_size(&self.tx);
        let room: usize = mpsc_room(&self.tx);
        assert(call_ensures(mpsc_size::<T>, (&self.tx,), size));
        assert(call_ensures(mpsc_room::<T>, (&self.tx,), room));
        if size > room {
            size - room
        } else {
            0
        }
    }
}

} // verus!
