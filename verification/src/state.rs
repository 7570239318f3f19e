//! The bookkeeping of a multiplexed connection: which requests wait for an
//! answer, which messages wait for a receiver, which tasks wait to be woken,
//! and who reads from the stream.
//!
//! Nothing here performs I/O or wakes a task. Every operation takes the state
//! and an event, and hands back what the caller has to do: read from the
//! stream, or wake the tasks that are named by their waiter ids.

use vstd::prelude::*;
use crate::error::Error;
use crate::requestable::{keys_comparable, same_key, Requestable};
use crate::search::{first_index, lemma_first_index_is};

verus! {

/// What a poll tells the task that made it.
pub enum Step<V> {
    /// The operation is complete with `value`. The task named by `wake`, if
    /// any, has to be woken so that it can take over the reader.
    Ready { value: V, wake: Option<u64> },
    /// The operation waits; its task will be woken. Where `read` is set the
    /// reader was idle and is now claimed: the caller has to read one message
    /// from the stream and report how that ended.
    Pending { read: bool },
}

/// The mailbox of one request: filled once, by the response or by the end
/// of the connection, and emptied by the task that made the request.
pub struct Slot<T: Requestable> {
    /// The id of the request.
    pub key: T::Key,
    /// What the request ended with, once it has ended.
    pub result: Option<Result<T, Error>>,
    /// The task to wake when the request ends.
    pub waiter: Option<u64>,
}

/// The state that all tasks on one connection share.
pub struct SharedState<T: Requestable> {
    requests: Vec<Slot<T>>,
    values: Vec<Result<T, Error>>,
    wakers: Vec<u64>,
    closed: bool,
    reading: bool,
}

/// The shared state as a mathematical value.
#[verifier::ext_equal]
pub struct StateView<T: Requestable> {
    /// The requests that have not been collected, oldest first.
    pub requests: Seq<Slot<T>>,
    /// The inbox: what no request claimed, in the order of arrival.
    pub values: Seq<Result<T, Error>>,
    /// The tasks that wait for a message in the inbox, in the order in
    /// which they suspended.
    pub wakers: Seq<u64>,
    /// Whether the stream has ended.
    pub closed: bool,
    /// Whether some task is reading from the stream.
    pub reading: bool,
}

/// Holds of the slots of the request `key`.
pub open spec fn has_key<T: Requestable>(key: T::Key) -> spec_fn(Slot<T>) -> bool {
    |slot: Slot<T>| slot.key == key
}

/// Holds of the slots of the request `key` that have no answer yet.
pub open spec fn is_pending<T: Requestable>(key: T::Key) -> spec_fn(Slot<T>) -> bool {
    |slot: Slot<T>| slot.key == key && slot.result is None
}

/// Holds of the slots without an answer whose task has asked to be woken.
pub open spec fn is_waiting<T: Requestable>() -> spec_fn(Slot<T>) -> bool {
    |slot: Slot<T>| slot.result is None && slot.waiter is Some
}

/// Whether the slot, if it holds a message, holds a response to its own
/// request.
pub open spec fn answers_own<T: Requestable>(slot: Slot<T>) -> bool {
    match slot.result {
        Some(Ok(message)) => message.spec_to() == Some(slot.key),
        _ => true,
    }
}

/// The slot as the end of the connection leaves it: a slot without an
/// answer is answered with `ConnectionClosed`.
pub open spec fn closed_slot<T: Requestable>(slot: Slot<T>) -> Slot<T> {
    if slot.result is None {
        Slot { key: slot.key, result: Some(Err(Error::ConnectionClosed)), waiter: slot.waiter }
    } else {
        slot
    }
}

/// The slots as the end of the connection leaves them.
pub open spec fn closed_slots<T: Requestable>(requests: Seq<Slot<T>>) -> Seq<Slot<T>> {
    Seq::new(requests.len(), |i: int| closed_slot(requests[i]))
}

/// What the end of the connection puts into the inbox for `n` waiting
/// receivers: `ConnectionClosed`, once for each.
pub open spec fn closed_notices<T: Requestable>(n: nat) -> Seq<Result<T, Error>> {
    Seq::new(n, |i: int| Err::<T, Error>(Error::ConnectionClosed))
}

/// The waiting tasks without `waiter`.
pub open spec fn without_waiter(wakers: Seq<u64>, waiter: u64) -> Seq<u64>
    decreases wakers.len(),
{
    if wakers.len() == 0 {
        Seq::empty()
    } else if wakers.last() == waiter {
        without_waiter(wakers.drop_last(), waiter)
    } else {
        without_waiter(wakers.drop_last(), waiter).push(wakers.last())
    }
}

/// The tasks that the slots name, oldest slot first.
pub open spec fn slot_waiters<T: Requestable>(requests: Seq<Slot<T>>) -> Seq<u64>
    decreases requests.len(),
{
    if requests.len() == 0 {
        Seq::empty()
    } else {
        let before = slot_waiters(requests.drop_last());
        match requests.last().waiter {
            Some(waiter) => before.push(waiter),
            None => before,
        }
    }
}

impl<T: Requestable> StateView<T> {
    /// What every reachable state satisfies: a slot holds only a response to
    /// its own request, and once the stream has ended no request is without
    /// an answer, no task waits and nobody reads.
    pub open spec fn wf(self) -> bool {
        &&& forall|i: int| 0 <= i < self.requests.len() ==> answers_own(#[trigger] self.requests[i])
        &&& self.closed ==> {
            &&& self.wakers.len() == 0
            &&& !self.reading
            &&& forall|i: int|
                0 <= i < self.requests.len() ==> (#[trigger] self.requests[i]).result is Some
        }
    }

    /// Whether the request `key` waits for its answer.
    pub open spec fn has_pending(self, key: T::Key) -> bool {
        first_index(self.requests, is_pending(key)) < self.requests.len()
    }

    /// The state of a connection that has just been opened.
    pub open spec fn fresh() -> StateView<T> {
        StateView {
            requests: Seq::empty(),
            values: Seq::empty(),
            wakers: Seq::empty(),
            closed: false,
            reading: false,
        }
    }

    /// Opens a slot for the request `key`, unless the stream has ended.
    pub open spec fn register(self, key: T::Key) -> StateView<T> {
        if self.closed {
            self
        } else {
            StateView {
                requests: self.requests.push(Slot { key, result: None, waiter: None }),
                ..self
            }
        }
    }

    /// Claims the reader: the second part says whether the caller has to
    /// read. That is so when nobody reads and the stream has not ended.
    pub open spec fn recv(self) -> (StateView<T>, bool) {
        if self.reading || self.closed {
            (self, false)
        } else {
            (StateView { reading: true, ..self }, true)
        }
    }

    /// Picks a task to wake: the receiver that has waited longest, which
    /// then waits no more; else the task of the oldest request that has no
    /// answer and has asked to be woken.
    pub open spec fn wake_one(self) -> (StateView<T>, Option<u64>) {
        if self.wakers.len() > 0 {
            (StateView { wakers: self.wakers.drop_first(), ..self }, Some(self.wakers[0]))
        } else {
            let i = first_index(self.requests, is_waiting());
            if i < self.requests.len() {
                (self, self.requests[i].waiter)
            } else {
                (self, None)
            }
        }
    }

    /// The receiver `waiter` waits no more.
    pub open spec fn leave(self, waiter: u64) -> StateView<T> {
        StateView { wakers: without_waiter(self.wakers, waiter), ..self }
    }

    /// The request `key` is given up: its oldest slot is dropped, and an
    /// answer that comes after all goes to the inbox.
    pub open spec fn abandon(self, key: T::Key) -> StateView<T> {
        let i = first_index(self.requests, has_key(key));
        if i < self.requests.len() {
            StateView { requests: self.requests.remove(i), ..self }
        } else {
            self
        }
    }

    /// A poll by a receiver. The oldest entry of the inbox is handed out,
    /// and the receiver waits no more; with an empty inbox the receiver
    /// learns that the stream has ended, or joins the waiting tasks and
    /// claims the reader if it is idle.
    pub open spec fn poll_receive(self, waiter: u64) -> (StateView<T>, Step<Result<T, Error>>) {
        if self.values.len() > 0 {
            let taken = StateView { values: self.values.drop_first(), ..self }.leave(waiter);
            let (next, wake) = taken.wake_one();
            (next, Step::Ready { value: self.values[0], wake })
        } else if self.closed {
            (self, Step::Ready { value: Err(Error::ConnectionClosed), wake: None })
        } else {
            let queued = if self.wakers.contains(waiter) {
                self
            } else {
                StateView { wakers: self.wakers.push(waiter), ..self }
            };
            let (next, read) = queued.recv();
            (next, Step::Pending { read })
        }
    }

    /// A poll by the task that made the request `key`. An answer is handed
    /// out and its slot given up; without an answer the task is noted in the
    /// slot and claims the reader if it is idle. A request that has no slot
    /// learns that the stream has ended, or gets a slot now.
    pub open spec fn poll_response(self, key: T::Key, waiter: u64) -> (
        StateView<T>,
        Step<Result<T, Error>>,
    ) {
        let i = first_index(self.requests, has_key(key));
        if i < self.requests.len() {
            match self.requests[i].result {
                Some(value) => {
                    let taken = StateView { requests: self.requests.remove(i), ..self };
                    let (next, wake) = taken.wake_one();
                    (next, Step::Ready { value, wake })
                },
                None => {
                    let slot = Slot {
                        key: self.requests[i].key,
                        result: None,
                        waiter: Some(waiter),
                    };
                    let noted = StateView { requests: self.requests.update(i, slot), ..self };
                    let (next, read) = noted.recv();
                    (next, Step::Pending { read })
                },
            }
        } else if self.closed {
            (self, Step::Ready { value: Err(Error::ConnectionClosed), wake: None })
        } else {
            let slot = Slot { key, result: None, waiter: Some(waiter) };
            let noted = StateView { requests: self.requests.push(slot), ..self };
            let (next, read) = noted.recv();
            (next, Step::Pending { read })
        }
    }

    /// Whether `message` answers a request that waits for its answer.
    pub open spec fn claims(self, message: T) -> bool {
        message.spec_to() matches Some(key) && self.has_pending(key)
    }

    /// The end of a read that brought `message`, made by the task `waker`.
    /// The reader is idle again. A response to a waiting request fills the
    /// oldest such slot, and the task noted there is to be woken. Any other
    /// message joins the inbox; the receiver that has waited longest is to
    /// be woken and waits no more, or else the reading task itself.
    pub open spec fn dispatch(self, message: T, waker: u64) -> (StateView<T>, Option<u64>) {
        if self.claims(message) {
            let key = message.spec_to().unwrap();
            let i = first_index(self.requests, is_pending(key));
            let slot = Slot { key: self.requests[i].key, result: Some(Ok(message)), waiter: None };
            (
                StateView { requests: self.requests.update(i, slot), reading: false, ..self },
                self.requests[i].waiter,
            )
        } else {
            let values = self.values.push(Ok(message));
            if self.wakers.len() > 0 {
                (
                    StateView { values, wakers: self.wakers.drop_first(), reading: false, ..self },
                    Some(self.wakers[0]),
                )
            } else {
                (StateView { values, reading: false, ..self }, Some(waker))
            }
        }
    }

    /// The end of a read that brought no message, made by the task
    /// `reader`, whose call ends with the error. The reader is idle again.
    /// As a receiver the task waits no more; the slots and the inbox stay as
    /// they are, and so does the stream. The second part names the task to
    /// wake, so that it takes over the reading.
    pub open spec fn refuse(self, reader: u64) -> (StateView<T>, Option<u64>) {
        StateView { reading: false, ..self }.leave(reader).wake_one()
    }

    /// The end of the stream. Every request without an answer is answered
    /// with `ConnectionClosed`; the inbox gets one `ConnectionClosed` for
    /// every waiting receiver; nobody waits or reads any more. The second
    /// part names the tasks to wake: those of the requests, then the
    /// receivers.
    pub open spec fn close_connection(self) -> (StateView<T>, Seq<u64>) {
        (
            StateView {
                requests: closed_slots(self.requests),
                values: self.values + closed_notices(self.wakers.len()),
                wakers: Seq::empty(),
                closed: true,
                reading: false,
            },
            slot_waiters(self.requests) + self.wakers,
        )
    }
}

impl<T: Requestable> View for SharedState<T> {
    type V = StateView<T>;

    closed spec fn view(&self) -> StateView<T> {
        StateView {
            requests: self.requests@,
            values: self.values@,
            wakers: self.wakers@,
            closed: self.closed,
            reading: self.reading,
        }
    }
}

/// Whether `waiter` is among `wakers`.
fn is_queued(wakers: &Vec<u64>, waiter: u64) -> (r: bool)
    ensures
        r == wakers@.contains(waiter),
{
    let mut i: usize = 0;
    while i < wakers.len()
        invariant
            i <= wakers.len(),
            forall|j: int| 0 <= j < i ==> wakers@[j] != waiter,
        decreases wakers.len() - i,
    {
        if wakers[i] == waiter {
            return true;
        }
        i += 1;
    }
    false
}

impl<T: Requestable> SharedState<T> {
    /// The state of a connection that has just been opened: nothing waits,
    /// nobody reads, the stream has not ended.
    pub fn new() -> (state: Self)
        ensures
            state@ == StateView::<T>::fresh(),
            state@.wf(),
    {
        SharedState {
            requests: Vec::new(),
            values: Vec::new(),
            wakers: Vec::new(),
            closed: false,
            reading: false,
        }
    }

    /// Whether the stream has ended.
    pub fn is_closed(&self) -> (r: bool)
        ensures
            r == self@.closed,
    {
        self.closed
    }

    /// Whether some task is reading from the stream.
    pub fn is_reading(&self) -> (r: bool)
        ensures
            r == self@.reading,
    {
        self.reading
    }

    /// The position of the oldest slot of the request `key`.
    fn find_slot(&self, key: &T::Key) -> (i: usize)
        requires
            keys_comparable::<T>(),
        ensures
            i == first_index(self.requests@, has_key(*key)),
            i <= self.requests@.len(),
    {
        let mut i: usize = 0;
        while i < self.requests.len()
            invariant
                keys_comparable::<T>(),
                i <= self.requests.len(),
                forall|j: int| 0 <= j < i ==> !has_key::<T>(*key)(#[trigger] self.requests@[j]),
            decreases self.requests.len() - i,
        {
            if same_key::<T>(&self.requests[i].key, key) {
                proof {
                    lemma_first_index_is(self.requests@, has_key(*key), i as int);
                }
                return i;
            }
            i += 1;
        }
        proof {
            lemma_first_index_is(self.requests@, has_key(*key), i as int);
        }
        i
    }

    /// The position of the oldest slot of the request `key` that has no
    /// answer.
    fn find_pending(&self, key: &T::Key) -> (i: usize)
        requires
            keys_comparable::<T>(),
        ensures
            i == first_index(self.requests@, is_pending(*key)),
            i <= self.requests@.len(),
    {
        let mut i: usize = 0;
        while i < self.requests.len()
            invariant
                keys_comparable::<T>(),
                i <= self.requests.len(),
                forall|j: int| 0 <= j < i ==> !is_pending::<T>(*key)(#[trigger] self.requests@[j]),
            decreases self.requests.len() - i,
        {
            if self.requests[i].result.is_none() && same_key::<T>(&self.requests[i].key, key) {
                proof {
                    lemma_first_index_is(self.requests@, is_pending(*key), i as int);
                }
                return i;
            }
            i += 1;
        }
        proof {
            lemma_first_index_is(self.requests@, is_pending(*key), i as int);
        }
        i
    }

    /// The position of the oldest slot without an answer whose task has
    /// asked to be woken.
    fn find_waiting(&self) -> (i: usize)
        ensures
            i == first_index(self.requests@, is_waiting()),
            i <= self.requests@.len(),
    {
        let mut i: usize = 0;
        while i < self.requests.len()
            invariant
                i <= self.requests.len(),
                forall|j: int| 0 <= j < i ==> !is_waiting::<T>()(#[trigger] self.requests@[j]),
            decreases self.requests.len() - i,
        {
            if self.requests[i].result.is_none() && self.requests[i].waiter.is_some() {
                proof {
                    lemma_first_index_is(self.requests@, is_waiting(), i as int);
                }
                return i;
            }
            i += 1;
        }
        proof {
            lemma_first_index_is(self.requests@, is_waiting(), i as int);
        }
        i
    }

    /// Opens a slot for the request `key`, which is about to be sent.
    /// Returns whether it did: once the stream has ended no request is
    /// taken on.
    pub fn register(&mut self, key: T::Key) -> (opened: bool)
        ensures
            final(self)@ == old(self)@.register(key),
            opened == !old(self)@.closed,
            old(self)@.wf() ==> final(self)@.wf(),
    {
        if self.closed {
            false
        } else {
            self.requests.push(Slot { key, result: None, waiter: None });
            proof {
                if old(self)@.wf() {
                    old(self)@.lemma_register(key);
                }
            }
            true
        }
    }

    /// Claims the reader for the calling task. Returns whether the task has
    /// to read one message from the stream; it has to report the outcome
    /// with `dispatch`, `refuse` or `close_connection`.
    pub fn recv(&mut self) -> (read: bool)
        ensures
            final(self)@ == old(self)@.recv().0,
            read == old(self)@.recv().1,
            old(self)@.wf() ==> final(self)@.wf(),
    {
        let read = if self.reading || self.closed {
            false
        } else {
            self.reading = true;
            true
        };
        proof {
            if old(self)@.wf() {
                old(self)@.lemma_recv();
            }
        }
        read
    }

    /// Takes the receiver `waiter` out of the waiting tasks: its task has
    /// lost interest, or has got what it waited for.
    pub fn leave(&mut self, waiter: u64)
        ensures
            final(self)@ == old(self)@.leave(waiter),
            old(self)@.wf() ==> final(self)@.wf(),
    {
        let mut kept: Vec<u64> = Vec::new();
        let mut i: usize = 0;
        proof {
            assert(self.wakers@.take(0) =~= Seq::<u64>::empty());
        }
        while i < self.wakers.len()
            invariant
                i <= self.wakers.len(),
                *self == *old(self),
                kept@ == without_waiter(self.wakers@.take(i as int), waiter),
            decreases self.wakers.len() - i,
        {
            proof {
                assert(self.wakers@.take(i + 1).drop_last() =~= self.wakers@.take(i as int));
            }
            if self.wakers[i] != waiter {
                kept.push(self.wakers[i]);
            }
            i += 1;
        }
        proof {
            assert(self.wakers@.take(i as int) =~= self.wakers@);
        }
        self.wakers = kept;
        proof {
            if old(self)@.wf() {
                old(self)@.lemma_leave(waiter);
            }
        }
    }

    /// Gives up the request `key`: its task has lost interest. The slot of
    /// the request is dropped; an answer that comes after all goes to the
    /// inbox.
    pub fn abandon(&mut self, key: &T::Key)
        requires
            keys_comparable::<T>(),
        ensures
            final(self)@ == old(self)@.abandon(*key),
            old(self)@.wf() ==> final(self)@.wf(),
    {
        let i = self.find_slot(key);
        if i < self.requests.len() {
            self.requests.remove(i);
        }
        proof {
            if old(self)@.wf() {
                old(self)@.lemma_abandon(*key);
            }
        }
    }

    /// Picks the task that should poll next, if any waits.
    pub fn wake_one(&mut self) -> (wake: Option<u64>)
        ensures
            final(self)@ == old(self)@.wake_one().0,
            wake == old(self)@.wake_one().1,
            old(self)@.wf() ==> final(self)@.wf(),
    {
        let wake = if self.wakers.len() > 0 {
            let waiter = self.wakers.remove(0);
            assert(self.wakers@ =~= old(self).wakers@.drop_first());
            Some(waiter)
        } else {
            let i = self.find_waiting();
            if i < self.requests.len() {
                self.requests[i].waiter
            } else {
                None
            }
        };
        proof {
            if old(self)@.wf() {
                old(self)@.lemma_wake_one();
            }
        }
        wake
    }

    /// A poll by the receiver `waiter`.
    pub fn poll_receive(&mut self, waiter: u64) -> (step: Step<Result<T, Error>>)
        ensures
            final(self)@ == old(self)@.poll_receive(waiter).0,
            step == old(self)@.poll_receive(waiter).1,
            old(self)@.wf() ==> final(self)@.wf(),
    {
        let step = if self.values.len() > 0 {
            let value = self.values.remove(0);
            assert(self.values@ =~= old(self).values@.drop_first());
            self.leave(waiter);
            let wake = self.wake_one();
            Step::Ready { value, wake }
        } else if self.closed {
            Step::Ready { value: Err(Error::ConnectionClosed), wake: None }
        } else {
            if !is_queued(&self.wakers, waiter) {
                self.wakers.push(waiter);
            }
            let read = self.recv();
            Step::Pending { read }
        };
        proof {
            if old(self)@.wf() {
                old(self)@.lemma_poll_receive(waiter);
            }
        }
        step
    }

    /// A poll by the task `waiter`, which made the request `key`.
    pub fn poll_response(&mut self, key: T::Key, waiter: u64) -> (step: Step<Result<T, Error>>)
        requires
            keys_comparable::<T>(),
        ensures
            final(self)@ == old(self)@.poll_response(key, waiter).0,
            step == old(self)@.poll_response(key, waiter).1,
            old(self)@.wf() ==> final(self)@.wf(),
            old(self)@.wf() ==> match step {
                Step::Ready { value: Ok(message), .. } => message.spec_to() == Some(key),
                _ => true,
            },
    {
        let i = self.find_slot(&key);
        let step = if i < self.requests.len() {
            let slot = self.requests.remove(i);
            match slot.result {
                Some(value) => {
                    let wake = self.wake_one();
                    Step::Ready { value, wake }
                },
                None => {
                    let noted = Slot { key: slot.key, result: None, waiter: Some(waiter) };
                    self.requests.insert(i, noted);
                    assert(self.requests@ =~= old(self).requests@.update(i as int, noted));
                    let read = self.recv();
                    Step::Pending { read }
                },
            }
        } else if self.closed {
            Step::Ready { value: Err(Error::ConnectionClosed), wake: None }
        } else {
            self.requests.push(Slot { key, result: None, waiter: Some(waiter) });
            let read = self.recv();
            Step::Pending { read }
        };
        proof {
            if old(self)@.wf() {
                old(self)@.lemma_poll_response(key, waiter);
            }
        }
        step
    }

    /// Reports that the read which the task `waker` made has brought
    /// `message`. Returns the task to wake.
    pub fn dispatch(&mut self, message: T, waker: u64) -> (wake: Option<u64>)
        requires
            keys_comparable::<T>(),
        ensures
            final(self)@ == old(self)@.dispatch(message, waker).0,
            wake == old(self)@.dispatch(message, waker).1,
            old(self)@.wf() ==> final(self)@.wf(),
    {
        self.reading = false;
        let i = match message.to() {
            Some(key) => self.find_pending(&key),
            None => self.requests.len(),
        };
        let wake = if i < self.requests.len() {
            let slot = self.requests.remove(i);
            let filled = Slot { key: slot.key, result: Some(Ok(message)), waiter: None };
            self.requests.insert(i, filled);
            assert(self.requests@ =~= old(self).requests@.update(i as int, filled));
            slot.waiter
        } else {
            self.values.push(Ok(message));
            if self.wakers.len() > 0 {
                let waiter = self.wakers.remove(0);
                assert(self.wakers@ =~= old(self).wakers@.drop_first());
                Some(waiter)
            } else {
                Some(waker)
            }
        };
        proof {
            if old(self)@.wf() {
                old(self)@.lemma_dispatch(message, waker);
            }
        }
        wake
    }

    /// Reports that the read which the task `reader` made has brought no
    /// message: the call of that task ends with an error of its own, and
    /// nothing else changes for the other tasks. Returns the task to wake.
    pub fn refuse(&mut self, reader: u64) -> (wake: Option<u64>)
        ensures
            final(self)@ == old(self)@.refuse(reader).0,
            wake == old(self)@.refuse(reader).1,
            final(self)@.closed == old(self)@.closed,
            final(self)@.requests == old(self)@.requests,
            final(self)@.values == old(self)@.values,
            !final(self)@.reading,
            old(self)@.wf() ==> final(self)@.wf(),
    {
        self.reading = false;
        self.leave(reader);
        let wake = self.wake_one();
        proof {
            old(self)@.lemma_refuse(reader);
        }
        wake
    }

    /// Reports that the stream has ended. Returns the tasks to wake.
    pub fn close_connection(&mut self) -> (woken: Vec<u64>)
        ensures
            final(self)@ == old(self)@.close_connection().0,
            woken@ == old(self)@.close_connection().1,
            final(self)@.closed,
            old(self)@.wf() ==> final(self)@.wf(),
    {
        let mut woken: Vec<u64> = Vec::new();
        let mut i: usize = 0;
        let n = self.requests.len();
        while i < n
            invariant
                i <= n,
                n == self.requests.len(),
                self.requests@.len() == old(self).requests@.len(),
                forall|j: int|
                    0 <= j < i ==> #[trigger] self.requests@[j] == closed_slot(
                        old(self).requests@[j],
                    ),
                forall|j: int|
                    i <= j < n ==> #[trigger] self.requests@[j] == old(self).requests@[j],
                woken@ == slot_waiters(old(self).requests@.take(i as int)),
                self.values == old(self).values,
                self.wakers == old(self).wakers,
            decreases n - i,
        {
            let slot = self.requests.remove(i);
            proof {
                assert(old(self).requests@.take(i + 1).drop_last() =~= old(self).requests@.take(
                    i as int,
                ));
            }
            match slot.waiter {
                Some(waiter) => woken.push(waiter),
                None => {},
            }
            let result = match slot.result {
                Some(result) => Some(result),
                None => Some(Err(Error::ConnectionClosed)),
            };
            self.requests.insert(i, Slot { key: slot.key, result, waiter: slot.waiter });
            i += 1;
        }
        assert(old(self).requests@.take(n as int) =~= old(self).requests@);
        assert(self.requests@ =~= closed_slots(old(self).requests@));
        let ghost before = woken@;
        let ghost inbox = self.values@;
        let mut k: usize = 0;
        let m = self.wakers.len();
        while k < m
            invariant
                k <= m,
                m == self.wakers.len(),
                self.wakers == old(self).wakers,
                self.requests@ == closed_slots(old(self).requests@),
                woken@ == before + self.wakers@.take(k as int),
                self.values@ == inbox + closed_notices::<T>(k as nat),
            decreases m - k,
        {
            woken.push(self.wakers[k]);
            self.values.push(Err(Error::ConnectionClosed));
            proof {
                assert(self.wakers@.take(k + 1) =~= self.wakers@.take(k as int).push(
                    self.wakers@[k as int],
                ));
                assert(woken@ =~= before + self.wakers@.take(k + 1));
                assert(self.values@ =~= inbox + closed_notices::<T>((k + 1) as nat));
            }
            k += 1;
        }
        assert(self.wakers@.take(m as int) =~= self.wakers@);
        self.wakers.clear();
        self.closed = true;
        self.reading = false;
        proof {
            if old(self)@.wf() {
                old(self)@.lemma_close_connection();
            }
        }
        woken
    }
}

} // verus!
