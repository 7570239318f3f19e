//! What holds of the multiplexer in every state it can reach.

use vstd::prelude::*;
use crate::error::Error;
use crate::requestable::Requestable;
use crate::search::{first_index, lemma_first_index, lemma_first_index_is};
use crate::state::{
    answers_own, has_key, is_pending, slot_waiters, without_waiter, Slot, StateView, Step,
};

verus! {

/// Something that happens on a connection while its stream is open.
pub enum Event<T: Requestable> {
    /// A request with this id is about to be sent.
    Register { key: T::Key },
    /// The task `waiter` polls for the answer to the request `key`.
    Response { key: T::Key, waiter: u64 },
    /// The receiver `waiter` polls for a message.
    Receive { waiter: u64 },
    /// The task `reader` has read `message` from the stream.
    Arrival { message: T, reader: u64 },
    /// The task `reader` has read bytes that are no message.
    Refusal { reader: u64 },
    /// The receiver `waiter` gives up.
    Leave { waiter: u64 },
    /// The task that made the request `key` gives up.
    Abandon { key: T::Key },
}

impl<T: Requestable> StateView<T> {
    /// A fresh connection is in order.
    pub proof fn lemma_fresh()
        ensures
            Self::fresh().wf(),
            !Self::fresh().closed,
    {
    }

    /// Opening a slot keeps the state in order.
    pub proof fn lemma_register(self, key: T::Key)
        requires
            self.wf(),
        ensures
            self.register(key).wf(),
            self.register(key).closed == self.closed,
    {
    }

    /// Claiming the reader keeps the state in order, and nobody is told to
    /// read once the stream has ended.
    pub proof fn lemma_recv(self)
        requires
            self.wf(),
        ensures
            self.recv().0.wf(),
            self.recv().0.closed == self.closed,
            self.closed ==> !self.recv().1,
    {
    }

    /// Picking a task to wake keeps the state in order.
    pub proof fn lemma_wake_one(self)
        requires
            self.wf(),
        ensures
            self.wake_one().0.wf(),
            self.wake_one().0.closed == self.closed,
            self.wake_one().0.requests == self.requests,
            self.wake_one().0.values == self.values,
    {
    }

    /// A receiver that leaves keeps the state in order.
    pub proof fn lemma_leave(self, waiter: u64)
        requires
            self.wf(),
        ensures
            self.leave(waiter).wf(),
            self.leave(waiter).closed == self.closed,
            self.leave(waiter).values == self.values,
            self.leave(waiter).requests == self.requests,
            !self.leave(waiter).wakers.contains(waiter),
    {
        lemma_without_waiter(self.wakers, waiter);
    }

    /// A request that is given up keeps the state in order.
    pub proof fn lemma_abandon(self, key: T::Key)
        requires
            self.wf(),
        ensures
            self.abandon(key).wf(),
            self.abandon(key).closed == self.closed,
            self.abandon(key).values == self.values,
    {
        lemma_first_index(self.requests, has_key(key));
        let i = first_index(self.requests, has_key(key));
        if i < self.requests.len() {
            let after = self.abandon(key);
            assert forall|j: int| 0 <= j < after.requests.len() implies answers_own(
                #[trigger] after.requests[j],
            ) && (self.closed ==> after.requests[j].result is Some) by {
                if j < i {
                    assert(after.requests[j] == self.requests[j]);
                } else {
                    assert(after.requests[j] == self.requests[j + 1]);
                }
            }
        }
    }

    /// A read that brought no message changes nothing but who reads and
    /// who waits: the stream stays as it is, and so do all slots and the
    /// inbox.
    pub proof fn lemma_refuse(self, reader: u64)
        ensures
            self.refuse(reader).0.closed == self.closed,
            self.refuse(reader).0.requests == self.requests,
            self.refuse(reader).0.values == self.values,
            !self.refuse(reader).0.reading,
            self.wf() ==> self.refuse(reader).0.wf(),
    {
        let idle = StateView { reading: false, ..self };
        if self.wf() {
            idle.lemma_leave(reader);
            idle.leave(reader).lemma_wake_one();
        }
    }

    /// A poll by a receiver keeps the state in order.
    pub proof fn lemma_poll_receive(self, waiter: u64)
        requires
            self.wf(),
        ensures
            self.poll_receive(waiter).0.wf(),
            self.poll_receive(waiter).0.closed == self.closed,
    {
        if self.values.len() > 0 {
            let taken = StateView { values: self.values.drop_first(), ..self };
            taken.lemma_leave(waiter);
            taken.leave(waiter).lemma_wake_one();
        }
    }

    /// At most one task reads: a poll hands the reader over only when
    /// nobody reads, and from then on somebody does.
    pub proof fn lemma_one_reader(self, key: T::Key, waiter: u64)
        ensures
            self.recv().1 ==> !self.reading && self.recv().0.reading,
            self.poll_receive(waiter).1 matches Step::Pending { read: true } ==> !self.reading
                && self.poll_receive(waiter).0.reading,
            self.poll_response(key, waiter).1 matches Step::Pending { read: true }
                ==> !self.reading && self.poll_response(key, waiter).0.reading,
            self.reading ==> !self.recv().1 && !(self.poll_receive(waiter).1 matches Step::Pending {
                read: true,
            }) && !(self.poll_response(key, waiter).1 matches Step::Pending { read: true }),
    {
    }

    /// A poll for an answer keeps the state in order, and the answer it
    /// hands out, if that is a message, is a response to the request that
    /// was asked about.
    pub proof fn lemma_poll_response(self, key: T::Key, waiter: u64)
        requires
            self.wf(),
        ensures
            self.poll_response(key, waiter).0.wf(),
            self.poll_response(key, waiter).0.closed == self.closed,
            match self.poll_response(key, waiter).1 {
                Step::Ready { value: Ok(message), .. } => message.spec_to() == Some(key),
                _ => true,
            },
    {
        lemma_first_index(self.requests, has_key(key));
        let i = first_index(self.requests, has_key(key));
        if i < self.requests.len() {
            assert(answers_own(self.requests[i]));
            match self.requests[i].result {
                Some(value) => {
                    let taken = StateView { requests: self.requests.remove(i), ..self };
                    assert forall|j: int| 0 <= j < taken.requests.len() implies answers_own(
                        #[trigger] taken.requests[j],
                    ) by {
                        if j < i {
                            assert(taken.requests[j] == self.requests[j]);
                        } else {
                            assert(taken.requests[j] == self.requests[j + 1]);
                        }
                    }
                    if self.closed {
                        assert forall|j: int| 0 <= j < taken.requests.len() implies (
                        #[trigger] taken.requests[j]).result is Some by {
                            if j < i {
                                assert(taken.requests[j] == self.requests[j]);
                            } else {
                                assert(taken.requests[j] == self.requests[j + 1]);
                            }
                        }
                    }
                    taken.lemma_wake_one();
                },
                None => {},
            }
        }
    }

    /// The end of a read keeps the state in order.
    pub proof fn lemma_dispatch(self, message: T, waker: u64)
        requires
            self.wf(),
        ensures
            self.dispatch(message, waker).0.wf(),
            self.dispatch(message, waker).0.closed == self.closed,
            self.dispatch(message, waker).0.requests.len() == self.requests.len(),
    {
        if self.claims(message) {
            let key = message.spec_to().unwrap();
            lemma_first_index(self.requests, is_pending(key));
        }
    }

    /// After the end of the stream the state is in order and closed, every
    /// request has an answer, and every task that waited is named among
    /// those to wake.
    pub proof fn lemma_close_connection(self)
        requires
            self.wf(),
        ensures
            self.close_connection().0.wf(),
            self.close_connection().0.closed,
            forall|i: int|
                0 <= i < self.requests.len() && (#[trigger] self.requests[i]).result is None
                    ==> self.close_connection().0.requests[i].result == Some(
                    Err::<T, Error>(Error::ConnectionClosed),
                ),
            forall|i: int|
                0 <= i < self.requests.len() && (#[trigger] self.requests[i]).result is Some
                    ==> self.close_connection().0.requests[i] == self.requests[i],
            forall|i: int|
                0 <= i < self.wakers.len() ==> self.close_connection().1.contains(
                    #[trigger] self.wakers[i],
                ),
            forall|i: int|
                0 <= i < self.requests.len() && (#[trigger] self.requests[i]).waiter is Some
                    ==> self.close_connection().1.contains(self.requests[i].waiter.unwrap()),
    {
        let woken = self.close_connection().1;
        let from_slots = slot_waiters(self.requests);
        assert forall|i: int| 0 <= i < self.wakers.len() implies woken.contains(
            #[trigger] self.wakers[i],
        ) by {
            assert(woken[from_slots.len() + i] == self.wakers[i]);
        }
        assert forall|i: int|
            0 <= i < self.requests.len() && (#[trigger] self.requests[i]).waiter
                is Some implies woken.contains(self.requests[i].waiter.unwrap()) by {
            lemma_slot_waiters(self.requests, i);
            let k = choose|k: int|
                0 <= k < from_slots.len() && from_slots[k] == self.requests[i].waiter.unwrap();
            assert(woken[k] == from_slots[k]);
        }
    }

    /// Once the stream has ended, no request is taken on, nobody is told to
    /// read, and no poll suspends: a request gets what its slot holds or
    /// `ConnectionClosed`, a receiver what the inbox holds or, when that is
    /// empty, `ConnectionClosed`. The state stays closed and the inbox only
    /// shrinks.
    pub proof fn lemma_closed_is_final(self, key: T::Key, waiter: u64)
        requires
            self.wf(),
            self.closed,
        ensures
            self.register(key) == self,
            self.recv() == (self, false),
            self.poll_response(key, waiter).1 is Ready,
            self.poll_response(key, waiter).0.closed,
            !self.has_pending(key),
            self.poll_receive(waiter).1 is Ready,
            self.poll_receive(waiter).0.closed,
            self.values.len() == 0 ==> self.poll_receive(waiter) == (
                self,
                Step::Ready { value: Err::<T, Error>(Error::ConnectionClosed), wake: None },
            ),
            self.values.len() > 0 ==> self.poll_receive(waiter).0.values.len() == self.values.len()
                - 1,
    {
        lemma_first_index(self.requests, has_key(key));
        lemma_first_index(self.requests, is_pending(key));
        self.lemma_poll_response(key, waiter);
        self.lemma_poll_receive(waiter);
        if self.values.len() > 0 {
            let taken = StateView { values: self.values.drop_first(), ..self };
            taken.lemma_leave(waiter);
            taken.leave(waiter).lemma_wake_one();
        } else {
            assert(self.wakers =~= Seq::<u64>::empty());
        }
    }

    /// The state after a series of arrivals, all read by the task `reader`.
    pub open spec fn dispatch_all(self, messages: Seq<T>, reader: u64) -> StateView<T>
        decreases messages.len(),
    {
        if messages.len() == 0 {
            self
        } else {
            self.dispatch(messages[0], reader).0.dispatch_all(messages.drop_first(), reader)
        }
    }

    /// A slot that has its answer keeps it, whatever arrives.
    pub proof fn lemma_answer_stays(self, messages: Seq<T>, reader: u64, i: int)
        requires
            0 <= i < self.requests.len(),
            self.requests[i].result is Some,
        ensures
            self.dispatch_all(messages, reader).requests.len() == self.requests.len(),
            self.dispatch_all(messages, reader).requests[i] == self.requests[i],
        decreases messages.len(),
    {
        if messages.len() > 0 {
            let message = messages[0];
            if self.claims(message) {
                lemma_first_index(self.requests, is_pending(message.spec_to().unwrap()));
            }
            self.dispatch(message, reader).0.lemma_answer_stays(
                messages.drop_first(),
                reader,
                i,
            );
        }
    }

    /// Each request gets its own response, in whatever order the responses
    /// arrive: when the request `key` waits for its answer and
    /// `messages[j]` is the first arrival that answers `key`, then after all
    /// arrivals the slot of that request holds `messages[j]`.
    pub proof fn lemma_response_reaches_request(
        self,
        messages: Seq<T>,
        reader: u64,
        key: T::Key,
        j: int,
    )
        requires
            self.has_pending(key),
            0 <= j < messages.len(),
            messages[j].spec_to() == Some(key),
            forall|k: int| 0 <= k < j ==> (#[trigger] messages[k]).spec_to() != Some(key),
        ensures
            ({
                let i = first_index(self.requests, is_pending(key));
                let after = self.dispatch_all(messages, reader);
                &&& after.requests.len() == self.requests.len()
                &&& after.requests[i].key == key
                &&& after.requests[i].result == Some(Ok::<T, Error>(messages[j]))
            }),
        decreases messages.len(),
    {
        let i = first_index(self.requests, is_pending(key));
        lemma_first_index(self.requests, is_pending(key));
        let message = messages[0];
        let next = self.dispatch(message, reader).0;
        let rest = messages.drop_first();
        if j == 0 {
            next.lemma_answer_stays(rest, reader, i);
        } else {
            assert(message.spec_to() != Some(key));
            if self.claims(message) {
                let other = message.spec_to().unwrap();
                let at = first_index(self.requests, is_pending(other));
                lemma_first_index(self.requests, is_pending(other));
                assert(at != i);
                assert forall|k: int| 0 <= k < i implies !is_pending::<T>(key)(
                    #[trigger] next.requests[k],
                ) by {
                    if k != at {
                        assert(next.requests[k] == self.requests[k]);
                    }
                }
            }
            lemma_first_index_is(next.requests, is_pending(key), i);
            assert(rest[j - 1] == messages[j]);
            assert forall|k: int| 0 <= k < j - 1 implies (#[trigger] rest[k]).spec_to() != Some(
                key,
            ) by {
                assert(rest[k] == messages[k + 1]);
            }
            next.lemma_response_reaches_request(rest, reader, key, j - 1);
        }
    }

    /// A message that no waiting request claims, and that arrives while
    /// the inbox is empty, is what the next receiver is handed.
    pub proof fn lemma_arrival_is_received(self, message: T, reader: u64, waiter: u64)
        requires
            !self.claims(message),
            self.values.len() == 0,
        ensures
            match self.dispatch(message, reader).0.poll_receive(waiter).1 {
                Step::Ready { value, .. } => value == Ok::<T, Error>(message),
                Step::Pending { .. } => false,
            },
    {
        let after = self.dispatch(message, reader).0;
        assert(after.values =~= seq![Ok::<T, Error>(message)]);
    }

    /// The state that one event leads to.
    pub open spec fn step(self, event: Event<T>) -> StateView<T> {
        match event {
            Event::Register { key } => self.register(key),
            Event::Response { key, waiter } => self.poll_response(key, waiter).0,
            Event::Receive { waiter } => self.poll_receive(waiter).0,
            Event::Arrival { message, reader } => self.dispatch(message, reader).0,
            Event::Refusal { reader } => self.refuse(reader).0,
            Event::Leave { waiter } => self.leave(waiter),
            Event::Abandon { key } => self.abandon(key),
        }
    }

    /// What the event hands to a receiver, if anything.
    pub open spec fn handed_out(self, event: Event<T>) -> Seq<Result<T, Error>> {
        match event {
            Event::Receive { waiter } => match self.poll_receive(waiter).1 {
                Step::Ready { value, .. } => seq![value],
                Step::Pending { .. } => Seq::empty(),
            },
            _ => Seq::empty(),
        }
    }

    /// What the event adds to the messages that no request claims: an
    /// arrival that answers no waiting request.
    pub open spec fn unclaimed(self, event: Event<T>) -> Seq<Result<T, Error>> {
        match event {
            Event::Arrival { message, reader } => if self.claims(message) {
                Seq::empty()
            } else {
                seq![Ok(message)]
            },
            _ => Seq::empty(),
        }
    }

    /// The state after a series of events.
    pub open spec fn run(self, events: Seq<Event<T>>) -> StateView<T>
        decreases events.len(),
    {
        if events.len() == 0 {
            self
        } else {
            self.run(events.drop_last()).step(events.last())
        }
    }

    /// What receivers were handed in the course of the events, in order.
    pub open spec fn received(self, events: Seq<Event<T>>) -> Seq<Result<T, Error>>
        decreases events.len(),
    {
        if events.len() == 0 {
            Seq::empty()
        } else {
            self.received(events.drop_last()) + self.run(events.drop_last()).handed_out(
                events.last(),
            )
        }
    }

    /// The arrivals among the events that no waiting request claimed, in
    /// the order of arrival.
    pub open spec fn unsolicited(self, events: Seq<Event<T>>) -> Seq<Result<T, Error>>
        decreases events.len(),
    {
        if events.len() == 0 {
            Seq::empty()
        } else {
            self.unsolicited(events.drop_last()) + self.run(events.drop_last()).unclaimed(
                events.last(),
            )
        }
    }

    /// Every state that events lead to from a state in order is in order,
    /// and events do not end the stream: neither a read that brought no
    /// message nor a task that gives up.
    pub proof fn lemma_run(self, events: Seq<Event<T>>)
        requires
            self.wf(),
        ensures
            self.run(events).wf(),
            self.run(events).closed == self.closed,
        decreases events.len(),
    {
        if events.len() > 0 {
            self.lemma_run(events.drop_last());
            let before = self.run(events.drop_last());
            match events.last() {
                Event::Register { key } => before.lemma_register(key),
                Event::Response { key, waiter } => before.lemma_poll_response(key, waiter),
                Event::Receive { waiter } => before.lemma_poll_receive(waiter),
                Event::Arrival { message, reader } => before.lemma_dispatch(message, reader),
                Event::Refusal { reader } => before.lemma_refuse(reader),
                Event::Leave { waiter } => before.lemma_leave(waiter),
                Event::Abandon { key } => before.lemma_abandon(key),
            }
        }
    }

    /// Receivers see the unsolicited messages in the order of the wire:
    /// while the stream is open, what receivers were handed, followed by what
    /// the inbox still holds, is what the inbox held at first followed by the
    /// arrivals that no waiting request claimed, in the order of arrival.
    /// Reads that brought no message and tasks that give up leave the inbox
    /// as it is.
    pub proof fn lemma_inbox_in_wire_order(self, events: Seq<Event<T>>)
        requires
            self.wf(),
            !self.closed,
        ensures
            self.received(events) + self.run(events).values == self.values + self.unsolicited(
                events,
            ),
        decreases events.len(),
    {
        if events.len() == 0 {
            assert(self.received(events) + self.run(events).values =~= self.values
                + self.unsolicited(events));
        } else {
            let earlier = events.drop_last();
            self.lemma_inbox_in_wire_order(earlier);
            self.lemma_run(earlier);
            let before = self.run(earlier);
            let seen = self.received(earlier);
            let wire = self.unsolicited(earlier);
            assert(seen + before.values == self.values + wire);
            let after = before.step(events.last());
            let out = before.handed_out(events.last());
            let added = before.unclaimed(events.last());
            match events.last() {
                Event::Register { key } => {},
                Event::Response { key, waiter } => {
                    lemma_first_index(before.requests, has_key(key));
                    let i = first_index(before.requests, has_key(key));
                    if i < before.requests.len() && before.requests[i].result is Some {
                        let taken = StateView { requests: before.requests.remove(i), ..before };
                        assert(taken.wake_one().0.values == taken.values);
                    }
                },
                Event::Receive { waiter } => {
                    if before.values.len() > 0 {
                        let popped = StateView { values: before.values.drop_first(), ..before };
                        let taken = popped.leave(waiter);
                        assert(taken.wake_one().0.values == taken.values);
                        assert(out + after.values =~= before.values);
                    }
                },
                Event::Arrival { message, reader } => {},
                Event::Refusal { reader } => before.lemma_refuse(reader),
                Event::Leave { waiter } => before.lemma_leave(waiter),
                Event::Abandon { key } => before.lemma_abandon(key),
            }
            assert(out + after.values =~= before.values + added);
            assert((seen + out) + after.values =~= seen + (out + after.values));
            assert(seen + (before.values + added) =~= (seen + before.values) + added);
            assert((self.values + wire) + added =~= self.values + (wire + added));
        }
    }
}

/// The waiting tasks without one of them do not hold that one, and are no
/// more than before.
pub proof fn lemma_without_waiter(wakers: Seq<u64>, waiter: u64)
    ensures
        !without_waiter(wakers, waiter).contains(waiter),
        without_waiter(wakers, waiter).len() <= wakers.len(),
        wakers.len() == 0 ==> without_waiter(wakers, waiter).len() == 0,
    decreases wakers.len(),
{
    if wakers.len() > 0 {
        lemma_without_waiter(wakers.drop_last(), waiter);
        let rest = without_waiter(wakers.drop_last(), waiter);
        if wakers.last() != waiter {
            let result = rest.push(wakers.last());
            assert forall|i: int| 0 <= i < result.len() implies result[i] != waiter by {
                if i < rest.len() {
                    assert(result[i] == rest[i]);
                    assert(rest.contains(rest[i]));
                }
            }
        }
    }
}

/// A task that a slot names is among the tasks that the slots name.
pub proof fn lemma_slot_waiters<T: Requestable>(requests: Seq<Slot<T>>, i: int)
    requires
        0 <= i < requests.len(),
        requests[i].waiter is Some,
    ensures
        exists|k: int|
            0 <= k < slot_waiters(requests).len() && slot_waiters(requests)[k]
                == requests[i].waiter.unwrap(),
    decreases requests.len(),
{
    let before = slot_waiters(requests.drop_last());
    if i == requests.len() - 1 {
        assert(slot_waiters(requests)[before.len() as int] == requests[i].waiter.unwrap());
    } else {
        lemma_slot_waiters(requests.drop_last(), i);
        let k = choose|k: int|
            0 <= k < before.len() && before[k] == requests.drop_last()[i].waiter.unwrap();
        assert(slot_waiters(requests)[k] == before[k]);
    }
}

} // verus!
