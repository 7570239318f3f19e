//! One end of a multiplexed connection, without its byte stream: the shared
//! state together with the encoding and decoding of messages. The caller
//! owns the stream; it writes the bytes that `send` and `request` hand out
//! and reports the bytes it has read.

use vstd::prelude::*;
use crate::error::{Error, ErrorView};
use crate::message::wire::{Parsed, Wire};
use crate::requestable::{keys_comparable, Requestable};
use crate::state::{SharedState, StateView, Step};

verus! {

/// A connection on which any number of tasks send, receive and make
/// requests.
pub struct Connection<T: Requestable + Wire> {
    shared_state: SharedState<T>,
}

/// What came of the bytes that the reader reported.
#[derive(Debug, PartialEq, Eq)]
pub enum Received {
    /// The bytes do not yet hold a whole message: the reader has to read
    /// on.
    Partial,
    /// A message was read and handed on. The reader is idle again, and the
    /// task named by `wake`, if any, has to be woken.
    Message { wake: Option<u64> },
    /// The bytes start with no message. The call of the task that read
    /// ends with `error`, and the stream stays open. The reader is idle
    /// again, and the task named by `wake`, if any, has to be woken.
    Refused { error: Error, wake: Option<u64> },
}

impl<T: Requestable + Wire> View for Connection<T> {
    type V = StateView<T>;

    closed spec fn view(&self) -> StateView<T> {
        self.shared_state@
    }
}

/// The error with which a call ends that read bytes which start with no
/// message.
pub open spec fn no_message() -> ErrorView {
    ErrorView::InvalidMessagePack("the bytes are no message"@)
}

/// Drops the first `used` bytes of `buffer`.
fn consume(buffer: &mut Vec<u8>, used: usize)
    requires
        used <= old(buffer)@.len(),
    ensures
        final(buffer)@ == old(buffer)@.skip(used as int),
{
    let rest = buffer.split_off(used);
    *buffer = rest;
}

impl<T: Requestable + Wire> Connection<T> {
    /// A connection that has just been opened.
    pub fn new() -> (connection: Self)
        ensures
            connection@ == StateView::<T>::fresh(),
            connection@.wf(),
    {
        Connection { shared_state: SharedState::new() }
    }

    /// The shared state of the connection.
    pub fn state(&self) -> (state: &SharedState<T>)
        ensures
            state@ == self@,
    {
        &self.shared_state
    }

    /// Whether the stream has ended.
    pub fn is_closed(&self) -> (r: bool)
        ensures
            r == self@.closed,
    {
        self.shared_state.is_closed()
    }

    /// Encodes `message` for sending. On a closed connection nothing is
    /// sent any more; a message without a wire form is refused. The caller
    /// writes the bytes to the stream, one message after the other.
    pub fn send(&self, message: T) -> (r: Result<Vec<u8>, Error>)
        ensures
            self@.closed ==> r matches Err(Error::ConnectionClosed),
            !self@.closed ==> message.is_encoded(r),
            !self@.closed ==> (r matches Err(e) ==> e is EncodeRMPError),
    {
        if self.shared_state.is_closed() {
            Err(Error::ConnectionClosed)
        } else {
            message.encode()
        }
    }

    /// A poll by the receiver `waiter` for the next message that no
    /// request claims.
    pub fn recv(&mut self, waiter: u64) -> (step: Step<Result<T, Error>>)
        ensures
            final(self)@ == old(self)@.poll_receive(waiter).0,
            step == old(self)@.poll_receive(waiter).1,
            old(self)@.wf() ==> final(self)@.wf(),
    {
        self.shared_state.poll_receive(waiter)
    }

    /// Opens the request that `message` makes: a slot waits for the answer
    /// to its id, and the bytes of the message are handed out to be written
    /// to the stream. Nothing is opened on a closed connection, for a
    /// message without an id, or for a message without a wire form.
    pub fn request(&mut self, message: T) -> (r: Result<(T::Key, Vec<u8>), Error>)
        ensures
            old(self)@.closed ==> r matches Err(Error::ConnectionClosed),
            !old(self)@.closed && message.spec_req_id() is None ==> r matches Err(
                Error::MissingReqId,
            ),
            !old(self)@.closed && message.spec_req_id() is Some ==> match r {
                Ok((key, bytes)) => message.spec_req_id() == Some(key) && message.is_encoded(
                    Ok(bytes),
                ),
                Err(e) => message.is_encoded(Err(e)) && e is EncodeRMPError,
            },
            match r {
                Ok((key, _)) => final(self)@ == old(self)@.register(key),
                Err(_) => final(self)@ == old(self)@,
            },
            old(self)@.wf() ==> final(self)@.wf(),
    {
        if self.shared_state.is_closed() {
            return Err(Error::ConnectionClosed);
        }
        let key = match message.req_id() {
            Some(key) => key,
            None => {
                return Err(Error::MissingReqId);
            },
        };
        let slot_key = match message.req_id() {
            Some(key) => key,
            None => {
                return Err(Error::MissingReqId);
            },
        };
        match message.encode() {
            Ok(bytes) => {
                self.shared_state.register(slot_key);
                Ok((key, bytes))
            },
            Err(e) => Err(e),
        }
    }

    /// A poll by the task `waiter` for the answer to the request `key`. An
    /// answer that is a message is a response to that request.
    pub fn response(&mut self, key: T::Key, waiter: u64) -> (step: Step<Result<T, Error>>)
        requires
            keys_comparable::<T>(),
        ensures
            final(self)@ == old(self)@.poll_response(key, waiter).0,
            step == old(self)@.poll_response(key, waiter).1,
            old(self)@.wf() ==> final(self)@.wf(),
            old(self)@.wf() ==> match step {
                Step::Ready { value: Ok(message), .. } => message.spec_to() == Some(key),
                _ => true,
            },
    {
        self.shared_state.poll_response(key, waiter)
    }

    /// Takes the receiver `waiter` out of the waiting tasks: its task has
    /// lost interest.
    pub fn leave(&mut self, waiter: u64)
        ensures
            final(self)@ == old(self)@.leave(waiter),
            old(self)@.wf() ==> final(self)@.wf(),
    {
        self.shared_state.leave(waiter)
    }

    /// Gives up the request `key`: its task has lost interest.
    pub fn abandon(&mut self, key: &T::Key)
        requires
            keys_comparable::<T>(),
        ensures
            final(self)@ == old(self)@.abandon(*key),
            old(self)@.wf() ==> final(self)@.wf(),
    {
        self.shared_state.abandon(key)
    }

    /// Reports what the task `reader` has read so far and not yet handed
    /// on. A whole message at the front of `buffer` is taken out of it and
    /// handed to the request it answers or to the inbox. Bytes that start
    /// with no message are taken out as well, as far as the decoder says;
    /// the call of the reading task ends with `InvalidMessagePack`, and
    /// nothing changes for the other tasks: the stream stays open, and
    /// every slot and the inbox stay as they are.
    pub fn received(&mut self, buffer: &mut Vec<u8>, reader: u64) -> (r: Received)
        requires
            keys_comparable::<T>(),
        ensures
            match r {
                Received::Partial => T::is_decoded(old(buffer)@, Parsed::Incomplete)
                    && final(self)@ == old(self)@ && final(buffer)@ == old(buffer)@,
                Received::Message { wake } => exists|message: T, used: usize|
                    {
                        &&& #[trigger] T::is_decoded(
                            old(buffer)@,
                            Parsed::Message { message, used },
                        )
                        &&& used <= old(buffer)@.len()
                        &&& final(buffer)@ == old(buffer)@.skip(used as int)
                        &&& final(self)@ == old(self)@.dispatch(message, reader).0
                        &&& wake == old(self)@.dispatch(message, reader).1
                    },
                Received::Refused { error, wake } => exists|used: usize|
                    {
                        &&& #[trigger] T::is_decoded(old(buffer)@, Parsed::Refused { used })
                        &&& 0 < used <= old(buffer)@.len()
                        &&& final(buffer)@ == old(buffer)@.skip(used as int)
                        &&& final(self)@ == old(self)@.refuse(reader).0
                        &&& wake == old(self)@.refuse(reader).1
                        &&& error@ == no_message()
                    },
            },
            r is Refused ==> {
                &&& final(self)@.closed == old(self)@.closed
                &&& final(self)@.requests == old(self)@.requests
                &&& final(self)@.values == old(self)@.values
                &&& !final(self)@.reading
            },
            final(self)@.closed == old(self)@.closed,
            old(self)@.wf() ==> final(self)@.wf(),
    {
        match T::decode(buffer.as_slice()) {
            Parsed::Incomplete => Received::Partial,
            Parsed::Refused { used } => {
                consume(buffer, used);
                let wake = self.shared_state.refuse(reader);
                let error = Error::InvalidMessagePack("the bytes are no message".to_owned());
                Received::Refused { error, wake }
            },
            Parsed::Message { message, used } => {
                consume(buffer, used);
                let wake = self.shared_state.dispatch(message, reader);
                Received::Message { wake }
            },
        }
    }

    /// Reports that the stream has ended or failed. Every request without
    /// an answer is answered with `ConnectionClosed`, and so is every
    /// receiver that waits. Returns the tasks to wake.
    pub fn ended(&mut self) -> (woken: Vec<u64>)
        ensures
            final(self)@ == old(self)@.close_connection().0,
            woken@ == old(self)@.close_connection().1,
            final(self)@.closed,
            old(self)@.wf() ==> final(self)@.wf(),
    {
        self.shared_state.close_connection()
    }
}

} // verus!
