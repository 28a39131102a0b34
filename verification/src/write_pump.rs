//! The write pump: pushes one payload to one port until the device has taken all of it.
//!
//! The pump performs no I/O. The host attempts each write with the bytes that are still
//! pending and reports what came of it as a [`WriteOutcome`]; [`WritePump::step`] keeps
//! the books and [`WritePump::next_write`] says whether another attempt is due.

use crate::events::SerialWriteEvent;
use crate::table::{leads_to, registered, valid_table, PortTable, SerialError};
use vstd::prelude::*;
use vstd::slice::slice_subrange;

verus! {

/// What one write attempt on a device came to.
#[derive(Debug, Clone, Copy, PartialEq, Eq)]
pub enum WriteOutcome {
    /// The device took this many of the bytes offered, from the front.
    Accepted(usize),
    /// The device can take nothing right now.
    WouldBlock,
    /// The write was interrupted before the device took anything.
    Interrupted,
    /// The write failed for any other reason.
    Failed,
}

/// What the host is to do next for a pump.
#[derive(Debug, Clone, Copy, PartialEq, Eq)]
pub enum WriteAction {
    /// Offer the pending bytes to the device of this port in one write, and report the outcome.
    Attempt { token: usize },
    /// The whole payload has been taken: the request is served.
    Done,
    /// The port is closed: the request is dropped.
    Abandon,
}

/// What an outcome meant for the payload.
#[derive(Debug, Clone, Copy, PartialEq, Eq)]
pub enum WriteProgress {
    /// The device took everything that was offered.
    Complete,
    /// The device took less than was offered; the rest is still pending.
    Partial,
    /// The device took nothing; the same bytes are to be offered again.
    Retry,
    /// The port is closed: the outcome was ignored.
    Skipped,
}

/// The bytes that the device took out of `pending` in an attempt with the given outcome.
pub open spec fn taken(connected: bool, pending: Seq<u8>, outcome: WriteOutcome) -> Seq<u8> {
    match outcome {
        WriteOutcome::Accepted(n) => if connected && n <= pending.len() {
            pending.take(n as int)
        } else {
            Seq::empty()
        },
        _ => Seq::empty(),
    }
}

/// The decision of the write pump before an attempt: a closed port ends the request, an empty
/// rest completes it, anything else is offered to the device.
pub open spec fn write_action(token: nat, connected: bool, pending: Seq<u8>) -> WriteAction {
    if !connected {
        WriteAction::Abandon
    } else if pending.len() == 0 {
        WriteAction::Done
    } else {
        WriteAction::Attempt { token: token as usize }
    }
}

/// The decision of the write pump after an attempt.
pub open spec fn write_progress(
    connected: bool,
    pending: Seq<u8>,
    outcome: WriteOutcome,
) -> WriteProgress {
    if !connected {
        WriteProgress::Skipped
    } else {
        match outcome {
            WriteOutcome::Accepted(n) => if n == pending.len() {
                WriteProgress::Complete
            } else {
                WriteProgress::Partial
            },
            _ => WriteProgress::Retry,
        }
    }
}

/// What a pump is, to the contracts of this crate.
pub struct WritePumpView {
    /// The port that the payload goes to.
    pub token: nat,
    /// The front of the payload, which the device has taken.
    pub sent: Seq<u8>,
    /// The rest of the payload, which is still to be offered.
    pub pending: Seq<u8>,
}

/// The state of one write request: the port, the payload and how much of it is out.
#[derive(Debug)]
pub struct WritePump {
    token: usize,
    payload: Vec<u8>,
    written: usize,
}

impl View for WritePump {
    type V = WritePumpView;

    closed spec fn view(&self) -> WritePumpView {
        WritePumpView {
            token: self.token as nat,
            sent: self.payload@.take(self.written as int),
            pending: self.payload@.skip(self.written as int),
        }
    }
}

impl WritePump {
    #[verifier::type_invariant]
    spec fn written_is_within(&self) -> bool {
        self.written <= self.payload@.len()
    }

    /// Starts serving a write request: finds the port by the request's label and takes the
    /// payload, of which nothing is out yet. A request for a label that no port carries is
    /// refused.
    pub fn begin(table: &PortTable, request: SerialWriteEvent) -> (begun: Result<
        WritePump,
        SerialError,
    >)
        ensures
            begun is Ok <==> registered(table@, request.0@),
            valid_table(table@),
            match begun {
                Ok(pump) => {
                    &&& leads_to(table@, request.0@, pump@.token as int)
                    &&& pump@.sent == Seq::<u8>::empty()
                    &&& pump@.pending == request.1@
                },
                Err(SerialError::UnknownLabel(unknown)) => {
                    &&& unknown@ == request.0@
                    &&& !registered(table@, request.0@)
                },
                Err(SerialError::DuplicateLabel(_)) => false,
            },
    {
        let SerialWriteEvent(label, payload) = request;
        match table.resolve(label.as_str()) {
            Ok(token) => {
                let pump = WritePump { token, payload, written: 0 };
                assert(pump@.sent =~= Seq::<u8>::empty());
                assert(pump@.pending =~= payload@);
                Ok(pump)
            },
            Err(error) => Err(error),
        }
    }

    /// The port that the payload goes to.
    pub fn token(&self) -> (token: usize)
        ensures
            token == self@.token,
    {
        self.token
    }

    /// How many bytes of the payload the device has taken.
    pub fn written(&self) -> (written: usize)
        ensures
            written == self@.sent.len(),
    {
        proof {
            use_type_invariant(self);
        }
        self.written
    }

    /// The bytes to offer to the device in the next attempt: all that is not out yet.
    pub fn pending(&self) -> (pending: &[u8])
        ensures
            pending@ == self@.pending,
    {
        proof {
            use_type_invariant(self);
        }
        slice_subrange(self.payload.as_slice(), self.written, self.payload.len())
    }

    /// What the host is to do next. Only the pump's own port is looked at.
    pub fn next_write(&self, table: &PortTable) -> (action: WriteAction)
        requires
            self@.token < table@.len(),
        ensures
            action == write_action(
                self@.token,
                table@[self@.token as int].connected,
                self@.pending,
            ),
            action matches WriteAction::Attempt { token } ==> token == self@.token,
    {
        proof {
            use_type_invariant(self);
        }
        if !table.get(self.token).is_connected() {
            WriteAction::Abandon
        } else if self.written == self.payload.len() {
            WriteAction::Done
        } else {
            WriteAction::Attempt { token: self.token }
        }
    }

    /// Takes the outcome of one write attempt.
    ///
    /// On a closed port nothing happens. The bytes that the device took move from the pending
    /// rest to the part that is out; would-block, interruptions and other failures move
    /// nothing. The pump stays with its port, and no port is changed.
    pub fn step(&mut self, table: &PortTable, outcome: WriteOutcome) -> (progress: WriteProgress)
        requires
            old(self)@.token < table@.len(),
            outcome matches WriteOutcome::Accepted(n) ==> n <= old(self)@.pending.len(),
        ensures
            progress == write_progress(
                table@[old(self)@.token as int].connected,
                old(self)@.pending,
                outcome,
            ),
            final(self)@.token == old(self)@.token,
            final(self)@.sent == old(self)@.sent + taken(
                table@[old(self)@.token as int].connected,
                old(self)@.pending,
                outcome,
            ),
            final(self)@.pending == old(self)@.pending.skip(
                taken(table@[old(self)@.token as int].connected, old(self)@.pending, outcome).len() as int,
            ),
            final(self)@.sent + final(self)@.pending == old(self)@.sent + old(self)@.pending,
    {
        proof {
            use_type_invariant(&*self);
        }
        let ghost sent = self@.sent;
        let ghost pending = self@.pending;
        assert(sent + Seq::<u8>::empty() =~= sent);
        assert(pending.skip(0) =~= pending);
        if !table.get(self.token).is_connected() {
            return WriteProgress::Skipped;
        }
        match outcome {
            WriteOutcome::Accepted(n) => {
                let offered = self.payload.len() - self.written;
                self.written = self.written + n;
                assert(self@.sent =~= sent + pending.take(n as int));
                assert(self@.pending =~= pending.skip(n as int));
                assert(self@.sent + self@.pending =~= sent + pending);
                if n == offered {
                    WriteProgress::Complete
                } else {
                    WriteProgress::Partial
                }
            },
            WriteOutcome::WouldBlock => WriteProgress::Retry,
            WriteOutcome::Interrupted => WriteProgress::Retry,
            WriteOutcome::Failed => WriteProgress::Retry,
        }
    }
}

} // verus!
