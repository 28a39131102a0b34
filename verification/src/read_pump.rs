//! The read pump: drains one port until the device has nothing more to give.
//!
//! The pump performs no I/O. The host attempts each read and reports what came of it as a
//! [`ReadOutcome`]; [`ReadPump::step`] decides what follows. A drain cycle starts with a fresh
//! pump for a port that the poller reported readable and ends with the first step that is not
//! [`ReadStep::Continue`].

use crate::events::SerialReadEvent;
use crate::table::{closed_at, valid_table, PortTable};
use vstd::prelude::*;

verus! {

/// The number of bytes by which the read buffer starts and grows.
pub const READ_BUFFER_LEN: usize = 2048;

/// What one read attempt on a device came to.
#[derive(Debug)]
pub enum ReadOutcome {
    /// The read succeeded and delivered these bytes. No bytes at all means end-of-stream.
    Bytes(Vec<u8>),
    /// Nothing can be read right now.
    WouldBlock,
    /// The read was interrupted before it delivered anything.
    Interrupted,
    /// The read failed for any other reason.
    Failed,
}

/// What the host is to do next for a pump.
#[derive(Debug, PartialEq, Eq)]
pub enum ReadAction {
    /// Attempt one read of at most `max_len` bytes on the device of this port, and report the
    /// outcome.
    Attempt { token: usize, max_len: usize },
    /// The port is closed: leave it alone.
    Skip,
}

/// What a step of the drain comes to, over plain values.
pub enum ReadVerdict {
    /// The cycle goes on; these are the bytes accumulated so far.
    Continue(Seq<u8>),
    /// The cycle is over and hands out a record with these bytes.
    Emit(Seq<u8>),
    /// The cycle is over; there was nothing to hand out.
    Idle,
    /// The device reported end-of-stream: the port is closed and the cycle is over.
    Closed,
    /// The port was closed already: nothing was done.
    Skipped,
}

/// What a step of the drain comes to.
#[derive(Debug)]
pub enum ReadStep {
    /// The cycle goes on with this pump.
    Continue(ReadPump),
    /// The cycle is over and hands out this record.
    Emit(SerialReadEvent),
    /// The cycle is over; there was nothing to hand out.
    Idle,
    /// The device reported end-of-stream: the port is closed and the cycle is over.
    Closed,
    /// The port was closed already: nothing was done.
    Skipped,
}

impl ReadStep {
    /// The step over plain values.
    pub open spec fn verdict(&self) -> ReadVerdict {
        match self {
            ReadStep::Continue(pump) => ReadVerdict::Continue(pump@.data),
            ReadStep::Emit(record) => ReadVerdict::Emit(record.1@),
            ReadStep::Idle => ReadVerdict::Idle,
            ReadStep::Closed => ReadVerdict::Closed,
            ReadStep::Skipped => ReadVerdict::Skipped,
        }
    }
}

/// How many bytes the next read may deliver once `len` bytes are accumulated: what is left of
/// the buffer, which is always one increment past the last full one.
pub open spec fn room_for(len: nat) -> nat {
    (READ_BUFFER_LEN - len % (READ_BUFFER_LEN as nat)) as nat
}

/// The buffer policy: there is always room for at least one byte and never for more than
/// one increment, and the room ends where an increment ends.
pub proof fn lemma_room_ends_an_increment(len: nat)
    ensures
        0 < room_for(len) <= READ_BUFFER_LEN,
        (len + room_for(len)) % (READ_BUFFER_LEN as nat) == 0,
        len < READ_BUFFER_LEN ==> len + room_for(len) == READ_BUFFER_LEN,
{
}

/// The bytes that an outcome delivers.
pub open spec fn bytes_of(outcome: ReadOutcome) -> Seq<u8> {
    match outcome {
        ReadOutcome::Bytes(chunk) => chunk@,
        _ => Seq::empty(),
    }
}

/// The decision of the read pump: what follows from one outcome, given whether the port is
/// open and what has been accumulated.
pub open spec fn read_verdict(connected: bool, data: Seq<u8>, outcome: ReadOutcome) -> ReadVerdict {
    if !connected {
        ReadVerdict::Skipped
    } else {
        match outcome {
            ReadOutcome::Bytes(chunk) => if chunk@.len() == 0 {
                ReadVerdict::Closed
            } else {
                ReadVerdict::Continue(data + chunk@)
            },
            ReadOutcome::WouldBlock => if data.len() == 0 {
                ReadVerdict::Idle
            } else {
                ReadVerdict::Emit(data)
            },
            ReadOutcome::Interrupted => ReadVerdict::Continue(data),
            ReadOutcome::Failed => ReadVerdict::Continue(data),
        }
    }
}

/// What a pump is, to the contracts of this crate.
pub struct ReadPumpView {
    /// The port that is drained.
    pub token: nat,
    /// The bytes accumulated so far in this cycle.
    pub data: Seq<u8>,
}

/// The state of one drain cycle: the port and the buffer with what was read so far.
#[derive(Debug)]
pub struct ReadPump {
    token: usize,
    buffer: Vec<u8>,
    filled: usize,
}

impl View for ReadPump {
    type V = ReadPumpView;

    closed spec fn view(&self) -> ReadPumpView {
        ReadPumpView {
            token: self.token as nat,
            data: self.buffer@.subrange(0, self.filled as int),
        }
    }
}

/// Lengthens a buffer by one increment of zero bytes.
fn grow(buffer: &mut Vec<u8>)
    ensures
        final(buffer)@.len() == old(buffer)@.len() + READ_BUFFER_LEN,
        final(buffer)@.subrange(0, old(buffer)@.len() as int) == old(buffer)@,
{
    let mut added: usize = 0;
    while added < READ_BUFFER_LEN
        invariant
            added <= READ_BUFFER_LEN,
            buffer@.len() == old(buffer)@.len() + added,
            buffer@.subrange(0, old(buffer)@.len() as int) == old(buffer)@,
        decreases READ_BUFFER_LEN - added,
    {
        buffer.push(0u8);
        added += 1;
        assert(buffer@.subrange(0, old(buffer)@.len() as int) =~= old(buffer)@);
    }
}

impl ReadPump {
    #[verifier::type_invariant]
    spec fn tail_is_open(&self) -> bool {
        &&& self.filled < self.buffer@.len()
        &&& self.buffer@.len() == self.filled + room_for(self.filled as nat)
    }

    /// A pump at the start of a drain cycle for the port `token`: nothing accumulated, and
    /// room for one increment.
    pub fn new(token: usize) -> (pump: ReadPump)
        ensures
            pump@.token == token,
            pump@.data == Seq::<u8>::empty(),
    {
        let mut buffer: Vec<u8> = Vec::new();
        grow(&mut buffer);
        let pump = ReadPump { token, buffer, filled: 0 };
        assert(pump@.data =~= Seq::<u8>::empty());
        pump
    }

    /// The port that this pump drains.
    pub fn token(&self) -> (token: usize)
        ensures
            token == self@.token,
    {
        self.token
    }

    /// What the host is to do next: attempt a read into what is left of the buffer, which is
    /// never nothing, or leave a closed port alone.
    pub fn next_read(&self, table: &PortTable) -> (action: ReadAction)
        requires
            self@.token < table@.len(),
        ensures
            action == if table@[self@.token as int].connected {
                ReadAction::Attempt {
                    token: self@.token as usize,
                    max_len: room_for(self@.data.len()) as usize,
                }
            } else {
                ReadAction::Skip
            },
            action matches ReadAction::Attempt { token, max_len } ==> token == self@.token
                && max_len == room_for(self@.data.len()),
            0 < room_for(self@.data.len()) <= READ_BUFFER_LEN,
    {
        proof {
            use_type_invariant(self);
        }
        if table.get(self.token).is_connected() {
            ReadAction::Attempt { token: self.token, max_len: self.buffer.len() - self.filled }
        } else {
            ReadAction::Skip
        }
    }

    /// Takes the outcome of one read attempt and decides what follows.
    ///
    /// On a closed port nothing happens. Bytes are appended to what was accumulated, and the
    /// buffer grows by one increment when they fill it. End-of-stream closes the port and ends
    /// the cycle without a record. Would-block ends the cycle, with a record of everything
    /// accumulated if there is anything. Interruptions and other failures change nothing and
    /// the cycle goes on. No port but the pump's own is touched.
    pub fn step(self, table: &mut PortTable, outcome: ReadOutcome) -> (step: ReadStep)
        requires
            self@.token < old(table)@.len(),
            outcome matches ReadOutcome::Bytes(chunk) ==> chunk@.len() <= room_for(
                self@.data.len(),
            ),
        ensures
            step.verdict() == read_verdict(
                old(table)@[self@.token as int].connected,
                self@.data,
                outcome,
            ),
            step matches ReadStep::Continue(pump) ==> pump@.token == self@.token,
            step matches ReadStep::Emit(record) ==> record.0@ == old(table)@[self@.token as int].label,
            final(table)@ == if step is Closed {
                closed_at(old(table)@, self@.token as int)
            } else {
                old(table)@
            },
            valid_table(old(table)@),
            valid_table(final(table)@),
    {
        proof {
            use_type_invariant(&self);
        }
        if !table.get(self.token).is_connected() {
            return ReadStep::Skipped;
        }
        let ReadPump { token, mut buffer, filled } = self;
        match outcome {
            ReadOutcome::Bytes(chunk) => {
                let n = chunk.len();
                if n == 0 {
                    table.close(token);
                    ReadStep::Closed
                } else {
                    let ghost before = buffer@;
                    let capacity = buffer.len();
                    let mut i: usize = 0;
                    while i < n
                        invariant
                            i <= n,
                            n == chunk@.len(),
                            filled + n <= capacity,
                            buffer@.len() == capacity,
                            before.len() == capacity,
                            buffer@.subrange(0, filled as int) == before.subrange(0, filled as int),
                            forall|j: int| 0 <= j < i ==> buffer@[filled + j] == chunk@[j],
                        decreases n - i,
                    {
                        buffer[filled + i] = chunk[i];
                        i += 1;
                        assert(buffer@.subrange(0, filled as int) =~= before.subrange(
                            0,
                            filled as int,
                        ));
                    }
                    let total = filled + n;
                    assert(buffer@.subrange(0, total as int) =~= before.subrange(0, filled as int)
                        + chunk@);
                    if total == buffer.len() {
                        grow(&mut buffer);
                    }
                    assert(buffer@.subrange(0, total as int) =~= before.subrange(0, filled as int)
                        + chunk@);
                    ReadStep::Continue(ReadPump { token, buffer, filled: total })
                }
            },
            ReadOutcome::WouldBlock => {
                if filled == 0 {
                    ReadStep::Idle
                } else {
                    let label = table.get(token).label().to_owned();
                    buffer.truncate(filled);
                    ReadStep::Emit(SerialReadEvent(label, buffer))
                }
            },
            ReadOutcome::Interrupted => ReadStep::Continue(ReadPump { token, buffer, filled }),
            ReadOutcome::Failed => ReadStep::Continue(ReadPump { token, buffer, filled }),
        }
    }
}

} // verus!
