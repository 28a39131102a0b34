//! Whole write requests over plain values.
//!
//! A device is known to the pump only by the outcomes of the writes that the host attempts.
//! [`received`] and [`left_over`] say what a sequence of such outcomes comes to when each is
//! handed to the pump in turn, for as long as the pump asks for another attempt. The proof
//! functions state what holds of every device.

use crate::write_pump::{taken, write_action, WriteAction, WriteOutcome};
use vstd::prelude::*;

verus! {

/// Whether the pump asks for another attempt.
pub open spec fn attempt_is_due(connected: bool, pending: Seq<u8>) -> bool {
    write_action(0, connected, pending) is Attempt
}

/// The bytes that the device has taken, in order, once the outcomes are in: each attempt
/// offers what the attempts before it left, and attempts end when the pump asks for no more.
pub open spec fn received(connected: bool, pending: Seq<u8>, outcomes: Seq<WriteOutcome>) -> Seq<u8>
    decreases outcomes.len(),
{
    if outcomes.len() == 0 || !attempt_is_due(connected, pending) {
        Seq::empty()
    } else {
        let got = taken(connected, pending, outcomes[0]);
        got + received(connected, pending.skip(got.len() as int), outcomes.drop_first())
    }
}

/// The bytes that are still pending once the outcomes are in.
pub open spec fn left_over(connected: bool, pending: Seq<u8>, outcomes: Seq<WriteOutcome>) -> Seq<u8>
    decreases outcomes.len(),
{
    if outcomes.len() == 0 || !attempt_is_due(connected, pending) {
        pending
    } else {
        let got = taken(connected, pending, outcomes[0]);
        left_over(connected, pending.skip(got.len() as int), outcomes.drop_first())
    }
}

/// The number of attempts that the host made.
pub open spec fn attempts(connected: bool, pending: Seq<u8>, outcomes: Seq<WriteOutcome>) -> nat
    decreases outcomes.len(),
{
    if outcomes.len() == 0 || !attempt_is_due(connected, pending) {
        0
    } else {
        let got = taken(connected, pending, outcomes[0]);
        1 + attempts(connected, pending.skip(got.len() as int), outcomes.drop_first())
    }
}

/// Whatever the device answers, what it has taken and what is still pending make up the
/// payload: nothing is lost, nothing is sent twice, nothing out of order.
pub proof fn lemma_payload_is_conserved(
    connected: bool,
    pending: Seq<u8>,
    outcomes: Seq<WriteOutcome>,
)
    ensures
        received(connected, pending, outcomes) + left_over(connected, pending, outcomes)
            == pending,
    decreases outcomes.len(),
{
    if outcomes.len() == 0 || !attempt_is_due(connected, pending) {
        assert(Seq::<u8>::empty() + pending =~= pending);
    } else {
        let got = taken(connected, pending, outcomes[0]);
        let rest = pending.skip(got.len() as int);
        lemma_payload_is_conserved(connected, rest, outcomes.drop_first());
        assert(got + rest =~= pending);
        assert(received(connected, pending, outcomes) + left_over(connected, pending, outcomes)
            =~= got + (received(connected, rest, outcomes.drop_first()) + left_over(
            connected,
            rest,
            outcomes.drop_first(),
        )));
    }
}

/// Write completeness: for every payload and every interleaving of would-block, interrupted,
/// failed, partial and full answers of a device, once nothing is pending any more the device
/// has received the payload, in order and exactly once.
pub proof fn lemma_served_payload_was_received(payload: Seq<u8>, outcomes: Seq<WriteOutcome>)
    requires
        left_over(true, payload, outcomes).len() == 0,
    ensures
        received(true, payload, outcomes) == payload,
        !attempt_is_due(true, left_over(true, payload, outcomes)),
{
    lemma_payload_is_conserved(true, payload, outcomes);
    assert(received(true, payload, outcomes) + left_over(true, payload, outcomes)
        =~= received(true, payload, outcomes));
}

/// As long as bytes are pending on an open port, the pump asks for another attempt: a
/// request ends only when served or when the port is closed.
pub proof fn lemma_request_ends_only_when_served(connected: bool, pending: Seq<u8>)
    ensures
        !attempt_is_due(connected, pending) <==> (!connected || pending.len() == 0),
{
}

/// Isolation: whatever a write pump asks the host to do, it asks for its own port.
pub proof fn lemma_write_names_its_port(token: usize, connected: bool, pending: Seq<u8>)
    ensures
        write_action(token as nat, connected, pending) matches WriteAction::Attempt { token: named }
            ==> named == token,
{
}

/// A closed port receives nothing and is never offered anything, whatever the outcomes
/// that are reported for it.
pub proof fn lemma_closed_port_receives_nothing(pending: Seq<u8>, outcomes: Seq<WriteOutcome>)
    ensures
        received(false, pending, outcomes) == Seq::<u8>::empty(),
        left_over(false, pending, outcomes) == pending,
        attempts(false, pending, outcomes) == 0,
{
}

} // verus!
