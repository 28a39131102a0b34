//! The tick of the reactor: from what the readiness poller reports to the ports to drain.
//!
//! The poller itself belongs to the host. It is polled once per tick, with a timeout of
//! [`POLL_TIMEOUT_MICROS`] so that the tick is never held up, for ports that were registered
//! under their tokens for readable interest only. What it reports comes here as a list of
//! [`Readiness`] values.

use crate::table::PortTable;
use vstd::prelude::*;

verus! {

/// The longest that one poll may wait, in microseconds.
pub const POLL_TIMEOUT_MICROS: u64 = 1;

/// One event of the readiness poller: the token of a port and whether it has data to read.
#[derive(Debug, Clone, Copy, PartialEq, Eq)]
pub struct Readiness {
    pub token: usize,
    pub readable: bool,
}

/// The tokens of the readable events, each once, in the order in which the events first name
/// them.
pub open spec fn readable_tokens(events: Seq<Readiness>) -> Seq<usize>
    decreases events.len(),
{
    if events.len() == 0 {
        Seq::empty()
    } else {
        let before = readable_tokens(events.drop_last());
        let event = events.last();
        if event.readable && !before.contains(event.token) {
            before.push(event.token)
        } else {
            before
        }
    }
}

/// Some event reports the port readable.
pub open spec fn reported_readable(events: Seq<Readiness>, token: usize) -> bool {
    exists|i: int| 0 <= i < events.len() && (#[trigger] events[i]).token == token && events[i].readable
}

/// Every event names a port of a table with `ports` ports.
pub open spec fn all_registered(events: Seq<Readiness>, ports: nat) -> bool {
    forall|i: int| 0 <= i < events.len() ==> (#[trigger] events[i]).token < ports
}

/// Whether a tick has anything to poll for: a reactor without ports never polls.
pub fn polls(table: &PortTable) -> (due: bool)
    ensures
        due == (table@.len() > 0),
{
    !table.is_empty()
}

/// Whether the token is among the tokens.
fn holds(tokens: &Vec<usize>, token: usize) -> (held: bool)
    ensures
        held == tokens@.contains(token),
{
    let mut i: usize = 0;
    while i < tokens.len()
        invariant
            i <= tokens@.len(),
            forall|k: int| 0 <= k < i ==> tokens@[k] != token,
        decreases tokens@.len() - i,
    {
        if tokens[i] == token {
            return true;
        }
        i += 1;
    }
    false
}

/// The ports to drain in this tick: one drain cycle for each port that some event reports
/// readable, in the order in which the events first name them. A port that several events
/// name is drained once.
pub fn ports_to_drain(table: &PortTable, events: &Vec<Readiness>) -> (tokens: Vec<usize>)
    requires
        all_registered(events@, table@.len()),
    ensures
        tokens@ == readable_tokens(events@),
        tokens@.no_duplicates(),
        forall|token: usize|
            #[trigger] tokens@.contains(token) <==> reported_readable(events@, token),
        forall|k: int| 0 <= k < tokens@.len() ==> (#[trigger] tokens@[k]) < table@.len(),
{
    let mut tokens: Vec<usize> = Vec::new();
    let mut i: usize = 0;
    while i < events.len()
        invariant
            i <= events@.len(),
            all_registered(events@, table@.len()),
            tokens@ == readable_tokens(events@.take(i as int)),
            forall|k: int| 0 <= k < tokens@.len() ==> (#[trigger] tokens@[k]) < table@.len(),
        decreases events@.len() - i,
    {
        let event = events[i];
        assert(events@.take(i + 1).drop_last() =~= events@.take(i as int));
        assert(events@.take(i + 1).last() == event);
        if event.readable && !holds(&tokens, event.token) {
            tokens.push(event.token);
        }
        i += 1;
    }
    assert(events@.take(i as int) =~= events@);
    proof {
        lemma_each_readable_port_is_drained_once(events@);
    }
    tokens
}

/// Each port that the poller reported readable is drained, and only those, and none of
/// them twice in one tick.
pub proof fn lemma_each_readable_port_is_drained_once(events: Seq<Readiness>)
    ensures
        readable_tokens(events).no_duplicates(),
        forall|token: usize|
            #[trigger] readable_tokens(events).contains(token) <==> reported_readable(
                events,
                token,
            ),
    decreases events.len(),
{
    if events.len() > 0 {
        let earlier = events.drop_last();
        let event = events.last();
        let before = readable_tokens(earlier);
        let tokens = readable_tokens(events);
        lemma_each_readable_port_is_drained_once(earlier);
        assert forall|token: usize| tokens.contains(token) <==> reported_readable(
            events,
            token,
        ) by {
            assert(readable_tokens(earlier).contains(token) <==> reported_readable(
                earlier,
                token,
            ));
            if tokens.contains(token) {
                if before.contains(token) {
                    let i = choose|i: int|
                        0 <= i < earlier.len() && (#[trigger] earlier[i]).token == token
                            && earlier[i].readable;
                    assert(events[i] == earlier[i]);
                } else {
                    let k = choose|k: int| 0 <= k < tokens.len() && tokens[k] == token;
                    assert(k == before.len());
                    assert(events[events.len() - 1] == event);
                }
            }
            if reported_readable(events, token) {
                let i = choose|i: int|
                    0 <= i < events.len() && (#[trigger] events[i]).token == token
                        && events[i].readable;
                if i < earlier.len() {
                    assert(earlier[i] == events[i]);
                    assert(before.contains(token));
                    let k = choose|k: int| 0 <= k < before.len() && before[k] == token;
                    assert(tokens[k] == token);
                } else {
                    if before.contains(token) {
                        let k = choose|k: int| 0 <= k < before.len() && before[k] == token;
                        assert(tokens[k] == token);
                    } else {
                        assert(tokens[before.len() as int] == token);
                    }
                }
            }
        }
    }
}

/// Only ports that the poller reported readable are drained: a port with no readable event
/// in a tick gets no drain cycle in it.
pub proof fn lemma_only_readable_ports_are_drained(events: Seq<Readiness>, token: usize)
    requires
        !reported_readable(events, token),
    ensures
        !readable_tokens(events).contains(token),
{
    lemma_each_readable_port_is_drained_once(events);
}

} // verus!
