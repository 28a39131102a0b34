//! A whole read tick over plain values: every port that the poller reported readable is
//! drained once, in turn, and every other port is left alone.
//!
//! [`run_drains`] composes the drain cycles of one tick: each port on the list meets the
//! outcomes that its own device gives, hands out at most one record under its own label, and
//! is closed if it meets end-of-stream. The proof functions state what holds of every table
//! and every set of devices.

use crate::reactor::{
    all_registered, lemma_each_readable_port_is_drained_once, readable_tokens, reported_readable,
    Readiness,
};
use crate::read_cycle::drain;
use crate::read_pump::{ReadOutcome, ReadVerdict};
use crate::table::{closed_at, distinct_labels, PortView};
use vstd::prelude::*;

verus! {

/// A record that a tick hands out: the label of the port and the bytes drained from it.
pub struct Record {
    pub label: Seq<char>,
    pub bytes: Seq<u8>,
}

/// What a tick comes to.
pub struct TickOutcome {
    /// The table after the tick.
    pub ports: Seq<PortView>,
    /// The records handed out, in the order of the drain cycles.
    pub records: Seq<Record>,
    /// The ports on whose devices a read was attempted.
    pub read_on: Seq<usize>,
}

/// The record that a finished cycle of the port hands out, if any.
pub open spec fn records_of(port: PortView, verdict: ReadVerdict) -> Seq<Record> {
    match verdict {
        ReadVerdict::Emit(bytes) => seq![Record { label: port.label, bytes }],
        _ => Seq::empty(),
    }
}

/// The table after a cycle of the port `token` that came to `verdict`.
pub open spec fn ports_after(ports: Seq<PortView>, token: usize, verdict: ReadVerdict) -> Seq<
    PortView,
> {
    if verdict is Closed {
        closed_at(ports, token as int)
    } else {
        ports
    }
}

/// What the drain cycles of one tick come to: port `tokens[i]` is drained with a fresh pump
/// against the outcomes `cycles[i]` of its device, one port after the other.
pub open spec fn run_drains(
    ports: Seq<PortView>,
    tokens: Seq<usize>,
    cycles: Seq<Seq<ReadOutcome>>,
) -> TickOutcome
    decreases tokens.len(),
{
    if tokens.len() == 0 {
        TickOutcome { ports, records: Seq::empty(), read_on: Seq::empty() }
    } else {
        let token = tokens[0];
        let port = ports[token as int];
        let verdict = drain(port.connected, Seq::empty(), cycles[0]);
        let later = run_drains(
            ports_after(ports, token, verdict),
            tokens.drop_first(),
            cycles.drop_first(),
        );
        let read = if port.connected && cycles[0].len() > 0 {
            seq![token]
        } else {
            Seq::empty()
        };
        TickOutcome {
            ports: later.ports,
            records: records_of(port, verdict) + later.records,
            read_on: read + later.read_on,
        }
    }
}

/// What a tick comes to, from what the poller reported.
pub open spec fn run_tick(
    ports: Seq<PortView>,
    events: Seq<Readiness>,
    cycles: Seq<Seq<ReadOutcome>>,
) -> TickOutcome {
    run_drains(ports, readable_tokens(events), cycles)
}

/// Every token on the list names a port of the table.
pub open spec fn all_in_table(tokens: Seq<usize>, ports: Seq<PortView>) -> bool {
    forall|i: int| 0 <= i < tokens.len() ==> (#[trigger] tokens[i]) < ports.len()
}

/// A tick keeps the table in shape: no port comes or goes, none changes its label or token,
/// and none that was closed is open again.
pub proof fn lemma_tick_keeps_the_table(
    ports: Seq<PortView>,
    tokens: Seq<usize>,
    cycles: Seq<Seq<ReadOutcome>>,
)
    requires
        all_in_table(tokens, ports),
    ensures
        run_drains(ports, tokens, cycles).ports.len() == ports.len(),
        forall|i: int|
            0 <= i < ports.len() ==> {
                let after = #[trigger] run_drains(ports, tokens, cycles).ports[i];
                &&& after.label == ports[i].label
                &&& after.token == ports[i].token
                &&& after.connected ==> ports[i].connected
            },
    decreases tokens.len(),
{
    if tokens.len() > 0 {
        let token = tokens[0];
        let verdict = drain(ports[token as int].connected, Seq::empty(), cycles[0]);
        let next = ports_after(ports, token, verdict);
        assert(tokens[0] < ports.len());
        assert(all_in_table(tokens.drop_first(), next)) by {
            assert forall|i: int| 0 <= i < tokens.drop_first().len() implies (
            #[trigger] tokens.drop_first()[i]) < next.len() by {
                assert(tokens.drop_first()[i] == tokens[i + 1]);
            }
        }
        lemma_tick_keeps_the_table(next, tokens.drop_first(), cycles.drop_first());
        let out = run_drains(ports, tokens, cycles);
        assert forall|i: int| 0 <= i < ports.len() implies {
            let after = #[trigger] out.ports[i];
            &&& after.label == ports[i].label
            &&& after.token == ports[i].token
            &&& after.connected ==> ports[i].connected
        } by {
            let later = run_drains(next, tokens.drop_first(), cycles.drop_first());
            assert(later.ports[i].label == next[i].label);
        }
    }
}

/// Every record of a tick carries the label of a port that was drained, and every read of a
/// tick was attempted on such a port.
pub proof fn lemma_records_come_from_drained_ports(
    ports: Seq<PortView>,
    tokens: Seq<usize>,
    cycles: Seq<Seq<ReadOutcome>>,
)
    requires
        all_in_table(tokens, ports),
    ensures
        forall|k: int|
            0 <= k < run_drains(ports, tokens, cycles).records.len() ==> exists|i: int|
                0 <= i < tokens.len() && (#[trigger] run_drains(
                    ports,
                    tokens,
                    cycles,
                ).records[k]).label == ports[#[trigger] tokens[i] as int].label,
        forall|k: int|
            0 <= k < run_drains(ports, tokens, cycles).read_on.len() ==> tokens.contains(
                #[trigger] run_drains(ports, tokens, cycles).read_on[k],
            ),
    decreases tokens.len(),
{
    if tokens.len() > 0 {
        let token = tokens[0];
        let port = ports[token as int];
        let verdict = drain(port.connected, Seq::empty(), cycles[0]);
        let next = ports_after(ports, token, verdict);
        let rest = tokens.drop_first();
        assert(tokens[0] < ports.len());
        assert(all_in_table(rest, next)) by {
            assert forall|i: int| 0 <= i < rest.len() implies (#[trigger] rest[i]) < next.len() by {
                assert(rest[i] == tokens[i + 1]);
            }
        }
        lemma_records_come_from_drained_ports(next, rest, cycles.drop_first());
        let later = run_drains(next, rest, cycles.drop_first());
        let out = run_drains(ports, tokens, cycles);
        let first = records_of(port, verdict);
        assert forall|k: int| 0 <= k < out.records.len() implies exists|i: int|
            0 <= i < tokens.len() && (#[trigger] out.records[k]).label == ports[
                #[trigger] tokens[i] as int
            ].label by {
            if k < first.len() {
                assert(out.records[k].label == ports[tokens[0] as int].label);
            } else {
                let m = k - first.len();
                assert(out.records[k] == later.records[m]);
                let i = choose|i: int|
                    0 <= i < rest.len() && later.records[m].label == next[
                        #[trigger] rest[i] as int
                    ].label;
                assert(rest[i] == tokens[i + 1]);
                assert(next[rest[i] as int].label == ports[rest[i] as int].label);
                assert(out.records[k].label == ports[tokens[i + 1] as int].label);
            }
        }
        let read = if port.connected && cycles[0].len() > 0 {
            seq![token]
        } else {
            Seq::<usize>::empty()
        };
        assert forall|k: int| 0 <= k < out.read_on.len() implies tokens.contains(
            #[trigger] out.read_on[k],
        ) by {
            if k < read.len() {
                assert(out.read_on[k] == tokens[0]);
            } else {
                let m = k - read.len();
                assert(out.read_on[k] == later.read_on[m]);
                assert(rest.contains(later.read_on[m]));
                let i = choose|i: int| 0 <= i < rest.len() && rest[i] == later.read_on[m];
                assert(tokens[i + 1] == later.read_on[m]);
            }
        }
    }
}

/// A port that is not drained in a tick is left alone: no read is attempted on its
/// device, it stays as it was, and no record of the tick carries its label, whatever the
/// devices of the other ports do.
pub proof fn lemma_undrained_port_is_left_alone(
    ports: Seq<PortView>,
    tokens: Seq<usize>,
    cycles: Seq<Seq<ReadOutcome>>,
    idle: usize,
)
    requires
        distinct_labels(ports),
        all_in_table(tokens, ports),
        idle < ports.len(),
        !tokens.contains(idle),
    ensures
        run_drains(ports, tokens, cycles).ports.len() == ports.len(),
        run_drains(ports, tokens, cycles).ports[idle as int] == ports[idle as int],
        !run_drains(ports, tokens, cycles).read_on.contains(idle),
        forall|k: int|
            0 <= k < run_drains(ports, tokens, cycles).records.len() ==> (#[trigger] run_drains(
                ports,
                tokens,
                cycles,
            ).records[k]).label != ports[idle as int].label,
    decreases tokens.len(),
{
    let out = run_drains(ports, tokens, cycles);
    lemma_records_come_from_drained_ports(ports, tokens, cycles);
    assert forall|k: int| 0 <= k < out.records.len() implies (#[trigger] out.records[k]).label
        != ports[idle as int].label by {
        let i = choose|i: int|
            0 <= i < tokens.len() && out.records[k].label == ports[#[trigger] tokens[i] as int].label;
        assert(tokens.contains(tokens[i]));
        assert(tokens[i] != idle);
        if (tokens[i] as int) < (idle as int) {
            assert(ports[tokens[i] as int].label != ports[idle as int].label);
        } else {
            assert(ports[idle as int].label != ports[tokens[i] as int].label);
        }
    }
    if out.read_on.contains(idle) {
        let k = choose|k: int| 0 <= k < out.read_on.len() && out.read_on[k] == idle;
        assert(tokens.contains(out.read_on[k]));
    }
    if tokens.len() > 0 {
        let token = tokens[0];
        let verdict = drain(ports[token as int].connected, Seq::empty(), cycles[0]);
        let next = ports_after(ports, token, verdict);
        let rest = tokens.drop_first();
        assert(tokens[0] < ports.len());
        assert(tokens.contains(tokens[0]));
        assert(next[idle as int] == ports[idle as int]);
        assert(all_in_table(rest, next) && !rest.contains(idle)) by {
            assert forall|i: int| 0 <= i < rest.len() implies (#[trigger] rest[i]) < next.len()
                && rest[i] != idle by {
                assert(rest[i] == tokens[i + 1]);
                assert(tokens.contains(tokens[i + 1]));
            }
        }
        assert(distinct_labels(next)) by {
            assert forall|i: int, j: int| 0 <= i < j < next.len() implies (#[trigger] next[i]).label
                != (#[trigger] next[j]).label by {
                assert(ports[i].label != ports[j].label);
            }
        }
        lemma_undrained_port_is_left_alone(next, rest, cycles.drop_first(), idle);
    }
}

/// A tick hands out at most one record for each port: no two of its records carry the
/// same label.
pub proof fn lemma_one_record_per_port(
    ports: Seq<PortView>,
    tokens: Seq<usize>,
    cycles: Seq<Seq<ReadOutcome>>,
)
    requires
        distinct_labels(ports),
        all_in_table(tokens, ports),
        tokens.no_duplicates(),
    ensures
        forall|a: int, b: int|
            0 <= a < b < run_drains(ports, tokens, cycles).records.len() ==> (#[trigger] run_drains(
                ports,
                tokens,
                cycles,
            ).records[a]).label != (#[trigger] run_drains(ports, tokens, cycles).records[b]).label,
    decreases tokens.len(),
{
    if tokens.len() > 0 {
        let token = tokens[0];
        let port = ports[token as int];
        let verdict = drain(port.connected, Seq::empty(), cycles[0]);
        let next = ports_after(ports, token, verdict);
        let rest = tokens.drop_first();
        let later = run_drains(next, rest, cycles.drop_first());
        let out = run_drains(ports, tokens, cycles);
        let first = records_of(port, verdict);
        assert(tokens[0] < ports.len());
        assert(all_in_table(rest, next) && !rest.contains(token) && rest.no_duplicates()) by {
            assert forall|i: int| 0 <= i < rest.len() implies (#[trigger] rest[i]) < next.len()
                && rest[i] != token by {
                assert(rest[i] == tokens[i + 1]);
            }
            assert forall|i: int, j: int|
                0 <= i < rest.len() && 0 <= j < rest.len() && i != j implies rest[i]
                != rest[j] by {
                assert(rest[i] == tokens[i + 1] && rest[j] == tokens[j + 1]);
            }
        }
        assert(distinct_labels(next)) by {
            assert forall|i: int, j: int| 0 <= i < j < next.len() implies (#[trigger] next[i]).label
                != (#[trigger] next[j]).label by {
                assert(ports[i].label != ports[j].label);
            }
        }
        assert(next[token as int].label == port.label);
        lemma_one_record_per_port(next, rest, cycles.drop_first());
        lemma_undrained_port_is_left_alone(next, rest, cycles.drop_first(), token);
        assert forall|a: int, b: int| 0 <= a < b < out.records.len() implies (
        #[trigger] out.records[a]).label != (#[trigger] out.records[b]).label by {
            if a < first.len() {
                assert(out.records[a].label == port.label);
                assert(out.records[b] == later.records[b - first.len()]);
            } else {
                assert(out.records[a] == later.records[a - first.len()]);
                assert(out.records[b] == later.records[b - first.len()]);
            }
        }
    }
}

/// Read cycle isolation: a port that the poller did not report readable in a tick is left
/// alone in it. No read is attempted on its device, its liveness and label stay as they
/// were, and no record of the tick carries its label, whatever the other ports do.
pub proof fn lemma_idle_port_is_left_alone(
    ports: Seq<PortView>,
    events: Seq<Readiness>,
    cycles: Seq<Seq<ReadOutcome>>,
    idle: usize,
)
    requires
        distinct_labels(ports),
        all_registered(events, ports.len()),
        idle < ports.len(),
        !reported_readable(events, idle),
    ensures
        run_tick(ports, events, cycles).ports.len() == ports.len(),
        run_tick(ports, events, cycles).ports[idle as int] == ports[idle as int],
        !run_tick(ports, events, cycles).read_on.contains(idle),
        forall|k: int|
            0 <= k < run_tick(ports, events, cycles).records.len() ==> (#[trigger] run_tick(
                ports,
                events,
                cycles,
            ).records[k]).label != ports[idle as int].label,
{
    let tokens = readable_tokens(events);
    lemma_each_readable_port_is_drained_once(events);
    assert(!tokens.contains(idle));
    assert forall|i: int| 0 <= i < tokens.len() implies (#[trigger] tokens[i]) < ports.len() by {
        assert(tokens.contains(tokens[i]));
        assert(reported_readable(events, tokens[i]));
        let e = choose|e: int|
            0 <= e < events.len() && (#[trigger] events[e]).token == tokens[i] && events[e].readable;
        assert(events[e].token < ports.len());
    }
    lemma_undrained_port_is_left_alone(ports, tokens, cycles, idle);
}

} // verus!
