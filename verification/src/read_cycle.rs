//! Whole drain cycles, and sequences of them, over plain values.
//!
//! A device is known to the pump only by the outcomes of the reads that the host attempts.
//! [`drain`] says what a sequence of such outcomes comes to when each is handed to the pump in
//! turn, and [`run_cycles`] does the same for one port over any number of ticks. The proof
//! functions state what holds of every device.

use crate::read_pump::{bytes_of, read_verdict, ReadOutcome, ReadVerdict};
use vstd::prelude::*;

verus! {

/// What the pump comes to after the given outcomes, starting with `data` accumulated: the
/// verdict of the first outcome that ends the cycle, or `Continue` with everything accumulated
/// if none does. Outcomes after the end of the cycle are never looked at.
pub open spec fn drain(connected: bool, data: Seq<u8>, outcomes: Seq<ReadOutcome>) -> ReadVerdict
    decreases outcomes.len(),
{
    if outcomes.len() == 0 {
        ReadVerdict::Continue(data)
    } else {
        match read_verdict(connected, data, outcomes[0]) {
            ReadVerdict::Continue(more) => drain(connected, more, outcomes.drop_first()),
            verdict => verdict,
        }
    }
}

/// All bytes that the outcomes deliver, in order.
pub open spec fn delivered(outcomes: Seq<ReadOutcome>) -> Seq<u8>
    decreases outcomes.len(),
{
    if outcomes.len() == 0 {
        Seq::empty()
    } else {
        bytes_of(outcomes[0]) + delivered(outcomes.drop_first())
    }
}

/// An outcome that does not end the cycle on an open port: bytes, an interruption or a
/// failure.
pub open spec fn keeps_reading(outcome: ReadOutcome) -> bool {
    match outcome {
        ReadOutcome::Bytes(chunk) => chunk@.len() > 0,
        ReadOutcome::WouldBlock => false,
        ReadOutcome::Interrupted => true,
        ReadOutcome::Failed => true,
    }
}

/// None of the outcomes ends the cycle on an open port.
pub open spec fn all_keep_reading(outcomes: Seq<ReadOutcome>) -> bool {
    forall|i: int| 0 <= i < outcomes.len() ==> keeps_reading(#[trigger] outcomes[i])
}

/// A cycle that runs to its natural end: reads that do not end it, then would-block.
pub open spec fn ends_in_would_block(cycle: Seq<ReadOutcome>) -> bool {
    &&& cycle.len() > 0
    &&& cycle.last() is WouldBlock
    &&& all_keep_reading(cycle.drop_last())
}

/// The record that a finished cycle hands out, if any.
pub open spec fn record_of(verdict: ReadVerdict) -> Seq<Seq<u8>> {
    match verdict {
        ReadVerdict::Emit(data) => seq![data],
        _ => Seq::empty(),
    }
}

/// One port over several ticks: whether it is still open, and the records handed out.
pub struct PortHistory {
    pub connected: bool,
    pub records: Seq<Seq<u8>>,
}

/// What a port comes to over the given drain cycles, each started with a fresh pump: a cycle
/// that meets end-of-stream closes the port for all that follow.
pub open spec fn run_cycles(connected: bool, cycles: Seq<Seq<ReadOutcome>>) -> PortHistory
    decreases cycles.len(),
{
    if cycles.len() == 0 {
        PortHistory { connected, records: Seq::empty() }
    } else {
        let verdict = drain(connected, Seq::empty(), cycles[0]);
        let later = run_cycles(connected && !(verdict is Closed), cycles.drop_first());
        PortHistory { connected: later.connected, records: record_of(verdict) + later.records }
    }
}

/// The records joined end to end.
pub open spec fn joined(records: Seq<Seq<u8>>) -> Seq<u8>
    decreases records.len(),
{
    if records.len() == 0 {
        Seq::empty()
    } else {
        records[0] + joined(records.drop_first())
    }
}

/// All bytes that the device delivered over the cycles, in order.
pub open spec fn delivered_over(cycles: Seq<Seq<ReadOutcome>>) -> Seq<u8>
    decreases cycles.len(),
{
    if cycles.len() == 0 {
        Seq::empty()
    } else {
        delivered(cycles[0]) + delivered_over(cycles.drop_first())
    }
}

/// Outcomes that do not end the cycle only add their bytes to what is accumulated: the pump
/// goes on from there with the outcomes that follow.
pub proof fn lemma_drain_accumulates(data: Seq<u8>, body: Seq<ReadOutcome>, rest: Seq<ReadOutcome>)
    requires
        all_keep_reading(body),
    ensures
        drain(true, data, body + rest) == drain(true, data + delivered(body), rest),
    decreases body.len(),
{
    if body.len() == 0 {
        assert(body + rest =~= rest);
        assert(data + delivered(body) =~= data);
    } else {
        let first = body[0];
        let more = data + bytes_of(first);
        assert(keeps_reading(first));
        assert((body + rest)[0] == first);
        assert((body + rest).drop_first() =~= body.drop_first() + rest);
        assert(data + Seq::<u8>::empty() =~= data);
        assert(read_verdict(true, data, first) == ReadVerdict::Continue(more));
        assert(all_keep_reading(body.drop_first())) by {
            assert forall|i: int| 0 <= i < body.drop_first().len() implies keeps_reading(
                #[trigger] body.drop_first()[i],
            ) by {
                assert(body.drop_first()[i] == body[i + 1]);
            }
        }
        lemma_drain_accumulates(more, body.drop_first(), rest);
        assert(more + delivered(body.drop_first()) =~= data + delivered(body));
    }
}

/// Would-block delivers nothing, so a cycle that ends in it delivers what its reads did.
pub proof fn lemma_delivered_before_would_block(cycle: Seq<ReadOutcome>)
    requires
        cycle.len() > 0,
        cycle.last() is WouldBlock,
    ensures
        delivered(cycle) == delivered(cycle.drop_last()),
    decreases cycle.len(),
{
    if cycle.len() == 1 {
        assert(cycle.drop_first() =~= cycle.drop_last());
        assert(delivered(cycle.drop_first()) =~= Seq::<u8>::empty());
        assert(delivered(cycle) =~= Seq::<u8>::empty());
    } else {
        let tail = cycle.drop_first();
        assert(tail.last() == cycle.last());
        lemma_delivered_before_would_block(tail);
        assert(tail.drop_last() =~= cycle.drop_last().drop_first());
        assert(cycle.drop_last()[0] == cycle[0]);
    }
}

/// Read completeness for one cycle: whatever the sizes of the chunks in which a device
/// delivers its bytes, and however many interruptions and failures lie between them, the
/// cycle that ends in would-block hands out exactly the bytes accumulated before plus the
/// bytes delivered, in order, as one record; and no record if there are none.
pub proof fn lemma_cycle_hands_out_what_was_delivered(data: Seq<u8>, cycle: Seq<ReadOutcome>)
    requires
        ends_in_would_block(cycle),
    ensures
        drain(true, data, cycle) == if (data + delivered(cycle)).len() == 0 {
            ReadVerdict::Idle
        } else {
            ReadVerdict::Emit(data + delivered(cycle))
        },
{
    let body = cycle.drop_last();
    let end = seq![cycle.last()];
    assert(cycle =~= body + end);
    lemma_drain_accumulates(data, body, end);
    lemma_delivered_before_would_block(cycle);
    let all = data + delivered(body);
    assert(end.drop_first() =~= Seq::<ReadOutcome>::empty());
    assert(drain(true, all, end) == read_verdict(true, all, end[0]));
}

/// End-of-stream ends the cycle without a record, whatever was accumulated before it.
pub proof fn lemma_end_of_stream_closes(
    data: Seq<u8>,
    body: Seq<ReadOutcome>,
    end: ReadOutcome,
    rest: Seq<ReadOutcome>,
)
    requires
        all_keep_reading(body),
        end matches ReadOutcome::Bytes(chunk) && chunk@.len() == 0,
    ensures
        drain(true, data, body + seq![end] + rest) == ReadVerdict::Closed,
{
    let tail = seq![end] + rest;
    assert(body + seq![end] + rest =~= body + tail);
    lemma_drain_accumulates(data, body, tail);
    assert(tail[0] == end);
}

/// Read cycle isolation: a cycle in which the device delivers no byte hands out no record.
pub proof fn lemma_no_data_no_record(connected: bool, outcomes: Seq<ReadOutcome>)
    requires
        delivered(outcomes).len() == 0,
    ensures
        !(drain(connected, Seq::empty(), outcomes) is Emit),
    decreases outcomes.len(),
{
    if outcomes.len() > 0 {
        let first = outcomes[0];
        assert(bytes_of(first).len() == 0);
        assert(delivered(outcomes.drop_first()).len() == 0);
        if read_verdict(connected, Seq::empty(), first) is Continue {
            assert(read_verdict(connected, Seq::empty(), first) == ReadVerdict::Continue(
                Seq::<u8>::empty(),
            ));
            lemma_no_data_no_record(connected, outcomes.drop_first());
        }
    }
}

/// On a closed port the first outcome of a cycle is skipped, and with it the cycle.
pub proof fn lemma_closed_port_is_skipped(data: Seq<u8>, outcomes: Seq<ReadOutcome>)
    requires
        outcomes.len() > 0,
    ensures
        drain(false, data, outcomes) == ReadVerdict::Skipped,
{
}

/// End-of-stream is final: a closed port stays closed over all cycles that follow, and none
/// of them hands out a record.
pub proof fn lemma_closed_port_stays_silent(cycles: Seq<Seq<ReadOutcome>>)
    ensures
        run_cycles(false, cycles) == (PortHistory { connected: false, records: Seq::empty() }),
    decreases cycles.len(),
{
    if cycles.len() > 0 {
        let verdict = drain(false, Seq::empty(), cycles[0]);
        assert(!(verdict is Emit) && !(verdict is Closed)) by {
            if cycles[0].len() > 0 {
                lemma_closed_port_is_skipped(Seq::empty(), cycles[0]);
            }
        }
        lemma_closed_port_stays_silent(cycles.drop_first());
        assert(record_of(verdict) + Seq::<Seq<u8>>::empty() =~= Seq::<Seq<u8>>::empty());
    }
}

/// End-of-stream idempotence: once a cycle has met end-of-stream the port is closed, and
/// whatever the device does in the cycles that follow, none of them hands out a record.
pub proof fn lemma_end_of_stream_is_final(cycle: Seq<ReadOutcome>, later: Seq<Seq<ReadOutcome>>)
    requires
        drain(true, Seq::empty(), cycle) is Closed,
    ensures
        run_cycles(true, seq![cycle] + later) == (PortHistory {
            connected: false,
            records: Seq::empty(),
        }),
{
    let cycles = seq![cycle] + later;
    assert(cycles[0] == cycle);
    assert(cycles.drop_first() =~= later);
    lemma_closed_port_stays_silent(later);
    assert(record_of(drain(true, Seq::empty(), cycle)) + Seq::<Seq<u8>>::empty()
        =~= Seq::<Seq<u8>>::empty());
}

/// Read completeness over any number of ticks: when every cycle runs to would-block, the
/// port stays open and the records handed out, joined end to end, are exactly the bytes that
/// the device delivered, in order, nothing lost and nothing twice.
pub proof fn lemma_records_are_what_was_delivered(cycles: Seq<Seq<ReadOutcome>>)
    requires
        forall|i: int| 0 <= i < cycles.len() ==> ends_in_would_block(#[trigger] cycles[i]),
    ensures
        run_cycles(true, cycles).connected,
        joined(run_cycles(true, cycles).records) == delivered_over(cycles),
    decreases cycles.len(),
{
    if cycles.len() > 0 {
        let first = cycles[0];
        let later = cycles.drop_first();
        assert(ends_in_would_block(first));
        lemma_cycle_hands_out_what_was_delivered(Seq::empty(), first);
        assert(Seq::<u8>::empty() + delivered(first) =~= delivered(first));
        let verdict = drain(true, Seq::empty(), first);
        assert forall|i: int| 0 <= i < later.len() implies ends_in_would_block(
            #[trigger] later[i],
        ) by {
            assert(later[i] == cycles[i + 1]);
        }
        lemma_records_are_what_was_delivered(later);
        let rest = run_cycles(true, later).records;
        if delivered(first).len() == 0 {
            assert(record_of(verdict) + rest =~= rest);
            assert(delivered(first) + delivered_over(later) =~= delivered_over(later));
        } else {
            let records = record_of(verdict) + rest;
            assert(records[0] == delivered(first));
            assert(records.drop_first() =~= rest);
        }
    }
}

} // verus!
