//! Every byte of a write goes out once, in order, and its length is
//! reported once.

use crate::laws::{law_command_takes_only_idle_slot, transmits_for};
use crate::model::{chunk_data, shorter, AppState, ConsoleState, SlotState};
use crate::trace::{law_call_leaves_others_alone, Event};
use crate::types::{ErrorCode, RequestView, TransferStatus, WriteDoneView};
use crate::wellformed::{
    lemma_attached_position, lemma_command_wf, lemma_enter, lemma_entry_position,
    lemma_one_entry_changed, lemma_received_buffer_wf, lemma_restart,
    lemma_transmitted_buffer_wf, wf_entries,
};
use vstd::prelude::*;

verus! {

/// Bytes that one request hands to the transmitter on behalf of `process`.
pub open spec fn bytes_for(request: RequestView, process: usize) -> nat {
    match request {
        RequestView::Transmit { process: owner, len, .. } => if owner == process {
            len
        } else {
            0
        },
        _ => 0,
    }
}

/// Total bytes that `requests` hand to the transmitter on behalf of
/// `process`.
pub open spec fn delivered(requests: Seq<RequestView>, process: usize) -> nat
    decreases requests.len(),
{
    if requests.len() == 0 {
        0
    } else {
        delivered(requests.drop_last(), process) + bytes_for(requests.last(), process)
    }
}

/// What the write completions among `done` report to `process`, in order.
pub open spec fn reports(done: Seq<WriteDoneView>, process: usize) -> Seq<Result<nat, ErrorCode>>
    decreases done.len(),
{
    if done.len() == 0 {
        Seq::empty()
    } else if done.first().process == process {
        seq![done.first().result] + reports(done.drop_first(), process)
    } else {
        reports(done.drop_first(), process)
    }
}

/// The reports of two lists in a row are the reports of the first, then
/// those of the second.
pub proof fn lemma_reports_add(a: Seq<WriteDoneView>, b: Seq<WriteDoneView>, process: usize)
    ensures
        reports(a + b, process) == reports(a, process) + reports(b, process),
    decreases a.len(),
{
    if a.len() > 0 {
        assert((a + b).drop_first() =~= a.drop_first() + b);
        lemma_reports_add(a.drop_first(), b, process);
    }
}

/// The reports of one record followed by others.
pub proof fn lemma_reports_first(record: WriteDoneView, later: Seq<WriteDoneView>, process: usize)
    ensures
        reports(seq![record] + later, process) == if record.process == process {
            seq![record.result] + reports(later, process)
        } else {
            reports(later, process)
        },
{
    let all = seq![record] + later;
    assert(all.drop_first() =~= later);
}

/// The write of `process` waits for the transmit slot, none of its `total`
/// bytes sent.
pub open spec fn waiting(c: ConsoleState, process: usize, total: nat) -> bool {
    &&& c.wf()
    &&& c.attached(process)
    &&& c.tx.owner() != Some(process)
    &&& c.apps[c.index_of(process)].pending_write
    &&& c.apps[c.index_of(process)].write_len == total
    &&& c.apps[c.index_of(process)].write_remaining == total
    &&& c.apps[c.index_of(process)].retained() is Some
}

/// `process` owns the transmit slot, `sent` of the `total` bytes of its
/// write handed to the transmitter.
pub open spec fn sending(c: ConsoleState, process: usize, total: nat, sent: nat) -> bool {
    &&& c.wf()
    &&& c.attached(process)
    &&& c.tx == SlotState::InFlight(process)
    &&& !c.apps[c.index_of(process)].pending_write
    &&& c.apps[c.index_of(process)].write_len == total
    &&& sent + c.apps[c.index_of(process)].write_remaining == total
    &&& c.apps[c.index_of(process)].write_remaining > 0 ==> c.apps[c.index_of(
        process,
    )].retained() is Some
}

/// `process` neither owns the transmit slot nor waits for it.
pub open spec fn settled(c: ConsoleState, process: usize) -> bool {
    &&& c.wf()
    &&& c.attached(process)
    &&& c.tx.owner() != Some(process)
    &&& !c.apps[c.index_of(process)].pending_write
}

/// Where one write of `total` bytes stands: waiting with nothing sent,
/// under way with `sent` bytes out and nothing reported, or over with all
/// bytes out and the total reported once.
pub open spec fn write_stands(
    c: ConsoleState,
    process: usize,
    total: nat,
    sent: nat,
    reported: Seq<Result<nat, ErrorCode>>,
) -> bool {
    ||| waiting(c, process, total) && sent == 0 && reported == Seq::<Result<nat, ErrorCode>>::empty()
    ||| sending(c, process, total, sent) && reported == Seq::<Result<nat, ErrorCode>>::empty()
    ||| settled(c, process) && sent == total && reported == seq![Ok::<nat, ErrorCode>(total)]
}

/// Two entries agree on all that concerns writing.
pub open spec fn same_write(a: AppState, b: AppState) -> bool {
    &&& a.process == b.process
    &&& a.write_buffer == b.write_buffer
    &&& a.write_len == b.write_len
    &&& a.write_remaining == b.write_remaining
    &&& a.pending_write == b.pending_write
}

/// A write stands where it stood after a step that left the process's write
/// fields alone and did not give the process the transmit slot.
proof fn lemma_stands_still(
    c: ConsoleState,
    next: ConsoleState,
    process: usize,
    at: int,
    total: nat,
    sent: nat,
    reported: Seq<Result<nat, ErrorCode>>,
)
    requires
        write_stands(c, process, total, sent, reported),
        next.wf(),
        0 <= at < next.apps.len(),
        same_write(next.apps[at], c.apps[c.index_of(process)]),
        next.tx == c.tx || (c.tx is Idle && next.tx.owner() != Some(process)),
    ensures
        write_stands(next, process, total, sent, reported),
{
    lemma_attached_position(c.apps, process);
    lemma_entry_position(next, process, at);
}

/// A call of another process leaves a write where it stands, hands no byte
/// of it to the transmitter and reports nothing of it.
proof fn lemma_step_of_another(
    c: ConsoleState,
    event: Event,
    process: usize,
    total: nat,
    sent: nat,
    reported: Seq<Result<nat, ErrorCode>>,
)
    requires
        write_stands(c, process, total, sent, reported),
        event.caller() is Some,
        event.caller() != Some(process),
    ensures
        write_stands(c.step(event).0, process, total, sent, reported),
        transmits_for(c.step(event).1) != Some(process),
        c.step(event).2 == Seq::<WriteDoneView>::empty(),
{
    let next = c.step(event).0;
    law_call_leaves_others_alone(c, event, process);
    lemma_attached_position(next.apps, process);
    if let Event::Command { cmd_num, arg1, process: q } = event {
        law_command_takes_only_idle_slot(c, cmd_num, arg1, q);
    }
    lemma_stands_still(c, next, process, next.index_of(process), total, sent, reported);
}

/// The return of the receive slot leaves a write where it stands.
proof fn lemma_step_received(
    c: ConsoleState,
    buffer: Seq<u8>,
    rx_len: nat,
    error: TransferStatus,
    process: usize,
    total: nat,
    sent: nat,
    reported: Seq<Result<nat, ErrorCode>>,
)
    requires
        write_stands(c, process, total, sent, reported),
    ensures
        write_stands(c.received_buffer(buffer, rx_len, error).0, process, total, sent, reported),
{
    lemma_attached_position(c.apps, process);
    lemma_received_buffer_wf(c, buffer, rx_len, error);
    let at = c.index_of(process);
    let next = c.received_buffer(buffer, rx_len, error).0;
    match c.rx.owner() {
        Some(reader) => {
            if c.attached(reader) {
                lemma_attached_position(c.apps, reader);
            }
        },
        None => {},
    }
    lemma_stands_still(c, next, process, at, total, sent, reported);
}

/// A refused receive leaves a write where it stands.
proof fn lemma_step_refused(
    c: ConsoleState,
    buffer: Seq<u8>,
    process: usize,
    total: nat,
    sent: nat,
    reported: Seq<Result<nat, ErrorCode>>,
)
    requires
        write_stands(c, process, total, sent, reported),
    ensures
        write_stands(c.receive_refused(buffer), process, total, sent, reported),
{
    lemma_attached_position(c.apps, process);
    lemma_stands_still(
        c,
        c.receive_refused(buffer),
        process,
        c.index_of(process),
        total,
        sent,
        reported,
    );
}

/// What the entry of a process looks like once its next chunk went out of
/// an idle slot of `capacity` bytes.
pub open spec fn after_chunk(app: AppState, capacity: nat) -> AppState {
    AppState {
        pending_write: false,
        write_remaining: (app.write_remaining - shorter(app.write_remaining, capacity)) as nat,
        write_buffer: if app.write_remaining > capacity {
            app.write_buffer
        } else {
            None
        },
        ..app
    }
}

/// Arbitration, seen from the process at `at`. Unless that process is
/// pending at or behind `from`, its entry stays as it is and the slot goes
/// to somebody else or stays idle. If it is pending there with its buffer
/// intact, either an earlier process is started and it keeps waiting, or it
/// is started itself with its first chunk. Nothing is reported to it either
/// way.
proof fn lemma_arbitrate_for(c: ConsoleState, from: int, at: int)
    requires
        wf_entries(c),
        c.tx is Idle,
        0 <= from,
        0 <= at < c.apps.len(),
        c.apps[at].pending_write ==> c.apps[at].retained() is Some,
    ensures
        ({
            let (next, request, done) = c.arbitrate(from);
            let app = c.apps[at];
            &&& next.apps.len() == c.apps.len()
            &&& wf_entries(next)
            &&& next.apps[at].process == app.process
            &&& reports(done, app.process) == Seq::<Result<nat, ErrorCode>>::empty()
            &&& if from <= at && app.pending_write {
                ||| next.apps[at] == app && transmits_for(request) is Some && transmits_for(request)
                    != Some(app.process) && next.tx.owner() == transmits_for(request)
                ||| next.apps[at] == after_chunk(app, c.tx->Idle_0.len()) && next.tx
                    == SlotState::InFlight(app.process) && transmits_for(request) == Some(
                    app.process,
                ) && bytes_for(request->0, app.process) == shorter(
                    app.write_remaining,
                    c.tx->Idle_0.len(),
                )
            } else {
                &&& next.apps[at] == app
                &&& transmits_for(request) != Some(app.process)
                &&& next.tx.owner() == transmits_for(request)
            }
        }),
    decreases c.apps.len() - from,
{
    let app = c.apps[at];
    if from >= c.apps.len() {
    } else if !c.apps[from].pending_write {
        lemma_arbitrate_for(c, from + 1, at);
    } else {
        let cleared = c.with_app(from, AppState { pending_write: false, ..c.apps[from] });
        lemma_one_entry_changed(c.apps, cleared.apps, from);
        lemma_restart(cleared, from);
        let (next, request, lost) = cleared.restart(from);
        if from != at {
            if from < at {
                assert(c.apps[from].process != c.apps[at].process);
            } else {
                assert(c.apps[at].process != c.apps[from].process);
            }
            if lost is Some {
                lemma_arbitrate_for(next, from + 1, at);
                lemma_reports_first(lost->0, next.arbitrate(from + 1).2, app.process);
            }
        }
    }
}

/// The return of the transmit slot, seen from a process whose write stands
/// somewhere: the write moves on by the bytes of the chunk that goes out for
/// it, if one does, and by the report of its total, if that is due.
proof fn lemma_step_transmitted(
    c: ConsoleState,
    buffer: Seq<u8>,
    process: usize,
    total: nat,
    sent: nat,
    reported: Seq<Result<nat, ErrorCode>>,
)
    requires
        write_stands(c, process, total, sent, reported),
    ensures
        ({
            let (next, request, done) = c.transmitted_buffer(buffer);
            let more: nat = match request {
                Some(r) => bytes_for(r, process),
                None => 0,
            };
            let app = c.apps[c.index_of(process)];
            &&& write_stands(next, process, total, sent + more, reported + reports(done, process))
            &&& sending(c, process, total, sent) && app.write_remaining > 0 ==> {
                &&& request == Some(
                    RequestView::Transmit {
                        process,
                        data: chunk_data(app.retained()->0, app.write_remaining, buffer),
                        len: shorter(app.write_remaining, buffer.len()),
                    },
                )
                &&& done == Seq::<WriteDoneView>::empty()
                &&& sending(next, process, total, sent + more)
                &&& next.apps[next.index_of(process)].write_remaining == app.write_remaining
                    - more
            }
            &&& sending(c, process, total, sent) && app.write_remaining == 0 ==> {
                &&& settled(next, process)
                &&& transmits_for(request) != Some(process)
                &&& done.len() > 0
                &&& done[0] == WriteDoneView {
                    process,
                    callback: app.write_callback,
                    result: Ok(total),
                }
                &&& reports(done, process) == seq![Ok::<nat, ErrorCode>(total)]
            }
        }),
{
    lemma_attached_position(c.apps, process);
    lemma_transmitted_buffer_wf(c, buffer);
    let at = c.index_of(process);
    let app = c.apps[at];
    let returned = ConsoleState { tx: SlotState::Idle(buffer), ..c };
    let (next, request, done) = c.transmitted_buffer(buffer);
    match c.tx.owner() {
        Some(owner) => {
            if returned.attached(owner) {
                lemma_attached_position(returned.apps, owner);
                let i = returned.index_of(owner);
                if owner == process {
                    if app.write_remaining > 0 {
                        lemma_restart(returned, at);
                        lemma_entry_position(next, process, at);
                    } else {
                        let ended = returned.with_app(at, AppState { write_len: 0, ..app });
                        let record = WriteDoneView {
                            process,
                            callback: app.write_callback,
                            result: Ok(app.write_len),
                        };
                        lemma_one_entry_changed(returned.apps, ended.apps, at);
                        lemma_arbitrate_for(ended, 0, at);
                        lemma_reports_first(record, ended.arbitrate(0).2, process);
                        lemma_entry_position(next, process, at);
                    }
                } else {
                    let other = returned.apps[i];
                    if other.write_remaining > 0 {
                        lemma_restart(returned, i);
                        let resumed = returned.restart(i).0;
                        match returned.restart(i).2 {
                            None => {
                                lemma_stands_after(c, next, process, at, total, sent, reported);
                            },
                            Some(record) => {
                                lemma_arbitrate_for(resumed, 0, at);
                                lemma_reports_first(record, resumed.arbitrate(0).2, process);
                                lemma_entry_position(next, process, at);
                            },
                        }
                    } else {
                        let ended = returned.with_app(i, AppState { write_len: 0, ..other });
                        let record = WriteDoneView {
                            process: owner,
                            callback: other.write_callback,
                            result: Ok(other.write_len),
                        };
                        lemma_one_entry_changed(returned.apps, ended.apps, i);
                        lemma_arbitrate_for(ended, 0, at);
                        lemma_reports_first(record, ended.arbitrate(0).2, process);
                        lemma_entry_position(next, process, at);
                    }
                }
            } else {
                lemma_arbitrate_for(returned, 0, at);
                lemma_entry_position(next, process, at);
            }
        },
        None => {
            lemma_arbitrate_for(returned, 0, at);
            lemma_entry_position(next, process, at);
        },
    }
}

/// A write stands where it stood after a step that left the process's entry
/// alone and the transmit slot with another process.
proof fn lemma_stands_after(
    c: ConsoleState,
    next: ConsoleState,
    process: usize,
    at: int,
    total: nat,
    sent: nat,
    reported: Seq<Result<nat, ErrorCode>>,
)
    requires
        write_stands(c, process, total, sent, reported),
        c.tx.owner() != Some(process),
        next.wf(),
        0 <= at < next.apps.len(),
        at == c.index_of(process),
        next.apps[at] == c.apps[at],
        next.tx.owner() != Some(process),
    ensures
        write_stands(next, process, total, sent, reported),
{
    lemma_attached_position(c.apps, process);
    lemma_entry_position(next, process, at);
}

/// Every byte of a write goes out once. Take a process that neither owns
/// the transmit slot nor waits for it, and let it start a write that is
/// accepted. Whatever the other processes and the transport do after that,
/// in whatever order, the bytes handed to the transmitter on its behalf never
/// exceed the length that the write was started with; and the engine reports
/// to it either nothing yet, or that very length, once, after which exactly
/// that many bytes have gone out.
pub proof fn law_write_delivers_its_length(
    c: ConsoleState,
    process: usize,
    len: usize,
    events: Seq<Event>,
)
    requires
        c.wf(),
        c.tx.owner() != Some(process),
        c.attached(process) ==> !c.apps[c.index_of(process)].pending_write,
        c.command(1, len, process).1 is Ok,
        events.len() > 0,
        events[0] == (Event::Command { cmd_num: 1, arg1: len, process }),
        forall|k: int| 1 <= k < events.len() ==> (#[trigger] events[k]).caller() != Some(process),
    ensures
        ({
            let total = shorter(
                len as nat,
                c.enter(process).apps[c.enter(process).index_of(process)].write_buffer->0.len(),
            );
            let outcome = c.run(events);
            let sent = delivered(outcome.requests, process);
            let reported = reports(outcome.done, process);
            &&& write_stands(outcome.state, process, total, sent, reported)
            &&& sent <= total
            &&& reported == Seq::<Result<nat, ErrorCode>>::empty() || (reported == seq![
                Ok::<nat, ErrorCode>(total),
            ] && sent == total)
        }),
    decreases events.len(),
{
    let total = shorter(
        len as nat,
        c.enter(process).apps[c.enter(process).index_of(process)].write_buffer->0.len(),
    );
    let earlier = events.drop_last();
    let before = c.run(earlier);
    let (next, request, done) = before.state.step(events.last());
    let outcome = c.run(events);
    if events.len() == 1 {
        lemma_enter(c, process);
        lemma_command_wf(c, 1, len, process);
        let entered = c.enter(process);
        let at = entered.index_of(process);
        lemma_entry_position(next, process, at);
        if request is Some {
            assert(outcome.requests.drop_last() =~= Seq::<RequestView>::empty());
        }
    } else {
        law_write_delivers_its_length(c, process, len, earlier);
        let sent = delivered(before.requests, process);
        let reported = reports(before.done, process);
        let event = events.last();
        lemma_reports_add(before.done, done, process);
        if request is Some {
            assert(outcome.requests.drop_last() =~= before.requests);
        }
        match event {
            Event::Transmitted { buffer } => {
                lemma_step_transmitted(before.state, buffer, process, total, sent, reported);
            },
            Event::Received { buffer, rx_len, error } => {
                lemma_step_received(
                    before.state,
                    buffer,
                    rx_len,
                    error,
                    process,
                    total,
                    sent,
                    reported,
                );
            },
            Event::ReceiveRefused { buffer } => {
                lemma_step_refused(before.state, buffer, process, total, sent, reported);
            },
            _ => {
                lemma_step_of_another(before.state, event, process, total, sent, reported);
            },
        }
    }
}

/// Chunks go out in order. While a process owns the transmit slot with
/// bytes left to send, the return of the slot sends its next chunk: the
/// unsent bytes from their start, as many as the returned buffer holds, and
/// nothing is reported yet. With nothing left, the return of the slot ends
/// the write: the first report is the total, to the owner's notifier.
pub proof fn law_next_chunk_or_report(
    c: ConsoleState,
    process: usize,
    total: nat,
    sent: nat,
    buffer: Seq<u8>,
)
    requires
        sending(c, process, total, sent),
    ensures
        ({
            let (next, request, done) = c.transmitted_buffer(buffer);
            let app = c.apps[c.index_of(process)];
            let chunk = shorter(app.write_remaining, buffer.len());
            if app.write_remaining > 0 {
                &&& request == Some(
                    RequestView::Transmit {
                        process,
                        data: chunk_data(app.retained()->0, app.write_remaining, buffer),
                        len: chunk,
                    },
                )
                &&& done == Seq::<WriteDoneView>::empty()
                &&& sending(next, process, total, sent + chunk)
            } else {
                &&& sent == total
                &&& settled(next, process)
                &&& transmits_for(request) != Some(process)
                &&& done.len() > 0
                &&& done[0] == WriteDoneView {
                    process,
                    callback: app.write_callback,
                    result: Ok(total),
                }
            }
        }),
{
    let none = Seq::<Result<nat, ErrorCode>>::empty();
    lemma_step_transmitted(c, buffer, process, total, sent, none);
}

/// Every write ends. While a process owns the transmit slot, let the
/// transport return the slot, each time with a buffer that holds at least
/// one byte, more often than the write has bytes left, and let the other
/// processes do what they will in between. Then the owner's total has been
/// reported to it, once, and all its bytes have gone out.
pub proof fn law_write_completes(
    c: ConsoleState,
    process: usize,
    total: nat,
    sent: nat,
    events: Seq<Event>,
)
    requires
        sending(c, process, total, sent),
        forall|k: int| 0 <= k < events.len() ==> (#[trigger] events[k]).caller() != Some(process),
        forall|k: int|
            0 <= k < events.len() ==> ((#[trigger] events[k]) matches Event::Transmitted {
                buffer,
            } ==> buffer.len() > 0),
        count_transmitted(events) > total - sent,
    ensures
        settled(c.run(events).state, process),
        reports(c.run(events).done, process) == seq![Ok::<nat, ErrorCode>(total)],
        sent + delivered(c.run(events).requests, process) == total,
{
    lemma_run_progress(c, process, total, sent, events);
}

/// How often the transport returns the transmit slot among `events`.
pub open spec fn count_transmitted(events: Seq<Event>) -> nat
    decreases events.len(),
{
    if events.len() == 0 {
        0
    } else if events.last() is Transmitted {
        count_transmitted(events.drop_last()) + 1
    } else {
        count_transmitted(events.drop_last())
    }
}

/// Where the owner's write stands after a run: over, or under way with at
/// least one byte fewer left for every return of the slot.
proof fn lemma_run_progress(
    c: ConsoleState,
    process: usize,
    total: nat,
    sent: nat,
    events: Seq<Event>,
)
    requires
        sending(c, process, total, sent),
        forall|k: int| 0 <= k < events.len() ==> (#[trigger] events[k]).caller() != Some(process),
        forall|k: int|
            0 <= k < events.len() ==> ((#[trigger] events[k]) matches Event::Transmitted {
                buffer,
            } ==> buffer.len() > 0),
    ensures
        ({
            let outcome = c.run(events);
            let out = sent + delivered(outcome.requests, process);
            let reported = reports(outcome.done, process);
            &&& write_stands(outcome.state, process, total, out, reported)
            &&& !waiting(outcome.state, process, total)
            &&& reported == Seq::<Result<nat, ErrorCode>>::empty() ==> sending(
                outcome.state,
                process,
                total,
                out,
            ) && sent + count_transmitted(events) <= out
        }),
    decreases events.len(),
{
    if events.len() > 0 {
        let earlier = events.drop_last();
        let before = c.run(earlier);
        let event = events.last();
        assert forall|k: int| 0 <= k < earlier.len() implies (#[trigger] earlier[k]).caller()
            != Some(process) by {
            assert(earlier[k] == events[k]);
        }
        assert forall|k: int| 0 <= k < earlier.len() implies ((
        #[trigger] earlier[k]) matches Event::Transmitted { buffer } ==> buffer.len() > 0) by {
            assert(earlier[k] == events[k]);
        }
        lemma_run_progress(c, process, total, sent, earlier);
        let (next, request, done) = before.state.step(event);
        let outcome = c.run(events);
        let out = sent + delivered(before.requests, process);
        let reported = reports(before.done, process);
        lemma_reports_add(before.done, done, process);
        if request is Some {
            assert(outcome.requests.drop_last() =~= before.requests);
        }
        match event {
            Event::Transmitted { buffer } => {
                lemma_step_transmitted(before.state, buffer, process, total, out, reported);
            },
            Event::Received { buffer, rx_len, error } => {
                lemma_step_received(before.state, buffer, rx_len, error, process, total, out, reported);
            },
            Event::ReceiveRefused { buffer } => {
                lemma_step_refused(before.state, buffer, process, total, out, reported);
            },
            _ => {
                lemma_step_of_another(before.state, event, process, total, out, reported);
            },
        }
    }
}

} // verus!
