//! Every operation of the engine keeps its state well formed.

use crate::model::{
    entries_wf, holds, is_position_of, position_of, shorter, AppState, ConsoleState, SlotState,
};
use crate::types::{Callback, TransferStatus};
use vstd::prelude::*;

verus! {

/// The first position of a process is the only one that `position_of` can
/// name.
pub proof fn lemma_position_unique(apps: Seq<AppState>, process: usize, i: int)
    requires
        is_position_of(apps, process, i),
    ensures
        holds(apps, process),
        position_of(apps, process) == i,
{
    let k = position_of(apps, process);
    if k < i {
        assert(apps[k].process != process);
    }
    if i < k {
        assert(apps[i].process != process);
    }
}

/// A process with an entry anywhere has a first entry, at or before it.
pub proof fn lemma_entry_holds(apps: Seq<AppState>, process: usize, j: int)
    requires
        0 <= j < apps.len(),
        apps[j].process == process,
    ensures
        holds(apps, process),
        0 <= position_of(apps, process) <= j,
        apps[position_of(apps, process)].process == process,
    decreases j,
{
    if forall|k: int| 0 <= k < j ==> (#[trigger] apps[k]).process != process {
        lemma_position_unique(apps, process, j);
    } else {
        let k = choose|k: int| 0 <= k < j && (#[trigger] apps[k]).process == process;
        lemma_entry_holds(apps, process, k);
    }
}

/// Where no process is attached twice, the entry of a process is at its
/// position.
pub proof fn lemma_entry_position(c: ConsoleState, process: usize, j: int)
    requires
        c.wf(),
        0 <= j < c.apps.len(),
        c.apps[j].process == process,
    ensures
        c.attached(process),
        c.index_of(process) == j,
{
    lemma_entry_holds(c.apps, process, j);
    let k = position_of(c.apps, process);
    if k < j {
        assert(c.apps[k].process != c.apps[j].process);
    }
}

/// An attached process has a valid position, and its entry is there.
pub proof fn lemma_attached_position(apps: Seq<AppState>, process: usize)
    requires
        holds(apps, process),
    ensures
        0 <= position_of(apps, process) < apps.len(),
        apps[position_of(apps, process)].process == process,
{
}

/// After `enter` the process is attached, at the position it had or behind
/// all others.
pub proof fn lemma_enter(c: ConsoleState, process: usize)
    ensures
        c.enter(process).attached(process),
        0 <= c.enter(process).index_of(process) < c.enter(process).apps.len(),
        c.enter(process).apps[c.enter(process).index_of(process)].process == process,
        c.attached(process) ==> c.enter(process) == c,
        !c.attached(process) ==> c.enter(process).index_of(process) == c.apps.len()
            && c.enter(process).apps == c.apps.push(AppState::fresh(process)),
        c.wf() ==> c.enter(process).wf(),
{
    if c.attached(process) {
        lemma_attached_position(c.apps, process);
    } else {
        let next = c.enter(process);
        let last: int = c.apps.len() as int;
        assert forall|j: int| 0 <= j < last implies (#[trigger] next.apps[j]).process
            != process by {
            if c.apps[j].process == process {
                lemma_entry_holds(c.apps, process, j);
            }
        }
        lemma_position_unique(next.apps, process, last);
        if c.wf() {
            assert forall|i: int, j: int| 0 <= i < j < next.apps.len() implies (
            #[trigger] next.apps[i]).process != (#[trigger] next.apps[j]).process by {
                if j < last {
                    assert(c.apps[i].process != c.apps[j].process);
                }
            }
        }
    }
}

/// Entries stay well formed when one of them changes, as long as it keeps
/// its process and has no more bytes left than its write is long.
pub proof fn lemma_one_entry_changed(before: Seq<AppState>, after: Seq<AppState>, i: int)
    requires
        entries_wf(before),
        after.len() == before.len(),
        0 <= i < before.len(),
        forall|j: int| 0 <= j < before.len() && j != i ==> after[j] == before[j],
        after[i].process == before[i].process,
        after[i].write_remaining <= after[i].write_len,
    ensures
        entries_wf(after),
{
    assert forall|a: int, b: int| 0 <= a < b < after.len() implies (#[trigger] after[a]).process
        != (#[trigger] after[b]).process by {
        assert(before[a].process != before[b].process);
    }
    assert forall|a: int| 0 <= a < after.len() implies (#[trigger] after[a]).write_remaining
        <= after[a].write_len by {
        assert(before[a].write_remaining <= before[a].write_len);
    }
}

/// What makes the replacement of one entry keep the state well formed.
pub open spec fn keeps(c: ConsoleState, i: int, app: AppState) -> bool {
    &&& 0 <= i < c.apps.len()
    &&& app.process == c.apps[i].process
    &&& app.write_remaining <= app.write_len
    &&& c.tx is Idle ==> !app.pending_write
}

/// Such a replacement keeps the state well formed.
pub proof fn lemma_with_app(c: ConsoleState, i: int, app: AppState)
    requires
        c.wf(),
        keeps(c, i, app),
    ensures
        c.with_app(i, app).wf(),
{
    lemma_one_entry_changed(c.apps, c.with_app(i, app).apps, i);
}

/// `send` keeps the state well formed.
pub proof fn lemma_send_wf(c: ConsoleState, i: int, slice: Seq<u8>)
    requires
        c.wf(),
        0 <= i < c.apps.len(),
    ensures
        c.send(i, slice).0.wf(),
{
    lemma_one_entry_changed(c.apps, c.send(i, slice).0.apps, i);
}

/// `send_new` keeps the state well formed.
pub proof fn lemma_send_new_wf(c: ConsoleState, i: int, len: nat)
    requires
        c.wf(),
        0 <= i < c.apps.len(),
    ensures
        c.send_new(i, len).0.wf(),
{
    let app = c.apps[i];
    match app.write_buffer {
        Some(slice) => {
            let n: nat = shorter(len, slice.len());
            let set = AppState { write_len: n, write_remaining: n, write_buffer: None, ..app };
            lemma_with_app(c, i, set);
            lemma_send_wf(c.with_app(i, set), i, slice);
        },
        None => {},
    }
}

/// `receive_new` keeps the state well formed.
pub proof fn lemma_receive_new_wf(c: ConsoleState, i: int, len: nat)
    requires
        c.wf(),
        0 <= i < c.apps.len(),
    ensures
        c.receive_new(i, len).0.wf(),
{
    lemma_one_entry_changed(c.apps, c.receive_new(i, len).0.apps, i);
}

/// The part of well-formedness that holds even while pending processes wait
/// for an idle slot to be handed on.
pub open spec fn wf_entries(c: ConsoleState) -> bool {
    entries_wf(c.apps)
}

/// `restart` keeps entries well formed, leaves every other entry alone, and
/// either takes the idle slot or leaves it idle.
pub proof fn lemma_restart(c: ConsoleState, i: int)
    requires
        wf_entries(c),
        0 <= i < c.apps.len(),
        c.tx is Idle,
    ensures
        wf_entries(c.restart(i).0),
        c.restart(i).0.apps.len() == c.apps.len(),
        forall|j: int| 0 <= j < c.apps.len() && j != i ==> c.restart(i).0.apps[j] == c.apps[j],
        c.restart(i).0.apps[i].process == c.apps[i].process,
        c.restart(i).0.apps[i].pending_write == (c.apps[i].pending_write && c.apps[i].retained()
            is Some),
        c.restart(i).2 is None <==> c.restart(i).0.tx is InFlight,
        c.restart(i).2 is None <==> c.restart(i).1 is Some,
        c.restart(i).2 is Some ==> c.restart(i).0.tx == c.tx,
        c.restart(i).0.rx == c.rx,
        c.restart(i).0.baud_rate == c.baud_rate,
{
    lemma_one_entry_changed(c.apps, c.restart(i).0.apps, i);
}

/// Arbitration from position `from` on, with nobody pending before it, ends
/// in a well-formed state.
pub proof fn lemma_arbitrate_wf(c: ConsoleState, from: int)
    requires
        wf_entries(c),
        c.tx is Idle,
        0 <= from <= c.apps.len(),
        forall|i: int| 0 <= i < from ==> !(#[trigger] c.apps[i]).pending_write,
    ensures
        c.arbitrate(from).0.wf(),
        c.arbitrate(from).0.apps.len() == c.apps.len(),
        c.arbitrate(from).0.rx == c.rx,
        c.arbitrate(from).0.baud_rate == c.baud_rate,
    decreases c.apps.len() - from,
{
    if from >= c.apps.len() {
    } else if !c.apps[from].pending_write {
        lemma_arbitrate_wf(c, from + 1);
    } else {
        let cleared = c.with_app(from, AppState { pending_write: false, ..c.apps[from] });
        lemma_one_entry_changed(c.apps, cleared.apps, from);
        lemma_restart(cleared, from);
        let (next, request, lost) = cleared.restart(from);
        if lost is Some {
            assert forall|i: int| 0 <= i < from + 1 implies !(
            #[trigger] next.apps[i]).pending_write by {
                if i < from {
                    assert(!c.apps[i].pending_write);
                }
            }
            lemma_arbitrate_wf(next, from + 1);
        }
    }
}

/// `allow` keeps the state well formed.
pub proof fn lemma_allow_wf(c: ConsoleState, process: usize, allow_num: usize, slice: Option<Seq<u8>>)
    requires
        c.wf(),
    ensures
        c.allow(process, allow_num, slice).0.wf(),
{
    lemma_enter(c, process);
    let entered = c.enter(process);
    let i = entered.index_of(process);
    if allow_num == 1 {
        lemma_with_app(entered, i, AppState { write_buffer: slice, ..entered.apps[i] });
    } else if allow_num == 2 {
        lemma_with_app(entered, i, AppState { read_buffer: slice, ..entered.apps[i] });
    }
}

/// `subscribe` keeps the state well formed.
pub proof fn lemma_subscribe_wf(
    c: ConsoleState,
    subscribe_num: usize,
    callback: Option<Callback>,
    process: usize,
)
    requires
        c.wf(),
    ensures
        c.subscribe(subscribe_num, callback, process).0.wf(),
{
    lemma_enter(c, process);
    let entered = c.enter(process);
    let i = entered.index_of(process);
    if subscribe_num == 1 {
        lemma_with_app(entered, i, AppState { write_callback: callback, ..entered.apps[i] });
    } else if subscribe_num == 2 {
        lemma_with_app(entered, i, AppState { read_callback: callback, ..entered.apps[i] });
    }
}

/// `command` keeps the state well formed.
pub proof fn lemma_command_wf(c: ConsoleState, cmd_num: usize, arg1: usize, process: usize)
    requires
        c.wf(),
    ensures
        c.command(cmd_num, arg1, process).0.wf(),
{
    lemma_enter(c, process);
    let entered = c.enter(process);
    let i = entered.index_of(process);
    if cmd_num == 1 {
        lemma_send_new_wf(entered, i, arg1 as nat);
    } else if cmd_num == 2 {
        lemma_receive_new_wf(entered, i, arg1 as nat);
    }
}

/// `transmitted_buffer` keeps the state well formed.
pub proof fn lemma_transmitted_buffer_wf(c: ConsoleState, buffer: Seq<u8>)
    requires
        c.wf(),
    ensures
        c.transmitted_buffer(buffer).0.wf(),
{
    let returned = ConsoleState { tx: SlotState::Idle(buffer), ..c };
    match c.tx.owner() {
        Some(process) => {
            if returned.attached(process) {
                lemma_attached_position(returned.apps, process);
                let i = returned.index_of(process);
                let app = returned.apps[i];
                if app.write_remaining > 0 {
                    lemma_restart(returned, i);
                    let (next, request, done) = returned.restart(i);
                    if done is Some {
                        lemma_arbitrate_wf(next, 0);
                    }
                } else {
                    let next = returned.with_app(i, AppState { write_len: 0, ..app });
                    lemma_one_entry_changed(c.apps, next.apps, i);
                    lemma_arbitrate_wf(next, 0);
                }
            } else {
                lemma_arbitrate_wf(returned, 0);
            }
        },
        None => {
            lemma_arbitrate_wf(returned, 0);
        },
    }
}

/// `received_buffer` keeps the state well formed.
pub proof fn lemma_received_buffer_wf(
    c: ConsoleState,
    buffer: Seq<u8>,
    rx_len: nat,
    error: TransferStatus,
)
    requires
        c.wf(),
    ensures
        c.received_buffer(buffer, rx_len, error).0.wf(),
{
    let returned = ConsoleState { rx: SlotState::Idle(buffer), ..c };
    match c.rx.owner() {
        Some(process) => {
            if returned.attached(process) {
                lemma_attached_position(returned.apps, process);
                let i = returned.index_of(process);
                lemma_with_app(returned, i, AppState { read_buffer: None, ..returned.apps[i] });
            }
        },
        None => {},
    }
}

/// `detach` keeps the state well formed.
pub proof fn lemma_detach_wf(c: ConsoleState, process: usize)
    requires
        c.wf(),
    ensures
        c.detach(process).wf(),
{
    if c.attached(process) {
        lemma_attached_position(c.apps, process);
        let i = c.index_of(process);
        let next = c.detach(process);
        assert forall|a: int, b: int| 0 <= a < b < next.apps.len() implies (
        #[trigger] next.apps[a]).process != (#[trigger] next.apps[b]).process by {
            let a0 = if a < i { a } else { a + 1 };
            let b0 = if b < i { b } else { b + 1 };
            assert(c.apps[a0].process != c.apps[b0].process);
        }
        assert forall|a: int| 0 <= a < next.apps.len() implies (
        #[trigger] next.apps[a]).write_remaining <= next.apps[a].write_len by {
            let a0 = if a < i { a } else { a + 1 };
            assert(c.apps[a0].write_remaining <= c.apps[a0].write_len);
        }
        if next.tx is Idle {
            assert forall|a: int| 0 <= a < next.apps.len() implies !(
            #[trigger] next.apps[a]).pending_write by {
                let a0 = if a < i { a } else { a + 1 };
                assert(!c.apps[a0].pending_write);
            }
        }
    }
}

} // verus!
