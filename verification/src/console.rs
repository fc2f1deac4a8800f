//! The executable console engine.

use crate::model::{AppState, ConsoleState, SlotState};
use crate::types::{
    bytes_of, completions_of, read_done_of, request_of, Callback, ErrorCode, ReadDone,
    ReadStatus, Request, TransferStatus, WriteDone,
};
use crate::wellformed::{
    lemma_allow_wf, lemma_command_wf, lemma_detach_wf, lemma_received_buffer_wf,
    lemma_subscribe_wf, lemma_transmitted_buffer_wf,
};
use vstd::prelude::*;

verus! {

/// Syscall driver number.
pub const DRIVER_NUM: usize = 0;

/// State that the engine keeps for one attached process.
pub struct App {
    process: usize,
    write_callback: Option<Callback>,
    write_buffer: Option<Vec<u8>>,
    write_len: usize,
    write_remaining: usize,
    pending_write: bool,
    read_callback: Option<Callback>,
    read_buffer: Option<Vec<u8>>,
    read_len: usize,
}

impl View for App {
    type V = AppState;

    closed spec fn view(&self) -> AppState {
        AppState {
            process: self.process,
            write_callback: self.write_callback,
            write_buffer: bytes_of(self.write_buffer),
            write_len: self.write_len as nat,
            write_remaining: self.write_remaining as nat,
            pending_write: self.pending_write,
            read_callback: self.read_callback,
            read_buffer: bytes_of(self.read_buffer),
            read_len: self.read_len as nat,
        }
    }
}

impl App {
    /// The state of a process that has not talked to the engine yet.
    pub fn new(process: usize) -> (app: App)
        ensures
            app@ == AppState::fresh(process),
    {
        App {
            process,
            write_callback: None,
            write_buffer: None,
            write_len: 0,
            write_remaining: 0,
            pending_write: false,
            read_callback: None,
            read_buffer: None,
            read_len: 0,
        }
    }

    pub fn process(&self) -> (r: usize)
        ensures
            r == self@.process,
    {
        self.process
    }

    pub fn write_callback(&self) -> (r: Option<Callback>)
        ensures
            r == self@.write_callback,
    {
        self.write_callback
    }

    pub fn write_buffer(&self) -> (r: &Option<Vec<u8>>)
        ensures
            bytes_of(*r) == self@.write_buffer,
    {
        &self.write_buffer
    }

    pub fn write_len(&self) -> (r: usize)
        ensures
            r == self@.write_len,
    {
        self.write_len
    }

    pub fn write_remaining(&self) -> (r: usize)
        ensures
            r == self@.write_remaining,
    {
        self.write_remaining
    }

    pub fn pending_write(&self) -> (r: bool)
        ensures
            r == self@.pending_write,
    {
        self.pending_write
    }

    pub fn read_callback(&self) -> (r: Option<Callback>)
        ensures
            r == self@.read_callback,
    {
        self.read_callback
    }

    pub fn read_buffer(&self) -> (r: &Option<Vec<u8>>)
        ensures
            bytes_of(*r) == self@.read_buffer,
    {
        &self.read_buffer
    }

    pub fn read_len(&self) -> (r: usize)
        ensures
            r == self@.read_len,
    {
        self.read_len
    }
}

/// A shared transaction slot: the buffer while it is idle, the owning
/// process while the buffer is with the hardware.
enum Slot {
    Idle(Vec<u8>),
    InFlight(usize),
}

impl View for Slot {
    type V = SlotState;

    closed spec fn view(&self) -> SlotState {
        match *self {
            Slot::Idle(buffer) => SlotState::Idle(buffer@),
            Slot::InFlight(process) => SlotState::InFlight(process),
        }
    }
}

/// The console engine.
pub struct Console {
    apps: Vec<App>,
    tx: Slot,
    rx: Slot,
    baud_rate: u32,
}

impl View for Console {
    type V = ConsoleState;

    closed spec fn view(&self) -> ConsoleState {
        ConsoleState {
            apps: Seq::new(self.apps.len() as nat, |i: int| self.apps[i]@),
            tx: self.tx@,
            rx: self.rx@,
            baud_rate: self.baud_rate,
        }
    }
}

impl Console {
    /// Builds an engine around the two buffers that it will share with the
    /// transport.
    pub fn new(baud_rate: u32, tx_buffer: Vec<u8>, rx_buffer: Vec<u8>) -> (console: Console)
        ensures
            console@ == ConsoleState::init(baud_rate, tx_buffer@, rx_buffer@),
            console@.wf(),
    {
        let console = Console {
            apps: Vec::new(),
            tx: Slot::Idle(tx_buffer),
            rx: Slot::Idle(rx_buffer),
            baud_rate,
        };
        assert(console@.apps =~= Seq::empty());
        console
    }

    pub fn baud_rate(&self) -> (r: u32)
        ensures
            r == self@.baud_rate,
    {
        self.baud_rate
    }

    /// The process on whose behalf the transmit slot is with the hardware.
    pub fn tx_owner(&self) -> (r: Option<usize>)
        ensures
            r == self@.tx.owner(),
    {
        match &self.tx {
            Slot::Idle(_) => None,
            Slot::InFlight(process) => Some(*process),
        }
    }

    /// The process on whose behalf the receive slot is with the hardware.
    pub fn rx_owner(&self) -> (r: Option<usize>)
        ensures
            r == self@.rx.owner(),
    {
        match &self.rx {
            Slot::Idle(_) => None,
            Slot::InFlight(process) => Some(*process),
        }
    }

    /// How many processes are attached.
    pub fn attached_count(&self) -> (r: usize)
        ensures
            r == self@.apps.len(),
    {
        self.apps.len()
    }

    /// The state kept for `process`, if it is attached.
    pub fn app(&self, process: usize) -> (r: Option<&App>)
        ensures
            match r {
                Some(app) => self@.attached(process) && app@ == self@.apps[self@.index_of(process)],
                None => !self@.attached(process),
            },
    {
        match self.find(process) {
            Some(i) => Some(&self.apps[i]),
            None => None,
        }
    }

    /// Position of `process` in attachment order, if it is attached.
    fn find(&self, process: usize) -> (found: Option<usize>)
        ensures
            match found {
                Some(i) => self@.attached(process) && i == self@.index_of(process),
                None => !self@.attached(process) && forall|j: int|
                    0 <= j < self@.apps.len() ==> (#[trigger] self@.apps[j]).process != process,
            },
    {
        let mut i: usize = 0;
        while i < self.apps.len()
            invariant
                i <= self.apps.len(),
                forall|j: int| 0 <= j < i ==> (#[trigger] self@.apps[j]).process != process,
            decreases self.apps.len() - i,
        {
            if self.apps[i].process == process {
                assert(self@.is_index_of(process, i as int));
                return Some(i);
            }
            i += 1;
        }
        None
    }

    /// Position of `process` in attachment order, after attaching it if it
    /// was not.
    fn enter(&mut self, process: usize) -> (i: usize)
        ensures
            final(self)@ == old(self)@.enter(process),
            final(self)@.attached(process),
            i == final(self)@.index_of(process),
            i < final(self)@.apps.len(),
    {
        match self.find(process) {
            Some(i) => i,
            None => {
                let i: usize = self.apps.len();
                self.apps.push(App::new(process));
                assert(self@.apps =~= old(self)@.apps.push(AppState::fresh(process)));
                assert(self@.is_index_of(process, i as int));
                i
            },
        }
    }

    /// Hands `slice` to the transmit path on behalf of the process at `i`:
    /// its next chunk goes out if the slot is idle, else the process waits.
    fn send(&mut self, i: usize, slice: Vec<u8>) -> (request: Option<Request>)
        requires
            i < old(self)@.apps.len(),
            old(self)@.apps[i as int].write_remaining <= slice@.len(),
        ensures
            final(self)@ == old(self)@.send(i as int, slice@).0,
            request_of(request) == old(self)@.send(i as int, slice@).1,
    {
        let process: usize = self.apps[i].process;
        let mut cell = Slot::InFlight(process);
        core::mem::swap(&mut self.tx, &mut cell);
        match cell {
            Slot::Idle(mut buffer) => {
                let remaining: usize = self.apps[i].write_remaining;
                let capacity: usize = buffer.len();
                let n: usize = if remaining > capacity {
                    capacity
                } else {
                    remaining
                };
                copy_into(&mut buffer, &slice, slice.len() - remaining, n);
                if remaining > capacity {
                    self.apps[i].write_remaining = remaining - capacity;
                    self.apps[i].write_buffer = Some(slice);
                } else {
                    self.apps[i].write_remaining = 0;
                    self.apps[i].write_buffer = None;
                }
                assert(self@.apps =~= old(self)@.send(i as int, slice@).0.apps);
                Some(Request::Transmit { process, buffer, len: n })
            },
            Slot::InFlight(owner) => {
                self.tx = Slot::InFlight(owner);
                self.apps[i].pending_write = true;
                self.apps[i].write_buffer = Some(slice);
                assert(self@.apps =~= old(self)@.send(i as int, slice@).0.apps);
                None
            },
        }
    }

    /// Sets up a new write of at most `len` bytes for the process at `i` and
    /// hands its buffer to the transmit path.
    fn send_new(&mut self, i: usize, len: usize) -> (r: (Result<(), ErrorCode>, Option<Request>))
        requires
            i < old(self)@.apps.len(),
        ensures
            final(self)@ == old(self)@.send_new(i as int, len as nat).0,
            r.0 == old(self)@.send_new(i as int, len as nat).1,
            request_of(r.1) == old(self)@.send_new(i as int, len as nat).2,
    {
        match self.apps[i].write_buffer.take() {
            Some(slice) => {
                let n: usize = if len <= slice.len() {
                    len
                } else {
                    slice.len()
                };
                self.apps[i].write_len = n;
                self.apps[i].write_remaining = n;
                assert(self@.apps =~= old(self)@.apps.update(
                    i as int,
                    AppState {
                        write_len: n as nat,
                        write_remaining: n as nat,
                        write_buffer: None,
                        ..old(self)@.apps[i as int]
                    },
                ));
                let request = self.send(i, slice);
                (Ok(()), request)
            },
            None => {
                assert(self@.apps =~= old(self)@.apps);
                (Err(ErrorCode::Busy), None)
            },
        }
    }

    /// Gives the write of the process at `i` up: makes the record of the
    /// error and resets every write field but the notifier.
    fn give_up(&mut self, i: usize, error: ErrorCode) -> (record: WriteDone)
        requires
            i < old(self)@.apps.len(),
        ensures
            final(self)@ == old(self)@.give_up(i as int, error).0,
            record@ == old(self)@.give_up(i as int, error).1,
    {
        let record = WriteDone {
            process: self.apps[i].process,
            callback: self.apps[i].write_callback,
            result: Err(error),
        };
        self.apps[i].write_buffer = None;
        self.apps[i].write_len = 0;
        self.apps[i].write_remaining = 0;
        self.apps[i].pending_write = false;
        assert(self@.apps =~= old(self)@.apps.update(
            i as int,
            old(self)@.apps[i as int].write_cleared(),
        ));
        record
    }

    /// Sends the next chunk of the write of the process at `i` if its buffer
    /// still covers the unsent bytes; fails, changing nothing, if not.
    fn resume(&mut self, i: usize) -> (r: (Result<(), ErrorCode>, Option<Request>))
        requires
            i < old(self)@.apps.len(),
        ensures
            final(self)@ == old(self)@.resume(i as int).0,
            r.0 == old(self)@.resume(i as int).1,
            request_of(r.1) == old(self)@.resume(i as int).2,
    {
        let covered: bool = match &self.apps[i].write_buffer {
            Some(slice) => self.apps[i].write_remaining <= slice.len(),
            None => false,
        };
        if !covered {
            return (Err(ErrorCode::InternalReservation), None);
        }
        match self.apps[i].write_buffer.take() {
            Some(slice) => {
                assert(self@.apps =~= old(self)@.apps.update(
                    i as int,
                    AppState { write_buffer: None, ..old(self)@.apps[i as int] },
                ));
                let request = self.send(i, slice);
                (Ok(()), request)
            },
            None => (Err(ErrorCode::InternalReservation), None),
        }
    }

    /// Continues the write of the process at `i` after one of its chunks
    /// went out. Answers `Ok(true)` if the write is still active and
    /// `Ok(false)`, changing nothing, if it is finished.
    fn send_continue(&mut self, i: usize) -> (r: (Result<bool, ErrorCode>, Option<Request>))
        requires
            i < old(self)@.apps.len(),
        ensures
            final(self)@ == old(self)@.send_continue(i as int).0,
            r.0 == old(self)@.send_continue(i as int).1,
            request_of(r.1) == old(self)@.send_continue(i as int).2,
            old(self)@.apps[i as int].write_remaining == 0 ==> final(self)@ == old(self)@ && r.0
                == Ok::<bool, ErrorCode>(false) && r.1 is None,
    {
        if self.apps[i].write_remaining > 0 {
            match self.resume(i) {
                (Ok(_), request) => (Ok(true), request),
                (Err(e), request) => (Err(e), request),
            }
        } else {
            (Ok(false), None)
        }
    }

    /// Starts the first pending process whose write can be resumed, and
    /// appends to `earlier` the failure record of each one passed over.
    fn arbitrate(&mut self, earlier: Vec<WriteDone>) -> (r: (Option<Request>, Vec<WriteDone>))
        ensures
            final(self)@ == old(self)@.arbitrate(0).0,
            request_of(r.0) == old(self)@.arbitrate(0).1,
            completions_of(r.1@) == completions_of(earlier@) + old(self)@.arbitrate(0).2,
    {
        let mut done = earlier;
        let mut k: usize = 0;
        while k < self.apps.len()
            invariant
                k <= self.apps.len(),
                old(self)@.arbitrate(0).0 == self@.arbitrate(k as int).0,
                old(self)@.arbitrate(0).1 == self@.arbitrate(k as int).1,
                completions_of(earlier@) + old(self)@.arbitrate(0).2 == completions_of(done@)
                    + self@.arbitrate(k as int).2,
            decreases self.apps.len() - k,
        {
            let ghost here = self@;
            if self.apps[k].pending_write {
                self.apps[k].pending_write = false;
                assert(self@.apps =~= here.apps.update(
                    k as int,
                    AppState { pending_write: false, ..here.apps[k as int] },
                ));
                match self.resume(k) {
                    (Ok(_), request) => {
                        return (request, done);
                    },
                    (Err(e), _) => {
                        let record = self.give_up(k, e);
                        let ghost sofar = completions_of(done@);
                        done.push(record);
                        assert(sofar + (seq![record@] + self@.arbitrate(k + 1).2) =~= (sofar
                            + seq![record@]) + self@.arbitrate(k + 1).2);
                    },
                }
            }
            k += 1;
        }
        (None, done)
    }

    /// Starts a receive of at most `len` bytes for the process at `i`.
    fn receive_new(&mut self, i: usize, len: usize) -> (r: (Result<(), ErrorCode>, Option<Request>))
        requires
            i < old(self)@.apps.len(),
        ensures
            final(self)@ == old(self)@.receive_new(i as int, len as nat).0,
            r.0 == old(self)@.receive_new(i as int, len as nat).1,
            request_of(r.1) == old(self)@.receive_new(i as int, len as nat).2,
    {
        let process: usize = self.apps[i].process;
        let capacity: usize = match &self.rx {
            Slot::Idle(buffer) => buffer.len(),
            Slot::InFlight(_) => {
                return (Err(ErrorCode::Busy), None);
            },
        };
        let read_len: usize = match &self.apps[i].read_buffer {
            Some(target) => if len <= target.len() {
                len
            } else {
                target.len()
            },
            None => {
                return (Err(ErrorCode::NoBufferRegistered), None);
            },
        };
        if read_len > capacity {
            return (Err(ErrorCode::SizeExceeded), None);
        }
        let mut cell = Slot::InFlight(process);
        core::mem::swap(&mut self.rx, &mut cell);
        match cell {
            Slot::Idle(buffer) => {
                self.apps[i].read_len = read_len;
                assert(self@.apps =~= old(self)@.apps.update(
                    i as int,
                    AppState { read_len: read_len as nat, ..old(self)@.apps[i as int] },
                ));
                (Ok(()), Some(Request::Receive { process, buffer, len: read_len }))
            },
            Slot::InFlight(owner) => {
                self.rx = Slot::InFlight(owner);
                (Err(ErrorCode::Busy), None)
            },
        }
    }

    /// Registers, replaces or withdraws a buffer of `process`: `allow_num` 1
    /// selects the write buffer, 2 the read buffer.
    pub fn allow(&mut self, process: usize, allow_num: usize, slice: Option<Vec<u8>>) -> (r: Result<
        (),
        ErrorCode,
    >)
        ensures
            final(self)@ == old(self)@.allow(process, allow_num, bytes_of(slice)).0,
            r == old(self)@.allow(process, allow_num, bytes_of(slice)).1,
            old(self)@.wf() ==> final(self)@.wf(),
    {
        proof {
            if old(self)@.wf() {
                lemma_allow_wf(old(self)@, process, allow_num, bytes_of(slice));
            }
        }
        if allow_num == 1 {
            let i: usize = self.enter(process);
            let ghost entered = self@;
            self.apps[i].write_buffer = slice;
            assert(self@.apps =~= entered.apps.update(
                i as int,
                AppState { write_buffer: bytes_of(slice), ..entered.apps[i as int] },
            ));
            Ok(())
        } else if allow_num == 2 {
            let i: usize = self.enter(process);
            let ghost entered = self@;
            self.apps[i].read_buffer = slice;
            assert(self@.apps =~= entered.apps.update(
                i as int,
                AppState { read_buffer: bytes_of(slice), ..entered.apps[i as int] },
            ));
            Ok(())
        } else {
            Err(ErrorCode::UnsupportedOperand)
        }
    }

    /// Registers, replaces or withdraws a notifier of `process`:
    /// `subscribe_num` 1 selects write-done, 2 read-done.
    pub fn subscribe(&mut self, subscribe_num: usize, callback: Option<Callback>, process: usize) -> (r:
        Result<(), ErrorCode>)
        ensures
            final(self)@ == old(self)@.subscribe(subscribe_num, callback, process).0,
            r == old(self)@.subscribe(subscribe_num, callback, process).1,
            old(self)@.wf() ==> final(self)@.wf(),
    {
        proof {
            if old(self)@.wf() {
                lemma_subscribe_wf(old(self)@, subscribe_num, callback, process);
            }
        }
        if subscribe_num == 1 {
            let i: usize = self.enter(process);
            let ghost entered = self@;
            self.apps[i].write_callback = callback;
            assert(self@.apps =~= entered.apps.update(
                i as int,
                AppState { write_callback: callback, ..entered.apps[i as int] },
            ));
            Ok(())
        } else if subscribe_num == 2 {
            let i: usize = self.enter(process);
            let ghost entered = self@;
            self.apps[i].read_callback = callback;
            assert(self@.apps =~= entered.apps.update(
                i as int,
                AppState { read_callback: callback, ..entered.apps[i as int] },
            ));
            Ok(())
        } else {
            Err(ErrorCode::UnsupportedOperand)
        }
    }

    /// Runs a command of `process`: 0 probes the driver, 1 starts a write of
    /// `arg1` bytes, 2 starts a read of `arg1` bytes, 3 aborts the receive in
    /// flight. The request that comes back, if any, is for the transport.
    pub fn command(&mut self, cmd_num: usize, arg1: usize, _arg2: usize, process: usize) -> (r: (
        Result<(), ErrorCode>,
        Option<Request>,
    ))
        ensures
            final(self)@ == old(self)@.command(cmd_num, arg1, process).0,
            r.0 == old(self)@.command(cmd_num, arg1, process).1,
            request_of(r.1) == old(self)@.command(cmd_num, arg1, process).2,
            old(self)@.wf() ==> final(self)@.wf(),
    {
        proof {
            if old(self)@.wf() {
                lemma_command_wf(old(self)@, cmd_num, arg1, process);
            }
        }
        if cmd_num == 0 {
            (Ok(()), None)
        } else if cmd_num == 1 {
            let i: usize = self.enter(process);
            self.send_new(i, arg1)
        } else if cmd_num == 2 {
            let i: usize = self.enter(process);
            self.receive_new(i, arg1)
        } else if cmd_num == 3 {
            (Ok(()), Some(Request::AbortReceive))
        } else {
            (Err(ErrorCode::UnsupportedOperand), None)
        }
    }

    /// Takes the transmit slot back from the transport and says what follows:
    /// the next request for the transport, if a chunk goes out, and the
    /// completion records that are due.
    pub fn transmitted_buffer(
        &mut self,
        buffer: Vec<u8>,
        _tx_len: usize,
        _rcode: Result<(), ErrorCode>,
    ) -> (r: (Option<Request>, Vec<WriteDone>))
        ensures
            final(self)@ == old(self)@.transmitted_buffer(buffer@).0,
            request_of(r.0) == old(self)@.transmitted_buffer(buffer@).1,
            completions_of(r.1@) == old(self)@.transmitted_buffer(buffer@).2,
            old(self)@.wf() ==> final(self)@.wf(),
    {
        proof {
            if old(self)@.wf() {
                lemma_transmitted_buffer_wf(old(self)@, buffer@);
            }
        }
        let mut cell = Slot::Idle(buffer);
        core::mem::swap(&mut self.tx, &mut cell);
        let mut done: Vec<WriteDone> = Vec::new();
        let owner: Option<usize> = match cell {
            Slot::Idle(_) => None,
            Slot::InFlight(process) => self.find(process),
        };
        match owner {
            Some(i) => match self.send_continue(i) {
                (Ok(true), request) => (request, done),
                (Ok(false), _) => {
                    // The write is finished: report its length and reset it.
                    let written: usize = self.apps[i].write_len;
                    self.apps[i].write_len = 0;
                    done.push(
                        WriteDone {
                            process: self.apps[i].process,
                            callback: self.apps[i].write_callback,
                            result: Ok(written),
                        },
                    );
                    let ghost returned = (ConsoleState {
                        tx: SlotState::Idle(buffer@),
                        ..old(self)@
                    });
                    assert(self@.apps =~= returned.finish(i as int).0.apps);
                    assert(completions_of(done@) =~= seq![returned.finish(i as int).1]);
                    self.arbitrate(done)
                },
                (Err(e), _) => {
                    let record = self.give_up(i, e);
                    done.push(record);
                    assert(completions_of(done@) =~= seq![record@]);
                    self.arbitrate(done)
                },
            },
            None => self.arbitrate(done),
        }
    }

    /// Takes the receive slot back from the transport, copies what was
    /// received into the owner's read buffer and says which completion
    /// record is due.
    pub fn received_buffer(&mut self, buffer: Vec<u8>, rx_len: usize, error: TransferStatus) -> (r:
        Option<ReadDone>)
        ensures
            final(self)@ == old(self)@.received_buffer(buffer@, rx_len as nat, error).0,
            read_done_of(r) == old(self)@.received_buffer(buffer@, rx_len as nat, error).1,
            old(self)@.wf() ==> final(self)@.wf(),
    {
        proof {
            if old(self)@.wf() {
                lemma_received_buffer_wf(old(self)@, buffer@, rx_len as nat, error);
            }
        }
        let owner: Option<usize> = match &self.rx {
            Slot::Idle(_) => None,
            Slot::InFlight(process) => self.find(*process),
        };
        let record: Option<ReadDone> = match owner {
            Some(i) => {
                let process: usize = self.apps[i].process;
                let callback: Option<Callback> = self.apps[i].read_callback;
                match error {
                    TransferStatus::Failed => Some(
                        ReadDone {
                            process,
                            callback,
                            status: ReadStatus::Failure,
                            count: 0,
                            buffer: None,
                        },
                    ),
                    _ => match self.apps[i].read_buffer.take() {
                        Some(mut target) => {
                            let mut n: usize = rx_len;
                            if n > buffer.len() {
                                n = buffer.len();
                            }
                            if n > target.len() {
                                n = target.len();
                            }
                            copy_into(&mut target, &buffer, 0, n);
                            let status: ReadStatus = match error {
                                TransferStatus::Complete => ReadStatus::Success,
                                _ => ReadStatus::Cancelled,
                            };
                            Some(
                                ReadDone {
                                    process,
                                    callback,
                                    status,
                                    count: rx_len,
                                    buffer: Some(target),
                                },
                            )
                        },
                        None => Some(
                            ReadDone {
                                process,
                                callback,
                                status: ReadStatus::InvalidState,
                                count: 0,
                                buffer: None,
                            },
                        ),
                    },
                }
            },
            None => None,
        };
        proof {
            if let Some(i) = owner {
                assert(self@.apps =~= old(self)@.apps.update(
                    i as int,
                    old(self)@.apps[i as int].after_read(error),
                ));
            }
        }
        self.rx = Slot::Idle(buffer);
        record
    }

    /// The transport refused the receive just requested and hands the slot
    /// back.
    pub fn receive_refused(&mut self, buffer: Vec<u8>)
        ensures
            final(self)@ == (ConsoleState { rx: SlotState::Idle(buffer@), ..old(self)@ }),
            final(self)@ == old(self)@.receive_refused(buffer@),
            old(self)@.wf() ==> final(self)@.wf(),
    {
        self.rx = Slot::Idle(buffer);
    }

    /// Forgets `process`, which was torn down. The others keep their order.
    pub fn detach(&mut self, process: usize)
        ensures
            final(self)@ == old(self)@.detach(process),
            old(self)@.wf() ==> final(self)@.wf(),
    {
        proof {
            if old(self)@.wf() {
                lemma_detach_wf(old(self)@, process);
            }
        }
        match self.find(process) {
            Some(i) => {
                let _ = self.apps.remove(i);
                assert(self@.apps =~= old(self)@.apps.remove(i as int));
            },
            None => {},
        }
    }
}

/// Copies `n` bytes of `source`, from position `start` on, over the front of
/// `target`.
fn copy_into(target: &mut Vec<u8>, source: &Vec<u8>, start: usize, n: usize)
    requires
        n <= old(target).len(),
        start + n <= source.len(),
    ensures
        final(target)@ == source@.subrange(start as int, start + n) + old(target)@.subrange(
            n as int,
            old(target)@.len() as int,
        ),
{
    let mut k: usize = 0;
    while k < n
        invariant
            k <= n <= target.len(),
            start + n <= source.len(),
            target@.len() == old(target)@.len(),
            forall|j: int| 0 <= j < k ==> target@[j] == source@[start + j],
            forall|j: int| k <= j < target@.len() ==> target@[j] == old(target)@[j],
        decreases n - k,
    {
        target[k] = source[start + k];
        k += 1;
    }
}

} // verus!
