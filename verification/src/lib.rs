//! A serial console shared by many processes: the engine that multiplexes
//! their buffered writes and reads over one transmit slot and one receive
//! slot of a hardware transport.
//!
//! The engine never touches hardware and never calls into a process. Each of
//! its operations takes plain values, changes the engine's state and hands
//! back what the caller must do next: a request for the transport, and the
//! completion records that processes are owed.
//!
//! - [`types`]: the values that go in and out.
//! - [`model`]: the engine as a mathematical state machine.
//! - [`console`]: the executable engine, proved to do what the model says.
//! - [`wellformed`]: what holds of every state that the engine reaches.
//! - [`laws`]: one owner per slot, rejected reads, fair arbitration.
//! - [`trace`]: runs of the engine over sequences of calls.
//! - [`writes`]: every byte of a write goes out once and its length is
//!   reported once.
//! - [`reads`]: every accepted read is answered once.
//! - [`wdt`]: the decisions of a watchdog timer driver.

pub mod console;
pub mod laws;
pub mod model;
pub mod reads;
pub mod trace;
pub mod types;
pub mod wdt;
pub mod wellformed;
pub mod writes;
