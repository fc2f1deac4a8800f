//! The decisions of a watchdog timer driver: which register writes each
//! operation asks for, given whether the watchdog is enabled.

use vstd::prelude::*;

verus! {

/// First half of the sequence that services the watchdog.
pub const SERVICE_KEY1: u16 = 0x5555;

/// Second half of the sequence that services the watchdog.
pub const SERVICE_KEY2: u16 = 0xAAAA;

/// One write to the watchdog's registers.
#[derive(Clone, Copy, Debug, PartialEq, Eq, Structural)]
pub enum WdtWrite {
    /// Clear the power-down enable bit of the miscellaneous control register.
    ClearPowerDown,
    /// Set the time-out field of the control register.
    SetTimeout(u8),
    /// Set the enable bit of the control register.
    Enable,
    /// Set the low-power bit of the control register: the timer is suspended.
    SuspendInLowPower,
    /// Clear the low-power bit of the control register: the timer runs.
    RunInLowPower,
    /// Write a key to the service register.
    Service(u16),
}

/// The watchdog driver's state.
pub struct Wdt {
    enabled: bool,
}

impl Wdt {
    pub closed spec fn enabled(&self) -> bool {
        self.enabled
    }

    /// What `start` writes: power-down off, the shortest time-out, enable.
    pub open spec fn start_writes() -> Seq<WdtWrite> {
        seq![WdtWrite::ClearPowerDown, WdtWrite::SetTimeout(0), WdtWrite::Enable]
    }

    /// What `tickle` writes: the timer is set running again if it was
    /// suspended, then the two keys follow in order.
    pub open spec fn tickle_writes(enabled: bool) -> Seq<WdtWrite> {
        if enabled {
            seq![WdtWrite::Service(SERVICE_KEY1), WdtWrite::Service(SERVICE_KEY2)]
        } else {
            seq![
                WdtWrite::RunInLowPower,
                WdtWrite::Service(SERVICE_KEY1),
                WdtWrite::Service(SERVICE_KEY2),
            ]
        }
    }

    /// A watchdog that is not enabled.
    pub fn new() -> (wdt: Wdt)
        ensures
            !wdt.enabled(),
    {
        Wdt { enabled: false }
    }

    pub fn is_enabled(&self) -> (r: bool)
        ensures
            r == self.enabled(),
    {
        self.enabled
    }

    /// Enables the watchdog.
    pub fn start(&mut self) -> (writes: Vec<WdtWrite>)
        ensures
            final(self).enabled(),
            writes@ == Wdt::start_writes(),
    {
        self.enabled = true;
        let mut writes: Vec<WdtWrite> = Vec::new();
        writes.push(WdtWrite::ClearPowerDown);
        writes.push(WdtWrite::SetTimeout(0));
        writes.push(WdtWrite::Enable);
        writes
    }

    /// Sets the watchdog up when the platform boots: it is started.
    pub fn setup(&mut self) -> (writes: Vec<WdtWrite>)
        ensures
            final(self).enabled(),
            writes@ == Wdt::start_writes(),
    {
        self.start()
    }

    /// Suspends the watchdog.
    pub fn suspend(&mut self) -> (writes: Vec<WdtWrite>)
        ensures
            !final(self).enabled(),
            writes@ == seq![WdtWrite::SuspendInLowPower],
    {
        self.enabled = false;
        let mut writes: Vec<WdtWrite> = Vec::new();
        writes.push(WdtWrite::SuspendInLowPower);
        writes
    }

    /// Services the watchdog, after setting it running again if it was
    /// suspended.
    pub fn tickle(&mut self) -> (writes: Vec<WdtWrite>)
        ensures
            final(self).enabled(),
            writes@ == Wdt::tickle_writes(old(self).enabled()),
    {
        let mut writes: Vec<WdtWrite> = Vec::new();
        if !self.enabled {
            writes.push(WdtWrite::RunInLowPower);
            self.enabled = true;
        }
        writes.push(WdtWrite::Service(SERVICE_KEY1));
        writes.push(WdtWrite::Service(SERVICE_KEY2));
        writes
    }
}

} // verus!
