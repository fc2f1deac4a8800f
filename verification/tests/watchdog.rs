use console::wdt::{Wdt, WdtWrite, SERVICE_KEY1, SERVICE_KEY2};

#[test]
fn new_watchdog_is_not_enabled() {
    assert!(!Wdt::new().is_enabled());
}

#[test]
fn start_enables_with_the_shortest_timeout() {
    let mut wdt = Wdt::new();
    let writes = wdt.start();
    assert_eq!(writes, vec![WdtWrite::ClearPowerDown, WdtWrite::SetTimeout(0), WdtWrite::Enable]);
    assert!(wdt.is_enabled());
}

#[test]
fn setup_starts_the_watchdog() {
    let mut wdt = Wdt::new();
    let writes = wdt.setup();
    assert_eq!(writes, vec![WdtWrite::ClearPowerDown, WdtWrite::SetTimeout(0), WdtWrite::Enable]);
    assert!(wdt.is_enabled());
}

#[test]
fn suspend_disables() {
    let mut wdt = Wdt::new();
    wdt.start();
    assert_eq!(wdt.suspend(), vec![WdtWrite::SuspendInLowPower]);
    assert!(!wdt.is_enabled());
}

#[test]
fn tickle_services_with_both_keys_in_order() {
    let mut wdt = Wdt::new();
    wdt.start();
    assert_eq!(wdt.tickle(), vec![WdtWrite::Service(0x5555), WdtWrite::Service(0xAAAA)]);
    assert_eq!((SERVICE_KEY1, SERVICE_KEY2), (0x5555, 0xAAAA));
    assert!(wdt.is_enabled());
}

#[test]
fn tickle_resumes_a_suspended_watchdog_first() {
    let mut wdt = Wdt::new();
    wdt.start();
    wdt.suspend();
    assert_eq!(
        wdt.tickle(),
        vec![WdtWrite::RunInLowPower, WdtWrite::Service(0x5555), WdtWrite::Service(0xAAAA)]
    );
    assert!(wdt.is_enabled());
    assert_eq!(wdt.tickle(), vec![WdtWrite::Service(0x5555), WdtWrite::Service(0xAAAA)]);
}
