use tm4c_hal::registers::{
    await_bus_idle, execute, BusCommand, RegisterAccess, RegisterFile, WATCHDOG_BUDGET,
};
use tm4c_hal::status::{BusStatus, ErrorOutcome, NoAcknowledgeSource};

fn clear() -> BusStatus {
    BusStatus {
        busy: false,
        bus_busy: false,
        error: false,
        arbitration_lost: false,
        address_nack: false,
        data_nack: false,
        clock_timeout: false,
    }
}

#[test]
fn execute_programs_the_watchdog_and_logs_the_command() {
    let mut bus = RegisterFile::new(vec![clear()], vec![]);
    let cmd = BusCommand { start: true, run: true, stop: false, ack: false };
    let r = execute(&mut bus, cmd, false);
    assert_eq!(r, Ok(()));
    assert_eq!(bus.log, vec![RegisterAccess::Command(cmd)]);
    assert_eq!(bus.watchdog_budget, WATCHDOG_BUDGET);
    assert_eq!(bus.status_cursor, 1);
}

#[test]
fn execute_with_idle_wait_polls_until_the_bus_is_released() {
    let mut held = clear();
    held.bus_busy = true;
    let mut bus = RegisterFile::new(vec![clear(), held, held, clear()], vec![]);
    let cmd = BusCommand { start: false, run: true, stop: true, ack: false };
    let r = execute(&mut bus, cmd, true);
    assert_eq!(r, Ok(()));
    assert_eq!(bus.status_cursor, 4);
}

#[test]
fn execute_on_a_data_nack_drives_stop_and_reports_it() {
    let mut nack = clear();
    nack.error = true;
    nack.data_nack = true;
    let mut bus = RegisterFile::new(vec![nack], vec![]);
    let cmd = BusCommand { start: false, run: true, stop: false, ack: false };
    let r = execute(&mut bus, cmd, false);
    assert_eq!(r, Err(ErrorOutcome::NoAcknowledge(NoAcknowledgeSource::Data)));
    assert_eq!(
        bus.log,
        vec![
            RegisterAccess::Command(cmd),
            RegisterAccess::Command(BusCommand { start: false, run: false, stop: true, ack: false }),
        ]
    );
}

#[test]
fn await_bus_idle_times_out_on_an_exhausted_script() {
    let mut bus = RegisterFile::new(vec![], vec![]);
    assert_eq!(await_bus_idle(&mut bus), Err(ErrorOutcome::Timeout));
    assert_eq!(bus.watchdog_budget, WATCHDOG_BUDGET);
}

#[test]
fn await_bus_idle_skips_busy_polls() {
    let mut busy = clear();
    busy.busy = true;
    let mut bus = RegisterFile::new(vec![busy, busy, clear()], vec![]);
    assert_eq!(await_bus_idle(&mut bus), Ok(()));
    assert_eq!(bus.status_cursor, 3);
    assert!(bus.log.is_empty());
}

#[test]
fn data_register_reads_zero_once_exhausted() {
    let mut bus = RegisterFile::new(vec![], vec![0x55]);
    assert_eq!(bus.read_data(), 0x55);
    assert_eq!(bus.read_data(), 0);
    assert_eq!(bus.incoming_cursor, 1);
}
