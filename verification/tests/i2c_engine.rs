use tm4c_hal::i2c::{Operation, I2C, I2C0, PB2, PB3};
use tm4c_hal::registers::{BusCommand, RegisterAccess, RegisterFile, WATCHDOG_BUDGET};
use tm4c_hal::status::{BusStatus, ErrorOutcome, NoAcknowledgeSource};

fn clear() -> BusStatus {
    BusStatus {
        busy: false,
        bus_busy: false,
        error: false,
        arbitration_lost: false,
        address_nack: false,
        data_nack: false,
        clock_timeout: false,
    }
}

fn cmd(start: bool, run: bool, stop: bool, ack: bool) -> RegisterAccess {
    RegisterAccess::Command(BusCommand { start, run, stop, ack })
}

fn setup(
    statuses: Vec<BusStatus>,
    incoming: Vec<u8>,
) -> (I2C<I2C0, (PB2, PB3)>, Vec<RegisterAccess>) {
    let regs = RegisterFile::new(statuses, incoming);
    let i2c = I2C::new(I2C0, (PB2, PB3), 100_000, 16_000_000, regs);
    let preamble = i2c.regs.log.clone();
    (i2c, preamble)
}

#[test]
fn configure_writes_enable_and_divisor() {
    let (i2c, _) = setup(vec![], vec![]);
    assert_eq!(
        i2c.regs.log,
        vec![RegisterAccess::MasterEnable, RegisterAccess::TimingDivisor(7)]
    );
}

#[test]
fn all_write_concatenates_buffers_with_one_start_one_stop() {
    let (mut i2c, preamble) = setup(vec![clear(); 5], vec![]);
    let mut ops = vec![Operation::Write(vec![1, 2]), Operation::Write(vec![3])];
    let r = i2c.transaction(0x42, &mut ops);
    assert_eq!(r, Ok(()));
    let issued = &i2c.regs.log[preamble.len()..];
    assert_eq!(
        issued,
        &[
            RegisterAccess::Address { address: 0x42, read: false },
            RegisterAccess::DataOut(1),
            cmd(true, true, false, false),
            RegisterAccess::DataOut(2),
            cmd(false, true, false, false),
            RegisterAccess::DataOut(3),
            cmd(false, true, true, false),
        ]
    );
    // data-register outputs in order, one START, one STOP
    let outs: Vec<u8> = issued
        .iter()
        .filter_map(|a| match a {
            RegisterAccess::DataOut(b) => Some(*b),
            _ => None,
        })
        .collect();
    assert_eq!(outs, vec![1, 2, 3]);
    let starts = issued
        .iter()
        .filter(|a| matches!(a, RegisterAccess::Command(c) if c.start))
        .count();
    let stops = issued
        .iter()
        .filter(|a| matches!(a, RegisterAccess::Command(c) if c.stop))
        .count();
    let run_only = issued
        .iter()
        .filter(|a| matches!(a, RegisterAccess::Command(c) if c.run && !c.start))
        .count();
    assert_eq!(starts, 1);
    assert_eq!(stops, 1);
    assert_eq!(run_only, 3 - 1);
}

#[test]
fn all_read_acks_every_byte_but_the_last() {
    let (mut i2c, preamble) = setup(vec![clear(); 5], vec![0xa1, 0xa2, 0xa3]);
    let mut ops = vec![Operation::Read(vec![0; 2]), Operation::Read(vec![0; 1])];
    let r = i2c.transaction(0x42, &mut ops);
    assert_eq!(r, Ok(()));
    let issued = &i2c.regs.log[preamble.len()..];
    assert_eq!(
        issued,
        &[
            RegisterAccess::Address { address: 0x42, read: true },
            cmd(true, true, false, true),
            cmd(false, true, false, true),
            cmd(false, true, true, false),
        ]
    );
    assert_eq!(ops[0], Operation::Read(vec![0xa1, 0xa2]));
    assert_eq!(ops[1], Operation::Read(vec![0xa3]));
}

#[test]
fn write_then_read_uses_repeated_start_and_flips_direction() {
    let (mut i2c, preamble) = setup(vec![clear(); 5], vec![0xaa, 0xbb]);
    let mut ops = vec![Operation::Write(vec![0x10]), Operation::Read(vec![0; 2])];
    let r = i2c.transaction(0x50, &mut ops);
    assert_eq!(r, Ok(()));
    let issued = &i2c.regs.log[preamble.len()..];
    assert_eq!(
        issued,
        &[
            RegisterAccess::Address { address: 0x50, read: false },
            RegisterAccess::DataOut(0x10),
            cmd(true, true, false, false),
            RegisterAccess::Address { address: 0x50, read: true },
            cmd(true, true, false, true),
            cmd(false, true, true, false),
        ]
    );
    // no STOP between the two operations, START asserted again at the boundary
    assert_eq!(ops[1], Operation::Read(vec![0xaa, 0xbb]));
}

#[test]
fn single_byte_write_collapses_into_one_command() {
    let (mut i2c, preamble) = setup(vec![clear(); 3], vec![]);
    let mut ops = vec![Operation::Write(vec![0xab])];
    let r = i2c.transaction(0x50, &mut ops);
    assert_eq!(r, Ok(()));
    let issued = &i2c.regs.log[preamble.len()..];
    assert_eq!(
        issued,
        &[
            RegisterAccess::Address { address: 0x50, read: false },
            RegisterAccess::DataOut(0xab),
            cmd(true, true, true, false),
        ]
    );
    assert_eq!(i2c.regs.watchdog_budget, WATCHDOG_BUDGET);
}

#[test]
fn single_byte_read_collapses_and_suppresses_ack() {
    let (mut i2c, preamble) = setup(vec![clear(); 3], vec![0x7e]);
    let mut ops = vec![Operation::Read(vec![0])];
    let r = i2c.transaction(0x50, &mut ops);
    assert_eq!(r, Ok(()));
    let issued = &i2c.regs.log[preamble.len()..];
    assert_eq!(
        issued,
        &[
            RegisterAccess::Address { address: 0x50, read: true },
            cmd(true, true, true, false),
        ]
    );
    assert_eq!(ops[0], Operation::Read(vec![0x7e]));
}

#[test]
fn arbitration_loss_aborts_without_further_commands() {
    // the initial bus-idle wait settles clean; the first command's wait
    // reports a lost arbitration
    let mut lost = clear();
    lost.error = true;
    lost.arbitration_lost = true;
    let (mut i2c, preamble) = setup(vec![clear(), lost, clear(), clear()], vec![]);
    let mut ops = vec![Operation::Write(vec![1, 2])];
    let r = i2c.transaction(0x50, &mut ops);
    assert_eq!(r, Err(ErrorOutcome::ArbitrationLoss));
    let issued = &i2c.regs.log[preamble.len()..];
    assert_eq!(
        issued,
        &[
            RegisterAccess::Address { address: 0x50, read: false },
            RegisterAccess::DataOut(1),
            cmd(true, true, false, false),
        ]
    );
}

#[test]
fn address_nack_reports_address_and_drives_stop() {
    let mut nack = clear();
    nack.error = true;
    nack.address_nack = true;
    let (mut i2c, preamble) = setup(vec![clear(), nack, clear(), clear()], vec![]);
    let mut ops = vec![Operation::Write(vec![1, 2])];
    let r = i2c.transaction(0x50, &mut ops);
    assert_eq!(r, Err(ErrorOutcome::NoAcknowledge(NoAcknowledgeSource::Address)));
    let issued = &i2c.regs.log[preamble.len()..];
    assert_eq!(
        issued,
        &[
            RegisterAccess::Address { address: 0x50, read: false },
            RegisterAccess::DataOut(1),
            cmd(true, true, false, false),
            cmd(false, false, true, false),
        ]
    );
}

#[test]
fn data_nack_reports_data_and_drives_stop() {
    let mut nack = clear();
    nack.error = true;
    nack.data_nack = true;
    let (mut i2c, preamble) = setup(vec![clear(), clear(), nack], vec![]);
    let mut ops = vec![Operation::Write(vec![1, 2])];
    let r = i2c.transaction(0x50, &mut ops);
    assert_eq!(r, Err(ErrorOutcome::NoAcknowledge(NoAcknowledgeSource::Data)));
    let issued = &i2c.regs.log[preamble.len()..];
    assert_eq!(issued.last(), Some(&cmd(false, false, true, false)));
}

#[test]
fn clock_timeout_reports_timeout_without_stop() {
    let mut expired = clear();
    expired.clock_timeout = true;
    let (mut i2c, preamble) = setup(vec![clear(), expired], vec![]);
    let mut ops = vec![Operation::Write(vec![1])];
    let r = i2c.transaction(0x50, &mut ops);
    assert_eq!(r, Err(ErrorOutcome::Timeout));
    let issued = &i2c.regs.log[preamble.len()..];
    assert_eq!(issued.last(), Some(&cmd(true, true, true, false)));
}

#[test]
fn exhausted_status_script_stands_for_watchdog_expiry() {
    let (mut i2c, _) = setup(vec![], vec![]);
    let mut ops = vec![Operation::Write(vec![1])];
    let r = i2c.transaction(0x50, &mut ops);
    assert_eq!(r, Err(ErrorOutcome::Timeout));
}

#[test]
fn empty_sequence_succeeds_without_register_access() {
    let (mut i2c, preamble) = setup(vec![], vec![]);
    let mut ops: Vec<Operation> = vec![];
    let r = i2c.transaction(0x50, &mut ops);
    assert_eq!(r, Ok(()));
    assert_eq!(i2c.regs.log, preamble);
    assert_eq!(i2c.regs.status_cursor, 0);
    assert_eq!(i2c.regs.incoming_cursor, 0);
}

#[test]
fn zero_length_operation_is_rejected_before_any_register_access() {
    let (mut i2c, preamble) = setup(vec![clear(); 4], vec![0xee]);
    let mut ops = vec![
        Operation::Write(vec![1]),
        Operation::Write(vec![]),
        Operation::Read(vec![0]),
    ];
    let r = i2c.transaction(0x50, &mut ops);
    assert_eq!(r, Err(ErrorOutcome::InvalidArgument));
    assert_eq!(i2c.regs.log, preamble);
    assert_eq!(i2c.regs.status_cursor, 0);
    assert_eq!(ops[2], Operation::Read(vec![0]));
}

#[test]
fn zero_length_read_is_rejected_too() {
    let (mut i2c, preamble) = setup(vec![clear(); 4], vec![]);
    let mut ops = vec![Operation::Read(vec![]), Operation::Write(vec![1])];
    let r = i2c.transaction(0x50, &mut ops);
    assert_eq!(r, Err(ErrorOutcome::InvalidArgument));
    assert_eq!(i2c.regs.log, preamble);
}

#[test]
fn busy_statuses_are_polled_through() {
    // the controller stays busy for a few polls before each settle
    let mut busy = clear();
    busy.busy = true;
    let statuses = vec![busy, clear(), busy, busy, clear(), clear()];
    let regs = RegisterFile::new(statuses, vec![]);
    let mut i2c = I2C::new(I2C0, (PB2, PB3), 100_000, 16_000_000, regs);
    let mut ops = vec![Operation::Write(vec![0x05])];
    let r = i2c.transaction(0x31, &mut ops);
    assert_eq!(r, Ok(()));
    assert_eq!(i2c.regs.status_cursor, 6);
}

#[test]
fn held_bus_defers_the_start() {
    // the bus is still held by another master on the first poll
    let mut held = clear();
    held.bus_busy = true;
    let (mut i2c, preamble) = setup(vec![held, clear(), clear(), clear()], vec![]);
    let mut ops = vec![Operation::Write(vec![0x05])];
    let r = i2c.transaction(0x31, &mut ops);
    assert_eq!(r, Ok(()));
    let issued = &i2c.regs.log[preamble.len()..];
    assert_eq!(issued.len(), 3);
    assert_eq!(i2c.regs.status_cursor, 4);
}

#[test]
fn read_buffers_keep_their_length_and_fill_in_order() {
    let (mut i2c, _) = setup(vec![clear(); 7], vec![9, 8, 7, 6, 5]);
    let mut ops = vec![
        Operation::Read(vec![0; 3]),
        Operation::Write(vec![0x01]),
        Operation::Read(vec![0; 1]),
    ];
    let r = i2c.transaction(0x22, &mut ops);
    assert_eq!(r, Ok(()));
    assert_eq!(ops[0], Operation::Read(vec![9, 8, 7]));
    assert_eq!(ops[1], Operation::Write(vec![0x01]));
    assert_eq!(ops[2], Operation::Read(vec![6]));
}

#[test]
fn read_before_repeated_start_suppresses_ack() {
    // a read run followed by a write: the run's last byte is not acknowledged
    let (mut i2c, preamble) = setup(vec![clear(); 5], vec![1, 2]);
    let mut ops = vec![Operation::Read(vec![0; 2]), Operation::Write(vec![9])];
    let r = i2c.transaction(0x19, &mut ops);
    assert_eq!(r, Ok(()));
    let issued = &i2c.regs.log[preamble.len()..];
    assert_eq!(
        issued,
        &[
            RegisterAccess::Address { address: 0x19, read: true },
            cmd(true, true, false, true),
            cmd(false, true, false, false),
            RegisterAccess::Address { address: 0x19, read: false },
            RegisterAccess::DataOut(9),
            cmd(true, true, true, false),
        ]
    );
}

#[test]
fn free_returns_instance_and_pins() {
    let (i2c, _) = setup(vec![], vec![]);
    let (_instance, (_scl, _sda)) = i2c.free();
}
