use tm4c_hal::i2c::{plan_cycles, timing_divisor, Operation};
use tm4c_hal::status::{classify, BusStatus, ErrorOutcome, NoAcknowledgeSource};

fn status(
    error: bool,
    arbitration_lost: bool,
    address_nack: bool,
    data_nack: bool,
    clock_timeout: bool,
) -> BusStatus {
    BusStatus {
        busy: false,
        bus_busy: false,
        error,
        arbitration_lost,
        address_nack,
        data_nack,
        clock_timeout,
    }
}

#[test]
fn classify_clean_status_is_success() {
    assert_eq!(classify(&status(false, false, false, false, false)), None);
}

#[test]
fn classify_timeout_takes_priority_over_everything() {
    assert_eq!(
        classify(&status(true, true, true, true, true)),
        Some(ErrorOutcome::Timeout)
    );
}

#[test]
fn classify_arbitration_before_nack() {
    assert_eq!(
        classify(&status(true, true, true, true, false)),
        Some(ErrorOutcome::ArbitrationLoss)
    );
}

#[test]
fn classify_address_nack_before_data_nack() {
    assert_eq!(
        classify(&status(true, false, true, true, false)),
        Some(ErrorOutcome::NoAcknowledge(NoAcknowledgeSource::Address))
    );
}

#[test]
fn classify_data_nack_needs_error_flag() {
    assert_eq!(
        classify(&status(true, false, false, true, false)),
        Some(ErrorOutcome::NoAcknowledge(NoAcknowledgeSource::Data))
    );
    // the error flag gates both NACK sub-checks
    assert_eq!(classify(&status(false, false, true, true, false)), None);
}

#[test]
fn classify_error_flag_alone_is_no_outcome() {
    assert_eq!(classify(&status(true, false, false, false, false)), None);
}

#[test]
fn divisor_for_a_16_mhz_clock_at_100_khz() {
    assert_eq!(timing_divisor(16_000_000, 100_000), 7);
}

#[test]
fn divisor_rounds_to_nearest() {
    // 3.1 MHz over 2 MHz is 1.55: rounded to 2, less one
    assert_eq!(timing_divisor(3_100_000, 100_000), 1);
    // 2.9 MHz over 2 MHz is 1.45: rounded to 1, less one
    assert_eq!(timing_divisor(2_900_000, 100_000), 0);
}

#[test]
fn plan_of_a_mixed_transaction_has_one_cycle_per_byte() {
    let ops = vec![Operation::Write(vec![0x10]), Operation::Read(vec![0; 2])];
    let cycles = plan_cycles(0x50, &ops);
    assert_eq!(cycles.len(), 3);
    assert!(cycles[0].command.start && cycles[0].command.run && !cycles[0].command.stop);
    assert_eq!(cycles[0].data_out, Some(0x10));
    assert!(!cycles[0].is_read);
    assert!(cycles[1].command.start && cycles[1].command.ack && cycles[1].is_read);
    assert_eq!(cycles[1].data_out, None);
    assert!(cycles[2].command.stop && !cycles[2].command.ack && !cycles[2].command.start);
    let phase0 = cycles[0].address_phase.unwrap();
    assert_eq!((phase0.address, phase0.read), (0x50, false));
    let phase1 = cycles[1].address_phase.unwrap();
    assert_eq!((phase1.address, phase1.read), (0x50, true));
    assert_eq!(cycles[2].address_phase, None);
}

#[test]
fn plan_of_a_single_byte_write_is_one_combined_command() {
    let ops = vec![Operation::Write(vec![0xab])];
    let cycles = plan_cycles(0x50, &ops);
    assert_eq!(cycles.len(), 1);
    let c = cycles[0].command;
    assert!(c.start && c.run && c.stop && !c.ack);
}
