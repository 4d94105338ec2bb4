use tm4c_hal::adc::{AdcPin, PB4, PB5, PD1, PE4};
use tm4c_hal::i2c::{Operation, I2C, I2C1, I2C2, PG0, PG1, PL0, PN5};
use tm4c_hal::registers::RegisterFile;
use tm4c_hal::spi::{Mode, Phase, Polarity, Spi, SpiRegisterFile, AF1, PD0, PD2, PD3, SSI3};
use tm4c_hal::status::BusStatus;

fn clear() -> BusStatus {
    BusStatus {
        busy: false,
        bus_busy: false,
        error: false,
        arbitration_lost: false,
        address_nack: false,
        data_nack: false,
        clock_timeout: false,
    }
}

#[test]
fn second_i2c_instance_binds_port_g_pins() {
    let regs = RegisterFile::new(vec![clear(); 3], vec![]);
    let mut i2c = I2C::new(I2C1, (PG0, PG1), 100_000, 16_000_000, regs);
    let mut ops = vec![Operation::Write(vec![0x01])];
    assert_eq!(i2c.transaction(0x08, &mut ops), Ok(()));
    let (_bus, _pins) = i2c.free();
}

#[test]
fn third_i2c_instance_binds_port_l_and_n_pins() {
    let regs = RegisterFile::new(vec![clear(); 3], vec![0x99]);
    let mut i2c = I2C::new(I2C2, (PN5, PL0), 100_000, 16_000_000, regs);
    let mut ops = vec![Operation::Read(vec![0])];
    assert_eq!(i2c.transaction(0x08, &mut ops), Ok(()));
    assert_eq!(ops[0], Operation::Read(vec![0x99]));
}

#[test]
fn fourth_spi_instance_binds_port_d_in_its_first_alternate_function() {
    let regs = SpiRegisterFile::new(vec![0]);
    let mode = Mode { polarity: Polarity::IdleHigh, phase: Phase::CaptureOnSecondTransition };
    let pins = (PD0 { af: AF1 }, PD2 { af: AF1 }, PD3 { af: AF1 });
    let mut spi = Spi::new(SSI3, pins, mode, 1_000_000, 16_000_000, regs);
    assert!(spi.regs.polarity_high);
    assert!(spi.regs.phase_second);
    assert_eq!(spi.write(&vec![0x2a]), Ok(()));
    assert_eq!(spi.regs.sent, vec![0x2a]);
}

#[test]
fn adc_pins_report_their_fixed_channels() {
    assert_eq!(PB4.channel(), 10);
    assert_eq!(PB5.channel(), 11);
    assert_eq!(PD1.channel(), 6);
    assert_eq!(PE4.channel(), 9);
}
