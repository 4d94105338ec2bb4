use tm4c_hal::adc::{AdcRegisterFile, AdcSingle, ADC0, PE3};
use tm4c_hal::delay::{Delay, SysTick};
use tm4c_hal::spi::{
    clock_divisors, Mode, Phase, Polarity, Spi, SpiRegisterFile, PA2, PA4, PA5, SSI0,
};

fn spi_setup(incoming: Vec<u8>) -> Spi<SSI0, (PA2, PA4, PA5)> {
    let regs = SpiRegisterFile::new(incoming);
    let mode = Mode { polarity: Polarity::IdleLow, phase: Phase::CaptureOnFirstTransition };
    Spi::new(SSI0, (PA2, PA4, PA5), mode, 1_000_000, 16_000_000, regs)
}

#[test]
fn spi_clock_divisors_smallest_even_prescaler() {
    // ratio 16: the smallest even prescaler works directly
    assert_eq!(clock_divisors(16), (2, 7));
    // ratio 1000 overflows the rate register at prescaler 2
    assert_eq!(clock_divisors(1000), (4, 249));
    // the largest ratio the registers can express
    assert_eq!(clock_divisors(65023), (254, 254));
}

#[test]
fn spi_new_programs_divisors_and_enables() {
    let spi = spi_setup(vec![]);
    assert_eq!((spi.regs.prescaler, spi.regs.rate), (2, 7));
    assert!(!spi.regs.polarity_high);
    assert!(!spi.regs.phase_second);
    assert!(spi.regs.enabled);
}

#[test]
fn spi_write_shifts_bytes_out_in_order() {
    let mut spi = spi_setup(vec![0, 0, 0]);
    let r = spi.write(&vec![0x11, 0x22, 0x33]);
    assert_eq!(r, Ok(()));
    assert_eq!(spi.regs.sent, vec![0x11, 0x22, 0x33]);
}

#[test]
fn spi_read_sends_dummies_and_fills() {
    let mut spi = spi_setup(vec![0xa1, 0xa2]);
    let mut words = vec![0u8; 2];
    let r = spi.read(&mut words);
    assert_eq!(r, Ok(()));
    assert_eq!(words, vec![0xa1, 0xa2]);
    assert_eq!(spi.regs.sent, vec![0xff, 0xff]);
}

#[test]
fn spi_transfer_pads_longer_reads_with_dummies() {
    let mut spi = spi_setup(vec![1, 2, 3, 4]);
    let mut fill = vec![0u8; 4];
    let r = spi.transfer(&mut fill, &vec![0x51, 0x52]);
    assert_eq!(r, Ok(()));
    assert_eq!(fill, vec![1, 2, 3, 4]);
    assert_eq!(spi.regs.sent, vec![0x51, 0x52, 0xff, 0xff]);
}

#[test]
fn spi_transfer_discards_extra_writes() {
    let mut spi = spi_setup(vec![1, 2, 3]);
    let mut fill = vec![0u8; 1];
    let r = spi.transfer(&mut fill, &vec![0x51, 0x52, 0x53]);
    assert_eq!(r, Ok(()));
    assert_eq!(fill, vec![1]);
    assert_eq!(spi.regs.sent, vec![0x51, 0x52, 0x53]);
    assert_eq!(spi.regs.incoming_cursor, 3);
}

#[test]
fn spi_transfer_in_place_exchanges_the_buffer() {
    let mut spi = spi_setup(vec![0xb1, 0xb2]);
    let mut words = vec![0x71, 0x72];
    let r = spi.transfer_in_place(&mut words);
    assert_eq!(r, Ok(()));
    assert_eq!(words, vec![0xb1, 0xb2]);
    assert_eq!(spi.regs.sent, vec![0x71, 0x72]);
}

#[test]
fn spi_exhausted_incoming_reads_zero() {
    let mut spi = spi_setup(vec![0x42]);
    let mut words = vec![9u8; 3];
    let r = spi.read(&mut words);
    assert_eq!(r, Ok(()));
    assert_eq!(words, vec![0x42, 0, 0]);
}

#[test]
fn spi_reclock_reprograms_divisors() {
    let mut spi = spi_setup(vec![]);
    spi.reclock(16_000, 16_000_000);
    assert_eq!((spi.regs.prescaler, spi.regs.rate), (4, 249));
    assert!(spi.regs.enabled);
}

#[test]
fn spi_flush_changes_nothing() {
    let mut spi = spi_setup(vec![7]);
    let before_sent = spi.regs.sent.clone();
    assert_eq!(spi.flush(), Ok(()));
    assert_eq!(spi.regs.sent, before_sent);
    assert_eq!(spi.regs.incoming_cursor, 0);
}

#[test]
fn spi_free_returns_instance_and_pins() {
    let spi = spi_setup(vec![]);
    let (_ssi, (_sck, _miso, _mosi)) = spi.free();
}

#[test]
fn adc_read_drains_the_fifo_and_returns_the_last_sample() {
    let regs = AdcRegisterFile::new(vec![5, 7]);
    let mut adc = AdcSingle::new(ADC0, PE3, regs);
    assert_eq!(adc.regs.channel, 0);
    assert!(adc.regs.enabled);
    let sample = adc.read();
    assert_eq!(sample, 7);
    assert_eq!(adc.regs.conversions, 1);
}

#[test]
fn adc_read_of_an_empty_fifo_is_all_ones() {
    let regs = AdcRegisterFile::new(vec![]);
    let mut adc = AdcSingle::new(ADC0, PE3, regs);
    assert_eq!(adc.read(), 0xffff);
}

#[test]
fn delay_programs_the_reload_for_the_span() {
    let mut delay = Delay::new(SysTick::new(), 16_000_000);
    assert!(delay.syst.core_clock);
    delay.delay_ns(1_000);
    // 1 us at 16 MHz is 16 ticks
    assert_eq!(delay.syst.reload, 16);
    assert!(!delay.syst.enabled);
    assert_eq!(delay.syst.countdowns, 1);
    let _syst = delay.free();
}
