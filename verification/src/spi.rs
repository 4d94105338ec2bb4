//! The SPI bus in full-duplex master mode, against a register file that
//! records every byte shifted out and serves scripted incoming bytes, with
//! a verified clock-divisor search.

use vstd::prelude::*;

use crate::i2c::{cap_int, read_fill};
use crate::registers::incoming_at;

verus! {

/// SPI error. The hardware reports none in this mode; the type keeps the
/// transfer signatures extensible.
#[derive(Clone, Copy, Debug, PartialEq, Eq, Structural)]
pub enum Error {
    /// Reserved for future error conditions.
    _Extensible,
}

/// Clock polarity between transfers.
#[derive(Clone, Copy, Debug, PartialEq, Eq, Structural)]
pub enum Polarity {
    /// The clock idles low.
    IdleLow,
    /// The clock idles high.
    IdleHigh,
}

/// On which clock transition data is captured.
#[derive(Clone, Copy, Debug, PartialEq, Eq, Structural)]
pub enum Phase {
    /// Data is captured on the first transition.
    CaptureOnFirstTransition,
    /// Data is captured on the second transition.
    CaptureOnSecondTransition,
}

/// An SPI mode: clock polarity and capture phase.
#[derive(Clone, Copy, Debug, PartialEq, Eq, Structural)]
pub struct Mode {
    /// Clock polarity between transfers.
    pub polarity: Polarity,
    /// Capture phase.
    pub phase: Phase,
}

/// The first SPI controller instance, as a zero-sized ownership token.
pub struct SSI0;

/// The second SPI controller instance.
pub struct SSI1;

/// The third SPI controller instance.
pub struct SSI2;

/// The fourth SPI controller instance.
pub struct SSI3;

/// Alternate function 1 of a GPIO pin.
pub struct AF1;

/// Alternate function 2 of a GPIO pin.
pub struct AF2;

/// A pin that can carry the given controller's clock line.
pub trait SckPin<SPI> {}

/// A pin that can carry the given controller's incoming data line.
pub trait MisoPin<SPI> {}

/// A pin that can carry the given controller's outgoing data line.
pub trait MosiPin<SPI> {}

/// Port A pin 2 in its SPI alternate function.
pub struct PA2;

/// Port A pin 4 in its SPI alternate function.
pub struct PA4;

/// Port A pin 5 in its SPI alternate function.
pub struct PA5;

/// Port B pin 4 in its SPI alternate function.
pub struct PB4;

/// Port B pin 6 in its SPI alternate function.
pub struct PB6;

/// Port B pin 7 in its SPI alternate function.
pub struct PB7;

/// Port D pin 0 in the given alternate function.
pub struct PD0<AF> {
    /// Which alternate function the pin is configured to.
    pub af: AF,
}

/// Port D pin 2 in the given alternate function.
pub struct PD2<AF> {
    /// Which alternate function the pin is configured to.
    pub af: AF,
}

/// Port D pin 3 in the given alternate function.
pub struct PD3<AF> {
    /// Which alternate function the pin is configured to.
    pub af: AF,
}

impl SckPin<SSI0> for PA2 {

}

impl MisoPin<SSI0> for PA4 {

}

impl MosiPin<SSI0> for PA5 {

}

impl SckPin<SSI1> for PD0<AF2> {

}

impl MisoPin<SSI1> for PD2<AF2> {

}

impl MosiPin<SSI1> for PD3<AF2> {

}

impl SckPin<SSI2> for PB4 {

}

impl MisoPin<SSI2> for PB6 {

}

impl MosiPin<SSI2> for PB7 {

}

impl SckPin<SSI3> for PD0<AF1> {

}

impl MisoPin<SSI3> for PD2<AF1> {

}

impl MosiPin<SSI3> for PD3<AF1> {

}

/// The SPI controller's register interface: every byte shifted out is
/// recorded in `sent`, and the bytes the hardware would shift in stand in
/// `incoming` (reading zero once exhausted). The clock configuration is
/// held as plain fields.
#[derive(Clone, Debug, PartialEq, Eq)]
pub struct SpiRegisterFile {
    /// Every byte shifted out, in order.
    pub sent: Vec<u8>,
    /// The bytes served to successive exchanges.
    pub incoming: Vec<u8>,
    /// How many incoming bytes have been served.
    pub incoming_cursor: usize,
    /// The programmed even clock prescaler.
    pub prescaler: u8,
    /// The programmed serial clock rate.
    pub rate: u8,
    /// Whether the clock idles high.
    pub polarity_high: bool,
    /// Whether data is captured on the second transition.
    pub phase_second: bool,
    /// Whether the port is enabled.
    pub enabled: bool,
}

impl SpiRegisterFile {
    /// The incoming cursor lies within the script.
    pub open spec fn wf(self) -> bool {
        self.incoming_cursor <= self.incoming.len()
    }

    /// The register file and the given incoming script, nothing consumed,
    /// nothing sent, the port not yet configured.
    pub fn new(incoming: Vec<u8>) -> (r: SpiRegisterFile)
        ensures
            r.wf(),
            r.sent@ == Seq::<u8>::empty(),
            r.incoming@ == incoming@,
            r.incoming_cursor == 0,
            r.prescaler == 0,
            r.rate == 0,
            !r.polarity_high,
            !r.phase_second,
            !r.enabled,
    {
        SpiRegisterFile {
            sent: Vec::new(),
            incoming: incoming,
            incoming_cursor: 0,
            prescaler: 0,
            rate: 0,
            polarity_high: false,
            phase_second: false,
            enabled: false,
        }
    }

    /// One full-duplex exchange: waits for room in the transmit FIFO,
    /// shifts one byte out, waits for the receive FIFO, and takes the byte
    /// shifted in.
    pub fn exchange(&mut self, byte: u8) -> (r: u8)
        requires
            old(self).wf(),
        ensures
            final(self).wf(),
            final(self).sent@ == old(self).sent@ + seq![byte],
            r == incoming_at(old(self).incoming@, old(self).incoming_cursor as int),
            final(self).incoming_cursor == if old(self).incoming_cursor < old(
                self,
            ).incoming@.len() {
                old(self).incoming_cursor + 1
            } else {
                old(self).incoming_cursor as int
            },
            final(self).incoming@ == old(self).incoming@,
            final(self).prescaler == old(self).prescaler,
            final(self).rate == old(self).rate,
            final(self).polarity_high == old(self).polarity_high,
            final(self).phase_second == old(self).phase_second,
            final(self).enabled == old(self).enabled,
    {
        self.sent.push(byte);
        proof {
            assert(self.sent@ =~= old(self).sent@ + seq![byte]);
        }
        if self.incoming_cursor < self.incoming.len() {
            let b = self.incoming[self.incoming_cursor];
            self.incoming_cursor = self.incoming_cursor + 1;
            b
        } else {
            0
        }
    }
}

/// An even prescaler and a rate that realise the target bitrate ratio in
/// the controller's two divisor registers.
pub open spec fn divisors_ok(target: int, prescaler: int, rate: int) -> bool {
    &&& 2 <= prescaler <= 254
    &&& prescaler % 2 == 0
    &&& rate == target / prescaler - 1
    &&& 0 <= rate <= 254
}

/// Finds the smallest even prescaler in 2..=254 whose companion rate fits
/// the eight-bit rate register, for a target ratio of system clock to bus
/// bitrate.
pub fn clock_divisors(target_bitrate: u32) -> (r: (u8, u8))
    requires
        2 <= target_bitrate <= 65023,
    ensures
        divisors_ok(target_bitrate as int, r.0 as int, r.1 as int),
        forall|c: int|
            2 <= c < r.0 && c % 2 == 0 ==> #[trigger] (target_bitrate as int / c) >= 256,
{
    let mut cpsr: u32 = 2;
    loop
        invariant
            2 <= cpsr <= 254,
            cpsr % 2 == 0,
            cpsr <= target_bitrate,
            2 <= target_bitrate <= 65023,
            forall|c: int| 2 <= c < cpsr && c % 2 == 0 ==> #[trigger] (target_bitrate as int / c)
                >= 256,
        decreases 254 - cpsr,
    {
        proof {
            assert(target_bitrate / cpsr >= 1) by (nonlinear_arith)
                requires
                    cpsr >= 2,
                    target_bitrate >= cpsr,
            ;
        }
        let scr32 = target_bitrate / cpsr - 1;
        if scr32 < 255 {
            return ((cpsr as u8), (scr32 as u8));
        }
        proof {
            assert(target_bitrate as int / cpsr as int >= 256);
            assert(target_bitrate >= 256 * cpsr) by (nonlinear_arith)
                requires
                    cpsr >= 2,
                    target_bitrate as int / cpsr as int >= 256,
            ;
            assert(cpsr <= 252) by {
                if cpsr == 254 {
                    assert(target_bitrate >= 256 * 254);
                    assert(false);
                }
            }
            assert(target_bitrate >= cpsr + 2);
        }
        cpsr = cpsr + 2;
    }
}

/// An SPI peripheral in full-duplex master mode: the controller instance,
/// the pins bound to it, and its register interface.
pub struct Spi<SPI, PINS> {
    /// The controller instance.
    pub spi: SPI,
    /// The pins bound to the controller.
    pub pins: PINS,
    /// The controller's register interface.
    pub regs: SpiRegisterFile,
}

impl<SPI, SCK: SckPin<SPI>, MISO: MisoPin<SPI>, MOSI: MosiPin<SPI>> Spi<SPI, (SCK, MISO, MOSI)> {
    /// Configures the controller for full-duplex master mode: programs the
    /// mode bits and the smallest even prescaler realising the target
    /// frequency, then enables the port. Which pins may bind to which
    /// controller is fixed by the pin wiring tables.
    pub fn new(spi: SPI, pins: (SCK, MISO, MOSI), mode: Mode, freq: u32, sysclk: u32, regs: SpiRegisterFile) -> (r: Spi<SPI, (SCK, MISO, MOSI)>)
        requires
            regs.wf(),
            freq >= 1,
            2 <= sysclk as int / freq as int <= 65023,
        ensures
            r.spi == spi,
            r.pins == pins,
            r.regs.wf(),
            r.regs.sent@ == regs.sent@,
            r.regs.incoming@ == regs.incoming@,
            r.regs.incoming_cursor == regs.incoming_cursor,
            divisors_ok(sysclk as int / freq as int, r.regs.prescaler as int, r.regs.rate as int),
            forall|c: int|
                2 <= c < r.regs.prescaler && c % 2 == 0 ==> #[trigger] (sysclk as int / freq as int
                    / c) >= 256,
            r.regs.polarity_high == (mode.polarity == Polarity::IdleHigh),
            r.regs.phase_second == (mode.phase == Phase::CaptureOnSecondTransition),
            r.regs.enabled,
    {
        let target_bitrate: u32 = sysclk / freq;
        let (cpsr, scr) = clock_divisors(target_bitrate);
        let mut rf = regs;
        rf.prescaler = cpsr;
        rf.rate = scr;
        rf.polarity_high = matches!(mode.polarity, Polarity::IdleHigh);
        rf.phase_second = matches!(mode.phase, Phase::CaptureOnSecondTransition);
        rf.enabled = true;
        Spi { spi, pins, regs: rf }
    }

    /// Changes the clock frequency: disables the port, reprograms the
    /// divisors, and enables it again.
    pub fn reclock(&mut self, freq: u32, sysclk: u32)
        requires
            old(self).regs.wf(),
            freq >= 1,
            2 <= sysclk as int / freq as int <= 65023,
        ensures
            final(self).regs.wf(),
            final(self).spi == old(self).spi,
            final(self).pins == old(self).pins,
            final(self).regs.sent@ == old(self).regs.sent@,
            final(self).regs.incoming@ == old(self).regs.incoming@,
            final(self).regs.incoming_cursor == old(self).regs.incoming_cursor,
            final(self).regs.polarity_high == old(self).regs.polarity_high,
            final(self).regs.phase_second == old(self).regs.phase_second,
            divisors_ok(
                sysclk as int / freq as int,
                final(self).regs.prescaler as int,
                final(self).regs.rate as int,
            ),
            final(self).regs.enabled,
    {
        self.regs.enabled = false;
        let target_bitrate: u32 = sysclk / freq;
        let (cpsr, scr) = clock_divisors(target_bitrate);
        self.regs.prescaler = cpsr;
        self.regs.rate = scr;
        self.regs.enabled = true;
    }

    /// Releases the controller and its pins.
    pub fn free(self) -> (r: (SPI, (SCK, MISO, MOSI)))
        ensures
            r.0 == self.spi,
            r.1 == self.pins,
    {
        (self.spi, self.pins)
    }
}

impl<SPI, PINS> Spi<SPI, PINS> {
    /// Fills the buffer from the device, shifting a dummy byte out for
    /// every byte read.
    pub fn read(&mut self, words: &mut Vec<u8>) -> (r: Result<(), Error>)
        requires
            old(self).regs.wf(),
        ensures
            final(self).regs.wf(),
            r == Ok::<(), Error>(()),
            final(self).spi == old(self).spi,
            final(self).pins == old(self).pins,
            final(words)@ == read_fill(
                old(self).regs.incoming@,
                old(self).regs.incoming_cursor as int,
                old(words)@.len(),
            ),
            final(self).regs.sent@ == old(self).regs.sent@ + Seq::new(
                old(words)@.len(),
                |m: int| 0xffu8,
            ),
            final(self).regs.incoming@ == old(self).regs.incoming@,
            final(self).regs.incoming_cursor as int == cap_int(
                old(self).regs.incoming_cursor + old(words)@.len(),
                old(self).regs.incoming@.len() as int,
            ),
            final(self).regs.prescaler == old(self).regs.prescaler,
            final(self).regs.rate == old(self).regs.rate,
            final(self).regs.enabled == old(self).regs.enabled,
    {
        let n = words.len();
        let ghost inc0 = self.regs.incoming@;
        let ghost c0 = self.regs.incoming_cursor as int;
        let ghost sent0 = self.regs.sent@;
        let mut m: usize = 0;
        while m < n
            invariant
                inc0 == old(self).regs.incoming@,
                c0 == old(self).regs.incoming_cursor as int,
                sent0 == old(self).regs.sent@,
                n == old(words)@.len(),
                m <= n,
                self.regs.wf(),
                self.spi == old(self).spi,
                self.pins == old(self).pins,
                words@.len() == n,
                forall|t: int| 0 <= t < m ==> words@[t] == incoming_at(inc0, c0 + t),
                forall|t: int| m <= t < n ==> words@[t] == old(words)@[t],
                self.regs.sent@ == sent0 + Seq::new(m as nat, |t: int| 0xffu8),
                self.regs.incoming@ == inc0,
                self.regs.incoming_cursor as int == cap_int(c0 + m, inc0.len() as int),
                self.regs.prescaler == old(self).regs.prescaler,
                self.regs.rate == old(self).regs.rate,
                self.regs.enabled == old(self).regs.enabled,
            decreases n - m,
        {
            let b = self.regs.exchange(0xff);
            proof {
                assert(b == incoming_at(inc0, c0 + m));
                assert(self.regs.sent@ =~= sent0 + Seq::new((m + 1) as nat, |t: int| 0xffu8));
            }
            words[m] = b;
            m += 1;
        }
        proof {
            assert(words@ =~= read_fill(inc0, c0, n as nat));
        }
        Ok(())
    }

    /// Shifts the bytes out, discarding what the device shifts back.
    pub fn write(&mut self, bytes: &Vec<u8>) -> (r: Result<(), Error>)
        requires
            old(self).regs.wf(),
        ensures
            final(self).regs.wf(),
            r == Ok::<(), Error>(()),
            final(self).spi == old(self).spi,
            final(self).pins == old(self).pins,
            final(self).regs.sent@ == old(self).regs.sent@ + bytes@,
            final(self).regs.incoming@ == old(self).regs.incoming@,
            final(self).regs.incoming_cursor as int == cap_int(
                old(self).regs.incoming_cursor + bytes@.len(),
                old(self).regs.incoming@.len() as int,
            ),
            final(self).regs.prescaler == old(self).regs.prescaler,
            final(self).regs.rate == old(self).regs.rate,
            final(self).regs.enabled == old(self).regs.enabled,
    {
        let n = bytes.len();
        let ghost inc0 = self.regs.incoming@;
        let ghost c0 = self.regs.incoming_cursor as int;
        let ghost sent0 = self.regs.sent@;
        let mut m: usize = 0;
        while m < n
            invariant
                inc0 == old(self).regs.incoming@,
                c0 == old(self).regs.incoming_cursor as int,
                sent0 == old(self).regs.sent@,
                n == bytes@.len(),
                m <= n,
                self.regs.wf(),
                self.spi == old(self).spi,
                self.pins == old(self).pins,
                self.regs.sent@ == sent0 + bytes@.take(m as int),
                self.regs.incoming@ == inc0,
                self.regs.incoming_cursor as int == cap_int(c0 + m, inc0.len() as int),
                self.regs.prescaler == old(self).regs.prescaler,
                self.regs.rate == old(self).regs.rate,
                self.regs.enabled == old(self).regs.enabled,
            decreases n - m,
        {
            let b = bytes[m];
            let _ = self.regs.exchange(b);
            proof {
                assert(self.regs.sent@ =~= sent0 + bytes@.take(m + 1));
            }
            m += 1;
        }
        proof {
            assert(bytes@.take(n as int) =~= bytes@);
        }
        Ok(())
    }

    /// Exchanges bytes with the device: sends every byte of `send`, filling
    /// `fill` as far as bytes come back; where `fill` is longer than
    /// `send`, dummy bytes are shifted out for the remainder.
    pub fn transfer(&mut self, fill: &mut Vec<u8>, send: &Vec<u8>) -> (r: Result<(), Error>)
        requires
            old(self).regs.wf(),
        ensures
            final(self).regs.wf(),
            r == Ok::<(), Error>(()),
            final(self).spi == old(self).spi,
            final(self).pins == old(self).pins,
            final(fill)@ == read_fill(
                old(self).regs.incoming@,
                old(self).regs.incoming_cursor as int,
                old(fill)@.len(),
            ),
            final(self).regs.sent@ == old(self).regs.sent@ + send@ + if old(fill)@.len()
                > send@.len() {
                Seq::new((old(fill)@.len() - send@.len()) as nat, |m: int| 0xffu8)
            } else {
                Seq::<u8>::empty()
            },
            final(self).regs.incoming@ == old(self).regs.incoming@,
            final(self).regs.incoming_cursor as int == cap_int(
                old(self).regs.incoming_cursor + if old(fill)@.len() > send@.len() {
                    old(fill)@.len() as int
                } else {
                    send@.len() as int
                },
                old(self).regs.incoming@.len() as int,
            ),
            final(self).regs.prescaler == old(self).regs.prescaler,
            final(self).regs.rate == old(self).regs.rate,
            final(self).regs.enabled == old(self).regs.enabled,
    {
        let nr = fill.len();
        let nw = send.len();
        let min_len = if nr < nw {
            nr
        } else {
            nw
        };
        let ghost inc0 = self.regs.incoming@;
        let ghost c0 = self.regs.incoming_cursor as int;
        let ghost sent0 = self.regs.sent@;
        let mut m: usize = 0;
        while m < min_len
            invariant
                inc0 == old(self).regs.incoming@,
                c0 == old(self).regs.incoming_cursor as int,
                sent0 == old(self).regs.sent@,
                nr == old(fill)@.len(),
                nw == send@.len(),
                min_len == if nr < nw {
                    nr as int
                } else {
                    nw as int
                },
                m <= min_len,
                self.regs.wf(),
                self.spi == old(self).spi,
                self.pins == old(self).pins,
                fill@.len() == nr,
                forall|t: int| 0 <= t < m ==> fill@[t] == incoming_at(inc0, c0 + t),
                forall|t: int| m <= t < nr ==> fill@[t] == old(fill)@[t],
                self.regs.sent@ == sent0 + send@.take(m as int),
                self.regs.incoming@ == inc0,
                self.regs.incoming_cursor as int == cap_int(c0 + m, inc0.len() as int),
                self.regs.prescaler == old(self).regs.prescaler,
                self.regs.rate == old(self).regs.rate,
                self.regs.enabled == old(self).regs.enabled,
            decreases min_len - m,
        {
            let b = self.regs.exchange(send[m]);
            proof {
                assert(b == incoming_at(inc0, c0 + m));
                assert(self.regs.sent@ =~= sent0 + send@.take(m + 1));
            }
            fill[m] = b;
            m += 1;
        }
        let mut w: usize = min_len;
        while w < nw
            invariant
                inc0 == old(self).regs.incoming@,
                c0 == old(self).regs.incoming_cursor as int,
                sent0 == old(self).regs.sent@,
                nr == old(fill)@.len(),
                nw == send@.len(),
                min_len == if nr < nw {
                    nr as int
                } else {
                    nw as int
                },
                min_len <= w <= nw,
                w > min_len ==> min_len == nr as int,
                self.regs.wf(),
                self.spi == old(self).spi,
                self.pins == old(self).pins,
                fill@.len() == nr,
                forall|t: int| 0 <= t < min_len ==> fill@[t] == incoming_at(inc0, c0 + t),
                forall|t: int| min_len <= t < nr ==> fill@[t] == old(fill)@[t],
                self.regs.sent@ == sent0 + send@.take(w as int),
                self.regs.incoming@ == inc0,
                self.regs.incoming_cursor as int == cap_int(c0 + w, inc0.len() as int),
                self.regs.prescaler == old(self).regs.prescaler,
                self.regs.rate == old(self).regs.rate,
                self.regs.enabled == old(self).regs.enabled,
            decreases nw - w,
        {
            let _ = self.regs.exchange(send[w]);
            proof {
                assert(self.regs.sent@ =~= sent0 + send@.take(w + 1));
            }
            w += 1;
        }
        proof {
            assert(send@.take(nw as int) =~= send@);
        }
        let mut t: usize = min_len;
        while t < nr
            invariant
                inc0 == old(self).regs.incoming@,
                c0 == old(self).regs.incoming_cursor as int,
                sent0 == old(self).regs.sent@,
                nr == old(fill)@.len(),
                nw == send@.len(),
                min_len == if nr < nw {
                    nr as int
                } else {
                    nw as int
                },
                min_len <= t <= nr,
                t > min_len ==> min_len == nw as int,
                self.regs.wf(),
                self.spi == old(self).spi,
                self.pins == old(self).pins,
                fill@.len() == nr,
                forall|tt: int| 0 <= tt < t ==> fill@[tt] == incoming_at(inc0, c0 + tt),
                forall|tt: int| t <= tt < nr ==> fill@[tt] == old(fill)@[tt],
                self.regs.sent@ == sent0 + send@ + Seq::new(
                    (t - min_len) as nat,
                    |tt: int| 0xffu8,
                ),
                self.regs.incoming@ == inc0,
                self.regs.incoming_cursor as int == cap_int(
                    c0 + if t >= nw {
                        t as int
                    } else {
                        nw as int
                    },
                    inc0.len() as int,
                ),
                self.regs.prescaler == old(self).regs.prescaler,
                self.regs.rate == old(self).regs.rate,
                self.regs.enabled == old(self).regs.enabled,
            decreases nr - t,
        {
            let b = self.regs.exchange(0xff);
            proof {
                assert(b == incoming_at(inc0, c0 + t));
                assert(self.regs.sent@ =~= sent0 + send@ + Seq::new(
                    (t + 1 - min_len) as nat,
                    |tt: int| 0xffu8,
                ));
            }
            fill[t] = b;
            t += 1;
        }
        proof {
            assert(fill@ =~= read_fill(inc0, c0, nr as nat));
            if nr <= nw {
                assert(self.regs.sent@ =~= sent0 + send@);
                assert(sent0 + send@ + Seq::<u8>::empty() =~= sent0 + send@);
            }
        }
        Ok(())
    }

    /// Exchanges the buffer with the device in place: every byte is sent
    /// and replaced by the byte shifted back.
    pub fn transfer_in_place(&mut self, words: &mut Vec<u8>) -> (r: Result<(), Error>)
        requires
            old(self).regs.wf(),
        ensures
            final(self).regs.wf(),
            r == Ok::<(), Error>(()),
            final(self).spi == old(self).spi,
            final(self).pins == old(self).pins,
            final(words)@ == read_fill(
                old(self).regs.incoming@,
                old(self).regs.incoming_cursor as int,
                old(words)@.len(),
            ),
            final(self).regs.sent@ == old(self).regs.sent@ + old(words)@,
            final(self).regs.incoming@ == old(self).regs.incoming@,
            final(self).regs.incoming_cursor as int == cap_int(
                old(self).regs.incoming_cursor + old(words)@.len(),
                old(self).regs.incoming@.len() as int,
            ),
            final(self).regs.prescaler == old(self).regs.prescaler,
            final(self).regs.rate == old(self).regs.rate,
            final(self).regs.enabled == old(self).regs.enabled,
    {
        let n = words.len();
        let ghost inc0 = self.regs.incoming@;
        let ghost c0 = self.regs.incoming_cursor as int;
        let ghost sent0 = self.regs.sent@;
        let mut m: usize = 0;
        while m < n
            invariant
                inc0 == old(self).regs.incoming@,
                c0 == old(self).regs.incoming_cursor as int,
                sent0 == old(self).regs.sent@,
                n == old(words)@.len(),
                m <= n,
                self.regs.wf(),
                self.spi == old(self).spi,
                self.pins == old(self).pins,
                words@.len() == n,
                forall|t: int| 0 <= t < m ==> words@[t] == incoming_at(inc0, c0 + t),
                forall|t: int| m <= t < n ==> words@[t] == old(words)@[t],
                self.regs.sent@ == sent0 + old(words)@.take(m as int),
                self.regs.incoming@ == inc0,
                self.regs.incoming_cursor as int == cap_int(c0 + m, inc0.len() as int),
                self.regs.prescaler == old(self).regs.prescaler,
                self.regs.rate == old(self).regs.rate,
                self.regs.enabled == old(self).regs.enabled,
            decreases n - m,
        {
            let b = self.regs.exchange(words[m]);
            proof {
                assert(words@[m as int] == old(words)@[m as int]);
                assert(self.regs.sent@ =~= sent0 + old(words)@.take(m + 1));
            }
            words[m] = b;
            m += 1;
        }
        proof {
            assert(words@ =~= read_fill(inc0, c0, n as nat));
            assert(old(words)@.take(n as int) =~= old(words)@);
        }
        Ok(())
    }

    /// Waits until the port is no longer busy. The model completes at
    /// once, leaving everything as it is.
    pub fn flush(&mut self) -> (r: Result<(), Error>)
        requires
            old(self).regs.wf(),
        ensures
            *final(self) == *old(self),
            r == Ok::<(), Error>(()),
    {
        Ok(())
    }
}

} // verus!
