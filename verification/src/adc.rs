//! Single-sample analog-to-digital conversion, against a register file
//! whose sample FIFO is scripted.

use vstd::prelude::*;

verus! {

/// The first ADC peripheral instance, as a zero-sized ownership token.
pub struct ADC0;

/// The second ADC peripheral instance.
pub struct ADC1;

/// A pin that can serve as an analog input, with its fixed channel number.
pub trait AdcPin {
    /// The channel number wired to this pin.
    spec fn channel_spec(&self) -> u8;

    /// Returns the channel number wired to this pin.
    fn channel(&self) -> (c: u8)
        ensures
            c == self.channel_spec(),
    ;
}

/// Port B pin 4 as an analog input.
pub struct PB4;

/// Port B pin 5 as an analog input.
pub struct PB5;

/// Port D pin 0 as an analog input.
pub struct PD0;

/// Port D pin 1 as an analog input.
pub struct PD1;

/// Port D pin 2 as an analog input.
pub struct PD2;

/// Port D pin 3 as an analog input.
pub struct PD3;

/// Port E pin 0 as an analog input.
pub struct PE0;

/// Port E pin 1 as an analog input.
pub struct PE1;

/// Port E pin 2 as an analog input.
pub struct PE2;

/// Port E pin 3 as an analog input.
pub struct PE3;

/// Port E pin 4 as an analog input.
pub struct PE4;

/// Port E pin 5 as an analog input.
pub struct PE5;

impl AdcPin for PB4 {
    open spec fn channel_spec(&self) -> u8 {
        10
    }

    fn channel(&self) -> u8 {
        10
    }
}

impl AdcPin for PB5 {
    open spec fn channel_spec(&self) -> u8 {
        11
    }

    fn channel(&self) -> u8 {
        11
    }
}

impl AdcPin for PD0 {
    open spec fn channel_spec(&self) -> u8 {
        7
    }

    fn channel(&self) -> u8 {
        7
    }
}

impl AdcPin for PD1 {
    open spec fn channel_spec(&self) -> u8 {
        6
    }

    fn channel(&self) -> u8 {
        6
    }
}

impl AdcPin for PD2 {
    open spec fn channel_spec(&self) -> u8 {
        5
    }

    fn channel(&self) -> u8 {
        5
    }
}

impl AdcPin for PD3 {
    open spec fn channel_spec(&self) -> u8 {
        4
    }

    fn channel(&self) -> u8 {
        4
    }
}

impl AdcPin for PE0 {
    open spec fn channel_spec(&self) -> u8 {
        3
    }

    fn channel(&self) -> u8 {
        3
    }
}

impl AdcPin for PE1 {
    open spec fn channel_spec(&self) -> u8 {
        2
    }

    fn channel(&self) -> u8 {
        2
    }
}

impl AdcPin for PE2 {
    open spec fn channel_spec(&self) -> u8 {
        1
    }

    fn channel(&self) -> u8 {
        1
    }
}

impl AdcPin for PE3 {
    open spec fn channel_spec(&self) -> u8 {
        0
    }

    fn channel(&self) -> u8 {
        0
    }
}

impl AdcPin for PE4 {
    open spec fn channel_spec(&self) -> u8 {
        9
    }

    fn channel(&self) -> u8 {
        9
    }
}

impl AdcPin for PE5 {
    open spec fn channel_spec(&self) -> u8 {
        8
    }

    fn channel(&self) -> u8 {
        8
    }
}

/// The ADC's register interface: the samples its FIFO would yield stand in
/// `fifo`, served in order; `conversions` counts the conversions strobed,
/// and the configured channel is held as a plain field.
#[derive(Clone, Debug, PartialEq, Eq)]
pub struct AdcRegisterFile {
    /// The samples served by the FIFO, in order.
    pub fifo: Vec<u16>,
    /// How many samples have been drained.
    pub fifo_cursor: usize,
    /// How many conversions were strobed.
    pub conversions: usize,
    /// The channel programmed into the sequencer.
    pub channel: u8,
    /// Whether the sequencer is enabled.
    pub enabled: bool,
}

impl AdcRegisterFile {
    /// The FIFO cursor lies within the script.
    pub open spec fn wf(self) -> bool {
        self.fifo_cursor <= self.fifo.len()
    }

    /// The register file and the given sample script, nothing drained,
    /// nothing configured.
    pub fn new(fifo: Vec<u16>) -> (r: AdcRegisterFile)
        ensures
            r.wf(),
            r.fifo@ == fifo@,
            r.fifo_cursor == 0,
            r.conversions == 0,
            r.channel == 0,
            !r.enabled,
    {
        AdcRegisterFile { fifo, fifo_cursor: 0, conversions: 0, channel: 0, enabled: false }
    }
}

/// An analog-to-digital converter bound to one analog input pin.
pub struct AdcSingle<ADC, PIN> where PIN: AdcPin {
    /// The converter instance.
    pub adc: ADC,
    /// The pin sampled by the converter.
    pub pins: PIN,
    /// The converter's register interface.
    pub regs: AdcRegisterFile,
}

impl<ADC, PIN> AdcSingle<ADC, PIN> where PIN: AdcPin {
    /// Configures the converter to sample the given pin's channel on a
    /// processor-triggered sequencer.
    pub fn new(adc: ADC, pin: PIN, regs: AdcRegisterFile) -> (r: AdcSingle<ADC, PIN>)
        requires
            regs.wf(),
        ensures
            r.adc == adc,
            r.regs.wf(),
            r.regs.fifo@ == regs.fifo@,
            r.regs.fifo_cursor == regs.fifo_cursor,
            r.regs.conversions == regs.conversions,
            r.regs.channel == pin.channel_spec(),
            r.regs.enabled,
    {
        let channel = pin.channel();
        let mut rf = regs;
        rf.channel = channel;
        rf.enabled = true;
        AdcSingle { adc, pins: pin, regs: rf }
    }

    /// Starts one conversion, waits for it to complete, and drains the
    /// sample FIFO, returning the last sample drained — or the all-ones
    /// pattern when the FIFO yields nothing.
    pub fn read(&mut self) -> (sample: u16)
        requires
            old(self).regs.wf(),
            old(self).regs.conversions < usize::MAX,
        ensures
            final(self).regs.wf(),
            final(self).adc == old(self).adc,
            final(self).pins == old(self).pins,
            final(self).regs.fifo@ == old(self).regs.fifo@,
            final(self).regs.fifo_cursor == final(self).regs.fifo@.len(),
            final(self).regs.conversions == old(self).regs.conversions + 1,
            final(self).regs.channel == old(self).regs.channel,
            final(self).regs.enabled == old(self).regs.enabled,
            sample == if old(self).regs.fifo_cursor < old(self).regs.fifo@.len() {
                old(self).regs.fifo@.last()
            } else {
                0xffffu16
            },
    {
        self.regs.conversions = self.regs.conversions + 1;
        let mut sample: u16 = 0xffff;
        while self.regs.fifo_cursor < self.regs.fifo.len()
            invariant
                self.regs.wf(),
                self.adc == old(self).adc,
                self.pins == old(self).pins,
                self.regs.fifo@ == old(self).regs.fifo@,
                old(self).regs.fifo_cursor <= self.regs.fifo_cursor,
                self.regs.conversions == old(self).regs.conversions + 1,
                self.regs.channel == old(self).regs.channel,
                self.regs.enabled == old(self).regs.enabled,
                sample == if old(self).regs.fifo_cursor < self.regs.fifo_cursor {
                    self.regs.fifo@[self.regs.fifo_cursor - 1]
                } else {
                    0xffffu16
                },
            decreases self.regs.fifo@.len() - self.regs.fifo_cursor,
        {
            sample = self.regs.fifo[self.regs.fifo_cursor];
            self.regs.fifo_cursor = self.regs.fifo_cursor + 1;
        }
        sample
    }
}

} // verus!
