//! Status snapshots of the I2C bus controller and their classification
//! into structured error outcomes.

use vstd::prelude::*;

verus! {

/// One read-only snapshot of the controller's status register.
///
/// `busy` reports that the controller is still executing a command;
/// `bus_busy` reports that the two-wire bus itself is held (possibly by
/// another master). The remaining flags are only meaningful once `busy`
/// has cleared.
#[derive(Clone, Copy, Debug, PartialEq, Eq, Structural)]
pub struct BusStatus {
    /// The controller is still executing the last command.
    pub busy: bool,
    /// The bus itself is in use.
    pub bus_busy: bool,
    /// The last command ended in an error.
    pub error: bool,
    /// The controller lost bus arbitration to another master.
    pub arbitration_lost: bool,
    /// No device acknowledged the address phase.
    pub address_nack: bool,
    /// The device stopped acknowledging mid-transfer.
    pub data_nack: bool,
    /// The clock-low watchdog expired.
    pub clock_timeout: bool,
}

/// Which phase of a transfer went unacknowledged.
#[derive(Clone, Copy, Debug, PartialEq, Eq, Structural)]
pub enum NoAcknowledgeSource {
    /// No device answered the address phase.
    Address,
    /// The device stopped acknowledging mid-transfer.
    Data,
}

/// The structured outcome of a failed transaction.
#[derive(Clone, Copy, Debug, PartialEq, Eq, Structural)]
pub enum ErrorOutcome {
    /// The watchdog expired while waiting for the controller: a stuck bus
    /// or an absent clock.
    Timeout,
    /// Bus arbitration was lost to another master.
    ArbitrationLoss,
    /// A byte went unacknowledged.
    NoAcknowledge(NoAcknowledgeSource),
    /// An operation of zero length was handed to the engine. Never produced
    /// by status classification; reported before any register is touched.
    InvalidArgument,
}

impl BusStatus {
    /// The snapshot the controller reports when none of its flags is raised.
    pub open spec fn all_clear(self) -> bool {
        !self.busy && !self.bus_busy && !self.error && !self.arbitration_lost
            && !self.address_nack && !self.data_nack && !self.clock_timeout
    }
}

/// Classification of a settled status snapshot, with its fixed priority:
/// clock timeout, then arbitration loss, then (gated by the error flag)
/// address NACK, then data NACK; anything else counts as success.
pub open spec fn classify_spec(s: BusStatus) -> Option<ErrorOutcome> {
    if s.clock_timeout {
        Some(ErrorOutcome::Timeout)
    } else if s.arbitration_lost {
        Some(ErrorOutcome::ArbitrationLoss)
    } else if s.error && s.address_nack {
        Some(ErrorOutcome::NoAcknowledge(NoAcknowledgeSource::Address))
    } else if s.error && s.data_nack {
        Some(ErrorOutcome::NoAcknowledge(NoAcknowledgeSource::Data))
    } else {
        None
    }
}

/// Maps a settled status snapshot to an error outcome, or `None` for
/// success. Exactly one outcome comes back even when several flags are
/// coincidentally set: the priority is clock timeout, arbitration loss,
/// address NACK, data NACK, where both NACK checks also demand the error
/// flag.
pub fn classify(s: &BusStatus) -> (r: Option<ErrorOutcome>)
    ensures
        r == classify_spec(*s),
{
    if s.clock_timeout {
        Some(ErrorOutcome::Timeout)
    } else if s.arbitration_lost {
        Some(ErrorOutcome::ArbitrationLoss)
    } else if s.error && s.address_nack {
        Some(ErrorOutcome::NoAcknowledge(NoAcknowledgeSource::Address))
    } else if s.error && s.data_nack {
        Some(ErrorOutcome::NoAcknowledge(NoAcknowledgeSource::Data))
    } else {
        None
    }
}

} // verus!
