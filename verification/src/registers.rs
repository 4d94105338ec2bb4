//! The bus controller's register interface, modelled as a register file
//! that records every write and serves scripted status snapshots and
//! incoming data bytes, together with the cycle executor that issues one
//! elementary command and polls it to completion.

use vstd::prelude::*;

use crate::status::{classify, classify_spec, BusStatus, ErrorOutcome};

verus! {

/// One elementary command-register write: the four strobe bits.
#[derive(Clone, Copy, Debug, PartialEq, Eq, Structural)]
pub struct BusCommand {
    /// Generate a START (or repeated START) condition.
    pub start: bool,
    /// Execute a byte transfer.
    pub run: bool,
    /// Generate a STOP condition.
    pub stop: bool,
    /// Acknowledge the received byte.
    pub ack: bool,
}

/// One recorded register write, in issue order.
#[derive(Clone, Copy, Debug, PartialEq, Eq, Structural)]
pub enum RegisterAccess {
    /// Control register: master-mode enable.
    MasterEnable,
    /// Timing register: the bus clock divisor.
    TimingDivisor(u8),
    /// Address register: 7-bit target address and direction bit.
    Address { address: u8, read: bool },
    /// Data register: one outgoing byte.
    DataOut(u8),
    /// Command register: the strobe bits of one elementary cycle.
    Command(BusCommand),
}

/// The watchdog budget programmed before every poll: 1000 clock cycles,
/// stored in units of 16 (10 ms at a 100 kHz bus clock).
pub const WATCHDOG_BUDGET: u8 = 62;

/// The command that only drives a STOP condition, used to release the bus
/// after an unacknowledged byte.
pub open spec fn stop_command() -> BusCommand {
    BusCommand { start: false, run: false, stop: true, ack: false }
}

/// The snapshot the controller reports once the watchdog has expired: the
/// command is abandoned, so `busy` is clear and only the timeout flag is set.
pub open spec fn watchdog_expired() -> BusStatus {
    BusStatus {
        busy: false,
        bus_busy: false,
        error: false,
        arbitration_lost: false,
        address_nack: false,
        data_nack: false,
        clock_timeout: true,
    }
}

/// The status served to the `n`th poll of a script: past the script's end
/// the watchdog has expired.
pub open spec fn status_at(sts: Seq<BusStatus>, n: int) -> BusStatus {
    if 0 <= n < sts.len() {
        sts[n]
    } else {
        watchdog_expired()
    }
}

/// The poll index at which a busy-wait started at `from` settles: the first
/// index at or after `from` whose status is not busy, or the script's end
/// (where the watchdog status, never busy, is served).
pub open spec fn settle_index(sts: Seq<BusStatus>, from: int) -> int
    decreases sts.len() - from,
{
    if from >= sts.len() {
        from
    } else if !status_at(sts, from).busy {
        from
    } else {
        settle_index(sts, from + 1)
    }
}

/// What one busy-wait yields: the classification of the settled status, and
/// the poll cursor after it (capped at the script's end).
pub open spec fn wait_outcome(sts: Seq<BusStatus>, from: int) -> (Option<ErrorOutcome>, int) {
    let si = settle_index(sts, from);
    (
        classify_spec(status_at(sts, si)),
        if si < sts.len() {
            si + 1
        } else {
            sts.len() as int
        },
    )
}

/// What waiting for the bus to go idle yields: repeated busy-waits, each
/// classified, until one settles with the bus released, an error is
/// classified, or the script is exhausted (a watchdog expiry).
pub open spec fn idle_outcome(sts: Seq<BusStatus>, from: int) -> (Result<(), ErrorOutcome>, int)
    decreases sts.len() - from,
{
    if from < 0 || from >= sts.len() {
        (Err(ErrorOutcome::Timeout), sts.len() as int)
    } else if sts[from].busy {
        idle_outcome(sts, from + 1)
    } else {
        match classify_spec(sts[from]) {
            Some(e) => (Err(e), from + 1),
            None => if !sts[from].bus_busy {
                (Ok(()), from + 1)
            } else {
                idle_outcome(sts, from + 1)
            },
        }
    }
}

/// The byte served to the `n`th read of the data register: past the
/// incoming script's end the register reads as zero.
pub open spec fn incoming_at(inc: Seq<u8>, n: int) -> u8 {
    if 0 <= n < inc.len() {
        inc[n]
    } else {
        0
    }
}

/// The next `n` scripted statuses from `from` on are present and entirely
/// clear: the controller settles at once, error-free, with the bus
/// released.
pub open spec fn clean_from(sts: Seq<BusStatus>, from: int, n: nat) -> bool {
    &&& from + n <= sts.len()
    &&& forall|k: int| from <= k < from + n ==> (#[trigger] sts[k]).all_clear()
}

/// The STOP command that a NACK outcome leaves in the log, and nothing for
/// any other outcome.
pub open spec fn nack_stop_suffix(r: Result<(), ErrorOutcome>) -> Seq<RegisterAccess> {
    match r {
        Err(ErrorOutcome::NoAcknowledge(_)) => seq![RegisterAccess::Command(stop_command())],
        _ => Seq::empty(),
    }
}

/// What one executed command yields: its completion wait, then, when asked
/// and error-free, a wait for the bus to go idle.
pub open spec fn command_outcome(sts: Seq<BusStatus>, from: int, wait_idle: bool) -> (
    Result<(), ErrorOutcome>,
    int,
) {
    let settled = wait_outcome(sts, from);
    match settled.0 {
        Some(e) => (Err(e), settled.1),
        None => if wait_idle {
            idle_outcome(sts, settled.1)
        } else {
            (Ok(()), settled.1)
        },
    }
}

/// The controller's register interface. Every register write is recorded in
/// `log`; the statuses the hardware would report to successive polls stand
/// in `statuses`, and the bytes the data register would yield to successive
/// reads stand in `incoming`. The cursors say how much of each script has
/// been consumed; past the end of `statuses` the watchdog status is served,
/// past the end of `incoming` the data register reads as zero.
#[derive(Clone, Debug, PartialEq, Eq)]
pub struct RegisterFile {
    /// Every register write, in issue order.
    pub log: Vec<RegisterAccess>,
    /// The status snapshots served to successive polls.
    pub statuses: Vec<BusStatus>,
    /// How many statuses have been served.
    pub status_cursor: usize,
    /// The bytes served to successive data-register reads.
    pub incoming: Vec<u8>,
    /// How many incoming bytes have been served.
    pub incoming_cursor: usize,
    /// The last programmed watchdog budget.
    pub watchdog_budget: u8,
}

impl RegisterFile {
    /// Both script cursors lie within their scripts.
    pub open spec fn wf(self) -> bool {
        self.status_cursor <= self.statuses.len() && self.incoming_cursor <= self.incoming.len()
    }

    /// The register file and the given scripts, nothing consumed and
    /// nothing written yet.
    pub fn new(statuses: Vec<BusStatus>, incoming: Vec<u8>) -> (r: RegisterFile)
        ensures
            r.wf(),
            r.log@ == Seq::<RegisterAccess>::empty(),
            r.statuses@ == statuses@,
            r.status_cursor == 0,
            r.incoming@ == incoming@,
            r.incoming_cursor == 0,
            r.watchdog_budget == 0,
    {
        RegisterFile {
            log: Vec::new(),
            statuses,
            status_cursor: 0,
            incoming,
            incoming_cursor: 0,
            watchdog_budget: 0,
        }
    }

    /// Nothing but the log differs, and the log grew by the given entries.
    pub open spec fn logged(self, pre: RegisterFile, entries: Seq<RegisterAccess>) -> bool {
        self.log@ == pre.log@ + entries && self.statuses@ == pre.statuses@ && self.status_cursor
            == pre.status_cursor && self.incoming@ == pre.incoming@ && self.incoming_cursor
            == pre.incoming_cursor && self.watchdog_budget == pre.watchdog_budget
    }

    /// Writes the control register: master-function enable.
    pub fn write_master_enable(&mut self)
        requires
            old(self).wf(),
        ensures
            final(self).wf(),
            final(self).logged(*old(self), seq![RegisterAccess::MasterEnable]),
    {
        self.log.push(RegisterAccess::MasterEnable);
        proof {
            assert(self.log@ =~= old(self).log@ + seq![RegisterAccess::MasterEnable]);
        }
    }

    /// Writes the clock divisor to the timing register.
    pub fn write_timing_divisor(&mut self, divisor: u8)
        requires
            old(self).wf(),
        ensures
            final(self).wf(),
            final(self).logged(*old(self), seq![RegisterAccess::TimingDivisor(divisor)]),
    {
        self.log.push(RegisterAccess::TimingDivisor(divisor));
        proof {
            assert(self.log@ =~= old(self).log@ + seq![RegisterAccess::TimingDivisor(divisor)]);
        }
    }

    /// Writes the target address and direction bit to the address register.
    pub fn write_address(&mut self, address: u8, read: bool)
        requires
            old(self).wf(),
        ensures
            final(self).wf(),
            final(self).logged(*old(self), seq![RegisterAccess::Address { address, read }]),
    {
        self.log.push(RegisterAccess::Address { address, read });
        proof {
            assert(self.log@ =~= old(self).log@ + seq![RegisterAccess::Address { address, read }]);
        }
    }

    /// Writes one outgoing byte to the data register.
    pub fn write_data(&mut self, byte: u8)
        requires
            old(self).wf(),
        ensures
            final(self).wf(),
            final(self).logged(*old(self), seq![RegisterAccess::DataOut(byte)]),
    {
        self.log.push(RegisterAccess::DataOut(byte));
        proof {
            assert(self.log@ =~= old(self).log@ + seq![RegisterAccess::DataOut(byte)]);
        }
    }

    /// Writes the strobe bits of one elementary cycle to the command
    /// register.
    pub fn write_command(&mut self, command: BusCommand)
        requires
            old(self).wf(),
        ensures
            final(self).wf(),
            final(self).logged(*old(self), seq![RegisterAccess::Command(command)]),
    {
        self.log.push(RegisterAccess::Command(command));
        proof {
            assert(self.log@ =~= old(self).log@ + seq![RegisterAccess::Command(command)]);
        }
    }

    /// Programs the watchdog budget for the next busy-wait.
    pub fn set_watchdog_budget(&mut self, budget: u8)
        requires
            old(self).wf(),
        ensures
            final(self).wf(),
            final(self).log@ == old(self).log@,
            final(self).statuses@ == old(self).statuses@,
            final(self).status_cursor == old(self).status_cursor,
            final(self).incoming@ == old(self).incoming@,
            final(self).incoming_cursor == old(self).incoming_cursor,
            final(self).watchdog_budget == budget,
    {
        self.watchdog_budget = budget;
    }

    /// Reads the status register: the next scripted snapshot, or the
    /// watchdog-expired snapshot once the script is exhausted.
    pub fn poll_status(&mut self) -> (st: BusStatus)
        requires
            old(self).wf(),
        ensures
            final(self).wf(),
            st == status_at(old(self).statuses@, old(self).status_cursor as int),
            final(self).status_cursor == if old(self).status_cursor < old(self).statuses@.len() {
                old(self).status_cursor + 1
            } else {
                old(self).status_cursor as int
            },
            final(self).log@ == old(self).log@,
            final(self).statuses@ == old(self).statuses@,
            final(self).incoming@ == old(self).incoming@,
            final(self).incoming_cursor == old(self).incoming_cursor,
            final(self).watchdog_budget == old(self).watchdog_budget,
    {
        if self.status_cursor < self.statuses.len() {
            let st = self.statuses[self.status_cursor];
            self.status_cursor = self.status_cursor + 1;
            st
        } else {
            BusStatus {
                busy: false,
                bus_busy: false,
                error: false,
                arbitration_lost: false,
                address_nack: false,
                data_nack: false,
                clock_timeout: true,
            }
        }
    }

    /// Reads the data register: the next scripted incoming byte, or zero
    /// once the script is exhausted.
    pub fn read_data(&mut self) -> (byte: u8)
        requires
            old(self).wf(),
        ensures
            final(self).wf(),
            byte == incoming_at(old(self).incoming@, old(self).incoming_cursor as int),
            final(self).incoming_cursor == if old(self).incoming_cursor < old(self).incoming@.len() {
                old(self).incoming_cursor + 1
            } else {
                old(self).incoming_cursor as int
            },
            final(self).log@ == old(self).log@,
            final(self).statuses@ == old(self).statuses@,
            final(self).status_cursor == old(self).status_cursor,
            final(self).incoming@ == old(self).incoming@,
            final(self).watchdog_budget == old(self).watchdog_budget,
    {
        if self.incoming_cursor < self.incoming.len() {
            let byte = self.incoming[self.incoming_cursor];
            self.incoming_cursor = self.incoming_cursor + 1;
            byte
        } else {
            0
        }
    }
}

/// The settle point of a busy-wait lies between its start and the script's
/// end, its status is not busy, and every status before it was busy.
pub proof fn lemma_settle_index(sts: Seq<BusStatus>, from: int)
    requires
        0 <= from <= sts.len(),
    ensures
        from <= settle_index(sts, from) <= sts.len(),
        !status_at(sts, settle_index(sts, from)).busy,
        forall|k: int| from <= k < settle_index(sts, from) ==> status_at(sts, k).busy,
    decreases sts.len() - from,
{
    if from >= sts.len() {
    } else if !status_at(sts, from).busy {
    } else {
        lemma_settle_index(sts, from + 1);
    }
}

/// Programs the watchdog, then polls the status register until the
/// controller is no longer busy, and returns that settled snapshot.
fn wait_for_completion(bus: &mut RegisterFile) -> (st: BusStatus)
    requires
        old(bus).wf(),
    ensures
        final(bus).wf(),
        st == status_at(old(bus).statuses@, settle_index(old(bus).statuses@, old(bus).status_cursor as int)),
        final(bus).status_cursor as int == wait_outcome(old(bus).statuses@, old(bus).status_cursor as int).1,
        final(bus).log@ == old(bus).log@,
        final(bus).statuses@ == old(bus).statuses@,
        final(bus).incoming@ == old(bus).incoming@,
        final(bus).incoming_cursor == old(bus).incoming_cursor,
        final(bus).watchdog_budget == WATCHDOG_BUDGET,
{
    bus.set_watchdog_budget(WATCHDOG_BUDGET);
    let ghost sts = bus.statuses@;
    let ghost c0 = bus.status_cursor as int;
    proof {
        lemma_settle_index(sts, c0);
    }
    loop
        invariant
            bus.wf(),
            sts == old(bus).statuses@,
            c0 == old(bus).status_cursor as int,
            bus.statuses@ == sts,
            c0 <= bus.status_cursor as int <= sts.len(),
            settle_index(sts, bus.status_cursor as int) == settle_index(sts, c0),
            bus.log@ == old(bus).log@,
            bus.incoming@ == old(bus).incoming@,
            bus.incoming_cursor == old(bus).incoming_cursor,
            bus.watchdog_budget == WATCHDOG_BUDGET,
        decreases sts.len() - bus.status_cursor,
    {
        let ghost before = bus.status_cursor as int;
        let st = bus.poll_status();
        if !st.busy {
            proof {
                lemma_settle_index(sts, before);
            }
            return st;
        }
    }
}

/// An error from a bus-idle wait was classified from some settled status at
/// or after the wait's start (the script's end standing for a watchdog
/// expiry).
pub proof fn lemma_idle_outcome_error(sts: Seq<BusStatus>, from: int, e: ErrorOutcome)
    requires
        0 <= from <= sts.len(),
        idle_outcome(sts, from).0 == Err::<(), ErrorOutcome>(e),
    ensures
        exists|si: int|
            from <= si <= sts.len() && classify_spec(#[trigger] status_at(sts, si)) == Some(e),
    decreases sts.len() - from,
{
    if from >= sts.len() {
        assert(classify_spec(status_at(sts, sts.len() as int)) == Some(e));
    } else if sts[from].busy {
        lemma_idle_outcome_error(sts, from + 1, e);
        let si = choose|si: int|
            from + 1 <= si <= sts.len() && classify_spec(#[trigger] status_at(sts, si)) == Some(e);
        assert(from <= si <= sts.len() && classify_spec(status_at(sts, si)) == Some(e));
    } else {
        match classify_spec(sts[from]) {
            Some(_) => {
                assert(classify_spec(status_at(sts, from)) == Some(e));
            },
            None => {
                lemma_idle_outcome_error(sts, from + 1, e);
                let si = choose|si: int|
                    from + 1 <= si <= sts.len() && classify_spec(#[trigger] status_at(sts, si))
                        == Some(e);
                assert(from <= si <= sts.len() && classify_spec(status_at(sts, si)) == Some(e));
            },
        }
    }
}

/// A bus-idle wait never moves the poll cursor backwards, nor past the
/// script's end.
pub proof fn lemma_idle_outcome_cursor(sts: Seq<BusStatus>, from: int)
    requires
        0 <= from <= sts.len(),
    ensures
        from <= idle_outcome(sts, from).1 <= sts.len(),
    decreases sts.len() - from,
{
    if from >= sts.len() {
    } else if sts[from].busy {
        lemma_idle_outcome_cursor(sts, from + 1);
    } else {
        match classify_spec(sts[from]) {
            Some(_) => {
            },
            None => {
                if sts[from].bus_busy {
                    lemma_idle_outcome_cursor(sts, from + 1);
                }
            },
        }
    }
}

/// An error from a completion wait was classified from some settled status
/// at or after the wait's start.
pub proof fn lemma_wait_outcome_error(sts: Seq<BusStatus>, from: int, e: ErrorOutcome)
    requires
        0 <= from <= sts.len(),
        wait_outcome(sts, from).0 == Some(e),
    ensures
        exists|si: int|
            from <= si <= sts.len() && classify_spec(#[trigger] status_at(sts, si)) == Some(e),
{
    lemma_settle_index(sts, from);
    assert(classify_spec(status_at(sts, settle_index(sts, from))) == Some(e));
}

/// A bus-idle wait started at the settle point of a busy-wait unfolds to
/// the settled status's own case.
proof fn lemma_idle_outcome_skip(sts: Seq<BusStatus>, from: int)
    requires
        0 <= from <= sts.len(),
    ensures
        ({
            let si = settle_index(sts, from);
            &&& (si == sts.len() ==> idle_outcome(sts, from) == (
                Err::<(), ErrorOutcome>(ErrorOutcome::Timeout),
                sts.len() as int,
            ))
            &&& (si < sts.len() ==> idle_outcome(sts, from) == (match classify_spec(sts[si]) {
                Some(e) => (Err::<(), ErrorOutcome>(e), si + 1),
                None => if !sts[si].bus_busy {
                    (Ok::<(), ErrorOutcome>(()), si + 1)
                } else {
                    idle_outcome(sts, si + 1)
                },
            }))
        }),
    decreases sts.len() - from,
{
    if from >= sts.len() {
    } else if sts[from].busy {
        lemma_idle_outcome_skip(sts, from + 1);
    } else {
    }
}

/// Classifies a settled status; on a NACK outcome first issues a STOP
/// command so the bus is left idle and reusable.
fn handle_settled(bus: &mut RegisterFile, st: BusStatus) -> (r: Result<(), ErrorOutcome>)
    requires
        old(bus).wf(),
    ensures
        final(bus).wf(),
        r == (match classify_spec(st) {
            Some(e) => Err::<(), ErrorOutcome>(e),
            None => Ok::<(), ErrorOutcome>(()),
        }),
        final(bus).logged(*old(bus), nack_stop_suffix(r)),
{
    match classify(&st) {
        Some(e) => {
            match e {
                ErrorOutcome::NoAcknowledge(_) => {
                    let sc = BusCommand { start: false, run: false, stop: true, ack: false };
                    bus.write_command(sc);
                },
                _ => {
                    assert(bus.log@ == old(bus).log@ + Seq::<RegisterAccess>::empty());
                },
            }
            Err(e)
        },
        None => {
            assert(bus.log@ == old(bus).log@ + Seq::<RegisterAccess>::empty());
            Ok(())
        },
    }
}

/// Polls until the controller settles with the bus itself released:
/// repeated busy-waits, each classified, until one settles idle or an
/// error is classified first. On a NACK outcome a STOP command is issued
/// before the error is returned. Used before the first START of a
/// transaction and, through `execute`, after its STOP.
pub fn await_bus_idle(bus: &mut RegisterFile) -> (r: Result<(), ErrorOutcome>)
    requires
        old(bus).wf(),
    ensures
        final(bus).wf(),
        r == idle_outcome(old(bus).statuses@, old(bus).status_cursor as int).0,
        final(bus).status_cursor as int == idle_outcome(
            old(bus).statuses@,
            old(bus).status_cursor as int,
        ).1,
        final(bus).log@ == old(bus).log@ + nack_stop_suffix(r),
        final(bus).statuses@ == old(bus).statuses@,
        final(bus).incoming@ == old(bus).incoming@,
        final(bus).incoming_cursor == old(bus).incoming_cursor,
        final(bus).watchdog_budget == WATCHDOG_BUDGET,
{
    let ghost sts = bus.statuses@;
    let ghost c0 = bus.status_cursor as int;
    loop
        invariant
            bus.wf(),
            sts == old(bus).statuses@,
            c0 == old(bus).status_cursor as int,
            bus.statuses@ == sts,
            c0 <= bus.status_cursor as int <= sts.len(),
            idle_outcome(sts, bus.status_cursor as int) == idle_outcome(sts, c0),
            bus.log@ == old(bus).log@,
            bus.incoming@ == old(bus).incoming@,
            bus.incoming_cursor == old(bus).incoming_cursor,
        decreases sts.len() - bus.status_cursor,
    {
        let ghost before = bus.status_cursor as int;
        proof {
            lemma_settle_index(sts, before);
            lemma_idle_outcome_skip(sts, before);
        }
        let st = wait_for_completion(bus);
        let r = handle_settled(bus, st);
        match r {
            Err(e) => {
                return Err(e);
            },
            Ok(()) => {
                if !st.bus_busy {
                    return Ok(());
                }
            },
        }
    }
}

/// Issues one elementary bus command and polls it to completion, bounded by
/// the watchdog; the settled status is classified, and a NACK outcome is
/// followed by a STOP command before the error returns. When
/// `wait_bus_idle_after` is set and the command completed cleanly, further
/// polls follow until the bus itself is released.
pub fn execute(bus: &mut RegisterFile, command: BusCommand, wait_bus_idle_after: bool) -> (r:
    Result<(), ErrorOutcome>)
    requires
        old(bus).wf(),
    ensures
        final(bus).wf(),
        r == command_outcome(
            old(bus).statuses@,
            old(bus).status_cursor as int,
            wait_bus_idle_after,
        ).0,
        final(bus).status_cursor as int == command_outcome(
            old(bus).statuses@,
            old(bus).status_cursor as int,
            wait_bus_idle_after,
        ).1,
        final(bus).log@ == old(bus).log@ + seq![RegisterAccess::Command(command)] + nack_stop_suffix(r),
        final(bus).statuses@ == old(bus).statuses@,
        final(bus).incoming@ == old(bus).incoming@,
        final(bus).incoming_cursor == old(bus).incoming_cursor,
        final(bus).watchdog_budget == WATCHDOG_BUDGET,
{
    bus.write_command(command);
    let st = wait_for_completion(bus);
    let r = handle_settled(bus, st);
    match r {
        Err(e) => Err(e),
        Ok(()) => {
            if wait_bus_idle_after {
                await_bus_idle(bus)
            } else {
                assert(bus.log@ == old(bus).log@ + seq![RegisterAccess::Command(command)]
                    + Seq::<RegisterAccess>::empty());
                Ok(())
            }
        },
    }
}

} // verus!
