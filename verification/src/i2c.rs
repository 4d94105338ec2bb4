//! The I2C master-mode transaction engine: sequencing an ordered list of
//! read and write operations into elementary bus cycles, deciding START,
//! repeated-START, STOP and per-byte acknowledgment placement, and running
//! those cycles against the controller's register interface.

use vstd::prelude::*;

use crate::registers::{
    await_bus_idle, clean_from, command_outcome, execute, idle_outcome, incoming_at,
    lemma_idle_outcome_cursor, lemma_idle_outcome_error, lemma_settle_index,
    lemma_wait_outcome_error, nack_stop_suffix, settle_index, status_at, wait_outcome, BusCommand,
    RegisterAccess, RegisterFile, WATCHDOG_BUDGET,
};
use crate::status::{classify_spec, ErrorOutcome};

verus! {

/// One operation of a transaction: bytes to shift out, or a buffer to fill.
/// A read buffer's length says how many bytes to read; its contents are
/// replaced only as the engine's contract states.
#[derive(Clone, Debug, PartialEq, Eq)]
pub enum Operation {
    /// Send the bytes to the device.
    Write(Vec<u8>),
    /// Fill the buffer from the device.
    Read(Vec<u8>),
}

/// Whether the operation transfers from the device to the master.
pub open spec fn op_is_read(op: Operation) -> bool {
    match op {
        Operation::Read(_) => true,
        Operation::Write(_) => false,
    }
}

/// The operation's byte buffer: the bytes to send, or the buffer to fill.
pub open spec fn op_bytes(op: Operation) -> Seq<u8> {
    match op {
        Operation::Write(bytes) => bytes@,
        Operation::Read(buffer) => buffer@,
    }
}

/// How many bytes the operation transfers.
pub open spec fn op_len(op: Operation) -> nat {
    op_bytes(op).len()
}

impl Operation {
    /// Whether this operation transfers from the device to the master.
    pub fn is_read(&self) -> (r: bool)
        ensures
            r == op_is_read(*self),
    {
        match self {
            Operation::Read(_) => true,
            Operation::Write(_) => false,
        }
    }

    /// How many bytes this operation transfers.
    pub fn length(&self) -> (n: usize)
        ensures
            n == op_len(*self),
    {
        match self {
            Operation::Write(bytes) => bytes.len(),
            Operation::Read(buffer) => buffer.len(),
        }
    }

    /// The operation's `j`th byte.
    pub fn byte_at(&self, j: usize) -> (b: u8)
        requires
            j < op_len(*self),
        ensures
            b == op_bytes(*self)[j as int],
    {
        match self {
            Operation::Write(bytes) => bytes[j],
            Operation::Read(buffer) => buffer[j],
        }
    }
}

/// How many bytes the first `i` operations transfer together.
pub open spec fn bytes_upto(ops: Seq<Operation>, i: int) -> nat
    decreases i,
{
    if i <= 0 {
        0
    } else {
        bytes_upto(ops, i - 1) + op_len(ops[i - 1])
    }
}

/// How many bytes the whole transaction transfers.
pub open spec fn total_bytes(ops: Seq<Operation>) -> nat {
    bytes_upto(ops, ops.len() as int)
}

/// How many bytes the read operations among the first `i` operations
/// transfer together.
pub open spec fn read_bytes_upto(ops: Seq<Operation>, i: int) -> nat
    decreases i,
{
    if i <= 0 {
        0
    } else {
        read_bytes_upto(ops, i - 1) + if op_is_read(ops[i - 1]) {
            op_len(ops[i - 1])
        } else {
            0
        }
    }
}

/// The byte counts of operation prefixes never shrink.
pub proof fn lemma_bytes_upto_le(ops: Seq<Operation>, i: int, m: int)
    requires
        0 <= i <= m,
    ensures
        bytes_upto(ops, i) <= bytes_upto(ops, m),
    decreases m - i,
{
    if i < m {
        lemma_bytes_upto_le(ops, i + 1, m);
    }
}

/// The address phase of a bus cycle: the 7-bit target address and the
/// direction bit written to the address register.
#[derive(Clone, Copy, Debug, PartialEq, Eq, Structural)]
pub struct AddressPhase {
    /// The 7-bit target address.
    pub address: u8,
    /// The direction bit: set for a read.
    pub read: bool,
}

/// One planned elementary bus cycle: the register writes it makes and
/// whether a byte is read back afterwards.
#[derive(Clone, Copy, Debug, PartialEq, Eq)]
pub struct Cycle {
    /// The address-register write opening a run of same-direction
    /// operations, if this cycle opens one.
    pub address_phase: Option<AddressPhase>,
    /// The byte loaded into the data register, for a write cycle.
    pub data_out: Option<u8>,
    /// The strobe bits written to the command register.
    pub command: BusCommand,
    /// Whether the data register is read back after this cycle completes.
    pub is_read: bool,
}

/// Whether byte `j` of operation `i` opens a run: the transaction's very
/// first byte, or the first byte after a direction change.
pub open spec fn run_starts_at(ops: Seq<Operation>, i: int, j: int) -> bool {
    j == 0 && (i == 0 || op_is_read(ops[i - 1]) != op_is_read(ops[i]))
}

/// Whether byte `j` of operation `i` closes a run: its operation's last
/// byte, when the next operation changes direction or none follows.
pub open spec fn run_ends_after(ops: Seq<Operation>, i: int, j: int) -> bool {
    j == op_len(ops[i]) - 1 && (i == ops.len() - 1 || op_is_read(ops[i + 1]) != op_is_read(ops[i]))
}

/// Whether byte `j` of operation `i` is the transaction's globally final
/// byte.
pub open spec fn final_byte_at(ops: Seq<Operation>, i: int, j: int) -> bool {
    i == ops.len() - 1 && j == op_len(ops[i]) - 1
}

/// The elementary cycle for byte `j` of operation `i`: an address phase and
/// a START exactly where a run opens, STOP exactly on the final byte, and,
/// for reads, ACK on every byte except a run's last (the master releases
/// the device before a repeated START or STOP).
pub open spec fn cycle_at(address: u8, ops: Seq<Operation>, i: int, j: int) -> Cycle {
    let read = op_is_read(ops[i]);
    Cycle {
        address_phase: if run_starts_at(ops, i, j) {
            Some(AddressPhase { address, read })
        } else {
            None
        },
        data_out: if read {
            None
        } else {
            Some(op_bytes(ops[i])[j])
        },
        command: BusCommand {
            start: run_starts_at(ops, i, j),
            run: true,
            stop: final_byte_at(ops, i, j),
            ack: read && !run_ends_after(ops, i, j),
        },
        is_read: read,
    }
}

/// The cycles of operation `i`, one per byte.
pub open spec fn op_cycles(address: u8, ops: Seq<Operation>, i: int) -> Seq<Cycle> {
    Seq::new(op_len(ops[i]), |j: int| cycle_at(address, ops, i, j))
}

/// The cycles of the first `i` operations, in issue order.
pub open spec fn plan_upto(address: u8, ops: Seq<Operation>, i: int) -> Seq<Cycle>
    decreases i,
{
    if i <= 0 {
        Seq::empty()
    } else {
        plan_upto(address, ops, i - 1) + op_cycles(address, ops, i - 1)
    }
}

/// The complete cycle sequence of a transaction: what the engine issues on
/// an error-free run.
pub open spec fn plan_spec(address: u8, ops: Seq<Operation>) -> Seq<Cycle> {
    plan_upto(address, ops, ops.len() as int)
}

/// The register writes a cycle makes before its command: the address
/// phase where a run opens, and the outgoing byte for a write.
pub open spec fn cycle_setup_log(c: Cycle) -> Seq<RegisterAccess> {
    (match c.address_phase {
        Some(a) => seq![RegisterAccess::Address { address: a.address, read: a.read }],
        None => Seq::empty(),
    }) + (match c.data_out {
        Some(b) => seq![RegisterAccess::DataOut(b)],
        None => Seq::empty(),
    })
}

/// The register writes of one cycle: its setup writes, then the command.
pub open spec fn cycle_log(c: Cycle) -> Seq<RegisterAccess> {
    cycle_setup_log(c) + seq![RegisterAccess::Command(c.command)]
}

/// The register writes of the first `j` cycles of operation `i`.
pub open spec fn op_log_upto(address: u8, ops: Seq<Operation>, i: int, j: int) -> Seq<
    RegisterAccess,
>
    decreases j,
{
    if j <= 0 {
        Seq::empty()
    } else {
        op_log_upto(address, ops, i, j - 1) + cycle_log(cycle_at(address, ops, i, j - 1))
    }
}

/// The register writes of the first `i` operations.
pub open spec fn log_upto(address: u8, ops: Seq<Operation>, i: int) -> Seq<RegisterAccess>
    decreases i,
{
    if i <= 0 {
        Seq::empty()
    } else {
        log_upto(address, ops, i - 1) + op_log_upto(
            address,
            ops,
            i - 1,
            op_len(ops[i - 1]) as int,
        )
    }
}

/// Every register write of an error-free transaction, in issue order.
pub open spec fn success_log(address: u8, ops: Seq<Operation>) -> Seq<RegisterAccess> {
    log_upto(address, ops, ops.len() as int)
}

/// The register writes of operation `i` from its `j`th cycle on.
pub open spec fn op_log_from(address: u8, ops: Seq<Operation>, i: int, j: int) -> Seq<
    RegisterAccess,
>
    decreases op_len(ops[i]) - j,
{
    if j < 0 || j >= op_len(ops[i]) {
        Seq::empty()
    } else {
        cycle_log(cycle_at(address, ops, i, j)) + op_log_from(address, ops, i, j + 1)
    }
}

/// The register writes of the operations from `i` on.
pub open spec fn log_from(address: u8, ops: Seq<Operation>, i: int) -> Seq<RegisterAccess>
    decreases ops.len() - i,
{
    if i < 0 || i >= ops.len() {
        Seq::empty()
    } else {
        op_log_from(address, ops, i, 0) + log_from(address, ops, i + 1)
    }
}

/// An operation's log splits at any of its cycles.
proof fn lemma_op_log_split(address: u8, ops: Seq<Operation>, i: int, j: int)
    requires
        0 <= i < ops.len(),
        0 <= j <= op_len(ops[i]),
    ensures
        op_log_upto(address, ops, i, op_len(ops[i]) as int) == op_log_upto(address, ops, i, j)
            + op_log_from(address, ops, i, j),
    decreases op_len(ops[i]) - j,
{
    if j == op_len(ops[i]) {
        assert(op_log_from(address, ops, i, j) == Seq::<RegisterAccess>::empty());
        assert(op_log_upto(address, ops, i, j) + Seq::<RegisterAccess>::empty() =~= op_log_upto(
            address,
            ops,
            i,
            j,
        ));
    } else {
        lemma_op_log_split(address, ops, i, j + 1);
        assert(op_log_upto(address, ops, i, j + 1) == op_log_upto(address, ops, i, j) + cycle_log(
            cycle_at(address, ops, i, j),
        ));
        assert(op_log_upto(address, ops, i, j) + cycle_log(cycle_at(address, ops, i, j))
            + op_log_from(address, ops, i, j + 1) =~= op_log_upto(address, ops, i, j) + (cycle_log(
            cycle_at(address, ops, i, j),
        ) + op_log_from(address, ops, i, j + 1)));
    }
}

/// The whole success log splits at any operation boundary.
proof fn lemma_log_split(address: u8, ops: Seq<Operation>, i: int)
    requires
        0 <= i <= ops.len(),
    ensures
        success_log(address, ops) == log_upto(address, ops, i) + log_from(address, ops, i),
    decreases ops.len() - i,
{
    if i == ops.len() {
        assert(log_from(address, ops, i) == Seq::<RegisterAccess>::empty());
        assert(log_upto(address, ops, i) + Seq::<RegisterAccess>::empty() =~= log_upto(
            address,
            ops,
            i,
        ));
    } else {
        lemma_log_split(address, ops, i + 1);
        lemma_op_log_split(address, ops, i, 0);
        assert(op_log_upto(address, ops, i, 0) + op_log_from(address, ops, i, 0) =~= op_log_from(
            address,
            ops,
            i,
            0,
        ));
        assert(log_upto(address, ops, i + 1) == log_upto(address, ops, i) + op_log_upto(
            address,
            ops,
            i,
            op_len(ops[i]) as int,
        ));
        assert(log_upto(address, ops, i) + op_log_from(address, ops, i, 0) + log_from(
            address,
            ops,
            i + 1,
        ) =~= log_upto(address, ops, i) + (op_log_from(address, ops, i, 0) + log_from(
            address,
            ops,
            i + 1,
        )));
    }
}

/// The success log decomposes around cycle `(i, j)`: everything already
/// issued, the current cycle's writes, and everything still to come.
pub proof fn lemma_log_decomposition(address: u8, ops: Seq<Operation>, i: int, j: int)
    requires
        0 <= i < ops.len(),
        0 <= j < op_len(ops[i]),
    ensures
        success_log(address, ops) == log_upto(address, ops, i) + op_log_upto(address, ops, i, j)
            + cycle_log(cycle_at(address, ops, i, j)) + (op_log_from(address, ops, i, j + 1)
            + log_from(address, ops, i + 1)),
{
    lemma_log_split(address, ops, i);
    lemma_op_log_split(address, ops, i, 0);
    lemma_op_log_split(address, ops, i, j);
    let lu = log_upto(address, ops, i);
    let bu = op_log_upto(address, ops, i, j);
    let cl = cycle_log(cycle_at(address, ops, i, j));
    let fr = op_log_from(address, ops, i, j + 1);
    let lf = log_from(address, ops, i + 1);
    let full = op_log_upto(address, ops, i, op_len(ops[i]) as int);
    assert(op_log_upto(address, ops, i, 0) == Seq::<RegisterAccess>::empty());
    assert(Seq::<RegisterAccess>::empty() + op_log_from(address, ops, i, 0) =~= op_log_from(
        address,
        ops,
        i,
        0,
    ));
    assert(full =~= op_log_from(address, ops, i, 0));
    assert(log_from(address, ops, i) == op_log_from(address, ops, i, 0) + lf);
    assert(op_log_from(address, ops, i, j) == cl + fr);
    assert(full == bu + op_log_from(address, ops, i, j));
    assert(success_log(address, ops) == lu + (full + lf));
    assert(lu + (full + lf) =~= lu + bu + cl + (fr + lf));
}

/// A prefix of the success log: everything issued before cycle `(i, j)`
/// plus the first `t` writes of that cycle.
pub proof fn lemma_partial_cycle_prefix(address: u8, ops: Seq<Operation>, i: int, j: int, t: int)
    requires
        0 <= i < ops.len(),
        0 <= j < op_len(ops[i]),
        0 <= t <= cycle_log(cycle_at(address, ops, i, j)).len(),
    ensures
        ({
            let built = log_upto(address, ops, i) + op_log_upto(address, ops, i, j);
            &&& built.len() + t <= success_log(address, ops).len()
            &&& success_log(address, ops).take(built.len() + t) == built + cycle_log(
                cycle_at(address, ops, i, j),
            ).take(t)
        }),
{
    lemma_log_decomposition(address, ops, i, j);
    let built = log_upto(address, ops, i) + op_log_upto(address, ops, i, j);
    let cl = cycle_log(cycle_at(address, ops, i, j));
    let rest = op_log_from(address, ops, i, j + 1) + log_from(address, ops, i + 1);
    assert(success_log(address, ops).take(built.len() + t) =~= built + cl.take(t));
}

/// Computes the complete cycle sequence of a transaction: one cycle per
/// byte, in operation order, with START, STOP and ACK placed as
/// `plan_spec` states. The engine issues exactly these cycles on an
/// error-free run; an unverified shell may issue them against the real
/// memory-mapped registers.
pub fn plan_cycles(address: u8, operations: &Vec<Operation>) -> (r: Vec<Cycle>)
    ensures
        r@ == plan_spec(address, operations@),
{
    let n = operations.len();
    let mut cycles: Vec<Cycle> = Vec::new();
    let mut i: usize = 0;
    while i < n
        invariant
            n == operations@.len(),
            i <= n,
            cycles@ == plan_upto(address, operations@, i as int),
        decreases n - i,
    {
        let read = operations[i].is_read();
        let len_i = operations[i].length();
        let op_starts = i == 0 || operations[i - 1].is_read() != read;
        let next_differs = i + 1 == n || operations[i + 1].is_read() != read;
        let mut j: usize = 0;
        while j < len_i
            invariant
                n == operations@.len(),
                i < n,
                j <= len_i,
                len_i == op_len(operations@[i as int]),
                read == op_is_read(operations@[i as int]),
                op_starts == (i == 0 || op_is_read(operations@[i as int - 1]) != read),
                next_differs == (i + 1 == n || op_is_read(operations@[i as int + 1]) != read),
                cycles@ == plan_upto(address, operations@, i as int) + Seq::new(
                    j as nat,
                    |jj: int| cycle_at(address, operations@, i as int, jj),
                ),
            decreases len_i - j,
    {
        let starts = j == 0 && op_starts;
        let ends_run = j + 1 == len_i && next_differs;
        let final_byte = i + 1 == n && j + 1 == len_i;
        let data: Option<u8> = if read {
            None
        } else {
            Some(operations[i].byte_at(j))
        };
        let c = Cycle {
            address_phase: if starts {
                Some(AddressPhase { address, read })
            } else {
                None
            },
            data_out: data,
            command: BusCommand {
                start: starts,
                run: true,
                stop: final_byte,
                ack: read && !ends_run,
            },
            is_read: read,
        };
        proof {
            assert(c == cycle_at(address, operations@, i as int, j as int));
        }
        cycles.push(c);
        proof {
            assert(cycles@ =~= plan_upto(address, operations@, i as int) + Seq::new(
                (j + 1) as nat,
                |jj: int| cycle_at(address, operations@, i as int, jj),
            ));
        }
        j += 1;
    }
        proof {
            assert(Seq::new(len_i as nat, |jj: int| cycle_at(address, operations@, i as int, jj))
                =~= op_cycles(address, operations@, i as int));
        }
        i += 1;
    }
    cycles
}

/// The bytes a read operation receives: `count` bytes of the incoming
/// script from `start` on.
pub open spec fn read_fill(inc: Seq<u8>, start: int, count: nat) -> Seq<u8> {
    Seq::new(count, |j: int| incoming_at(inc, start + j))
}

/// The smaller of two values: where a script cursor ends up when it cannot
/// pass the script's end.
pub open spec fn cap_int(a: int, b: int) -> int {
    if a <= b {
        a
    } else {
        b
    }
}

/// The timing-register divisor for a target bus frequency from a given
/// system clock: the clock over twenty times the frequency, rounded to
/// nearest, less one.
pub open spec fn timing_divisor_spec(sysclk: int, freq: int) -> int {
    (sysclk + 10 * freq) / (20 * freq) - 1
}

/// Computes the timing-register divisor. The bounds keep the divisor
/// within its eight-bit register.
pub fn timing_divisor(sysclk: u32, freq: u32) -> (d: u8)
    requires
        freq >= 1,
        10 * freq <= sysclk,
        timing_divisor_spec(sysclk as int, freq as int) <= 255,
    ensures
        d as int == timing_divisor_spec(sysclk as int, freq as int),
{
    let num: u64 = sysclk as u64 + 10 * (freq as u64);
    let den: u64 = 20 * (freq as u64);
    assert(num / den >= 1) by (nonlinear_arith)
        requires
            num >= den,
            den > 0,
    ;
    let q: u64 = num / den;
    (q - 1) as u8
}

/// The first I2C controller instance, as a zero-sized ownership token.
pub struct I2C0;

/// The second I2C controller instance.
pub struct I2C1;

/// The third I2C controller instance.
pub struct I2C2;

/// The fourth I2C controller instance.
pub struct I2C3;

/// A pin that can carry the given controller's clock line.
pub trait SclPin<BUS> {}

/// A pin that can carry the given controller's data line.
pub trait SdaPin<BUS> {}

/// Port B pin 2 in its I2C alternate function.
pub struct PB2;

/// Port B pin 3 in its I2C alternate function.
pub struct PB3;

/// Port G pin 0 in its I2C alternate function.
pub struct PG0;

/// Port G pin 1 in its I2C alternate function.
pub struct PG1;

/// Port L pin 0 in its I2C alternate function.
pub struct PL0;

/// Port L pin 1 in its I2C alternate function.
pub struct PL1;

/// Port N pin 4 in its I2C alternate function.
pub struct PN4;

/// Port N pin 5 in its I2C alternate function.
pub struct PN5;

/// Port P pin 5 in its I2C alternate function.
pub struct PP5;

impl SclPin<I2C0> for PB2 {

}

impl SdaPin<I2C0> for PB3 {

}

impl SclPin<I2C1> for PG0 {

}

impl SdaPin<I2C1> for PG1 {

}

impl SclPin<I2C2> for PL1 {

}

impl SclPin<I2C2> for PP5 {

}

impl SclPin<I2C2> for PN5 {

}

impl SdaPin<I2C2> for PL0 {

}

impl SdaPin<I2C2> for PN4 {

}

/// An I2C peripheral operating in master mode: the controller instance,
/// the pins bound to it, and its register interface.
pub struct I2C<BUS, PINS> {
    /// The bus controller instance.
    pub i2c: BUS,
    /// The pins bound to the controller.
    pub pins: PINS,
    /// The controller's register interface.
    pub regs: RegisterFile,
}

impl<BUS, SCL: SclPin<BUS>, SDA: SdaPin<BUS>> I2C<BUS, (SCL, SDA)> {
    /// Configures the controller for master mode on the given pins: enables
    /// the master function and programs the clock divisor for the target
    /// frequency. Which pins may bind to which controller is fixed by the
    /// `SclPin` and `SdaPin` wiring tables.
    pub fn new(i2c: BUS, pins: (SCL, SDA), freq: u32, sysclk: u32, regs: RegisterFile) -> (r: I2C<
        BUS,
        (SCL, SDA),
    >)
        requires
            regs.wf(),
            freq >= 1,
            10 * freq <= sysclk,
            timing_divisor_spec(sysclk as int, freq as int) <= 255,
        ensures
            r.i2c == i2c,
            r.pins == pins,
            r.regs.wf(),
            r.regs.logged(
                regs,
                seq![
                    RegisterAccess::MasterEnable,
                    RegisterAccess::TimingDivisor(
                        timing_divisor_spec(sysclk as int, freq as int) as u8,
                    ),
                ],
            ),
    {
        let ghost regs0 = regs;
        let divisor = timing_divisor(sysclk, freq);
        let mut rf = regs;
        rf.write_master_enable();
        rf.write_timing_divisor(divisor);
        proof {
            assert(rf.log@ =~= regs0.log@ + seq![
                RegisterAccess::MasterEnable,
                RegisterAccess::TimingDivisor(
                    timing_divisor_spec(sysclk as int, freq as int) as u8,
                ),
            ]);
        }
        I2C { i2c, pins, regs: rf }
    }

    /// Releases the controller and its pins.
    pub fn free(self) -> (r: (BUS, (SCL, SDA)))
        ensures
            r.0 == self.i2c,
            r.1 == self.pins,
    {
        (self.i2c, self.pins)
    }
}

impl<BUS, PINS> I2C<BUS, PINS> {
    /// Executes an ordered sequence of operations as one bus-level unit: a
    /// single START..STOP span with a repeated START at every direction
    /// change, issuing exactly the cycles of `plan_spec`. An empty sequence
    /// succeeds without touching a register; a zero-length operation is
    /// rejected before any register access. Any classified error aborts the
    /// transaction at once -- after a NACK the bus is first released by a
    /// STOP command -- and on success every read buffer is filled, in issue
    /// order, from the incoming script.
    #[verifier::rlimit(100)]
    pub fn transaction(&mut self, address: u8, operations: &mut Vec<Operation>) -> (r: Result<
        (),
        ErrorOutcome,
    >)
        requires
            old(self).regs.wf(),
            address < 128,
        ensures
            final(self).regs.wf(),
            final(self).i2c == old(self).i2c,
            final(self).pins == old(self).pins,
            final(self).regs.statuses@ == old(self).regs.statuses@,
            final(self).regs.incoming@ == old(self).regs.incoming@,
            old(self).regs.status_cursor <= final(self).regs.status_cursor <= final(self).regs.statuses@.len(),
            final(operations)@.len() == old(operations)@.len(),
            forall|k: int|
                0 <= k < old(operations)@.len() ==> op_is_read(#[trigger] final(operations)@[k])
                    == op_is_read(old(operations)@[k]) && op_len(final(operations)@[k]) == op_len(
                    old(operations)@[k],
                ),
            forall|k: int|
                0 <= k < old(operations)@.len() && !op_is_read(old(operations)@[k])
                    ==> #[trigger] final(operations)@[k] == old(operations)@[k],
            old(operations)@.len() == 0 ==> r == Ok::<(), ErrorOutcome>(()) && final(self).regs
                == old(self).regs && final(operations)@ == old(operations)@,
            (r == Err::<(), ErrorOutcome>(ErrorOutcome::InvalidArgument) <==> (old(operations)@.len() > 0 && exists|k: int|
                0 <= k < old(operations)@.len() && op_len(#[trigger] old(operations)@[k]) == 0)),
            r == Err::<(), ErrorOutcome>(ErrorOutcome::InvalidArgument) ==> final(self).regs
                == old(self).regs && final(operations)@ == old(operations)@,
            (r == Ok::<(), ErrorOutcome>(()) && old(operations)@.len() > 0) ==> ({
                &&& final(self).regs.log@ == old(self).regs.log@ + success_log(
                    address,
                    old(operations)@,
                )
                &&& final(self).regs.watchdog_budget == WATCHDOG_BUDGET
                &&& final(self).regs.incoming_cursor as int == cap_int(
                    old(self).regs.incoming_cursor + read_bytes_upto(
                        old(operations)@,
                        old(operations)@.len() as int,
                    ),
                    old(self).regs.incoming@.len() as int,
                )
                &&& forall|k: int|
                    0 <= k < old(operations)@.len() && op_is_read(old(operations)@[k])
                        ==> #[trigger] op_bytes(final(operations)@[k]) == read_fill(
                        old(self).regs.incoming@,
                        old(self).regs.incoming_cursor + read_bytes_upto(old(operations)@, k),
                        op_len(old(operations)@[k]),
                    )
            }),
            r matches Err(e) ==> (e != ErrorOutcome::InvalidArgument ==> ({
                &&& exists|nn: int|
                    0 <= nn <= success_log(address, old(operations)@).len() && final(self).regs.log@ == old(self).regs.log@ + #[trigger] success_log(
                        address,
                        old(operations)@,
                    ).take(nn) + nack_stop_suffix(r)
                &&& exists|si: int|
                    old(self).regs.status_cursor <= si <= old(self).regs.statuses@.len()
                        && classify_spec(
                        #[trigger] status_at(old(self).regs.statuses@, si),
                    ) == Some(e)
            })),
            (old(operations)@.len() > 0 && (forall|k: int|
                0 <= k < old(operations)@.len() ==> op_len(#[trigger] old(operations)@[k]) > 0)
                && clean_from(
                old(self).regs.statuses@,
                old(self).regs.status_cursor as int,
                total_bytes(old(operations)@) + 2,
            )) ==> r == Ok::<(), ErrorOutcome>(()),
    {
        let n = operations.len();
        if n == 0 {
            return Ok(());
        }
        let mut k: usize = 0;
        while k < n
            invariant
                n == operations@.len(),
                operations@ == old(operations)@,
                k <= n,
                1 <= n,
                forall|m: int| 0 <= m < k ==> op_len(#[trigger] operations@[m]) > 0,
                self.regs.wf(),
                self.regs == old(self).regs,
                self.i2c == old(self).i2c,
                self.pins == old(self).pins,
            decreases n - k,
        {
            if operations[k].length() == 0 {
                proof {
                    assert(op_len(old(operations)@[k as int]) == 0);
                }
                return Err(ErrorOutcome::InvalidArgument);
            }
            k += 1;
        }
        let ghost ops0 = operations@;
        let ghost sts0 = self.regs.statuses@;
        let ghost c0 = self.regs.status_cursor as int;
        let ghost inc0 = self.regs.incoming@;
        let ghost icc0 = self.regs.incoming_cursor as int;
        let ghost log0 = self.regs.log@;
        proof {
            assert(log0 + log_upto(address, ops0, 0) =~= log0);
        }
        let mut i: usize = 0;
        let mut prev_read = false;
        while i < n
            invariant
                ops0 == old(operations)@,
                sts0 == old(self).regs.statuses@,
                c0 == old(self).regs.status_cursor as int,
                inc0 == old(self).regs.incoming@,
                icc0 == old(self).regs.incoming_cursor as int,
                log0 == old(self).regs.log@,
                n == ops0.len(),
                1 <= n,
                i <= n,
                address < 128,
                forall|m: int| 0 <= m < n ==> op_len(#[trigger] ops0[m]) > 0,
                operations@.len() == n,
                forall|m: int| i <= m < n ==> #[trigger] operations@[m] == ops0[m],
                forall|m: int|
                    0 <= m < i ==> op_is_read(#[trigger] operations@[m]) == op_is_read(ops0[m])
                        && op_len(operations@[m]) == op_len(ops0[m]),
                forall|m: int|
                    0 <= m < i && !op_is_read(ops0[m]) ==> #[trigger] operations@[m] == ops0[m],
                forall|m: int|
                    0 <= m < i && op_is_read(ops0[m]) ==> #[trigger] op_bytes(operations@[m])
                        == read_fill(inc0, icc0 + read_bytes_upto(ops0, m), op_len(ops0[m])),
                self.regs.wf(),
                self.regs.statuses@ == sts0,
                self.regs.incoming@ == inc0,
                self.regs.log@ == log0 + log_upto(address, ops0, i as int),
                self.regs.incoming_cursor as int == cap_int(
                    icc0 + read_bytes_upto(ops0, i as int),
                    inc0.len() as int,
                ),
                c0 <= self.regs.status_cursor as int <= sts0.len(),
                i == 0 ==> self.regs.status_cursor as int == c0,
                i > 0 ==> self.regs.watchdog_budget == WATCHDOG_BUDGET,
                i > 0 ==> prev_read == op_is_read(ops0[i as int - 1]),
                self.i2c == old(self).i2c,
                self.pins == old(self).pins,
                clean_from(sts0, c0, total_bytes(ops0) + 2) ==> self.regs.status_cursor as int
                    == c0 + if i == 0 {
                    0int
                } else {
                    1 + bytes_upto(ops0, i as int) as int
                },
            decreases n - i,
        {
            let read = operations[i].is_read();
            let len_i = operations[i].length();
            let op_starts = if i == 0 {
                true
            } else {
                prev_read != read
            };
            let next_differs = if i + 1 == n {
                true
            } else {
                operations[i + 1].is_read() != read
            };
            let mut buf: Vec<u8> = Vec::new();
            let mut j: usize = 0;
            proof {
                assert(self.regs.log@ =~= log0 + log_upto(address, ops0, i as int) + op_log_upto(
                    address,
                    ops0,
                    i as int,
                    0,
                ));
                assert(buf@ =~= read_fill(inc0, icc0 + read_bytes_upto(ops0, i as int), 0));
            }
            while j < len_i
                invariant
                    ops0 == old(operations)@,
                    sts0 == old(self).regs.statuses@,
                    c0 == old(self).regs.status_cursor as int,
                    inc0 == old(self).regs.incoming@,
                    icc0 == old(self).regs.incoming_cursor as int,
                    log0 == old(self).regs.log@,
                    n == ops0.len(),
                    1 <= n,
                    i < n,
                    j <= len_i,
                    address < 128,
                    forall|m: int| 0 <= m < n ==> op_len(#[trigger] ops0[m]) > 0,
                    operations@.len() == n,
                    forall|m: int| i <= m < n ==> #[trigger] operations@[m] == ops0[m],
                    forall|m: int|
                        0 <= m < i ==> op_is_read(#[trigger] operations@[m]) == op_is_read(ops0[m])
                            && op_len(operations@[m]) == op_len(ops0[m]),
                    forall|m: int|
                        0 <= m < i && !op_is_read(ops0[m]) ==> #[trigger] operations@[m]
                            == ops0[m],
                    forall|m: int|
                        0 <= m < i && op_is_read(ops0[m]) ==> #[trigger] op_bytes(operations@[m])
                            == read_fill(inc0, icc0 + read_bytes_upto(ops0, m), op_len(ops0[m])),
                    read == op_is_read(ops0[i as int]),
                    len_i == op_len(ops0[i as int]),
                    op_starts == (i == 0 || op_is_read(ops0[i as int - 1]) != op_is_read(
                        ops0[i as int],
                    )),
                    next_differs == (i + 1 == n || op_is_read(ops0[i as int + 1]) != op_is_read(
                        ops0[i as int],
                    )),
                    self.regs.wf(),
                    self.regs.statuses@ == sts0,
                    self.regs.incoming@ == inc0,
                    self.regs.log@ == log0 + log_upto(address, ops0, i as int) + op_log_upto(
                        address,
                        ops0,
                        i as int,
                        j as int,
                    ),
                    self.regs.incoming_cursor as int == cap_int(
                        icc0 + read_bytes_upto(ops0, i as int) + if read {
                            j as int
                        } else {
                            0int
                        },
                        inc0.len() as int,
                    ),
                    read ==> buf@ == read_fill(
                        inc0,
                        icc0 + read_bytes_upto(ops0, i as int),
                        j as nat,
                    ),
                    c0 <= self.regs.status_cursor as int <= sts0.len(),
                    i == 0 && j == 0 ==> self.regs.status_cursor as int == c0,
                    i > 0 || j > 0 ==> self.regs.watchdog_budget == WATCHDOG_BUDGET,
                    i > 0 ==> prev_read == op_is_read(ops0[i as int - 1]),
                    self.i2c == old(self).i2c,
                    self.pins == old(self).pins,
                    clean_from(sts0, c0, total_bytes(ops0) + 2) ==> self.regs.status_cursor as int
                        == c0 + if i == 0 && j == 0 {
                        0int
                    } else {
                        1 + bytes_upto(ops0, i as int) as int + j as int
                    },
                decreases len_i - j,
            {
                let starts = j == 0 && op_starts;
                let ends_run = j + 1 == len_i && next_differs;
                let final_byte = i + 1 == n && j + 1 == len_i;
                let ghost c_spec = cycle_at(address, ops0, i as int, j as int);
                proof {
                    assert(starts == run_starts_at(ops0, i as int, j as int));
                    assert(ends_run == run_ends_after(ops0, i as int, j as int));
                    assert(final_byte == final_byte_at(ops0, i as int, j as int));
                }
                if starts {
                    self.regs.write_address(address, read);
                }
                if !read {
                    let b = operations[i].byte_at(j);
                    self.regs.write_data(b);
                }
                proof {
                    assert(self.regs.log@ =~= log0 + log_upto(address, ops0, i as int)
                        + op_log_upto(address, ops0, i as int, j as int) + cycle_setup_log(
                        c_spec,
                    ));
                }
                if i == 0 && j == 0 {
                    let first_wait = await_bus_idle(&mut self.regs);
                    proof {
                        lemma_idle_outcome_cursor(sts0, c0);
                        if clean_from(sts0, c0, total_bytes(ops0) + 2) {
                            assert(sts0[c0].all_clear());
                            assert(classify_spec(sts0[c0]) == None::<ErrorOutcome>);
                            assert(idle_outcome(sts0, c0) == (Ok::<(), ErrorOutcome>(()), c0 + 1));
                        }
                    }
                    match first_wait {
                        Err(e) => {
                            proof {
                                lemma_idle_outcome_error(sts0, c0, e);
                                let si = choose|si: int|
                                    c0 <= si <= sts0.len() && classify_spec(
                                        #[trigger] status_at(sts0, si),
                                    ) == Some(e);
                                assert(old(self).regs.status_cursor <= si <= old(self).regs.statuses@.len() && classify_spec(
                                    status_at(old(self).regs.statuses@, si),
                                ) == Some(e));
                                assert(e != ErrorOutcome::InvalidArgument);
                                let t = cycle_setup_log(c_spec).len() as int;
                                lemma_partial_cycle_prefix(address, ops0, 0, 0, t);
                                assert(cycle_log(c_spec).take(t) =~= cycle_setup_log(c_spec));
                                assert((log_upto(address, ops0, 0) + op_log_upto(
                                    address,
                                    ops0,
                                    0,
                                    0,
                                )).len() == 0);
                                assert(success_log(address, ops0).take(t) =~= cycle_setup_log(
                                    c_spec,
                                ));
                                assert(self.regs.log@ =~= log0 + success_log(address, ops0).take(
                                    t,
                                ) + nack_stop_suffix(Err::<(), ErrorOutcome>(e)));
                                assert(0 <= t <= success_log(address, ops0).len());
                            }
                            return Err(e);
                        },
                        Ok(()) => {
                        },
                    }
                }
                let cmd = BusCommand {
                    start: starts,
                    run: true,
                    stop: final_byte,
                    ack: read && !ends_run,
                };
                let ghost cur_b = self.regs.status_cursor as int;
                proof {
                    assert(cmd == c_spec.command);
                    lemma_settle_index(sts0, cur_b);
                    if clean_from(sts0, c0, total_bytes(ops0) + 2) {
                        assert(bytes_upto(ops0, i as int + 1) == bytes_upto(ops0, i as int)
                            + op_len(ops0[i as int]));
                        lemma_bytes_upto_le(ops0, i as int + 1, n as int);
                        assert(bytes_upto(ops0, i as int) + j < total_bytes(ops0));
                        assert(cur_b == c0 + 1 + bytes_upto(ops0, i as int) + j);
                        assert(sts0[cur_b].all_clear());
                        assert(!status_at(sts0, cur_b).busy);
                        assert(settle_index(sts0, cur_b) == cur_b);
                        assert(classify_spec(sts0[cur_b]) == None::<ErrorOutcome>);
                        assert(wait_outcome(sts0, cur_b) == (None::<ErrorOutcome>, cur_b + 1));
                        assert(command_outcome(sts0, cur_b, false) == (
                            Ok::<(), ErrorOutcome>(()),
                            cur_b + 1,
                        ));
                    }
                }
                let res = execute(&mut self.regs, cmd, false);
                match res {
                    Err(e) => {
                        proof {
                            assert(wait_outcome(sts0, cur_b).0 == Some(e));
                            lemma_wait_outcome_error(sts0, cur_b, e);
                            let si = choose|si: int|
                                cur_b <= si <= sts0.len() && classify_spec(
                                    #[trigger] status_at(sts0, si),
                                ) == Some(e);
                            assert(old(self).regs.status_cursor <= si <= old(self).regs.statuses@.len() && classify_spec(
                                status_at(old(self).regs.statuses@, si),
                            ) == Some(e));
                            assert(e != ErrorOutcome::InvalidArgument);
                            let built = log_upto(address, ops0, i as int) + op_log_upto(
                                address,
                                ops0,
                                i as int,
                                j as int,
                            );
                            let t = cycle_log(c_spec).len() as int;
                            lemma_partial_cycle_prefix(address, ops0, i as int, j as int, t);
                            assert(cycle_log(c_spec).take(t) =~= cycle_log(c_spec));
                            assert(self.regs.log@ =~= log0 + success_log(address, ops0).take(
                                built.len() + t,
                            ) + nack_stop_suffix(Err::<(), ErrorOutcome>(e)));
                            assert(0 <= built.len() + t <= success_log(address, ops0).len());
                        }
                        return Err(e);
                    },
                    Ok(()) => {
                    },
                }
                proof {
                    assert(self.regs.log@ =~= log0 + log_upto(address, ops0, i as int)
                        + op_log_upto(address, ops0, i as int, j as int + 1));
                }
                if read {
                    let b = self.regs.read_data();
                    proof {
                        assert(b == incoming_at(
                            inc0,
                            icc0 + read_bytes_upto(ops0, i as int) + j,
                        ));
                    }
                    buf.push(b);
                    proof {
                        assert(buf@ =~= read_fill(
                            inc0,
                            icc0 + read_bytes_upto(ops0, i as int),
                            (j + 1) as nat,
                        ));
                    }
                }
                j += 1;
            }
            proof {
                assert(self.regs.log@ =~= log0 + log_upto(address, ops0, i as int + 1));
                assert(read_bytes_upto(ops0, i as int + 1) == read_bytes_upto(ops0, i as int)
                    + if op_is_read(ops0[i as int]) {
                    op_len(ops0[i as int])
                } else {
                    0
                });
                assert(bytes_upto(ops0, i as int + 1) == bytes_upto(ops0, i as int) + op_len(
                    ops0[i as int],
                ));
            }
            if read {
                operations[i] = Operation::Read(buf);
            }
            prev_read = read;
            i += 1;
        }
        let ghost cur_f = self.regs.status_cursor as int;
        proof {
            lemma_idle_outcome_cursor(sts0, cur_f);
            if clean_from(sts0, c0, total_bytes(ops0) + 2) {
                assert(cur_f == c0 + 1 + total_bytes(ops0));
                assert(sts0[cur_f].all_clear());
                assert(classify_spec(sts0[cur_f]) == None::<ErrorOutcome>);
                assert(idle_outcome(sts0, cur_f) == (Ok::<(), ErrorOutcome>(()), cur_f + 1));
            }
        }
        let fin = await_bus_idle(&mut self.regs);
        match fin {
            Err(e) => {
                proof {
                    lemma_idle_outcome_error(sts0, cur_f, e);
                    let si = choose|si: int|
                        cur_f <= si <= sts0.len() && classify_spec(
                            #[trigger] status_at(sts0, si),
                        ) == Some(e);
                    assert(old(self).regs.status_cursor <= si <= old(self).regs.statuses@.len()
                        && classify_spec(status_at(old(self).regs.statuses@, si)) == Some(e));
                    assert(e != ErrorOutcome::InvalidArgument);
                    let sl = success_log(address, ops0);
                    assert(sl.take(sl.len() as int) =~= sl);
                    assert(self.regs.log@ =~= log0 + success_log(address, ops0).take(
                        sl.len() as int,
                    ) + nack_stop_suffix(Err::<(), ErrorOutcome>(e)));
                }
                return Err(e);
            },
            Ok(()) => {
            },
        }
        proof {
            assert(self.regs.log@ =~= log0 + success_log(address, ops0));
        }
        Ok(())
    }
}

} // verus!
