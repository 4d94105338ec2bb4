//! General properties of the transaction plan: what an all-write and an
//! all-read transaction put on the bus, stated over every input and proved
//! once and for all.

use vstd::prelude::*;

use crate::i2c::{
    bytes_upto, cycle_at, final_byte_at, op_bytes, op_cycles, op_is_read, op_len, plan_spec,
    plan_upto, run_ends_after, run_starts_at, total_bytes, AddressPhase, Cycle, Operation,
};

verus! {

/// The bytes of the first `i` operations, concatenated in order.
pub open spec fn bytes_flat_upto(ops: Seq<Operation>, i: int) -> Seq<u8>
    decreases i,
{
    if i <= 0 {
        Seq::empty()
    } else {
        bytes_flat_upto(ops, i - 1) + op_bytes(ops[i - 1])
    }
}

/// The bytes of all operations, concatenated in order.
pub open spec fn bytes_flat(ops: Seq<Operation>) -> Seq<u8> {
    bytes_flat_upto(ops, ops.len() as int)
}

/// The data-register outputs of a cycle sequence, one per cycle (zero
/// standing in for a cycle that loads no byte).
pub open spec fn outs_of(cs: Seq<Cycle>) -> Seq<u8> {
    Seq::new(cs.len(), |k: int| match cs[k].data_out {
        Some(b) => b,
        None => 0,
    })
}

/// A plan prefix holds one cycle per byte of the operations it covers.
pub proof fn lemma_plan_upto_len(address: u8, ops: Seq<Operation>, i: int)
    requires
        0 <= i <= ops.len(),
    ensures
        plan_upto(address, ops, i).len() == bytes_upto(ops, i),
    decreases i,
{
    if i > 0 {
        lemma_plan_upto_len(address, ops, i - 1);
    }
}

/// The same, for the concatenated bytes.
pub proof fn lemma_bytes_flat_upto_len(ops: Seq<Operation>, i: int)
    requires
        0 <= i <= ops.len(),
    ensures
        bytes_flat_upto(ops, i).len() == bytes_upto(ops, i),
    decreases i,
{
    if i > 0 {
        lemma_bytes_flat_upto_len(ops, i - 1);
    }
}

/// Prefix byte counts grow by whole operations.
pub proof fn lemma_bytes_upto_le(ops: Seq<Operation>, i: int, m: int)
    requires
        0 <= i <= m,
    ensures
        bytes_upto(ops, i) <= bytes_upto(ops, m),
    decreases m - i,
{
    if i < m {
        lemma_bytes_upto_le(ops, i + 1, m);
    }
}

proof fn lemma_plan_index_helper(address: u8, ops: Seq<Operation>, i: int, j: int, m: int)
    requires
        0 <= i < ops.len(),
        0 <= j < op_len(ops[i]),
        i < m <= ops.len(),
    ensures
        bytes_upto(ops, i) + j < bytes_upto(ops, m),
        plan_upto(address, ops, m)[bytes_upto(ops, i) + j] == cycle_at(address, ops, i, j),
    decreases m,
{
    lemma_plan_upto_len(address, ops, m - 1);
    if m == i + 1 {
        assert(op_cycles(address, ops, i)[j] == cycle_at(address, ops, i, j));
    } else {
        lemma_plan_index_helper(address, ops, i, j, m - 1);
    }
}

/// The cycle of byte `j` of operation `i` stands at flat index
/// `bytes_upto(i) + j` of the plan, and the same index finds the byte in
/// the flat concatenation.
pub proof fn lemma_plan_index(address: u8, ops: Seq<Operation>, i: int, j: int)
    requires
        0 <= i < ops.len(),
        0 <= j < op_len(ops[i]),
    ensures
        plan_spec(address, ops).len() == total_bytes(ops),
        bytes_upto(ops, i) + j < total_bytes(ops),
        plan_spec(address, ops)[bytes_upto(ops, i) + j] == cycle_at(address, ops, i, j),
{
    lemma_plan_upto_len(address, ops, ops.len() as int);
    lemma_plan_index_helper(address, ops, i, j, ops.len() as int);
}

proof fn lemma_bytes_flat_index_helper(ops: Seq<Operation>, i: int, j: int, m: int)
    requires
        0 <= i < ops.len(),
        0 <= j < op_len(ops[i]),
        i < m <= ops.len(),
    ensures
        bytes_upto(ops, i) + j < bytes_upto(ops, m),
        bytes_flat_upto(ops, m)[bytes_upto(ops, i) + j] == op_bytes(ops[i])[j],
    decreases m,
{
    lemma_bytes_flat_upto_len(ops, m - 1);
    if m == i + 1 {
        assert(bytes_upto(ops, m) == bytes_upto(ops, i) + op_len(ops[i]));
    } else {
        lemma_bytes_flat_index_helper(ops, i, j, m - 1);
        assert(bytes_upto(ops, m) == bytes_upto(ops, m - 1) + op_len(ops[m - 1]));
    }
}

/// Byte `j` of operation `i` stands at flat index `bytes_upto(i) + j` of
/// the concatenated bytes.
pub proof fn lemma_bytes_flat_index(ops: Seq<Operation>, i: int, j: int)
    requires
        0 <= i < ops.len(),
        0 <= j < op_len(ops[i]),
    ensures
        bytes_flat(ops).len() == total_bytes(ops),
        bytes_flat(ops)[bytes_upto(ops, i) + j] == op_bytes(ops[i])[j],
{
    lemma_bytes_flat_upto_len(ops, ops.len() as int);
    lemma_bytes_flat_index_helper(ops, i, j, ops.len() as int);
}

/// Flat index `k` names byte `j` of operation `i`.
pub open spec fn flat_at(ops: Seq<Operation>, k: int, i: int, j: int) -> bool {
    0 <= i < ops.len() && 0 <= j < op_len(ops[i]) && k == bytes_upto(ops, i) + j
}

proof fn lemma_flat_decomp_helper(ops: Seq<Operation>, k: int, i: int)
    requires
        0 <= i < ops.len(),
        bytes_upto(ops, i) <= k < total_bytes(ops),
    ensures
        exists|ii: int, jj: int| #[trigger] flat_at(ops, k, ii, jj),
    decreases ops.len() - i,
{
    if k < bytes_upto(ops, i) + op_len(ops[i]) {
        let jj = k - bytes_upto(ops, i);
        assert(flat_at(ops, k, i, jj));
    } else {
        assert(bytes_upto(ops, i + 1) == bytes_upto(ops, i) + op_len(ops[i]));
        if i + 1 == ops.len() {
            assert(bytes_upto(ops, i + 1) == total_bytes(ops));
            assert(false);
        } else {
            lemma_flat_decomp_helper(ops, k, i + 1);
        }
    }
}

/// Every flat index below the byte total names one byte of one operation.
pub proof fn lemma_flat_decomp(ops: Seq<Operation>, k: int)
    requires
        ops.len() > 0,
        0 <= k < total_bytes(ops),
    ensures
        exists|ii: int, jj: int| #[trigger] flat_at(ops, k, ii, jj),
{
    lemma_flat_decomp_helper(ops, k, 0);
}

/// In a transaction of nonempty operations, flat index zero belongs to the
/// first byte of the first operation alone, and the last flat index to the
/// last byte of the last operation alone.
proof fn lemma_flat_ends(ops: Seq<Operation>, i: int, j: int)
    requires
        forall|m: int| 0 <= m < ops.len() ==> op_len(#[trigger] ops[m]) > 0,
        0 <= i < ops.len(),
        0 <= j < op_len(ops[i]),
    ensures
        (bytes_upto(ops, i) + j == 0) <==> (i == 0 && j == 0),
        (bytes_upto(ops, i) + j == total_bytes(ops) - 1) <==> (i == ops.len() - 1 && j == op_len(
            ops[i],
        ) - 1),
{
    if i > 0 {
        lemma_bytes_upto_le(ops, 1, i);
        assert(bytes_upto(ops, 0) == 0);
        assert(bytes_upto(ops, 1) == op_len(ops[0]));
    }
    assert(bytes_upto(ops, i + 1) == bytes_upto(ops, i) + op_len(ops[i]));
    lemma_bytes_upto_le(ops, i + 1, ops.len() as int);
    if i + 1 < ops.len() {
        lemma_bytes_upto_le(ops, i + 2, ops.len() as int);
        assert(bytes_upto(ops, i + 2) == bytes_upto(ops, i + 1) + op_len(ops[i + 1]));
    }
}

/// All-write transaction: one cycle per byte; the data-register outputs
/// are exactly the write buffers' bytes, concatenated in order; every
/// command asserts RUN and never ACK; START is asserted on the first
/// command alone (so every later command follows it), and STOP on the last
/// alone.
pub proof fn lemma_all_write_plan(address: u8, ops: Seq<Operation>)
    requires
        ops.len() > 0,
        forall|m: int| 0 <= m < ops.len() ==> !op_is_read(#[trigger] ops[m]),
        forall|m: int| 0 <= m < ops.len() ==> op_len(#[trigger] ops[m]) > 0,
    ensures
        plan_spec(address, ops).len() == total_bytes(ops),
        outs_of(plan_spec(address, ops)) == bytes_flat(ops),
        forall|k: int|
            0 <= k < total_bytes(ops) ==> (#[trigger] plan_spec(address, ops)[k]).data_out matches
                Some(_),
        forall|k: int|
            0 <= k < total_bytes(ops) ==> ((#[trigger] plan_spec(address, ops)[k]).command.start
                <==> k == 0),
        forall|k: int|
            0 <= k < total_bytes(ops) ==> ((#[trigger] plan_spec(address, ops)[k]).command.stop
                <==> k == total_bytes(ops) - 1),
        forall|k: int|
            0 <= k < total_bytes(ops) ==> (#[trigger] plan_spec(address, ops)[k]).command.run && !(
            plan_spec(address, ops)[k]).command.ack,
{
    lemma_plan_upto_len(address, ops, ops.len() as int);
    lemma_bytes_flat_upto_len(ops, ops.len() as int);
    assert forall|k: int| 0 <= k < total_bytes(ops) implies {
        let c = #[trigger] plan_spec(address, ops)[k];
        &&& c.data_out matches Some(_)
        &&& (c.command.start <==> k == 0)
        &&& (c.command.stop <==> k == total_bytes(ops) - 1)
        &&& c.command.run
        &&& !c.command.ack
        &&& outs_of(plan_spec(address, ops))[k] == bytes_flat(ops)[k]
    } by {
        lemma_flat_decomp(ops, k);
        let (ii, jj) = choose|ii: int, jj: int| #[trigger] flat_at(ops, k, ii, jj);
        lemma_plan_index(address, ops, ii, jj);
        lemma_bytes_flat_index(ops, ii, jj);
        lemma_flat_ends(ops, ii, jj);
        if ii > 0 {
            assert(!op_is_read(ops[ii - 1]) && !op_is_read(ops[ii]));
        }
        if ii + 1 < ops.len() {
            assert(!op_is_read(ops[ii + 1]) && !op_is_read(ops[ii]));
        }
        assert(run_starts_at(ops, ii, jj) <==> (ii == 0 && jj == 0));
        assert(final_byte_at(ops, ii, jj) <==> (ii == ops.len() - 1 && jj == op_len(ops[ii]) - 1));
    }
    assert(outs_of(plan_spec(address, ops)) =~= bytes_flat(ops));
}

/// All-read transaction: one cycle per byte; the address phase is issued
/// exactly once, on the first cycle, with the direction bit set for a
/// read; no cycle loads the data register; ACK is asserted on every byte
/// except the transaction's last, where it is suppressed; START marks the
/// first command alone and STOP the last alone, and every command asserts
/// RUN.
pub proof fn lemma_all_read_plan(address: u8, ops: Seq<Operation>)
    requires
        ops.len() > 0,
        forall|m: int| 0 <= m < ops.len() ==> op_is_read(#[trigger] ops[m]),
        forall|m: int| 0 <= m < ops.len() ==> op_len(#[trigger] ops[m]) > 0,
    ensures
        plan_spec(address, ops).len() == total_bytes(ops),
        forall|k: int|
            0 <= k < total_bytes(ops) ==> (#[trigger] plan_spec(address, ops)[k]).address_phase
                == if k == 0 {
                Some(AddressPhase { address, read: true })
            } else {
                None::<AddressPhase>
            },
        forall|k: int|
            0 <= k < total_bytes(ops) ==> (#[trigger] plan_spec(address, ops)[k]).data_out
                matches None,
        forall|k: int|
            0 <= k < total_bytes(ops) ==> ((#[trigger] plan_spec(address, ops)[k]).command.ack
                <==> k != total_bytes(ops) - 1),
        forall|k: int|
            0 <= k < total_bytes(ops) ==> ((#[trigger] plan_spec(address, ops)[k]).command.start
                <==> k == 0),
        forall|k: int|
            0 <= k < total_bytes(ops) ==> ((#[trigger] plan_spec(address, ops)[k]).command.stop
                <==> k == total_bytes(ops) - 1),
        forall|k: int|
            0 <= k < total_bytes(ops) ==> (#[trigger] plan_spec(address, ops)[k]).command.run,
{
    lemma_plan_upto_len(address, ops, ops.len() as int);
    assert forall|k: int| 0 <= k < total_bytes(ops) implies {
        let c = #[trigger] plan_spec(address, ops)[k];
        &&& c.address_phase == if k == 0 {
            Some(AddressPhase { address, read: true })
        } else {
            None::<AddressPhase>
        }
        &&& c.data_out matches None
        &&& (c.command.ack <==> k != total_bytes(ops) - 1)
        &&& (c.command.start <==> k == 0)
        &&& (c.command.stop <==> k == total_bytes(ops) - 1)
        &&& c.command.run
    } by {
        lemma_flat_decomp(ops, k);
        let (ii, jj) = choose|ii: int, jj: int| #[trigger] flat_at(ops, k, ii, jj);
        lemma_plan_index(address, ops, ii, jj);
        lemma_flat_ends(ops, ii, jj);
        if ii > 0 {
            assert(op_is_read(ops[ii - 1]) && op_is_read(ops[ii]));
        }
        if ii + 1 < ops.len() {
            assert(op_is_read(ops[ii + 1]) && op_is_read(ops[ii]));
        }
        assert(run_starts_at(ops, ii, jj) <==> (ii == 0 && jj == 0));
        assert(run_ends_after(ops, ii, jj) <==> (ii == ops.len() - 1 && jj == op_len(ops[ii])
            - 1));
        assert(final_byte_at(ops, ii, jj) <==> (ii == ops.len() - 1 && jj == op_len(ops[ii]) - 1));
    }
}

/// Bus framing of any transaction of nonempty operations: STOP is asserted
/// exactly on the very last cycle (so none stands between two operations);
/// START is asserted exactly where an address phase is written; every
/// address phase carries the target address and its run's direction; and a
/// repeated START opens every direction change.
pub proof fn lemma_plan_framing(address: u8, ops: Seq<Operation>)
    requires
        ops.len() > 0,
        forall|m: int| 0 <= m < ops.len() ==> op_len(#[trigger] ops[m]) > 0,
    ensures
        plan_spec(address, ops).len() == total_bytes(ops),
        forall|k: int|
            0 <= k < total_bytes(ops) ==> ((#[trigger] plan_spec(address, ops)[k]).command.stop
                <==> k == total_bytes(ops) - 1),
        forall|k: int|
            0 <= k < total_bytes(ops) ==> ((#[trigger] plan_spec(address, ops)[k]).command.start
                <==> plan_spec(address, ops)[k].address_phase matches Some(_)),
        forall|k: int|
            0 <= k < total_bytes(ops) ==> ((#[trigger] plan_spec(address, ops)[k]).address_phase
                matches Some(p) ==> p.address == address && p.read == plan_spec(
                address,
                ops,
            )[k].is_read),
        forall|i: int|
            1 <= i < ops.len() && op_is_read(#[trigger] ops[i]) != op_is_read(ops[i - 1]) ==> (
            plan_spec(address, ops)[bytes_upto(ops, i) as int]).command.start,
{
    lemma_plan_upto_len(address, ops, ops.len() as int);
    assert forall|k: int| 0 <= k < total_bytes(ops) implies {
        let c = #[trigger] plan_spec(address, ops)[k];
        &&& (c.command.stop <==> k == total_bytes(ops) - 1)
        &&& (c.command.start <==> c.address_phase matches Some(_))
        &&& (c.address_phase matches Some(p) ==> p.address == address && p.read == c.is_read)
    } by {
        lemma_flat_decomp(ops, k);
        let (ii, jj) = choose|ii: int, jj: int| #[trigger] flat_at(ops, k, ii, jj);
        lemma_plan_index(address, ops, ii, jj);
        lemma_flat_ends(ops, ii, jj);
        assert(final_byte_at(ops, ii, jj) <==> (ii == ops.len() - 1 && jj == op_len(ops[ii]) - 1));
    }
    assert forall|i: int|
        1 <= i < ops.len() && op_is_read(#[trigger] ops[i]) != op_is_read(ops[i - 1]) implies (
    plan_spec(address, ops)[bytes_upto(ops, i) as int]).command.start by {
        lemma_plan_index(address, ops, i, 0);
        assert(run_starts_at(ops, i, 0));
    }
}

} // verus!
