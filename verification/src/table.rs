//! The lookup-table manager: for every distinct lookup operator the
//! graph requires, a two-column table enumerating the operator over
//! the whole signed bit window, populated exactly once.

use vstd::arithmetic::power2::pow2;
use vstd::prelude::*;

use crate::lookup::LookupOp;

verus! {

/// Errors raised while building the circuit.
#[derive(Clone, Copy, Debug, PartialEq, Eq, Structural)]
pub enum CircuitError {
    /// A table was asked to assign its rows a second time.
    TableAlreadyAssigned,
    /// The operation is not supported by the circuit.
    UnsupportedOp,
}

/// A lookup table for one elementwise non-linearity: the operator it
/// represents, the bit width of its window, and whether its rows have
/// been assigned.
#[derive(Debug)]
pub struct Table {
    /// The operation represented by the table.
    pub nonlinearity: LookupOp,
    /// Flags whether the table has been assigned to.
    pub is_assigned: bool,
    /// Number of bits used in the lookup window.
    pub bits: usize,
}

/// The input enumerated at a given row of a table of the given bit
/// width: the signed window `[-2^(bits-1), 2^(bits-1))` in ascending
/// order.
pub open spec fn table_input_at(bits: usize, row: int) -> int {
    row - pow2((bits - 1) as nat)
}

/// The bit width is usable: at least one bit, and the row count fits
/// the machine word.
pub open spec fn table_bits_ok(bits: usize) -> bool {
    &&& 1 <= bits
    &&& pow2(bits as nat) <= usize::MAX
}

impl Table {
    /// Configures a fresh, unassigned table for the operator.
    pub fn configure(bits: usize, nonlinearity: &LookupOp) -> (r: Table)
        ensures
            r.nonlinearity == *nonlinearity,
            r.bits == bits,
            !r.is_assigned,
    {
        Table { nonlinearity: *nonlinearity, is_assigned: false, bits }
    }

    /// Assigns the table's rows: every representable input in the
    /// signed bit window, in ascending order, next to the operator's
    /// image of it.  A second assignment is refused.
    pub fn layout(&mut self) -> (r: Result<Vec<(i128, i128)>, CircuitError>)
        requires
            old(self).nonlinearity.wf(),
            table_bits_ok(old(self).bits),
        ensures
            final(self).nonlinearity == old(self).nonlinearity,
            final(self).bits == old(self).bits,
            match r {
                Ok(rows) => {
                    &&& !old(self).is_assigned
                    &&& final(self).is_assigned
                    &&& rows@.len() == pow2(old(self).bits as nat)
                    &&& forall|row: int|
                        #![trigger rows@[row]]
                        0 <= row < rows@.len() ==> rows@[row].0 == table_input_at(
                            old(self).bits,
                            row,
                        ) && rows@[row].1 == old(self).nonlinearity.spec_eval(
                            table_input_at(old(self).bits, row),
                        )
                },
                Err(e) => {
                    &&& e == CircuitError::TableAlreadyAssigned
                    &&& old(self).is_assigned
                    &&& final(self).is_assigned == old(self).is_assigned
                },
            },
    {
        if self.is_assigned {
            return Err(CircuitError::TableAlreadyAssigned);
        }
        proof {
            lemma_window_bounds(self.bits);
        }
        let total = table_row_count(self.bits);
        let half = half_window(self.bits);
        let smallest: i128 = -half;
        let mut rows: Vec<(i128, i128)> = Vec::new();
        let mut row: usize = 0;
        while row < total
            invariant
                row <= total,
                total == pow2(self.bits@ as nat),
                half == pow2((self.bits@ - 1) as nat),
                smallest == -half,
                total <= i128::MAX,
                self.nonlinearity.wf(),
                self.bits@ >= 1,
                rows@.len() == row,
                forall|j: int|
                    #![trigger rows@[j]]
                    0 <= j < row ==> rows@[j].0 == table_input_at(self.bits@, j)
                        && rows@[j].1 == self.nonlinearity.spec_eval(
                        table_input_at(self.bits@, j),
                    ),
            decreases total - row,
        {
            let x: i128 = smallest + (row as i128);
            let y = self.nonlinearity.eval_scalar(x);
            rows.push((x, y));
            row = row + 1;
        }
        self.is_assigned = true;
        Ok(rows)
    }
}

/// A lookup table recorded in advice columns rather than fixed
/// ones, for operators whose rows the prover supplies dynamically.
/// Its contents follow the same window and idempotence rules as the
/// fixed table.
#[derive(Debug)]
pub struct DynamicTable {
    /// The operation represented by the table.
    pub operation: LookupOp,
    /// Flags whether the table has been assigned to.
    pub is_assigned: bool,
    /// Number of bits used in the lookup window.
    pub bits: usize,
}

impl DynamicTable {
    /// Configures a fresh, unassigned dynamic table for the operator.
    pub fn configure(bits: usize, operation: &LookupOp) -> (r: DynamicTable)
        ensures
            r.operation == *operation,
            r.bits == bits,
            !r.is_assigned,
    {
        DynamicTable { operation: *operation, is_assigned: false, bits }
    }

    /// Assigns the dynamic table's rows over the signed bit window; a
    /// second assignment is refused.
    pub fn layout(&mut self) -> (r: Result<Vec<(i128, i128)>, CircuitError>)
        requires
            old(self).operation.wf(),
            table_bits_ok(old(self).bits),
        ensures
            final(self).operation == old(self).operation,
            final(self).bits == old(self).bits,
            match r {
                Ok(rows) => {
                    &&& !old(self).is_assigned
                    &&& final(self).is_assigned
                    &&& rows@.len() == pow2(old(self).bits as nat)
                    &&& forall|row: int|
                        #![trigger rows@[row]]
                        0 <= row < rows@.len() ==> rows@[row].0 == table_input_at(
                            old(self).bits,
                            row,
                        ) && rows@[row].1 == old(self).operation.spec_eval(
                            table_input_at(old(self).bits, row),
                        )
                },
                Err(e) => {
                    &&& e == CircuitError::TableAlreadyAssigned
                    &&& old(self).is_assigned
                    &&& final(self).is_assigned == old(self).is_assigned
                },
            },
    {
        if self.is_assigned {
            return Err(CircuitError::TableAlreadyAssigned);
        }
        proof {
            lemma_window_bounds(self.bits);
        }
        let total = table_row_count(self.bits);
        let half = half_window(self.bits);
        let smallest: i128 = -half;
        let mut rows: Vec<(i128, i128)> = Vec::new();
        let mut row: usize = 0;
        while row < total
            invariant
                row <= total,
                total == pow2(self.bits@ as nat),
                half == pow2((self.bits@ - 1) as nat),
                smallest == -half,
                total <= i128::MAX,
                self.operation.wf(),
                self.bits@ >= 1,
                rows@.len() == row,
                forall|j: int|
                    #![trigger rows@[j]]
                    0 <= j < row ==> rows@[j].0 == table_input_at(self.bits@, j)
                        && rows@[j].1 == self.operation.spec_eval(
                        table_input_at(self.bits@, j),
                    ),
            decreases total - row,
        {
            let x: i128 = smallest + (row as i128);
            let y = self.operation.eval_scalar(x);
            rows.push((x, y));
            row = row + 1;
        }
        self.is_assigned = true;
        Ok(rows)
    }
}

/// The number of rows in a table of the given bit width: `2^bits`.
pub fn table_row_count(bits: usize) -> (r: usize)
    requires
        table_bits_ok(bits),
    ensures
        r == pow2(bits as nat),
{
    proof {
        lemma_window_bounds(bits);
    }
    let m = crate::scale::scale_to_multiplier(bits as u32);
    m as usize
}

/// Half the table window: `2^(bits-1)`.
pub fn half_window(bits: usize) -> (r: i128)
    requires
        table_bits_ok(bits),
    ensures
        r == pow2((bits - 1) as nat),
        r >= 1,
{
    proof {
        lemma_window_bounds(bits);
        vstd::arithmetic::power2::lemma_pow2_pos((bits - 1) as nat);
    }
    let m = crate::scale::scale_to_multiplier((bits - 1) as u32);
    m as i128
}

/// A usable bit width keeps the whole window inside both machine
/// words.
proof fn lemma_window_bounds(bits: usize)
    requires
        table_bits_ok(bits),
    ensures
        bits <= 63,
        pow2(bits as nat) <= i128::MAX,
        pow2((bits - 1) as nat) * 2 == pow2(bits as nat),
        pow2((bits - 1) as nat) >= 1,
{
    if bits >= 64 {
        assert(pow2(64nat) <= pow2(bits as nat)) by {
            if bits > 64 {
                vstd::arithmetic::power2::lemma_pow2_strictly_increases(64nat, bits as nat);
            }
        }
        assert(pow2(64nat) == 0x1_0000_0000_0000_0000) by {
            vstd::arithmetic::power2::lemma2_to64();
        }
    }
    assert(pow2(bits as nat) <= i128::MAX) by {
        assert(pow2(bits as nat) <= pow2(63nat)) by {
            if bits < 63 {
                vstd::arithmetic::power2::lemma_pow2_strictly_increases(bits as nat, 63nat);
            }
        }
        assert(pow2(63nat) == 0x8000_0000_0000_0000) by {
            vstd::arithmetic::power2::lemma2_to64();
            vstd::arithmetic::power2::lemma2_to64_rest();
        }
    }
    vstd::arithmetic::power2::lemma_pow2_unfold(bits as nat);
    vstd::arithmetic::power2::lemma_pow2_pos((bits - 1) as nat);
}

} // verus!
