//! Gas accounting: a priced catalogue of operations and a per-transaction
//! meter with a monotone `gas_used` counter bounded by `gas_limit`. Cost
//! multiplications saturate at `u64::MAX`.

use vstd::prelude::*;

verus! {

/// Gas accounting failure.
#[derive(PartialEq, Eq, Structural, Clone, Copy, Debug)]
pub enum GasError {
    /// Consuming would push `gas_used` past `gas_limit`.
    OutOfGas,
}

/// `v` clamped to the `u64` range.
pub open spec fn sat_u64(v: int) -> u64 {
    if v > u64::MAX {
        u64::MAX
    } else {
        v as u64
    }
}

/// The priced operations.
#[derive(Clone, Copy, Debug)]
pub enum GasOperation {
    /// A balance transfer.
    Transfer,
    /// An entry-function execution of the given complexity.
    ExecuteFunction { complexity: u64 },
    /// Publishing a module of the given byte size.
    PublishModule { module_size: usize },
    /// One signature verification inside the VM.
    SignatureVerify,
}

impl GasOperation {
    /// The gas units this operation costs.
    pub open spec fn spec_gas_units(self) -> u64 {
        match self {
            GasOperation::Transfer => 200u64,
            GasOperation::ExecuteFunction { complexity } => sat_u64(500 * complexity),
            GasOperation::PublishModule { module_size } => sat_u64(1000 + 10 * module_size),
            GasOperation::SignatureVerify => 250u64,
        }
    }

    /// Compute the gas units this operation costs.
    pub fn gas_units(&self) -> (u: u64)
        ensures
            u == self.spec_gas_units(),
    {
        match self {
            GasOperation::Transfer => 200,
            GasOperation::ExecuteFunction { complexity } => {
                match complexity.checked_mul(500) {
                    Some(v) => v,
                    None => u64::MAX,
                }
            },
            GasOperation::PublishModule { module_size } => {
                let size64 = usize_to_u64(*module_size);
                match size64.checked_mul(10) {
                    Some(v) => match v.checked_add(1000) {
                        Some(w) => w,
                        None => u64::MAX,
                    },
                    None => u64::MAX,
                }
            },
            GasOperation::SignatureVerify => 250,
        }
    }
}

/// Widen a usize to u64 (usize is at most 64 bits here).
pub fn usize_to_u64(v: usize) -> (r: u64)
    ensures
        r == v,
{
    v as u64
}

/// A per-transaction gas meter.
pub struct GasMeter {
    pub gas_limit: u64,
    pub gas_price: u64,
    pub gas_used: u64,
}

impl GasMeter {
    /// The counter never passes the limit.
    pub open spec fn wf(&self) -> bool {
        self.gas_used <= self.gas_limit
    }

    /// A fresh meter with nothing consumed.
    pub fn new(gas_limit: u64, gas_price: u64) -> (m: GasMeter)
        ensures
            m.gas_limit == gas_limit,
            m.gas_price == gas_price,
            m.gas_used == 0,
            m.wf(),
    {
        GasMeter { gas_limit, gas_price, gas_used: 0 }
    }

    /// Consume `units` of gas. Fails, leaving the meter unchanged, exactly
    /// when the new total would pass the limit.
    pub fn consume(&mut self, units: u64) -> (r: Result<(), GasError>)
        ensures
            final(self).gas_limit == old(self).gas_limit,
            final(self).gas_price == old(self).gas_price,
            r is Ok <==> old(self).gas_used + units <= old(self).gas_limit,
            r is Ok ==> final(self).gas_used == old(self).gas_used + units,
            r is Err ==> final(self).gas_used == old(self).gas_used && r == Result::<(),
                GasError>::Err(GasError::OutOfGas),
            old(self).wf() ==> final(self).wf(),
    {
        match self.gas_used.checked_add(units) {
            Some(total) => {
                if total <= self.gas_limit {
                    self.gas_used = total;
                    Ok(())
                } else {
                    Err(GasError::OutOfGas)
                }
            },
            None => Err(GasError::OutOfGas),
        }
    }

    /// The cost of the gas consumed so far: `gas_used * gas_price`,
    /// saturating at `u64::MAX`.
    pub fn total_cost(&self) -> (c: u64)
        ensures
            c == sat_u64(self.gas_used * self.gas_price),
    {
        match self.gas_used.checked_mul(self.gas_price) {
            Some(v) => v,
            None => u64::MAX,
        }
    }

    /// The worst-case cost of this meter: `gas_limit * gas_price`,
    /// saturating at `u64::MAX`.
    pub fn max_cost(&self) -> (c: u64)
        ensures
            c == sat_u64(self.gas_limit * self.gas_price),
    {
        match self.gas_limit.checked_mul(self.gas_price) {
            Some(v) => v,
            None => u64::MAX,
        }
    }
}

/// The saturating product of two u64 values, as an exec helper.
pub fn sat_mul(a: u64, b: u64) -> (c: u64)
    ensures
        c == sat_u64(a * b),
{
    match a.checked_mul(b) {
        Some(v) => v,
        None => u64::MAX,
    }
}

} // verus!
