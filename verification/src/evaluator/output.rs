//! Per-record evaluation output.

use vstd::prelude::*;
use crate::decimal::{Decimal, SignedDecimal, spec_dec_zero, spec_sdec_zero};
use crate::dsl::ast::{Record, RecordV};

verus! {

/// The rolling totals for one symbol at a point in the replay: cumulative
/// purchases, cumulative sales, current value, and the derived profit
/// `value - total_purchase + total_sale`.
#[derive(Debug, Clone, Copy, PartialEq, Eq, Structural)]
pub struct AssetMetric {
    pub total_purchase: Decimal,
    pub total_sale: Decimal,
    pub value: SignedDecimal,
    pub profit: SignedDecimal,
}

/// One record statement together with the metric state immediately after
/// applying it.
#[derive(Debug, PartialEq, Clone)]
pub struct RecordOutput {
    pub program: Record,
    pub total_purchase: Decimal,
    pub total_sale: Decimal,
    pub value: SignedDecimal,
    pub profit: SignedDecimal,
}

/// The mathematical shape of a [`RecordOutput`].
#[verifier::ext_equal]
pub struct RecordOutputV {
    pub program: RecordV,
    pub total_purchase: Decimal,
    pub total_sale: Decimal,
    pub value: SignedDecimal,
    pub profit: SignedDecimal,
}

impl View for RecordOutput {
    type V = RecordOutputV;

    open spec fn view(&self) -> RecordOutputV {
        RecordOutputV {
            program: self.program@,
            total_purchase: self.total_purchase,
            total_sale: self.total_sale,
            value: self.value,
            profit: self.profit,
        }
    }
}

impl RecordOutput {
    /// An output for `program` with all totals still at zero.
    pub fn new(program: Record) -> (r: RecordOutput)
        ensures
            r@.program == program@,
            r@.total_purchase == spec_dec_zero(),
            r@.total_sale == spec_dec_zero(),
            r@.value == spec_sdec_zero(),
            r@.profit == spec_sdec_zero(),
    {
        RecordOutput {
            program,
            total_purchase: Decimal::zero(),
            total_sale: Decimal::zero(),
            value: SignedDecimal::zero(),
            profit: SignedDecimal::zero(),
        }
    }

    /// A field-by-field copy.
    pub fn duplicate(&self) -> (r: RecordOutput)
        ensures
            r@ == self@,
    {
        RecordOutput {
            program: self.program.duplicate(),
            total_purchase: self.total_purchase,
            total_sale: self.total_sale,
            value: self.value,
            profit: self.profit,
        }
    }
}

/// The (empty) output of applying a define statement.
#[derive(Debug, PartialEq, Clone)]
pub struct DefineOutput {}

/// What evaluating one statement produced.
pub enum Output {
    Record(RecordOutput),
    Define(DefineOutput),
}

} // verus!
