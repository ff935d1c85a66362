//! What the command-line front end is asked to compute.

use vstd::prelude::*;

verus! {

/// The computation a run performs.
#[derive(Clone, Copy, Debug, PartialEq, Eq, Structural)]
pub enum CalcType {
    /// A payment plan for each installment count.
    Normal,
    /// Payment plans behind each length of down payment.
    DownPayment,
    /// The next date on which money can be disbursed.
    NextDisbursementDate,
}

impl Default for CalcType {
    fn default() -> (r: CalcType)
        ensures
            r == CalcType::Normal,
    {
        CalcType::Normal
    }
}

/// The options of a run.
#[derive(Clone, Copy, Debug, PartialEq, Eq, Structural)]
pub struct Args {
    pub calc_type: CalcType,
}

} // verus!
