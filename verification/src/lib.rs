//! Rebalancing engine for one investment account.
//!
//! Given the account's current holdings and a target allocation policy
//! (percentage weights per symbol plus a minimum-dollar core reserve), the
//! library computes a deterministic list of per-symbol actions — buy, sell,
//! ignore, or nothing — whose amounts are mutually consistent.
//!
//! Money is carried as whole cents and percentages as hundredths of a
//! percent, so that every amount is exact and every step of the arithmetic
//! is verified free of overflow.

#![verifier::loop_isolation(false)]

use vstd::prelude::*;

pub mod fidelity;
pub mod portfolio;
pub mod target;

verus! {

/// A dollar amount in whole cents.
pub type Dollar = i64;

/// A percentage in hundredths of a percent: `10_000` stands for 100%.
pub type Percent = i64;

/// The number of `Percent` units in a whole: 100%.
pub const PERCENT_SCALE: Percent = 10_000;

/// The largest dollar amount (in cents) the engine accepts, chosen so that
/// an amount times a percentage in `[0, PERCENT_SCALE]` still fits in `i64`.
pub const MAX_MONEY: Dollar = 922_337_203_685_477;

/// What to do with one holding after reconciliation.
#[derive(Debug, Clone)]
pub enum Action {
    /// The current value already matches the target exactly.
    Nothing,
    /// The symbol is excluded from rebalancing by user request.
    Ignore,
    /// Divest this many cents; always strictly positive.
    Sell(Dollar),
    /// Acquire this many cents; always strictly positive.
    Buy(Dollar),
}

/// The mathematical shadow of [`Action`], with unbounded amounts, used by
/// the contracts.
pub ghost enum ActionModel {
    Nothing,
    Ignore,
    Sell(int),
    Buy(int),
}

impl View for Action {
    type V = ActionModel;

    open spec fn view(&self) -> ActionModel {
        match self {
            Action::Nothing => ActionModel::Nothing,
            Action::Ignore => ActionModel::Ignore,
            Action::Sell(amount) => ActionModel::Sell(*amount as int),
            Action::Buy(amount) => ActionModel::Buy(*amount as int),
        }
    }
}

/// The table-row numbers (1-based, row 0 being the header) of the entries
/// among `flags` that are marked.
pub open spec fn spec_ignored_rows(flags: Seq<bool>) -> Seq<usize>
    decreases flags.len(),
{
    if flags.len() == 0 {
        Seq::empty()
    } else if flags.last() {
        spec_ignored_rows(flags.drop_last()).push(flags.len() as usize)
    } else {
        spec_ignored_rows(flags.drop_last())
    }
}

/// Rows of a rendered table that should be dimmed because their holding is
/// ignored: entry `i` of `flags` maps to table row `i + 1`, the header being
/// row 0.
pub fn find_ignored_rows(flags: &Vec<bool>) -> (rows: Vec<usize>)
    ensures
        rows@ == spec_ignored_rows(flags@),
{
    let mut rows: Vec<usize> = Vec::new();
    let mut i: usize = 0;
    while i < flags.len()
        invariant
            i <= flags@.len(),
            rows@ == spec_ignored_rows(flags@.subrange(0, i as int)),
        decreases flags@.len() - i,
    {
        if flags[i] {
            rows.push(i + 1);
        }
        proof {
            assert(flags@.subrange(0, i + 1 as int).drop_last() =~= flags@.subrange(0, i as int));
        }
        i = i + 1;
    }
    proof {
        assert(flags@.subrange(0, flags@.len() as int) =~= flags@);
    }
    rows
}

} // verus!
