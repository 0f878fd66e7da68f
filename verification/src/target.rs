//! The target allocation policy and the allocation-adjustment engine.

use vstd::prelude::*;

use crate::portfolio::{
    core_flag_of, find_position, holds_symbol, lemma_lookup_absent, lemma_lookup_at,
    lemma_sum_non_ignored_prefix_le, lemma_sum_non_ignored_step, sum_non_ignored, value_of,
    AccountBalance, Position,
};
use crate::{Action, ActionModel, Dollar, Percent, MAX_MONEY, PERCENT_SCALE};
use vstd::arithmetic::div_mod::{
    lemma_div_by_multiple, lemma_div_is_ordered, lemma_div_of0, lemma_div_pos_is_pos,
    lemma_dividing_sums, lemma_mod_division_less_than_divisor,
};

verus! {

/// Why constructing a policy or adjusting allocations failed.
///
/// The first four variants mark invalid configuration, as does
/// `CoreInTargets`; `CoreNotFound`, `CoreNotMarkedCore` and `IgnoredTarget`
/// mark data inconsistent with the policy; `InsufficientFunds` means the
/// account cannot cover the core minimum.
#[derive(Debug, Clone, PartialEq, Eq)]
pub enum AllocationError {
    /// A target percent lies outside `[0, PERCENT_SCALE]`.
    PercentOutOfRange,
    /// The same symbol is declared twice as a target.
    DuplicateTarget,
    /// The target percents do not sum to exactly 100%.
    PercentSumInvalid,
    /// The core minimum is negative or too large to compute with.
    MinimumOutOfRange,
    /// No position carries the policy's core symbol for this account.
    CoreNotFound,
    /// A position carries the core symbol but is not flagged as core.
    CoreNotMarkedCore,
    /// The core symbol appears as a rebalancing target.
    CoreInTargets,
    /// An ignored symbol is also a declared target.
    IgnoredTarget,
    /// The non-ignored value cannot cover the core minimum.
    InsufficientFunds,
}

/// The core (cash) position of one policy: a symbol and the minimum number
/// of cents to retain in it.
#[derive(Debug, Clone)]
pub struct CorePosition {
    pub symbol: String,
    /// Minimum amount to retain in the core position, in cents.
    pub minimum: Dollar,
}

/// One desired weight: a symbol and its percentage of the distributable
/// pool, in hundredths of a percent.
#[derive(Debug, Clone)]
pub struct TargetWeight {
    pub symbol: String,
    pub percent: Percent,
}

/// The sum of the percents of `ts`.
pub open spec fn percent_sum(ts: Seq<TargetWeight>) -> int
    decreases ts.len(),
{
    if ts.len() == 0 {
        0
    } else {
        percent_sum(ts.drop_last()) + ts.last().percent as int
    }
}

/// True iff some weight in `ts` carries the symbol `sym`.
pub open spec fn targets_contain(ts: Seq<TargetWeight>, sym: Seq<char>) -> bool {
    exists|i: int| 0 <= i < ts.len() && ts[i].symbol@ == sym
}

/// Every percent in `ts` lies in `[0, PERCENT_SCALE]`.
pub open spec fn percents_in_range(ts: Seq<TargetWeight>) -> bool {
    forall|i: int| 0 <= i < ts.len() ==> 0 <= #[trigger] ts[i].percent <= PERCENT_SCALE
}

/// No two weights in `ts` carry the same symbol.
pub open spec fn target_symbols_unique(ts: Seq<TargetWeight>) -> bool {
    forall|i: int, j: int| 0 <= i < j < ts.len() ==> ts[i].symbol@ != ts[j].symbol@
}

/// Well-formed weights: each percent lies in `[0, PERCENT_SCALE]`, symbols
/// are unique, and the percents sum to exactly 100%.
pub open spec fn weights_wf(ts: Seq<TargetWeight>) -> bool {
    &&& percents_in_range(ts)
    &&& target_symbols_unique(ts)
    &&& percent_sum(ts) == PERCENT_SCALE
}

/// The action that a signed delta `desired - current` classifies to:
/// strictly positive buys the difference, strictly negative sells it,
/// exactly zero does nothing.
pub open spec fn spec_classify(desired: int, current: int) -> ActionModel {
    if desired > current {
        ActionModel::Buy(desired - current)
    } else if desired < current {
        ActionModel::Sell(current - desired)
    } else {
        ActionModel::Nothing
    }
}

/// The action for a targeted symbol: its desired value is its share of the
/// distributable pool, rounded down to a whole cent.
pub open spec fn spec_weight_action(to_distribute: int, percent: int, current: int) -> ActionModel {
    spec_classify((to_distribute * percent) / (PERCENT_SCALE as int), current)
}

/// The action for a held symbol that is not a target: ignored positions are
/// reported as such, the core position is brought to its minimum, and any
/// other untargeted holding drifts toward zero weight.
pub open spec fn spec_holding_action(p: Position, core_sym: Seq<char>, minimum: int) -> ActionModel {
    if p.ignored {
        ActionModel::Ignore
    } else if p.symbol@ == core_sym {
        spec_classify(minimum, p.current_value as int)
    } else {
        spec_classify(0, p.current_value as int)
    }
}

/// The positions of `ps` whose symbol is not a target of `ts`, in order.
pub open spec fn extra_positions(ps: Seq<Position>, ts: Seq<TargetWeight>) -> Seq<Position>
    decreases ps.len(),
{
    if ps.len() == 0 {
        Seq::empty()
    } else {
        let rest = extra_positions(ps.drop_last(), ts);
        if targets_contain(ts, ps.last().symbol@) {
            rest
        } else {
            rest.push(ps.last())
        }
    }
}

/// A validated target allocation policy for one account.
#[derive(Debug)]
pub struct AllocationTargets {
    pub account_number: String,
    pub core_position: CorePosition,
    pub targets: Vec<TargetWeight>,
}

impl AllocationTargets {
    /// The policy's weights, as the contracts speak of them.
    pub open spec fn targets_seq(&self) -> Seq<TargetWeight> {
        self.targets@
    }

    /// A policy as construction leaves it: valid weights and a core minimum
    /// the engine can do arithmetic on.
    pub open spec fn wf(&self) -> bool {
        &&& weights_wf(self.targets_seq())
        &&& 0 <= self.core_position.minimum <= MAX_MONEY
    }

    /// The holdings carry the policy's account number and hold its core symbol.
    pub open spec fn core_found(&self, balance: &AccountBalance) -> bool {
        &&& balance.account_number@ == self.account_number@
        &&& holds_symbol(balance.positions@, self.core_position.symbol@)
    }

    /// The position carrying the core symbol is flagged as core.
    pub open spec fn core_marked(&self, balance: &AccountBalance) -> bool {
        core_flag_of(balance.positions@, self.core_position.symbol@)
    }

    /// The core symbol appears among the targets.
    pub open spec fn core_targeted(&self) -> bool {
        targets_contain(self.targets_seq(), self.core_position.symbol@)
    }

    /// Some ignored position is also a declared target.
    pub open spec fn has_ignored_target(&self, balance: &AccountBalance) -> bool {
        exists|i: int|
            0 <= i < balance.positions@.len() && (#[trigger] balance.positions@[i]).ignored
                && targets_contain(self.targets_seq(), balance.positions@[i].symbol@)
    }

    /// The distributable pool: the total non-ignored value minus the core
    /// minimum.
    pub open spec fn spec_to_distribute(&self, balance: &AccountBalance) -> int {
        sum_non_ignored(balance.positions@) - self.core_position.minimum
    }

    /// All preconditions of a successful adjustment.
    pub open spec fn adjust_ok(&self, balance: &AccountBalance) -> bool {
        &&& self.core_found(balance)
        &&& self.core_marked(balance)
        &&& !self.core_targeted()
        &&& !self.has_ignored_target(balance)
        &&& self.spec_to_distribute(balance) >= 0
    }

    /// The declared weights.
    pub fn targets(&self) -> (ts: &Vec<TargetWeight>)
        ensures
            ts@ == self.targets_seq(),
    {
        &self.targets
    }
}

/// Raw policy fields as a configuration file yields them, not yet validated.
#[derive(Debug)]
pub struct AllocationTargetsBuilder {
    pub account_number: String,
    pub core_position: CorePosition,
    pub allocations: Vec<TargetWeight>,
}

impl AllocationTargetsBuilder {
    /// Everything `build` checks: valid weights and a usable core minimum.
    pub open spec fn valid(&self) -> bool {
        &&& weights_wf(self.allocations@)
        &&& 0 <= self.core_position.minimum <= MAX_MONEY
    }

    /// Checks the declared weights and the core minimum, failing on the
    /// first violation: a percent out of range, a duplicate symbol, a sum
    /// other than exactly 100%, or an unusable minimum.
    fn validate(&self) -> (r: Result<(), AllocationError>)
        ensures
            r is Ok <==> self.valid(),
            (match r {
                Ok(()) => true,
                Err(e) => {
                    &&& (e == AllocationError::PercentOutOfRange <==> !percents_in_range(
                        self.allocations@,
                    ))
                    &&& (e == AllocationError::DuplicateTarget <==> percents_in_range(
                        self.allocations@,
                    ) && !target_symbols_unique(self.allocations@))
                    &&& (e == AllocationError::PercentSumInvalid <==> percents_in_range(
                        self.allocations@,
                    ) && target_symbols_unique(self.allocations@) && percent_sum(self.allocations@)
                        != PERCENT_SCALE)
                    &&& (e == AllocationError::MinimumOutOfRange <==> weights_wf(self.allocations@)
                        && !(0 <= self.core_position.minimum <= MAX_MONEY))
                },
            }),
    {
        let ts = &self.allocations;
        let n = ts.len();
        let mut i: usize = 0;
        while i < n
            invariant
                n == ts@.len(),
                i <= n,
                forall|k: int| 0 <= k < i ==> 0 <= #[trigger] ts@[k].percent <= PERCENT_SCALE,
            decreases n - i,
        {
            if ts[i].percent < 0 || ts[i].percent > PERCENT_SCALE {
                return Err(AllocationError::PercentOutOfRange);
            }
            i = i + 1;
        }
        let mut i: usize = 1;
        while i < n
            invariant
                n == ts@.len(),
                1 <= i || n == 0,
                i <= n || n == 0,
                forall|k: int, l: int| 0 <= k < l < i ==> ts@[k].symbol@ != ts@[l].symbol@,
            decreases n - i,
        {
            let mut j: usize = 0;
            while j < i
                invariant
                    n == ts@.len(),
                    i < n,
                    j <= i,
                    forall|k: int| 0 <= k < j ==> ts@[k].symbol@ != ts@[i as int].symbol@,
                decreases i - j,
            {
                if ts[j].symbol == ts[i].symbol {
                    return Err(AllocationError::DuplicateTarget);
                }
                j = j + 1;
            }
            i = i + 1;
        }
        let mut sum: i64 = 0;
        let mut i: usize = 0;
        while i < n
            invariant
                n == ts@.len(),
                i <= n,
                percents_in_range(ts@),
                0 <= sum <= PERCENT_SCALE,
                sum == percent_sum(ts@.subrange(0, i as int)),
            decreases n - i,
        {
            proof {
                lemma_percent_sum_step(ts@, i as int);
            }
            let next = sum + ts[i].percent;
            if next > PERCENT_SCALE {
                proof {
                    lemma_percent_sum_prefix_le(ts@, i + 1 as int);
                }
                return Err(AllocationError::PercentSumInvalid);
            }
            sum = next;
            i = i + 1;
        }
        proof {
            assert(ts@.subrange(0, n as int) =~= ts@);
        }
        if sum != PERCENT_SCALE {
            return Err(AllocationError::PercentSumInvalid);
        }
        if self.core_position.minimum < 0 || self.core_position.minimum > MAX_MONEY {
            return Err(AllocationError::MinimumOutOfRange);
        }
        Ok(())
    }

    /// Validates the declared fields and fixes them into a policy.
    ///
    /// Construction fails unless the target percents sum to exactly 100%,
    /// so every [`AllocationTargets`] satisfies the target-sum invariant.
    pub fn build(self) -> (r: Result<AllocationTargets, AllocationError>)
        ensures
            r is Ok <==> self.valid(),
            (match r {
                Ok(t) => {
                    &&& t.wf()
                    &&& t.account_number == self.account_number
                    &&& t.core_position == self.core_position
                    &&& t.targets_seq() == self.allocations@
                },
                Err(e) => {
                    &&& (e == AllocationError::PercentOutOfRange <==> !percents_in_range(
                        self.allocations@,
                    ))
                    &&& (e == AllocationError::DuplicateTarget <==> percents_in_range(
                        self.allocations@,
                    ) && !target_symbols_unique(self.allocations@))
                    &&& (e == AllocationError::PercentSumInvalid <==> percents_in_range(
                        self.allocations@,
                    ) && target_symbols_unique(self.allocations@) && percent_sum(self.allocations@)
                        != PERCENT_SCALE)
                    &&& (e == AllocationError::MinimumOutOfRange <==> weights_wf(self.allocations@)
                        && !(0 <= self.core_position.minimum <= MAX_MONEY))
                },
            }),
    {
        match self.validate() {
            Err(e) => Err(e),
            Ok(()) => Ok(
                AllocationTargets {
                    account_number: self.account_number,
                    core_position: self.core_position,
                    targets: self.allocations,
                },
            ),
        }
    }
}

/// Whether some weight of `ts` carries the symbol `sym`.
fn targets_contain_exec(ts: &Vec<TargetWeight>, sym: &String) -> (r: bool)
    ensures
        r == targets_contain(ts@, sym@),
{
    let mut i: usize = 0;
    while i < ts.len()
        invariant
            i <= ts@.len(),
            forall|j: int| 0 <= j < i ==> (#[trigger] ts@[j]).symbol@ != sym@,
        decreases ts@.len() - i,
    {
        if ts[i].symbol == *sym {
            return true;
        }
        i = i + 1;
    }
    false
}

/// The action that the signed delta `desired - current` classifies to.
fn classify(desired: Dollar, current: Dollar) -> (a: Action)
    requires
        -MAX_MONEY <= desired <= MAX_MONEY,
        -MAX_MONEY <= current <= MAX_MONEY,
    ensures
        a@ == spec_classify(desired as int, current as int),
{
    if desired > current {
        Action::Buy(desired - current)
    } else if desired < current {
        Action::Sell(current - desired)
    } else {
        Action::Nothing
    }
}

/// Extending a prefix by the position at `k` either keeps the extras (the
/// symbol is a target) or appends that position to them.
proof fn lemma_extras_step(ps: Seq<Position>, ts: Seq<TargetWeight>, k: int)
    requires
        0 <= k < ps.len(),
    ensures
        extra_positions(ps.subrange(0, k + 1), ts) == (if targets_contain(ts, ps[k].symbol@) {
            extra_positions(ps.subrange(0, k), ts)
        } else {
            extra_positions(ps.subrange(0, k), ts).push(ps[k])
        }),
{
    assert(ps.subrange(0, k + 1).drop_last() =~= ps.subrange(0, k));
}

impl AllocationTargets {
    /// Reconciles the holdings against this policy and produces one action
    /// per symbol that appears in the targets or in the holdings: first the
    /// targeted symbols in their declared order, then the remaining held
    /// symbols in holding order.
    ///
    /// Fails, in this order of checks, when the holdings are not this
    /// account's or lack the core symbol; when the matching position is not
    /// flagged core; when the core symbol is itself a target; when an
    /// ignored position is a declared target; and when the non-ignored total
    /// cannot cover the core minimum. Nothing is returned partially.
    pub fn adjust_allocations(&self, balance: &AccountBalance) -> (r: Result<
        Vec<(String, Action)>,
        AllocationError,
    >)
        requires
            self.wf(),
            balance.wf(),
            sum_non_ignored(balance.positions@) <= MAX_MONEY,
        ensures
            r is Ok <==> self.adjust_ok(balance),
            (match r {
                Ok(v) => ({
                    let d = self.spec_to_distribute(balance);
                    let ts = self.targets_seq();
                    let ex = extra_positions(balance.positions@, ts);
                    &&& v@.len() == ts.len() + ex.len()
                    &&& forall|i: int|
                        0 <= i < ts.len() ==> (#[trigger] v@[i]).0@ == ts[i].symbol@ && v@[i].1@
                            == spec_weight_action(
                            d,
                            ts[i].percent as int,
                            value_of(balance.positions@, ts[i].symbol@),
                        )
                    &&& forall|i: int|
                        ts.len() <= i < ts.len() + ex.len() ==> (#[trigger] v@[i]).0@ == ex[i
                            - ts.len()].symbol@ && v@[i].1@ == spec_holding_action(
                            ex[i - ts.len()],
                            self.core_position.symbol@,
                            self.core_position.minimum as int,
                        )
                }),
                Err(e) => {
                    &&& (e == AllocationError::CoreNotFound <==> !self.core_found(balance))
                    &&& (e == AllocationError::CoreNotMarkedCore <==> self.core_found(balance)
                        && !self.core_marked(balance))
                    &&& (e == AllocationError::CoreInTargets <==> self.core_found(balance)
                        && self.core_marked(balance) && self.core_targeted())
                    &&& (e == AllocationError::IgnoredTarget <==> self.core_found(balance)
                        && self.core_marked(balance) && !self.core_targeted()
                        && self.has_ignored_target(balance))
                    &&& (e == AllocationError::InsufficientFunds <==> self.core_found(balance)
                        && self.core_marked(balance) && !self.core_targeted()
                        && !self.has_ignored_target(balance) && self.spec_to_distribute(balance)
                        < 0)
                },
            }),
    {
        let positions = &balance.positions;
        let pn = positions.len();
        // The holdings must be this account's and must contain the core symbol.
        if !(balance.account_number == self.account_number) {
            return Err(AllocationError::CoreNotFound);
        }
        let ci = match find_position(positions, &self.core_position.symbol) {
            None => {
                return Err(AllocationError::CoreNotFound);
            },
            Some(ci) => ci,
        };
        proof {
            lemma_lookup_at(positions@, self.core_position.symbol@, ci as int);
        }
        if !positions[ci].is_core {
            return Err(AllocationError::CoreNotMarkedCore);
        }
        // The core position is never a rebalancing target itself.
        if targets_contain_exec(&self.targets, &self.core_position.symbol) {
            return Err(AllocationError::CoreInTargets);
        }
        // Ignoring a position the policy explicitly targets is contradictory.
        let mut k: usize = 0;
        while k < pn
            invariant
                k <= pn,
                forall|j: int|
                    0 <= j < k ==> !((#[trigger] positions@[j]).ignored && targets_contain(
                        self.targets@,
                        positions@[j].symbol@,
                    )),
            decreases pn - k,
        {
            if positions[k].ignored && targets_contain_exec(&self.targets, &positions[k].symbol) {
                return Err(AllocationError::IgnoredTarget);
            }
            k = k + 1;
        }
        // The distributable pool: every non-ignored position's value, less
        // the core minimum.
        let mut total: i64 = 0;
        let mut k: usize = 0;
        while k < pn
            invariant
                k <= pn,
                0 <= total,
                total == sum_non_ignored(positions@.subrange(0, k as int)),
            decreases pn - k,
        {
            proof {
                lemma_sum_non_ignored_step(positions@, k as int);
                lemma_sum_non_ignored_prefix_le(positions@, k as int + 1);
            }
            if !positions[k].ignored {
                total = total + positions[k].current_value;
            }
            k = k + 1;
        }
        proof {
            assert(positions@.subrange(0, pn as int) =~= positions@);
        }
        if total < self.core_position.minimum {
            return Err(AllocationError::InsufficientFunds);
        }
        let to_distribute = total - self.core_position.minimum;
        // Targeted symbols first, in their declared order.
        let tn = self.targets.len();
        let mut out: Vec<(String, Action)> = Vec::new();
        let mut i: usize = 0;
        while i < tn
            invariant
                i <= tn,
                out@.len() == i,
                forall|k2: int|
                    0 <= k2 < i ==> (#[trigger] out@[k2]).0@ == self.targets@[k2].symbol@
                        && out@[k2].1@ == spec_weight_action(
                        to_distribute as int,
                        self.targets@[k2].percent as int,
                        value_of(positions@, self.targets@[k2].symbol@),
                    ),
            decreases tn - i,
        {
            let sym = &self.targets[i].symbol;
            let pct = self.targets[i].percent;
            let value: i64 = match find_position(positions, sym) {
                Some(pi) => {
                    proof {
                        lemma_lookup_at(positions@, sym@, pi as int);
                    }
                    positions[pi].current_value
                },
                None => {
                    proof {
                        lemma_lookup_absent(positions@, sym@);
                    }
                    0
                },
            };
            assert(0 <= pct <= PERCENT_SCALE);
            assert(0 <= to_distribute * pct <= MAX_MONEY * PERCENT_SCALE) by (nonlinear_arith)
                requires
                    0 <= to_distribute <= MAX_MONEY,
                    0 <= pct <= PERCENT_SCALE,
            ;
            let prod: i64 = to_distribute * pct;
            let desired: i64 = prod / PERCENT_SCALE;
            proof {
                lemma_div_pos_is_pos(prod as int, PERCENT_SCALE as int);
                lemma_div_is_ordered(
                    prod as int,
                    MAX_MONEY as int * PERCENT_SCALE as int,
                    PERCENT_SCALE as int,
                );
                lemma_div_by_multiple(MAX_MONEY as int, PERCENT_SCALE as int);
            }
            let action = classify(desired, value);
            out.push((sym.clone(), action));
            i = i + 1;
        }
        // Then every held symbol that is not a target, in holding order.
        let mut k: usize = 0;
        while k < pn
            invariant
                k <= pn,
                out@.len() == tn + extra_positions(positions@.subrange(0, k as int), self.targets@).len(),
                forall|k2: int|
                    0 <= k2 < tn ==> (#[trigger] out@[k2]).0@ == self.targets@[k2].symbol@
                        && out@[k2].1@ == spec_weight_action(
                        to_distribute as int,
                        self.targets@[k2].percent as int,
                        value_of(positions@, self.targets@[k2].symbol@),
                    ),
                forall|j: int|
                    0 <= j < extra_positions(positions@.subrange(0, k as int), self.targets@).len()
                        ==> {
                        let ex = extra_positions(positions@.subrange(0, k as int), self.targets@);
                        (#[trigger] out@[tn + j]).0@ == ex[j].symbol@ && out@[tn + j].1@
                            == spec_holding_action(
                            ex[j],
                            self.core_position.symbol@,
                            self.core_position.minimum as int,
                        )
                    },
            decreases pn - k,
        {
            proof {
                lemma_extras_step(positions@, self.targets@, k as int);
            }
            let p = &positions[k];
            if !targets_contain_exec(&self.targets, &p.symbol) {
                let action = if p.ignored {
                    Action::Ignore
                } else if p.symbol == self.core_position.symbol {
                    classify(self.core_position.minimum, p.current_value)
                } else {
                    classify(0, p.current_value)
                };
                out.push((p.symbol.clone(), action));
            }
            k = k + 1;
        }
        proof {
            assert(positions@.subrange(0, pn as int) =~= positions@);
            let ex = extra_positions(positions@, self.targets@);
            assert forall|i: int| tn <= i < tn + ex.len() implies (#[trigger] out@[i]).0@ == ex[i
                - tn].symbol@ && out@[i].1@ == spec_holding_action(
                ex[i - tn],
                self.core_position.symbol@,
                self.core_position.minimum as int,
            ) by {
                let j = i - tn;
                assert(out@[tn + j].0@ == ex[j].symbol@);
            }
        }
        Ok(out)
    }
}

/// The desired values of all weights against the pool `to_distribute`,
/// summed while still scaled by `PERCENT_SCALE` — that is, before each
/// desired value is rounded down to a whole cent.
pub open spec fn scaled_desired_sum(ts: Seq<TargetWeight>, to_distribute: int) -> int
    decreases ts.len(),
{
    if ts.len() == 0 {
        0
    } else {
        scaled_desired_sum(ts.drop_last(), to_distribute) + to_distribute * ts.last().percent
    }
}

/// Summing each weight's share distributes over the sum of the weights.
proof fn lemma_scaled_sum_distributes(ts: Seq<TargetWeight>, to_distribute: int)
    ensures
        scaled_desired_sum(ts, to_distribute) == to_distribute * percent_sum(ts),
    decreases ts.len(),
{
    if ts.len() == 0 {
        assert(to_distribute * 0 == 0) by (nonlinear_arith);
    } else {
        lemma_scaled_sum_distributes(ts.drop_last(), to_distribute);
        assert(to_distribute * (percent_sum(ts.drop_last()) + ts.last().percent) == to_distribute
            * percent_sum(ts.drop_last()) + to_distribute * ts.last().percent) by (nonlinear_arith);
    }
}

/// Law: rebalancing never creates or destroys money. For a policy with no
/// ignored positions, the desired values of all targeted symbols plus the
/// core minimum add up to exactly the account's total value — stated here
/// scaled by `PERCENT_SCALE`, since each executable desired value is that
/// exact share rounded down to a whole cent.
pub proof fn lemma_conservation(t: &AllocationTargets, balance: &AccountBalance)
    requires
        t.wf(),
        forall|i: int| 0 <= i < balance.positions@.len() ==> !(#[trigger] balance.positions@[i]).ignored,
    ensures
        scaled_desired_sum(t.targets_seq(), t.spec_to_distribute(balance))
            + t.core_position.minimum * PERCENT_SCALE == sum_non_ignored(balance.positions@)
            * PERCENT_SCALE,
{
    let d = t.spec_to_distribute(balance);
    let total = sum_non_ignored(balance.positions@);
    lemma_scaled_sum_distributes(t.targets_seq(), d);
    assert(d * (PERCENT_SCALE as int) + t.core_position.minimum * PERCENT_SCALE == total
        * PERCENT_SCALE) by (nonlinear_arith)
        requires
            d == total - t.core_position.minimum,
    ;
}

/// The desired values of all weights against the pool `to_distribute`,
/// summed as the engine computes them: each share rounded down to a whole
/// cent.
pub open spec fn desired_sum(ts: Seq<TargetWeight>, to_distribute: int) -> int
    decreases ts.len(),
{
    if ts.len() == 0 {
        0
    } else {
        desired_sum(ts.drop_last(), to_distribute) + (to_distribute * ts.last().percent) / (
        PERCENT_SCALE as int)
    }
}

/// With non-negative percents, their sum is non-negative.
proof fn lemma_percent_sum_nonneg(ts: Seq<TargetWeight>)
    requires
        percents_in_range(ts),
    ensures
        percent_sum(ts) >= 0,
    decreases ts.len(),
{
    if ts.len() > 0 {
        assert(percents_in_range(ts.drop_last()));
        lemma_percent_sum_nonneg(ts.drop_last());
    }
}

/// Rounding each share down to a whole cent loses less than one cent per
/// weight: the rounded shares stay within `ts.len()` cents of the exact
/// quotient of the scaled sum.
proof fn lemma_desired_sum_bounds(ts: Seq<TargetWeight>, d: int)
    requires
        d >= 0,
        percents_in_range(ts),
    ensures
        (d * percent_sum(ts)) / (PERCENT_SCALE as int) - ts.len() <= desired_sum(ts, d) <= (d
            * percent_sum(ts)) / (PERCENT_SCALE as int),
    decreases ts.len(),
{
    let s = PERCENT_SCALE as int;
    if ts.len() == 0 {
        assert(d * 0 == 0) by (nonlinear_arith);
        lemma_div_of0(s);
    } else {
        let rest = ts.drop_last();
        let p = ts.last().percent as int;
        assert(percents_in_range(rest));
        assert(0 <= ts[ts.len() - 1].percent);
        lemma_desired_sum_bounds(rest, d);
        lemma_percent_sum_nonneg(rest);
        let a = d * percent_sum(rest);
        let b = d * p;
        assert(a >= 0 && b >= 0 && d * percent_sum(ts) == a + b) by (nonlinear_arith)
            requires
                d >= 0,
                percent_sum(rest) >= 0,
                p >= 0,
                a == d * percent_sum(rest),
                b == d * p,
                percent_sum(ts) == percent_sum(rest) + p,
        ;
        let r = a % s + b % s - (a + b) % s;
        lemma_dividing_sums(a, b, s, r);
        lemma_mod_division_less_than_divisor(a, s);
        lemma_mod_division_less_than_divisor(b, s);
        lemma_mod_division_less_than_divisor(a + b, s);
        let q = (a + b) / s - a / s - b / s;
        assert(q == 0 || q == 1) by (nonlinear_arith)
            requires
                s * ((a + b) / s) - r == s * (a / s) + s * (b / s),
                q == (a + b) / s - a / s - b / s,
                -s < r < 2 * s,
                s > 0,
        ;
    }
}

/// Law: rebalancing never creates or destroys money, down to the whole
/// cents the engine hands out. For a policy with no ignored positions that
/// can cover its core minimum, the desired values of all targeted symbols —
/// each rounded down to a cent, exactly as `adjust_allocations` computes
/// them — plus the core minimum reach the account's total value up to less
/// than one cent lost per target.
pub proof fn lemma_conservation_in_cents(t: &AllocationTargets, balance: &AccountBalance)
    requires
        t.wf(),
        t.spec_to_distribute(balance) >= 0,
        forall|i: int| 0 <= i < balance.positions@.len() ==> !(#[trigger] balance.positions@[i]).ignored,
    ensures
        desired_sum(t.targets_seq(), t.spec_to_distribute(balance)) + t.core_position.minimum
            <= sum_non_ignored(balance.positions@),
        desired_sum(t.targets_seq(), t.spec_to_distribute(balance)) + t.core_position.minimum
            + t.targets_seq().len() >= sum_non_ignored(balance.positions@),
{
    let d = t.spec_to_distribute(balance);
    let s = PERCENT_SCALE as int;
    lemma_desired_sum_bounds(t.targets_seq(), d);
    assert(d * percent_sum(t.targets_seq()) == d * s) by (nonlinear_arith)
        requires
            percent_sum(t.targets_seq()) == s,
    ;
    lemma_div_by_multiple(d, s);
}

/// Law: an ignored position's action is `Ignore`, whatever its value and
/// whatever the policy's core symbol and minimum; together with
/// [`crate::portfolio::lemma_ignore_exclusion`], ignoring a position takes
/// its value out of the distributable pool and overrides its action.
pub proof fn lemma_ignored_action(p: Position, core_sym: Seq<char>, minimum: int)
    requires
        p.ignored,
    ensures
        spec_holding_action(p, core_sym, minimum) == ActionModel::Ignore,
{
}

/// Adding the weight at `i` extends the sum of the prefix before it.
proof fn lemma_percent_sum_step(ts: Seq<TargetWeight>, i: int)
    requires
        0 <= i < ts.len(),
    ensures
        percent_sum(ts.subrange(0, i + 1)) == percent_sum(ts.subrange(0, i)) + ts[i].percent,
{
    assert(ts.subrange(0, i + 1).drop_last() =~= ts.subrange(0, i));
}

/// With non-negative percents, a prefix sum never exceeds the whole sum.
proof fn lemma_percent_sum_prefix_le(ts: Seq<TargetWeight>, i: int)
    requires
        percents_in_range(ts),
        0 <= i <= ts.len(),
    ensures
        percent_sum(ts.subrange(0, i)) <= percent_sum(ts),
    decreases ts.len() - i,
{
    if i == ts.len() {
        assert(ts.subrange(0, i) =~= ts);
    } else {
        lemma_percent_sum_step(ts, i);
        lemma_percent_sum_prefix_le(ts, i + 1);
    }
}

} // verus!
