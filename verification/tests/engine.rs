use investment_adjuster::portfolio::{AccountBalance, Position};
use investment_adjuster::target::{
    AllocationError, AllocationTargets, AllocationTargetsBuilder, CorePosition, TargetWeight,
};
use investment_adjuster::Action;

fn weight(symbol: &str, percent: i64) -> TargetWeight {
    TargetWeight { symbol: String::from(symbol), percent }
}

fn position(symbol: &str, value: i64, is_core: bool) -> Position {
    Position { symbol: String::from(symbol), current_value: value, is_core, ignored: false }
}

fn policy(weights: Vec<TargetWeight>, minimum: i64) -> AllocationTargets {
    AllocationTargetsBuilder {
        account_number: String::from("A1"),
        core_position: CorePosition { symbol: String::from("CASH"), minimum },
        allocations: weights,
    }
    .build()
    .expect("a valid policy")
}

fn balance(positions: Vec<Position>) -> AccountBalance {
    AccountBalance { account_number: String::from("A1"), positions }
}

fn assert_buy(actions: &[(String, Action)], i: usize, symbol: &str, amount: i64) {
    assert_eq!(actions[i].0, symbol);
    match actions[i].1 {
        Action::Buy(a) => assert_eq!(a, amount, "buy amount for {}", symbol),
        ref other => panic!("expected Buy for {}, got {:?}", symbol, other),
    }
}

fn assert_sell(actions: &[(String, Action)], i: usize, symbol: &str, amount: i64) {
    assert_eq!(actions[i].0, symbol);
    match actions[i].1 {
        Action::Sell(a) => assert_eq!(a, amount, "sell amount for {}", symbol),
        ref other => panic!("expected Sell for {}, got {:?}", symbol, other),
    }
}

#[test]
fn end_to_end_scenario() {
    // account A1 holds CASH(core) $1000, VTI $4000, BND $5000; the policy
    // keeps $500 in CASH and splits the rest 60/40 between VTI and BND
    let t = policy(vec![weight("VTI", 6000), weight("BND", 4000)], 500_00);
    let b = balance(vec![
        position("CASH", 1000_00, true),
        position("VTI", 4000_00, false),
        position("BND", 5000_00, false),
    ]);
    let actions = t.adjust_allocations(&b).expect("a consistent account");
    // distributable = 10000 - 500 = 9500; VTI wants 5700, BND wants 3800
    assert_eq!(actions.len(), 3);
    assert_buy(&actions, 0, "VTI", 1700_00);
    assert_sell(&actions, 1, "BND", 1200_00);
    assert_sell(&actions, 2, "CASH", 500_00);
}

#[test]
fn rebalancing_conserves_money() {
    // with nothing ignored, the desired values plus the core minimum give
    // back the account's total value
    let t = policy(vec![weight("VTI", 6000), weight("BND", 4000)], 500_00);
    let positions = vec![
        position("CASH", 1000_00, true),
        position("VTI", 4000_00, false),
        position("BND", 5000_00, false),
    ];
    let total: i64 = positions.iter().map(|p| p.current_value).sum();
    let b = balance(positions);
    let actions = t.adjust_allocations(&b).expect("a consistent account");
    let mut desired_total: i64 = 0;
    for (symbol, action) in &actions {
        if symbol != "CASH" {
            let current = b
                .positions
                .iter()
                .find(|p| &p.symbol == symbol)
                .map(|p| p.current_value)
                .unwrap_or(0);
            desired_total += match action {
                Action::Buy(a) => current + a,
                Action::Sell(a) => current - a,
                Action::Nothing | Action::Ignore => current,
            };
        }
    }
    assert_eq!(desired_total + 500_00, total);
}

#[test]
fn ignoring_a_targeted_symbol_fails() {
    // ignoring a position the policy explicitly targets is contradictory
    let t = policy(vec![weight("VTI", 6000), weight("BND", 4000)], 500_00);
    let mut b = balance(vec![
        position("CASH", 1000_00, true),
        position("VTI", 4000_00, false),
        position("BND", 5000_00, false),
    ]);
    b.set_ignored(&vec![String::from("BND")]);
    match t.adjust_allocations(&b) {
        Err(AllocationError::IgnoredTarget) => {}
        other => panic!("expected IgnoredTarget, got {:?}", other),
    }
}

#[test]
fn ignored_position_is_excluded() {
    // an ignored untargeted holding leaves the pool and is reported as such
    let t = policy(vec![weight("VTI", 10000)], 500_00);
    let mut b = balance(vec![
        position("CASH", 1000_00, true),
        position("VTI", 4000_00, false),
        position("XYZ", 5000_00, false),
    ]);
    b.set_ignored(&vec![String::from("xyz")]);
    let actions = t.adjust_allocations(&b).expect("a consistent account");
    // distributable = (1000 + 4000) - 500 = 4500, all of it for VTI
    assert_eq!(actions.len(), 3);
    assert_buy(&actions, 0, "VTI", 500_00);
    assert_eq!(actions[1].0, "CASH");
    assert_sell(&actions, 1, "CASH", 500_00);
    assert_eq!(actions[2].0, "XYZ");
    assert!(matches!(actions[2].1, Action::Ignore));
}

#[test]
fn core_shortfall_fails() {
    let t = policy(vec![weight("VTI", 10000)], 5000_00);
    let b = balance(vec![position("CASH", 1000_00, true)]);
    match t.adjust_allocations(&b) {
        Err(AllocationError::InsufficientFunds) => {}
        other => panic!("expected InsufficientFunds, got {:?}", other),
    }
}

#[test]
fn missing_core_fails() {
    let t = policy(vec![weight("VTI", 10000)], 500_00);
    let b = balance(vec![position("VTI", 4000_00, false)]);
    match t.adjust_allocations(&b) {
        Err(AllocationError::CoreNotFound) => {}
        other => panic!("expected CoreNotFound, got {:?}", other),
    }
}

#[test]
fn other_accounts_holdings_fail() {
    let t = policy(vec![weight("VTI", 10000)], 0);
    let b = AccountBalance {
        account_number: String::from("B2"),
        positions: vec![position("CASH", 1000_00, true), position("VTI", 100_00, false)],
    };
    match t.adjust_allocations(&b) {
        Err(AllocationError::CoreNotFound) => {}
        other => panic!("expected CoreNotFound, got {:?}", other),
    }
}

#[test]
fn unflagged_core_fails() {
    let t = policy(vec![weight("VTI", 10000)], 0);
    let b = balance(vec![position("CASH", 1000_00, false), position("VTI", 100_00, false)]);
    match t.adjust_allocations(&b) {
        Err(AllocationError::CoreNotMarkedCore) => {}
        other => panic!("expected CoreNotMarkedCore, got {:?}", other),
    }
}

#[test]
fn core_as_target_fails() {
    let t = policy(vec![weight("CASH", 10000)], 0);
    let b = balance(vec![position("CASH", 1000_00, true)]);
    match t.adjust_allocations(&b) {
        Err(AllocationError::CoreInTargets) => {}
        other => panic!("expected CoreInTargets, got {:?}", other),
    }
}

#[test]
fn exact_match_does_nothing() {
    let t = policy(vec![weight("VTI", 10000)], 500_00);
    let b = balance(vec![
        position("CASH", 500_00, true),
        position("VTI", 4000_00, false),
    ]);
    let actions = t.adjust_allocations(&b).expect("a consistent account");
    // distributable = 4500 - 500 = 4000: VTI already matches, CASH at minimum
    assert_eq!(actions.len(), 2);
    assert_eq!(actions[0].0, "VTI");
    assert!(matches!(actions[0].1, Action::Nothing));
    assert_eq!(actions[1].0, "CASH");
    assert!(matches!(actions[1].1, Action::Nothing));
}

#[test]
fn untargeted_holding_is_sold_down() {
    let t = policy(vec![weight("VTI", 10000)], 0);
    let b = balance(vec![
        position("CASH", 0, true),
        position("VTI", 0, false),
        position("OLD", 300_00, false),
    ]);
    let actions = t.adjust_allocations(&b).expect("a consistent account");
    // OLD is absent from the targets: it drifts toward zero weight
    assert_eq!(actions.len(), 3);
    assert_buy(&actions, 0, "VTI", 300_00);
    assert!(matches!(actions[1].1, Action::Nothing)); // CASH at its zero minimum
    assert_sell(&actions, 2, "OLD", 300_00);
}

#[test]
fn core_below_minimum_is_bought_up() {
    let t = policy(vec![weight("VTI", 10000)], 500_00);
    let b = balance(vec![
        position("CASH", 400_00, true),
        position("VTI", 4000_00, false),
    ]);
    let actions = t.adjust_allocations(&b).expect("a consistent account");
    // distributable = 4400 - 500 = 3900
    assert_eq!(actions.len(), 2);
    assert_sell(&actions, 0, "VTI", 100_00);
    assert_buy(&actions, 1, "CASH", 100_00);
}

#[test]
fn desired_values_round_down_to_cents() {
    let t = policy(vec![weight("AAA", 5000), weight("BBB", 5000)], 0);
    let b = balance(vec![
        position("CASH", 0, true),
        position("AAA", 999, false),
    ]);
    let actions = t.adjust_allocations(&b).expect("a consistent account");
    // each desired value is 999 * 50% = 499.5 cents, rounded down to 499
    assert_eq!(actions.len(), 3);
    assert_sell(&actions, 0, "AAA", 500);
    assert_buy(&actions, 1, "BBB", 499);
    assert!(matches!(actions[2].1, Action::Nothing));
}

#[test]
fn target_missing_from_holdings_is_bought() {
    let t = policy(vec![weight("NEW", 10000)], 0);
    let b = balance(vec![position("CASH", 1000_00, true)]);
    let actions = t.adjust_allocations(&b).expect("a consistent account");
    assert_eq!(actions.len(), 2);
    assert_buy(&actions, 0, "NEW", 1000_00);
    assert_sell(&actions, 1, "CASH", 1000_00);
}

#[test]
fn set_ignored_matches_case_insensitively() {
    let mut b = balance(vec![
        position("CASH", 100, true),
        position("Vti", 200, false),
        position("BND", 300, false),
    ]);
    b.set_ignored(&vec![String::from("vTI"), String::from("bnd"), String::from("ZZZ")]);
    assert!(!b.positions[0].ignored);
    assert!(b.positions[1].ignored);
    assert!(b.positions[2].ignored);
}

#[test]
fn set_ignored_keeps_everything_else() {
    let mut b = balance(vec![position("VTI", 200, false)]);
    b.set_ignored(&vec![String::from("VTI")]);
    assert_eq!(b.account_number, "A1");
    assert_eq!(b.positions.len(), 1);
    assert_eq!(b.positions[0].symbol, "VTI");
    assert_eq!(b.positions[0].current_value, 200);
    assert!(!b.positions[0].is_core);
    assert!(b.positions[0].ignored);
}
