use investment_adjuster::target::{
    AllocationError, AllocationTargetsBuilder, CorePosition, TargetWeight,
};

fn weight(symbol: &str, percent: i64) -> TargetWeight {
    TargetWeight { symbol: String::from(symbol), percent }
}

fn builder(weights: Vec<TargetWeight>, minimum: i64) -> AllocationTargetsBuilder {
    AllocationTargetsBuilder {
        account_number: String::from("A1"),
        core_position: CorePosition { symbol: String::from("CASH"), minimum },
        allocations: weights,
    }
}

#[test]
fn build_sum_60_40_succeeds() {
    let b = builder(vec![weight("VTI", 6000), weight("BND", 4000)], 50000);
    let t = b.build().expect("60 + 40 sums to 100");
    assert_eq!(t.account_number, "A1");
    assert_eq!(t.core_position.symbol, "CASH");
    assert_eq!(t.core_position.minimum, 50000);
    let ts = t.targets();
    assert_eq!(ts.len(), 2);
    assert_eq!(ts[0].symbol, "VTI");
    assert_eq!(ts[0].percent, 6000);
    assert_eq!(ts[1].symbol, "BND");
    assert_eq!(ts[1].percent, 4000);
}

#[test]
fn build_sum_thirds_succeeds() {
    let b = builder(
        vec![weight("AAA", 3330), weight("BBB", 3330), weight("CCC", 3340)],
        0,
    );
    assert!(b.build().is_ok());
}

#[test]
fn build_wrong_sum_fails() {
    let b = builder(vec![weight("VTI", 6000), weight("BND", 3000)], 0);
    match b.build() {
        Err(AllocationError::PercentSumInvalid) => {}
        other => panic!("expected PercentSumInvalid, got {:?}", other),
    }
}

#[test]
fn build_sum_above_hundred_fails() {
    let b = builder(vec![weight("VTI", 6000), weight("BND", 6000)], 0);
    match b.build() {
        Err(AllocationError::PercentSumInvalid) => {}
        other => panic!("expected PercentSumInvalid, got {:?}", other),
    }
}

#[test]
fn build_percent_out_of_range_fails() {
    let b = builder(vec![weight("VTI", 11000), weight("BND", -1000)], 0);
    match b.build() {
        Err(AllocationError::PercentOutOfRange) => {}
        other => panic!("expected PercentOutOfRange, got {:?}", other),
    }
}

#[test]
fn build_duplicate_symbol_fails() {
    let b = builder(vec![weight("VTI", 5000), weight("VTI", 5000)], 0);
    match b.build() {
        Err(AllocationError::DuplicateTarget) => {}
        other => panic!("expected DuplicateTarget, got {:?}", other),
    }
}

#[test]
fn build_negative_minimum_fails() {
    let b = builder(vec![weight("VTI", 10000)], -1);
    match b.build() {
        Err(AllocationError::MinimumOutOfRange) => {}
        other => panic!("expected MinimumOutOfRange, got {:?}", other),
    }
}

#[test]
fn build_empty_targets_fails() {
    let b = builder(vec![], 0);
    match b.build() {
        Err(AllocationError::PercentSumInvalid) => {}
        other => panic!("expected PercentSumInvalid, got {:?}", other),
    }
}
