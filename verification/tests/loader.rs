use investment_adjuster::fidelity::{parse_accounts, parse_dollar, Columns, LoadError};
use investment_adjuster::find_ignored_rows;
use investment_adjuster::portfolio::{Portfolio, Provider};

fn headers() -> Vec<String> {
    vec![
        String::from("AccountNumber"),
        String::from("Account Name"),
        String::from("Symbol"),
        String::from("Description"),
        String::from("Quantity"),
        String::from("Last Price"),
        String::from("Last Price Change"),
        String::from("Current Value"),
    ]
}

fn row(account: &str, symbol: &str, value: &str) -> Vec<String> {
    vec![
        String::from(account),
        String::from("Brokerage"),
        String::from(symbol),
        String::from(""),
        String::from(""),
        String::from(""),
        String::from(""),
        String::from(value),
    ]
}

#[test]
fn parse_dollar_handles_plain_forms() {
    assert_eq!(parse_dollar("$1234.56"), Some(123456));
    assert_eq!(parse_dollar("1234"), Some(123400));
    assert_eq!(parse_dollar("12.5"), Some(1250));
    assert_eq!(parse_dollar("-3.00"), Some(-300));
    assert_eq!(parse_dollar(".5"), Some(50));
    assert_eq!(parse_dollar("5."), Some(500));
    assert_eq!(parse_dollar("$0.07"), Some(7));
}

#[test]
fn parse_dollar_strips_every_dollar_sign() {
    assert_eq!(parse_dollar("12$3.45"), Some(12345));
}

#[test]
fn parse_dollar_rejects_what_it_cannot_read() {
    assert_eq!(parse_dollar("1.234"), None);
    assert_eq!(parse_dollar("abc"), None);
    assert_eq!(parse_dollar(""), None);
    assert_eq!(parse_dollar("$"), None);
    assert_eq!(parse_dollar("-"), None);
    assert_eq!(parse_dollar("."), None);
    assert_eq!(parse_dollar("1.2.3"), None);
    assert_eq!(parse_dollar("1,234.00"), None);
}

#[test]
fn parse_accounts_builds_the_holdings() {
    let rows = vec![
        row("A1", "CASH**", "$1000.00"),
        row("A1", "VTI", "$4000.00"),
        row("A1", "BND", "$5000.00"),
    ];
    let accounts = parse_accounts(&headers(), &rows).expect("a well-formed file");
    assert_eq!(accounts.len(), 1);
    let a = &accounts[0];
    assert_eq!(a.account_number, "A1");
    assert_eq!(a.positions.len(), 3);
    assert_eq!(a.positions[0].symbol, "CASH");
    assert_eq!(a.positions[0].current_value, 1000_00);
    assert!(a.positions[0].is_core);
    assert!(!a.positions[0].ignored);
    assert_eq!(a.positions[1].symbol, "VTI");
    assert_eq!(a.positions[1].current_value, 4000_00);
    assert!(!a.positions[1].is_core);
    assert_eq!(a.positions[2].symbol, "BND");
    assert_eq!(a.positions[2].current_value, 5000_00);
}

#[test]
fn parse_accounts_groups_by_account() {
    let rows = vec![
        row("A1", "CASH**", "100"),
        row("B2", "CASH**", "200"),
        row("A1", "VTI", "300"),
    ];
    let accounts = parse_accounts(&headers(), &rows).expect("a well-formed file");
    assert_eq!(accounts.len(), 2);
    assert_eq!(accounts[0].account_number, "A1");
    assert_eq!(accounts[0].positions.len(), 2);
    assert_eq!(accounts[1].account_number, "B2");
    assert_eq!(accounts[1].positions.len(), 1);
}

#[test]
fn parse_accounts_adds_pending_activity_to_core() {
    let rows = vec![
        row("A1", "CASH**", "$1000.00"),
        row("A1", "Pending activity", "$25.50"),
    ];
    let accounts = parse_accounts(&headers(), &rows).expect("a well-formed file");
    assert_eq!(accounts[0].positions.len(), 1);
    assert_eq!(accounts[0].positions[0].symbol, "CASH");
    assert_eq!(accounts[0].positions[0].current_value, 1025_50);
    assert!(accounts[0].positions[0].is_core);
}

#[test]
fn parse_accounts_pending_without_core_fails() {
    let rows = vec![row("A1", "Pending activity", "$25.50")];
    match parse_accounts(&headers(), &rows) {
        Err(LoadError::NoCoreForPendingActivity) => {}
        other => panic!("expected NoCoreForPendingActivity, got {:?}", other),
    }
}

#[test]
fn parse_accounts_merges_duplicate_symbols() {
    let rows = vec![
        row("A1", "VTI", "$100.00"),
        row("A1", "VTI**", "$25.00"),
    ];
    let accounts = parse_accounts(&headers(), &rows).expect("a well-formed file");
    assert_eq!(accounts[0].positions.len(), 1);
    assert_eq!(accounts[0].positions[0].symbol, "VTI");
    assert_eq!(accounts[0].positions[0].current_value, 125_00);
    assert!(accounts[0].positions[0].is_core);
}

#[test]
fn parse_accounts_stops_at_a_short_row() {
    let rows = vec![
        row("A1", "VTI", "$100.00"),
        vec![String::from("The data above is as of today.")],
        row("A1", "BND", "$100.00"),
    ];
    let accounts = parse_accounts(&headers(), &rows).expect("a well-formed file");
    assert_eq!(accounts.len(), 1);
    assert_eq!(accounts[0].positions.len(), 1);
    assert_eq!(accounts[0].positions[0].symbol, "VTI");
}

#[test]
fn parse_accounts_needs_a_value_cell() {
    let mut short = row("A1", "VTI", "unused");
    short.pop();
    let rows = vec![short];
    match parse_accounts(&headers(), &rows) {
        Err(LoadError::MissingValue) => {}
        other => panic!("expected MissingValue, got {:?}", other),
    }
}

#[test]
fn parse_accounts_rejects_a_bad_value() {
    let rows = vec![row("A1", "VTI", "n/a")];
    match parse_accounts(&headers(), &rows) {
        Err(LoadError::MissingValue) => {}
        other => panic!("expected MissingValue, got {:?}", other),
    }
}

#[test]
fn parse_accounts_rejects_unknown_headers() {
    let bad: Vec<String> = vec![
        String::from("a"),
        String::from("b"),
        String::from("c"),
        String::from("d"),
        String::from("e"),
        String::from("f"),
        String::from("g"),
        String::from("h"),
    ];
    match parse_accounts(&bad, &vec![]) {
        Err(LoadError::UnexpectedFileFormat) => {}
        other => panic!("expected UnexpectedFileFormat, got {:?}", other),
    }
}

#[test]
fn parse_accounts_accepts_any_known_header() {
    // matching any one of the four known captions is enough
    let mut hs = vec![
        String::from("x"),
        String::from("x"),
        String::from("Symbol"),
        String::from("x"),
        String::from("x"),
        String::from("x"),
        String::from("x"),
        String::from("x"),
    ];
    assert!(parse_accounts(&hs, &vec![]).is_ok());
    hs[2] = String::from("y");
    assert!(parse_accounts(&hs, &vec![]).is_err());
}

#[test]
fn repeated_core_markers_strip_in_pairs() {
    let rows = vec![row("A1", "V****", "1")];
    let accounts = parse_accounts(&headers(), &rows).expect("a well-formed file");
    assert_eq!(accounts[0].positions[0].symbol, "V");
    assert!(accounts[0].positions[0].is_core);
}

#[test]
fn a_portfolio_carries_the_loaded_accounts() {
    let provider = Provider::Fidelity;
    assert_eq!(provider, Provider::Fidelity);
    let rows = vec![row("A1", "CASH**", "100"), row("B2", "CASH**", "200")];
    let accounts = parse_accounts(&headers(), &rows).expect("a well-formed file");
    let portfolio = Portfolio { accounts };
    assert_eq!(portfolio.accounts.len(), 2);
}

#[test]
fn column_indices_match_the_format() {
    assert_eq!(Columns::AccountNumber.index(), 0);
    assert_eq!(Columns::AccountName.index(), 1);
    assert_eq!(Columns::Symbol.index(), 2);
    assert_eq!(Columns::CurrentValue.index(), 7);
}

#[test]
fn ignored_rows_are_offset_past_the_header() {
    let flags = vec![false, true, true, false];
    assert_eq!(find_ignored_rows(&flags), vec![2, 3]);
    assert_eq!(find_ignored_rows(&vec![]), Vec::<usize>::new());
}
