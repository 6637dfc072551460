use ledger::grammar::LedgerGrammar;

#[test]
fn digit_run_parses_whole_input_only() {
    let l = LedgerGrammar::new();
    assert!(l.grammar.parse(l.integer, "2017").is_some());
    assert!(l.grammar.parse(l.integer, "2017x").is_none());
    assert!(l.grammar.parse(l.integer, "").is_none());
    assert!(l.grammar.parse(l.digit, "7").is_some());
}

#[test]
fn ledger_fields_by_rule() {
    let l = LedgerGrammar::new();
    let g = &l.grammar;
    assert!(g.parse(l.date, "2014-01-01").is_some());
    assert!(g.parse(l.date, "2014/01/01").is_some());
    assert!(g.parse(l.date, "2014-01-").is_none());
    assert!(g.parse(l.decimal_amount, "100.25").is_some());
    assert!(g.parse(l.decimal_amount, "-.04").is_some());
    assert!(g.parse(l.decimal_amount, "1.").is_none());
    assert!(g.parse(l.currency_amount, "$100.25").is_some());
    assert!(g.parse(l.currency_amount, "$-1234.23").is_some());
    assert!(g.parse(l.currency_amount, "42").is_some());
    assert!(g.parse(l.currency_amount, "$").is_none());
    assert!(g.parse(l.whitespace_run, "  \t").is_some());
    assert!(g.parse(l.whitespace_run, "").is_none());
    assert!(g.parse(l.account_name, "Equity:Opening Balances").is_some());
    assert!(g.parse(l.account_name, "Assets:Cash  $1").is_none());
}
