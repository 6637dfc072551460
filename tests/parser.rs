use ledger::accounting::{Account, Amount, Date, Posting, Status, Transaction};
use ledger::amount::parse_amount;
use ledger::balance::BalanceError;
use ledger::lexer::{Token, TokenType};
use ledger::parser::{parse, parse_date, parse_text, Assembler, ErrorKind, Ledger, ParseError};

#[test]
fn it_works() {
    assert_eq!(2 + 2, 4);
}

#[test]
fn test_float() {
    assert_eq!("04".parse::<f64>(), Ok(4f64));
    assert_eq!(".04".parse::<f64>(), Ok(0.04));
}

fn quantities(t: &Transaction) -> Vec<Option<i64>> {
    t.postings.iter().map(|p| p.amount.as_ref().map(|a| a.quantity)).collect()
}

fn ledger_with(amounts: &[&str]) -> Ledger {
    let mut text = "2014-01-01 * Test\n".to_string();
    for (i, a) in amounts.iter().enumerate() {
        text.push_str(&format!("  Account{}  {}\n", i, a));
    }
    parse_text(&text)
}

#[test]
fn header_only_transaction() {
    let ledger = parse_text("2014-01-01 * Opening Balance");
    assert_eq!(ledger.errors.len(), 0);
    assert_eq!(ledger.transactions.len(), 1);
    let t = &ledger.transactions[0];
    assert_eq!(t.date, Date { year: 2014, month: 1, day: 1 });
    assert_eq!(t.status, Status::Cleared);
    assert_eq!(t.description, "Opening Balance");
    assert_eq!(t.postings.len(), 0);
    assert_eq!(t.edate, None);
}

#[test]
fn elided_amount_is_resolved() {
    let ledger = parse_text("2014-01-01 * Opening\n  Assets:Cash  $100.25\n  Equity\n");
    assert_eq!(ledger.errors.len(), 0);
    let t = &ledger.transactions[0];
    assert_eq!(t.postings[0].account.name(), "Assets:Cash");
    assert_eq!(t.postings[1].account.name(), "Equity");
    assert_eq!(quantities(t), vec![Some(10025), Some(-10025)]);
    assert_eq!(t.postings[1].amount.as_ref().unwrap().commodity, "$");
    assert_eq!(t.postings[1].transaction, 1);
}

#[test]
fn listed_quantities_do_not_sum_to_zero() {
    // 20 - 600 + 20 + 600 - 1720 + 160 + 1560 is 40, not 0
    let ledger = ledger_with(&["$20", "$-600", "$20", "$600", "$-1720", "$160", "$1560"]);
    assert_eq!(ledger.errors.len(), 1);
    assert_eq!(ledger.errors[0].kind, ErrorKind::Balance(BalanceError::Unbalanced { sum: 4000 }));
}

#[test]
fn balanced_explicit_transaction() {
    let ledger = ledger_with(&["$20", "$-600", "$20", "$600", "$-1720", "$160", "$1560", "$-40"]);
    assert_eq!(ledger.errors.len(), 0);
    assert_eq!(ledger.transactions.len(), 1);
    assert_eq!(quantities(&ledger.transactions[0]).len(), 8);
}

#[test]
fn unbalanced_explicit_transaction() {
    let ledger = ledger_with(&["10", "10", "-5"]);
    assert_eq!(ledger.errors.len(), 1);
    assert_eq!(ledger.errors[0].line, 1);
    assert_eq!(ledger.errors[0].kind, ErrorKind::Balance(BalanceError::Unbalanced { sum: 1500 }));
    assert_eq!(ledger.errors[0].kind.message(), "transaction does not balance");
    // reported, and kept
    assert_eq!(ledger.transactions.len(), 1);
}

#[test]
fn ambiguous_elision() {
    let ledger = parse_text("2014-01-01 Two\n  A\n  B\n\n2014-01-02 Next\n  C  $1\n  D\n");
    assert_eq!(ledger.errors.len(), 1);
    assert_eq!(ledger.errors[0].kind, ErrorKind::Balance(BalanceError::Ambiguous));
    assert_eq!(ledger.errors[0].kind.message(), "ambiguous elided amount");
    // the bad transaction is dropped, the next one still assembled
    assert_eq!(ledger.transactions.len(), 1);
    assert_eq!(ledger.transactions[0].description, "Next");
    assert_eq!(quantities(&ledger.transactions[0]), vec![Some(100), Some(-100)]);
}

#[test]
fn transactions_close_on_next_date_and_blank_line() {
    let ledger = parse_text("2014-01-01 A\n  X  1\n  Y\n2014-01-02 B\n  X  2\n  Y  -2\n\n  Z  3\n2014-01-03 C\n");
    assert_eq!(ledger.transactions.len(), 3);
    assert_eq!(ledger.transactions[0].description, "A");
    assert_eq!(ledger.transactions[1].description, "B");
    assert_eq!(ledger.transactions[2].description, "C");
    assert_eq!(ledger.transactions[2].date, Date { year: 2014, month: 1, day: 3 });
    // the posting after the blank line has no transaction
    assert_eq!(ledger.errors.len(), 1);
    assert_eq!(ledger.errors[0].kind, ErrorKind::NoDateForAccount);
    assert_eq!(ledger.errors[0].line, 8);
}

#[test]
fn comment_lines_do_not_close_a_transaction() {
    let ledger = parse_text("2014-01-01 A\n  X  $1\n  ; note\n  Y\n");
    assert_eq!(ledger.errors.len(), 0);
    assert_eq!(quantities(&ledger.transactions[0]), vec![Some(100), Some(-100)]);
}

#[test]
fn status_without_date() {
    let tokens = vec![
        Token::new(TokenType::Status, None, "*", 4),
        Token::new(TokenType::Description, None, "x", 4),
        Token::new(TokenType::EOF, None, "", 4),
    ];
    let ledger = parse(tokens);
    assert_eq!(ledger.errors.len(), 1);
    assert_eq!(ledger.errors[0].kind, ErrorKind::NoDateForStatus);
    assert_eq!(ledger.errors[0].kind.message(), "No Date for Status");
    assert_eq!(ledger.transactions.len(), 0);
}

#[test]
fn description_without_date() {
    let tokens = vec![Token::new(TokenType::Description, None, "x", 2)];
    let ledger = parse(tokens);
    assert_eq!(ledger.errors[0].kind, ErrorKind::NoDateForDescription);
    assert_eq!(ledger.errors[0].line, 2);
}

#[test]
fn amount_without_account() {
    let tokens = vec![
        Token::new(TokenType::Date, None, "2014-01-01", 1),
        Token::new(TokenType::Currency, None, "$1", 2),
    ];
    let ledger = parse(tokens);
    assert_eq!(ledger.errors[0].kind, ErrorKind::NoAccountForAmount);
    assert_eq!(ledger.transactions.len(), 0);
}

#[test]
fn unreadable_amount_drops_the_transaction() {
    let ledger = parse_text("2014-01-01 A\n  X  $1.2.3\n  Y\n\n2014-01-02 B\n");
    assert_eq!(ledger.errors.len(), 1);
    assert_eq!(ledger.errors[0].kind, ErrorKind::BadAmount);
    assert_eq!(ledger.errors[0].line, 2);
    assert_eq!(ledger.transactions.len(), 1);
    assert_eq!(ledger.transactions[0].description, "B");
}

#[test]
fn impossible_date() {
    let ledger = parse_text("2015-02-30 A\n  X  1\n  Y\n");
    assert_eq!(ledger.errors.len(), 1);
    assert_eq!(ledger.errors[0].kind, ErrorKind::BadDate);
    assert_eq!(ledger.transactions.len(), 0);
}

#[test]
fn elided_amount_out_of_range() {
    let ledger = parse_text("2014-01-01 A\n  X  -92233720368547758.08\n  W  -1\n  Y\n");
    assert_eq!(ledger.errors.len(), 1);
    assert_eq!(ledger.errors[0].kind, ErrorKind::Balance(BalanceError::OutOfRange));
    assert_eq!(ledger.errors[0].kind.message(), "elided amount out of range");
}

#[test]
fn dates_in_both_forms() {
    assert_eq!(parse_date("2017-03-04"), Some(Date { year: 2017, month: 3, day: 4 }));
    assert_eq!(parse_date("2017/03/04"), Some(Date { year: 2017, month: 3, day: 4 }));
    assert_eq!(parse_date("2017.03.04"), None);
    assert_eq!(parse_date("2016/02/29"), Some(Date { year: 2016, month: 2, day: 29 }));
    assert_eq!(parse_date("2017/02/29"), None);
}

fn amount(s: &str) -> Option<(String, i64)> {
    parse_amount(s).map(|a| (a.commodity, a.quantity))
}

#[test]
fn amounts_in_hundredths() {
    assert_eq!(amount("$1234.23"), Some(("$".to_string(), 123423)));
    assert_eq!(amount("-$1234.23"), Some(("$".to_string(), -123423)));
    assert_eq!(amount("$-1234.23"), Some(("$".to_string(), -123423)));
    assert_eq!(amount("$.04"), Some(("$".to_string(), 4)));
    assert_eq!(amount("100"), Some(("".to_string(), 10000)));
    assert_eq!(amount("€7.5"), Some(("€".to_string(), 750)));
    assert_eq!(amount("1.239"), Some(("".to_string(), 123)));
    assert_eq!(amount("-$-1"), None);
    assert_eq!(amount("$"), None);
    assert_eq!(amount("$."), None);
    assert_eq!(amount("1a"), None);
    assert_eq!(amount("92233720368547758.07"), Some(("".to_string(), i64::MAX)));
    assert_eq!(amount("92233720368547758.08"), None);
    assert_eq!(amount("-92233720368547758.08"), Some(("".to_string(), i64::MIN)));
}

#[test]
fn accounting_constructors() {
    let account = Account::new("Assets:Cash".to_string());
    assert_eq!(account.name(), "Assets:Cash");
    let amount = Amount::new("$".to_string(), 250);
    let posting = Posting::new(7, account, Some(amount));
    assert_eq!(posting.transaction, 7);
    assert_eq!(posting.amount.as_ref().unwrap().quantity, 250);
    let t = Transaction::new(7, Date { year: 2020, month: 5, day: 6 }, Status::Pending, "Lunch".to_string());
    assert_eq!(t.status, Status::Pending);
    assert_eq!(t.postings.len(), 0);
}

#[test]
fn resolve_balance_fills_the_left_out_amount() {
    let mut t = Transaction::new(1, Date { year: 2020, month: 1, day: 1 }, Status::Unmarked, "x".to_string());
    t.postings.push(Posting::new(1, Account::new("A".to_string()), Some(Amount::new("£".to_string(), 300))));
    t.postings.push(Posting::new(1, Account::new("B".to_string()), None));
    t.postings.push(Posting::new(1, Account::new("C".to_string()), Some(Amount::new("£".to_string(), -100))));
    assert_eq!(t.resolve_balance(), Ok(()));
    assert_eq!(quantities(&t), vec![Some(300), Some(-200), Some(-100)]);
    assert_eq!(t.postings[1].amount.as_ref().unwrap().commodity, "£");
}

#[test]
fn date_step_opens_or_reports() {
    let mut a = Assembler::new();
    a.open_at(3, Some(Date { year: 2020, month: 2, day: 29 }));
    assert_eq!(a.open.as_ref().unwrap().id, 3);
    assert_eq!(a.open.as_ref().unwrap().date, Date { year: 2020, month: 2, day: 29 });
    a.open_at(5, None);
    assert_eq!(a.done.len(), 1);
    assert_eq!(a.done[0].id, 3);
    assert_eq!(a.errors, vec![ParseError { line: 5, kind: ErrorKind::BadDate }]);
    assert!(a.open.is_none());
}

#[test]
fn amount_followed_by_comment() {
    let ledger = parse_text("2014-01-01  !  Rent\n  Expenses:Rent  $5 ; monthly\n  Assets:Cash\n");
    assert_eq!(ledger.errors.len(), 0);
    let t = &ledger.transactions[0];
    assert_eq!(t.status, Status::Pending);
    assert_eq!(t.description, "Rent");
    assert_eq!(quantities(t), vec![Some(500), Some(-500)]);
}
