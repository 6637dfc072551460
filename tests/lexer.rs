use ledger::lexer::{lex, tokenize, tokenize_with_diagnostics, Mode, Scanner, Token, TokenType};
use unicode_segmentation::UnicodeSegmentation;

#[test]
fn test_unicode_graphemes() {
    let s = "  Assets:Cash  $100.25\n";
    let w = UnicodeSegmentation::graphemes(s, true).collect::<Vec<&str>>();
    assert_eq!(w, &[" ", " ", "A", "s", "s", "e", "t", "s", ":", "C", "a", "s", "h", " ", " ", "$", "1", "0", "0", ".", "2", "5", "\n"])
}

#[test]
fn test_unicode_currency() {
    let s = "$1234.23";
    let w = s.split_word_bounds().collect::<Vec<&str>>();
    assert_eq!(w, &["$", "1234.23"]);

    let s = "-$1234.23";
    let w = s.split_word_bounds().collect::<Vec<&str>>();
    assert_eq!(w, &["-", "$", "1234.23"]);

    let s = "$-1234.23";
    let w = s.split_word_bounds().collect::<Vec<&str>>();
    assert_eq!(w, &["$", "-", "1234.23"]);

    let s = "$.04";
    let w = s.split_word_bounds().collect::<Vec<&str>>();
    assert_eq!(w, &["$", ".", "04"]);
}

#[test]
fn test_lex_account() {
    let s = "  Assets:Cash  -$100.25\n".to_string();
    let lexed_line = lex(1, &s);
    assert_eq!(
        lexed_line,
        &[
            Token::new(TokenType::Indentation, None, &"  ", 1),
            Token::new(TokenType::AccountName, None, &"Assets:Cash", 1),
            Token::new(TokenType::Indentation, None, &"  ", 1),
            Token::new(TokenType::Currency, None, &"-$100.25", 1),
        ]
    );

    let s = "  Assets:Cash\n".to_string();
    let lexed_line = lex(2, &s);
    assert_eq!(
        lexed_line,
        &[
            Token::new(TokenType::Indentation, None, &"  ", 2),
            Token::new(TokenType::AccountName, None, &"Assets:Cash", 2),
        ]
    );
}

#[test]
fn test_lex_date_description() {
    let s = "2014-01-01 * A Description\n".to_string();
    let lexed_line = lex(1, &s);
    assert_eq!(
        lexed_line,
        &[
            Token::new(TokenType::Date, None, &"2014-01-01".to_string(), 1),
            Token::new(TokenType::Status, None, &"*", 1),
            Token::new(TokenType::Description, None, &"A Description", 1),
        ]
    );
}

#[test]
fn test_lex_file() {}

fn kinds(tokens: &[Token]) -> Vec<TokenType> {
    tokens.iter().map(|t| *t.token_type()).collect()
}

#[test]
fn header_only_line() {
    let s = "2014-01-01 * Opening Balance".to_string();
    assert_eq!(
        lex(1, &s),
        &[
            Token::new(TokenType::Date, None, "2014-01-01", 1),
            Token::new(TokenType::Status, None, "*", 1),
            Token::new(TokenType::Description, None, "Opening Balance", 1),
        ]
    );
}

#[test]
fn tokenize_ends_with_one_eof() {
    for text in ["", "\n", "2014-01-01 x\n  A  $1\n\n", "\u{0}\u{1}\u{ff}garbage\t\t;", "   \n \n"] {
        let tokens = tokenize(text);
        let eofs = tokens.iter().filter(|t| *t.token_type() == TokenType::EOF).count();
        assert_eq!(eofs, 1);
        assert_eq!(*tokens.last().unwrap().token_type(), TokenType::EOF);
    }
}

#[test]
fn tokenize_whole_file() {
    let text = "; a comment\n2014/02/03 ! Rent\n\tExpenses:Rent  $1560\n  Assets:Cash\n";
    let tokens = tokenize(text);
    assert_eq!(
        kinds(&tokens),
        vec![
            TokenType::Comment,
            TokenType::Newline,
            TokenType::Date,
            TokenType::Status,
            TokenType::Description,
            TokenType::Newline,
            TokenType::Indentation,
            TokenType::AccountName,
            TokenType::Indentation,
            TokenType::Currency,
            TokenType::Newline,
            TokenType::Indentation,
            TokenType::AccountName,
            TokenType::Newline,
            TokenType::EOF,
        ]
    );
    assert_eq!(tokens[0].lexeme(), "; a comment");
    assert_eq!(tokens[2].lexeme(), "2014/02/03");
    assert_eq!(tokens[2].line(), 2);
    assert_eq!(tokens[3].lexeme(), "!");
    assert_eq!(tokens[6].lexeme(), "\t");
    assert_eq!(tokens[7].lexeme(), "Expenses:Rent");
    assert_eq!(tokens[9].lexeme(), "$1560");
    assert_eq!(tokens[14].line(), 5);
}

#[test]
fn account_names_keep_single_spaces() {
    let s = "  Equity:Opening Balances  -$5 ; note\n".to_string();
    assert_eq!(
        lex(3, &s),
        &[
            Token::new(TokenType::Indentation, None, "  ", 3),
            Token::new(TokenType::AccountName, None, "Equity:Opening Balances", 3),
            Token::new(TokenType::Indentation, None, "  ", 3),
            Token::new(TokenType::Currency, None, "-$5", 3),
            Token::new(TokenType::Comment, None, "; note", 3),
        ]
    );
}

#[test]
fn separator_after_date_is_indentation() {
    let s = "2014-01-01  Opening Balance".to_string();
    assert_eq!(
        lex(1, &s),
        &[
            Token::new(TokenType::Date, None, "2014-01-01", 1),
            Token::new(TokenType::Indentation, None, "  ", 1),
            Token::new(TokenType::Description, None, "Opening Balance", 1),
        ]
    );
    let s = "2014-01-01\t*\tRent".to_string();
    assert_eq!(
        lex(1, &s),
        &[
            Token::new(TokenType::Date, None, "2014-01-01", 1),
            Token::new(TokenType::Indentation, None, "\t", 1),
            Token::new(TokenType::Status, None, "*", 1),
            Token::new(TokenType::Indentation, None, "\t", 1),
            Token::new(TokenType::Description, None, "Rent", 1),
        ]
    );
}

#[test]
fn date_dividers_need_a_digit_after() {
    let s = "2014-01- x".to_string();
    let tokens = lex(1, &s);
    assert_eq!(tokens[0], Token::new(TokenType::Date, None, "2014-01", 1));
    assert_eq!(tokens[1], Token::new(TokenType::Description, None, "- x", 1));
}

#[test]
fn digit_status_and_no_status() {
    let s = "2014-01-01 42 Paid".to_string();
    let tokens = lex(1, &s);
    assert_eq!(tokens[1], Token::new(TokenType::Status, None, "42", 1));
    assert_eq!(tokens[2], Token::new(TokenType::Description, None, "Paid", 1));
    let s = "2014-01-01 *Paid".to_string();
    let tokens = lex(1, &s);
    assert_eq!(tokens.len(), 2);
    assert_eq!(tokens[1], Token::new(TokenType::Description, None, "*Paid", 1));
}

#[test]
fn unexpected_graphemes_are_reported_and_skipped() {
    let (tokens, diagnostics) = tokenize_with_diagnostics(" x\n2014-01-01 ok");
    assert_eq!(diagnostics.len(), 2);
    assert_eq!(diagnostics[0].line, 1);
    assert_eq!(diagnostics[0].message, "Unexpected character.");
    assert_eq!(
        kinds(&tokens),
        vec![TokenType::Newline, TokenType::Date, TokenType::Description, TokenType::EOF]
    );
    assert_eq!(tokens[3].line(), 2);
}

#[test]
fn crlf_is_a_line_break() {
    let tokens = tokenize("2014-01-01 a\r\n  B  $1");
    assert_eq!(tokens[2], Token::new(TokenType::Newline, None, "\r\n", 1));
    assert_eq!(tokens[3].line(), 2);
}

#[test]
fn separator_is_indentation_in_every_mode() {
    let modes = [
        Mode::LineStart,
        Mode::Header,
        Mode::Status,
        Mode::AfterStatus,
        Mode::Description,
        Mode::Account,
        Mode::AfterAccount,
        Mode::Amount,
        Mode::AfterAmount,
        Mode::Trailing,
    ];
    for mode in modes {
        let mut scanner = Scanner::new(vec![" ".to_string(), " ".to_string(), "x".to_string()]);
        scanner.mode = mode;
        scanner.scan_token();
        assert_eq!(scanner.tokens, vec![Token::new(TokenType::Indentation, None, "  ", 1)]);
        assert_eq!(scanner.current, 2);
    }
}

#[test]
fn scanning_keeps_earlier_tokens() {
    let mut scanner = Scanner::new(vec!["2".to_string(), " ".to_string(), "x".to_string(), "\n".to_string()]);
    scanner.scan_token();
    let first = scanner.tokens.clone();
    while !scanner.is_at_end() {
        scanner.scan_token();
    }
    assert_eq!(&scanner.tokens[..1], &first[..]);
    assert_eq!(scanner.tokens.len(), 3);
    assert_eq!(scanner.line, 2);
}
