//! Assembly of transactions from a token stream.
//!
//! The assembler is a state machine fed one token at a time. A date opens a
//! transaction, closing the one before; status, description and postings
//! fill it; a blank line, the next date or the end of input closes it, and
//! closing applies the zero-sum rule. A structural error drops the
//! transaction it occurs in, and the tokens up to the next date or blank line
//! are passed over; later transactions are assembled as usual.
use crate::accounting::{
    posting_views, Account, AmountView, Date, Posting, PostingView, Status, Transaction,
    TransactionView,
};
use crate::amount::{amount_parts, parse_amount};
use crate::balance::{elided_count, fill_one, filled, first_commodity, quantity_sum, resolved, BalanceError};
use crate::lexer::{specs_of, token_stream, tokenize, Token, TokenSpec, TokenType};
use vstd::prelude::*;

verus! {

/// The year, month and day that a text writes in a given format.
pub uninterp spec fn ymd_of(text: Seq<char>, format: Seq<char>) -> Option<(i32, u32, u32)>;

/// Relies on chrono's `NaiveDate::parse_from_str`, read back through
/// `Datelike::{year, month, day}`: the result depends on the text and the
/// format alone, and a date that parses has a month from 1 to 12 and a day
/// from 1 to 31.
#[verifier::external_body]
fn parse_ymd(text: &str, format: &str) -> (r: Option<(i32, u32, u32)>)
    ensures
        r == ymd_of(text@, format@),
        r matches Some((_, m, d)) ==> 1 <= m <= 12 && 1 <= d <= 31,
{
    match chrono::NaiveDate::parse_from_str(text, format) {
        Ok(d) => Some((chrono::Datelike::year(&d), chrono::Datelike::month(&d), chrono::Datelike::day(&d))),
        Err(_) => None,
    }
}

/// The date that a text writes as `YYYY-MM-DD` or, failing that, `YYYY/MM/DD`.
pub open spec fn date_from(text: Seq<char>) -> Option<Date> {
    match ymd_of(text, "%Y-%m-%d"@) {
        Some((y, m, d)) => Some(Date { year: y, month: m, day: d }),
        None => match ymd_of(text, "%Y/%m/%d"@) {
            Some((y, m, d)) => Some(Date { year: y, month: m, day: d }),
            None => None,
        },
    }
}

/// Reads a date written `YYYY-MM-DD` or `YYYY/MM/DD`.
pub fn parse_date(text: &str) -> (r: Option<Date>)
    ensures
        r == date_from(text@),
        r matches Some(d) ==> 1 <= d.month <= 12 && 1 <= d.day <= 31,
{
    match parse_ymd(text, "%Y-%m-%d") {
        Some((y, m, d)) => Some(Date { year: y, month: m, day: d }),
        None => match parse_ymd(text, "%Y/%m/%d") {
            Some((y, m, d)) => Some(Date { year: y, month: m, day: d }),
            None => None,
        },
    }
}

/// What went wrong in assembling a transaction.
#[derive(Debug, Clone, Copy, PartialEq, Eq, Structural)]
pub enum ErrorKind {
    /// A status that does not follow the date of an open transaction.
    NoDateForStatus,
    /// A description outside an open transaction.
    NoDateForDescription,
    /// A posting outside an open transaction.
    NoDateForAccount,
    /// An amount with no account before it.
    NoAccountForAmount,
    /// A date that is no calendar date.
    BadDate,
    /// An amount that cannot be read.
    BadAmount,
    /// The postings cannot be brought to balance.
    Balance(BalanceError),
}

impl ErrorKind {
    /// The message that reports the error.
    pub fn message(&self) -> (r: String)
        ensures
            *self == ErrorKind::NoDateForStatus ==> r@ == "No Date for Status"@,
            *self == ErrorKind::NoDateForDescription ==> r@ == "No Date for Description"@,
            *self == ErrorKind::NoDateForAccount ==> r@ == "No Date for Account Name"@,
            *self == ErrorKind::NoAccountForAmount ==> r@ == "No Account for Amount"@,
            *self == ErrorKind::BadDate ==> r@ == "Date is not parseable"@,
            *self == ErrorKind::BadAmount ==> r@ == "Could not parse amount"@,
            self matches ErrorKind::Balance(BalanceError::Unbalanced { .. }) ==> r@ == "transaction does not balance"@,
            *self == ErrorKind::Balance(BalanceError::Ambiguous) ==> r@ == "ambiguous elided amount"@,
            *self == ErrorKind::Balance(BalanceError::OutOfRange) ==> r@ == "elided amount out of range"@,
    {
        match self {
            ErrorKind::NoDateForStatus => "No Date for Status".to_string(),
            ErrorKind::NoDateForDescription => "No Date for Description".to_string(),
            ErrorKind::NoDateForAccount => "No Date for Account Name".to_string(),
            ErrorKind::NoAccountForAmount => "No Account for Amount".to_string(),
            ErrorKind::BadDate => "Date is not parseable".to_string(),
            ErrorKind::BadAmount => "Could not parse amount".to_string(),
            ErrorKind::Balance(e) => e.message(),
        }
    }
}

/// An error and the line it was found on.
#[derive(Debug, Clone, Copy, PartialEq, Eq, Structural)]
pub struct ParseError {
    pub line: usize,
    pub kind: ErrorKind,
}

/// The assembler's state as values.
pub struct AsmView {
    /// The transaction being assembled.
    pub open: Option<TransactionView>,
    /// The account of a posting whose amount has not come yet.
    pub pending: Option<Seq<char>>,
    /// Whether the last token was the date of the open transaction.
    pub after_date: bool,
    /// Whether tokens are passed over after an error.
    pub skipping: bool,
    /// Whether the current line has held nothing but indentation.
    pub blank: bool,
    /// The closed transactions, in order.
    pub done: Seq<TransactionView>,
    /// The errors, in order.
    pub errors: Seq<ParseError>,
}

/// The state before the first token.
pub open spec fn initial() -> AsmView {
    AsmView {
        open: None,
        pending: None,
        after_date: false,
        skipping: false,
        blank: true,
        done: Seq::empty(),
        errors: Seq::empty(),
    }
}

/// The transaction with the pending posting, if any, added without amount.
pub open spec fn with_pending(t: TransactionView, pending: Option<Seq<char>>) -> TransactionView {
    match pending {
        Some(a) => TransactionView {
            postings: t.postings.push(PostingView { transaction: t.id, account: a, amount: None }),
            ..t
        },
        None => t,
    }
}

/// Closes the open transaction: its pending posting is added without
/// amount and the zero-sum rule applied. A transaction that does not sum to
/// zero is kept and reported; one that cannot be resolved is reported and
/// dropped.
pub open spec fn close(s: AsmView) -> AsmView {
    let s1 = AsmView { open: None, pending: None, after_date: false, skipping: false, ..s };
    match s.open {
        None => s1,
        Some(t) => {
            let t2 = with_pending(t, s.pending);
            match resolved(t2) {
                Ok(r) => AsmView { done: s.done.push(r), ..s1 },
                Err(e) => {
                    let err = ParseError { line: t.id as usize, kind: ErrorKind::Balance(e) };
                    if e is Unbalanced {
                        AsmView { done: s.done.push(t2), errors: s.errors.push(err), ..s1 }
                    } else {
                        AsmView { errors: s.errors.push(err), ..s1 }
                    }
                },
            }
        },
    }
}

/// Drops the open transaction on a structural error.
pub open spec fn abort(s: AsmView, line: int, kind: ErrorKind) -> AsmView {
    AsmView {
        open: None,
        pending: None,
        after_date: false,
        skipping: true,
        blank: false,
        errors: s.errors.push(ParseError { line: line as usize, kind }),
        ..s
    }
}

/// The status that a marker stands for.
pub open spec fn status_of(text: Seq<char>) -> Status {
    if text == seq!['!'] {
        Status::Pending
    } else if text == seq!['*'] {
        Status::Cleared
    } else {
        Status::Unmarked
    }
}

/// The state after a header's date on line `line`, read as `date`: the open
/// transaction is closed and a new one opened, or, where the date could not
/// be read, the error reported.
pub open spec fn open_at(s: AsmView, line: int, date: Option<Date>) -> AsmView {
    let s1 = close(s);
    match date {
        Some(d) => AsmView {
            open: Some(TransactionView { id: line, date: d, status: Status::Unmarked, description: Seq::empty(), postings: Seq::empty() }),
            after_date: true,
            blank: false,
            ..s1
        },
        None => abort(s1, line, ErrorKind::BadDate),
    }
}

/// The state after one token.
pub open spec fn consume(s: AsmView, t: TokenSpec) -> AsmView {
    match t.kind {
        TokenType::Date => open_at(s, t.line, date_from(t.text)),
        TokenType::Newline => if s.blank {
            AsmView { blank: true, ..close(s) }
        } else {
            AsmView { blank: true, after_date: false, ..s }
        },
        TokenType::EOF => close(s),
        TokenType::Indentation => s,
        TokenType::Comment => AsmView { blank: false, ..s },
        _ => if s.skipping {
            AsmView { blank: false, ..s }
        } else {
            match s.open {
                None => abort(s, t.line, match t.kind {
                    TokenType::Status => ErrorKind::NoDateForStatus,
                    TokenType::Description => ErrorKind::NoDateForDescription,
                    _ => ErrorKind::NoDateForAccount,
                }),
                Some(o) => match t.kind {
                    TokenType::Status => if s.after_date {
                        AsmView { open: Some(TransactionView { status: status_of(t.text), ..o }), after_date: false, blank: false, ..s }
                    } else {
                        abort(s, t.line, ErrorKind::NoDateForStatus)
                    },
                    TokenType::Description => AsmView {
                        open: Some(TransactionView { description: t.text, ..o }),
                        after_date: false,
                        blank: false,
                        ..s
                    },
                    TokenType::AccountName => AsmView {
                        open: Some(with_pending(o, s.pending)),
                        pending: Some(t.text),
                        after_date: false,
                        blank: false,
                        ..s
                    },
                    _ => match s.pending {
                        None => abort(s, t.line, ErrorKind::NoAccountForAmount),
                        Some(a) => match amount_parts(t.text) {
                            None => abort(s, t.line, ErrorKind::BadAmount),
                            Some((c, q)) => AsmView {
                                open: Some(TransactionView {
                                    postings: o.postings.push(PostingView {
                                        transaction: o.id,
                                        account: a,
                                        amount: Some(AmountView { commodity: c, quantity: q }),
                                    }),
                                    ..o
                                }),
                                pending: None,
                                after_date: false,
                                blank: false,
                                ..s
                            },
                        },
                    },
                },
            }
        },
    }
}

/// The state after a list of tokens, from the start.
pub open spec fn assemble(ts: Seq<TokenSpec>) -> AsmView
    decreases ts.len(),
{
    if ts.len() == 0 {
        initial()
    } else {
        consume(assemble(ts.drop_last()), ts.last())
    }
}


/// The views of a list of transactions.
pub open spec fn transaction_views(v: Seq<Transaction>) -> Seq<TransactionView> {
    v.map_values(|t: Transaction| t@)
}

/// Assembles transactions from tokens, one token at a time.
pub struct Assembler {
    pub open: Option<Transaction>,
    pub pending: Option<Account>,
    pub after_date: bool,
    pub skipping: bool,
    pub blank: bool,
    pub done: Vec<Transaction>,
    pub errors: Vec<ParseError>,
}

impl View for Assembler {
    type V = AsmView;

    open spec fn view(&self) -> AsmView {
        AsmView {
            open: match self.open {
                Some(t) => Some(t@),
                None => None,
            },
            pending: match self.pending {
                Some(a) => Some(a.name@),
                None => None,
            },
            after_date: self.after_date,
            skipping: self.skipping,
            blank: self.blank,
            done: transaction_views(self.done@),
            errors: self.errors@,
        }
    }
}

/// The status that a marker stands for.
pub fn status_from(text: &String) -> (r: Status)
    ensures
        r == status_of(text@),
{
    if crate::segment::is_char(text, '!') {
        Status::Pending
    } else if crate::segment::is_char(text, '*') {
        Status::Cleared
    } else {
        Status::Unmarked
    }
}

/// Adds the pending posting, without amount, to a transaction.
fn add_pending(t: &mut Transaction, pending: Option<Account>)
    ensures
        final(t)@ == with_pending(old(t)@, match pending {
            Some(a) => Some(a.name@),
            None => None,
        }),
        final(t).edate == old(t).edate,
        final(t).code == old(t).code,
{
    match pending {
        Some(a) => {
            let id = t.id;
            let ghost before = t.postings@;
            t.postings.push(Posting { transaction: id, account: a, amount: None });
            assert(posting_views(t.postings@) =~= posting_views(before).push(
                PostingView { transaction: id as int, account: a.name@, amount: None },
            ));
        },
        None => {},
    }
}

impl Assembler {
    pub fn new() -> (r: Assembler)
        ensures
            r@ == initial(),
    {
        let r = Assembler {
            open: None,
            pending: None,
            after_date: false,
            skipping: false,
            blank: true,
            done: Vec::new(),
            errors: Vec::new(),
        };
        assert(r@.done =~= Seq::<TransactionView>::empty());
        r
    }

    /// Closes the open transaction (see [`close`]).
    pub fn close(&mut self)
        ensures
            final(self)@ == close(old(self)@),
    {
        let open = self.open.take();
        let pending = self.pending.take();
        self.after_date = false;
        self.skipping = false;
        match open {
            None => {},
            Some(t) => {
                let mut t = t;
                let id = t.id;
                add_pending(&mut t, pending);
                let ghost t2 = t;
                let ghost done0 = self.done@;
                match t.resolve_balance() {
                    Ok(()) => {
                        self.done.push(t);
                        assert(transaction_views(self.done@) =~= transaction_views(done0).push(t@));
                    },
                    Err(e) => {
                        self.errors.push(ParseError { line: id, kind: ErrorKind::Balance(e) });
                        match e {
                            BalanceError::Unbalanced { .. } => {
                                self.done.push(t);
                                assert(transaction_views(self.done@) =~= transaction_views(done0).push(t2@));
                            },
                            _ => {},
                        }
                    },
                }
            },
        }
    }

    /// Takes a header's date (see [`open_at`]).
    pub fn open_at(&mut self, line: usize, date: Option<Date>)
        ensures
            final(self)@ == open_at(old(self)@, line as int, date),
    {
        self.close();
        match date {
            Some(d) => {
                let tx = Transaction::new(line, d, Status::Unmarked, String::new());
                assert(posting_views(tx.postings@) =~= Seq::<PostingView>::empty());
                self.open = Some(tx);
                self.after_date = true;
                self.blank = false;
            },
            None => self.abort(line, ErrorKind::BadDate),
        }
    }

    /// Drops the open transaction on a structural error (see [`abort`]).
    pub fn abort(&mut self, line: usize, kind: ErrorKind)
        ensures
            final(self)@ == abort(old(self)@, line as int, kind),
    {
        self.open = None;
        self.pending = None;
        self.after_date = false;
        self.skipping = true;
        self.blank = false;
        self.errors.push(ParseError { line, kind });
    }

    /// Takes one token (see [`consume`]).
    pub fn consume(&mut self, t: &Token)
        ensures
            final(self)@ == consume(old(self)@, t.spec()),
    {
        match t.token_type {
            TokenType::Date => {
                let date = parse_date(t.lexeme.as_str());
                self.open_at(t.line, date);
            },
            TokenType::Newline => {
                if self.blank {
                    self.close();
                } else {
                    self.after_date = false;
                }
                self.blank = true;
            },
            TokenType::EOF => self.close(),
            TokenType::Indentation => {},
            TokenType::Comment => {
                self.blank = false;
            },
            _ => {
                if self.skipping {
                    self.blank = false;
                } else if self.open.is_none() {
                    let kind = match t.token_type {
                        TokenType::Status => ErrorKind::NoDateForStatus,
                        TokenType::Description => ErrorKind::NoDateForDescription,
                        _ => ErrorKind::NoDateForAccount,
                    };
                    self.abort(t.line, kind);
                } else {
                    self.fill(t);
                }
            },
        }
    }

    /// Takes a status, description, account or amount into the open
    /// transaction.
    fn fill(&mut self, t: &Token)
        requires
            old(self).open is Some,
            !old(self).skipping,
            t.token_type == TokenType::Status || t.token_type == TokenType::Description
                || t.token_type == TokenType::AccountName || t.token_type == TokenType::Currency,
        ensures
            final(self)@ == consume(old(self)@, t.spec()),
    {
        let ghost s = self@;
        match t.token_type {
            TokenType::Status => {
                if self.after_date {
                    let st = status_from(&t.lexeme);
                    match self.open.take() {
                        Some(mut o) => {
                            o.status = st;
                            self.open = Some(o);
                        },
                        None => {},
                    }
                    self.after_date = false;
                    self.blank = false;
                } else {
                    self.abort(t.line, ErrorKind::NoDateForStatus);
                }
            },
            TokenType::Description => {
                match self.open.take() {
                    Some(mut o) => {
                        o.description = t.lexeme.clone();
                        self.open = Some(o);
                    },
                    None => {},
                }
                self.after_date = false;
                self.blank = false;
            },
            TokenType::AccountName => {
                let pending = self.pending.take();
                match self.open.take() {
                    Some(mut o) => {
                        add_pending(&mut o, pending);
                        self.open = Some(o);
                    },
                    None => {},
                }
                self.pending = Some(Account::new(t.lexeme.clone()));
                self.after_date = false;
                self.blank = false;
            },
            _ => {
                match self.pending.take() {
                    None => self.abort(t.line, ErrorKind::NoAccountForAmount),
                    Some(a) => match parse_amount(t.lexeme.as_str()) {
                        None => self.abort(t.line, ErrorKind::BadAmount),
                        Some(amount) => {
                            match self.open.take() {
                                Some(mut o) => {
                                    let id = o.id;
                                    let ghost before = o.postings@;
                                    let ghost av = amount@;
                                    o.postings.push(Posting { transaction: id, account: a, amount: Some(amount) });
                                    assert(posting_views(o.postings@) =~= posting_views(before).push(
                                        PostingView { transaction: id as int, account: a.name@, amount: Some(av) },
                                    ));
                                    self.open = Some(o);
                                },
                                None => {},
                            }
                            self.after_date = false;
                            self.blank = false;
                        },
                    },
                }
            },
        }
    }
}

/// The transactions and errors of an assembled ledger.
pub struct LedgerView {
    pub transactions: Seq<TransactionView>,
    pub errors: Seq<ParseError>,
}

/// The closed transactions, in order, and the errors found on the way.
pub struct Ledger {
    pub transactions: Vec<Transaction>,
    pub errors: Vec<ParseError>,
}

impl View for Ledger {
    type V = LedgerView;

    open spec fn view(&self) -> LedgerView {
        LedgerView { transactions: transaction_views(self.transactions@), errors: self.errors@ }
    }
}

/// The ledger that the state comes to once the open transaction is closed.
pub open spec fn ledger_of(s: AsmView) -> LedgerView {
    LedgerView { transactions: close(s).done, errors: close(s).errors }
}

/// Assembles the transactions that a token stream writes.
pub fn parse(tokens: Vec<Token>) -> (r: Ledger)
    ensures
        r@ == ledger_of(assemble(specs_of(tokens@))),
{
    let mut assembler = Assembler::new();
    let mut i: usize = 0;
    while i < tokens.len()
        invariant
            i <= tokens@.len(),
            assembler@ == assemble(specs_of(tokens@.subrange(0, i as int))),
        decreases tokens@.len() - i,
    {
        proof {
            assert(specs_of(tokens@.subrange(0, i as int + 1)).drop_last() =~= specs_of(tokens@.subrange(0, i as int)));
        }
        assembler.consume(&tokens[i]);
        i = i + 1;
    }
    proof {
        assert(tokens@.subrange(0, tokens@.len() as int) =~= tokens@);
    }
    assembler.close();
    Ledger { transactions: assembler.done, errors: assembler.errors }
}


/// Scans and assembles a whole text.
pub fn parse_text(text: &str) -> (r: Ledger)
    ensures
        r@ == ledger_of(assemble(token_stream(text@))),
{
    parse(tokenize(text))
}


/// Whether every posting of every transaction gives its amount.
pub open spec fn all_given(ts: Seq<TransactionView>) -> bool {
    forall|i: int| 0 <= i < ts.len() ==> elided_count(#[trigger] ts[i].postings) == 0
}

proof fn lemma_filled_given(ps: Seq<PostingView>, c: Seq<char>, q: int)
    ensures
        elided_count(filled(ps, c, q)) == 0,
    decreases ps.len(),
{
    if ps.len() > 0 {
        assert(filled(ps, c, q).drop_last() =~= filled(ps.drop_last(), c, q));
        lemma_filled_given(ps.drop_last(), c, q);
    }
}

proof fn lemma_close_given(s: AsmView)
    requires
        all_given(s.done),
    ensures
        all_given(close(s).done),
{
    if let Some(t) = s.open {
        let t2 = with_pending(t, s.pending);
        if let Ok(r) = resolved(t2) {
            if elided_count(t2.postings) == 1 {
                lemma_filled_given(t2.postings, first_commodity(t2.postings), -quantity_sum(t2.postings));
            }
            assert(elided_count(r.postings) == 0);
        }
        assert forall|i: int| 0 <= i < close(s).done.len() implies elided_count(#[trigger] close(s).done[i].postings) == 0 by {
            if i < s.done.len() {
                assert(close(s).done[i] == s.done[i]);
            }
        }
    }
}

/// Every transaction that a token stream assembles into gives every amount:
/// the one a transaction may leave out is filled in when it closes, and a
/// transaction that leaves out more is not kept.
pub proof fn ledger_amounts_given(ts: Seq<TokenSpec>)
    ensures
        all_given(ledger_of(assemble(ts)).transactions),
{
    lemma_assemble_given(ts);
    lemma_close_given(assemble(ts));
}

proof fn lemma_assemble_given(ts: Seq<TokenSpec>)
    ensures
        all_given(assemble(ts).done),
    decreases ts.len(),
{
    if ts.len() > 0 {
        lemma_assemble_given(ts.drop_last());
        let s = assemble(ts.drop_last());
        lemma_close_given(s);
    }
}


/// Whether each transaction sums to zero or is reported, with its sum, as
/// not balancing.
pub open spec fn balanced_or_reported(ts: Seq<TransactionView>, errors: Seq<ParseError>) -> bool {
    forall|i: int|
        0 <= i < ts.len() ==> quantity_sum(#[trigger] ts[i].postings) == 0 || exists|j: int|
            0 <= j < errors.len() && errors[j] == ParseError {
                line: ts[i].id as usize,
                kind: ErrorKind::Balance(BalanceError::Unbalanced { sum: quantity_sum(ts[i].postings) as i128 }),
            }
}

proof fn lemma_filled_sum(ps: Seq<PostingView>, c: Seq<char>, q: int)
    ensures
        quantity_sum(filled(ps, c, q)) == quantity_sum(ps) + elided_count(ps) * q,
    decreases ps.len(),
{
    if ps.len() > 0 {
        let f = filled(ps, c, q);
        assert(f.drop_last() =~= filled(ps.drop_last(), c, q));
        assert(f.last() == fill_one(ps.last(), c, q));
        lemma_filled_sum(ps.drop_last(), c, q);
        let k = elided_count(ps.drop_last()) as int;
        let prev = quantity_sum(ps.drop_last());
        if ps.last().amount is None {
            assert(quantity_sum(f) == prev + k * q + q);
            assert(quantity_sum(ps) == prev);
            assert(elided_count(ps) == k + 1);
            assert(k * q + q == (k + 1) * q) by (nonlinear_arith);
            assert(elided_count(ps) * q == (k + 1) * q);
        } else {
            assert(f.last().amount == ps.last().amount);
            assert(elided_count(ps) == k);
            assert(quantity_sum(f) == prev + k * q + quantity_sum(ps) - prev);
        }
    } else {
        assert(filled(ps, c, q).len() == 0);
        assert(quantity_sum(filled(ps, c, q)) == 0);
        assert(elided_count(ps) == 0);
        assert(elided_count(ps) * q == 0);
    }
}

proof fn lemma_keep_reported(ts: Seq<TransactionView>, errors: Seq<ParseError>, more: Seq<ParseError>)
    requires
        balanced_or_reported(ts, errors),
    ensures
        balanced_or_reported(ts, errors + more),
{
    assert forall|i: int| 0 <= i < ts.len() && quantity_sum(#[trigger] ts[i].postings) != 0 implies exists|j: int|
        0 <= j < (errors + more).len() && (errors + more)[j] == ParseError {
            line: ts[i].id as usize,
            kind: ErrorKind::Balance(BalanceError::Unbalanced { sum: quantity_sum(ts[i].postings) as i128 }),
        } by {
        let j = choose|j: int|
            0 <= j < errors.len() && errors[j] == ParseError {
                line: ts[i].id as usize,
                kind: ErrorKind::Balance(BalanceError::Unbalanced { sum: quantity_sum(ts[i].postings) as i128 }),
            };
        assert((errors + more)[j] == errors[j]);
    }
}

proof fn lemma_close_reported(s: AsmView)
    requires
        balanced_or_reported(s.done, s.errors),
    ensures
        balanced_or_reported(close(s).done, close(s).errors),
{
    if let Some(t) = s.open {
        let t2 = with_pending(t, s.pending);
        let c = close(s);
        let extra = c.errors.subrange(s.errors.len() as int, c.errors.len() as int);
        assert(c.errors =~= s.errors + extra);
        lemma_keep_reported(s.done, s.errors, extra);
        if let Ok(r) = resolved(t2) {
            if elided_count(t2.postings) == 1 {
                lemma_filled_sum(t2.postings, first_commodity(t2.postings), -quantity_sum(t2.postings));
            }
        }
        assert forall|i: int| 0 <= i < c.done.len() && quantity_sum(#[trigger] c.done[i].postings) != 0 implies exists|j: int|
            0 <= j < c.errors.len() && c.errors[j] == ParseError {
                line: c.done[i].id as usize,
                kind: ErrorKind::Balance(BalanceError::Unbalanced { sum: quantity_sum(c.done[i].postings) as i128 }),
            } by {
            if i < s.done.len() {
                assert(c.done[i] == s.done[i]);
            } else {
                assert(c.errors[s.errors.len() as int] == ParseError {
                    line: t.id as usize,
                    kind: ErrorKind::Balance(BalanceError::Unbalanced { sum: quantity_sum(t2.postings) as i128 }),
                });
            }
        }
    }
}

proof fn lemma_assemble_reported(ts: Seq<TokenSpec>)
    ensures
        balanced_or_reported(assemble(ts).done, assemble(ts).errors),
    decreases ts.len(),
{
    if ts.len() > 0 {
        lemma_assemble_reported(ts.drop_last());
        let s = assemble(ts.drop_last());
        let t = ts.last();
        lemma_close_reported(s);
        let c = close(s);
        let n = consume(s, t);
        if t.kind == TokenType::Date || t.kind == TokenType::EOF || (t.kind == TokenType::Newline && s.blank) {
            assert(n.done == c.done);
            let extra = n.errors.subrange(c.errors.len() as int, n.errors.len() as int);
            assert(n.errors =~= c.errors + extra);
            lemma_keep_reported(c.done, c.errors, extra);
        } else {
            assert(n.done == s.done);
            let extra = n.errors.subrange(s.errors.len() as int, n.errors.len() as int);
            assert(n.errors =~= s.errors + extra);
            lemma_keep_reported(s.done, s.errors, extra);
        }
    }
}

/// Every transaction that a token stream assembles into sums to zero, or the
/// ledger reports, on the transaction's line, that it does not balance and
/// by how much.
pub proof fn ledger_balanced_or_reported(ts: Seq<TokenSpec>)
    ensures
        balanced_or_reported(ledger_of(assemble(ts)).transactions, ledger_of(assemble(ts)).errors),
{
    lemma_assemble_reported(ts);
    lemma_close_reported(assemble(ts));
}


/// Closing a transaction that gives every amount, where the amounts do not
/// sum to zero, keeps the transaction as it is and reports on its line that
/// it does not balance, with the sum; assembly goes on from a clean state.
pub proof fn unbalanced_reported(s: AsmView)
    requires
        s.open is Some,
        elided_count(with_pending(s.open->0, s.pending).postings) == 0,
        quantity_sum(with_pending(s.open->0, s.pending).postings) != 0,
    ensures
        close(s).done == s.done.push(with_pending(s.open->0, s.pending)),
        close(s).errors == s.errors.push(
            ParseError {
                line: s.open->0.id as usize,
                kind: ErrorKind::Balance(
                    BalanceError::Unbalanced { sum: quantity_sum(with_pending(s.open->0, s.pending).postings) as i128 },
                ),
            },
        ),
        close(s).open is None && !close(s).skipping,
{
}

/// Closing a transaction in which more than one posting leaves its amount
/// out drops the transaction, fills in no amount, and reports on its line
/// that the left-out amount is ambiguous; assembly goes on from a clean
/// state.
pub proof fn ambiguous_dropped(s: AsmView)
    requires
        s.open is Some,
        elided_count(with_pending(s.open->0, s.pending).postings) >= 2,
    ensures
        close(s).done == s.done,
        close(s).errors == s.errors.push(
            ParseError { line: s.open->0.id as usize, kind: ErrorKind::Balance(BalanceError::Ambiguous) },
        ),
        close(s).open is None && !close(s).skipping,
{
}


/// Closing a transaction that gives every amount, where the amounts sum to
/// zero, keeps it as it is and reports nothing.
pub proof fn balanced_kept(s: AsmView)
    requires
        s.open is Some,
        elided_count(with_pending(s.open->0, s.pending).postings) == 0,
        quantity_sum(with_pending(s.open->0, s.pending).postings) == 0,
    ensures
        close(s).done == s.done.push(with_pending(s.open->0, s.pending)),
        close(s).errors == s.errors,
{
}

} // verus!
