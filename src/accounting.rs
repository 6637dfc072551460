//! Accounts, amounts, postings and transactions, and the rule that the
//! postings of a transaction sum to zero.
use vstd::prelude::*;

verus! {

/// An account, named by colon-separated parts kept as one text.
#[derive(Debug)]
pub struct Account {
    pub name: String,
}

impl Account {
    pub fn new(s: String) -> (r: Account)
        ensures
            r.name@ == s@,
    {
        Account { name: s }
    }

    pub fn name(&self) -> (r: &String)
        ensures
            r@ == self.name@,
    {
        &self.name
    }

    /// A copy of the account.
    pub fn duplicate(&self) -> (r: Account)
        ensures
            r == *self,
    {
        Account { name: self.name.clone() }
    }
}

/// A signed quantity of a commodity, in hundredths of its unit.
#[derive(Debug)]
pub struct Amount {
    pub commodity: String,
    pub quantity: i64,
}

impl Amount {
    pub fn new(commodity: String, quantity: i64) -> (r: Amount)
        ensures
            r.commodity@ == commodity@,
            r.quantity == quantity,
    {
        Amount { commodity, quantity }
    }

    /// A copy of the amount.
    pub fn duplicate(&self) -> (r: Amount)
        ensures
            r == *self,
    {
        Amount { commodity: self.commodity.clone(), quantity: self.quantity }
    }
}

/// How far a transaction has been reconciled.
#[derive(Debug, Clone, Copy, PartialEq, Eq, Structural)]
pub enum Status {
    Unmarked,
    Pending,
    Cleared,
}

/// A calendar date.
#[derive(Debug, Clone, Copy, PartialEq, Eq, Structural)]
pub struct Date {
    pub year: i32,
    pub month: u32,
    pub day: u32,
}

/// One account-side effect of a transaction; the transaction is named by
/// its identifier, and an amount left out is to be inferred.
#[derive(Debug)]
pub struct Posting {
    pub transaction: usize,
    pub account: Account,
    pub amount: Option<Amount>,
}

impl Posting {
    pub fn new(transaction: usize, account: Account, amount: Option<Amount>) -> (r: Posting)
        ensures
            r.transaction == transaction,
            r.account == account,
            r.amount == amount,
    {
        Posting { transaction, account, amount }
    }
}

/// A dated transaction and the postings it owns.
#[derive(Debug)]
pub struct Transaction {
    pub id: usize,
    pub date: Date,
    pub edate: Option<Date>,
    pub status: Status,
    pub code: String,
    pub description: String,
    pub postings: Vec<Posting>,
}

impl Transaction {
    pub fn new(id: usize, date: Date, status: Status, desc: String) -> (r: Transaction)
        ensures
            r.id == id,
            r.date == date,
            r.edate is None,
            r.status == status,
            r.code@.len() == 0,
            r.description@ == desc@,
            r.postings@.len() == 0,
    {
        Transaction { id, date, edate: None, status, code: String::new(), description: desc, postings: Vec::new() }
    }
}


/// An amount as commodity and quantity.
pub struct AmountView {
    pub commodity: Seq<char>,
    pub quantity: int,
}

/// A posting as transaction, account name and amount.
pub struct PostingView {
    pub transaction: int,
    pub account: Seq<char>,
    pub amount: Option<AmountView>,
}

/// A transaction as its header and its postings.
pub struct TransactionView {
    pub id: int,
    pub date: Date,
    pub status: Status,
    pub description: Seq<char>,
    pub postings: Seq<PostingView>,
}

impl View for Amount {
    type V = AmountView;

    open spec fn view(&self) -> AmountView {
        AmountView { commodity: self.commodity@, quantity: self.quantity as int }
    }
}

impl View for Posting {
    type V = PostingView;

    open spec fn view(&self) -> PostingView {
        PostingView {
            transaction: self.transaction as int,
            account: self.account.name@,
            amount: match self.amount {
                Some(a) => Some(a@),
                None => None,
            },
        }
    }
}

/// The views of a list of postings.
pub open spec fn posting_views(ps: Seq<Posting>) -> Seq<PostingView> {
    ps.map_values(|p: Posting| p@)
}

impl View for Transaction {
    type V = TransactionView;

    open spec fn view(&self) -> TransactionView {
        TransactionView {
            id: self.id as int,
            date: self.date,
            status: self.status,
            description: self.description@,
            postings: posting_views(self.postings@),
        }
    }
}

} // verus!
