//! The zero-sum rule on a transaction's postings, and the inference of the
//! one amount that may be left out.
use crate::accounting::{posting_views, Amount, AmountView, Posting, PostingView, Transaction, TransactionView};
use vstd::prelude::*;

verus! {

/// Why a transaction's postings could not be brought to balance.
#[derive(Debug, Clone, Copy, PartialEq, Eq, Structural)]
pub enum BalanceError {
    /// Every amount is given and they do not sum to zero; `sum` is their total.
    Unbalanced { sum: i128 },
    /// More than one posting leaves its amount out.
    Ambiguous,
    /// The inferred amount does not fit the range of a quantity.
    OutOfRange,
}

impl BalanceError {
    /// The message that reports the error.
    pub fn message(&self) -> (r: String)
        ensures
            self is Unbalanced ==> r@ == "transaction does not balance"@,
            self is Ambiguous ==> r@ == "ambiguous elided amount"@,
            self is OutOfRange ==> r@ == "elided amount out of range"@,
    {
        match self {
            BalanceError::Unbalanced { .. } => "transaction does not balance".to_string(),
            BalanceError::Ambiguous => "ambiguous elided amount".to_string(),
            BalanceError::OutOfRange => "elided amount out of range".to_string(),
        }
    }
}

/// The sum of the quantities that the postings give.
pub open spec fn quantity_sum(ps: Seq<PostingView>) -> int
    decreases ps.len(),
{
    if ps.len() == 0 {
        0
    } else {
        quantity_sum(ps.drop_last()) + match ps.last().amount {
            Some(a) => a.quantity,
            None => 0,
        }
    }
}

/// How many postings leave their amount out.
pub open spec fn elided_count(ps: Seq<PostingView>) -> nat
    decreases ps.len(),
{
    if ps.len() == 0 {
        0
    } else {
        elided_count(ps.drop_last()) + if ps.last().amount is None {
            1nat
        } else {
            0nat
        }
    }
}

/// The commodity of the first posting that gives an amount; empty if none does.
pub open spec fn first_commodity(ps: Seq<PostingView>) -> Seq<char>
    decreases ps.len(),
{
    if ps.len() == 0 {
        Seq::empty()
    } else {
        match ps[0].amount {
            Some(a) => a.commodity,
            None => first_commodity(ps.drop_first()),
        }
    }
}

/// The posting with its amount, if left out, set to `quantity` of `commodity`.
pub open spec fn fill_one(p: PostingView, commodity: Seq<char>, quantity: int) -> PostingView {
    match p.amount {
        Some(_) => p,
        None => PostingView { amount: Some(AmountView { commodity, quantity }), ..p },
    }
}

/// The postings with every left-out amount set to `quantity` of `commodity`.
pub open spec fn filled(ps: Seq<PostingView>, commodity: Seq<char>, quantity: int) -> Seq<PostingView> {
    ps.map_values(|p: PostingView| fill_one(p, commodity, quantity))
}

/// The transaction after the zero-sum rule: unchanged when its amounts sum
/// to zero; its one left-out amount set to the negated sum of the others, in
/// the commodity of the first amount given; or the error that stops it.
pub open spec fn resolved(t: TransactionView) -> Result<TransactionView, BalanceError> {
    let ps = t.postings;
    let sum = quantity_sum(ps);
    if elided_count(ps) == 0 {
        if sum == 0 {
            Ok(t)
        } else {
            Err(BalanceError::Unbalanced { sum: sum as i128 })
        }
    } else if elided_count(ps) == 1 {
        if i64::MIN <= -sum <= i64::MAX {
            Ok(TransactionView { postings: filled(ps, first_commodity(ps), -sum), ..t })
        } else {
            Err(BalanceError::OutOfRange)
        }
    } else {
        Err(BalanceError::Ambiguous)
    }
}

/// The sum of the quantities that the postings give.
pub fn sum_quantities(ps: &Vec<Posting>) -> (r: i128)
    ensures
        r == quantity_sum(posting_views(ps@)),
{
    let mut sum: i128 = 0;
    let mut i: usize = 0;
    while i < ps.len()
        invariant
            i <= ps@.len(),
            sum == quantity_sum(posting_views(ps@.subrange(0, i as int))),
        decreases ps@.len() - i,
    {
        proof {
            let pre = posting_views(ps@.subrange(0, i as int + 1));
            assert(pre.drop_last() =~= posting_views(ps@.subrange(0, i as int)));
            assert(i + 1 <= 0x1_0000_0000_0000_0000);
        }
        match &ps[i].amount {
            Some(a) => {
                proof {
                    lemma_given_bounds(ps@.subrange(0, i as int));
                    let n = i as int;
                    assert(n * 0x8000_0000_0000_0000 <= 0x1_0000_0000_0000_0000 * 0x8000_0000_0000_0000) by (nonlinear_arith)
                        requires n <= 0x1_0000_0000_0000_0000;
                    assert(n * 0x7fff_ffff_ffff_ffff <= 0x1_0000_0000_0000_0000 * 0x7fff_ffff_ffff_ffff) by (nonlinear_arith)
                        requires n <= 0x1_0000_0000_0000_0000;
                }
                sum = sum + a.quantity as i128;
            },
            None => {},
        }
        i = i + 1;
    }
    proof {
        assert(ps@.subrange(0, ps@.len() as int) =~= ps@);
    }
    sum
}

/// The sum of the quantities of a list of postings lies within the range
/// that its length allows.
proof fn lemma_given_bounds(ps: Seq<Posting>)
    ensures
        -(ps.len() as int) * 0x8000_0000_0000_0000 <= quantity_sum(posting_views(ps)) <= (ps.len() as int) * 0x7fff_ffff_ffff_ffff,
    decreases ps.len(),
{
    if ps.len() > 0 {
        assert(posting_views(ps).drop_last() =~= posting_views(ps.drop_last()));
        lemma_given_bounds(ps.drop_last());
        let n = ps.len() as int;
        assert((n - 1) * 0x8000_0000_0000_0000 + 0x8000_0000_0000_0000 == n * 0x8000_0000_0000_0000) by (nonlinear_arith);
        assert((n - 1) * 0x7fff_ffff_ffff_ffff + 0x7fff_ffff_ffff_ffff == n * 0x7fff_ffff_ffff_ffff) by (nonlinear_arith);
    }
}


/// How many postings leave their amount out.
pub fn count_elided(ps: &Vec<Posting>) -> (r: usize)
    ensures
        r == elided_count(posting_views(ps@)),
{
    let mut n: usize = 0;
    let mut i: usize = 0;
    while i < ps.len()
        invariant
            i <= ps@.len(),
            n == elided_count(posting_views(ps@.subrange(0, i as int))),
            n <= i,
        decreases ps@.len() - i,
    {
        proof {
            assert(posting_views(ps@.subrange(0, i as int + 1)).drop_last() =~= posting_views(ps@.subrange(0, i as int)));
        }
        if ps[i].amount.is_none() {
            n = n + 1;
        }
        i = i + 1;
    }
    proof {
        assert(ps@.subrange(0, ps@.len() as int) =~= ps@);
    }
    n
}

/// The commodity of the first posting that gives an amount; empty if none does.
pub fn commodity_of_first(ps: &Vec<Posting>) -> (r: String)
    ensures
        r@ == first_commodity(posting_views(ps@)),
{
    let mut i: usize = 0;
    assert(posting_views(ps@).subrange(0, ps@.len() as int) =~= posting_views(ps@));
    while i < ps.len()
        invariant
            i <= ps@.len(),
            first_commodity(posting_views(ps@)) == first_commodity(posting_views(ps@).subrange(i as int, ps@.len() as int)),
        decreases ps@.len() - i,
    {
        let ghost rest = posting_views(ps@).subrange(i as int, ps@.len() as int);
        match &ps[i].amount {
            Some(a) => {
                assert(rest[0] == ps@[i as int]@);
                return a.commodity.clone();
            },
            None => {
                assert(rest.drop_first() =~= posting_views(ps@).subrange(i as int + 1, ps@.len() as int));
            },
        }
        i = i + 1;
    }
    String::new()
}

impl Transaction {
    /// Applies the zero-sum rule (see [`resolved`]). On an error the
    /// transaction stays as it was.
    pub fn resolve_balance(&mut self) -> (r: Result<(), BalanceError>)
        ensures
            match resolved(old(self)@) {
                Ok(v) => r is Ok && final(self)@ == v && final(self).edate == old(self).edate && final(self).code == old(self).code,
                Err(e) => r == Err::<(), BalanceError>(e) && *final(self) == *old(self),
            },
    {
        let n = count_elided(&self.postings);
        let sum = sum_quantities(&self.postings);
        if n == 0 {
            if sum == 0 {
                Ok(())
            } else {
                Err(BalanceError::Unbalanced { sum })
            }
        } else if n == 1 {
            if sum < -(i64::MAX as i128) || sum > 0x8000_0000_0000_0000i128 {
                return Err(BalanceError::OutOfRange);
            }
            let q = (-sum) as i64;
            let commodity = commodity_of_first(&self.postings);
            let ghost views = posting_views(self.postings@);
            let mut out: Vec<Posting> = Vec::new();
            let mut i: usize = 0;
            while i < self.postings.len()
                invariant
                    i <= self.postings@.len(),
                    views == posting_views(self.postings@),
                    out@.len() == i,
                    forall|j: int| 0 <= j < i ==> (#[trigger] out@[j])@ == fill_one(views[j], commodity@, q as int),
                decreases self.postings@.len() - i,
            {
                let p = &self.postings[i];
                let amount = match &p.amount {
                    Some(a) => a.duplicate(),
                    None => Amount { commodity: commodity.clone(), quantity: q },
                };
                out.push(Posting { transaction: p.transaction, account: p.account.duplicate(), amount: Some(amount) });
                assert(out@[i as int]@ == fill_one(views[i as int], commodity@, q as int));
                i = i + 1;
            }
            assert(posting_views(out@) =~= filled(views, commodity@, q as int));
            self.postings = out;
            Ok(())
        } else {
            Err(BalanceError::Ambiguous)
        }
    }
}

} // verus!
