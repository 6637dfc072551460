//! The ledger's field grammar written as rules of the grammar engine. The
//! scanner reads the same fields by hand; these rules match a field on its
//! own, by name.
use crate::combinator::{Grammar, Rule};
use vstd::prelude::*;

verus! {

/// Whether rule `id` of `g` is the class `[p]`.
pub open spec fn is_class(g: Grammar, id: usize, p: Seq<char>) -> bool {
    &&& id < g.rules@.len()
    &&& (g.rules@[id as int] matches Rule::Class(q) && q@ == p)
}

/// Whether rule `id` of `g` is the literal `t`.
pub open spec fn is_literal(g: Grammar, id: usize, t: Seq<char>) -> bool {
    &&& id < g.rules@.len()
    &&& (g.rules@[id as int] matches Rule::Literal(q) && q@ == t)
}

/// Whether rule `id` of `g` is the sequence of `parts`.
pub open spec fn is_sequence(g: Grammar, id: usize, parts: Seq<usize>) -> bool {
    &&& id < g.rules@.len()
    &&& (g.rules@[id as int] matches Rule::Sequence(v) && v@ == parts)
}

/// Whether rule `id` of `g` is the choice among `parts`.
pub open spec fn is_alternation(g: Grammar, id: usize, parts: Seq<usize>) -> bool {
    &&& id < g.rules@.len()
    &&& (g.rules@[id as int] matches Rule::Alternation(v) && v@ == parts)
}

/// The named rules of the ledger's fields, in one grammar.
pub struct LedgerGrammar {
    pub grammar: Grammar,
    /// `[0-9]`
    pub digit: usize,
    /// digit+
    pub integer: usize,
    /// `-`?
    pub sign: usize,
    /// sign (integer (`.` integer)? | `.` integer)
    pub decimal_amount: usize,
    /// integer ([-/] integer)*
    pub date: usize,
    /// `[ \t]`+
    pub whitespace_run: usize,
    /// word (` ` word)*, a word being a run of graphemes other than blanks
    /// and line breaks
    pub account_name: usize,
    /// symbol? decimal_amount, a symbol being a run of graphemes other than
    /// digits, `.`, `-`, blanks and line breaks
    pub currency_amount: usize,
}

/// Adds a rule to the grammar and returns its index.
fn put(g: &mut Grammar, rule: Rule) -> (id: usize)
    ensures
        final(g).rules@ == old(g).rules@.push(rule),
        id == old(g).rules@.len(),
{
    g.add(rule)
}

impl LedgerGrammar {
    pub fn new() -> (r: LedgerGrammar)
        ensures
            ({
                let g = r.grammar;
                &&& g.rules@.len() == 27
                &&& r.digit == 0 && r.integer == 1 && r.sign == 2 && r.decimal_amount == 10
                &&& r.date == 14 && r.whitespace_run == 16 && r.account_name == 22 && r.currency_amount == 26
                &&& is_class(g, 0, "0-9"@)
                &&& g.rules@[1] == Rule::Repetition(0, 1)
                &&& is_alternation(g, 2, seq![3usize, 4])
                &&& is_literal(g, 3, "-"@)
                &&& is_sequence(g, 4, Seq::empty())
                &&& is_literal(g, 5, "."@)
                &&& is_sequence(g, 6, seq![5usize, 1])
                &&& is_alternation(g, 7, seq![6usize, 4])
                &&& is_sequence(g, 8, seq![1usize, 7])
                &&& is_alternation(g, 9, seq![8usize, 6])
                &&& is_sequence(g, 10, seq![2usize, 9])
                &&& is_class(g, 11, "-/"@)
                &&& is_sequence(g, 12, seq![11usize, 1])
                &&& g.rules@[13] == Rule::Repetition(12, 0)
                &&& is_sequence(g, 14, seq![1usize, 13])
                &&& is_class(g, 15, " \t"@)
                &&& g.rules@[16] == Rule::Repetition(15, 1)
                &&& is_class(g, 17, "^ \t\r\n"@)
                &&& g.rules@[18] == Rule::Repetition(17, 1)
                &&& is_literal(g, 19, " "@)
                &&& is_sequence(g, 20, seq![19usize, 18])
                &&& g.rules@[21] == Rule::Repetition(20, 0)
                &&& is_sequence(g, 22, seq![18usize, 21])
                &&& is_class(g, 23, "^0-9. \t\r\n-"@)
                &&& g.rules@[24] == Rule::Repetition(23, 1)
                &&& is_alternation(g, 25, seq![24usize, 4])
                &&& is_sequence(g, 26, seq![25usize, 10])
            }),
    {
        let mut g = Grammar::new();
        let digit = put(&mut g, Rule::Class("0-9".to_string()));
        let integer = put(&mut g, Rule::Repetition(digit, 1));
        let sign = put(&mut g, Rule::Alternation(vec![3, 4]));
        let minus = put(&mut g, Rule::Literal("-".to_string()));
        let nothing = put(&mut g, Rule::Sequence(vec![]));
        let dot = put(&mut g, Rule::Literal(".".to_string()));
        let fraction = put(&mut g, Rule::Sequence(vec![dot, integer]));
        let maybe_fraction = put(&mut g, Rule::Alternation(vec![fraction, nothing]));
        let whole = put(&mut g, Rule::Sequence(vec![integer, maybe_fraction]));
        let unsigned = put(&mut g, Rule::Alternation(vec![whole, fraction]));
        let decimal_amount = put(&mut g, Rule::Sequence(vec![sign, unsigned]));
        let divider = put(&mut g, Rule::Class("-/".to_string()));
        let part = put(&mut g, Rule::Sequence(vec![divider, integer]));
        let parts = put(&mut g, Rule::Repetition(part, 0));
        let date = put(&mut g, Rule::Sequence(vec![integer, parts]));
        let blank = put(&mut g, Rule::Class(" \t".to_string()));
        let whitespace_run = put(&mut g, Rule::Repetition(blank, 1));
        let letter = put(&mut g, Rule::Class("^ \t\r\n".to_string()));
        let word = put(&mut g, Rule::Repetition(letter, 1));
        let space = put(&mut g, Rule::Literal(" ".to_string()));
        let spaced_word = put(&mut g, Rule::Sequence(vec![space, word]));
        let more_words = put(&mut g, Rule::Repetition(spaced_word, 0));
        let account_name = put(&mut g, Rule::Sequence(vec![word, more_words]));
        let symbol_char = put(&mut g, Rule::Class("^0-9. \t\r\n-".to_string()));
        let symbol = put(&mut g, Rule::Repetition(symbol_char, 1));
        let maybe_symbol = put(&mut g, Rule::Alternation(vec![symbol, nothing]));
        let currency_amount = put(&mut g, Rule::Sequence(vec![maybe_symbol, decimal_amount]));
        LedgerGrammar { grammar: g, digit, integer, sign, decimal_amount, date, whitespace_run, account_name, currency_amount }
    }
}

} // verus!
