//! A backtracking grammar engine over grapheme clusters.
//!
//! Rules live in a registry and name each other by index, so a rule may refer
//! to itself or to one defined later: the reference is resolved when the rule
//! is matched, never when it is built. Each rule applied inside another
//! spends one unit of a depth budget, so a rule that calls itself without
//! consuming anything, which would otherwise never return, ends with the
//! distinct outcome `Exhausted` once the budget is spent. There is no
//! memoization: an ambiguous grammar may still take time exponential in its
//! nesting.
use crate::segment::{concat, graphemes, graphemes_of, join_range, views_of};
use vstd::prelude::*;

verus! {

/// Whether a regular expression matches somewhere in a text; `None` when
/// the expression does not compile: it is not valid, or the compiled form
/// would exceed the default size limit.
pub uninterp spec fn regex_finds(regex: Seq<char>, text: Seq<char>) -> Option<bool>;

/// Relies on `regex::Regex::new` to compile the expression and on
/// `Regex::is_match` to search the text with it.
#[verifier::external_body]
fn regex_test(regex: &str, text: &str) -> (r: Option<bool>)
    ensures
        r == regex_finds(regex@, text@),
{
    match regex::Regex::new(regex) {
        Ok(re) => Some(re.is_match(text)),
        Err(_) => None,
    }
}

/// The regular expression of the character class `[pattern]`.
pub open spec fn class_regex(pattern: Seq<char>) -> Seq<char> {
    seq!['['] + pattern + seq![']']
}

/// Whether a grapheme is accepted by the character class `[pattern]`.
pub open spec fn class_accepts(pattern: Seq<char>, grapheme: Seq<char>) -> bool {
    regex_finds(class_regex(pattern), grapheme) == Some(true)
}

/// Whether a grapheme is accepted by the character class `[pattern]`: some
/// character of it is; never where the class does not compile.
pub fn class_test(pattern: &str, grapheme: &str) -> (r: bool)
    ensures
        r == class_accepts(pattern@, grapheme@),
{
    proof {
        reveal_strlit("[");
        reveal_strlit("]");
    }
    let regex = "[".to_string().concat(pattern).concat("]");
    assert(regex@ =~= class_regex(pattern@));
    match regex_test(regex.as_str(), grapheme) {
        Some(found) => found,
        None => false,
    }
}

/// How deep rules may nest during one match.
pub const MAX_DEPTH: usize = 256;

/// A position within a text, counted in grapheme clusters.
#[derive(Debug, Clone)]
pub struct State {
    pub string: String,
    pub offset: usize,
}

impl PartialEq for State {
    fn eq(&self, o: &State) -> (r: bool) {
        self.offset == o.offset && self.string == o.string
    }
}

impl vstd::std_specs::cmp::PartialEqSpecImpl for State {
    open spec fn obeys_eq_spec() -> bool {
        true
    }

    open spec fn eq_spec(&self, o: &State) -> bool {
        self.string@ == o.string@ && self.offset == o.offset
    }
}

impl State {
    /// The graphemes of the text.
    pub open spec fn units(&self) -> Seq<Seq<char>> {
        graphemes_of(self.string@)
    }

    pub fn new(string: &str, offset: usize) -> (r: State)
        ensures
            r.string@ == string@,
            r.offset == offset,
    {
        State { string: string.to_string(), offset }
    }

    /// The next `n` graphemes, joined; `None` where fewer remain.
    pub fn peek(&self, n: usize) -> (r: Option<String>)
        ensures
            self.offset + n <= self.units().len() <==> r is Some,
            r is Some ==> r->0@ == concat(
                self.units().subrange(self.offset as int, self.offset + n),
            ),
    {
        let g = graphemes(self.string.as_str());
        if self.offset <= g.len() && n <= g.len() - self.offset {
            let s = join_range(&g, self.offset, self.offset + n);
            proof {
                assert(views_of(g@.subrange(self.offset as int, self.offset + n))
                    =~= self.units().subrange(self.offset as int, self.offset + n));
            }
            Some(s)
        } else {
            None
        }
    }

    /// The state `n` graphemes further on.
    pub fn read(&self, n: usize) -> (r: State)
        requires
            self.offset + n <= usize::MAX,
        ensures
            r.string@ == self.string@,
            r.offset == self.offset + n,
    {
        State { string: self.string.clone(), offset: self.offset + n }
    }

    /// Whether the whole text has been consumed.
    pub fn is_complete(&self) -> (r: bool)
        ensures
            r == (self.offset == self.units().len()),
    {
        let g = graphemes(self.string.as_str());
        self.offset == g.len()
    }
}


/// What a rule matched.
#[derive(Debug, PartialEq)]
pub enum MatchNode {
    Literal(String),
    Class(String),
    Sequence(Vec<MatchNode>),
    Repetition(Vec<MatchNode>),
}

/// The mathematical form of a match.
pub enum MatchTree {
    Literal(Seq<char>),
    Class(Seq<char>),
    Sequence(Seq<MatchTree>),
    Repetition(Seq<MatchTree>),
}

impl MatchNode {
    pub open spec fn tree(&self) -> MatchTree
        decreases self,
    {
        match self {
            MatchNode::Literal(s) => MatchTree::Literal(s@),
            MatchNode::Class(s) => MatchTree::Class(s@),
            MatchNode::Sequence(v) => MatchTree::Sequence(trees(v@)),
            MatchNode::Repetition(v) => MatchTree::Repetition(trees(v@)),
        }
    }
}

/// The trees of a list of matches.
pub open spec fn trees(v: Seq<MatchNode>) -> Seq<MatchTree>
    decreases v,
{
    if v.len() == 0 {
        Seq::empty()
    } else {
        trees(v.drop_last()).push(v.last().tree())
    }
}


/// A grammar rule. Rules name their parts by index in a [`Grammar`].
#[derive(Debug, Clone)]
pub enum Rule {
    /// The graphemes of the text, exactly.
    Literal(String),
    /// One grapheme accepted by the class `[pattern]`.
    Class(String),
    /// Each part in turn, each starting where the previous one ended.
    Sequence(Vec<usize>),
    /// The part, applied greedily as often as it matches and consumes
    /// something; at least the given number of times.
    Repetition(usize, usize),
    /// The first part that matches, all tried from the same position.
    Alternation(Vec<usize>),
    /// Another rule, looked up when matched.
    Reference(usize),
}

/// How a match ends, as values: a tree and the position after it; no
/// match; or the depth budget spent before an answer was reached.
pub enum Verdict {
    Match(MatchTree, int),
    Fail,
    Exhausted,
}

/// How the parts of a sequence or a repetition end.
pub enum Parts {
    Done(Seq<MatchTree>, int),
    Fail,
    Exhausted,
}

/// How a match ends.
#[derive(Debug, PartialEq)]
pub enum Outcome {
    /// The rule matched; the match and the position after it.
    Matched(MatchNode, usize),
    /// The rule does not match.
    Failed,
    /// Rules nested deeper than the depth budget allows: no answer.
    Exhausted,
}

impl Outcome {
    /// The outcome as values.
    pub open spec fn verdict(&self) -> Verdict {
        match self {
            Outcome::Matched(n, e) => Verdict::Match(n.tree(), *e as int),
            Outcome::Failed => Verdict::Fail,
            Outcome::Exhausted => Verdict::Exhausted,
        }
    }
}

/// What rule `id` matches at `pos` of the graphemes `g`, with rules nested
/// at most `depth` deep. Once the budget is spent the whole match stops
/// with `Exhausted`, so that no answer depends on where it ran out.
pub open spec fn eval(rules: Seq<Rule>, id: int, g: Seq<Seq<char>>, pos: int, depth: nat) -> Verdict
    decreases depth, 0nat,
{
    if depth == 0 {
        Verdict::Exhausted
    } else if id < 0 || id >= rules.len() || pos < 0 || pos > g.len() {
        Verdict::Fail
    } else {
        match rules[id] {
            Rule::Literal(t) => {
                let lit = graphemes_of(t@);
                if pos + lit.len() <= g.len() && g.subrange(pos, pos + lit.len()) == lit {
                    Verdict::Match(MatchTree::Literal(t@), pos + lit.len())
                } else {
                    Verdict::Fail
                }
            },
            Rule::Class(p) => {
                if pos < g.len() && class_accepts(p@, g[pos]) {
                    Verdict::Match(MatchTree::Class(g[pos]), pos + 1)
                } else {
                    Verdict::Fail
                }
            },
            Rule::Sequence(ids) => match eval_seq(rules, ids@, 0, g, pos, (depth - 1) as nat) {
                Parts::Done(ts, e) => Verdict::Match(MatchTree::Sequence(ts), e),
                Parts::Fail => Verdict::Fail,
                Parts::Exhausted => Verdict::Exhausted,
            },
            Rule::Repetition(c, min) => match eval_rep(rules, c as int, g, pos, (depth - 1) as nat) {
                Parts::Done(ts, e) => if ts.len() >= min {
                    Verdict::Match(MatchTree::Repetition(ts), e)
                } else {
                    Verdict::Fail
                },
                Parts::Fail => Verdict::Fail,
                Parts::Exhausted => Verdict::Exhausted,
            },
            Rule::Alternation(ids) => eval_alt(rules, ids@, 0, g, pos, (depth - 1) as nat),
            Rule::Reference(r) => eval(rules, r as int, g, pos, (depth - 1) as nat),
        }
    }
}

/// The parts `ids[i..]` matched one after another from `pos`.
pub open spec fn eval_seq(rules: Seq<Rule>, ids: Seq<usize>, i: int, g: Seq<Seq<char>>, pos: int, depth: nat) -> Parts
    decreases depth, ids.len() - i + 1,
{
    if i < 0 || i >= ids.len() {
        Parts::Done(Seq::empty(), pos)
    } else {
        match eval(rules, ids[i] as int, g, pos, depth) {
            Verdict::Fail => Parts::Fail,
            Verdict::Exhausted => Parts::Exhausted,
            Verdict::Match(t, p) => prefix_parts(seq![t], eval_seq(rules, ids, i + 1, g, p, depth)),
        }
    }
}

/// Rule `c` applied greedily from `pos` while it matches and consumes.
pub open spec fn eval_rep(rules: Seq<Rule>, c: int, g: Seq<Seq<char>>, pos: int, depth: nat) -> Parts
    decreases depth, g.len() - pos + 1,
{
    if pos < 0 || pos > g.len() {
        Parts::Done(Seq::empty(), pos)
    } else {
        match eval(rules, c, g, pos, depth) {
            Verdict::Match(t, p) => {
                if pos < p <= g.len() {
                    prefix_parts(seq![t], eval_rep(rules, c, g, p, depth))
                } else {
                    Parts::Done(Seq::empty(), pos)
                }
            },
            Verdict::Fail => Parts::Done(Seq::empty(), pos),
            Verdict::Exhausted => Parts::Exhausted,
        }
    }
}

/// The first of `ids[i..]` that matches at `pos`.
pub open spec fn eval_alt(rules: Seq<Rule>, ids: Seq<usize>, i: int, g: Seq<Seq<char>>, pos: int, depth: nat) -> Verdict
    decreases depth, ids.len() - i + 1,
{
    if i < 0 || i >= ids.len() {
        Verdict::Fail
    } else {
        match eval(rules, ids[i] as int, g, pos, depth) {
            Verdict::Fail => eval_alt(rules, ids, i + 1, g, pos, depth),
            v => v,
        }
    }
}

/// Prepends matched trees to the rest of a match of parts.
pub open spec fn prefix_parts(done: Seq<MatchTree>, rest: Parts) -> Parts {
    match rest {
        Parts::Done(ts, e) => Parts::Done(done + ts, e),
        other => other,
    }
}

proof fn lemma_trees_push(v: Seq<MatchNode>, n: MatchNode)
    ensures
        trees(v.push(n)) == trees(v).push(n.tree()),
{
    assert(v.push(n).drop_last() =~= v);
}

proof fn lemma_trees_len(v: Seq<MatchNode>)
    ensures
        trees(v).len() == v.len(),
    decreases v.len(),
{
    if v.len() > 0 {
        lemma_trees_len(v.drop_last());
    }
}

proof fn lemma_prefix_push(items: Seq<MatchNode>, n: MatchNode, rest: Parts)
    ensures
        prefix_parts(trees(items), prefix_parts(seq![n.tree()], rest)) == prefix_parts(trees(items.push(n)), rest),
{
    lemma_trees_push(items, n);
    if let Parts::Done(ts, e) = rest {
        assert(trees(items) + (seq![n.tree()] + ts) =~= trees(items.push(n)) + ts);
    }
}

/// A registry of rules, indexed from zero in the order they were added.
pub struct Grammar {
    pub rules: Vec<Rule>,
}

/// A match and the state after it.
#[derive(Debug, PartialEq)]
pub struct MatchState(pub MatchNode, pub State);

impl Grammar {
    pub fn new() -> (r: Grammar)
        ensures
            r.rules@.len() == 0,
    {
        Grammar { rules: Vec::new() }
    }

    /// Adds a rule and returns its index.
    pub fn add(&mut self, rule: Rule) -> (id: usize)
        ensures
            final(self).rules@ == old(self).rules@.push(rule),
            id == old(self).rules@.len(),
    {
        self.rules.push(rule);
        self.rules.len() - 1
    }

    /// Replaces the rule at `id`, so that rules added earlier may refer to one
    /// defined later; an index out of range leaves the grammar as it is.
    pub fn define(&mut self, id: usize, rule: Rule)
        ensures
            id < old(self).rules@.len() ==> final(self).rules@ == old(self).rules@.update(id as int, rule),
            id >= old(self).rules@.len() ==> final(self).rules@ == old(self).rules@,
    {
        if id < self.rules.len() {
            self.rules.set(id, rule);
        }
    }

    /// Matches rule `id` at position `pos` of the graphemes `g`, with rules
    /// nested at most `depth` deep.
    pub fn eval_at(&self, id: usize, g: &Vec<String>, pos: usize, depth: usize) -> (r: Outcome)
        requires
            pos <= g@.len(),
        ensures
            r.verdict() == eval(self.rules@, id as int, views_of(g@), pos as int, depth as nat),
            r matches Outcome::Matched(_, e) ==> pos <= e <= g@.len(),
        decreases depth, 0nat,
    {
        let ghost gv = views_of(g@);
        if depth == 0 {
            return Outcome::Exhausted;
        }
        if id >= self.rules.len() {
            return Outcome::Failed;
        }
        let d = depth - 1;
        match &self.rules[id] {
            Rule::Literal(t) => {
                let lit = graphemes(t.as_str());
                let n = g.len();
                assert(views_of(lit@).len() == lit@.len());
                if lit.len() > g.len() - pos {
                    return Outcome::Failed;
                }
                let mut k: usize = 0;
                while k < lit.len()
                    invariant
                        k <= lit@.len(),
                        pos + lit@.len() <= g@.len(),
                        gv == views_of(g@),
                        n == g@.len(),
                        depth > 0,
                        id < self.rules@.len(),
                        self.rules@[id as int] == Rule::Literal(*t),
                        views_of(lit@) == graphemes_of(t@),
                        forall|j: int| 0 <= j < k ==> gv[pos + j] == views_of(lit@)[j],
                    decreases lit@.len() - k,
                {
                    assert(pos + k < g@.len());
                    if g[pos + k] != lit[k] {
                        proof {
                            assert(gv.subrange(pos as int, pos + lit@.len())[k as int] == gv[pos + k]);
                            let sub = gv.subrange(pos as int, pos + lit@.len());
                            assert(sub[k as int] != views_of(lit@)[k as int]);
                            assert(sub != views_of(lit@));
                        }
                        return Outcome::Failed;
                    }
                    assert(gv[pos + k] == views_of(lit@)[k as int]);
                    k = k + 1;
                }
                proof {
                    assert(gv.subrange(pos as int, pos + lit@.len()) =~= views_of(lit@));
                }
                Outcome::Matched(MatchNode::Literal(t.clone()), pos + lit.len())
            },
            Rule::Class(p) => {
                if pos < g.len() && class_test(p.as_str(), g[pos].as_str()) {
                    Outcome::Matched(MatchNode::Class(g[pos].clone()), pos + 1)
                } else {
                    Outcome::Failed
                }
            },
            Rule::Sequence(ids) => {
                let mut items: Vec<MatchNode> = Vec::new();
                let mut cur = pos;
                let mut i: usize = 0;
                while i < ids.len()
                    invariant
                        i <= ids@.len(),
                        pos <= cur <= g@.len(),
                        id < self.rules@.len(),
                        gv == views_of(g@),
                        d == depth - 1,
                        self.rules@[id as int] == Rule::Sequence(*ids),
                        eval_seq(self.rules@, ids@, 0, gv, pos as int, d as nat)
                            == prefix_parts(trees(items@), eval_seq(self.rules@, ids@, i as int, gv, cur as int, d as nat)),
                    decreases ids@.len() - i,
                {
                    match self.eval_at(ids[i], g, cur, d) {
                        Outcome::Matched(n, p) => {
                            proof {
                                lemma_prefix_push(items@, n, eval_seq(self.rules@, ids@, i + 1, gv, p as int, d as nat));
                            }
                            items.push(n);
                            cur = p;
                        },
                        Outcome::Failed => {
                            return Outcome::Failed;
                        },
                        Outcome::Exhausted => {
                            return Outcome::Exhausted;
                        },
                    }
                    i = i + 1;
                }
                proof {
                    assert(trees(items@) + Seq::<MatchTree>::empty() =~= trees(items@));
                }
                Outcome::Matched(MatchNode::Sequence(items), cur)
            },
            Rule::Repetition(c, min) => {
                let c = *c;
                let min = *min;
                let mut items: Vec<MatchNode> = Vec::new();
                let mut cur = pos;
                loop
                    invariant
                        pos <= cur <= g@.len(),
                        id < self.rules@.len(),
                        gv == views_of(g@),
                        d == depth - 1,
                        self.rules@[id as int] == Rule::Repetition(c, min),
                        eval_rep(self.rules@, c as int, gv, pos as int, d as nat)
                            == prefix_parts(trees(items@), eval_rep(self.rules@, c as int, gv, cur as int, d as nat)),
                    ensures
                        pos <= cur <= g@.len(),
                        eval_rep(self.rules@, c as int, gv, pos as int, d as nat) == Parts::Done(trees(items@), cur as int),
                    decreases g@.len() - cur,
                {
                    match self.eval_at(c, g, cur, d) {
                        Outcome::Matched(n, p) => {
                            if p > cur {
                                proof {
                                    lemma_prefix_push(items@, n, eval_rep(self.rules@, c as int, gv, p as int, d as nat));
                                }
                                items.push(n);
                                cur = p;
                            } else {
                                proof {
                                    assert(trees(items@) + Seq::<MatchTree>::empty() =~= trees(items@));
                                }
                                break;
                            }
                        },
                        Outcome::Failed => {
                            proof {
                                assert(trees(items@) + Seq::<MatchTree>::empty() =~= trees(items@));
                            }
                            break;
                        },
                        Outcome::Exhausted => {
                            return Outcome::Exhausted;
                        },
                    }
                }
                proof {
                    lemma_trees_len(items@);
                }
                if items.len() >= min {
                    Outcome::Matched(MatchNode::Repetition(items), cur)
                } else {
                    Outcome::Failed
                }
            },
            Rule::Alternation(ids) => {
                let mut i: usize = 0;
                while i < ids.len()
                    invariant
                        i <= ids@.len(),
                        pos <= g@.len(),
                        id < self.rules@.len(),
                        gv == views_of(g@),
                        d == depth - 1,
                        self.rules@[id as int] == Rule::Alternation(*ids),
                        eval_alt(self.rules@, ids@, 0, gv, pos as int, d as nat)
                            == eval_alt(self.rules@, ids@, i as int, gv, pos as int, d as nat),
                    decreases ids@.len() - i,
                {
                    let r = self.eval_at(ids[i], g, pos, d);
                    match r {
                        Outcome::Failed => {},
                        _ => {
                            return r;
                        },
                    }
                    i = i + 1;
                }
                Outcome::Failed
            },
            Rule::Reference(r) => self.eval_at(*r, g, pos, d),
        }
    }

    /// Matches rule `id` at the state, within the default depth budget, and
    /// tells a mismatch from a spent budget.
    pub fn run(&self, id: usize, state: &State) -> (r: Outcome)
        ensures
            r.verdict() == eval(self.rules@, id as int, state.units(), state.offset as int, MAX_DEPTH as nat),
    {
        let g = graphemes(state.string.as_str());
        if state.offset > g.len() {
            return Outcome::Failed;
        }
        self.eval_at(id, &g, state.offset, MAX_DEPTH)
    }

    /// Matches rule `id` at the state, within the default depth budget;
    /// `None` where the rule does not match or the budget is spent.
    pub fn apply(&self, id: usize, state: &State) -> (r: Option<MatchState>)
        ensures
            match eval(self.rules@, id as int, state.units(), state.offset as int, MAX_DEPTH as nat) {
                Verdict::Match(t, e) => (r matches Some(ms) && ms.0.tree() == t && ms.1.offset == e
                    && ms.1.string@ == state.string@),
                _ => r is None,
            },
    {
        match self.run(id, state) {
            Outcome::Matched(n, e) => Some(MatchState(n, State { string: state.string.clone(), offset: e })),
            _ => None,
        }
    }

    /// Matches the rule `root` against the whole of `text`, within the
    /// default depth budget: the match counts only if it ends exactly at the
    /// end of the text. A mismatch and a spent budget are told apart.
    pub fn parse_whole(&self, root: usize, text: &str) -> (r: Outcome)
        ensures
            match eval(self.rules@, root as int, graphemes_of(text@), 0, MAX_DEPTH as nat) {
                Verdict::Match(t, e) => if e == graphemes_of(text@).len() {
                    r.verdict() == Verdict::Match(t, e)
                } else {
                    r == Outcome::Failed
                },
                Verdict::Fail => r == Outcome::Failed,
                Verdict::Exhausted => r == Outcome::Exhausted,
            },
    {
        let g = graphemes(text);
        let r = self.eval_at(root, &g, 0, MAX_DEPTH);
        match r {
            Outcome::Matched(n, e) => {
                if e == g.len() {
                    Outcome::Matched(n, e)
                } else {
                    Outcome::Failed
                }
            },
            other => other,
        }
    }

    /// Matches the rule `root` against the whole of `text`; `None` where it
    /// does not match the whole text or the budget is spent.
    pub fn parse(&self, root: usize, text: &str) -> (r: Option<MatchNode>)
        ensures
            r is Some <==> (eval(self.rules@, root as int, graphemes_of(text@), 0, MAX_DEPTH as nat) matches Verdict::Match(_, e)
                && e == graphemes_of(text@).len()),
            r matches Some(n) ==> eval(self.rules@, root as int, graphemes_of(text@), 0, MAX_DEPTH as nat) matches Verdict::Match(t, _)
                && n.tree() == t,
    {
        match self.parse_whole(root, text) {
            Outcome::Matched(n, _) => Some(n),
            _ => None,
        }
    }
}

/// A sequence of three parts, given a budget, matches exactly when the first
/// matches where the sequence starts, the second where the first ended and
/// the third where the second ended, each within one unit less; the sequence
/// ends where the third does, and its tree lists the three trees in order.
/// It fails at the first part that fails, and stops with the budget spent at
/// the first part that spends it.
pub proof fn sequence_law(rules: Seq<Rule>, s: int, a: usize, b: usize, c: usize, g: Seq<Seq<char>>, pos: int, depth: nat)
    requires
        0 <= s < rules.len(),
        rules[s] is Sequence,
        rules[s]->Sequence_0@ == seq![a, b, c],
        0 <= pos <= g.len(),
    ensures
        eval(rules, s, g, pos, depth + 1) == match eval(rules, a as int, g, pos, depth) {
            Verdict::Match(ta, end_a) => match eval(rules, b as int, g, end_a, depth) {
                Verdict::Match(tb, end_b) => match eval(rules, c as int, g, end_b, depth) {
                    Verdict::Match(tc, e) => Verdict::Match(MatchTree::Sequence(seq![ta, tb, tc]), e),
                    other => other,
                },
                other => other,
            },
            other => other,
        },
{
    let ids = rules[s]->Sequence_0@;
    reveal_with_fuel(eval_seq, 5);
    assert(ids[0] == a && ids[1] == b && ids[2] == c);
    assert(eval(rules, s, g, pos, depth + 1) == match eval_seq(rules, ids, 0, g, pos, depth) {
        Parts::Done(ts, e) => Verdict::Match(MatchTree::Sequence(ts), e),
        Parts::Fail => Verdict::Fail,
        Parts::Exhausted => Verdict::Exhausted,
    });
    if let Verdict::Match(ta, end_a) = eval(rules, a as int, g, pos, depth) {
        if let Verdict::Match(tb, end_b) = eval(rules, b as int, g, end_a, depth) {
            if let Verdict::Match(tc, e) = eval(rules, c as int, g, end_b, depth) {
                assert(eval_seq(rules, ids, 3, g, e, depth) == Parts::Done(Seq::<MatchTree>::empty(), e));
                assert(seq![ta] + (seq![tb] + (seq![tc] + Seq::<MatchTree>::empty())) =~= seq![ta, tb, tc]);
            }
        }
    }
}

/// A repetition that may match zero times never fails at a position within
/// the text, given a budget; where its part fails at once it matches nothing
/// and stays where it started.
pub proof fn repetition_law(rules: Seq<Rule>, r: int, c: usize, g: Seq<Seq<char>>, pos: int, depth: nat)
    requires
        0 <= r < rules.len(),
        rules[r] == Rule::Repetition(c, 0),
        0 <= pos <= g.len(),
    ensures
        !(eval(rules, r, g, pos, depth + 1) is Fail),
        eval(rules, c as int, g, pos, depth) is Fail ==> eval(rules, r, g, pos, depth + 1) == Verdict::Match(
            MatchTree::Repetition(Seq::empty()),
            pos,
        ),
{
    lemma_rep_not_fail(rules, c as int, g, pos, depth);
    reveal_with_fuel(eval_rep, 2);
    reveal_with_fuel(eval, 2);
}

proof fn lemma_rep_not_fail(rules: Seq<Rule>, c: int, g: Seq<Seq<char>>, pos: int, depth: nat)
    ensures
        !(eval_rep(rules, c, g, pos, depth) is Fail),
    decreases g.len() - pos,
{
    if 0 <= pos <= g.len() {
        if let Verdict::Match(t, p) = eval(rules, c, g, pos, depth) {
            if pos < p <= g.len() {
                lemma_rep_not_fail(rules, c, g, p, depth);
            }
        }
    }
}

/// Ordered choice between two parts: where the first matches, its result is
/// the result, however far the second would reach; the second is tried, from
/// the same position, only where the first fails.
pub proof fn alternation_law(rules: Seq<Rule>, r: int, a: usize, b: usize, g: Seq<Seq<char>>, pos: int, depth: nat)
    requires
        0 <= r < rules.len(),
        rules[r] is Alternation,
        rules[r]->Alternation_0@ == seq![a, b],
        0 <= pos <= g.len(),
    ensures
        eval(rules, a as int, g, pos, depth) is Match ==> eval(rules, r, g, pos, depth + 1) == eval(rules, a as int, g, pos, depth),
        eval(rules, a as int, g, pos, depth) is Fail ==> eval(rules, r, g, pos, depth + 1) == eval(rules, b as int, g, pos, depth),
{
    let ids = rules[r]->Alternation_0@;
    reveal_with_fuel(eval_alt, 3);
    assert(ids[0] == a && ids[1] == b);
    assert(eval(rules, r, g, pos, depth + 1) == eval_alt(rules, ids, 0, g, pos, depth));
    assert(eval_alt(rules, ids, 2, g, pos, depth) is Fail);
}

} // verus!
