use ledger::combinator::{Grammar, MatchNode, MatchState, Outcome, Rule, State};

fn lit(s: &str) -> MatchNode {
    MatchNode::Literal(s.to_string())
}

fn class(s: &str) -> MatchNode {
    MatchNode::Class(s.to_string())
}

/// expression := addition | number
/// addition   := number w "+" w expression
/// number     := "0" | [1-9] [0-9]*
/// w          := " "*
fn addition_grammar() -> (Grammar, usize) {
    let mut g = Grammar::new();
    let expression = g.add(Rule::Alternation(vec![]));
    let zero = g.add(Rule::Literal("0".to_string()));
    let nonzero = g.add(Rule::Class("1-9".to_string()));
    let digit = g.add(Rule::Class("0-9".to_string()));
    let digits = g.add(Rule::Repetition(digit, 0));
    let multi = g.add(Rule::Sequence(vec![nonzero, digits]));
    let number = g.add(Rule::Alternation(vec![zero, multi]));
    let space = g.add(Rule::Literal(" ".to_string()));
    let w = g.add(Rule::Repetition(space, 0));
    let plus = g.add(Rule::Literal("+".to_string()));
    let addition = g.add(Rule::Sequence(vec![number, w, plus, w, expression]));
    g.define(expression, Rule::Alternation(vec![addition, number]));
    (g, expression)
}

#[test]
fn test_new() {
    let state = State::new(&"I'm just a string", 0);
    assert_eq!(state, State { string: "I'm just a string".to_string(), offset: 0 });
}

#[test]
fn test_peek() {
    let state = State::new(&"I'm just a string", 0);
    assert_eq!(state.peek(8).unwrap(), "I'm just");
}

#[test]
fn test_read() {
    let state = State::new("I'm just a string", 11);
    assert_eq!(state.read(6), State { string: "I'm just a string".to_string(), offset: 17 });
}

#[test]
fn test_is_complete() {
    let state = State::new("I'm just a string", 0);
    assert_eq!(state.is_complete(), false);
    let state = State::new("I'm just a string", 17);
    assert_eq!(state.is_complete(), true);
}

#[test]
fn test_str() {
    let mut g = Grammar::new();
    let hello = g.add(Rule::Literal(r"hello".to_string()));
    let world = g.add(Rule::Literal(r"world".to_string()));

    let input = State::new("hello world", 0);
    if let Some(MatchState(m, s)) = g.apply(hello, &input) {
        assert_eq!(m, lit("hello"));
        assert_eq!(s, State::new("hello world", 5));
    } else {
        panic!("no output")
    }

    let input = State::new("hello world", 0);
    if let Some(MatchState(m, s)) = g.apply(world, &input.read(6)) {
        assert_eq!(m, lit("world"));
        assert_eq!(s, State::new("hello world", 11));
    } else {
        panic!("no output")
    }
}

#[test]
fn test_chr() {
    let input = State::new("12 + 34", 0);
    let mut g = Grammar::new();
    let digit = g.add(Rule::Class(r"0-9".to_string()));

    if let Some(MatchState(m, s)) = g.apply(digit, &input.read(1)) {
        assert_eq!(m, class("2"));
        assert_eq!(s, State::new("12 + 34", 2))
    } else {
        panic!("no output")
    }

    if let Some(MatchState(m, s)) = g.apply(digit, &input.read(5)) {
        assert_eq!(m, class("3"));
        assert_eq!(s, State::new("12 + 34", 6))
    } else {
        panic!("no output")
    }

    assert_eq!(g.apply(digit, &input.read(2)), None);
}

#[test]
fn test_seq() {
    let input = State::new("7+8", 0);
    let mut g = Grammar::new();
    let digit = g.add(Rule::Class(r"0-9".to_string()));
    let reg = g.add(Rule::Literal("+".to_string()));
    assert_eq!(g.apply(digit, &input.read(0)), Some(MatchState(class("7"), State::new("7+8", 1))));
    assert_eq!(g.apply(reg, &input.read(1)), Some(MatchState(lit("+"), State::new("7+8", 2))));
    assert_eq!(g.apply(digit, &input.read(2)), Some(MatchState(class("8"), State::new("7+8", 3))));

    let addition = g.add(Rule::Sequence(vec![digit, reg, digit]));
    if let Some(MatchState(m, s)) = g.apply(addition, &input) {
        assert_eq!(m, MatchNode::Sequence(vec![class("7"), lit("+"), class("8")]));
        assert_eq!(s, State::new("7+8", 3));
    } else {
        panic!("addition(input) did not generate a result")
    }
}

#[test]
fn test_rep() {
    let input = State::new("2017", 0);
    let mut g = Grammar::new();
    let digit = g.add(Rule::Class("0-9".to_string()));
    let number = g.add(Rule::Repetition(digit, 1));
    if let Some(MatchState(m, _s)) = g.apply(number, &input) {
        assert_eq!(m, MatchNode::Repetition(vec![class("2"), class("0"), class("1"), class("7")]));
    } else {
        panic!("number(input) did not generate a result")
    }
}

// A sequence fails as a whole when one of its parts fails, so on "12" the
// addition branch fails at the missing "+" and the number branch matches.
#[test]
fn test_alt() {
    let (g, expression) = addition_grammar();
    if let Some(MatchState(m, s)) = g.apply(expression, &State::new("12", 0)) {
        assert_eq!(s, State::new("12", 2));
        assert_eq!(m, MatchNode::Sequence(vec![class("1"), MatchNode::Repetition(vec![class("2")])]));
    } else {
        panic!("no results from alt");
    }
}

#[test]
fn test_alt_2() {
    let (g, expression) = addition_grammar();
    if let Some(MatchState(m, s)) = g.apply(expression, &State::new("34 + 567", 0)) {
        assert_eq!(s, State::new("34 + 567", 8));
        assert_eq!(
            m,
            MatchNode::Sequence(vec![
                MatchNode::Sequence(vec![class("3"), MatchNode::Repetition(vec![class("4")])]),
                MatchNode::Repetition(vec![lit(" ")]),
                lit("+"),
                MatchNode::Repetition(vec![lit(" ")]),
                MatchNode::Sequence(vec![class("5"), MatchNode::Repetition(vec![class("6"), class("7")])]),
            ])
        );
    } else {
        panic!("no results from alt");
    }
}

#[test]
fn test_ref() {}

#[test]
fn parse_requires_whole_input() {
    let mut g = Grammar::new();
    let digit = g.add(Rule::Class("0-9".to_string()));
    let root = g.add(Rule::Repetition(digit, 1));
    let m = g.parse(root, "2017");
    assert_eq!(m, Some(MatchNode::Repetition(vec![class("2"), class("0"), class("1"), class("7")])));
    assert_eq!(g.parse(root, "2017x"), None);
}

#[test]
fn sequence_of_three_in_order() {
    let mut g = Grammar::new();
    let a = g.add(Rule::Literal("a".to_string()));
    let b = g.add(Rule::Literal("b".to_string()));
    let c = g.add(Rule::Literal("c".to_string()));
    let abc = g.add(Rule::Sequence(vec![a, b, c]));
    assert_eq!(
        g.apply(abc, &State::new("abcd", 0)),
        Some(MatchState(MatchNode::Sequence(vec![lit("a"), lit("b"), lit("c")]), State::new("abcd", 3)))
    );
    assert_eq!(g.apply(abc, &State::new("acb", 0)), None);
    assert_eq!(g.apply(abc, &State::new("ab", 0)), None);
}

#[test]
fn repetition_of_zero_never_fails() {
    let mut g = Grammar::new();
    let x = g.add(Rule::Literal("x".to_string()));
    let xs = g.add(Rule::Repetition(x, 0));
    let start = State::new("yyy", 1);
    assert_eq!(g.apply(xs, &start), Some(MatchState(MatchNode::Repetition(vec![]), State::new("yyy", 1))));
    let end = State::new("yyy", 3);
    assert_eq!(g.apply(xs, &end), Some(MatchState(MatchNode::Repetition(vec![]), State::new("yyy", 3))));
}

#[test]
fn alternation_is_ordered_choice() {
    let mut g = Grammar::new();
    let short = g.add(Rule::Literal("ab".to_string()));
    let long = g.add(Rule::Literal("abcd".to_string()));
    let choice = g.add(Rule::Alternation(vec![short, long]));
    assert_eq!(g.apply(choice, &State::new("abcd", 0)), Some(MatchState(lit("ab"), State::new("abcd", 2))));
    let other = g.add(Rule::Alternation(vec![long, short]));
    assert_eq!(g.apply(other, &State::new("abx", 0)), Some(MatchState(lit("ab"), State::new("abx", 2))));
}

#[test]
fn graphemes_are_the_unit_of_matching() {
    // "e" followed by a combining acute accent is one grapheme
    let text = "e\u{301}x";
    let state = State::new(text, 0);
    assert_eq!(state.peek(1).unwrap(), "e\u{301}");
    assert_eq!(State::new(text, 2).is_complete(), true);
    let mut g = Grammar::new();
    let any = g.add(Rule::Class("^x".to_string()));
    assert_eq!(g.apply(any, &state), Some(MatchState(class("e\u{301}"), State::new(text, 1))));
}

#[test]
fn invalid_class_matches_nothing() {
    let mut g = Grammar::new();
    let bad = g.add(Rule::Class("z-a".to_string()));
    assert_eq!(g.apply(bad, &State::new("m", 0)), None);
}

#[test]
fn left_recursion_stops_at_depth_budget() {
    let mut g = Grammar::new();
    let r = g.add(Rule::Alternation(vec![]));
    let x = g.add(Rule::Literal("x".to_string()));
    g.define(r, Rule::Sequence(vec![r, x]));
    assert_eq!(g.apply(r, &State::new("xx", 0)), None);
    assert_eq!(g.run(r, &State::new("xx", 0)), Outcome::Exhausted);
    assert_eq!(g.parse_whole(r, "xx"), Outcome::Exhausted);
    // an ordered choice stops when its first branch spends the budget
    let y = g.add(Rule::Literal("x".to_string()));
    let choice = g.add(Rule::Alternation(vec![r, y]));
    assert_eq!(g.run(choice, &State::new("xx", 0)), Outcome::Exhausted);
}

#[test]
fn parse_whole_tells_mismatch_from_match() {
    let mut g = Grammar::new();
    let digit = g.add(Rule::Class("0-9".to_string()));
    let digits = g.add(Rule::Repetition(digit, 1));
    assert_eq!(g.parse_whole(digits, "12x"), Outcome::Failed);
    assert_eq!(g.parse_whole(digits, "x"), Outcome::Failed);
    assert_eq!(
        g.parse_whole(digits, "12"),
        Outcome::Matched(MatchNode::Repetition(vec![class("1"), class("2")]), 2)
    );
    assert_eq!(g.run(digits, &State::new("12", 5)), Outcome::Failed);
}
