//! The scanner: turns ledger text into a stream of tokens, one grapheme
//! cluster at a time.
//!
//! A line is a transaction header (`DATE [STATUS] DESCRIPTION`), an indented
//! posting (`ACCOUNT  AMOUNT`, the two parted by two or more spaces or a tab),
//! a comment, or blank. What the scanner cannot place is reported as a
//! diagnostic and skipped.
use crate::segment::{char_offset, concat, graphemes, graphemes_of, join_range, lemma_concat_range, views_of};
use vstd::prelude::*;
use vstd::string::StrSliceExecFns;

verus! {

/// The kinds of token.
#[derive(Debug, Clone, Copy, PartialEq, Eq, Structural)]
pub enum TokenType {
    Indentation,
    Date,
    Status,
    Description,
    AccountName,
    Currency,
    Comment,
    Newline,
    EOF,
}

/// A token: its kind, the text it covers and the line it is on.
#[derive(Debug, Clone, PartialEq)]
pub struct Token {
    pub token_type: TokenType,
    /// A value read from the text; the scanner leaves it empty.
    pub literal: Option<String>,
    pub lexeme: String,
    pub line: usize,
}

impl Token {
    pub fn new(token_type: TokenType, literal: Option<String>, lexeme: &str, line: usize) -> (r: Token)
        ensures
            r.token_type == token_type,
            r.literal == literal,
            r.lexeme@ == lexeme@,
            r.line == line,
    {
        Token { token_type, literal, lexeme: lexeme.to_string(), line }
    }

    pub fn token_type(&self) -> (r: &TokenType)
        ensures
            *r == self.token_type,
    {
        &self.token_type
    }

    pub fn line(&self) -> (r: usize)
        ensures
            r == self.line,
    {
        self.line
    }

    pub fn lexeme(&self) -> (r: &String)
        ensures
            r@ == self.lexeme@,
    {
        &self.lexeme
    }

    /// The token as kind, text and line.
    pub open spec fn spec(&self) -> TokenSpec {
        TokenSpec { kind: self.token_type, text: self.lexeme@, line: self.line as int }
    }
}

/// A token as kind, text and line.
pub struct TokenSpec {
    pub kind: TokenType,
    pub text: Seq<char>,
    pub line: int,
}

/// A grapheme that could not be placed, reported with its line.
#[derive(Debug, Clone)]
pub struct Diagnostic {
    pub line: usize,
    pub message: String,
}

/// Where in a line the scanner stands.
#[derive(Debug, Clone, Copy, PartialEq, Eq, Structural)]
pub enum Mode {
    /// At the start of a line.
    LineStart,
    /// Right after the date of a header.
    Header,
    /// After a separator that follows the date.
    Status,
    /// After the status marker.
    AfterStatus,
    /// In the description of a header.
    Description,
    /// After the indentation of a posting.
    Account,
    /// After the account of a posting.
    AfterAccount,
    /// After the separator that follows an account.
    Amount,
    /// After the amount of a posting.
    AfterAmount,
    /// After everything a line may hold but a comment.
    Trailing,
}

/// The character a grapheme consists of, if it is a single one.
pub open spec fn sc(g: Seq<char>) -> Option<char> {
    if g.len() == 1 {
        Some(g[0])
    } else {
        None
    }
}

pub open spec fn is_space(g: Seq<char>) -> bool {
    sc(g) == Some(' ')
}

pub open spec fn is_tab(g: Seq<char>) -> bool {
    sc(g) == Some('\t')
}

pub open spec fn is_blank(g: Seq<char>) -> bool {
    is_space(g) || is_tab(g)
}

pub open spec fn is_newline(g: Seq<char>) -> bool {
    sc(g) == Some('\n') || g == seq!['\r', '\n']
}

pub open spec fn is_digit(g: Seq<char>) -> bool {
    sc(g) matches Some(c) && '0' <= c <= '9'
}

pub open spec fn is_divider(g: Seq<char>) -> bool {
    sc(g) == Some('-') || sc(g) == Some('/')
}

/// A grapheme that starts a comment.
pub open spec fn is_marker(g: Seq<char>) -> bool {
    sc(g) == Some(';') || sc(g) == Some('#') || sc(g) == Some('%') || sc(g) == Some('|') || sc(g) == Some('*')
}

/// Whether a field separator starts at `j`: a tab, or a space followed by
/// another space or a tab.
pub open spec fn gap_at(g: Seq<Seq<char>>, j: int) -> bool {
    0 <= j < g.len() && (is_tab(g[j]) || (is_space(g[j]) && j + 1 < g.len() && is_blank(g[j + 1])))
}

/// The kinds of run the scanner reads.
#[derive(Debug, Clone, Copy, PartialEq, Eq, Structural)]
pub enum Run {
    /// Spaces and tabs.
    Blank,
    /// Digits.
    Digits,
    /// Anything up to the end of the line.
    Line,
    /// Anything up to the end of the line or a `;`.
    Text,
    /// Anything up to the end of the line or a field separator.
    Field,
    /// Anything up to the end of the line, a blank or a `;`.
    Word,
}

/// Whether the run of kind `k` stops before position `j`.
pub open spec fn stops(g: Seq<Seq<char>>, j: int, k: Run) -> bool {
    match k {
        Run::Blank => !is_blank(g[j]),
        Run::Digits => !is_digit(g[j]),
        Run::Line => is_newline(g[j]),
        Run::Text => is_newline(g[j]) || sc(g[j]) == Some(';'),
        Run::Field => is_newline(g[j]) || gap_at(g, j),
        Run::Word => is_newline(g[j]) || is_blank(g[j]) || sc(g[j]) == Some(';'),
    }
}

/// Where the run of kind `k` that starts at `i` ends.
pub open spec fn run_end(g: Seq<Seq<char>>, i: int, k: Run) -> int
    decreases g.len() - i,
{
    if i < 0 || i >= g.len() || stops(g, i, k) {
        i
    } else {
        run_end(g, i + 1, k)
    }
}

/// Where the date that starts at `i` ends: digits, and a `-` or `/` only
/// where a digit follows it.
pub open spec fn date_end(g: Seq<Seq<char>>, i: int) -> int
    decreases g.len() - i,
{
    if i < 0 || i >= g.len() {
        i
    } else if is_digit(g[i]) || (is_divider(g[i]) && i + 1 < g.len() && is_digit(g[i + 1])) {
        date_end(g, i + 1)
    } else {
        i
    }
}

/// Where the scanner stands: position, line and mode.
pub struct ScanState {
    pub pos: int,
    pub line: int,
    pub mode: Mode,
}

/// One token covering `g[a..b]`.
pub open spec fn emit(kind: TokenType, g: Seq<Seq<char>>, a: int, b: int, line: int) -> Seq<TokenSpec> {
    seq![TokenSpec { kind, text: concat(g.subrange(a, b)), line }]
}

/// What one scanning step yields: the next state, the tokens, the lines of
/// the diagnostics, and the range of graphemes that each token covers.
pub type Step = (ScanState, Seq<TokenSpec>, Seq<int>, Seq<(int, int)>);

/// A step that yields the token of kind `kind` covering `g[a..b]`.
pub open spec fn token(g: Seq<Seq<char>>, st: ScanState, kind: TokenType, a: int, b: int, next: ScanState) -> Step {
    (next, emit(kind, g, a, b, st.line), Seq::empty(), seq![(a, b)])
}

/// A step that only moves on.
pub open spec fn quiet(next: ScanState) -> Step {
    (next, Seq::empty(), Seq::empty(), Seq::empty())
}

/// Skips the grapheme at the position with a diagnostic.
pub open spec fn skip(st: ScanState) -> Step {
    (ScanState { pos: st.pos + 1, ..st }, Seq::empty(), seq![st.line], Seq::empty())
}

/// Passes over the single space at the position, into mode `next`.
pub open spec fn pass(st: ScanState, next: Mode) -> Step {
    quiet(ScanState { pos: st.pos + 1, mode: next, ..st })
}

/// A comment from the position to the end of the line.
pub open spec fn comment(g: Seq<Seq<char>>, st: ScanState) -> Step {
    let e = run_end(g, st.pos, Run::Line);
    token(g, st, TokenType::Comment, st.pos, e, ScanState { pos: e, mode: Mode::Trailing, ..st })
}

/// A run of blanks as one indentation token, followed by mode `next`.
pub open spec fn indent(g: Seq<Seq<char>>, st: ScanState, next: Mode) -> Step {
    let e = run_end(g, st.pos, Run::Blank);
    token(g, st, TokenType::Indentation, st.pos, e, ScanState { pos: e, mode: next, ..st })
}

/// A field of kind `kind` up to the end of a run of kind `run`, followed by
/// mode `next`.
pub open spec fn field(g: Seq<Seq<char>>, st: ScanState, kind: TokenType, run: Run, next: Mode) -> Step {
    let e = run_end(g, st.pos + 1, run);
    token(g, st, kind, st.pos, e, ScanState { pos: e, mode: next, ..st })
}

/// The description of a header, or the comment that ends it.
pub open spec fn describe(g: Seq<Seq<char>>, st: ScanState) -> Step {
    if sc(g[st.pos]) == Some(';') {
        comment(g, st)
    } else {
        field(g, st, TokenType::Description, Run::Text, Mode::Description)
    }
}

/// Where a status marker that starts at `s` ends: a `*` or `!`, or a run of
/// digits, each followed by a space or a tab.
pub open spec fn status_end(g: Seq<Seq<char>>, s: int) -> Option<int> {
    if 0 <= s < g.len() && (sc(g[s]) == Some('*') || sc(g[s]) == Some('!')) && s + 1 < g.len() && is_blank(g[s + 1]) {
        Some(s + 1)
    } else if 0 <= s < g.len() && is_digit(g[s]) && run_end(g, s, Run::Digits) < g.len() && is_blank(
        g[run_end(g, s, Run::Digits)],
    ) {
        Some(run_end(g, s, Run::Digits))
    } else {
        None
    }
}

/// After the date and a single space: a status marker, if one stands after
/// the space, else the description.
pub open spec fn header(g: Seq<Seq<char>>, st: ScanState) -> Step {
    let s = st.pos + 1;
    match status_end(g, s) {
        Some(e) => token(g, st, TokenType::Status, s, e, ScanState { pos: e, mode: Mode::AfterStatus, ..st }),
        None => quiet(ScanState { pos: s, mode: Mode::Description, ..st }),
    }
}

/// After the date and a separator: a status marker, if one stands at the
/// position, else the description.
pub open spec fn status(g: Seq<Seq<char>>, st: ScanState) -> Step {
    match status_end(g, st.pos) {
        Some(e) => token(g, st, TokenType::Status, st.pos, e, ScanState { pos: e, mode: Mode::AfterStatus, ..st }),
        None => describe(g, st),
    }
}

/// One scanning step at a position within the text. A separator (two or
/// more blanks, or a tab) is one indentation token in every mode, ahead of
/// any other rule; a single space between fields yields no token.
pub open spec fn step(g: Seq<Seq<char>>, st: ScanState) -> Step {
    let c = g[st.pos];
    if is_newline(c) {
        token(g, st, TokenType::Newline, st.pos, st.pos + 1, ScanState { pos: st.pos + 1, line: next_line(st.line), mode: Mode::LineStart })
    } else if gap_at(g, st.pos) {
        indent(g, st, after_gap(st.mode))
    } else {
        match st.mode {
            Mode::LineStart => {
                if is_marker(c) {
                    comment(g, st)
                } else if is_digit(c) {
                    let e = date_end(g, st.pos);
                    token(g, st, TokenType::Date, st.pos, e, ScanState { pos: e, mode: Mode::Header, ..st })
                } else {
                    skip(st)
                }
            },
            Mode::Header => if is_space(c) {
                header(g, st)
            } else {
                describe(g, st)
            },
            Mode::Status => status(g, st),
            Mode::AfterStatus => if is_space(c) {
                pass(st, Mode::Description)
            } else {
                describe(g, st)
            },
            Mode::Description => describe(g, st),
            Mode::Account => if is_marker(c) {
                comment(g, st)
            } else {
                field(g, st, TokenType::AccountName, Run::Field, Mode::AfterAccount)
            },
            Mode::AfterAccount => if is_space(c) {
                pass(st, Mode::Amount)
            } else {
                skip(st)
            },
            Mode::Amount => if is_marker(c) {
                comment(g, st)
            } else {
                field(g, st, TokenType::Currency, Run::Word, Mode::AfterAmount)
            },
            Mode::AfterAmount | Mode::Trailing => if is_space(c) {
                pass(st, Mode::Trailing)
            } else if is_marker(c) {
                comment(g, st)
            } else {
                skip(st)
            },
        }
    }
}

/// The mode after a separator met in mode `m`: the field that follows it.
pub open spec fn after_gap(m: Mode) -> Mode {
    match m {
        Mode::LineStart => Mode::Account,
        Mode::Header => Mode::Status,
        Mode::Status => Mode::Status,
        Mode::AfterStatus => Mode::Description,
        Mode::Description => Mode::Description,
        Mode::Account => Mode::Account,
        Mode::AfterAccount => Mode::Amount,
        Mode::Amount => Mode::Amount,
        Mode::AfterAmount | Mode::Trailing => Mode::Trailing,
    }
}

/// The tokens and diagnostic lines of scanning from `st` to the end, and the
/// line the scan ends on.
pub open spec fn scan_all(g: Seq<Seq<char>>, st: ScanState) -> (Seq<TokenSpec>, Seq<int>, int)
    decreases g.len() - st.pos,
{
    if st.pos < 0 || st.pos >= g.len() {
        (Seq::empty(), Seq::empty(), st.line)
    } else {
        let (next, ts, ds, _) = step(g, st);
        if next.pos <= st.pos || next.pos > g.len() {
            (ts, ds, next.line)
        } else {
            let (ts2, ds2, l) = scan_all(g, next);
            (ts + ts2, ds + ds2, l)
        }
    }
}

/// The ranges of graphemes that the tokens of `scan_all(g, st)` cover.
pub open spec fn scan_spans(g: Seq<Seq<char>>, st: ScanState) -> Seq<(int, int)>
    decreases g.len() - st.pos,
{
    if st.pos < 0 || st.pos >= g.len() {
        Seq::empty()
    } else {
        let (next, _, _, sp) = step(g, st);
        if next.pos <= st.pos || next.pos > g.len() {
            sp
        } else {
            sp + scan_spans(g, next)
        }
    }
}

/// Whether the ranges `sp` lie in order, without overlap, between `from` and
/// the end of `g`, and token `i` is the text of range `i`.
pub open spec fn spans_cover(g: Seq<Seq<char>>, ts: Seq<TokenSpec>, sp: Seq<(int, int)>, from: int) -> bool {
    &&& sp.len() == ts.len()
    &&& forall|i: int|
        0 <= i < sp.len() ==> from <= (#[trigger] sp[i]).0 <= sp[i].1 <= g.len() && ts[i].text == concat(
            g.subrange(sp[i].0, sp[i].1),
        )
    &&& forall|i: int| 0 <= i < sp.len() - 1 ==> (#[trigger] sp[i]).1 <= sp[i + 1].0
}

/// The tokens of a list, as kind, text and line.
pub open spec fn specs_of(v: Seq<Token>) -> Seq<TokenSpec> {
    v.map_values(|t: Token| t.spec())
}


/// The lines of a list of diagnostics.
pub open spec fn diag_lines(v: Seq<Diagnostic>) -> Seq<int> {
    v.map_values(|d: Diagnostic| d.line as int)
}

/// Whether no token carries a literal value.
pub open spec fn literal_free(v: Seq<Token>) -> bool {
    forall|i: int| 0 <= i < v.len() ==> (#[trigger] v[i]).literal is None
}

/// The line after `l`, held at the largest line number.
pub open spec fn next_line(l: int) -> int {
    if l < usize::MAX {
        l + 1
    } else {
        l
    }
}

/// The character a grapheme consists of, if it is a single one.
fn single(g: &String) -> (r: Option<char>)
    ensures
        r == sc(g@),
{
    let s = g.as_str();
    if s.unicode_len() == 1 {
        Some(s.get_char(0))
    } else {
        None
    }
}

fn newline_g(g: &String) -> (r: bool)
    ensures
        r == is_newline(g@),
{
    let s = g.as_str();
    let n = s.unicode_len();
    if n == 1 {
        s.get_char(0) == '\n'
    } else if n == 2 {
        let a = s.get_char(0);
        let b = s.get_char(1);
        if a == '\r' && b == '\n' {
            assert(g@ =~= seq!['\r', '\n']);
            true
        } else {
            false
        }
    } else {
        false
    }
}

fn is_char_of(c: Option<char>, x: char) -> (r: bool)
    ensures
        r == (c == Some(x)),
{
    match c {
        Some(d) => d == x,
        None => false,
    }
}

fn blank_c(c: Option<char>) -> (r: bool)
    ensures
        r == (c == Some(' ') || c == Some('\t')),
{
    is_char_of(c, ' ') || is_char_of(c, '\t')
}

fn digit_c(c: Option<char>) -> (r: bool)
    ensures
        r == (c matches Some(d) && '0' <= d <= '9'),
{
    match c {
        Some(d) => '0' <= d && d <= '9',
        None => false,
    }
}

fn marker_c(c: Option<char>) -> (r: bool)
    ensures
        r == (c == Some(';') || c == Some('#') || c == Some('%') || c == Some('|') || c == Some('*')),
{
    is_char_of(c, ';') || is_char_of(c, '#') || is_char_of(c, '%') || is_char_of(c, '|') || is_char_of(c, '*')
}

fn gap_exec(g: &Vec<String>, j: usize) -> (r: bool)
    requires
        j < g@.len(),
    ensures
        r == gap_at(views_of(g@), j as int),
{
    let n = g.len();
    let c = single(&g[j]);
    if is_char_of(c, '\t') {
        true
    } else if is_char_of(c, ' ') && j + 1 < n {
        blank_c(single(&g[j + 1]))
    } else {
        false
    }
}

fn stops_exec(g: &Vec<String>, j: usize, k: Run) -> (r: bool)
    requires
        j < g@.len(),
    ensures
        r == stops(views_of(g@), j as int, k),
{
    match k {
        Run::Blank => !blank_c(single(&g[j])),
        Run::Digits => !digit_c(single(&g[j])),
        Run::Line => newline_g(&g[j]),
        Run::Text => newline_g(&g[j]) || is_char_of(single(&g[j]), ';'),
        Run::Field => newline_g(&g[j]) || gap_exec(g, j),
        Run::Word => newline_g(&g[j]) || blank_c(single(&g[j])) || is_char_of(single(&g[j]), ';'),
    }
}

fn run_end_exec(g: &Vec<String>, i: usize, k: Run) -> (r: usize)
    requires
        i <= g@.len(),
    ensures
        r == run_end(views_of(g@), i as int, k),
        i <= r <= g@.len(),
{
    let mut j = i;
    while j < g.len() && !stops_exec(g, j, k)
        invariant
            i <= j <= g@.len(),
            run_end(views_of(g@), i as int, k) == run_end(views_of(g@), j as int, k),
        decreases g@.len() - j,
    {
        j = j + 1;
    }
    j
}

fn date_end_exec(g: &Vec<String>, i: usize) -> (r: usize)
    requires
        i <= g@.len(),
    ensures
        r == date_end(views_of(g@), i as int),
        i <= r <= g@.len(),
{
    let mut j = i;
    while j < g.len() && date_continues(g, j)
        invariant
            i <= j <= g@.len(),
            date_end(views_of(g@), i as int) == date_end(views_of(g@), j as int),
        decreases g@.len() - j,
    {
        j = j + 1;
    }
    j
}

/// Whether the date goes on past position `j`.
fn date_continues(g: &Vec<String>, j: usize) -> (r: bool)
    requires
        j < g@.len(),
    ensures
        r == (is_digit(views_of(g@)[j as int]) || (is_divider(views_of(g@)[j as int]) && j + 1 < g@.len()
            && is_digit(views_of(g@)[j + 1]))),
{
    let n = g.len();
    let c = single(&g[j]);
    digit_c(c) || ((is_char_of(c, '-') || is_char_of(c, '/')) && j + 1 < n && digit_c(single(&g[j + 1])))
}

/// Where a status marker that starts at `s` ends (see [`status_end`]).
fn status_end_exec(g: &Vec<String>, s: usize) -> (r: Option<usize>)
    requires
        s <= g@.len(),
    ensures
        match r {
            Some(e) => status_end(views_of(g@), s as int) == Some(e as int) && s <= e <= g@.len(),
            None => status_end(views_of(g@), s as int) is None,
        },
{
    let n = g.len();
    if s < n {
        let c = single(&g[s]);
        if (is_char_of(c, '*') || is_char_of(c, '!')) && s + 1 < n && blank_c(single(&g[s + 1])) {
            return Some(s + 1);
        }
        if digit_c(c) {
            let e = run_end_exec(g, s, Run::Digits);
            if e < n && blank_c(single(&g[e])) {
                return Some(e);
            }
        }
    }
    None
}

/// The mode after a separator (see [`after_gap`]).
fn after_gap_exec(m: Mode) -> (r: Mode)
    ensures
        r == after_gap(m),
{
    match m {
        Mode::LineStart => Mode::Account,
        Mode::Header => Mode::Status,
        Mode::Status => Mode::Status,
        Mode::AfterStatus => Mode::Description,
        Mode::Description => Mode::Description,
        Mode::Account => Mode::Account,
        Mode::AfterAccount => Mode::Amount,
        Mode::Amount => Mode::Amount,
        Mode::AfterAmount | Mode::Trailing => Mode::Trailing,
    }
}

/// The text of `g[a..b]`.
fn text_of(g: &Vec<String>, a: usize, b: usize) -> (r: String)
    requires
        a <= b <= g@.len(),
    ensures
        r@ == concat(views_of(g@).subrange(a as int, b as int)),
{
    let r = join_range(g, a, b);
    assert(views_of(g@.subrange(a as int, b as int)) =~= views_of(g@).subrange(a as int, b as int));
    r
}

/// Scans a list of graphemes into tokens.
pub struct Scanner {
    pub source: Vec<String>,
    /// The tokens so far.
    pub tokens: Vec<Token>,
    pub diagnostics: Vec<Diagnostic>,
    /// Where the step under way started.
    pub start: usize,
    /// The next grapheme to scan.
    pub current: usize,
    pub line: usize,
    pub mode: Mode,
}

/// Whether scanner `new` is scanner `old` after a step that yields `s`.
pub open spec fn stepped(old: Scanner, new: Scanner, s: Step) -> bool {
    &&& new.source == old.source
    &&& new.current == s.0.pos
    &&& new.line == s.0.line
    &&& new.mode == s.0.mode
    &&& specs_of(new.tokens@) == specs_of(old.tokens@) + s.1
    &&& old.tokens@.len() <= new.tokens@.len()
    &&& new.tokens@.len() == old.tokens@.len() + s.1.len()
    &&& new.tokens@.subrange(0, old.tokens@.len() as int) == old.tokens@
    &&& diag_lines(new.diagnostics@) == diag_lines(old.diagnostics@) + s.2
    &&& literal_free(old.tokens@) ==> literal_free(new.tokens@)
    &&& reports_unexpected(old.diagnostics@) ==> reports_unexpected(new.diagnostics@)
}

/// Whether every diagnostic reads "Unexpected character.".
pub open spec fn reports_unexpected(v: Seq<Diagnostic>) -> bool {
    forall|i: int| 0 <= i < v.len() ==> (#[trigger] v[i]).message@ == "Unexpected character."@
}

impl Scanner {
    /// Where the scanner stands.
    pub open spec fn state(&self) -> ScanState {
        ScanState { pos: self.current as int, line: self.line as int, mode: self.mode }
    }

    /// The graphemes scanned.
    pub open spec fn units(&self) -> Seq<Seq<char>> {
        views_of(self.source@)
    }

    /// A scanner at the start of the first line of `source`.
    pub fn new(source: Vec<String>) -> (r: Scanner)
        ensures
            r.source == source,
            r.tokens@.len() == 0,
            r.diagnostics@.len() == 0,
            r.current == 0,
            r.line == 1,
            r.mode == Mode::LineStart,
    {
        Scanner { source, tokens: Vec::new(), diagnostics: Vec::new(), start: 0, current: 0, line: 1, mode: Mode::LineStart }
    }

    pub fn is_at_end(&self) -> (r: bool)
        ensures
            r == (self.current >= self.source@.len()),
    {
        self.current >= self.source.len()
    }

    /// Adds a token covering `source[a..b]` on the current line.
    fn add(&mut self, kind: TokenType, a: usize, b: usize)
        requires
            a <= b <= old(self).source@.len(),
        ensures
            final(self).source == old(self).source,
            final(self).current == old(self).current,
            final(self).line == old(self).line,
            final(self).mode == old(self).mode,
            final(self).diagnostics == old(self).diagnostics,
            specs_of(final(self).tokens@) == specs_of(old(self).tokens@) + emit(kind, old(self).units(), a as int, b as int, old(self).line as int),
            final(self).tokens@.len() == old(self).tokens@.len() + 1,
            final(self).tokens@.subrange(0, old(self).tokens@.len() as int) == old(self).tokens@,
            literal_free(old(self).tokens@) ==> literal_free(final(self).tokens@),
    {
        let lexeme = text_of(&self.source, a, b);
        let t = Token { token_type: kind, literal: None, lexeme, line: self.line };
        let ghost before = self.tokens@;
        self.tokens.push(t);
        assert(specs_of(self.tokens@) =~= specs_of(before) + emit(kind, self.units(), a as int, b as int, self.line as int));
        assert(self.tokens@.subrange(0, before.len() as int) =~= before);
    }

    /// Skips the current grapheme with a diagnostic.
    fn skip(&mut self)
        requires
            old(self).current < old(self).source@.len(),
        ensures
            stepped(*old(self), *final(self), skip(old(self).state())),
    {
        let ghost before = self.diagnostics@;
        self.diagnostics.push(Diagnostic { line: self.line, message: "Unexpected character.".to_string() });
        assert(diag_lines(self.diagnostics@) =~= diag_lines(before) + seq![self.line as int]);
        assert(specs_of(self.tokens@) =~= specs_of(self.tokens@) + Seq::<TokenSpec>::empty());
        assert(self.tokens@.subrange(0, self.tokens@.len() as int) =~= self.tokens@);
        let n = self.source.len();
        self.current = self.current + 1;
    }

    /// Ends a step of no diagnostic at `pos` in mode `mode`.
    fn settle(&mut self, pos: usize, mode: Mode)
        ensures
            final(self).source == old(self).source,
            final(self).tokens == old(self).tokens,
            final(self).tokens@.subrange(0, old(self).tokens@.len() as int) == old(self).tokens@,
            final(self).diagnostics == old(self).diagnostics,
            final(self).line == old(self).line,
            final(self).current == pos,
            final(self).mode == mode,
            diag_lines(final(self).diagnostics@) == diag_lines(old(self).diagnostics@) + Seq::<int>::empty(),
    {
        assert(diag_lines(self.diagnostics@) =~= diag_lines(self.diagnostics@) + Seq::<int>::empty());
        assert(self.tokens@.subrange(0, self.tokens@.len() as int) =~= self.tokens@);
        self.current = pos;
        self.mode = mode;
    }

    /// Moves on to `pos` in mode `mode` without a token.
    fn move_to(&mut self, pos: usize, mode: Mode)
        ensures
            stepped(*old(self), *final(self), quiet(ScanState { pos: pos as int, mode, ..old(self).state() })),
    {
        assert(specs_of(self.tokens@) =~= specs_of(self.tokens@) + Seq::<TokenSpec>::empty());
        self.settle(pos, mode);
    }

    /// A token of kind `kind` from the current grapheme to `e`, then mode
    /// `next`.
    fn token_to(&mut self, kind: TokenType, e: usize, next: Mode)
        requires
            old(self).current <= e <= old(self).source@.len(),
        ensures
            stepped(*old(self), *final(self), token(old(self).units(), old(self).state(), kind, old(self).current as int, e as int,
                ScanState { pos: e as int, mode: next, ..old(self).state() })),
    {
        self.add(kind, self.current, e);
        self.settle(e, next);
    }

    /// A comment from the current grapheme to the end of the line.
    fn comment(&mut self)
        requires
            old(self).current < old(self).source@.len(),
        ensures
            stepped(*old(self), *final(self), comment(old(self).units(), old(self).state())),
    {
        let e = run_end_exec(&self.source, self.current, Run::Line);
        self.token_to(TokenType::Comment, e, Mode::Trailing);
    }

    /// A run of blanks as one indentation token.
    fn indent(&mut self, next: Mode)
        requires
            old(self).current < old(self).source@.len(),
        ensures
            stepped(*old(self), *final(self), indent(old(self).units(), old(self).state(), next)),
    {
        let e = run_end_exec(&self.source, self.current, Run::Blank);
        self.token_to(TokenType::Indentation, e, next);
    }

    /// A field up to the end of a run of kind `run`.
    fn field(&mut self, kind: TokenType, run: Run, next: Mode)
        requires
            old(self).current < old(self).source@.len(),
        ensures
            stepped(*old(self), *final(self), field(old(self).units(), old(self).state(), kind, run, next)),
    {
        let n = self.source.len();
        let e = run_end_exec(&self.source, self.current + 1, run);
        self.token_to(kind, e, next);
    }

    /// The description of a header, or the comment that ends it.
    fn describe(&mut self)
        requires
            old(self).current < old(self).source@.len(),
        ensures
            stepped(*old(self), *final(self), describe(old(self).units(), old(self).state())),
    {
        if is_char_of(single(&self.source[self.current]), ';') {
            self.comment();
        } else {
            self.field(TokenType::Description, Run::Text, Mode::Description);
        }
    }

    /// A status marker after the date and a single space, if one stands
    /// there.
    fn header(&mut self)
        requires
            old(self).current < old(self).source@.len(),
        ensures
            stepped(*old(self), *final(self), header(old(self).units(), old(self).state())),
    {
        let n = self.source.len();
        let s = self.current + 1;
        match status_end_exec(&self.source, s) {
            Some(e) => {
                self.add(TokenType::Status, s, e);
                self.settle(e, Mode::AfterStatus);
            },
            None => self.move_to(s, Mode::Description),
        }
    }

    /// A status marker after the date and a separator, if one stands at the
    /// current grapheme, else the description.
    fn status(&mut self)
        requires
            old(self).current < old(self).source@.len(),
        ensures
            stepped(*old(self), *final(self), status(old(self).units(), old(self).state())),
    {
        match status_end_exec(&self.source, self.current) {
            Some(e) => self.token_to(TokenType::Status, e, Mode::AfterStatus),
            None => self.describe(),
        }
    }

    /// Scans one step from the current grapheme.
    pub fn scan_token(&mut self)
        requires
            old(self).current < old(self).source@.len(),
        ensures
            stepped(*old(self), *final(self), step(old(self).units(), old(self).state())),
            old(self).current < final(self).current <= final(self).source@.len(),
            final(self).tokens@.len() <= old(self).tokens@.len() + 1,
    {
        proof {
            lemma_step_progress(self.units(), self.state());
        }
        let p = self.current;
        let n = self.source.len();
        self.start = p;
        if newline_g(&self.source[p]) {
            self.add(TokenType::Newline, p, p + 1);
            assert(diag_lines(self.diagnostics@) =~= diag_lines(self.diagnostics@) + Seq::<int>::empty());
            self.current = p + 1;
            if self.line < usize::MAX {
                self.line = self.line + 1;
            }
            self.mode = Mode::LineStart;
            return;
        }
        let c = single(&self.source[p]);
        if gap_exec(&self.source, p) {
            let next = after_gap_exec(self.mode);
            self.indent(next);
            return;
        }
        match self.mode {
            Mode::LineStart => {
                if marker_c(c) {
                    self.comment();
                } else if digit_c(c) {
                    let e = date_end_exec(&self.source, p);
                    self.token_to(TokenType::Date, e, Mode::Header);
                } else {
                    self.skip();
                }
            },
            Mode::Header => {
                if is_char_of(c, ' ') {
                    self.header();
                } else {
                    self.describe();
                }
            },
            Mode::Status => self.status(),
            Mode::AfterStatus => {
                if is_char_of(c, ' ') {
                    self.move_to(p + 1, Mode::Description);
                } else {
                    self.describe();
                }
            },
            Mode::Description => self.describe(),
            Mode::Account => {
                if marker_c(c) {
                    self.comment();
                } else {
                    self.field(TokenType::AccountName, Run::Field, Mode::AfterAccount);
                }
            },
            Mode::AfterAccount => {
                if is_char_of(c, ' ') {
                    self.move_to(p + 1, Mode::Amount);
                } else {
                    self.skip();
                }
            },
            Mode::Amount => {
                if marker_c(c) {
                    self.comment();
                } else {
                    self.field(TokenType::Currency, Run::Word, Mode::AfterAmount);
                }
            },
            Mode::AfterAmount | Mode::Trailing => {
                if is_char_of(c, ' ') {
                    self.move_to(p + 1, Mode::Trailing);
                } else if marker_c(c) {
                    self.comment();
                } else {
                    self.skip();
                }
            },
        }
    }

    /// Scans from the current position to the end of the source.
    pub fn scan_rest(&mut self)
        ensures
            ({
                let (ts, ds, l) = scan_all(old(self).units(), old(self).state());
                &&& final(self).source == old(self).source
                &&& final(self).line == l
                &&& final(self).current >= final(self).source@.len()
                &&& specs_of(final(self).tokens@) == specs_of(old(self).tokens@) + ts
                &&& diag_lines(final(self).diagnostics@) == diag_lines(old(self).diagnostics@) + ds
                &&& literal_free(old(self).tokens@) ==> literal_free(final(self).tokens@)
                &&& reports_unexpected(old(self).diagnostics@) ==> reports_unexpected(final(self).diagnostics@)
            }),
    {
        let ghost g = self.units();
        let ghost init = self.state();
        let ghost t0 = specs_of(self.tokens@);
        let ghost d0 = diag_lines(self.diagnostics@);
        let ghost free0 = literal_free(self.tokens@);
        if self.current > self.source.len() {
            return;
        }
        while !self.is_at_end()
            invariant
                self.source == old(self).source,
                g == self.units(),
                self.current <= self.source@.len(),
                t0 + scan_all(g, init).0 == specs_of(self.tokens@) + scan_all(g, self.state()).0,
                d0 + scan_all(g, init).1 == diag_lines(self.diagnostics@) + scan_all(g, self.state()).1,
                scan_all(g, init).2 == scan_all(g, self.state()).2,
                free0 ==> literal_free(self.tokens@),
                reports_unexpected(old(self).diagnostics@) ==> reports_unexpected(self.diagnostics@),
            decreases self.source@.len() - self.current,
        {
            let ghost st = self.state();
            let ghost t1 = specs_of(self.tokens@);
            let ghost d1 = diag_lines(self.diagnostics@);
            proof {
                lemma_step_progress(g, st);
            }
            self.scan_token();
            proof {
                let (next, ts, ds, _) = step(g, st);
                let rest = scan_all(g, next);
                assert(t1 + (ts + rest.0) =~= (t1 + ts) + rest.0);
                assert(d1 + (ds + rest.1) =~= (d1 + ds) + rest.1);
            }
        }
        proof {
            assert(specs_of(self.tokens@) + Seq::<TokenSpec>::empty() =~= specs_of(self.tokens@));
            assert(diag_lines(self.diagnostics@) + Seq::<int>::empty() =~= diag_lines(self.diagnostics@));
        }
    }

    /// Scans the whole source and closes the stream with the end-of-input
    /// token.
    pub fn lex(&mut self)
        ensures
            ({
                let (ts, ds, l) = scan_all(old(self).units(), old(self).state());
                &&& final(self).source == old(self).source
                &&& final(self).line == l
                &&& final(self).current >= final(self).source@.len()
                &&& specs_of(final(self).tokens@) == specs_of(old(self).tokens@) + ts.push(end_token(l))
                &&& diag_lines(final(self).diagnostics@) == diag_lines(old(self).diagnostics@) + ds
                &&& literal_free(old(self).tokens@) ==> literal_free(final(self).tokens@)
                &&& reports_unexpected(old(self).diagnostics@) ==> reports_unexpected(final(self).diagnostics@)
            }),
            free_of_end(old(self).tokens@) ==> ends_once(final(self).tokens@),
    {
        self.scan_rest();
        let ghost before = specs_of(self.tokens@);
        let line = self.line;
        self.tokens.push(Token { token_type: TokenType::EOF, literal: None, lexeme: String::new(), line });
        proof {
            let (ts, ds, l) = scan_all(old(self).units(), old(self).state());
            assert(specs_of(self.tokens@) =~= before.push(end_token(l)));
            assert(specs_of(old(self).tokens@) + ts.push(end_token(l)) =~= (specs_of(old(self).tokens@) + ts).push(end_token(l)));
            if free_of_end(old(self).tokens@) {
                lemma_scan_no_end(old(self).units(), old(self).state());
                let k = old(self).tokens@.len();
                let all = specs_of(self.tokens@);
                assert forall|i: int| 0 <= i < self.tokens@.len() - 1 implies (#[trigger] self.tokens@[i]).token_type != TokenType::EOF by {
                    assert(all[i] == self.tokens@[i].spec());
                    if i < k {
                        assert(all[i] == specs_of(old(self).tokens@)[i]);
                        assert(specs_of(old(self).tokens@)[i] == old(self).tokens@[i].spec());
                    } else {
                        assert(all[i] == ts[i - k]);
                    }
                }
                assert(all[self.tokens@.len() - 1] == self.tokens@.last().spec());
            }
        }
    }
}

/// The end-of-input token on line `l`.
pub open spec fn end_token(l: int) -> TokenSpec {
    TokenSpec { kind: TokenType::EOF, text: Seq::empty(), line: l }
}

proof fn lemma_run_end(g: Seq<Seq<char>>, i: int, k: Run)
    requires
        0 <= i <= g.len(),
    ensures
        i <= run_end(g, i, k) <= g.len(),
        i < g.len() && !stops(g, i, k) ==> run_end(g, i, k) > i,
    decreases g.len() - i,
{
    if i < g.len() && !stops(g, i, k) {
        lemma_run_end(g, i + 1, k);
    }
}

proof fn lemma_date_end(g: Seq<Seq<char>>, i: int)
    requires
        0 <= i <= g.len(),
    ensures
        i <= date_end(g, i) <= g.len(),
        i < g.len() && is_digit(g[i]) ==> date_end(g, i) > i,
    decreases g.len() - i,
{
    if i < g.len() && (is_digit(g[i]) || (is_divider(g[i]) && i + 1 < g.len() && is_digit(g[i + 1]))) {
        lemma_date_end(g, i + 1);
    }
}

/// Each step moves forward and stays within the text.
proof fn lemma_step_progress(g: Seq<Seq<char>>, st: ScanState)
    requires
        0 <= st.pos < g.len(),
    ensures
        st.pos < step(g, st).0.pos <= g.len(),
        step(g, st).1.len() <= 1,
{
    lemma_run_end(g, st.pos, Run::Blank);
    lemma_run_end(g, st.pos, Run::Line);
    lemma_run_end(g, st.pos + 1, Run::Field);
    lemma_run_end(g, st.pos + 1, Run::Text);
    lemma_run_end(g, st.pos + 1, Run::Word);
    lemma_run_end(g, st.pos, Run::Digits);
    if st.pos + 1 < g.len() {
        lemma_run_end(g, st.pos + 1, Run::Digits);
    }
    lemma_date_end(g, st.pos);
}

/// No step yields the end-of-input token.
proof fn lemma_scan_no_end(g: Seq<Seq<char>>, st: ScanState)
    ensures
        forall|i: int| 0 <= i < scan_all(g, st).0.len() ==> scan_all(g, st).0[i].kind != TokenType::EOF,
    decreases g.len() - st.pos,
{
    if 0 <= st.pos < g.len() {
        let (next, ts, ds, _) = step(g, st);
        assert(forall|i: int| 0 <= i < ts.len() ==> ts[i].kind != TokenType::EOF);
        if next.pos > st.pos && next.pos <= g.len() {
            lemma_scan_no_end(g, next);
            let rest = scan_all(g, next).0;
            assert forall|i: int| 0 <= i < (ts + rest).len() implies (ts + rest)[i].kind != TokenType::EOF by {
                if i >= ts.len() {
                    assert((ts + rest)[i] == rest[i - ts.len()]);
                }
            }
        }
    }
}

/// The state at the start of a text whose first line is `line`.
pub open spec fn start(line: int) -> ScanState {
    ScanState { pos: 0, line, mode: Mode::LineStart }
}

/// The token stream of a whole text, as kinds, texts and lines.
pub open spec fn token_stream(text: Seq<char>) -> Seq<TokenSpec> {
    scan_all(graphemes_of(text), start(1)).0.push(end_token(scan_all(graphemes_of(text), start(1)).2))
}

/// Whether no token of a list is an end-of-input token.
pub open spec fn free_of_end(v: Seq<Token>) -> bool {
    forall|i: int| 0 <= i < v.len() ==> (#[trigger] v[i]).token_type != TokenType::EOF
}

/// Whether a token list ends in the one end-of-input token of the list.
pub open spec fn ends_once(v: Seq<Token>) -> bool {
    &&& v.len() >= 1
    &&& v.last().token_type == TokenType::EOF
    &&& forall|i: int| 0 <= i < v.len() - 1 ==> (#[trigger] v[i]).token_type != TokenType::EOF
}

/// Scans a whole text into tokens, closed by one end-of-input token, and
/// the diagnostics for what could not be placed. Every text is accepted.
pub fn tokenize_with_diagnostics(text: &str) -> (r: (Vec<Token>, Vec<Diagnostic>))
    ensures
        ({
            let (ts, ds, l) = scan_all(graphemes_of(text@), start(1));
            &&& specs_of(r.0@) == ts.push(end_token(l))
            &&& diag_lines(r.1@) == ds
        }),
        literal_free(r.0@),
        ends_once(r.0@),
        reports_unexpected(r.1@),
        covers_text(text@, specs_of(r.0@)),
{
    let g = graphemes(text);
    proof {
        lemma_covers_text(text@);
    }
    let mut scanner = Scanner::new(g);
    scanner.lex();
    let tokens = scanner.tokens;
    proof {
        let (ts, ds, l) = scan_all(graphemes_of(text@), start(1));
        assert(specs_of(Seq::<Token>::empty()) + ts.push(end_token(l)) =~= ts.push(end_token(l)));
        assert(diag_lines(Seq::<Diagnostic>::empty()) + ds =~= ds);
        lemma_scan_no_end(graphemes_of(text@), start(1));
        assert forall|i: int| 0 <= i < tokens@.len() - 1 implies (#[trigger] tokens@[i]).token_type != TokenType::EOF by {
            assert(specs_of(tokens@)[i] == tokens@[i].spec());
            assert(ts.push(end_token(l))[i] == ts[i]);
        }
        assert(specs_of(tokens@)[tokens@.len() - 1] == tokens@.last().spec());
    }
    (tokens, scanner.diagnostics)
}

/// Scans a whole text into tokens, closed by one end-of-input token.
pub fn tokenize(text: &str) -> (r: Vec<Token>)
    ensures
        specs_of(r@) == token_stream(text@),
        literal_free(r@),
        ends_once(r@),
        covers_text(text@, specs_of(r@)),
{
    let (tokens, _) = tokenize_with_diagnostics(text);
    tokens
}

/// The tokens of the first line of `s`, numbered `line`, without the line
/// break and without an end-of-input token.
pub fn lex(line: usize, s: &String) -> (r: Vec<Token>)
    ensures
        ({
            let g = graphemes_of(s@);
            specs_of(r@) == scan_all(g.subrange(0, run_end(g, 0, Run::Line)), start(line as int)).0
        }),
        literal_free(r@),
{
    let mut g = graphemes(s.as_str());
    let e = run_end_exec(&g, 0, Run::Line);
    let ghost full = g@;
    g.truncate(e);
    proof {
        assert(views_of(g@) =~= views_of(full).subrange(0, e as int));
    }
    let mut scanner = Scanner::new(g);
    scanner.line = line;
    scanner.scan_rest();
    proof {
        assert(specs_of(Seq::<Token>::empty()) + scan_all(scanner.units(), start(line as int)).0
            =~= scan_all(scanner.units(), start(line as int)).0);
    }
    scanner.tokens
}


proof fn lemma_step_spans(g: Seq<Seq<char>>, st: ScanState)
    requires
        0 <= st.pos < g.len(),
    ensures
        spans_cover(g, step(g, st).1, step(g, st).3, st.pos),
        forall|k: int| 0 <= k < step(g, st).3.len() ==> (#[trigger] step(g, st).3[k]).1 <= step(g, st).0.pos,
{
    lemma_step_progress(g, st);
    lemma_run_end(g, st.pos, Run::Blank);
    lemma_run_end(g, st.pos, Run::Line);
    lemma_run_end(g, st.pos, Run::Digits);
    lemma_run_end(g, st.pos + 1, Run::Field);
    lemma_run_end(g, st.pos + 1, Run::Text);
    lemma_run_end(g, st.pos + 1, Run::Word);
    if st.pos + 1 < g.len() {
        lemma_run_end(g, st.pos + 1, Run::Digits);
    }
    lemma_date_end(g, st.pos);
}

/// The tokens scanned from a state cover ranges of graphemes that follow one
/// another in order, without overlap, from the state's position on; each
/// token's text is its range's graphemes joined.
pub proof fn lemma_scan_spans(g: Seq<Seq<char>>, st: ScanState)
    requires
        0 <= st.pos <= g.len(),
    ensures
        spans_cover(g, scan_all(g, st).0, scan_spans(g, st), st.pos),
    decreases g.len() - st.pos,
{
    if st.pos < g.len() {
        let (next, ts, ds, sp) = step(g, st);
        lemma_step_spans(g, st);
        lemma_step_progress(g, st);
        lemma_scan_spans(g, next);
        let rt = scan_all(g, next).0;
        let rs = scan_spans(g, next);
        let all_t = ts + rt;
        let all_s = sp + rs;
        assert forall|i: int| 0 <= i < all_s.len() implies st.pos <= (#[trigger] all_s[i]).0 <= all_s[i].1 <= g.len()
            && all_t[i].text == concat(g.subrange(all_s[i].0, all_s[i].1)) by {
            if i < sp.len() {
                assert(all_s[i] == sp[i] && all_t[i] == ts[i]);
            } else {
                assert(all_s[i] == rs[i - sp.len()] && all_t[i] == rt[i - sp.len()]);
            }
        }
        assert forall|i: int| 0 <= i < all_s.len() - 1 implies (#[trigger] all_s[i]).1 <= all_s[i + 1].0 by {
            if i + 1 < sp.len() {
                assert(all_s[i] == sp[i] && all_s[i + 1] == sp[i + 1]);
            } else if i + 1 == sp.len() {
                assert(all_s[i] == sp[i] && all_s[i + 1] == rs[0]);
            } else {
                assert(all_s[i] == rs[i - sp.len()] && all_s[i + 1] == rs[i + 1 - sp.len()]);
            }
        }
    }
}

/// Whether the tokens but the last stand in `text` in order: token `i`
/// covers graphemes `sp[i]`, whose joined text is found in `text` between
/// their character offsets, and the ranges follow one another without
/// overlap.
pub open spec fn covers_text(text: Seq<char>, ts: Seq<TokenSpec>) -> bool {
    let g = graphemes_of(text);
    let sp = scan_spans(g, start(1));
    &&& sp.len() + 1 == ts.len()
    &&& forall|i: int|
        0 <= i < sp.len() ==> 0 <= (#[trigger] sp[i]).0 <= sp[i].1 <= g.len() && text.subrange(
            char_offset(g, sp[i].0),
            char_offset(g, sp[i].1),
        ) == ts[i].text
    &&& forall|i: int| 0 <= i < sp.len() - 1 ==> (#[trigger] sp[i]).1 <= sp[i + 1].0
}

/// Where the graphemes join back to the text, the token stream stands in the
/// text in order.
proof fn lemma_covers_text(text: Seq<char>)
    requires
        concat(graphemes_of(text)) == text,
    ensures
        covers_text(text, token_stream(text)),
{
    let g = graphemes_of(text);
    let sp = scan_spans(g, start(1));
    let ts = token_stream(text);
    lemma_scan_spans(g, start(1));
    let inner = scan_all(g, start(1)).0;
    assert forall|i: int| 0 <= i < sp.len() implies 0 <= (#[trigger] sp[i]).0 <= sp[i].1 <= g.len() && text.subrange(
        char_offset(g, sp[i].0),
        char_offset(g, sp[i].1),
    ) == ts[i].text by {
        lemma_concat_range(g, sp[i].0, sp[i].1);
        assert(ts[i] == inner[i]);
    }
}

} // verus!
