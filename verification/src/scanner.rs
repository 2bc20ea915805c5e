//! The scanner: from source text to a sequence of tokens, or to the first
//! lexical error.
//!
//! The meaning of scanning is given by [`scan_one`], which says what the
//! lexeme that starts at a position is, and [`scan_rest`], which repeats it
//! to the end of the source. [`Scanner`] computes exactly that.

use vstd::prelude::*;
use crate::error::{is_parse_error, LoxError};
use crate::text::{chars_of, text_of};
use crate::token::{
    is_digit, is_numeral, is_numeral_split, token_views, Literal, LiteralView, Token, TokenType,
    TokenView,
};

verus! {

/// Whether `c` can start an identifier: an ASCII letter or the underscore.
pub open spec fn is_alpha(c: char) -> bool {
    ('a' <= c <= 'z') || ('A' <= c <= 'Z') || c == '_'
}

/// Whether `c` can continue an identifier.
pub open spec fn is_alpha_numeric(c: char) -> bool {
    is_alpha(c) || is_digit(c)
}

/// The reserved word that `text` spells, if it spells one.
pub open spec fn keyword(text: Seq<char>) -> Option<TokenType> {
    if text == "and"@ {
        Some(TokenType::And)
    } else if text == "class"@ {
        Some(TokenType::Class)
    } else if text == "else"@ {
        Some(TokenType::Else)
    } else if text == "false"@ {
        Some(TokenType::False)
    } else if text == "fun"@ {
        Some(TokenType::Fun)
    } else if text == "for"@ {
        Some(TokenType::For)
    } else if text == "if"@ {
        Some(TokenType::If)
    } else if text == "nil"@ {
        Some(TokenType::Nil)
    } else if text == "or"@ {
        Some(TokenType::Or)
    } else if text == "print"@ {
        Some(TokenType::Print)
    } else if text == "return"@ {
        Some(TokenType::Return)
    } else if text == "super"@ {
        Some(TokenType::Super)
    } else if text == "this"@ {
        Some(TokenType::This)
    } else if text == "true"@ {
        Some(TokenType::True)
    } else if text == "var"@ {
        Some(TokenType::Var)
    } else if text == "while"@ {
        Some(TokenType::While)
    } else {
        None
    }
}

/// The number of line breaks in `s[from..to]`.
pub open spec fn line_breaks(s: Seq<char>, from: int, to: int) -> nat
    decreases to - from,
{
    if 0 <= from < to <= s.len() {
        line_breaks(s, from, to - 1) + if s[to - 1] == '\n' {
            1nat
        } else {
            0nat
        }
    } else {
        0
    }
}

/// Where the longest run of characters of `class` that starts at `from`
/// ends: the first position at or after `from` that holds no such character.
pub open spec fn run_end(s: Seq<char>, from: int, class: spec_fn(char) -> bool) -> int
    decreases s.len() - from,
{
    if 0 <= from < s.len() && class(s[from]) {
        run_end(s, from + 1, class)
    } else {
        from
    }
}

/// The end of the run of digits that starts at `from`.
pub open spec fn digits_end(s: Seq<char>, from: int) -> int {
    run_end(s, from, |c: char| is_digit(c))
}

/// The end of the run of identifier characters that starts at `from`.
pub open spec fn word_end(s: Seq<char>, from: int) -> int {
    run_end(s, from, |c: char| is_alpha_numeric(c))
}

/// The end of the line that `from` is on: the next line break, or the end
/// of the source.
pub open spec fn line_end(s: Seq<char>, from: int) -> int {
    run_end(s, from, |c: char| c != '\n')
}

/// The position of the next double quote at or after `from`, or the end of
/// the source if there is none.
pub open spec fn quote_pos(s: Seq<char>, from: int) -> int {
    run_end(s, from, |c: char| c != '"')
}

/// What the scanner finds at one position of the source.
pub enum Step {
    /// A lexeme that becomes a token.
    Emit { token: TokenView, next: int, line: nat },
    /// White space or a comment.
    Skip { next: int, line: nat },
    /// A lexical error.
    Fail { next: int, line: nat, message: Seq<char> },
}

impl Step {
    /// The position at which scanning goes on after the step.
    pub open spec fn next(self) -> int {
        match self {
            Step::Emit { next, .. } => next,
            Step::Skip { next, .. } => next,
            Step::Fail { next, .. } => next,
        }
    }

    /// The line count after the step.
    pub open spec fn line(self) -> nat {
        match self {
            Step::Emit { line, .. } => line,
            Step::Skip { line, .. } => line,
            Step::Fail { line, .. } => line,
        }
    }
}

/// The token of kind `token_type` whose lexeme is `s[start..end]` and which
/// carries no value.
pub open spec fn plain(
    s: Seq<char>,
    start: int,
    end: int,
    line: nat,
    token_type: TokenType,
) -> Step {
    Step::Emit {
        token: TokenView {
            token_type,
            lexeme: s.subrange(start, end),
            literal: LiteralView::Nil,
            line,
        },
        next: end,
        line,
    }
}

/// The token at `start` when the character there can be followed by `=`:
/// `double` if it is, `single` if it is not.
pub open spec fn with_equal(
    s: Seq<char>,
    start: int,
    line: nat,
    double: TokenType,
    single: TokenType,
) -> Step {
    if start + 1 < s.len() && s[start + 1] == '=' {
        plain(s, start, start + 2, line, double)
    } else {
        plain(s, start, start + 1, line, single)
    }
}

/// A string literal whose opening quote is at `start`. It ends at the next
/// double quote; the value is the text between the quotes, taken as it
/// stands. Each line break inside it advances the line count, and the token
/// carries the line on which the literal ends.
pub open spec fn string_step(s: Seq<char>, start: int, line: nat) -> Step {
    let close = quote_pos(s, start + 1);
    if close >= s.len() {
        Step::Fail {
            next: s.len() as int,
            line: line + line_breaks(s, start + 1, s.len() as int),
            message: "Unterminated string."@,
        }
    } else {
        let last = line + line_breaks(s, start + 1, close);
        Step::Emit {
            token: TokenView {
                token_type: TokenType::String,
                lexeme: s.subrange(start, close + 1),
                literal: LiteralView::String(s.subrange(start + 1, close)),
                line: last,
            },
            next: close + 1,
            line: last,
        }
    }
}

/// Where the numeral that starts at `start` ends: after its digits, and
/// after a fraction if a point and a further digit follow them.
pub open spec fn number_end(s: Seq<char>, start: int) -> int {
    let whole = digits_end(s, start + 1);
    if whole + 1 < s.len() && s[whole] == '.' && is_digit(s[whole + 1]) {
        digits_end(s, whole + 1)
    } else {
        whole
    }
}

/// A number whose first digit is at `start`.
pub open spec fn number_step(s: Seq<char>, start: int, line: nat) -> Step {
    let end = number_end(s, start);
    Step::Emit {
        token: TokenView {
            token_type: TokenType::Number,
            lexeme: s.subrange(start, end),
            literal: LiteralView::Number(s.subrange(start, end)),
            line,
        },
        next: end,
        line,
    }
}

/// An identifier or a reserved word whose first character is at `start`.
pub open spec fn word_step(s: Seq<char>, start: int, line: nat) -> Step {
    let end = word_end(s, start + 1);
    let token_type = match keyword(s.subrange(start, end)) {
        Some(reserved) => reserved,
        None => TokenType::Identifier,
    };
    plain(s, start, end, line, token_type)
}

/// What the scanner finds at `start`, a position inside `s`, when the line
/// count there is `line`.
pub open spec fn scan_one(s: Seq<char>, start: int, line: nat) -> Step
    recommends
        0 <= start < s.len(),
{
    let c = s[start];
    let end = start + 1;
    if c == '(' {
        plain(s, start, end, line, TokenType::LeftParen)
    } else if c == ')' {
        plain(s, start, end, line, TokenType::RightParen)
    } else if c == '{' {
        plain(s, start, end, line, TokenType::LeftBrace)
    } else if c == '}' {
        plain(s, start, end, line, TokenType::RightBrace)
    } else if c == ',' {
        plain(s, start, end, line, TokenType::Comma)
    } else if c == '.' {
        plain(s, start, end, line, TokenType::Dot)
    } else if c == '-' {
        plain(s, start, end, line, TokenType::Minus)
    } else if c == '+' {
        plain(s, start, end, line, TokenType::Plus)
    } else if c == ';' {
        plain(s, start, end, line, TokenType::Semicolon)
    } else if c == '*' {
        plain(s, start, end, line, TokenType::Star)
    } else if c == '!' {
        with_equal(s, start, line, TokenType::BangEqual, TokenType::Bang)
    } else if c == '=' {
        with_equal(s, start, line, TokenType::EqualEqual, TokenType::Equal)
    } else if c == '<' {
        with_equal(s, start, line, TokenType::LessEqual, TokenType::Less)
    } else if c == '>' {
        with_equal(s, start, line, TokenType::GreaterEqual, TokenType::Greater)
    } else if c == '/' {
        if end < s.len() && s[end] == '/' {
            Step::Skip { next: line_end(s, start + 2), line }
        } else {
            plain(s, start, end, line, TokenType::Slash)
        }
    } else if c == ' ' || c == '\r' || c == '\t' {
        Step::Skip { next: end, line }
    } else if c == '\n' {
        Step::Skip { next: end, line: line + 1 }
    } else if c == '"' {
        string_step(s, start, line)
    } else if is_digit(c) {
        number_step(s, start, line)
    } else if is_alpha(c) {
        word_step(s, start, line)
    } else {
        Step::Fail { next: end, line, message: "Unexpected character."@ }
    }
}

/// The state of a scanner: the source, the tokens found so far, where the
/// lexeme at hand starts, the position of the next unread character, and
/// the line count there.
pub struct ScannerView {
    pub source: Seq<char>,
    pub tokens: Seq<TokenView>,
    pub start: int,
    pub current: int,
    pub line: nat,
}

impl ScannerView {
    /// The state after `step` was taken on the lexeme that starts at
    /// `self.start`.
    pub open spec fn after(self, step: Step) -> ScannerView {
        ScannerView {
            source: self.source,
            tokens: match step {
                Step::Emit { token, .. } => self.tokens.push(token),
                _ => self.tokens,
            },
            start: self.start,
            current: step.next(),
            line: step.line(),
        }
    }

    /// The state in which the next lexeme starts at the unread position.
    pub open spec fn marked(self) -> ScannerView {
        ScannerView { start: self.current, ..self }
    }

    /// The state after the end-of-input sentinel was appended.
    pub open spec fn closed(self) -> ScannerView {
        ScannerView {
            tokens: self.tokens.push(
                TokenView {
                    token_type: TokenType::EOF,
                    lexeme: Seq::empty(),
                    literal: LiteralView::Nil,
                    line: self.line,
                },
            ),
            ..self
        }
    }
}

/// How a scan ends: the state it stops in, and the message of the lexical
/// error that stopped it, if one did.
pub struct Scanned {
    pub state: ScannerView,
    pub failure: Option<Seq<char>>,
}

/// Scanning from the state `v` on: steps are taken until the source is
/// used up or a step fails.
pub open spec fn scan_rest(v: ScannerView) -> Scanned
    decreases v.source.len() - v.current,
    via scan_rest_decreases
{
    if 0 <= v.current < v.source.len() {
        let step = scan_one(v.source, v.current, v.line);
        if step is Fail {
            Scanned { state: v.marked().after(step), failure: Some(step->message) }
        } else {
            scan_rest(v.marked().after(step))
        }
    } else {
        Scanned { state: v, failure: None }
    }
}

#[via_fn]
proof fn scan_rest_decreases(v: ScannerView) {
    if 0 <= v.current < v.source.len() {
        lemma_scan_one_advances(v.source, v.current, v.line);
    }
}

/// The state in which a scan of `source` starts: at its first character,
/// on line one, with no tokens.
pub open spec fn fresh(source: Seq<char>) -> ScannerView {
    ScannerView { source, tokens: Seq::empty(), start: 0, current: 0, line: 1 }
}

/// A lexical error: the line it is on, and what is wrong.
pub struct LexFault {
    pub line: nat,
    pub message: Seq<char>,
}

/// The tokens of `source`, with the end-of-input sentinel after them; or
/// the first lexical error, and nothing else.
pub open spec fn lexed(source: Seq<char>) -> Result<Seq<TokenView>, LexFault> {
    let run = scan_rest(fresh(source));
    match run.failure {
        None => Ok(run.state.closed().tokens),
        Some(message) => Err(LexFault { line: run.state.line, message }),
    }
}

/// The run that starts at `from` ends inside the source, holds only
/// characters of the class, and cannot be extended.
pub proof fn lemma_run_end(s: Seq<char>, from: int, class: spec_fn(char) -> bool)
    requires
        0 <= from <= s.len(),
    ensures
        from <= run_end(s, from, class) <= s.len(),
        forall|i: int| from <= i < run_end(s, from, class) ==> class(#[trigger] s[i]),
        run_end(s, from, class) < s.len() ==> !class(s[run_end(s, from, class)]),
    decreases s.len() - from,
{
    if from < s.len() && class(s[from]) {
        lemma_run_end(s, from + 1, class);
    }
}

/// Every step moves forward and stays inside the source.
pub proof fn lemma_scan_one_advances(s: Seq<char>, start: int, line: nat)
    requires
        0 <= start < s.len(),
    ensures
        start < scan_one(s, start, line).next() <= s.len(),
{
    lemma_run_end(s, start + 1, |c: char| is_digit(c));
    lemma_run_end(s, start + 1, |c: char| is_alpha_numeric(c));
    lemma_run_end(s, start + 1, |c: char| c != '"');
    let whole = digits_end(s, start + 1);
    if whole + 1 < s.len() {
        lemma_run_end(s, whole + 1, |c: char| is_digit(c));
    }
    if start + 1 < s.len() {
        lemma_run_end(s, start + 2, |c: char| c != '\n');
    }
}

/// A run is determined by where it stops: if every character from `from`
/// up to `end` is of the class and the one at `end` is not, the run that
/// starts at `from` ends at `end`.
pub proof fn lemma_run_end_unique(s: Seq<char>, from: int, end: int, class: spec_fn(char) -> bool)
    requires
        0 <= from <= end <= s.len(),
        forall|i: int| from <= i < end ==> class(#[trigger] s[i]),
        end < s.len() ==> !class(s[end]),
    ensures
        run_end(s, from, class) == end,
    decreases end - from,
{
    if from < end {
        lemma_run_end_unique(s, from + 1, end, class);
    }
}

/// The line breaks of a range are those of its first character and those
/// of the rest.
pub proof fn lemma_line_breaks_first(s: Seq<char>, from: int, to: int)
    requires
        0 <= from < to <= s.len(),
    ensures
        line_breaks(s, from, to) == line_breaks(s, from + 1, to) + if s[from] == '\n' {
            1nat
        } else {
            0nat
        },
    decreases to - from,
{
    if from + 1 < to {
        lemma_line_breaks_first(s, from, to - 1);
    } else {
        assert(line_breaks(s, from, to - 1) == 0);
        assert(line_breaks(s, from + 1, to) == 0);
    }
}

/// A range holds at most as many line breaks as characters.
pub proof fn lemma_line_breaks_bound(s: Seq<char>, from: int, to: int)
    ensures
        0 <= from <= to <= s.len() ==> line_breaks(s, from, to) <= to - from,
        line_breaks(s, from, to) <= s.len(),
    decreases to - from,
{
    if 0 <= from < to <= s.len() {
        lemma_line_breaks_bound(s, from, to - 1);
    }
}

/// A copy of `tokens`.
fn copy_of(tokens: &Vec<Token>) -> (copy: Vec<Token>)
    ensures
        copy@ == tokens@,
{
    let mut copy: Vec<Token> = Vec::new();
    let mut i: usize = 0;
    while i < tokens.len()
        invariant
            i <= tokens.len(),
            copy@ == tokens@.take(i as int),
        decreases tokens.len() - i,
    {
        copy.push(tokens[i].clone());
        i += 1;
    }
    copy
}

/// The scanner: a cursor over the source and the tokens found so far.
pub struct Scanner {
    source: Vec<char>,
    tokens: Vec<Token>,
    start: usize,
    current: usize,
    line: u32,
}

impl View for Scanner {
    type V = ScannerView;

    closed spec fn view(&self) -> ScannerView {
        ScannerView {
            source: self.source@,
            tokens: token_views(self.tokens@),
            start: self.start as int,
            current: self.current as int,
            line: self.line as nat,
        }
    }
}

/// Whether a scanner state is in order: the cursor is inside the source,
/// the lexeme at hand starts before it, lines are counted from one, and
/// the line breaks still ahead fit into the line count.
pub open spec fn in_order(v: ScannerView) -> bool {
    &&& 0 <= v.start <= v.current <= v.source.len()
    &&& 1 <= v.line
    &&& v.line + line_breaks(v.source, v.current, v.source.len() as int) <= u32::MAX
}

/// Whether `post` is the state that `step`, taken on the lexeme at hand in
/// `pre`, leads to, and `result` reports the step: an error if and only if
/// the step fails, with the line and the message of the failure.
pub open spec fn took(
    pre: ScannerView,
    step: Step,
    post: ScannerView,
    result: Result<(), LoxError>,
) -> bool {
    &&& post == pre.after(step)
    &&& match result {
        Ok(_) => !(step is Fail),
        Err(err) => step matches Step::Fail { line, message, .. } && is_parse_error(
            err,
            line,
            Seq::empty(),
            message,
        ),
    }
}

impl Scanner {
    /// Whether the scanner is in order; every scanner made by [`Scanner::new`]
    /// is, and every method keeps it so.
    pub open spec fn wf(&self) -> bool {
        in_order(self@)
    }

    /// A scanner at the start of `source`, on line one, with no tokens.
    /// The lines of the source must be countable, which [`lines_fit`] tests.
    pub fn new(source: &str) -> (scanner: Self)
        requires
            line_breaks(source@, 0, source@.len() as int) < u32::MAX,
        ensures
            scanner.wf(),
            scanner@ == fresh(source@),
    {
        let scanner = Self {
            source: chars_of(source),
            tokens: Vec::new(),
            start: 0,
            current: 0,
            line: 1,
        };
        assert(token_views(scanner.tokens@) =~= Seq::empty());
        scanner
    }

    /// Scans the rest of the source. On success the tokens found, old and
    /// new, are returned with the end-of-input sentinel after them; the
    /// first lexical error ends the scan and is returned alone.
    pub fn scan_tokens(&mut self) -> (result: Result<Vec<Token>, LoxError>)
        requires
            old(self).wf(),
        ensures
            final(self).wf(),
            match result {
                Ok(tokens) => {
                    &&& scan_rest(old(self)@).failure is None
                    &&& final(self)@ == scan_rest(old(self)@).state.closed()
                    &&& token_views(tokens@) == final(self)@.tokens
                    &&& tokens@.len() > 0
                    &&& tokens@.last()@.token_type == TokenType::EOF
                },
                Err(err) => {
                    &&& scan_rest(old(self)@).failure matches Some(message)
                    &&& final(self)@ == scan_rest(old(self)@).state
                    &&& is_parse_error(err, final(self)@.line, Seq::empty(), message)
                },
            },
    {
        while !self.is_at_end()
            invariant
                self.wf(),
                scan_rest(self@) == scan_rest(old(self)@),
            decreases self.source.len() - self.current,
        {
            self.start = self.current;
            proof {
                lemma_scan_one_advances(self@.source, self@.current, self@.line);
            }
            match self.scan_token() {
                Ok(_) => {},
                Err(err) => {
                    return Err(err);
                },
            }
        }
        proof {
            reveal_strlit("");
            assert(""@ =~= Seq::<char>::empty());
        }
        self.tokens.push(Token::new(TokenType::EOF, "", Literal::Nil, self.line));
        let tokens = copy_of(&self.tokens);
        assert(token_views(self.tokens@) =~= scan_rest(old(self)@).state.closed().tokens);
        Ok(tokens)
    }

    /// Scans the lexeme that starts at the cursor.
    fn scan_token(&mut self) -> (result: Result<(), LoxError>)
        requires
            old(self).wf(),
            old(self).start == old(self).current,
            old(self).current < old(self).source.len(),
        ensures
            final(self).wf(),
            took(
                old(self)@,
                scan_one(old(self)@.source, old(self)@.start, old(self)@.line),
                final(self)@,
                result,
            ),
    {
        let c = self.advance();
        if c == '(' {
            self.add_token(TokenType::LeftParen, None)
        } else if c == ')' {
            self.add_token(TokenType::RightParen, None)
        } else if c == '{' {
            self.add_token(TokenType::LeftBrace, None)
        } else if c == '}' {
            self.add_token(TokenType::RightBrace, None)
        } else if c == ',' {
            self.add_token(TokenType::Comma, None)
        } else if c == '.' {
            self.add_token(TokenType::Dot, None)
        } else if c == '-' {
            self.add_token(TokenType::Minus, None)
        } else if c == '+' {
            self.add_token(TokenType::Plus, None)
        } else if c == ';' {
            self.add_token(TokenType::Semicolon, None)
        } else if c == '*' {
            self.add_token(TokenType::Star, None)
        } else if c == '!' {
            if self.match_('=') {
                self.add_token(TokenType::BangEqual, None)
            } else {
                self.add_token(TokenType::Bang, None)
            }
        } else if c == '=' {
            if self.match_('=') {
                self.add_token(TokenType::EqualEqual, None)
            } else {
                self.add_token(TokenType::Equal, None)
            }
        } else if c == '<' {
            if self.match_('=') {
                self.add_token(TokenType::LessEqual, None)
            } else {
                self.add_token(TokenType::Less, None)
            }
        } else if c == '>' {
            if self.match_('=') {
                self.add_token(TokenType::GreaterEqual, None)
            } else {
                self.add_token(TokenType::Greater, None)
            }
        } else if c == '/' {
            if self.match_('/') {
                self.comment()
            } else {
                self.add_token(TokenType::Slash, None)
            }
        } else if c == ' ' || c == '\r' || c == '\t' {
            Ok(())
        } else if c == '\n' {
            proof {
                lemma_line_breaks_first(
                    self@.source,
                    old(self)@.current,
                    self@.source.len() as int,
                );
            }
            self.line += 1;
            Ok(())
        } else if c == '"' {
            self.string()
        } else if self.is_digit(c) {
            self.number()
        } else if self.is_alpha(c) {
            self.identifier()
        } else {
            Err(
                LoxError::ParseError {
                    line: self.line as usize,
                    where_: String::new(),
                    message: "Unexpected character.".to_owned(),
                },
            )
        }
    }

    /// Appends the token whose lexeme runs from the start mark to the
    /// cursor; it carries `literal`, or no value if there is none.
    fn add_token(&mut self, token_type: TokenType, literal: Option<Literal>) -> (result: Result<
        (),
        LoxError,
    >)
        requires
            old(self).wf(),
        ensures
            final(self).wf(),
            result is Ok,
            final(self)@ == (ScannerView {
                tokens: old(self)@.tokens.push(
                    TokenView {
                        token_type,
                        lexeme: old(self)@.source.subrange(old(self)@.start, old(self)@.current),
                        literal: match literal {
                            Some(value) => value@,
                            None => LiteralView::Nil,
                        },
                        line: old(self)@.line,
                    },
                ),
                ..old(self)@
            }),
    {
        let text = text_of(&self.source, self.start, self.current);
        let token = if let Some(literal) = literal {
            Token { token_type, lexeme: text, literal, line: self.line }
        } else {
            Token { token_type, lexeme: text, literal: Literal::Nil, line: self.line }
        };
        self.tokens.push(token);
        assert(token_views(self.tokens@) =~= token_views(old(self).tokens@).push(token@));
        Ok(())
    }

    /// Consumes the next character and returns it; at the end of the source
    /// nothing is consumed and the null character is returned.
    pub fn advance(&mut self) -> (c: char)
        requires
            old(self).wf(),
        ensures
            final(self).wf(),
            old(self)@.current < old(self)@.source.len() ==> {
                &&& c == old(self)@.source[old(self)@.current]
                &&& final(self)@ == (ScannerView { current: old(self)@.current + 1, ..old(self)@ })
            },
            old(self)@.current >= old(self)@.source.len() ==> {
                &&& c == '\0'
                &&& final(self)@ == old(self)@
            },
    {
        if self.current < self.source.len() {
            proof {
                lemma_line_breaks_first(
                    self@.source,
                    self@.current,
                    self@.source.len() as int,
                );
            }
            self.current += 1;
            self.source[self.current - 1]
        } else {
            '\0'
        }
    }

    /// Whether the source is used up.
    fn is_at_end(&self) -> (at_end: bool)
        ensures
            at_end == (self@.current >= self@.source.len()),
            self@.source.len() <= usize::MAX,
    {
        self.current >= self.source.len()
    }

    /// Consumes the next character if it is `expected`.
    fn match_(&mut self, expected: char) -> (matched: bool)
        requires
            old(self).wf(),
        ensures
            final(self).wf(),
            matched == (old(self)@.current < old(self)@.source.len() && old(self)@.source[old(
                self,
            )@.current] == expected),
            final(self)@ == (ScannerView {
                current: if matched {
                    old(self)@.current + 1
                } else {
                    old(self)@.current
                },
                ..old(self)@
            }),
    {
        if self.is_at_end() {
            return false;
        }
        if self.source[self.current] != expected {
            return false;
        }
        proof {
            lemma_line_breaks_first(self@.source, self@.current, self@.source.len() as int);
        }
        self.current += 1;
        true
    }

    /// The next character, or the null character at the end of the source.
    fn peek(&self) -> (c: char)
        requires
            self.wf(),
        ensures
            c == if self@.current < self@.source.len() {
                self@.source[self@.current]
            } else {
                '\0'
            },
    {
        if self.is_at_end() {
            return '\0';
        }
        self.source[self.current]
    }

    /// The character after the next, or the null character if there is none.
    fn peek_next(&self) -> (c: char)
        requires
            self.wf(),
        ensures
            c == if self@.current + 1 < self@.source.len() {
                self@.source[self@.current + 1]
            } else {
                '\0'
            },
    {
        if self.source.len() - self.current <= 1 {
            return '\0';
        }
        self.source[self.current + 1]
    }

    /// Skips a comment, whose two slashes are consumed, up to the end of
    /// its line.
    fn comment(&mut self) -> (result: Result<(), LoxError>)
        requires
            old(self).wf(),
            old(self).current == old(self).start + 2,
        ensures
            final(self).wf(),
            took(
                old(self)@,
                Step::Skip {
                    next: line_end(old(self)@.source, old(self)@.start + 2),
                    line: old(self)@.line,
                },
                final(self)@,
                result,
            ),
    {
        while self.peek() != '\n' && !self.is_at_end()
            invariant
                self.wf(),
                self@ == (ScannerView { current: self@.current, ..old(self)@ }),
                old(self)@.current <= self@.current,
                forall|i: int|
                    old(self)@.current <= i < self@.current ==> #[trigger] self@.source[i]
                        != '\n',
            decreases self.source.len() - self.current,
        {
            self.advance();
        }
        proof {
            lemma_run_end_unique(
                self@.source,
                old(self)@.current,
                self@.current,
                |c: char| c != '\n',
            );
        }
        Ok(())
    }

    /// Scans a string literal whose opening quote is consumed.
    fn string(&mut self) -> (result: Result<(), LoxError>)
        requires
            old(self).wf(),
            old(self).current == old(self).start + 1,
        ensures
            final(self).wf(),
            took(
                old(self)@,
                string_step(old(self)@.source, old(self)@.start, old(self)@.line),
                final(self)@,
                result,
            ),
    {
        while self.peek() != '"' && !self.is_at_end()
            invariant
                self.wf(),
                self@ == (ScannerView { current: self@.current, line: self@.line, ..old(self)@ }),
                old(self)@.current <= self@.current,
                forall|i: int|
                    old(self)@.current <= i < self@.current ==> #[trigger] self@.source[i]
                        != '"',
                self@.line == old(self)@.line + line_breaks(
                    self@.source,
                    old(self)@.current,
                    self@.current,
                ),
            decreases self.source.len() - self.current,
        {
            let line_break = self.peek() == '\n';
            proof {
                lemma_line_breaks_first(self@.source, self@.current, self@.source.len() as int);
            }
            self.advance();
            if line_break {
                self.line += 1;
            }
        }
        proof {
            lemma_run_end_unique(
                self@.source,
                old(self)@.current,
                self@.current,
                |c: char| c != '"',
            );
        }
        if self.is_at_end() {
            return Err(
                LoxError::ParseError {
                    line: self.line as usize,
                    where_: String::new(),
                    message: "Unterminated string.".to_owned(),
                },
            );
        }
        // The closing quote.
        self.advance();
        let value = text_of(&self.source, self.start + 1, self.current - 1);
        self.add_token(TokenType::String, Some(Literal::String(value)))
    }

    /// Scans a number whose first digit is consumed.
    fn number(&mut self) -> (result: Result<(), LoxError>)
        requires
            old(self).wf(),
            old(self).current == old(self).start + 1,
        ensures
            final(self).wf(),
            took(
                old(self)@,
                number_step(old(self)@.source, old(self)@.start, old(self)@.line),
                final(self)@,
                result,
            ),
    {
        while self.is_digit(self.peek())
            invariant
                self.wf(),
                self@ == (ScannerView { current: self@.current, ..old(self)@ }),
                old(self)@.current <= self@.current,
                forall|i: int|
                    old(self)@.current <= i < self@.current ==> is_digit(
                        #[trigger] self@.source[i],
                    ),
            decreases self.source.len() - self.current,
        {
            self.advance();
        }
        proof {
            lemma_run_end_unique(
                self@.source,
                old(self)@.current,
                self@.current,
                |c: char| is_digit(c),
            );
        }
        if self.peek() == '.' && self.is_digit(self.peek_next()) {
            let ghost whole = self@.current;
            // The point.
            self.advance();
            while self.is_digit(self.peek())
                invariant
                    self.wf(),
                    self@ == (ScannerView { current: self@.current, ..old(self)@ }),
                    whole + 1 <= self@.current,
                    forall|i: int|
                        whole + 1 <= i < self@.current ==> is_digit(#[trigger] self@.source[i]),
                decreases self.source.len() - self.current,
            {
                self.advance();
            }
            proof {
                lemma_run_end_unique(
                    self@.source,
                    whole + 1,
                    self@.current,
                    |c: char| is_digit(c),
                );
            }
        }
        let value = text_of(&self.source, self.start, self.current);
        self.add_token(TokenType::Number, Some(Literal::Number(value)))
    }

    /// Scans an identifier or a reserved word whose first character is
    /// consumed.
    fn identifier(&mut self) -> (result: Result<(), LoxError>)
        requires
            old(self).wf(),
            old(self).current == old(self).start + 1,
        ensures
            final(self).wf(),
            took(
                old(self)@,
                word_step(old(self)@.source, old(self)@.start, old(self)@.line),
                final(self)@,
                result,
            ),
    {
        while self.is_alpha_numeric(self.peek())
            invariant
                self.wf(),
                self@ == (ScannerView { current: self@.current, ..old(self)@ }),
                old(self)@.current <= self@.current,
                forall|i: int|
                    old(self)@.current <= i < self@.current ==> is_alpha_numeric(
                        #[trigger] self@.source[i],
                    ),
            decreases self.source.len() - self.current,
        {
            self.advance();
        }
        proof {
            lemma_run_end_unique(
                self@.source,
                old(self)@.current,
                self@.current,
                |c: char| is_alpha_numeric(c),
            );
        }
        if let Some(reserved) = self.reserved() {
            return self.add_token(reserved, None);
        }
        self.add_token(TokenType::Identifier, None)
    }

    /// Whether the lexeme at hand is `word`.
    fn spells(&self, word: &str) -> (same: bool)
        requires
            self.wf(),
        ensures
            same == (self@.source.subrange(self@.start, self@.current) == word@),
    {
        let n = word.unicode_len();
        if n != self.current - self.start {
            return false;
        }
        let ghost lexeme = self@.source.subrange(self@.start, self@.current);
        let mut i: usize = 0;
        while i < n
            invariant
                self.wf(),
                i <= n,
                n == word@.len(),
                n == self.current - self.start,
                lexeme == self@.source.subrange(self@.start, self@.current),
                forall|j: int| 0 <= j < i ==> lexeme[j] == word@[j],
            decreases n - i,
        {
            if self.source[self.start + i] != word.get_char(i) {
                assert(lexeme[i as int] != word@[i as int]);
                return false;
            }
            i += 1;
        }
        assert(lexeme =~= word@);
        true
    }

    /// The reserved word that the lexeme at hand spells, if it spells one.
    fn reserved(&self) -> (found: Option<TokenType>)
        requires
            self.wf(),
        ensures
            found == keyword(self@.source.subrange(self@.start, self@.current)),
    {
        if self.spells("and") {
            Some(TokenType::And)
        } else if self.spells("class") {
            Some(TokenType::Class)
        } else if self.spells("else") {
            Some(TokenType::Else)
        } else if self.spells("false") {
            Some(TokenType::False)
        } else if self.spells("fun") {
            Some(TokenType::Fun)
        } else if self.spells("for") {
            Some(TokenType::For)
        } else if self.spells("if") {
            Some(TokenType::If)
        } else if self.spells("nil") {
            Some(TokenType::Nil)
        } else if self.spells("or") {
            Some(TokenType::Or)
        } else if self.spells("print") {
            Some(TokenType::Print)
        } else if self.spells("return") {
            Some(TokenType::Return)
        } else if self.spells("super") {
            Some(TokenType::Super)
        } else if self.spells("this") {
            Some(TokenType::This)
        } else if self.spells("true") {
            Some(TokenType::True)
        } else if self.spells("var") {
            Some(TokenType::Var)
        } else if self.spells("while") {
            Some(TokenType::While)
        } else {
            None
        }
    }

    /// Whether `c` is a decimal digit.
    fn is_digit(&self, c: char) -> (digit: bool)
        ensures
            digit == is_digit(c),
    {
        c >= '0' && c <= '9'
    }

    /// Whether `c` is an ASCII letter or the underscore.
    fn is_alpha(&self, c: char) -> (alpha: bool)
        ensures
            alpha == is_alpha(c),
    {
        (c >= 'a' && c <= 'z') || (c >= 'A' && c <= 'Z') || c == '_'
    }

    /// Whether `c` is an ASCII letter, the underscore or a decimal digit.
    fn is_alpha_numeric(&self, c: char) -> (either: bool)
        ensures
            either == is_alpha_numeric(c),
    {
        self.is_alpha(c) || self.is_digit(c)
    }
}

/// Whether the lines of `source` can be counted, so that it can be
/// scanned: whether it holds fewer line breaks than the line count of a
/// token can hold.
pub fn lines_fit(source: &str) -> (fit: bool)
    ensures
        fit == (line_breaks(source@, 0, source@.len() as int) < u32::MAX),
{
    let chars = chars_of(source);
    let mut breaks: usize = 0;
    let mut i: usize = 0;
    while i < chars.len()
        invariant
            i <= chars.len(),
            breaks <= i,
            breaks == line_breaks(chars@, 0, i as int),
        decreases chars.len() - i,
    {
        if chars[i] == '\n' {
            breaks += 1;
        }
        i += 1;
    }
    breaks < u32::MAX as usize
}

/// Scans `source` from start to end: its tokens with the end-of-input
/// sentinel after them, or the first lexical error.
pub fn scan(source: &str) -> (result: Result<Vec<Token>, LoxError>)
    requires
        line_breaks(source@, 0, source@.len() as int) < u32::MAX,
    ensures
        match result {
            Ok(tokens) => lexed(source@) == Ok::<Seq<TokenView>, LexFault>(token_views(tokens@)),
            Err(err) => lexed(source@) matches Err(fault) && is_parse_error(
                err,
                fault.line,
                Seq::empty(),
                fault.message,
            ),
        },
{
    let mut scanner = Scanner::new(source);
    scanner.scan_tokens()
}

/// Whether `text` is a part of `source` as it stands.
pub open spec fn is_slice(text: Seq<char>, source: Seq<char>) -> bool {
    exists|from: int, to: int|
        0 <= from <= to <= source.len() && text == #[trigger] source.subrange(from, to)
}

/// Whether `token` is as a scan of `source` makes its tokens: its lexeme is
/// a part of the source, its line is counted from one, it is not the
/// sentinel, and a number carries its lexeme, which is a numeral.
pub open spec fn well_made(token: TokenView, source: Seq<char>) -> bool {
    &&& is_slice(token.lexeme, source)
    &&& token.line >= 1
    &&& token.token_type != TokenType::EOF
    &&& token.token_type == TokenType::Number ==> {
        &&& token.literal == LiteralView::Number(token.lexeme)
        &&& is_numeral(token.lexeme)
    }
}

/// The lexeme of a token is the very text that the step passes over, and
/// no step lowers the line count.
pub proof fn lemma_step_is_faithful(s: Seq<char>, start: int, line: nat)
    requires
        0 <= start < s.len(),
    ensures
        scan_one(s, start, line).line() >= line,
        scan_one(s, start, line) matches Step::Emit { token, next, line: after } ==> {
            &&& token.lexeme == s.subrange(start, next)
            &&& token.line == after
            &&& line >= 1 ==> well_made(token, s)
        },
{
    lemma_scan_one_advances(s, start, line);
    let step = scan_one(s, start, line);
    if let Step::Emit { token, next, line: after } = step {
        assert(token.lexeme == s.subrange(start, next));
        if is_digit(s[start]) {
            let whole = digits_end(s, start + 1);
            lemma_run_end(s, start + 1, |c: char| is_digit(c));
            if whole + 1 < s.len() {
                lemma_run_end(s, whole + 1, |c: char| is_digit(c));
            }
            let text = s.subrange(start, next);
            let digits = whole - start;
            assert(forall|i: int| 0 <= i < digits ==> is_digit(#[trigger] text[i]));
            if next != whole {
                assert(text[digits] == '.');
                assert(is_digit(s[whole + 1]));
                assert(forall|i: int| digits < i < text.len() ==> is_digit(#[trigger] text[i]));
            }
            assert(is_numeral_split(text, digits));
        }
    }
}

/// A string literal advances the line count by the number of line breaks
/// between its quotes, and its token carries the line on which it ends.
pub proof fn lemma_string_lines(s: Seq<char>, start: int, line: nat)
    requires
        0 <= start < s.len(),
        s[start] == '"',
        quote_pos(s, start + 1) < s.len(),
    ensures
        scan_one(s, start, line) matches Step::Emit { token, next, line: after } && {
            &&& token.token_type == TokenType::String
            &&& token.literal matches LiteralView::String(value) && {
                &&& value == s.subrange(start + 1, next - 1)
                &&& after == line + line_breaks(value, 0, value.len() as int)
            }
            &&& token.line == after
        },
{
    lemma_run_end(s, start + 1, |c: char| c != '"');
    let close = quote_pos(s, start + 1);
    lemma_line_breaks_of_slice(s, start + 1, close, close);
}

/// The line breaks of a part of the source are those of the source in
/// that range.
pub proof fn lemma_line_breaks_of_slice(s: Seq<char>, from: int, to: int, upto: int)
    requires
        0 <= from <= upto <= to <= s.len(),
    ensures
        line_breaks(s.subrange(from, to), 0, upto - from) == line_breaks(s, from, upto),
    decreases upto - from,
{
    if from < upto {
        lemma_line_breaks_of_slice(s, from, to, upto - 1);
    }
}

/// What a scan adds to the tokens it starts with are tokens of the source,
/// each with its lexeme and none of them the sentinel; the tokens it
/// starts with stay as they are.
pub proof fn lemma_scan_rest_keeps(v: ScannerView)
    requires
        0 <= v.current <= v.source.len(),
        v.line >= 1,
    ensures
        scan_rest(v).state.source == v.source,
        scan_rest(v).state.line >= v.line,
        v.tokens.is_prefix_of(scan_rest(v).state.tokens),
        forall|i: int|
            v.tokens.len() <= i < scan_rest(v).state.tokens.len() ==> well_made(
                #[trigger] scan_rest(v).state.tokens[i],
                v.source,
            ),
    decreases v.source.len() - v.current,
{
    if v.current < v.source.len() {
        let step = scan_one(v.source, v.current, v.line);
        lemma_scan_one_advances(v.source, v.current, v.line);
        lemma_step_is_faithful(v.source, v.current, v.line);
        let next = v.marked().after(step);
        if !(step is Fail) {
            lemma_scan_rest_keeps(next);
            let end = scan_rest(v).state;
            assert(end == scan_rest(next).state);
            assert forall|i: int| v.tokens.len() <= i < end.tokens.len() implies well_made(
                #[trigger] end.tokens[i],
                v.source,
            ) by {
                if i < next.tokens.len() {
                    assert(end.tokens[i] == next.tokens[i]);
                }
            }
        }
    }
}

/// A scan that succeeds ends with the sentinel, and with it alone: every
/// token before the last is a token of the source, with its lexeme.
pub proof fn lemma_lexed_ends_with_sentinel(source: Seq<char>)
    ensures
        lexed(source) matches Ok(tokens) ==> {
            &&& tokens.len() > 0
            &&& tokens.last().token_type == TokenType::EOF
            &&& tokens.last().lexeme == Seq::<char>::empty()
            &&& forall|i: int| 0 <= i < tokens.len() - 1 ==> well_made(#[trigger] tokens[i], source)
        },
{
    lemma_scan_rest_keeps(fresh(source));
}

/// Whether a lexeme, white space or a comment can start with `c`.
pub open spec fn starts_lexeme(c: char) -> bool {
    ||| c == '(' || c == ')' || c == '{' || c == '}'
    ||| c == ',' || c == '.' || c == '-' || c == '+' || c == ';' || c == '*'
    ||| c == '!' || c == '=' || c == '<' || c == '>' || c == '/'
    ||| c == ' ' || c == '\r' || c == '\t' || c == '\n'
    ||| c == '"'
    ||| is_digit(c)
    ||| is_alpha(c)
}

/// A step fails for one of two reasons: a character with which nothing
/// starts, on the line that the step starts on; or a string that does not
/// end. The first happens at exactly the characters with which nothing
/// starts, whatever comes after them.
pub proof fn lemma_unexpected_character(s: Seq<char>, start: int, line: nat)
    requires
        0 <= start < s.len(),
    ensures
        !starts_lexeme(s[start]) ==> scan_one(s, start, line) == (Step::Fail {
            next: start + 1,
            line,
            message: "Unexpected character."@,
        }),
        starts_lexeme(s[start]) && scan_one(s, start, line) is Fail ==> {
            &&& s[start] == '"'
            &&& quote_pos(s, start + 1) >= s.len()
            &&& scan_one(s, start, line) == (Step::Fail {
                next: s.len() as int,
                line: line + line_breaks(s, start + 1, s.len() as int),
                message: "Unterminated string."@,
            })
        },
{
}

/// A scan that comes to a character with which nothing starts stops there,
/// with the line count as it is.
pub proof fn lemma_scan_stops_at_unexpected(v: ScannerView)
    requires
        0 <= v.current < v.source.len(),
        !starts_lexeme(v.source[v.current]),
    ensures
        scan_rest(v).failure == Some("Unexpected character."@),
        scan_rest(v).state.line == v.line,
        scan_rest(v).state.tokens == v.tokens,
{
    lemma_unexpected_character(v.source, v.current, v.line);
}

/// A semicolon and after it a character with which nothing starts: the
/// scan fails on line one.
pub proof fn lemma_unexpected_after_semicolon(c: char)
    requires
        !starts_lexeme(c),
    ensures
        lexed(seq![';', c]) == Err::<Seq<TokenView>, LexFault>(
            LexFault { line: 1, message: "Unexpected character."@ },
        ),
{
    let v = fresh(seq![';', c]);
    let after = v.marked().after(scan_one(v.source, 0, 1));
    assert(scan_rest(v) == scan_rest(after));
    lemma_scan_stops_at_unexpected(after);
}

/// A scan that comes to a quote after which no other follows stops at
/// the end of the source, on the line that the end is on.
pub proof fn lemma_scan_stops_at_open_string(v: ScannerView)
    requires
        0 <= v.current < v.source.len(),
        v.source[v.current] == '"',
        quote_pos(v.source, v.current + 1) >= v.source.len(),
    ensures
        scan_rest(v).failure == Some("Unterminated string."@),
        scan_rest(v).state.line == v.line + line_breaks(
            v.source,
            v.current + 1,
            v.source.len() as int,
        ),
        scan_rest(v).state.tokens == v.tokens,
{
}

/// An identifier or a reserved word is taken whole: its lexeme runs as
/// far as letters, digits and underscores go, and it is a reserved word
/// only if the whole of it spells one.
pub proof fn lemma_word_is_whole(s: Seq<char>, start: int, line: nat)
    requires
        0 <= start < s.len(),
        is_alpha(s[start]),
    ensures
        scan_one(s, start, line) matches Step::Emit { token, next, .. } && {
            &&& start < next <= s.len()
            &&& token.lexeme == s.subrange(start, next)
            &&& forall|i: int| start <= i < next ==> is_alpha_numeric(#[trigger] s[i])
            &&& next < s.len() ==> !is_alpha_numeric(s[next])
            &&& token.token_type == match keyword(token.lexeme) {
                Some(reserved) => reserved,
                None => TokenType::Identifier,
            }
        },
{
    lemma_run_end(s, start + 1, |c: char| is_alpha_numeric(c));
}

/// The line breaks of a range are those of its two parts.
pub proof fn lemma_line_breaks_split(s: Seq<char>, from: int, mid: int, to: int)
    requires
        0 <= from <= mid <= to <= s.len(),
    ensures
        line_breaks(s, from, to) == line_breaks(s, from, mid) + line_breaks(s, mid, to),
    decreases to - mid,
{
    if mid < to {
        lemma_line_breaks_split(s, from, mid, to - 1);
    }
}

/// A range without line breaks has none.
pub proof fn lemma_line_breaks_none(s: Seq<char>, from: int, to: int)
    requires
        0 <= from <= to <= s.len(),
        forall|i: int| from <= i < to ==> #[trigger] s[i] != '\n',
    ensures
        line_breaks(s, from, to) == 0,
    decreases to - from,
{
    if from < to {
        lemma_line_breaks_none(s, from, to - 1);
    }
}

/// A step counts the line breaks that it passes, all of them and nothing
/// else.
pub proof fn lemma_step_counts_lines(s: Seq<char>, start: int, line: nat)
    requires
        0 <= start < s.len(),
    ensures
        scan_one(s, start, line).line() == line + line_breaks(
            s,
            start,
            scan_one(s, start, line).next(),
        ),
{
    lemma_scan_one_advances(s, start, line);
    let next = scan_one(s, start, line).next();
    let c = s[start];
    lemma_line_breaks_split(s, start, start + 1, next);
    assert(line_breaks(s, start, start + 1) == if c == '\n' {
        1nat
    } else {
        0nat
    }) by {
        assert(line_breaks(s, start, start) == 0);
    }
    if c == '"' {
        let close = quote_pos(s, start + 1);
        lemma_run_end(s, start + 1, |c: char| c != '"');
        if close < s.len() {
            lemma_line_breaks_split(s, start + 1, close, close + 1);
            assert(line_breaks(s, close, close + 1) == 0) by {
                assert(line_breaks(s, close, close) == 0);
            }
        }
    } else if c == '/' {
        if start + 1 < s.len() && s[start + 1] == '/' {
            lemma_run_end(s, start + 2, |c: char| c != '\n');
        }
        lemma_line_breaks_none(s, start + 1, next);
    } else if is_digit(c) {
        let whole = digits_end(s, start + 1);
        lemma_run_end(s, start + 1, |c: char| is_digit(c));
        if whole + 1 < s.len() {
            lemma_run_end(s, whole + 1, |c: char| is_digit(c));
        }
        lemma_line_breaks_none(s, start + 1, next);
    } else if is_alpha(c) {
        lemma_run_end(s, start + 1, |c: char| is_alpha_numeric(c));
        lemma_line_breaks_none(s, start + 1, next);
    } else {
        lemma_line_breaks_none(s, start + 1, next);
    }
}

/// A scan counts the line breaks that it passes: where it stops, the line
/// count is the count it started with and the line breaks between. A
/// token, and a lexical error, carries the count of the place where it
/// ends.
pub proof fn lemma_scan_counts_lines(v: ScannerView)
    requires
        0 <= v.current <= v.source.len(),
    ensures
        v.current <= scan_rest(v).state.current <= v.source.len(),
        scan_rest(v).state.line == v.line + line_breaks(
            v.source,
            v.current,
            scan_rest(v).state.current,
        ),
    decreases v.source.len() - v.current,
{
    if v.current < v.source.len() {
        let step = scan_one(v.source, v.current, v.line);
        lemma_scan_one_advances(v.source, v.current, v.line);
        lemma_step_counts_lines(v.source, v.current, v.line);
        if !(step is Fail) {
            let next = v.marked().after(step);
            lemma_scan_counts_lines(next);
            lemma_line_breaks_split(
                v.source,
                v.current,
                next.current,
                scan_rest(v).state.current,
            );
        }
    } else {
        assert(line_breaks(v.source, v.current, v.current) == 0);
    }
}

} // verus!
