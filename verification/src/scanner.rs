//! The scanner: source text to a token list ending in an EOF token, with
//! one-character lookahead, maximal-munch numerals and identifiers, line
//! comments, and multi-line string literals.
use crate::diag::spec_report;
use crate::diag::error;
use crate::model::{strings_model, tokens_model, GToken, GVal};
use crate::numeric::{double_of_decimal, is_number_lexeme, num_parse};
use crate::token::{LiteralType, Token, TokenType};
use vstd::prelude::*;
use vstd::string::StrSliceExecFns;
use vstd::string::StringExecFns;

verus! {

/// A decimal digit.
pub open spec fn spec_is_digit(c: char) -> bool {
    '0' <= c <= '9'
}

/// A letter or underscore, as identifiers may start with.
pub open spec fn spec_is_alpha(c: char) -> bool {
    ('a' <= c <= 'z') || ('A' <= c <= 'Z') || c == '_'
}

/// A character identifiers may continue with.
pub open spec fn spec_is_alnum(c: char) -> bool {
    spec_is_alpha(c) || spec_is_digit(c)
}

/// The first position at or after `i` whose character is not a digit.
pub open spec fn digits_end(src: Seq<char>, i: int) -> int
    decreases src.len() - i,
        when 0 <= i <= src.len()
{
    if i < src.len() && spec_is_digit(src[i]) {
        digits_end(src, i + 1)
    } else {
        i
    }
}

/// The first position at or after `i` whose character cannot continue an
/// identifier.
pub open spec fn ident_end(src: Seq<char>, i: int) -> int
    decreases src.len() - i,
        when 0 <= i <= src.len()
{
    if i < src.len() && spec_is_alnum(src[i]) {
        ident_end(src, i + 1)
    } else {
        i
    }
}

/// The first position at or after `i` holding a newline, or the end: a
/// line comment runs up to but not into the newline.
pub open spec fn comment_end(src: Seq<char>, i: int) -> int
    decreases src.len() - i,
        when 0 <= i <= src.len()
{
    if i < src.len() && src[i] != '\n' {
        comment_end(src, i + 1)
    } else {
        i
    }
}

/// The first position at or after `i` holding a closing quote, or the end.
pub open spec fn quote_end(src: Seq<char>, i: int) -> int
    decreases src.len() - i,
        when 0 <= i <= src.len()
{
    if i < src.len() && src[i] != '"' {
        quote_end(src, i + 1)
    } else {
        i
    }
}

/// How many newline characters `src` holds in `[a, b)`.
pub open spec fn count_newlines(src: Seq<char>, a: int, b: int) -> int
    decreases b - a,
        when a <= b
{
    if a >= b {
        0
    } else {
        count_newlines(src, a, b - 1) + if src[b - 1] == '\n' {
            1int
        } else {
            0int
        }
    }
}

/// The end positions of the maximal munches lie between their start and
/// the end of the source, everything inside satisfies the munch, and the
/// munch is maximal.
pub proof fn lemma_munch(src: Seq<char>, i: int)
    requires
        0 <= i <= src.len(),
    ensures
        i <= digits_end(src, i) <= src.len(),
        forall|j: int| i <= j < digits_end(src, i) ==> spec_is_digit(#[trigger] src[j]),
        digits_end(src, i) < src.len() ==> !spec_is_digit(src[digits_end(src, i)]),
        i <= ident_end(src, i) <= src.len(),
        forall|j: int| i <= j < ident_end(src, i) ==> spec_is_alnum(#[trigger] src[j]),
        ident_end(src, i) < src.len() ==> !spec_is_alnum(src[ident_end(src, i)]),
        i <= comment_end(src, i) <= src.len(),
        forall|j: int| i <= j < comment_end(src, i) ==> (#[trigger] src[j]) != '\n',
        comment_end(src, i) < src.len() ==> src[comment_end(src, i)] == '\n',
        i <= quote_end(src, i) <= src.len(),
        forall|j: int| i <= j < quote_end(src, i) ==> (#[trigger] src[j]) != '"',
        quote_end(src, i) < src.len() ==> src[quote_end(src, i)] == '"',
    decreases src.len() - i,
{
    if i < src.len() {
        lemma_munch(src, i + 1);
    }
}

/// A range without newlines adds nothing to the line count.
pub proof fn lemma_count_without_newlines(src: Seq<char>, a: int, b: int)
    requires
        0 <= a <= b <= src.len(),
        forall|j: int| a <= j < b ==> (#[trigger] src[j]) != '\n',
    ensures
        count_newlines(src, a, b) == 0,
    decreases b - a,
{
    if a < b {
        lemma_count_without_newlines(src, a, b - 1);
    }
}

/// Newline counts add over adjacent ranges.
pub proof fn lemma_count_concat(src: Seq<char>, a: int, b: int, c: int)
    requires
        a <= b <= c,
    ensures
        count_newlines(src, a, c) == count_newlines(src, a, b) + count_newlines(src, b, c),
    decreases c - b,
{
    if b < c {
        lemma_count_concat(src, a, b, c - 1);
    }
}

/// Newline counts are never negative.
pub proof fn lemma_count_nonneg(src: Seq<char>, a: int, b: int)
    requires
        a <= b,
    ensures
        0 <= count_newlines(src, a, b) <= b - a,
    decreases b - a,
{
    if a < b {
        lemma_count_nonneg(src, a, b - 1);
    }
}

/// The token kind an identifier lexeme scans to: a keyword's kind, or
/// `Identifier`.
pub open spec fn spec_keyword(s: Seq<char>) -> TokenType {
    if s == "and"@ {
        TokenType::And
    } else if s == "class"@ {
        TokenType::Class
    } else if s == "else"@ {
        TokenType::Else
    } else if s == "false"@ {
        TokenType::False
    } else if s == "for"@ {
        TokenType::For
    } else if s == "fun"@ {
        TokenType::Fun
    } else if s == "if"@ {
        TokenType::If
    } else if s == "nil"@ {
        TokenType::Nil
    } else if s == "or"@ {
        TokenType::Or
    } else if s == "print"@ {
        TokenType::Print
    } else if s == "return"@ {
        TokenType::Return
    } else if s == "super"@ {
        TokenType::Super
    } else if s == "this"@ {
        TokenType::This
    } else if s == "true"@ {
        TokenType::True
    } else if s == "var"@ {
        TokenType::Var
    } else if s == "while"@ {
        TokenType::While
    } else {
        TokenType::Identifier
    }
}

/// A token without a literal payload, as the scanner's model makes them.
pub open spec fn plain_token(kind: TokenType, lexeme: Seq<char>, line: int) -> GToken {
    GToken { kind, lexeme, literal: None, line }
}

/// What scanning one construct at `start` produces: the tokens and
/// diagnostics emitted, the next scan position, and the line after it.
pub ghost struct ScanStep {
    pub toks: Seq<GToken>,
    pub errs: Seq<Seq<char>>,
    pub next: int,
    pub line2: int,
}

/// The model of one scanner step at `start` (which must be in range): what
/// token, if any, the construct starting there becomes.
pub open spec fn spec_scan_token(src: Seq<char>, start: int, line: int) -> ScanStep {
    let c = src[start];
    if c == '(' {
        ScanStep {
            toks: seq![plain_token(TokenType::LeftParen, src.subrange(start, start + 1), line)],
            errs: Seq::empty(),
            next: start + 1,
            line2: line,
        }
    } else if c == ')' {
        ScanStep {
            toks: seq![plain_token(TokenType::RightParen, src.subrange(start, start + 1), line)],
            errs: Seq::empty(),
            next: start + 1,
            line2: line,
        }
    } else if c == '{' {
        ScanStep {
            toks: seq![plain_token(TokenType::LeftBrace, src.subrange(start, start + 1), line)],
            errs: Seq::empty(),
            next: start + 1,
            line2: line,
        }
    } else if c == '}' {
        ScanStep {
            toks: seq![plain_token(TokenType::RightBrace, src.subrange(start, start + 1), line)],
            errs: Seq::empty(),
            next: start + 1,
            line2: line,
        }
    } else if c == ',' {
        ScanStep {
            toks: seq![plain_token(TokenType::Comma, src.subrange(start, start + 1), line)],
            errs: Seq::empty(),
            next: start + 1,
            line2: line,
        }
    } else if c == '.' {
        ScanStep {
            toks: seq![plain_token(TokenType::Dot, src.subrange(start, start + 1), line)],
            errs: Seq::empty(),
            next: start + 1,
            line2: line,
        }
    } else if c == '-' {
        ScanStep {
            toks: seq![plain_token(TokenType::Minus, src.subrange(start, start + 1), line)],
            errs: Seq::empty(),
            next: start + 1,
            line2: line,
        }
    } else if c == '+' {
        ScanStep {
            toks: seq![plain_token(TokenType::Plus, src.subrange(start, start + 1), line)],
            errs: Seq::empty(),
            next: start + 1,
            line2: line,
        }
    } else if c == '*' {
        ScanStep {
            toks: seq![plain_token(TokenType::Star, src.subrange(start, start + 1), line)],
            errs: Seq::empty(),
            next: start + 1,
            line2: line,
        }
    } else if c == ';' {
        ScanStep {
            toks: seq![plain_token(TokenType::Semicolon, src.subrange(start, start + 1), line)],
            errs: Seq::empty(),
            next: start + 1,
            line2: line,
        }
    } else if c == '=' {
        if start + 1 < src.len() && src[start + 1] == '=' {
            ScanStep {
                toks: seq![
                    plain_token(TokenType::EqualEqual, src.subrange(start, start + 2), line),
                ],
                errs: Seq::empty(),
                next: start + 2,
                line2: line,
            }
        } else {
            ScanStep {
                toks: seq![plain_token(TokenType::Equal, src.subrange(start, start + 1), line)],
                errs: Seq::empty(),
                next: start + 1,
                line2: line,
            }
        }
    } else if c == '!' {
        if start + 1 < src.len() && src[start + 1] == '=' {
            ScanStep {
                toks: seq![plain_token(TokenType::BangEqual, src.subrange(start, start + 2), line)],
                errs: Seq::empty(),
                next: start + 2,
                line2: line,
            }
        } else {
            ScanStep {
                toks: seq![plain_token(TokenType::Bang, src.subrange(start, start + 1), line)],
                errs: Seq::empty(),
                next: start + 1,
                line2: line,
            }
        }
    } else if c == '<' {
        if start + 1 < src.len() && src[start + 1] == '=' {
            ScanStep {
                toks: seq![plain_token(TokenType::LessEqual, src.subrange(start, start + 2), line)],
                errs: Seq::empty(),
                next: start + 2,
                line2: line,
            }
        } else {
            ScanStep {
                toks: seq![plain_token(TokenType::Less, src.subrange(start, start + 1), line)],
                errs: Seq::empty(),
                next: start + 1,
                line2: line,
            }
        }
    } else if c == '>' {
        if start + 1 < src.len() && src[start + 1] == '=' {
            ScanStep {
                toks: seq![
                    plain_token(TokenType::GreaterEqual, src.subrange(start, start + 2), line),
                ],
                errs: Seq::empty(),
                next: start + 2,
                line2: line,
            }
        } else {
            ScanStep {
                toks: seq![plain_token(TokenType::Greater, src.subrange(start, start + 1), line)],
                errs: Seq::empty(),
                next: start + 1,
                line2: line,
            }
        }
    } else if c == '/' {
        if start + 1 < src.len() && src[start + 1] == '/' {
            ScanStep {
                toks: Seq::empty(),
                errs: Seq::empty(),
                next: comment_end(src, start + 2),
                line2: line,
            }
        } else {
            ScanStep {
                toks: seq![plain_token(TokenType::Slash, src.subrange(start, start + 1), line)],
                errs: Seq::empty(),
                next: start + 1,
                line2: line,
            }
        }
    } else if c == ' ' || c == '\r' || c == '\t' {
        ScanStep { toks: Seq::empty(), errs: Seq::empty(), next: start + 1, line2: line }
    } else if c == '\n' {
        ScanStep { toks: Seq::empty(), errs: Seq::empty(), next: start + 1, line2: line + 1 }
    } else if c == '"' {
        let qe = quote_end(src, start + 1);
        let line2 = line + count_newlines(src, start + 1, qe);
        if qe >= src.len() {
            ScanStep {
                toks: Seq::empty(),
                errs: seq![spec_report(line2 as nat, Seq::empty(), "Unterminated string."@)],
                next: src.len() as int,
                line2,
            }
        } else {
            ScanStep {
                toks: seq![
                    GToken {
                        kind: TokenType::String,
                        lexeme: src.subrange(start, qe + 1),
                        literal: Some(GVal::Str(src.subrange(start + 1, qe))),
                        line: line2,
                    },
                ],
                errs: Seq::empty(),
                next: qe + 1,
                line2,
            }
        }
    } else if spec_is_digit(c) {
        let e1 = digits_end(src, start);
        let e2 = if e1 + 1 < src.len() && src[e1] == '.' && spec_is_digit(src[e1 + 1]) {
            digits_end(src, e1 + 1)
        } else {
            e1
        };
        ScanStep {
            toks: seq![
                GToken {
                    kind: TokenType::Number,
                    lexeme: src.subrange(start, e2),
                    literal: Some(GVal::Num(double_of_decimal(src.subrange(start, e2)))),
                    line,
                },
            ],
            errs: Seq::empty(),
            next: e2,
            line2: line,
        }
    } else if spec_is_alpha(c) {
        let ie = ident_end(src, start);
        let lexeme = src.subrange(start, ie);
        ScanStep {
            toks: seq![plain_token(spec_keyword(lexeme), lexeme, line)],
            errs: Seq::empty(),
            next: ie,
            line2: line,
        }
    } else {
        ScanStep {
            toks: Seq::empty(),
            errs: seq![
                spec_report(
                    line as nat,
                    Seq::empty(),
                    "Unexpected character: "@ + seq![c] + "."@,
                ),
            ],
            next: start + 1,
            line2: line,
        }
    }
}

/// A scanner step starting in range consumes at least one character and
/// never runs past the end, and its line moves by the newlines consumed.
pub proof fn lemma_scan_token_step(src: Seq<char>, start: int, line: int)
    requires
        0 <= start < src.len(),
    ensures
        start < spec_scan_token(src, start, line).next <= src.len(),
        spec_scan_token(src, start, line).line2 == line + count_newlines(
            src,
            start,
            spec_scan_token(src, start, line).next,
        ),
{
    let c = src[start];
    lemma_munch(src, start);
    let step = spec_scan_token(src, start, line);
    if c == '/' && start + 1 < src.len() && src[start + 1] == '/' {
        lemma_munch(src, start + 2);
        lemma_count_without_newlines(src, start, step.next);
    } else if c == '"' {
        lemma_munch(src, start + 1);
        let qe = quote_end(src, start + 1);
        lemma_count_nonneg(src, start + 1, qe);
        lemma_count_concat(src, start, start + 1, qe);
        assert(count_newlines(src, start, start as int) == 0);
        assert(count_newlines(src, start, start + 1) == 0);
        if qe >= src.len() {
            assert(step.next == src.len() as int);
            assert(count_newlines(src, start, step.next) == count_newlines(src, start + 1, qe));
        } else {
            assert(step.next == qe + 1);
            lemma_count_concat(src, start, qe, qe + 1);
            assert(count_newlines(src, qe, qe as int) == 0);
            assert(count_newlines(src, qe, qe + 1) == 0);
            assert(count_newlines(src, start, qe + 1) == count_newlines(src, start + 1, qe));
        }
    } else if spec_is_digit(c) {
        lemma_munch(src, start + 1);
        let e1 = digits_end(src, start);
        assert(e1 == digits_end(src, start + 1));
        if e1 + 1 < src.len() && src[e1] == '.' && spec_is_digit(src[e1 + 1]) {
            lemma_munch(src, e1 + 1);
            assert forall|j: int| start <= j < step.next implies (#[trigger] src[j]) != '\n' by {
                if j < e1 {
                } else if j == e1 {
                } else {
                }
            }
            lemma_count_without_newlines(src, start, step.next);
        } else {
            assert(step.next == e1);
            lemma_count_without_newlines(src, start, step.next);
        }
    } else if spec_is_alpha(c) {
        lemma_munch(src, start + 1);
        assert(ident_end(src, start) == ident_end(src, start + 1));
        lemma_count_without_newlines(src, start, step.next);
    } else if c == '\n' {
        assert(count_newlines(src, start, start as int) == 0);
        assert(count_newlines(src, start, start + 1) == 1);
    } else {
        assert(step.next == start + 1 || (step.next == start + 2 && src[start + 1] == '='));
        assert forall|j: int| start <= j < step.next implies (#[trigger] src[j]) != '\n' by {
            if j != start {
                assert(j == start + 1);
                assert(src[j] == '=');
            }
        }
        lemma_count_without_newlines(src, start, step.next);
    }
}

/// What scanning from position `i` at line `line` to the end produces (the
/// EOF token not included).
pub ghost struct ScanOut {
    pub toks: Seq<GToken>,
    pub errs: Seq<Seq<char>>,
    pub line: int,
}

/// The model of the whole scan from position `i` on.
pub open spec fn spec_scan(src: Seq<char>, i: int, line: int) -> ScanOut
    decreases src.len() - i,
        when 0 <= i <= src.len()
        via spec_scan_dec
{
    if i >= src.len() {
        ScanOut { toks: Seq::empty(), errs: Seq::empty(), line }
    } else {
        let step = spec_scan_token(src, i, line);
        let rest = spec_scan(src, step.next, step.line2);
        ScanOut { toks: step.toks + rest.toks, errs: step.errs + rest.errs, line: rest.line }
    }
}

#[via_fn]
proof fn spec_scan_dec(src: Seq<char>, i: int, line: int) {
    if 0 <= i < src.len() {
        lemma_scan_token_step(src, i, line);
    }
}

/// The token list a source text scans to: the scanned tokens, then the EOF
/// token, whose line is the line after the last construct.
pub open spec fn spec_scan_tokens(src: Seq<char>) -> ScanOut {
    let out = spec_scan(src, 0, 1);
    ScanOut {
        toks: out.toks.push(plain_token(TokenType::EOF, Seq::empty(), out.line)),
        errs: out.errs,
        line: out.line,
    }
}

/// Scanning neither loses nor invents a line: after scanning from `i`, the
/// line counter has grown by exactly the newlines left in the source.
pub proof fn lemma_scan_counts_lines(src: Seq<char>, i: int, line: int)
    requires
        0 <= i <= src.len(),
    ensures
        spec_scan(src, i, line).line == line + count_newlines(src, i, src.len() as int),
    decreases src.len() - i,
{
    if i >= src.len() {
    } else {
        lemma_scan_token_step(src, i, line);
        let step = spec_scan_token(src, i, line);
        lemma_scan_counts_lines(src, step.next, step.line2);
        lemma_count_concat(src, i, step.next, src.len() as int);
    }
}

/// The EOF token's line is one more than the number of newline characters
/// in the source.
///
/// Law: scanning never loses or invents a line.
pub proof fn lemma_eof_line(src: Seq<char>)
    ensures
        spec_scan_tokens(src).toks.last().line == 1 + count_newlines(src, 0, src.len() as int),
        spec_scan_tokens(src).toks.last().kind == TokenType::EOF,
{
    lemma_scan_counts_lines(src, 0, 1);
}

/// The token kind of an identifier or keyword lexeme.
fn keyword_kind(s: &String) -> (k: TokenType)
    ensures
        k == spec_keyword(s@),
{
    if *s == String::from_str("and") {
        TokenType::And
    } else if *s == String::from_str("class") {
        TokenType::Class
    } else if *s == String::from_str("else") {
        TokenType::Else
    } else if *s == String::from_str("false") {
        TokenType::False
    } else if *s == String::from_str("for") {
        TokenType::For
    } else if *s == String::from_str("fun") {
        TokenType::Fun
    } else if *s == String::from_str("if") {
        TokenType::If
    } else if *s == String::from_str("nil") {
        TokenType::Nil
    } else if *s == String::from_str("or") {
        TokenType::Or
    } else if *s == String::from_str("print") {
        TokenType::Print
    } else if *s == String::from_str("return") {
        TokenType::Return
    } else if *s == String::from_str("super") {
        TokenType::Super
    } else if *s == String::from_str("this") {
        TokenType::This
    } else if *s == String::from_str("true") {
        TokenType::True
    } else if *s == String::from_str("var") {
        TokenType::Var
    } else if *s == String::from_str("while") {
        TokenType::While
    } else {
        TokenType::Identifier
    }
}

/// The scanner's cursor state: the source, the tokens and diagnostics
/// produced so far, the start of the construct being scanned, the scan
/// position, and the current line.
pub struct Scanner {
    pub source: String,
    pub tokens: Vec<Token>,
    pub start: usize,
    pub current: usize,
    pub line: usize,
    pub errors: Vec<String>,
}

impl Scanner {
    /// A scanner at the start of `source`, on line 1, nothing scanned.
    pub fn new(source: String) -> (r: Scanner)
        ensures
            r.source == source,
            r.tokens@.len() == 0,
            r.start == 0,
            r.current == 0,
            r.line == 1,
            r.errors@.len() == 0,
    {
        Scanner {
            source,
            tokens: Vec::new(),
            start: 0,
            current: 0,
            line: 1,
            errors: Vec::new(),
        }
    }

    /// Whether the scan position is at the end of the source.
    fn is_at_end(&self) -> (r: bool)
        ensures
            r == (self.current as int >= self.source@.len()),
    {
        self.current >= self.source.as_str().unicode_len()
    }

    /// The character at the scan position, `'\0'` at the end.
    fn peek(&self) -> (c: char)
        ensures
            c == (if (self.current as int) < self.source@.len() {
                self.source@[self.current as int]
            } else {
                '\u{0}'
            }),
    {
        if self.is_at_end() {
            return '\u{0}';
        }
        self.source.as_str().get_char(self.current)
    }

    /// The character after the scan position, `'\0'` past the end.
    fn peek_next(&self) -> (c: char)
        requires
            self.current < usize::MAX,
        ensures
            c == (if (self.current + 1) < self.source@.len() {
                self.source@[self.current + 1]
            } else {
                '\u{0}'
            }),
    {
        if self.current + 1 >= self.source.as_str().unicode_len() {
            return '\u{0}';
        }
        self.source.as_str().get_char(self.current + 1)
    }

    /// Consume and return the character at the scan position.
    fn advance(&mut self) -> (c: char)
        requires
            (old(self).current as int) < old(self).source@.len(),
            old(self).source@.len() < usize::MAX,
        ensures
            c == old(self).source@[old(self).current as int],
            final(self).current == old(self).current + 1,
            final(self).source == old(self).source,
            final(self).tokens == old(self).tokens,
            final(self).errors == old(self).errors,
            final(self).start == old(self).start,
            final(self).line == old(self).line,
    {
        let c = self.source.as_str().get_char(self.current);
        self.current = self.current + 1;
        c
    }

    /// Consume the character at the scan position if it is `expected`.
    fn match_char(&mut self, expected: char) -> (r: bool)
        requires
            old(self).current < usize::MAX,
        ensures
            r == ((old(self).current as int) < old(self).source@.len() && old(self).source@[old(
                self,
            ).current as int] == expected),
            r ==> final(self).current == old(self).current + 1,
            !r ==> final(self).current == old(self).current,
            final(self).source == old(self).source,
            final(self).tokens == old(self).tokens,
            final(self).errors == old(self).errors,
            final(self).start == old(self).start,
            final(self).line == old(self).line,
    {
        if self.is_at_end() {
            return false;
        }
        if self.source.as_str().get_char(self.current) != expected {
            return false;
        }
        self.current = self.current + 1;
        true
    }

    /// Append a token without a literal payload, its lexeme the slice from
    /// `start` to the scan position.
    fn add_token(&mut self, token_type: TokenType)
        requires
            old(self).start <= old(self).current <= old(self).source@.len(),
        ensures
            tokens_model(final(self).tokens@) == tokens_model(old(self).tokens@).push(
                plain_token(
                    token_type,
                    old(self).source@.subrange(old(self).start as int, old(self).current as int),
                    old(self).line as int,
                ),
            ),
            final(self).source == old(self).source,
            final(self).current == old(self).current,
            final(self).errors == old(self).errors,
            final(self).start == old(self).start,
            final(self).line == old(self).line,
    {
        let text = self.source.as_str().substring_char(self.start, self.current).to_owned();
        let t = Token { token_type, lexeme: text, literal: None, line: self.line };
        let ghost gt = t;
        let ghost obs = self.tokens@;
        self.tokens.push(t);
        proof {
            crate::model::lemma_tokens_model_push(obs, gt);
        }
    }

    /// Scan one construct starting at `start` (the scan position): emit its
    /// token or diagnostic and move past it.
    fn scan_token(&mut self)
        requires
            old(self).start == old(self).current,
            (old(self).current as int) < old(self).source@.len(),
            old(self).source@.len() < usize::MAX,
            old(self).line as int <= old(self).current + 1,
            1 <= old(self).line,
        ensures
            ({
                let step = spec_scan_token(
                    old(self).source@,
                    old(self).current as int,
                    old(self).line as int,
                );
                &&& tokens_model(final(self).tokens@) == tokens_model(old(self).tokens@)
                    + step.toks
                &&& strings_model(final(self).errors@) == strings_model(old(self).errors@)
                    + step.errs
                &&& final(self).current as int == step.next
                &&& final(self).line as int == step.line2
            }),
            final(self).source == old(self).source,
            old(self).current < final(self).current <= final(self).source@.len(),
            final(self).line as int <= final(self).current + 1,
            1 <= final(self).line,
    {
        let ghost src = self.source@;
        let ghost start0 = self.current as int;
        let ghost line0 = self.line as int;
        let ghost step = spec_scan_token(src, start0, line0);
        proof {
            lemma_scan_token_step(src, start0, line0);
            lemma_count_nonneg(src, start0, step.next);
            lemma_munch(src, start0);
        }
        let c = self.advance();
        match c {
            '(' => {
                self.add_token(TokenType::LeftParen);
                proof {
                    assert(tokens_model(self.tokens@) =~= tokens_model(old(self).tokens@)
                        + step.toks);
                    assert(strings_model(self.errors@) =~= strings_model(old(self).errors@)
                        + step.errs);
                }
            },
            ')' => {
                self.add_token(TokenType::RightParen);
                proof {
                    assert(tokens_model(self.tokens@) =~= tokens_model(old(self).tokens@)
                        + step.toks);
                    assert(strings_model(self.errors@) =~= strings_model(old(self).errors@)
                        + step.errs);
                }
            },
            '{' => {
                self.add_token(TokenType::LeftBrace);
                proof {
                    assert(tokens_model(self.tokens@) =~= tokens_model(old(self).tokens@)
                        + step.toks);
                    assert(strings_model(self.errors@) =~= strings_model(old(self).errors@)
                        + step.errs);
                }
            },
            '}' => {
                self.add_token(TokenType::RightBrace);
                proof {
                    assert(tokens_model(self.tokens@) =~= tokens_model(old(self).tokens@)
                        + step.toks);
                    assert(strings_model(self.errors@) =~= strings_model(old(self).errors@)
                        + step.errs);
                }
            },
            ',' => {
                self.add_token(TokenType::Comma);
                proof {
                    assert(tokens_model(self.tokens@) =~= tokens_model(old(self).tokens@)
                        + step.toks);
                    assert(strings_model(self.errors@) =~= strings_model(old(self).errors@)
                        + step.errs);
                }
            },
            '.' => {
                self.add_token(TokenType::Dot);
                proof {
                    assert(tokens_model(self.tokens@) =~= tokens_model(old(self).tokens@)
                        + step.toks);
                    assert(strings_model(self.errors@) =~= strings_model(old(self).errors@)
                        + step.errs);
                }
            },
            '-' => {
                self.add_token(TokenType::Minus);
                proof {
                    assert(tokens_model(self.tokens@) =~= tokens_model(old(self).tokens@)
                        + step.toks);
                    assert(strings_model(self.errors@) =~= strings_model(old(self).errors@)
                        + step.errs);
                }
            },
            '+' => {
                self.add_token(TokenType::Plus);
                proof {
                    assert(tokens_model(self.tokens@) =~= tokens_model(old(self).tokens@)
                        + step.toks);
                    assert(strings_model(self.errors@) =~= strings_model(old(self).errors@)
                        + step.errs);
                }
            },
            '*' => {
                self.add_token(TokenType::Star);
                proof {
                    assert(tokens_model(self.tokens@) =~= tokens_model(old(self).tokens@)
                        + step.toks);
                    assert(strings_model(self.errors@) =~= strings_model(old(self).errors@)
                        + step.errs);
                }
            },
            ';' => {
                self.add_token(TokenType::Semicolon);
                proof {
                    assert(tokens_model(self.tokens@) =~= tokens_model(old(self).tokens@)
                        + step.toks);
                    assert(strings_model(self.errors@) =~= strings_model(old(self).errors@)
                        + step.errs);
                }
            },
            '=' => {
                let token_type = if self.match_char('=') {
                    TokenType::EqualEqual
                } else {
                    TokenType::Equal
                };
                self.add_token(token_type);
                proof {
                    assert(tokens_model(self.tokens@) =~= tokens_model(old(self).tokens@)
                        + step.toks);
                    assert(strings_model(self.errors@) =~= strings_model(old(self).errors@)
                        + step.errs);
                }
            },
            '!' => {
                let token_type = if self.match_char('=') {
                    TokenType::BangEqual
                } else {
                    TokenType::Bang
                };
                self.add_token(token_type);
                proof {
                    assert(tokens_model(self.tokens@) =~= tokens_model(old(self).tokens@)
                        + step.toks);
                    assert(strings_model(self.errors@) =~= strings_model(old(self).errors@)
                        + step.errs);
                }
            },
            '<' => {
                let token_type = if self.match_char('=') {
                    TokenType::LessEqual
                } else {
                    TokenType::Less
                };
                self.add_token(token_type);
                proof {
                    assert(tokens_model(self.tokens@) =~= tokens_model(old(self).tokens@)
                        + step.toks);
                    assert(strings_model(self.errors@) =~= strings_model(old(self).errors@)
                        + step.errs);
                }
            },
            '>' => {
                let token_type = if self.match_char('=') {
                    TokenType::GreaterEqual
                } else {
                    TokenType::Greater
                };
                self.add_token(token_type);
                proof {
                    assert(tokens_model(self.tokens@) =~= tokens_model(old(self).tokens@)
                        + step.toks);
                    assert(strings_model(self.errors@) =~= strings_model(old(self).errors@)
                        + step.errs);
                }
            },
            '/' => {
                if self.match_char('/') {
                    proof {
                        lemma_munch(src, self.current as int);
                    }
                    while self.peek() != '\n' && !self.is_at_end()
                        invariant
                            self.source == old(self).source,
                            self.source@ == src,
                            start0 + 2 <= (self.current as int) <= comment_end(src, start0 + 2),
                            comment_end(src, start0 + 2) <= src.len(),
                            comment_end(src, self.current as int) == comment_end(src, start0 + 2),
                            src.len() < usize::MAX,
                            self.tokens == old(self).tokens,
                            self.errors == old(self).errors,
                            self.line == old(self).line,
                            self.start == old(self).start,
                        decreases src.len() - self.current,
                    {
                        proof {
                            lemma_munch(src, self.current as int + 1);
                        }
                        self.advance();
                    }
                    proof {
                        lemma_munch(src, start0 + 2);
                        assert(self.current as int == comment_end(src, start0 + 2));
                        assert(tokens_model(self.tokens@) =~= tokens_model(old(self).tokens@)
                            + step.toks);
                        assert(strings_model(self.errors@) =~= strings_model(old(self).errors@)
                            + step.errs);
                    }
                } else {
                    self.add_token(TokenType::Slash);
                    proof {
                        assert(tokens_model(self.tokens@) =~= tokens_model(old(self).tokens@)
                            + step.toks);
                        assert(strings_model(self.errors@) =~= strings_model(old(self).errors@)
                            + step.errs);
                    }
                }
            },
            ' ' | '\r' | '\t' => {
                proof {
                    assert(tokens_model(self.tokens@) =~= tokens_model(old(self).tokens@)
                        + step.toks);
                    assert(strings_model(self.errors@) =~= strings_model(old(self).errors@)
                        + step.errs);
                }
            },
            '\n' => {
                self.line = self.line + 1;
                proof {
                    assert(tokens_model(self.tokens@) =~= tokens_model(old(self).tokens@)
                        + step.toks);
                    assert(strings_model(self.errors@) =~= strings_model(old(self).errors@)
                        + step.errs);
                }
            },
            '"' => {
                self.string();
                proof {
                    assert(tokens_model(self.tokens@) =~= tokens_model(old(self).tokens@)
                        + step.toks);
                    assert(strings_model(self.errors@) =~= strings_model(old(self).errors@)
                        + step.errs);
                }
            },
            _ => {
                if c >= '0' && c <= '9' {
                    self.number();
                    proof {
                        assert(tokens_model(self.tokens@) =~= tokens_model(old(self).tokens@)
                            + step.toks);
                        assert(strings_model(self.errors@) =~= strings_model(old(self).errors@)
                            + step.errs);
                    }
                } else if (c >= 'a' && c <= 'z') || (c >= 'A' && c <= 'Z') || c == '_' {
                    self.identifier();
                    proof {
                        assert(tokens_model(self.tokens@) =~= tokens_model(old(self).tokens@)
                            + step.toks);
                        assert(strings_model(self.errors@) =~= strings_model(old(self).errors@)
                            + step.errs);
                    }
                } else {
                    let mut message = String::from_str("Unexpected character: ");
                    let cs = self.source.as_str().substring_char(self.start, self.current);
                    message.append(cs);
                    message.append(".");
                    let ghost oes = self.errors@;
                    let d = error(self.line, message);
                    let ghost gd = d;
                    self.errors.push(d);
                    proof {
                        assert(src.subrange(start0, start0 + 1) =~= seq![src[start0]]);
                        crate::model::lemma_strings_model_push(oes, gd);
                        assert(tokens_model(self.tokens@) =~= tokens_model(old(self).tokens@)
                            + step.toks);
                        assert(strings_model(self.errors@) =~= strings_model(old(self).errors@)
                            + step.errs);
                    }
                }
            },
        }
    }

    /// Scan the rest of a string literal (the opening quote consumed):
    /// counts the newlines it spans, and reports an unterminated string.
    fn string(&mut self)
        requires
            old(self).start + 1 == old(self).current,
            (old(self).start as int) < old(self).source@.len(),
            old(self).source@[old(self).start as int] == '"',
            old(self).source@.len() < usize::MAX,
            old(self).line as int <= old(self).start + 1,
            1 <= old(self).line,
        ensures
            ({
                let step = spec_scan_token(
                    old(self).source@,
                    old(self).start as int,
                    old(self).line as int,
                );
                &&& tokens_model(final(self).tokens@) == tokens_model(old(self).tokens@)
                    + step.toks
                &&& strings_model(final(self).errors@) == strings_model(old(self).errors@)
                    + step.errs
                &&& final(self).current as int == step.next
                &&& final(self).line as int == step.line2
            }),
            final(self).source == old(self).source,
            final(self).start == old(self).start,
    {
        let ghost src = self.source@;
        let ghost start0 = self.start as int;
        let ghost line0 = self.line as int;
        let ghost qe = quote_end(src, start0 + 1);
        proof {
            lemma_munch(src, start0 + 1);
            lemma_count_nonneg(src, start0 + 1, qe);
            assert(count_newlines(src, start0 + 1, start0 + 1) == 0);
        }
        while self.peek() != '"' && !self.is_at_end()
            invariant
                self.source == old(self).source,
                self.source@ == src,
                self.start as int == start0,
                start0 + 1 <= (self.current as int) <= qe,
                qe == quote_end(src, start0 + 1),
                quote_end(src, self.current as int) == qe,
                src.len() < usize::MAX,
                qe <= src.len(),
                self.line as int == line0 + count_newlines(src, start0 + 1, self.current as int),
                line0 + count_newlines(src, start0 + 1, self.current as int) <= self.current as int
                    + 1,
                line0 >= 1,
                self.tokens == old(self).tokens,
                self.errors == old(self).errors,
            decreases src.len() - self.current,
        {
            proof {
                lemma_count_nonneg(src, start0 + 1, self.current as int);
                lemma_munch(src, self.current as int + 1);
            }
            if self.peek() == '\n' {
                self.line = self.line + 1;
            }
            self.advance();
        }
        proof {
            assert(self.current as int == qe);
        }
        if self.is_at_end() {
            let ghost oes = self.errors@;
            let d = error(self.line, String::from_str("Unterminated string."));
            let ghost gd = d;
            self.errors.push(d);
            proof {
                crate::model::lemma_strings_model_push(oes, gd);
                let step = spec_scan_token(src, start0, line0);
                assert(strings_model(self.errors@) =~= strings_model(old(self).errors@)
                    + step.errs);
                assert(tokens_model(self.tokens@) =~= tokens_model(old(self).tokens@) + step.toks);
            }
            return ;
        }
        self.advance();
        let value = self.source.as_str().substring_char(self.start + 1, self.current - 1).to_owned();
        let lexeme = self.source.as_str().substring_char(self.start, self.current).to_owned();
        let t = Token {
            token_type: TokenType::String,
            lexeme,
            literal: Some(LiteralType::String(value)),
            line: self.line,
        };
        let ghost gt = t;
        let ghost obs = self.tokens@;
        self.tokens.push(t);
        proof {
            crate::model::lemma_tokens_model_push(obs, gt);
            let step = spec_scan_token(src, start0, line0);
            assert(tokens_model(self.tokens@) =~= tokens_model(old(self).tokens@) + step.toks);
            assert(strings_model(self.errors@) =~= strings_model(old(self).errors@) + step.errs);
        }
    }

    /// Scan the rest of a numeral (its first digit consumed): digits, then
    /// at most one point followed by more digits.
    fn number(&mut self)
        requires
            old(self).start + 1 == old(self).current,
            (old(self).start as int) < old(self).source@.len(),
            spec_is_digit(old(self).source@[old(self).start as int]),
            old(self).source@.len() < usize::MAX,
        ensures
            ({
                let step = spec_scan_token(
                    old(self).source@,
                    old(self).start as int,
                    old(self).line as int,
                );
                &&& tokens_model(final(self).tokens@) == tokens_model(old(self).tokens@)
                    + step.toks
                &&& strings_model(final(self).errors@) == strings_model(old(self).errors@)
                    + step.errs
                &&& final(self).current as int == step.next
            }),
            final(self).source == old(self).source,
            final(self).start == old(self).start,
            final(self).line == old(self).line,
            final(self).errors == old(self).errors,
    {
        let ghost src = self.source@;
        let ghost start0 = self.start as int;
        let ghost e1 = digits_end(src, start0);
        proof {
            lemma_munch(src, start0);
            lemma_munch(src, start0 + 1);
        }
        while self.peek() >= '0' && self.peek() <= '9'
            invariant
                self.source == old(self).source,
                self.source@ == src,
                self.start as int == start0,
                start0 + 1 <= (self.current as int) <= e1,
                e1 == digits_end(src, start0),
                digits_end(src, self.current as int) == e1,
                e1 <= src.len(),
                src.len() < usize::MAX,
                self.tokens == old(self).tokens,
                self.errors == old(self).errors,
                self.line == old(self).line,
            decreases src.len() - self.current,
        {
            proof {
                lemma_munch(src, self.current as int + 1);
            }
            self.advance();
        }
        proof {
            assert(self.current as int == e1);
        }
        let ghost e2 = if e1 + 1 < src.len() && src[e1] == '.' && spec_is_digit(src[e1 + 1]) {
            digits_end(src, e1 + 1)
        } else {
            e1
        };
        if self.peek() == '.' && self.peek_next() >= '0' && self.peek_next() <= '9' {
            self.advance();
            proof {
                lemma_munch(src, e1 + 1);
            }
            while self.peek() >= '0' && self.peek() <= '9'
                invariant
                    self.source == old(self).source,
                    self.source@ == src,
                    self.start as int == start0,
                    e1 + 1 <= (self.current as int) <= e2,
                    e2 == digits_end(src, e1 + 1),
                    digits_end(src, self.current as int) == e2,
                    e2 <= src.len(),
                    src.len() < usize::MAX,
                    self.tokens == old(self).tokens,
                    self.errors == old(self).errors,
                    self.line == old(self).line,
                decreases src.len() - self.current,
            {
                proof {
                    lemma_munch(src, self.current as int + 1);
                }
                self.advance();
            }
            proof {
                assert(self.current as int == e2);
            }
        }
        proof {
            assert(self.current as int == e2);
            lemma_munch(src, start0);
            if e1 + 1 <= src.len() {
                lemma_munch(src, e1 + 1);
            }
            let lex = src.subrange(start0, e2);
            assert(is_number_lexeme(lex)) by {
                assert(lex.len() >= 1);
                assert(lex[0] == src[start0]);
                assert forall|j: int| 0 <= j < lex.len() implies ('0' <= #[trigger] lex[j] <= '9'
                    || lex[j] == '.') by {
                    assert(lex[j] == src[start0 + j]);
                    if start0 + j < e1 {
                    } else if start0 + j == e1 && e2 != e1 {
                        assert(src[e1] == '.');
                    } else {
                    }
                }
                assert(lex[lex.len() - 1] == src[e2 - 1]);
                if e2 != e1 {
                    assert(spec_is_digit(src[e1 + 1]));
                    assert(e2 > e1 + 1);
                }
                assert forall|i: int, j: int|
                    0 <= i < j < lex.len() && #[trigger] lex[i] == '.' && #[trigger] lex[j]
                        == '.' implies false by {
                    assert(lex[i] == src[start0 + i]);
                    assert(lex[j] == src[start0 + j]);
                }
            }
        }
        let lexeme = self.source.as_str().substring_char(self.start, self.current).to_owned();
        let bits = num_parse(lexeme.as_str());
        let t = Token {
            token_type: TokenType::Number,
            lexeme,
            literal: Some(LiteralType::Number(bits)),
            line: self.line,
        };
        let ghost gt = t;
        let ghost obs = self.tokens@;
        self.tokens.push(t);
        proof {
            crate::model::lemma_tokens_model_push(obs, gt);
            let step = spec_scan_token(src, start0, old(self).line as int);
            assert(tokens_model(self.tokens@) =~= tokens_model(old(self).tokens@) + step.toks);
            assert(strings_model(self.errors@) =~= strings_model(old(self).errors@) + step.errs);
        }
    }

    /// Scan the rest of an identifier (its first character consumed) and
    /// classify it against the keyword table.
    fn identifier(&mut self)
        requires
            old(self).start + 1 == old(self).current,
            (old(self).start as int) < old(self).source@.len(),
            spec_is_alpha(old(self).source@[old(self).start as int]),
            old(self).source@.len() < usize::MAX,
        ensures
            ({
                let step = spec_scan_token(
                    old(self).source@,
                    old(self).start as int,
                    old(self).line as int,
                );
                &&& tokens_model(final(self).tokens@) == tokens_model(old(self).tokens@)
                    + step.toks
                &&& strings_model(final(self).errors@) == strings_model(old(self).errors@)
                    + step.errs
                &&& final(self).current as int == step.next
            }),
            final(self).source == old(self).source,
            final(self).start == old(self).start,
            final(self).line == old(self).line,
            final(self).errors == old(self).errors,
    {
        let ghost src = self.source@;
        let ghost start0 = self.start as int;
        let ghost ie = ident_end(src, start0);
        proof {
            lemma_munch(src, start0);
            lemma_munch(src, start0 + 1);
        }
        while (self.peek() >= 'a' && self.peek() <= 'z') || (self.peek() >= 'A' && self.peek()
            <= 'Z') || self.peek() == '_' || (self.peek() >= '0' && self.peek() <= '9')
            invariant
                self.source == old(self).source,
                self.source@ == src,
                self.start as int == start0,
                start0 + 1 <= (self.current as int) <= ie,
                ie == ident_end(src, start0),
                ident_end(src, self.current as int) == ie,
                ie <= src.len(),
                src.len() < usize::MAX,
                self.tokens == old(self).tokens,
                self.errors == old(self).errors,
                self.line == old(self).line,
            decreases src.len() - self.current,
        {
            proof {
                lemma_munch(src, self.current as int + 1);
            }
            self.advance();
        }
        proof {
            assert(self.current as int == ie);
        }
        let lexeme = self.source.as_str().substring_char(self.start, self.current).to_owned();
        let kind = keyword_kind(&lexeme);
        let t = Token { token_type: kind, lexeme, literal: None, line: self.line };
        let ghost gt = t;
        let ghost obs = self.tokens@;
        self.tokens.push(t);
        proof {
            crate::model::lemma_tokens_model_push(obs, gt);
            let step = spec_scan_token(src, start0, old(self).line as int);
            assert(tokens_model(self.tokens@) =~= tokens_model(old(self).tokens@) + step.toks);
            assert(strings_model(self.errors@) =~= strings_model(old(self).errors@) + step.errs);
        }
    }

    /// Scan the whole source: the token list then holds exactly the tokens
    /// of the source, ending in the EOF token, and the diagnostics hold one
    /// line per lexical error.
    pub fn scan_tokens(&mut self)
        requires
            old(self).current == 0,
            old(self).line == 1,
            old(self).tokens@.len() == 0,
            old(self).errors@.len() == 0,
            old(self).source@.len() < usize::MAX,
        ensures
            tokens_model(final(self).tokens@) == spec_scan_tokens(old(self).source@).toks,
            strings_model(final(self).errors@) == spec_scan_tokens(old(self).source@).errs,
            final(self).source == old(self).source,
    {
        let ghost src = self.source@;
        let ghost full = spec_scan(src, 0, 1);
        proof {
            assert(tokens_model(self.tokens@) =~= Seq::<GToken>::empty());
            assert(strings_model(self.errors@) =~= Seq::<Seq<char>>::empty());
        }
        while !self.is_at_end()
            invariant
                self.source == old(self).source,
                self.source@ == src,
                src.len() < usize::MAX,
                0 <= (self.current as int) <= src.len(),
                self.line as int <= self.current + 1,
                1 <= self.line,
                full == spec_scan(src, 0, 1),
                full.toks =~= tokens_model(self.tokens@) + spec_scan(
                    src,
                    self.current as int,
                    self.line as int,
                ).toks,
                full.errs =~= strings_model(self.errors@) + spec_scan(
                    src,
                    self.current as int,
                    self.line as int,
                ).errs,
                full.line == spec_scan(src, self.current as int, self.line as int).line,
            decreases src.len() - self.current,
        {
            self.start = self.current;
            let ghost cur0 = self.current as int;
            let ghost line0 = self.line as int;
            self.scan_token();
            proof {
                let step = spec_scan_token(src, cur0, line0);
                let restold = spec_scan(src, cur0, line0);
                let restnew = spec_scan(src, self.current as int, self.line as int);
                lemma_scan_token_step(src, cur0, line0);
                assert(restold.toks == step.toks + restnew.toks);
                assert(restold.errs == step.errs + restnew.errs);
                assert(full.toks =~= tokens_model(self.tokens@) + restnew.toks);
                assert(full.errs =~= strings_model(self.errors@) + restnew.errs);
            }
        }
        proof {
            assert(spec_scan(src, self.current as int, self.line as int).toks
                =~= Seq::<GToken>::empty());
            assert(spec_scan(src, self.current as int, self.line as int).errs =~= Seq::<
                Seq<char>,
            >::empty());
            assert(full.toks =~= tokens_model(self.tokens@));
            assert(full.errs =~= strings_model(self.errors@));
            assert(full.line == self.line as int);
        }
        let t = Token {
            token_type: TokenType::EOF,
            lexeme: String::new(),
            literal: None,
            line: self.line,
        };
        let ghost gt = t;
        let ghost obs = self.tokens@;
        self.tokens.push(t);
        proof {
            crate::model::lemma_tokens_model_push(obs, gt);
            assert(tokens_model(self.tokens@) =~= spec_scan_tokens(src).toks);
        }
    }
}

} // verus!
