//! Formula text → expression tree.
//!
//! The tokeniser recognises the five arithmetic operators, brackets,
//! decimal numeric literals, alphanumeric/underscore words, `#` line
//! comments and whitespace (both discarded).  The parser is an
//! operator-precedence (Pratt) parser: `* / %` bind at 60, `+ -` at 50,
//! and prefix operators absorb their operand at 100, tighter than any
//! infix operator.  Both passes are specified exactly: [`spec_tokenize`]
//! and [`spec_expr`] state the one result every input has.

use vstd::prelude::*;
use vstd::string::StrSliceExecFns;

use crate::error::{ParseError, ParseResult};
use crate::fixed::{valid_amp, AMP_MAX, SCALE};
use crate::text::str_eq;

verus! {

/// Represents an AST prefix operator.
#[derive(Debug, PartialEq, Eq, Structural, Copy, Clone)]
pub enum PrefixOp {
    Negate,
    Abs,
    Sgn,
    Sin,
    Cos,
}

/// Represents an AST infix operator.
#[derive(Debug, PartialEq, Eq, Structural, Copy, Clone)]
pub enum InfixOp {
    Add,
    Sub,
    Mul,
    Div,
    Mod,
}

/// Represents an AST expression.  A numeric literal is held as a
/// fixed-point amplitude.
#[derive(Debug)]
pub enum Expression {
    Identifier(String),
    Number(i64),
    Prefix(PrefixOp, Box<Expression>),
    Infix(Box<Expression>, InfixOp, Box<Expression>),
}

/// The mathematical value of an [`Expression`]: identifiers as character
/// sequences, literals as unbounded integers.
pub enum ExprV {
    Identifier(Seq<char>),
    Number(int),
    Prefix(PrefixOp, Box<ExprV>),
    Infix(Box<ExprV>, InfixOp, Box<ExprV>),
}

/// The value of an expression tree.
pub open spec fn expr_view(e: &Expression) -> ExprV
    decreases e,
{
    match e {
        Expression::Identifier(s) => ExprV::Identifier(s@),
        Expression::Number(n) => ExprV::Number(*n as int),
        Expression::Prefix(op, arg) => ExprV::Prefix(*op, Box::new(expr_view(arg))),
        Expression::Infix(lhs, op, rhs) => ExprV::Infix(
            Box::new(expr_view(lhs)),
            *op,
            Box::new(expr_view(rhs)),
        ),
    }
}

/// Every literal in the tree is a representable amplitude.
pub open spec fn expr_wf(e: ExprV) -> bool
    decreases e,
{
    match e {
        ExprV::Identifier(_) => true,
        ExprV::Number(n) => valid_amp(n),
        ExprV::Prefix(_, arg) => expr_wf(*arg),
        ExprV::Infix(lhs, _, rhs) => expr_wf(*lhs) && expr_wf(*rhs),
    }
}

impl Expression {
    /// A reference to an identifier.
    pub fn identifier(s: String) -> (r: Self)
        ensures
            expr_view(&r) == ExprV::Identifier(s@),
    {
        Expression::Identifier(s)
    }

    /// A constant numeric value.
    pub fn constant_num(n: i64) -> (r: Self)
        ensures
            expr_view(&r) == ExprV::Number(n as int),
    {
        Expression::Number(n)
    }

    /// The application of a prefix unary operator to another expression.
    pub fn prefix(op: PrefixOp, expr: Expression) -> (r: Self)
        ensures
            expr_view(&r) == ExprV::Prefix(op, Box::new(expr_view(&expr))),
    {
        Expression::Prefix(op, Box::new(expr))
    }

    /// The application of an infix binary operator to two operands.
    pub fn infix(lhs: Expression, op: InfixOp, rhs: Expression) -> (r: Self)
        ensures
            expr_view(&r) == ExprV::Infix(
                Box::new(expr_view(&lhs)),
                op,
                Box::new(expr_view(&rhs)),
            ),
    {
        Expression::Infix(Box::new(lhs), op, Box::new(rhs))
    }
}

/// A single token from the input source buffer.
#[derive(Debug)]
pub enum Token {
    /// A string of word characters: a keyword or an identifier.
    Word(String),
    /// A numeric literal, as a fixed-point amplitude.
    Number(i64),
    Plus,
    Minus,
    Star,
    Slash,
    Percent,
    OpenBracket,
    CloseBracket,
    /// An unrecognised character.
    Unknown(char),
}

/// The mathematical value of a [`Token`].
pub enum TokenV {
    Word(Seq<char>),
    Number(int),
    Plus,
    Minus,
    Star,
    Slash,
    Percent,
    OpenBracket,
    CloseBracket,
    Unknown(char),
}

/// The value of a token.
pub open spec fn tok_view(t: &Token) -> TokenV {
    match t {
        Token::Word(s) => TokenV::Word(s@),
        Token::Number(n) => TokenV::Number(*n as int),
        Token::Plus => TokenV::Plus,
        Token::Minus => TokenV::Minus,
        Token::Star => TokenV::Star,
        Token::Slash => TokenV::Slash,
        Token::Percent => TokenV::Percent,
        Token::OpenBracket => TokenV::OpenBracket,
        Token::CloseBracket => TokenV::CloseBracket,
        Token::Unknown(c) => TokenV::Unknown(*c),
    }
}

/// A numeric-literal token holds a representable amplitude.
pub open spec fn tok_wf(t: TokenV) -> bool {
    match t {
        TokenV::Number(n) => valid_amp(n),
        _ => true,
    }
}

/// A decimal digit.
pub open spec fn is_digit(c: char) -> bool {
    48 <= c as u32 && c as u32 <= 57
}

/// The value of a decimal digit.
pub open spec fn digit_val(c: char) -> int {
    c as u32 - 48
}

/// A character that may open a word: a letter or an underscore.
pub open spec fn is_word_start(c: char) -> bool {
    (65 <= c as u32 && c as u32 <= 90) || (97 <= c as u32 && c as u32 <= 122) || c as u32 == 95
}

/// A character that may continue a word.
pub open spec fn is_word_char(c: char) -> bool {
    is_word_start(c) || is_digit(c)
}

/// Whitespace, discarded between tokens.
pub open spec fn is_space(c: char) -> bool {
    c == ' ' || c == '\t' || c == '\n' || c == '\r'
}

/// A character a numeric literal may continue with.
pub open spec fn is_num_char(c: char) -> bool {
    is_digit(c) || c == '.'
}

/// Decide [`is_digit`].
fn digit_exec(c: char) -> (r: bool)
    ensures
        r == is_digit(c),
{
    let cv = c as u32;
    48 <= cv && cv <= 57
}

/// Decide [`is_word_char`].
fn word_char_exec(c: char) -> (r: bool)
    ensures
        r == is_word_char(c),
{
    let cv = c as u32;
    (65 <= cv && cv <= 90) || (97 <= cv && cv <= 122) || cv == 95 || (48 <= cv && cv <= 57)
}

/// Decide [`is_space`].
fn space_exec(c: char) -> (r: bool)
    ensures
        r == is_space(c),
{
    let cv = c as u32;
    cv == 32 || cv == 9 || cv == 10 || cv == 13
}

/// Decide [`is_num_char`].
fn num_char_exec(c: char) -> (r: bool)
    ensures
        r == is_num_char(c),
{
    let cv = c as u32;
    (48 <= cv && cv <= 57) || cv == 46
}

/// A digit run reaches exactly to [`end_digits`].
pub proof fn lemma_end_digits_run(s: Seq<char>, i: int)
    requires
        0 <= i <= s.len(),
    ensures
        i <= end_digits(s, i) <= s.len(),
        forall|j: int| i <= j < end_digits(s, i) ==> is_digit(s[j]),
    decreases s.len() - i,
{
    if i == s.len() {
    } else if is_digit(s[i]) {
        lemma_end_digits_run(s, i + 1);
    }
}

/// A digit run never passes the end of the numeric literal it sits in.
pub proof fn lemma_digits_within_number(s: Seq<char>, i: int)
    requires
        0 <= i <= s.len(),
    ensures
        end_digits(s, i) <= end_number(s, i),
        i <= end_number(s, i) <= s.len(),
    decreases s.len() - i,
{
    if i == s.len() {
    } else if is_num_char(s[i]) {
        lemma_digits_within_number(s, i + 1);
    }
}

/// First position at or after `i` that is not a digit.
pub open spec fn end_digits(s: Seq<char>, i: int) -> int
    decreases s.len() - i,
    when 0 <= i <= s.len()
{
    if i == s.len() {
        i
    } else if is_digit(s[i]) {
        end_digits(s, i + 1)
    } else {
        i
    }
}

/// First position at or after `i` that cannot continue a numeric literal.
pub open spec fn end_number(s: Seq<char>, i: int) -> int
    decreases s.len() - i,
    when 0 <= i <= s.len()
{
    if i == s.len() {
        i
    } else if is_num_char(s[i]) {
        end_number(s, i + 1)
    } else {
        i
    }
}

/// First position at or after `i` that cannot continue a word.
pub open spec fn end_word(s: Seq<char>, i: int) -> int
    decreases s.len() - i,
    when 0 <= i <= s.len()
{
    if i == s.len() {
        i
    } else if is_word_char(s[i]) {
        end_word(s, i + 1)
    } else {
        i
    }
}

/// First position at or after `i` that is not whitespace.
pub open spec fn end_space(s: Seq<char>, i: int) -> int
    decreases s.len() - i,
    when 0 <= i <= s.len()
{
    if i == s.len() {
        i
    } else if is_space(s[i]) {
        end_space(s, i + 1)
    } else {
        i
    }
}

/// First position at or after `i` that ends a line comment.
pub open spec fn end_comment(s: Seq<char>, i: int) -> int
    decreases s.len() - i,
    when 0 <= i <= s.len()
{
    if i == s.len() {
        i
    } else if s[i] != '\n' {
        end_comment(s, i + 1)
    } else {
        i
    }
}

/// Largest integer part a literal accumulates before clamping; the final
/// value still saturates at `AMP_MAX`.
pub const LIT_INT_CAP: u64 = 9_000_000_000_000;

/// One step of decimal accumulation, clamped so it stays representable.
pub open spec fn acc_digit(acc: int, d: int) -> int {
    if 10 * acc + d > LIT_INT_CAP {
        LIT_INT_CAP as int
    } else {
        10 * acc + d
    }
}

/// Value of the digits in `s[i..end]`, accumulated onto `acc`.
pub open spec fn int_digits_val(s: Seq<char>, i: int, end: int, acc: int) -> int
    decreases end - i,
    when 0 <= i <= end <= s.len()
{
    if i == end {
        acc
    } else {
        int_digits_val(s, i + 1, end, acc_digit(acc, digit_val(s[i])))
    }
}

/// Value of the fractional digits in `s[i..end]` at weight `w`; digits
/// beyond the fixed-point resolution are truncated.
pub open spec fn frac_digits_val(s: Seq<char>, i: int, end: int, w: int) -> int
    decreases end - i,
    when 0 <= i <= end <= s.len()
{
    if i == end || w == 0 {
        0
    } else {
        digit_val(s[i]) * w + frac_digits_val(s, i + 1, end, w / 10)
    }
}

/// Clamp a non-negative literal value to the representable range.
pub open spec fn lit_clamp(v: int) -> int {
    if v > AMP_MAX {
        AMP_MAX as int
    } else {
        v
    }
}

/// The token and consumed length of a numeric literal opening at `s[0]`.
/// A literal with a second decimal point is not a number; it becomes an
/// unknown token, which the parser later rejects.
pub open spec fn number_spec(s: Seq<char>) -> (TokenV, int)
    recommends
        s.len() > 0,
{
    let e = end_number(s, 1);
    let d1 = end_digits(s, 1);
    if d1 == e {
        (TokenV::Number(lit_clamp(int_digits_val(s, 0, d1, 0) * SCALE)), e)
    } else {
        let e2 = end_digits(s, d1 + 1);
        if e2 == e {
            (
                TokenV::Number(
                    lit_clamp(
                        int_digits_val(s, 0, d1, 0) * SCALE + frac_digits_val(
                            s,
                            d1 + 1,
                            e2,
                            100_000,
                        ),
                    ),
                ),
                e,
            )
        } else {
            (TokenV::Unknown('.'), e)
        }
    }
}

/// The next lexical match at the head of `s`: the token, if the lexeme is
/// not trivia, and how many characters it spans.
pub open spec fn spec_next_token(s: Seq<char>) -> (Option<TokenV>, int)
    recommends
        s.len() > 0,
{
    let c = s[0];
    if c == '+' {
        (Some(TokenV::Plus), 1)
    } else if c == '-' {
        (Some(TokenV::Minus), 1)
    } else if c == '*' {
        (Some(TokenV::Star), 1)
    } else if c == '/' {
        (Some(TokenV::Slash), 1)
    } else if c == '%' {
        (Some(TokenV::Percent), 1)
    } else if c == '(' {
        (Some(TokenV::OpenBracket), 1)
    } else if c == ')' {
        (Some(TokenV::CloseBracket), 1)
    } else if c == '#' {
        (None, end_comment(s, 1))
    } else if is_digit(c) {
        let (t, e) = number_spec(s);
        (Some(t), e)
    } else if is_word_start(c) {
        (Some(TokenV::Word(s.subrange(0, end_word(s, 1)))), end_word(s, 1))
    } else if is_space(c) {
        (None, end_space(s, 1))
    } else {
        (Some(TokenV::Unknown(c)), 1)
    }
}

/// The full token stream of a source text, trivia discarded.
pub open spec fn spec_tokenize(s: Seq<char>) -> Seq<TokenV>
    decreases s.len(),
{
    if s.len() == 0 {
        Seq::empty()
    } else {
        let (t, used) = spec_next_token(s);
        let u = if 1 <= used <= s.len() {
            used
        } else {
            s.len() as int
        };
        match t {
            None => spec_tokenize(s.skip(u)),
            Some(tok) => seq![tok] + spec_tokenize(s.skip(u)),
        }
    }
}

/// Runs a lexical state machine over an input buffer, producing one token
/// per lexeme.
pub struct Tokeniser<'a> {
    buff: &'a str,
    idx: usize,
}

impl<'a> Tokeniser<'a> {
    /// The whole source text.
    pub closed spec fn src(&self) -> Seq<char> {
        self.buff@
    }

    /// The text not yet consumed.
    pub closed spec fn remaining(&self) -> Seq<char> {
        self.buff@.skip(self.idx as int)
    }

    /// The cursor never passes the end of the buffer.
    pub closed spec fn wf(&self) -> bool {
        self.idx <= self.buff@.len()
    }

    /// Creates a new tokeniser over the given string slice.
    pub fn new_from_str(source: &'a str) -> (t: Tokeniser<'a>)
        ensures
            t.wf(),
            t.src() == source@,
            t.remaining() == source@,
    {
        proof {
            assert(source@.skip(0) =~= source@);
        }
        Tokeniser { buff: source, idx: 0 }
    }

    /// The next non-trivia token, or nothing at the end of the buffer.
    pub fn next(&mut self) -> (r: Option<Token>)
        requires
            old(self).wf(),
        ensures
            final(self).wf(),
            final(self).src() == old(self).src(),
            match r {
                Some(t) => tok_wf(tok_view(&t)) && final(self).remaining().len() < old(
                    self,
                ).remaining().len() && spec_tokenize(old(self).remaining()) == seq![tok_view(&t)]
                    + spec_tokenize(final(self).remaining()),
                None => spec_tokenize(old(self).remaining()) =~= Seq::<TokenV>::empty()
                    && final(self).remaining().len() == 0,
            },
    {
        let slen = self.buff.unicode_len();
        loop
            invariant
                self.wf(),
                self.buff == old(self).buff,
                slen == self.buff@.len(),
                old(self).idx <= self.idx,
                spec_tokenize(old(self).remaining()) == spec_tokenize(self.remaining()),
            decreases slen - self.idx,
        {
            if self.idx >= slen {
                return None;
            }
            let ghost rem = self.remaining();
            let ghost su = spec_next_token(rem);
            proof {
                assert(rem[0] == self.buff@[self.idx as int]);
            }
            let c = self.buff.get_char(self.idx);
            let cv = c as u32;
            if cv == 43 {
                self.idx = self.idx + 1;
                proof {
                    assert(self.remaining() =~= rem.skip(1));
                }
                return Some(Token::Plus);
            } else if cv == 45 {
                self.idx = self.idx + 1;
                proof {
                    assert(self.remaining() =~= rem.skip(1));
                }
                return Some(Token::Minus);
            } else if cv == 42 {
                self.idx = self.idx + 1;
                proof {
                    assert(self.remaining() =~= rem.skip(1));
                }
                return Some(Token::Star);
            } else if cv == 47 {
                self.idx = self.idx + 1;
                proof {
                    assert(self.remaining() =~= rem.skip(1));
                }
                return Some(Token::Slash);
            } else if cv == 37 {
                self.idx = self.idx + 1;
                proof {
                    assert(self.remaining() =~= rem.skip(1));
                }
                return Some(Token::Percent);
            } else if cv == 40 {
                self.idx = self.idx + 1;
                proof {
                    assert(self.remaining() =~= rem.skip(1));
                }
                return Some(Token::OpenBracket);
            } else if cv == 41 {
                self.idx = self.idx + 1;
                proof {
                    assert(self.remaining() =~= rem.skip(1));
                }
                return Some(Token::CloseBracket);
            } else if cv == 35 {
                // line comment: discard until the end of the line
                let e = self.scan_comment(self.idx + 1);
                proof {
                    assert(end_comment(rem, 1) == e - self.idx);
                    assert(self.buff@.skip(e as int) =~= rem.skip(e - self.idx as int));
                }
                self.idx = e;
            } else if 48 <= cv && cv <= 57 {
                let t = self.next_number();
                proof {
                    let (tv, used) = spec_next_token(rem);
                    assert(spec_tokenize(rem) == seq![tok_view(&t)] + spec_tokenize(
                        self.remaining(),
                    ));
                }
                return Some(t);
            } else if (65 <= cv && cv <= 90) || (97 <= cv && cv <= 122) || cv == 95 {
                let e = self.scan_word(self.idx + 1);
                let w = self.buff.substring_char(self.idx, e);
                let ghost i0 = self.idx as int;
                self.idx = e;
                proof {
                    assert(end_word(rem, 1) == e - i0);
                    assert(w@ =~= rem.subrange(0, e - i0));
                    assert(self.remaining() =~= rem.skip(e - i0));
                }
                return Some(Token::Word(w.to_owned()));
            } else if cv == 32 || cv == 9 || cv == 10 || cv == 13 {
                let e = self.scan_space(self.idx + 1);
                proof {
                    assert(end_space(rem, 1) == e - self.idx);
                    assert(self.buff@.skip(e as int) =~= rem.skip(e - self.idx as int));
                }
                self.idx = e;
            } else {
                self.idx = self.idx + 1;
                proof {
                    assert(self.remaining() =~= rem.skip(1));
                }
                return Some(Token::Unknown(c));
            }
        }
    }

    /// Scan to the end of a line comment.
    fn scan_comment(&self, from: usize) -> (e: usize)
        requires
            self.wf(),
            self.idx < from <= self.buff@.len(),
        ensures
            e - self.idx == end_comment(self.remaining(), from - self.idx),
            from <= e <= self.buff@.len(),
    {
        let slen = self.buff.unicode_len();
        let mut j = from;
        while j < slen && (self.buff.get_char(j) as u32) != 10
            invariant
                self.wf(),
                from <= j <= slen,
                slen == self.buff@.len(),
                self.idx < from,
                end_comment(self.remaining(), from - self.idx) == end_comment(
                    self.remaining(),
                    j - self.idx,
                ),
            decreases slen - j,
        {
            proof {
                assert(self.remaining()[j - self.idx] == self.buff@[j as int]);
            }
            j = j + 1;
        }
        proof {
            if j < slen {
                assert(self.remaining()[j - self.idx] == self.buff@[j as int]);
            }
        }
        j
    }

    /// Scan to the end of a word.
    fn scan_word(&self, from: usize) -> (e: usize)
        requires
            self.wf(),
            self.idx < from <= self.buff@.len(),
        ensures
            e - self.idx == end_word(self.remaining(), from - self.idx),
            from <= e <= self.buff@.len(),
    {
        let slen = self.buff.unicode_len();
        let mut j = from;
        while j < slen && word_char_exec(self.buff.get_char(j))
            invariant
                self.wf(),
                from <= j <= slen,
                slen == self.buff@.len(),
                self.idx < from,
                end_word(self.remaining(), from - self.idx) == end_word(
                    self.remaining(),
                    j - self.idx,
                ),
            decreases slen - j,
        {
            proof {
                assert(self.remaining()[j - self.idx] == self.buff@[j as int]);
            }
            j = j + 1;
        }
        proof {
            if j < slen {
                assert(self.remaining()[j - self.idx] == self.buff@[j as int]);
            }
        }
        j
    }

    /// Scan to the end of a whitespace run.
    fn scan_space(&self, from: usize) -> (e: usize)
        requires
            self.wf(),
            self.idx < from <= self.buff@.len(),
        ensures
            e - self.idx == end_space(self.remaining(), from - self.idx),
            from <= e <= self.buff@.len(),
    {
        let slen = self.buff.unicode_len();
        let mut j = from;
        while j < slen && space_exec(self.buff.get_char(j))
            invariant
                self.wf(),
                from <= j <= slen,
                slen == self.buff@.len(),
                self.idx < from,
                end_space(self.remaining(), from - self.idx) == end_space(
                    self.remaining(),
                    j - self.idx,
                ),
            decreases slen - j,
        {
            proof {
                assert(self.remaining()[j - self.idx] == self.buff@[j as int]);
            }
            j = j + 1;
        }
        proof {
            if j < slen {
                assert(self.remaining()[j - self.idx] == self.buff@[j as int]);
            }
        }
        j
    }

    /// Scan to the end of a digit run.
    fn scan_digits(&self, from: usize) -> (e: usize)
        requires
            self.wf(),
            self.idx < from <= self.buff@.len(),
        ensures
            e - self.idx == end_digits(self.remaining(), from - self.idx),
            from <= e <= self.buff@.len(),
    {
        let slen = self.buff.unicode_len();
        let mut j = from;
        while j < slen && digit_exec(self.buff.get_char(j))
            invariant
                self.wf(),
                from <= j <= slen,
                slen == self.buff@.len(),
                self.idx < from,
                end_digits(self.remaining(), from - self.idx) == end_digits(
                    self.remaining(),
                    j - self.idx,
                ),
            decreases slen - j,
        {
            proof {
                assert(self.remaining()[j - self.idx] == self.buff@[j as int]);
            }
            j = j + 1;
        }
        proof {
            if j < slen {
                assert(self.remaining()[j - self.idx] == self.buff@[j as int]);
            }
        }
        j
    }

    /// Scan to the end of a numeric literal (digits and decimal points).
    fn scan_number(&self, from: usize) -> (e: usize)
        requires
            self.wf(),
            self.idx < from <= self.buff@.len(),
        ensures
            e - self.idx == end_number(self.remaining(), from - self.idx),
            from <= e <= self.buff@.len(),
    {
        let slen = self.buff.unicode_len();
        let mut j = from;
        while j < slen && num_char_exec(self.buff.get_char(j))
            invariant
                self.wf(),
                from <= j <= slen,
                slen == self.buff@.len(),
                self.idx < from,
                end_number(self.remaining(), from - self.idx) == end_number(
                    self.remaining(),
                    j - self.idx,
                ),
            decreases slen - j,
        {
            proof {
                assert(self.remaining()[j - self.idx] == self.buff@[j as int]);
            }
            j = j + 1;
        }
        proof {
            if j < slen {
                assert(self.remaining()[j - self.idx] == self.buff@[j as int]);
            }
        }
        j
    }

    /// Read the numeric literal opening at the cursor and step past it.
    fn next_number(&mut self) -> (t: Token)
        requires
            old(self).wf(),
            old(self).idx < old(self).src().len(),
            old(self).src().len() <= usize::MAX,
            is_digit(old(self).remaining()[0]),
        ensures
            final(self).wf(),
            final(self).src() == old(self).src(),
            tok_wf(tok_view(&t)),
            ({
                let (tv, used) = spec_next_token(old(self).remaining());
                let fin = final(self).remaining();
                tv == Some(tok_view(&t)) && 1 <= used <= old(self).remaining().len() && fin == old(
                    self,
                ).remaining().skip(used)
            }),
    {
        let ghost rem = self.remaining();
        let i0 = self.idx;
        let e = self.scan_number(i0 + 1);
        let d1 = self.scan_digits(i0 + 1);
        proof {
            lemma_end_digits_run(rem, 1);
        }
        // accumulate the integer part
        let mut acc: u64 = 0;
        let mut k = i0;
        while k < d1
            invariant
                self.wf(),
                i0 == self.idx,
                i0 <= k <= d1 <= self.buff@.len(),
                i0 < d1,
                rem == self.remaining(),
                is_digit(rem[0]),
                d1 - i0 == end_digits(rem, 1),
                acc <= LIT_INT_CAP,
                forall|m: int| 1 <= m < d1 - i0 ==> is_digit(#[trigger] rem[m]),
                int_digits_val(rem, 0, d1 - i0, 0) == int_digits_val(
                    rem,
                    k - i0,
                    d1 - i0,
                    acc as int,
                ),
            decreases d1 - k,
        {
            proof {
                assert(rem[k - i0] == self.buff@[k as int]);
            }
            let c = self.buff.get_char(k);
            let d: u64 = (c as u32 as u64) - 48;
            acc = if 10 * acc + d > LIT_INT_CAP {
                LIT_INT_CAP
            } else {
                10 * acc + d
            };
            k = k + 1;
        }
        if d1 == e {
            self.idx = e;
            proof {
                assert(self.remaining() =~= rem.skip(e - i0));
            }
            let v: u64 = acc * 1_000_000;
            let n: i64 = if v > AMP_MAX as u64 {
                AMP_MAX
            } else {
                v as i64
            };
            return Token::Number(n);
        }
        proof {
            lemma_digits_within_number(rem, 1);
        }
        let e2 = self.scan_digits(d1 + 1);
        if e2 != e {
            self.idx = e;
            proof {
                assert(self.remaining() =~= rem.skip(e - i0));
            }
            return Token::Unknown('.');
        }
        proof {
            lemma_end_digits_run(rem, d1 + 1 - i0);
        }
        // accumulate the fractional part, at most six digits deep
        let mut frac: u64 = 0;
        let mut w: u64 = 100_000;
        let mut k2 = d1 + 1;
        while k2 < e2 && w > 0
            invariant
                self.wf(),
                i0 == self.idx,
                i0 < d1 + 1 <= k2 <= e2 <= self.buff@.len(),
                rem == self.remaining(),
                w <= 100_000,
                frac <= 999_999,
                w > 0 ==> frac + 10 * w <= 1_000_000,
                forall|m: int| d1 + 1 - i0 <= m < e2 - i0 ==> is_digit(#[trigger] rem[m]),
                frac_digits_val(rem, d1 + 1 - i0, e2 - i0, 100_000) == frac as int
                    + frac_digits_val(rem, k2 - i0, e2 - i0, w as int),
            decreases e2 - k2,
        {
            proof {
                assert(rem[k2 - i0] == self.buff@[k2 as int]);
            }
            let c = self.buff.get_char(k2);
            let d: u64 = (c as u32 as u64) - 48;
            proof {
                assert(d * w <= 9 * w) by (nonlinear_arith)
                    requires
                        0 <= d <= 9,
                        w >= 0,
                ;
                assert(10 * (w as int / 10) <= w as int) by (nonlinear_arith)
                    requires
                        w >= 0,
                ;
            }
            frac = frac + d * w;
            w = w / 10;
            k2 = k2 + 1;
        }
        self.idx = e;
        proof {
            assert(self.remaining() =~= rem.skip(e - i0));
        }
        let v: u64 = acc * 1_000_000 + frac;
        let n: i64 = if v > AMP_MAX as u64 {
            AMP_MAX
        } else {
            v as i64
        };
        Token::Number(n)
    }
}

/// Left binding power: the precedence of a token as an infix operator.
pub open spec fn lbp(t: TokenV) -> int {
    match t {
        TokenV::Plus => 50,
        TokenV::Minus => 50,
        TokenV::Star => 60,
        TokenV::Slash => 60,
        TokenV::Percent => 60,
        TokenV::OpenBracket => 80,
        _ => 0,
    }
}

/// Null denotation: the parse of a token with no expression to its left —
/// literals, identifiers, prefix operators and bracketed groups.
pub open spec fn spec_nud(toks: Seq<TokenV>, i: int) -> Result<(ExprV, int), ParseError>
    decreases toks.len() - i, 0int,
    when 0 <= i <= toks.len()
{
    if i == toks.len() {
        Err(ParseError::Incomplete)
    } else {
        match toks[i] {
            TokenV::Word(w) => if w == "abs"@ {
                spec_prefix(toks, i + 1, PrefixOp::Abs)
            } else if w == "sgn"@ {
                spec_prefix(toks, i + 1, PrefixOp::Sgn)
            } else if w == "sin"@ {
                spec_prefix(toks, i + 1, PrefixOp::Sin)
            } else if w == "cos"@ {
                spec_prefix(toks, i + 1, PrefixOp::Cos)
            } else {
                Ok((ExprV::Identifier(w), i + 1))
            },
            TokenV::Number(n) => Ok((ExprV::Number(n), i + 1)),
            TokenV::Plus => spec_expr(toks, i + 1, 100),
            TokenV::Minus => spec_prefix(toks, i + 1, PrefixOp::Negate),
            TokenV::OpenBracket => match spec_expr(toks, i + 1, 0) {
                Ok((e, j)) => if j < toks.len() && toks[j] is CloseBracket {
                    Ok((e, j + 1))
                } else if j < toks.len() {
                    Err(ParseError::Unexpected)
                } else {
                    Err(ParseError::Incomplete)
                },
                Err(er) => Err(er),
            },
            _ => Err(ParseError::Unexpected),
        }
    }
}

/// The trailing operand of a prefix operator, absorbed at binding power 100.
pub open spec fn spec_prefix(toks: Seq<TokenV>, i: int, op: PrefixOp) -> Result<
    (ExprV, int),
    ParseError,
>
    decreases toks.len() - i, 3int,
    when 0 <= i <= toks.len()
{
    match spec_expr(toks, i, 100) {
        Ok((e, j)) => Ok((ExprV::Prefix(op, Box::new(e)), j)),
        Err(er) => Err(er),
    }
}

/// The right operand of an infix operator at `toks[i]`, absorbed at that
/// operator's own binding power, which makes the grammar left-associative.
pub open spec fn spec_infix(toks: Seq<TokenV>, i: int, lhs: ExprV, op: InfixOp) -> Result<
    (ExprV, int),
    ParseError,
>
    decreases toks.len() - i, 0int,
    when 0 <= i < toks.len()
{
    match spec_expr(toks, i + 1, lbp(toks[i])) {
        Ok((rhs, j)) => Ok((ExprV::Infix(Box::new(lhs), op, Box::new(rhs)), j)),
        Err(er) => Err(er),
    }
}

/// Left denotation: the parse of a token with an expression to its left —
/// the five infix operators.
pub open spec fn spec_led(toks: Seq<TokenV>, i: int, lhs: ExprV) -> Result<
    (ExprV, int),
    ParseError,
>
    decreases toks.len() - i, 1int,
    when 0 <= i <= toks.len()
{
    if i == toks.len() {
        Err(ParseError::Incomplete)
    } else {
        match toks[i] {
            TokenV::Plus => spec_infix(toks, i, lhs, InfixOp::Add),
            TokenV::Minus => spec_infix(toks, i, lhs, InfixOp::Sub),
            TokenV::Star => spec_infix(toks, i, lhs, InfixOp::Mul),
            TokenV::Slash => spec_infix(toks, i, lhs, InfixOp::Div),
            TokenV::Percent => spec_infix(toks, i, lhs, InfixOp::Mod),
            _ => Err(ParseError::Incomplete),
        }
    }
}

/// Keep absorbing infix operators while the next token binds tighter than
/// the surrounding binding power.
pub open spec fn spec_loop(toks: Seq<TokenV>, i: int, rbp: int, lhs: ExprV) -> Result<
    (ExprV, int),
    ParseError,
>
    decreases toks.len() - i, 4int,
    when 0 <= i <= toks.len()
{
    if i < toks.len() && lbp(toks[i]) > rbp {
        match spec_led(toks, i, lhs) {
            Ok((l2, k)) => {
                let k2 = if i + 1 <= k && k <= toks.len() {
                    k
                } else {
                    i + 1
                };
                spec_loop(toks, k2, rbp, l2)
            },
            Err(er) => Err(er),
        }
    } else {
        Ok((lhs, i))
    }
}

/// An expression parsed at position `i` under right binding power `rbp`:
/// a null denotation followed by every infix operator that binds tighter.
pub open spec fn spec_expr(toks: Seq<TokenV>, i: int, rbp: int) -> Result<(ExprV, int), ParseError>
    decreases toks.len() - i, 2int,
    when 0 <= i <= toks.len()
{
    if i == toks.len() {
        Err(ParseError::Incomplete)
    } else {
        match spec_nud(toks, i) {
            Ok((lhs, j)) => {
                let j2 = if i + 1 <= j && j <= toks.len() {
                    j
                } else {
                    i + 1
                };
                spec_loop(toks, j2, rbp, lhs)
            },
            Err(er) => Err(er),
        }
    }
}

/// The expression a whole source text parses to: tokenise, parse one
/// expression from the front.
pub open spec fn spec_parse(s: Seq<char>) -> Result<ExprV, ParseError> {
    match spec_expr(spec_tokenize(s), 0, 0) {
        Ok((e, _)) => Ok(e),
        Err(er) => Err(er),
    }
}

/// The values of a token sequence.
pub open spec fn toks_views(s: Seq<Token>) -> Seq<TokenV> {
    s.map_values(|t: Token| tok_view(&t))
}

/// Every token of the sequence is well formed.
pub open spec fn toks_wf(s: Seq<TokenV>) -> bool {
    forall|i: int| 0 <= i < s.len() ==> tok_wf(#[trigger] s[i])
}

/// Decide [`lbp`].
fn tok_lbp(t: &Token) -> (r: u32)
    ensures
        r as int == lbp(tok_view(t)),
{
    match t {
        Token::Plus => 50,
        Token::Minus => 50,
        Token::Star => 60,
        Token::Slash => 60,
        Token::Percent => 60,
        Token::OpenBracket => 80,
        _ => 0,
    }
}

/// Whether two tokens are the same lexeme with the same content.
fn tok_eq(a: &Token, b: &Token) -> (r: bool)
    ensures
        r == (tok_view(a) == tok_view(b)),
{
    match (a, b) {
        (Token::Word(x), Token::Word(y)) => str_eq(x.as_str(), y.as_str()),
        (Token::Number(x), Token::Number(y)) => *x == *y,
        (Token::Plus, Token::Plus) => true,
        (Token::Minus, Token::Minus) => true,
        (Token::Star, Token::Star) => true,
        (Token::Slash, Token::Slash) => true,
        (Token::Percent, Token::Percent) => true,
        (Token::OpenBracket, Token::OpenBracket) => true,
        (Token::CloseBracket, Token::CloseBracket) => true,
        (Token::Unknown(x), Token::Unknown(y)) => *x == *y,
        _ => false,
    }
}

/// Null denotation of the token at `pos`, exactly as [`spec_nud`] states.
fn parse_nud(toks: &Vec<Token>, pos: usize) -> (r: (ParseResult<Expression>, usize))
    requires
        toks_wf(toks_views(toks@)),
        pos <= toks@.len(),
    ensures
        r.1 <= toks@.len(),
        match r.0 {
            Ok(e) => spec_nud(toks_views(toks@), pos as int) == Ok::<_, ParseError>(
                (expr_view(&e), r.1 as int),
            ) && pos < r.1 && expr_wf(expr_view(&e)),
            Err(pe) => spec_nud(toks_views(toks@), pos as int) == Err::<(ExprV, int), _>(pe),
        },
    decreases toks@.len() - pos, 0int,
{
    if pos >= toks.len() {
        return (Err(ParseError::Incomplete), pos);
    }
    proof {
        assert(toks_views(toks@)[pos as int] == tok_view(&toks@[pos as int]));
    }
    match &toks[pos] {
        Token::Word(s) => {
            if str_eq(s.as_str(), "abs") {
                parse_prefix(toks, pos + 1, PrefixOp::Abs)
            } else if str_eq(s.as_str(), "sgn") {
                parse_prefix(toks, pos + 1, PrefixOp::Sgn)
            } else if str_eq(s.as_str(), "sin") {
                parse_prefix(toks, pos + 1, PrefixOp::Sin)
            } else if str_eq(s.as_str(), "cos") {
                parse_prefix(toks, pos + 1, PrefixOp::Cos)
            } else {
                (Ok(Expression::identifier(s.clone())), pos + 1)
            }
        },
        Token::Number(n) => {
            proof {
                assert(tok_wf(toks_views(toks@)[pos as int]));
            }
            (Ok(Expression::constant_num(*n)), pos + 1)
        },
        Token::Plus => parse_expr(toks, pos + 1, 100),
        Token::Minus => parse_prefix(toks, pos + 1, PrefixOp::Negate),
        Token::OpenBracket => {
            let (res, np) = parse_expr(toks, pos + 1, 0);
            match res {
                Ok(e) => {
                    if np < toks.len() {
                        proof {
                            assert(toks_views(toks@)[np as int] == tok_view(&toks@[np as int]));
                        }
                        if let Token::CloseBracket = &toks[np] {
                            (Ok(e), np + 1)
                        } else {
                            (Err(ParseError::Unexpected), np)
                        }
                    } else {
                        (Err(ParseError::Incomplete), np)
                    }
                },
                Err(pe) => (Err(pe), np),
            }
        },
        _ => (Err(ParseError::Unexpected), pos),
    }
}

/// Operand of a prefix operator, exactly as [`spec_prefix`] states.
fn parse_prefix(toks: &Vec<Token>, pos: usize, op: PrefixOp) -> (r: (
    ParseResult<Expression>,
    usize,
))
    requires
        toks_wf(toks_views(toks@)),
        pos <= toks@.len(),
    ensures
        r.1 <= toks@.len(),
        match r.0 {
            Ok(e) => spec_prefix(toks_views(toks@), pos as int, op) == Ok::<_, ParseError>(
                (expr_view(&e), r.1 as int),
            ) && pos < r.1 && expr_wf(expr_view(&e)),
            Err(pe) => spec_prefix(toks_views(toks@), pos as int, op) == Err::<(ExprV, int), _>(pe),
        },
    decreases toks@.len() - pos, 2int,
{
    let (res, np) = parse_expr(toks, pos, 100);
    match res {
        Ok(e) => (Ok(Expression::prefix(op, e)), np),
        Err(pe) => (Err(pe), np),
    }
}

/// Left denotation of the token at `pos`, exactly as [`spec_led`] states.
fn parse_led(toks: &Vec<Token>, pos: usize, lhs: Expression) -> (r: (
    ParseResult<Expression>,
    usize,
))
    requires
        toks_wf(toks_views(toks@)),
        pos <= toks@.len(),
        expr_wf(expr_view(&lhs)),
    ensures
        r.1 <= toks@.len(),
        match r.0 {
            Ok(e) => spec_led(toks_views(toks@), pos as int, expr_view(&lhs)) == Ok::<
                _,
                ParseError,
            >((expr_view(&e), r.1 as int)) && pos < r.1 && expr_wf(expr_view(&e)),
            Err(pe) => spec_led(toks_views(toks@), pos as int, expr_view(&lhs)) == Err::<
                (ExprV, int),
                _,
            >(pe),
        },
    decreases toks@.len() - pos, 1int,
{
    if pos >= toks.len() {
        return (Err(ParseError::Incomplete), pos);
    }
    proof {
        assert(toks_views(toks@)[pos as int] == tok_view(&toks@[pos as int]));
    }
    let op = match &toks[pos] {
        Token::Plus => InfixOp::Add,
        Token::Minus => InfixOp::Sub,
        Token::Star => InfixOp::Mul,
        Token::Slash => InfixOp::Div,
        Token::Percent => InfixOp::Mod,
        _ => {
            return (Err(ParseError::Incomplete), pos);
        },
    };
    let bp = tok_lbp(&toks[pos]);
    let (res, np) = parse_expr(toks, pos + 1, bp);
    match res {
        Ok(rhs) => (Ok(Expression::infix(lhs, op, rhs)), np),
        Err(pe) => (Err(pe), np),
    }
}

/// An expression under a right binding power, exactly as [`spec_expr`]
/// states.
fn parse_expr(toks: &Vec<Token>, pos: usize, rbp: u32) -> (r: (ParseResult<Expression>, usize))
    requires
        toks_wf(toks_views(toks@)),
        pos <= toks@.len(),
    ensures
        r.1 <= toks@.len(),
        match r.0 {
            Ok(e) => spec_expr(toks_views(toks@), pos as int, rbp as int) == Ok::<_, ParseError>(
                (expr_view(&e), r.1 as int),
            ) && pos < r.1 && expr_wf(expr_view(&e)),
            Err(pe) => spec_expr(toks_views(toks@), pos as int, rbp as int) == Err::<
                (ExprV, int),
                _,
            >(pe),
        },
    decreases toks@.len() - pos, 1int,
{
    let (res, first) = parse_nud(toks, pos);
    let mut left = match res {
        Ok(e) => e,
        Err(pe) => {
            return (Err(pe), first);
        },
    };
    let mut cur = first;
    while cur < toks.len() && tok_lbp(&toks[cur]) > rbp
        invariant
            toks_wf(toks_views(toks@)),
            pos < cur <= toks@.len(),
            expr_wf(expr_view(&left)),
            spec_expr(toks_views(toks@), pos as int, rbp as int) == spec_loop(
                toks_views(toks@),
                cur as int,
                rbp as int,
                expr_view(&left),
            ),
        decreases toks@.len() - cur,
    {
        proof {
            assert(toks_views(toks@)[cur as int] == tok_view(&toks@[cur as int]));
        }
        let (res2, np) = parse_led(toks, cur, left);
        match res2 {
            Ok(l2) => {
                left = l2;
                cur = np;
            },
            Err(pe) => {
                return (Err(pe), np);
            },
        }
    }
    proof {
        if cur < toks@.len() {
            assert(toks_views(toks@)[cur as int] == tok_view(&toks@[cur as int]));
        }
    }
    (Ok(left), cur)
}

/// Run a tokeniser to the end of its buffer, collecting every token.
fn collect_tokens(tk: &mut Tokeniser) -> (toks: Vec<Token>)
    requires
        old(tk).wf(),
    ensures
        toks_wf(toks_views(toks@)),
        toks_views(toks@) == spec_tokenize(old(tk).remaining()),
{
    let mut toks: Vec<Token> = Vec::new();
    loop
        invariant
            tk.wf(),
            toks_views(toks@) + spec_tokenize(tk.remaining()) =~= spec_tokenize(
                old(tk).remaining(),
            ),
            toks_wf(toks_views(toks@)),
        decreases tk.remaining().len(),
    {
        let ghost before = toks_views(toks@);
        let ghost rem_before = tk.remaining();
        match tk.next() {
            Some(tok) => {
                toks.push(tok);
                proof {
                    assert(toks_views(toks@) =~= before.push(tok_view(&toks@.last())));
                    assert(toks_views(toks@) + spec_tokenize(tk.remaining()) =~= before + (seq![
                        tok_view(&toks@.last()),
                    ] + spec_tokenize(tk.remaining())));
                }
            },
            None => {
                proof {
                    assert(spec_tokenize(rem_before) =~= Seq::<TokenV>::empty());
                    assert(before + spec_tokenize(rem_before) =~= before);
                    assert(toks_views(toks@) =~= spec_tokenize(old(tk).remaining()));
                }
                return toks;
            },
        }
    }
}

/// Expression parser: turns a token stream into an expression tree, or a
/// parse error.
pub struct Parser {
    toks: Vec<Token>,
    pos: usize,
}

impl Parser {
    /// The values of the tokens this parser reads.
    pub closed spec fn toks_view(&self) -> Seq<TokenV> {
        toks_views(self.toks@)
    }

    /// The position of the next token to read.
    pub closed spec fn position(&self) -> int {
        self.pos as int
    }

    /// The cursor is in range and every token is well formed.
    pub closed spec fn wf(&self) -> bool {
        self.pos <= self.toks@.len() && toks_wf(self.toks_view())
    }

    /// Create a new parser reading the given token stream.
    pub fn new(t: Tokeniser) -> (p: Parser)
        requires
            t.wf(),
        ensures
            p.wf(),
            p.position() == 0,
            p.toks_view() == spec_tokenize(t.remaining()),
    {
        let mut tk = t;
        let toks = collect_tokens(&mut tk);
        Parser { toks, pos: 0 }
    }

    /// Moves the token stream on by a single token when it is the expected
    /// lexeme; otherwise reports which way it failed.
    pub fn expect(&mut self, expected: Token) -> (r: ParseResult<()>)
        requires
            old(self).wf(),
        ensures
            final(self).wf(),
            final(self).toks_view() == old(self).toks_view(),
            match r {
                Ok(_) => old(self).position() < old(self).toks_view().len() && old(
                    self,
                ).toks_view()[old(self).position()] == tok_view(&expected) && final(self).position()
                    == old(self).position() + 1,
                Err(pe) => final(self).position() == old(self).position() && ((pe
                    == ParseError::Incomplete) <==> old(self).position() == old(
                    self,
                ).toks_view().len()) && (old(self).position() < old(self).toks_view().len()
                    ==> old(self).toks_view()[old(self).position()] != tok_view(&expected)),
            },
    {
        if self.pos >= self.toks.len() {
            return Err(ParseError::Incomplete);
        }
        proof {
            assert(self.toks_view()[self.pos as int] == tok_view(&self.toks@[self.pos as int]));
        }
        if tok_eq(&self.toks[self.pos], &expected) {
            self.pos = self.pos + 1;
            Ok(())
        } else {
            Err(ParseError::Unexpected)
        }
    }

    /// Parse an expression with the given right binding power.
    pub fn expression(&mut self, rbp: u32) -> (r: ParseResult<Expression>)
        requires
            old(self).wf(),
        ensures
            final(self).wf(),
            final(self).toks_view() == old(self).toks_view(),
            match r {
                Ok(e) => expr_wf(expr_view(&e)) && spec_expr(
                    old(self).toks_view(),
                    old(self).position(),
                    rbp as int,
                ) == Ok::<_, ParseError>((expr_view(&e), final(self).position())) && old(
                    self,
                ).position() < final(self).position(),
                Err(pe) => spec_expr(old(self).toks_view(), old(self).position(), rbp as int)
                    == Err::<(ExprV, int), _>(pe),
            },
    {
        let (res, np) = parse_expr(&self.toks, self.pos, rbp);
        self.pos = np;
        res
    }

    /// Parse a single top-level expression.
    pub fn single_expression(&mut self) -> (r: ParseResult<Expression>)
        requires
            old(self).wf(),
        ensures
            final(self).wf(),
            final(self).toks_view() == old(self).toks_view(),
            match r {
                Ok(e) => expr_wf(expr_view(&e)) && spec_expr(
                    old(self).toks_view(),
                    old(self).position(),
                    0,
                ) == Ok::<_, ParseError>((expr_view(&e), final(self).position())) && old(
                    self,
                ).position() < final(self).position(),
                Err(pe) => spec_expr(old(self).toks_view(), old(self).position(), 0) == Err::<
                    (ExprV, int),
                    _,
                >(pe),
            },
    {
        self.expression(0)
    }

    /// Whether the next token's left binding power exceeds the given right
    /// binding power.
    pub fn next_binds_tighter_than(&mut self, rbp: u32) -> (r: bool)
        requires
            old(self).wf(),
        ensures
            *final(self) == *old(self),
            r == (old(self).position() < old(self).toks_view().len() && lbp(
                old(self).toks_view()[old(self).position()],
            ) > rbp as int),
    {
        proof {
            if self.pos < self.toks@.len() {
                assert(self.toks_view()[self.pos as int] == tok_view(&self.toks@[self.pos as int]));
            }
        }
        self.pos < self.toks.len() && tok_lbp(&self.toks[self.pos]) > rbp
    }
}

/// Runs the tokeniser and parser over the given input string, returning the
/// first expression parsed.
pub fn parse_single(s: &str) -> (r: ParseResult<Expression>)
    ensures
        match r {
            Ok(e) => spec_parse(s@) == Ok::<_, ParseError>(expr_view(&e)) && expr_wf(expr_view(&e)),
            Err(pe) => spec_parse(s@) == Err::<ExprV, _>(pe),
        },
{
    let t = Tokeniser::new_from_str(s);
    let mut p = Parser::new(t);
    p.single_expression()
}

/// With a product to the right of a sum, the product binds tighter: its
/// power 60 beats the sum's 50, so `a + b * c` evaluates as
/// `a + (b * c)` — for all literal values.
pub proof fn lemma_precedence_mul_right(a: int, b: int, c: int)
    ensures
        spec_expr(
            seq![
                TokenV::Number(a),
                TokenV::Plus,
                TokenV::Number(b),
                TokenV::Star,
                TokenV::Number(c),
            ],
            0,
            0,
        ) == Ok::<_, ParseError>(
            (
                ExprV::Infix(
                    Box::new(ExprV::Number(a)),
                    InfixOp::Add,
                    Box::new(
                        ExprV::Infix(
                            Box::new(ExprV::Number(b)),
                            InfixOp::Mul,
                            Box::new(ExprV::Number(c)),
                        ),
                    ),
                ),
                5int,
            ),
        ),
{
    reveal_with_fuel(spec_expr, 8);
    reveal_with_fuel(spec_nud, 8);
    reveal_with_fuel(spec_loop, 8);
    reveal_with_fuel(spec_led, 8);
    reveal_with_fuel(spec_infix, 8);
}

/// With a product to the left of a sum, the product still binds tighter:
/// `a * b + c` evaluates as `(a * b) + c` — the grammar is
/// left-associative at equal power and precedence-driven across powers.
pub proof fn lemma_precedence_mul_left(a: int, b: int, c: int)
    ensures
        spec_expr(
            seq![
                TokenV::Number(a),
                TokenV::Star,
                TokenV::Number(b),
                TokenV::Plus,
                TokenV::Number(c),
            ],
            0,
            0,
        ) == Ok::<_, ParseError>(
            (
                ExprV::Infix(
                    Box::new(
                        ExprV::Infix(
                            Box::new(ExprV::Number(a)),
                            InfixOp::Mul,
                            Box::new(ExprV::Number(b)),
                        ),
                    ),
                    InfixOp::Add,
                    Box::new(ExprV::Number(c)),
                ),
                5int,
            ),
        ),
{
    reveal_with_fuel(spec_expr, 8);
    reveal_with_fuel(spec_nud, 8);
    reveal_with_fuel(spec_loop, 8);
    reveal_with_fuel(spec_led, 8);
    reveal_with_fuel(spec_infix, 8);
}

/// A prefix operator absorbs only its immediate operand: at power 100 it
/// binds tighter than any infix operator, so `- a * b` evaluates as
/// `(-a) * b`.
pub proof fn lemma_precedence_prefix(a: int, b: int)
    ensures
        spec_expr(
            seq![TokenV::Minus, TokenV::Number(a), TokenV::Star, TokenV::Number(b)],
            0,
            0,
        ) == Ok::<_, ParseError>(
            (
                ExprV::Infix(
                    Box::new(ExprV::Prefix(PrefixOp::Negate, Box::new(ExprV::Number(a)))),
                    InfixOp::Mul,
                    Box::new(ExprV::Number(b)),
                ),
                4int,
            ),
        ),
{
    reveal_with_fuel(spec_expr, 8);
    reveal_with_fuel(spec_nud, 8);
    reveal_with_fuel(spec_loop, 8);
    reveal_with_fuel(spec_led, 8);
    reveal_with_fuel(spec_infix, 8);
    reveal_with_fuel(spec_prefix, 8);
}

} // verus!
