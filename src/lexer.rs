use vstd::prelude::*;
use crate::tokens::{
    chars_of, is_alnum, is_digit, is_letter, lowest_terms, push_char, reduce, upper, upper_string,
    word_token, ArithmeticOp,
    Punct, Real, SToken, Token,
};

verus! {

/// Why the text could not be split into tokens.
#[derive(Clone, Copy, Debug, PartialEq, Eq, Structural)]
pub enum LexError {
    /// A character that starts no token.
    UnrecognizedCharacter { pos: usize },
    /// A numeric literal whose numerator or denominator does not fit in `i64`.
    LiteralOutOfRange { pos: usize },
    /// A run of digits and dots with more than one dot.
    MalformedNumber { pos: usize },
}

/// The characters with the Unicode `White_Space` property.
pub open spec fn is_space(c: char) -> bool {
    ('\t' <= c && c <= '\r') || c == ' ' || c == '\u{85}' || c == '\u{a0}' || c == '\u{1680}'
        || ('\u{2000}' <= c && c <= '\u{200a}') || c == '\u{2028}' || c == '\u{2029}' || c
        == '\u{202f}' || c == '\u{205f}' || c == '\u{3000}'
}

fn is_space_exec(c: char) -> (r: bool)
    ensures
        r == is_space(c),
{
    ('\t' <= c && c <= '\r') || c == ' ' || c == '\u{85}' || c == '\u{a0}' || c == '\u{1680}'
        || ('\u{2000}' <= c && c <= '\u{200a}') || c == '\u{2028}' || c == '\u{2029}' || c
        == '\u{202f}' || c == '\u{205f}' || c == '\u{3000}'
}

/// The first position at or after `p` that is neither blank nor inside a
/// `{ ... }` comment; `in_comment` says whether `p` lies inside one.
pub open spec fn skip_blank(t: Seq<char>, p: nat, in_comment: bool) -> nat
    decreases t.len() - p,
{
    if p >= t.len() {
        p
    } else if in_comment {
        skip_blank(t, p + 1, t[p as int] != '}')
    } else if is_space(t[p as int]) {
        skip_blank(t, p + 1, false)
    } else if t[p as int] == '{' {
        skip_blank(t, p + 1, true)
    } else {
        p
    }
}

/// The end of the run of letters and digits that starts at `p`.
pub open spec fn ident_end(t: Seq<char>, p: nat) -> nat
    decreases t.len() - p,
{
    if p < t.len() && is_alnum(t[p as int]) {
        ident_end(t, p + 1)
    } else {
        p
    }
}

/// The end of the run of digits that starts at `p`.
pub open spec fn digits_end(t: Seq<char>, p: nat) -> nat
    decreases t.len() - p,
{
    if p < t.len() && is_digit(t[p as int]) {
        digits_end(t, p + 1)
    } else {
        p
    }
}

pub open spec fn digit_value(c: char) -> int {
    c as int - '0' as int
}

/// `acc` followed by the decimal digits `t[s..e]`, as a number.
pub open spec fn extend(acc: int, t: Seq<char>, s: int, e: int) -> int
    decreases e - s,
{
    if e <= s {
        acc
    } else {
        extend(acc, t, s, e - 1) * 10 + digit_value(t[e - 1])
    }
}

pub open spec fn pow10(k: nat) -> int
    decreases k,
{
    if k == 0 {
        1
    } else {
        10 * pow10((k - 1) as nat)
    }
}

pub open spec fn fits(n: int) -> bool {
    n <= i64::MAX
}

/// The numeric literal that starts with the digit at `q`: the token, where it
/// starts and where it ends. The literal is the whole run of digits and dots
/// there: with no dot it is an integer; with one, a real, read as the fraction
/// of its digits over a power of ten, in lowest terms; with two or more it is
/// malformed.
pub open spec fn number_at(t: Seq<char>, q: nat) -> Result<(SToken, nat, nat), LexError> {
    let e1 = digits_end(t, q);
    let whole = extend(0, t, q as int, e1 as int);
    if e1 < t.len() && t[e1 as int] == '.' {
        let e2 = digits_end(t, e1 + 1);
        let num = extend(whole, t, e1 + 1int, e2 as int);
        let den = pow10((e2 - e1 - 1) as nat);
        if e2 < t.len() && t[e2 as int] == '.' {
            Err(LexError::MalformedNumber { pos: q as usize })
        } else if fits(num) && fits(den) {
            let (n, d) = lowest_terms(num, den);
            Ok((SToken::RealLiteral(Real { num: n as i64, den: d as i64 }), q, e2))
        } else {
            Err(LexError::LiteralOutOfRange { pos: q as usize })
        }
    } else if fits(whole) {
        Ok((SToken::IntegerLiteral(whole as i64), q, e1))
    } else {
        Err(LexError::LiteralOutOfRange { pos: q as usize })
    }
}

/// The token of a single character other than `:`.
pub open spec fn single_char_token(c: char) -> Option<SToken> {
    if c == '+' {
        Some(SToken::Operator(ArithmeticOp::Plus))
    } else if c == '-' {
        Some(SToken::Operator(ArithmeticOp::Minus))
    } else if c == '*' {
        Some(SToken::Operator(ArithmeticOp::Mul))
    } else if c == '/' {
        Some(SToken::Operator(ArithmeticOp::RealDiv))
    } else if c == '(' {
        Some(SToken::Punctuation(Punct::LParen))
    } else if c == ')' {
        Some(SToken::Punctuation(Punct::RParen))
    } else if c == ',' {
        Some(SToken::Punctuation(Punct::Comma))
    } else if c == ';' {
        Some(SToken::Punctuation(Punct::Semicolon))
    } else if c == '.' {
        Some(SToken::Punctuation(Punct::Dot))
    } else {
        None
    }
}

/// The next token at or after position `p`: the token, where it starts and
/// where it ends.
pub open spec fn lex_at(t: Seq<char>, p: nat) -> Result<(SToken, nat, nat), LexError> {
    let q = skip_blank(t, p, false);
    if q >= t.len() {
        Ok((SToken::EndOfInput, q, q))
    } else {
        let c = t[q as int];
        if is_letter(c) {
            let e = ident_end(t, q);
            Ok((word_token(upper(t.subrange(q as int, e as int))), q, e))
        } else if is_digit(c) {
            number_at(t, q)
        } else if c == ':' {
            if q + 1 < t.len() && t[q + 1int] == '=' {
                Ok((SToken::Punctuation(Punct::Assign), q, q + 2))
            } else {
                Ok((SToken::Punctuation(Punct::Colon), q, q + 1))
            }
        } else {
            match single_char_token(c) {
                Some(tok) => Ok((tok, q, q + 1)),
                None => Err(LexError::UnrecognizedCharacter { pos: q as usize }),
            }
        }
    }
}

pub proof fn lemma_skip_blank_bounds(t: Seq<char>, p: nat, b: bool)
    requires
        p <= t.len(),
    ensures
        p <= skip_blank(t, p, b) <= t.len(),
    decreases t.len() - p,
{
    if p < t.len() {
        lemma_skip_blank_bounds(t, p + 1, t[p as int] != '}');
        lemma_skip_blank_bounds(t, p + 1, false);
        lemma_skip_blank_bounds(t, p + 1, true);
    }
}

pub proof fn lemma_ident_end_bounds(t: Seq<char>, p: nat)
    requires
        p <= t.len(),
    ensures
        p <= ident_end(t, p) <= t.len(),
    decreases t.len() - p,
{
    if p < t.len() && is_alnum(t[p as int]) {
        lemma_ident_end_bounds(t, p + 1);
    }
}

pub proof fn lemma_digits_end_bounds(t: Seq<char>, p: nat)
    requires
        p <= t.len(),
    ensures
        p <= digits_end(t, p) <= t.len(),
        forall|k: int| p <= k < digits_end(t, p) ==> is_digit(#[trigger] t[k]),
    decreases t.len() - p,
{
    if p < t.len() && is_digit(t[p as int]) {
        lemma_digits_end_bounds(t, p + 1);
    }
}

pub proof fn lemma_extend_mono(acc: int, t: Seq<char>, s: int, e1: int, e2: int)
    requires
        0 <= acc,
        s <= e1 <= e2 <= t.len(),
        0 <= s,
        forall|k: int| s <= k < e2 ==> is_digit(#[trigger] t[k]),
    ensures
        acc <= extend(acc, t, s, e1) <= extend(acc, t, s, e2),
    decreases e2 - s,
{
    if e2 > e1 {
        lemma_extend_mono(acc, t, s, e1, e2 - 1);
        assert(is_digit(t[e2 - 1]));
    } else if e1 > s {
        lemma_extend_mono(acc, t, s, e1 - 1, e2 - 1);
        assert(is_digit(t[e1 - 1]));
    }
}

pub proof fn lemma_pow10_mono(a: nat, b: nat)
    requires
        a <= b,
    ensures
        1 <= pow10(a) <= pow10(b),
    decreases b,
{
    if b > a {
        lemma_pow10_mono(a, (b - 1) as nat);
    } else if a > 0 {
        lemma_pow10_mono((a - 1) as nat, (a - 1) as nat);
    }
}

/// Every real literal among the tokens has a positive denominator.
pub open spec fn tokens_wf(v: Seq<(Token, usize)>) -> bool {
    forall|i: int| 0 <= i < v.len() ==> ((#[trigger] v[i]).0 matches Token::RealLiteral(x) ==> x.wf())
}

/// A position in a text, from which tokens are read one at a time.
#[derive(Debug)]
pub struct Lexer {
    pub text: Vec<char>,
    pub pos: usize,
}

impl Lexer {
    pub fn new(text: &str) -> (l: Lexer)
        ensures
            l.text@ == text@,
            l.pos == 0,
    {
        Lexer { text: chars_of(text), pos: 0 }
    }

    /// The character at the current position.
    fn get_char(&self) -> (r: Option<char>)
        ensures
            r == if self.pos < self.text@.len() {
                Some(self.text@[self.pos as int])
            } else {
                None::<char>
            },
    {
        if self.pos < self.text.len() {
            Some(self.text[self.pos])
        } else {
            None
        }
    }

    /// The character after the current one.
    fn peek(&self) -> (r: Option<char>)
        ensures
            r == if self.pos + 1 < self.text@.len() {
                Some(self.text@[self.pos + 1])
            } else {
                None::<char>
            },
    {
        if self.pos < self.text.len() && self.pos + 1 < self.text.len() {
            Some(self.text[self.pos + 1])
        } else {
            None
        }
    }

    /// The text not read yet, or `Empty` when all of it has been read.
    pub fn rest(&self) -> (r: String)
        ensures
            r@ == if self.pos < self.text@.len() {
                self.text@.subrange(self.pos as int, self.text@.len() as int)
            } else {
                "Empty"@
            },
    {
        if self.pos < self.text.len() {
            let mut r = String::new();
            let mut i = self.pos;
            while i < self.text.len()
                invariant
                    self.pos <= i <= self.text@.len(),
                    r@ == self.text@.subrange(self.pos as int, i as int),
                decreases self.text@.len() - i,
            {
                push_char(&mut r, self.text[i]);
                i = i + 1;
                assert(r@ =~= self.text@.subrange(self.pos as int, i as int));
            }
            r
        } else {
            String::from_str("Empty")
        }
    }

    fn skip_blank(&mut self)
        requires
            old(self).pos <= old(self).text@.len(),
        ensures
            final(self).text == old(self).text,
            final(self).pos == skip_blank(old(self).text@, old(self).pos as nat, false),
    {
        let ghost t = self.text@;
        let mut in_comment = false;
        while self.pos < self.text.len()
            invariant
                self.text@ == t,
                self.text == old(self).text,
                self.pos <= t.len(),
                skip_blank(t, self.pos as nat, in_comment) == skip_blank(
                    t,
                    old(self).pos as nat,
                    false,
                ),
            decreases t.len() - self.pos,
        {
            let c = self.text[self.pos];
            if in_comment {
                in_comment = c != '}';
            } else if is_space_exec(c) {
            } else if c == '{' {
                in_comment = true;
            } else {
                return;
            }
            self.pos = self.pos + 1;
        }
    }

    /// Reads the run of letters and digits at the current position, in upper case.
    fn parse_id(&mut self) -> (r: String)
        requires
            old(self).pos <= old(self).text@.len(),
        ensures
            final(self).text == old(self).text,
            final(self).pos == ident_end(old(self).text@, old(self).pos as nat),
            r@ == upper(old(self).text@.subrange(old(self).pos as int, final(self).pos as int)),
    {
        let start = self.pos;
        while self.pos < self.text.len() && is_alnum_exec(self.text[self.pos])
            invariant
                self.text == old(self).text,
                start <= self.pos <= self.text@.len(),
                ident_end(self.text@, self.pos as nat) == ident_end(self.text@, start as nat),
            decreases self.text@.len() - self.pos,
        {
            self.pos = self.pos + 1;
        }
        upper_string(&self.text, start, self.pos)
    }

    /// Reads the run of digits at the current position and appends it to `acc`;
    /// `None` where the number does not fit in `i64`.
    fn parse_integer(&mut self, acc: i64) -> (r: Option<i64>)
        requires
            old(self).pos <= old(self).text@.len(),
            0 <= acc,
        ensures
            final(self).text == old(self).text,
            final(self).pos == digits_end(old(self).text@, old(self).pos as nat),
            r == if fits(extend(acc as int, old(self).text@, old(self).pos as int, final(self).pos as int)) {
                Some(extend(acc as int, old(self).text@, old(self).pos as int, final(self).pos as int) as i64)
            } else {
                None::<i64>
            },            r matches Some(v) ==> v >= 0,
    {
        let ghost t = self.text@;
        let start = self.pos;
        proof {
            lemma_digits_end_bounds(t, start as nat);
        }
        let mut n: Option<i64> = Some(acc);
        while self.pos < self.text.len() && is_digit_exec(self.text[self.pos])
            invariant
                self.text@ == t,
                self.text == old(self).text,
                start <= self.pos <= digits_end(t, start as nat) <= t.len(),
                forall|k: int| start <= k < digits_end(t, start as nat) ==> is_digit(#[trigger] t[k]),
                digits_end(t, self.pos as nat) == digits_end(t, start as nat),
                0 <= acc,
                n == if fits(extend(acc as int, t, start as int, self.pos as int)) {
                    Some(extend(acc as int, t, start as int, self.pos as int) as i64)
                } else {
                    None::<i64>
                },
                n is Some ==> extend(acc as int, t, start as int, self.pos as int) >= 0,
            decreases t.len() - self.pos,
        {
            let d = (self.text[self.pos] as u32 - '0' as u32) as i64;
            proof {
                lemma_extend_mono(acc as int, t, start as int, self.pos as int, self.pos + 1);
                lemma_digits_end_bounds(t, (self.pos + 1) as nat);
            }
            n = match n {
                Some(v) => {
                    if v <= (i64::MAX - d) / 10 {
                        Some(v * 10 + d)
                    } else {
                        None
                    }
                },
                None => {
                    proof {
                        lemma_extend_mono(acc as int, t, start as int, self.pos as int, self.pos + 1);
                    }
                    None
                },
            };
            self.pos = self.pos + 1;
        }
        n
    }
}

impl Lexer {
    /// Reads the numeric literal whose first digit is at the current position.
    fn parse_number(&mut self) -> (r: Result<Token, LexError>)
        requires
            old(self).pos < old(self).text@.len(),
            is_digit(old(self).text@[old(self).pos as int]),
        ensures
            final(self).text == old(self).text,
            final(self).pos <= final(self).text@.len(),
            match number_at(old(self).text@, old(self).pos as nat) {
                Ok((tok, _, e)) => r matches Ok(x) && x@ == tok && final(self).pos == e,
                Err(err) => r == Err::<Token, LexError>(err),
            },
            r matches Ok(Token::RealLiteral(x)) ==> x.wf(),
    {
        let ghost t = self.text@;
        let start = self.pos;
        proof {
            lemma_digits_end_bounds(t, start as nat);
        }
        let whole = self.parse_integer(0);
        let e1 = self.pos;
        if self.pos < self.text.len() && self.text[self.pos] == '.' {
            self.pos = self.pos + 1;
            proof {
                lemma_digits_end_bounds(t, self.pos as nat);
            }
            let acc: i64 = match whole {
                Some(w) => w,
                None => 0,
            };
            proof {
                lemma_extend_mono(0, t, start as int, e1 as int, e1 as int);
            }
            let num = self.parse_integer(acc);
            if self.pos < self.text.len() && self.text[self.pos] == '.' {
                return Err(LexError::MalformedNumber { pos: start });
            }
            match whole {
                None => {
                    proof {
                        lemma_extend_mono(
                            extend(0, t, start as int, e1 as int),
                            t,
                            e1 + 1,
                            e1 + 1,
                            self.pos as int,
                        );
                    }
                    Err(LexError::LiteralOutOfRange { pos: start })
                },
                Some(w) => {
                    let den = power_of_ten(self.pos - e1 - 1);
                    proof {
                        lemma_pow10_mono(0, (self.pos - e1 - 1) as nat);
                        lemma_extend_mono(w as int, t, e1 + 1, self.pos as int, self.pos as int);
                    }
                    match (num, den) {
                        (Some(n), Some(d)) => Ok(real_literal(n, d)),
                        _ => Err(LexError::LiteralOutOfRange { pos: start }),
                    }
                },
            }
        } else {
            match whole {
                Some(n) => Ok(Token::IntegerLiteral(n)),
                None => Err(LexError::LiteralOutOfRange { pos: start }),
            }
        }
    }

    /// Reads the next token: the token and the position where it starts.
    pub fn scan(&mut self) -> (r: Result<(Token, usize), LexError>)
        requires
            old(self).pos <= old(self).text@.len(),
        ensures
            final(self).text == old(self).text,
            final(self).pos <= final(self).text@.len(),
            match lex_at(old(self).text@, old(self).pos as nat) {
                Ok((tok, s, e)) => r matches Ok((x, xs)) && x@ == tok && xs == s && final(self).pos
                    == e,
                Err(err) => r == Err::<(Token, usize), LexError>(err),
            },
            r matches Ok((Token::RealLiteral(x), _)) ==> x.wf(),
    {
        let ghost t = self.text@;
        proof {
            lemma_skip_blank_bounds(t, self.pos as nat, false);
        }
        self.skip_blank();
        let q = self.pos;
        assert(self.text@.len() == self.text.len());
        match self.get_char() {
            None => Ok((Token::EndOfInput, q)),
            Some(c) => {
                if ('a' <= c && c <= 'z') || ('A' <= c && c <= 'Z') {
                    proof {
                        lemma_ident_end_bounds(t, q as nat);
                    }
                    let w = self.parse_id();
                    Ok((Token::word(w), q))
                } else if '0' <= c && c <= '9' {
                    match self.parse_number() {
                        Ok(tok) => Ok((tok, q)),
                        Err(e) => Err(e),
                    }
                } else if c == ':' {
                    match self.peek() {
                        Some('=') => {
                            self.pos = self.pos + 2;
                            Ok((Token::Punctuation(Punct::Assign), q))
                        },
                        _ => {
                            self.pos = self.pos + 1;
                            Ok((Token::Punctuation(Punct::Colon), q))
                        },
                    }
                } else {
                    let tok = if c == '+' {
                        Token::Operator(ArithmeticOp::Plus)
                    } else if c == '-' {
                        Token::Operator(ArithmeticOp::Minus)
                    } else if c == '*' {
                        Token::Operator(ArithmeticOp::Mul)
                    } else if c == '/' {
                        Token::Operator(ArithmeticOp::RealDiv)
                    } else if c == '(' {
                        Token::Punctuation(Punct::LParen)
                    } else if c == ')' {
                        Token::Punctuation(Punct::RParen)
                    } else if c == ',' {
                        Token::Punctuation(Punct::Comma)
                    } else if c == ';' {
                        Token::Punctuation(Punct::Semicolon)
                    } else if c == '.' {
                        Token::Punctuation(Punct::Dot)
                    } else {
                        return Err(LexError::UnrecognizedCharacter { pos: q });
                    };
                    self.pos = self.pos + 1;
                    Ok((tok, q))
                }
            },
        }
    }

    /// Reads the next token.
    pub fn get_next_token(&mut self) -> (r: Result<Token, LexError>)
        requires
            old(self).pos <= old(self).text@.len(),
        ensures
            final(self).text == old(self).text,
            final(self).pos <= final(self).text@.len(),
            match lex_at(old(self).text@, old(self).pos as nat) {
                Ok((tok, _, e)) => r matches Ok(x) && x@ == tok && final(self).pos == e,
                Err(err) => r == Err::<Token, LexError>(err),
            },
    {
        match self.scan() {
            Ok((tok, _)) => Ok(tok),
            Err(e) => Err(e),
        }
    }
}

pub proof fn lemma_lex_at_bounds(t: Seq<char>, p: nat)
    requires
        p <= t.len(),
    ensures
        lex_at(t, p) matches Ok((tok, s, e)) ==> p <= s <= e <= t.len() && (tok != SToken::EndOfInput
            ==> s < e),
{
    lemma_skip_blank_bounds(t, p, false);
    let q = skip_blank(t, p, false);
    if q < t.len() {
        if is_letter(t[q as int]) {
            lemma_ident_end_bounds(t, q + 1);
        } else if is_digit(t[q as int]) {
            lemma_digits_end_bounds(t, q + 1);
            let e1 = digits_end(t, q);
            if e1 < t.len() {
                lemma_digits_end_bounds(t, e1 + 1);
            }
        }
    }
}

/// The tokens from position `p` on, each with the position where it starts,
/// up to and including the end of input; or up to the first lexical error,
/// which then comes second.
pub open spec fn tokenize_from(t: Seq<char>, p: nat) -> (Seq<(SToken, nat)>, Option<LexError>)
    decreases t.len() - p,
    via tokenize_from_decreases
{
    if p > t.len() {
        (Seq::empty(), None)
    } else {
        match lex_at(t, p) {
            Err(e) => (Seq::empty(), Some(e)),
            Ok((tok, s, e)) => {
                if tok == SToken::EndOfInput {
                    (seq![(tok, s)], None)
                } else {
                    let rest = tokenize_from(t, e);
                    (seq![(tok, s)] + rest.0, rest.1)
                }
            },
        }
    }
}

#[via_fn]
proof fn tokenize_from_decreases(t: Seq<char>, p: nat) {
    if p <= t.len() {
        lemma_lex_at_bounds(t, p);
    }
}

/// The tokens of a text.
pub open spec fn tokenize(t: Seq<char>) -> (Seq<(SToken, nat)>, Option<LexError>) {
    tokenize_from(t, 0)
}

pub open spec fn view_tokens(v: Seq<(Token, usize)>) -> Seq<(SToken, nat)> {
    v.map_values(|x: (Token, usize)| (x.0@, x.1 as nat))
}

impl Lexer {
    /// Reads all the tokens that are left, with their positions, up to and
    /// including the end of input; or up to the first lexical error, which is
    /// returned beside them.
    pub fn tokenize(&mut self) -> (r: (Vec<(Token, usize)>, Option<LexError>))
        requires
            old(self).pos <= old(self).text@.len(),
        ensures
            view_tokens(r.0@) == tokenize_from(old(self).text@, old(self).pos as nat).0,
            r.1 == tokenize_from(old(self).text@, old(self).pos as nat).1,
            tokens_wf(r.0@),
    {
        let ghost t = self.text@;
        let ghost from = self.pos as nat;
        let mut v: Vec<(Token, usize)> = Vec::new();
        loop
            invariant
                self.text@ == t,
                t == old(self).text@,
                from == old(self).pos as nat,
                self.pos <= t.len(),
                tokenize_from(t, from).0 == view_tokens(v@) + tokenize_from(t, self.pos as nat).0,
                tokenize_from(t, from).1 == tokenize_from(t, self.pos as nat).1,
                tokens_wf(v@),
            decreases t.len() - self.pos,
        {
            let ghost p = self.pos as nat;
            proof {
                lemma_lex_at_bounds(t, p);
            }
            match self.scan() {
                Err(e) => {
                    assert(tokenize_from(t, p) == (Seq::<(SToken, nat)>::empty(), Some(e)));
                    assert(view_tokens(v@) + Seq::<(SToken, nat)>::empty() =~= view_tokens(v@));
                    return (v, Some(e));
                },
                Ok((tok, s)) => {
                    let done = match tok {
                        Token::EndOfInput => true,
                        _ => false,
                    };
                    let ghost v0 = v@;
                    v.push((tok, s));
                    assert(view_tokens(v@) =~= view_tokens(v0) + seq![(v@.last().0@, s as nat)]);
                    if done {
                        return (v, None);
                    }
                    assert(view_tokens(v0) + (seq![(v@.last().0@, s as nat)] + tokenize_from(
                        t,
                        self.pos as nat,
                    ).0) =~= view_tokens(v@) + tokenize_from(t, self.pos as nat).0);
                },
            }
        }
    }
}

/// The real literal `n / d` in lowest terms.
fn real_literal(n: i64, d: i64) -> (r: Token)
    requires
        n >= 0,
        d >= 1,
    ensures
        r@ == SToken::RealLiteral(
            Real { num: lowest_terms(n as int, d as int).0 as i64, den: lowest_terms(n as int, d as int).1 as i64 },
        ),
        r matches Token::RealLiteral(x) && x.wf(),
{
    let (a, b) = reduce(n as i128, d as i128);
    Token::RealLiteral(Real { num: a as i64, den: b as i64 })
}

/// Ten to the power `k`, where it fits in `i64`.
fn power_of_ten(k: usize) -> (r: Option<i64>)
    ensures
        r == if fits(pow10(k as nat)) {
            Some(pow10(k as nat) as i64)
        } else {
            None::<i64>
        },
{
    let mut d: i64 = 1;
    let mut i: usize = 0;
    while i < k
        invariant
            i <= k,
            d == pow10(i as nat),
        decreases k - i,
    {
        proof {
            lemma_pow10_mono(0, i as nat);
        }
        if d > i64::MAX / 10 {
            proof {
                lemma_pow10_mono((i + 1) as nat, k as nat);
            }
            return None;
        }
        assert(d * 10 <= i64::MAX) by (nonlinear_arith)
            requires
                d <= i64::MAX / 10,
                d >= 1,
        ;
        d = d * 10;
        i = i + 1;
    }
    Some(d)
}

fn is_alnum_exec(c: char) -> (r: bool)
    ensures
        r == is_alnum(c),
{
    ('a' <= c && c <= 'z') || ('A' <= c && c <= 'Z') || ('0' <= c && c <= '9')
}

fn is_digit_exec(c: char) -> (r: bool)
    ensures
        r == is_digit(c),
{
    '0' <= c && c <= '9'
}

} // verus!
