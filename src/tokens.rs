use vstd::arithmetic::div_mod::{lemma_fundamental_div_mod, lemma_mod_multiples_basic, lemma_mod_self_0};
use vstd::prelude::*;

verus! {

/// The arithmetic operators of the language.
#[derive(Clone, Copy, Debug, PartialEq, Eq, Structural)]
pub enum ArithmeticOp {
    Plus,
    Minus,
    Mul,
    /// `/`: always produces a real.
    RealDiv,
    /// `DIV`: truncating integer division.
    IntDiv,
}

/// The reserved words that are not operators.
#[derive(Clone, Copy, Debug, PartialEq, Eq, Structural)]
pub enum Keyword {
    Program,
    Var,
    Begin,
    End,
    Procedure,
    Integer,
    Real,
}

/// Punctuation marks.
#[derive(Clone, Copy, Debug, PartialEq, Eq, Structural)]
pub enum Punct {
    LParen,
    RParen,
    Colon,
    Comma,
    Semicolon,
    Dot,
    Assign,
}

/// An exact real number `num / den`; `den` is positive, and arithmetic keeps
/// the fraction in lowest terms. Both parts are `i64`, so a literal with more
/// than eighteen fraction digits, or a computation whose result needs a
/// larger numerator or denominator (a product of many small fractions, say),
/// fails instead of being rounded.
#[derive(Clone, Copy, Debug, PartialEq, Eq, Structural)]
pub struct Real {
    pub num: i64,
    pub den: i64,
}

impl Real {
    pub open spec fn wf(self) -> bool {
        self.den > 0
    }
}

pub open spec fn gcd(a: nat, b: nat) -> nat
    decreases b,
{
    if b == 0 {
        a
    } else {
        gcd(b, a % b)
    }
}

pub proof fn lemma_gcd_bounds(a: nat, b: nat)
    requires
        b > 0,
    ensures
        1 <= gcd(a, b) <= b,
    decreases b,
{
    assert(gcd(a, b) == gcd(b, a % b));
    if a % b != 0 {
        lemma_gcd_bounds(b, a % b);
    } else {
        assert(gcd(b, 0) == b);
    }
}

/// The fraction `n / d` (`d` positive) with both parts divided by their
/// greatest common divisor.
pub open spec fn lowest_terms(n: int, d: int) -> (int, int) {
    let g = gcd((if n < 0 {
        -n
    } else {
        n
    }) as nat, d as nat);
    let m = (if n < 0 {
        -n
    } else {
        n
    }) / g as int;
    (if n < 0 {
        -m
    } else {
        m
    }, d / g as int)
}

proof fn lemma_gcd_divides(a: nat, b: nat)
    requires
        b > 0,
    ensures
        a % gcd(a, b) == 0,
        b % gcd(a, b) == 0,
    decreases b,
{
    lemma_gcd_bounds(a, b);
    let g = gcd(a, b);
    assert(g == gcd(b, a % b));
    if a % b == 0 {
        assert(gcd(b, 0) == b);
        lemma_mod_self_0(b as int);
    } else {
        lemma_gcd_divides(b, a % b);
        lemma_gcd_bounds(b, a % b);
        lemma_fundamental_div_mod(a as int, b as int);
        lemma_fundamental_div_mod(b as int, g as int);
        lemma_fundamental_div_mod((a % b) as int, g as int);
        let k = (b as int / g as int) * (a as int / b as int) + (a % b) as int / g as int;
        assert(a as int == k * g) by (nonlinear_arith)
            requires
                a as int == b as int * (a as int / b as int) + (a % b) as int,
                b as int == g as int * (b as int / g as int),
                (a % b) as int == g as int * ((a % b) as int / g as int),
                k == (b as int / g as int) * (a as int / b as int) + (a % b) as int / g as int,
        ;
        lemma_mod_multiples_basic(k, g as int);
    }
}

/// Reducing a fraction keeps its value: `n / d` and its lowest terms are
/// the same number, and the denominator stays positive.
pub proof fn lowest_terms_keeps_value(n: int, d: int)
    requires
        d > 0,
    ensures
        lowest_terms(n, d).1 > 0,
        n * lowest_terms(n, d).1 == lowest_terms(n, d).0 * d,
{
    let a: nat = (if n < 0 {
        -n
    } else {
        n
    }) as nat;
    let g = gcd(a, d as nat);
    lemma_gcd_bounds(a, d as nat);
    lemma_gcd_divides(a, d as nat);
    lemma_fundamental_div_mod(a as int, g as int);
    lemma_fundamental_div_mod(d, g as int);
    let m = a as int / g as int;
    let e = d / g as int;
    assert(a as int == g * m && d == g * e);
    assert(e > 0) by (nonlinear_arith)
        requires
            d == g * e,
            d > 0,
            g > 0,
    ;
    assert(a as int * e == m * d) by (nonlinear_arith)
        requires
            a as int == g * m,
            d == g * e,
    ;
    if n < 0 {
        assert(n * e == (-m) * d) by (nonlinear_arith)
            requires
                a as int * e == m * d,
                a as int == -n,
        ;
    }
}

/// `n / d` in lowest terms; `d` is positive.
pub fn reduce(n: i128, d: i128) -> (r: (i128, i128))
    requires
        n > i128::MIN,
        d > 0,
    ensures
        r.0 == lowest_terms(n as int, d as int).0,
        r.1 == lowest_terms(n as int, d as int).1,
        1 <= r.1 <= d,
        n >= 0 ==> 0 <= r.0 <= n,
        n < 0 ==> n <= r.0 <= 0,
{
    let mag: u128 = if n < 0 {
        (-n) as u128
    } else {
        n as u128
    };
    let mut a: u128 = mag;
    let mut b: u128 = d as u128;
    while b != 0
        invariant
            gcd(a as nat, b as nat) == gcd(mag as nat, d as nat),
        decreases b,
    {
        let t = a % b;
        a = b;
        b = t;
    }
    proof {
        lemma_gcd_bounds(mag as nat, d as nat);
    }
    let g = a;
    let m = mag / g;
    let e = (d as u128) / g;
    assert(m <= mag && 1 <= e <= d) by (nonlinear_arith)
        requires
            m == mag / g,
            e == (d as u128) / g,
            1 <= g <= d,
    ;
    (if n < 0 {
        -(m as i128)
    } else {
        m as i128
    }, e as i128)
}

/// A token of the source text.
#[derive(Debug, PartialEq)]
pub enum Token {
    IntegerLiteral(i64),
    RealLiteral(Real),
    Operator(ArithmeticOp),
    /// An identifier, in upper case.
    Identifier(String),
    Keyword(Keyword),
    Punctuation(Punct),
    EndOfInput,
}

/// What a token is, with identifiers as character sequences.
pub enum SToken {
    IntegerLiteral(i64),
    RealLiteral(Real),
    Operator(ArithmeticOp),
    Identifier(Seq<char>),
    Keyword(Keyword),
    Punctuation(Punct),
    EndOfInput,
}

impl View for Token {
    type V = SToken;

    open spec fn view(&self) -> SToken {
        match self {
            Token::IntegerLiteral(n) => SToken::IntegerLiteral(*n),
            Token::RealLiteral(r) => SToken::RealLiteral(*r),
            Token::Operator(op) => SToken::Operator(*op),
            Token::Identifier(s) => SToken::Identifier(s@),
            Token::Keyword(k) => SToken::Keyword(*k),
            Token::Punctuation(p) => SToken::Punctuation(*p),
            Token::EndOfInput => SToken::EndOfInput,
        }
    }
}

pub open spec fn is_lower(c: char) -> bool {
    'a' <= c && c <= 'z'
}

pub open spec fn is_upper(c: char) -> bool {
    'A' <= c && c <= 'Z'
}

/// Letters of identifiers are the ASCII letters; other letters are not
/// recognised and end lexing with an error.
pub open spec fn is_letter(c: char) -> bool {
    is_lower(c) || is_upper(c)
}

pub open spec fn is_digit(c: char) -> bool {
    '0' <= c && c <= '9'
}

pub open spec fn is_alnum(c: char) -> bool {
    is_letter(c) || is_digit(c)
}

pub open spec fn upper_char(c: char) -> char {
    if is_lower(c) {
        ((c as u8) - 32) as u8 as char
    } else {
        c
    }
}

/// The word with its letters in upper case.
pub open spec fn upper(s: Seq<char>) -> Seq<char> {
    s.map_values(|c: char| upper_char(c))
}

/// The token that an upper-case word stands for.
pub open spec fn word_token(w: Seq<char>) -> SToken {
    if w == "PROGRAM"@ {
        SToken::Keyword(Keyword::Program)
    } else if w == "VAR"@ {
        SToken::Keyword(Keyword::Var)
    } else if w == "BEGIN"@ {
        SToken::Keyword(Keyword::Begin)
    } else if w == "END"@ {
        SToken::Keyword(Keyword::End)
    } else if w == "PROCEDURE"@ {
        SToken::Keyword(Keyword::Procedure)
    } else if w == "INTEGER"@ {
        SToken::Keyword(Keyword::Integer)
    } else if w == "REAL"@ {
        SToken::Keyword(Keyword::Real)
    } else if w == "DIV"@ {
        SToken::Operator(ArithmeticOp::IntDiv)
    } else {
        SToken::Identifier(w)
    }
}

fn upper_char_exec(c: char) -> (r: char)
    ensures
        r == upper_char(c),
{
    if 'a' <= c && c <= 'z' {
        ((c as u8) - 32) as char
    } else {
        c
    }
}

/// Relies on `String::push`: the character is appended at the end.
#[verifier::external_body]
pub(crate) fn push_char(s: &mut String, c: char)
    ensures
        final(s)@ == old(s)@.push(c),
{
    s.push(c)
}

/// The characters of a string.
pub fn chars_of(s: &str) -> (r: Vec<char>)
    ensures
        r@ == s@,
{
    let mut v: Vec<char> = Vec::new();
    for c in it: s.chars()
        invariant
            v@ == it.seq().subrange(0, it.index() as int),
    {
        v.push(c);
    }
    v
}

/// A string of the characters `s[from..to]`, in upper case.
pub fn upper_string(s: &Vec<char>, from: usize, to: usize) -> (r: String)
    requires
        from <= to <= s@.len(),
    ensures
        r@ == upper(s@.subrange(from as int, to as int)),
{
    let mut r = String::new();
    let mut i = from;
    while i < to
        invariant
            from <= i <= to <= s@.len(),
            r@ == upper(s@.subrange(from as int, i as int)),
        decreases to - i,
    {
        push_char(&mut r, upper_char_exec(s[i]));
        i = i + 1;
        assert(upper(s@.subrange(from as int, i as int)) =~= upper(
            s@.subrange(from as int, i - 1),
        ).push(upper_char(s@[i - 1])));
    }
    r
}

fn same_word(w: &String, k: &str) -> (r: bool)
    ensures
        r == (w@ == k@),
{
    let a = w.as_str();
    let n = a.unicode_len();
    if n != k.unicode_len() {
        return false;
    }
    let mut i: usize = 0;
    while i < n
        invariant
            n == a@.len() == k@.len(),
            a@ == w@,
            i <= n,
            forall|j: int| 0 <= j < i ==> a@[j] == k@[j],
        decreases n - i,
    {
        if a.get_char(i) != k.get_char(i) {
            return false;
        }
        i = i + 1;
    }
    assert(w@ =~= k@);
    true
}

impl Token {
    /// The token for an identifier or reserved word written `id`, in any case.
    pub fn get_token(id: &str) -> (t: Token)
        ensures
            t@ == word_token(upper(id@)),
    {
        let cs = chars_of(id);
        let w = upper_string(&cs, 0, cs.len());
        proof {
            assert(cs@.subrange(0, cs@.len() as int) =~= cs@);
        }
        Token::word(w)
    }

    /// The token for an upper-case word.
    pub fn word(w: String) -> (t: Token)
        ensures
            t@ == word_token(w@),
    {
        if same_word(&w, "PROGRAM") {
            Token::Keyword(Keyword::Program)
        } else if same_word(&w, "VAR") {
            Token::Keyword(Keyword::Var)
        } else if same_word(&w, "BEGIN") {
            Token::Keyword(Keyword::Begin)
        } else if same_word(&w, "END") {
            Token::Keyword(Keyword::End)
        } else if same_word(&w, "PROCEDURE") {
            Token::Keyword(Keyword::Procedure)
        } else if same_word(&w, "INTEGER") {
            Token::Keyword(Keyword::Integer)
        } else if same_word(&w, "REAL") {
            Token::Keyword(Keyword::Real)
        } else if same_word(&w, "DIV") {
            Token::Operator(ArithmeticOp::IntDiv)
        } else {
            Token::Identifier(w)
        }
    }
}

} // verus!
