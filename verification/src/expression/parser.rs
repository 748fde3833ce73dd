//! Tokenizing and parsing of expressions.

use vstd::prelude::*;

use super::{push_char, Expression, ExpressionView};

verus! {

broadcast use vstd::string::group_string_axioms;

/// The mathematical shape of a parse error.
pub enum ParseFailure {
    /// The expression is invalid.
    InvalidExpression,
    /// An unexpected token was encountered.
    UnexpectedToken(Seq<char>),
    /// Mismatched parentheses were encountered.
    MismatchedParentheses,
}

/// An error during parsing of an expression.
#[derive(Debug)]
pub enum ParseError {
    /// The expression is invalid.
    InvalidExpression,
    /// An unexpected token was encountered.
    UnexpectedToken(String),
    /// Mismatched parentheses were encountered.
    MismatchedParentheses,
}

impl View for ParseError {
    type V = ParseFailure;

    open spec fn view(&self) -> ParseFailure {
        match self {
            ParseError::InvalidExpression => ParseFailure::InvalidExpression,
            ParseError::UnexpectedToken(t) => ParseFailure::UnexpectedToken(t@),
            ParseError::MismatchedParentheses => ParseFailure::MismatchedParentheses,
        }
    }
}

impl ParseError {
    /// The human-readable description of the error.
    pub fn to_string(&self) -> (s: String)
        ensures
            s@ == error_message(self@),
    {
        let mut out = String::new();
        match self {
            ParseError::InvalidExpression => {
                push_str_chars(&mut out, "Invalid expression");
            },
            ParseError::UnexpectedToken(t) => {
                push_str_chars(&mut out, "Unexpected token: ");
                out.append(t.as_str());
            },
            ParseError::MismatchedParentheses => {
                push_str_chars(&mut out, "Mismatched parentheses");
            },
        }
        out
    }
}

/// The description of a parse error.
pub open spec fn error_message(f: ParseFailure) -> Seq<char> {
    match f {
        ParseFailure::InvalidExpression => "Invalid expression"@,
        ParseFailure::UnexpectedToken(t) => "Unexpected token: "@ + t,
        ParseFailure::MismatchedParentheses => "Mismatched parentheses"@,
    }
}

fn push_str_chars(out: &mut String, s: &str)
    ensures
        final(out)@ == old(out)@ + s@,
{
    out.append(s);
}

impl PartialEq for ParseError {
    fn eq(&self, other: &Self) -> (r: bool) {
        match (self, other) {
            (ParseError::InvalidExpression, ParseError::InvalidExpression) => true,
            (ParseError::UnexpectedToken(a), ParseError::UnexpectedToken(b)) => *a == *b,
            (ParseError::MismatchedParentheses, ParseError::MismatchedParentheses) => true,
            _ => false,
        }
    }
}

impl vstd::std_specs::cmp::PartialEqSpecImpl for ParseError {
    open spec fn obeys_eq_spec() -> bool {
        true
    }

    open spec fn eq_spec(&self, other: &Self) -> bool {
        self@ == other@
    }
}

/// The characters that `char::is_whitespace` accepts (the Unicode `White_Space` property).
pub open spec fn is_space(c: char) -> bool {
    ||| '\u{9}' <= c <= '\u{D}'
    ||| c == ' '
    ||| c == '\u{85}'
    ||| c == '\u{A0}'
    ||| c == '\u{1680}'
    ||| '\u{2000}' <= c <= '\u{200A}'
    ||| c == '\u{2028}'
    ||| c == '\u{2029}'
    ||| c == '\u{202F}'
    ||| c == '\u{205F}'
    ||| c == '\u{3000}'
}

/// The characters that form tokens of their own.
pub open spec fn is_symbol(c: char) -> bool {
    c == '(' || c == ')' || c == '+' || c == '*'
}

/// The characters names are made of.
pub open spec fn is_name_char(c: char) -> bool {
    !is_space(c) && !is_symbol(c)
}

/// The longest prefix of `s` made of name characters.
pub open spec fn name_prefix(s: Seq<char>) -> Seq<char>
    decreases s.len(),
{
    if s.len() > 0 && is_name_char(s[0]) {
        seq![s[0]] + name_prefix(s.drop_first())
    } else {
        Seq::empty()
    }
}

/// The tokens of a text: each symbol is a token, names are maximal runs of name
/// characters, and whitespace only separates.
pub open spec fn tokens(s: Seq<char>) -> Seq<Seq<char>>
    decreases s.len(),
{
    if s.len() == 0 {
        Seq::empty()
    } else if is_space(s[0]) {
        tokens(s.drop_first())
    } else if is_symbol(s[0]) {
        seq![seq![s[0]]] + tokens(s.drop_first())
    } else {
        let w = name_prefix(s);
        if 0 < w.len() <= s.len() {
            seq![w] + tokens(s.skip(w.len() as int))
        } else {
            Seq::empty()
        }
    }
}

pub(crate) proof fn lemma_name_prefix(s: Seq<char>)
    ensures
        name_prefix(s).len() <= s.len(),
        name_prefix(s) == s.take(name_prefix(s).len() as int),
        forall|i: int| 0 <= i < name_prefix(s).len() ==> is_name_char(#[trigger] s[i]),
        name_prefix(s).len() < s.len() ==> !is_name_char(s[name_prefix(s).len() as int]),
        s.len() > 0 && is_name_char(s[0]) ==> name_prefix(s).len() > 0,
    decreases s.len(),
{
    if s.len() > 0 && is_name_char(s[0]) {
        lemma_name_prefix(s.drop_first());
        assert(name_prefix(s) =~= s.take(name_prefix(s).len() as int));
        assert forall|i: int| 0 <= i < name_prefix(s).len() implies is_name_char(#[trigger] s[i]) by {
            if i > 0 {
                assert(s[i] == s.drop_first()[i - 1]);
            }
        }
    } else {
        assert(name_prefix(s) =~= s.take(0));
    }
}

/// The token sequence as the parser reads it: `seq![c]` is the one-character token `c`.
pub type TokenSeq = Seq<Seq<char>>;

/// A sum of the given terms: the term itself where there is only one.
pub open spec fn sum_of_terms(terms: Seq<ExpressionView>) -> ExpressionView {
    if terms.len() == 1 {
        terms[0]
    } else {
        ExpressionView::Plus(terms)
    }
}

/// Addition level: products joined by `+`, all terms of one chain in one sum.
pub open spec fn parse_sum(t: TokenSeq, pos: int) -> Result<(ExpressionView, int), (ParseFailure, int)>
    decreases t.len() - pos, 4int,
{
    match parse_product(t, pos) {
        Err(f) => Err(f),
        Ok((e, p)) => if pos < p <= t.len() {
            sum_tail(t, p, seq![e])
        } else {
            Ok((e, p))
        },
    }
}

/// The `+ product` continuations after the terms read so far.
pub open spec fn sum_tail(t: TokenSeq, pos: int, terms: Seq<ExpressionView>) -> Result<
    (ExpressionView, int),
    (ParseFailure, int),
>
    decreases t.len() - pos, 3int,
{
    if 0 <= pos < t.len() && t[pos] == seq!['+'] {
        match parse_product(t, pos + 1) {
            Err(f) => Err(f),
            Ok((r, p)) => if pos < p <= t.len() {
                sum_tail(t, p, terms.push(r))
            } else {
                Ok((sum_of_terms(terms.push(r)), p))
            },
        }
    } else {
        Ok((sum_of_terms(terms), pos))
    }
}

/// Multiplication level: primaries joined by `*`, grouped to the left.
pub open spec fn parse_product(t: TokenSeq, pos: int) -> Result<(ExpressionView, int), (ParseFailure, int)>
    decreases t.len() - pos, 2int,
{
    match parse_primary(t, pos) {
        Err(f) => Err(f),
        Ok((e, p)) => if pos < p <= t.len() {
            product_tail(t, p, e)
        } else {
            Ok((e, p))
        },
    }
}

/// The `* primary` continuations after the left operand `left`.
pub open spec fn product_tail(t: TokenSeq, pos: int, left: ExpressionView) -> Result<
    (ExpressionView, int),
    (ParseFailure, int),
>
    decreases t.len() - pos, 1int,
{
    if 0 <= pos < t.len() && t[pos] == seq!['*'] {
        match parse_primary(t, pos + 1) {
            Err(f) => Err(f),
            Ok((r, p)) => {
                let e = ExpressionView::Mul(Box::new(left), Box::new(r));
                if pos < p <= t.len() {
                    product_tail(t, p, e)
                } else {
                    Ok((e, p))
                }
            },
        }
    } else {
        Ok((left, pos))
    }
}

/// A name, or a sum in parentheses.
pub open spec fn parse_primary(t: TokenSeq, pos: int) -> Result<(ExpressionView, int), (ParseFailure, int)>
    decreases t.len() - pos, 0int,
{
    if pos < 0 || pos >= t.len() {
        Err((ParseFailure::InvalidExpression, pos))
    } else if t[pos] == seq!['('] {
        match parse_sum(t, pos + 1) {
            Err(f) => Err(f),
            Ok((e, p)) => if 0 <= p < t.len() && t[p] == seq![')'] {
                Ok((e, p + 1))
            } else {
                Err((ParseFailure::MismatchedParentheses, p))
            },
        }
    } else if t[pos] == seq![')'] {
        Err((ParseFailure::UnexpectedToken(seq![')']), pos))
    } else if t[pos] == seq!['+'] || t[pos] == seq!['*'] {
        Err((ParseFailure::UnexpectedToken(t[pos]), pos))
    } else {
        Ok((ExpressionView::Value(t[pos]), pos + 1))
    }
}

/// What parsing a text gives; tokens after a complete expression are not read.
pub open spec fn parse_text(s: Seq<char>) -> Result<ExpressionView, ParseFailure> {
    match parse_sum(tokens(s), 0) {
        Ok((e, _)) => Ok(e),
        Err((f, _)) => Err(f),
    }
}

/// The characters of a string slice.
fn chars_of(s: &str) -> (v: Vec<char>)
    ensures
        v@ == s@,
{
    let mut v: Vec<char> = Vec::new();
    for c in iter: s.chars()
        invariant
            v@ == iter.seq().take(iter.index()),
    {
        v.push(c);
    }
    assert(v@ =~= s@);
    v
}

/// Whether a character is whitespace.
fn is_space_char(c: char) -> (b: bool)
    ensures
        b == is_space(c),
{
    ('\u{9}' <= c && c <= '\u{D}') || c == ' ' || c == '\u{85}' || c == '\u{A0}' || c == '\u{1680}'
        || ('\u{2000}' <= c && c <= '\u{200A}') || c == '\u{2028}' || c == '\u{2029}' || c
        == '\u{202F}' || c == '\u{205F}' || c == '\u{3000}'
}

fn is_symbol_char(c: char) -> (b: bool)
    ensures
        b == is_symbol(c),
{
    c == '(' || c == ')' || c == '+' || c == '*'
}

fn single_char_string(c: char) -> (s: String)
    ensures
        s@ == seq![c],
{
    let mut s = String::new();
    push_char(&mut s, c);
    assert(s@ =~= seq![c]);
    s
}

/// The views of a list of strings.
pub open spec fn string_views(v: Seq<String>) -> Seq<Seq<char>> {
    v.map_values(|t: String| t@)
}

/// Whether a token is the one-character token `c`.
fn is_token(t: &String, c: char) -> (b: bool)
    ensures
        b == (t@ == seq![c]),
{
    let s = t.as_str();
    if s.unicode_len() == 1 {
        let d = s.get_char(0);
        if d == c {
            assert(s@ =~= seq![c]);
        }
        d == c
    } else {
        false
    }
}

/// A parser over the tokens of an input text.
pub struct Parser {
    tokens: Vec<String>,
    pos: usize,
}

impl Parser {
    /// The tokens the parser reads.
    pub closed spec fn token_views(&self) -> TokenSeq {
        string_views(self.tokens@)
    }

    /// The index of the next token to read.
    pub closed spec fn position(&self) -> int {
        self.pos as int
    }

    /// Create a parser for the given input, positioned at its first token.
    pub fn new(input: &str) -> (p: Self)
        ensures
            p.token_views() == tokens(input@),
            p.position() == 0,
    {
        Self { tokens: Self::tokenize(input), pos: 0 }
    }

    /// Parse a sum from the current position.
    pub fn parse(&mut self) -> (r: Result<Expression, ParseError>)
        ensures
            final(self).token_views() == old(self).token_views(),
            match parse_sum(old(self).token_views(), old(self).position()) {
                Ok((e, p)) => r matches Ok(x) && x@ == e && final(self).position() == p,
                Err((f, p)) => r matches Err(x) && x@ == f && final(self).position() == p,
            },
    {
        self.parse_add()
    }

    /// Split the input into tokens.
    fn tokenize(input: &str) -> (v: Vec<String>)
        ensures
            string_views(v@) == tokens(input@),
    {
        let cs = chars_of(input);
        let n = cs.len();
        let mut out: Vec<String> = Vec::new();
        let mut i: usize = 0;
        assert(cs@.skip(0) =~= cs@);
        while i < n
            invariant
                n == cs@.len(),
                cs@ == input@,
                i <= n,
                tokens(cs@) == string_views(out@) + tokens(cs@.skip(i as int)),
            decreases n - i,
        {
            let c = cs[i];
            let ghost rest = cs@.skip(i as int);
            assert(rest[0] == c);
            assert(rest.drop_first() =~= cs@.skip(i + 1));
            if is_space_char(c) {
                i = i + 1;
            } else if is_symbol_char(c) {
                let t = single_char_string(c);
                let ghost before = out@;
                out.push(t);
                assert(string_views(out@) =~= string_views(before) + seq![seq![c]]);
                i = i + 1;
            } else {
                let mut word = String::new();
                let mut j = i;
                proof {
                    lemma_name_prefix(rest);
                }
                while j < n && is_name_char_exec(cs[j])
                    invariant
                        n == cs@.len(),
                        i <= j <= n,
                        rest == cs@.skip(i as int),
                        word@ == cs@.subrange(i as int, j as int),
                        forall|k: int| i <= k < j ==> is_name_char(#[trigger] cs@[k]),
                        name_prefix(rest).len() <= rest.len(),
                        name_prefix(rest) == rest.take(name_prefix(rest).len() as int),
                        forall|k: int|
                            0 <= k < name_prefix(rest).len() ==> is_name_char(#[trigger] rest[k]),
                        name_prefix(rest).len() < rest.len() ==> !is_name_char(
                            rest[name_prefix(rest).len() as int],
                        ),
                        j - i <= name_prefix(rest).len(),
                    decreases n - j,
                {
                    push_char(&mut word, cs[j]);
                    assert(word@ =~= cs@.subrange(i as int, j + 1));
                    j = j + 1;
                }
                assert(j - i == name_prefix(rest).len()) by {
                    if j - i < name_prefix(rest).len() {
                        assert(rest[j - i] == cs@[j as int]);
                    }
                }
                assert(word@ =~= name_prefix(rest));
                assert(rest.skip(name_prefix(rest).len() as int) =~= cs@.skip(j as int));
                let ghost before = out@;
                out.push(word);
                assert(string_views(out@) =~= string_views(before) + seq![name_prefix(rest)]);
                i = j;
            }
        }
        assert(cs@.skip(n as int) =~= Seq::<char>::empty());
        assert(string_views(out@) + Seq::<Seq<char>>::empty() =~= string_views(out@));
        out
    }

    /// Level 1: addition, the lowest precedence.
    fn parse_add(&mut self) -> (r: Result<Expression, ParseError>)
        ensures
            final(self).tokens@ == old(self).tokens@,
            match parse_sum(old(self).token_views(), old(self).pos as int) {
                Ok((e, p)) => r matches Ok(x) && x@ == e && final(self).pos == p,
                Err((f, p)) => r matches Err(x) && x@ == f && final(self).pos == p,
            },
            r is Ok ==> old(self).pos < final(self).pos <= old(self).tokens@.len(),
        decreases old(self).tokens@.len() - old(self).pos, 4int,
    {
        let ghost t = self.token_views();
        let ghost start = self.pos as int;
        let first = match self.parse_mul() {
            Ok(e) => e,
            Err(f) => return Err(f),
        };
        let mut terms: Vec<Expression> = Vec::new();
        terms.push(first);
        proof {
            assert(terms@.map_values(|x: Expression| x@) =~= seq![terms@[0]@]);
        }
        while self.pos < self.tokens.len() && is_token(&self.tokens[self.pos], '+')
            invariant
                self.tokens@ == old(self).tokens@,
                start == old(self).pos,
                self.token_views() == t,
                t.len() == self.tokens@.len(),
                start < self.pos <= self.tokens@.len(),
                terms@.len() >= 1,
                parse_sum(t, start) == sum_tail(t, self.pos as int, terms@.map_values(|x: Expression| x@)),
            decreases self.tokens@.len() - self.pos,
        {
            proof {
                assert(t[self.pos as int] == self.tokens@[self.pos as int]@);
            }
            self.pos = self.pos + 1;
            let right = match self.parse_mul() {
                Ok(e) => e,
                Err(f) => return Err(f),
            };
            let ghost before = terms@.map_values(|x: Expression| x@);
            let ghost rv = right@;
            terms.push(right);
            proof {
                assert(terms@.map_values(|x: Expression| x@) =~= before.push(rv));
            }
        }
        proof {
            if self.pos < self.tokens@.len() {
                assert(t[self.pos as int] == self.tokens@[self.pos as int]@);
            }
        }
        let ghost tv = terms@.map_values(|x: Expression| x@);
        if terms.len() == 1 {
            let e = terms.pop().unwrap();
            proof {
                assert(e@ == tv[0]);
            }
            Ok(e)
        } else {
            let e = Expression::Plus(terms);
            proof {
                assert(e@->Plus_0 =~= tv);
            }
            Ok(e)
        }
    }

    /// Level 2: multiplication.
    fn parse_mul(&mut self) -> (r: Result<Expression, ParseError>)
        ensures
            final(self).tokens@ == old(self).tokens@,
            match parse_product(old(self).token_views(), old(self).pos as int) {
                Ok((e, p)) => r matches Ok(x) && x@ == e && final(self).pos == p,
                Err((f, p)) => r matches Err(x) && x@ == f && final(self).pos == p,
            },
            r is Ok ==> old(self).pos < final(self).pos <= old(self).tokens@.len(),
        decreases old(self).tokens@.len() - old(self).pos, 2int,
    {
        let ghost t = self.token_views();
        let ghost start = self.pos as int;
        let mut left = match self.parse_primary() {
            Ok(e) => e,
            Err(f) => return Err(f),
        };
        while self.pos < self.tokens.len() && is_token(&self.tokens[self.pos], '*')
            invariant
                self.tokens@ == old(self).tokens@,
                start == old(self).pos,
                self.token_views() == t,
                t.len() == self.tokens@.len(),
                start < self.pos <= self.tokens@.len(),
                parse_product(t, start) == product_tail(t, self.pos as int, left@),
            decreases self.tokens@.len() - self.pos,
        {
            proof {
                assert(t[self.pos as int] == self.tokens@[self.pos as int]@);
            }
            self.pos = self.pos + 1;
            let right = match self.parse_primary() {
                Ok(e) => e,
                Err(f) => return Err(f),
            };
            left = Expression::Mul(Box::new(left), Box::new(right));
        }
        proof {
            if self.pos < self.tokens@.len() {
                assert(t[self.pos as int] == self.tokens@[self.pos as int]@);
            }
        }
        Ok(left)
    }

    /// Level 3: names and parentheses, the highest precedence.
    fn parse_primary(&mut self) -> (r: Result<Expression, ParseError>)
        ensures
            final(self).tokens@ == old(self).tokens@,
            match parse_primary(old(self).token_views(), old(self).pos as int) {
                Ok((e, p)) => r matches Ok(x) && x@ == e && final(self).pos == p,
                Err((f, p)) => r matches Err(x) && x@ == f && final(self).pos == p,
            },
            r is Ok ==> old(self).pos < final(self).pos <= old(self).tokens@.len(),
        decreases old(self).tokens@.len() - old(self).pos, 0int,
    {
        let ghost t = self.token_views();
        if self.pos >= self.tokens.len() {
            return Err(ParseError::InvalidExpression);
        }
        proof {
            assert(t[self.pos as int] == self.tokens@[self.pos as int]@);
        }
        let open = is_token(&self.tokens[self.pos], '(');
        let close = is_token(&self.tokens[self.pos], ')');
        let plus = is_token(&self.tokens[self.pos], '+');
        let times = is_token(&self.tokens[self.pos], '*');
        if open {
            self.pos = self.pos + 1;
            let expr = match self.parse_add() {
                Ok(e) => e,
                Err(f) => return Err(f),
            };
            if self.pos < self.tokens.len() && is_token(&self.tokens[self.pos], ')') {
                proof {
                    assert(t[self.pos as int] == self.tokens@[self.pos as int]@);
                }
                self.pos = self.pos + 1;
                Ok(expr)
            } else {
                proof {
                    if self.pos < self.tokens@.len() {
                        assert(t[self.pos as int] == self.tokens@[self.pos as int]@);
                    }
                }
                Err(ParseError::MismatchedParentheses)
            }
        } else if close {
            Err(ParseError::UnexpectedToken(single_char_string(')')))
        } else if plus || times {
            Err(ParseError::UnexpectedToken(self.tokens[self.pos].clone()))
        } else {
            let v = self.tokens[self.pos].clone();
            self.pos = self.pos + 1;
            Ok(Expression::Value(v))
        }
    }
}

fn is_name_char_exec(c: char) -> (b: bool)
    ensures
        b == is_name_char(c),
{
    !is_space_char(c) && !is_symbol_char(c)
}

impl std::str::FromStr for Expression {
    type Err = ParseError;

    fn from_str(s: &str) -> (r: Result<Self, Self::Err>)
        ensures
            match parse_sum(tokens(s@), 0) {
                Ok((e, _)) => r matches Ok(x) && x@ == e,
                Err((f, _)) => r matches Err(x) && x@ == f,
            },
    {
        Parser::new(s).parse()
    }
}

} // verus!
