use vstd::prelude::*;

use crate::error::{ErrorModel, MathlineError};
use crate::text::{chars_of, str_eq};
use crate::token::{Number, NumberModel, Op, Token, TokenModel};

verus! {

pub open spec fn is_space(c: char) -> bool {
    c == ' ' || c == '\t' || c == '\n'
}

pub open spec fn is_digit(c: char) -> bool {
    '0' <= c && c <= '9'
}

/// A letter: an ASCII letter or a Greek one, so that `π` and `τ` are names.
pub open spec fn is_alpha(c: char) -> bool {
    ('a' <= c && c <= 'z') || ('A' <= c && c <= 'Z') || ('Α' <= c && c <= 'Ω') || ('α' <= c
        && c <= 'ω')
}

pub open spec fn digit_value(c: char) -> nat {
    (c as int - '0' as int) as nat
}

/// End of the run of digits and points that starts at `i`.
pub open spec fn number_end(s: Seq<char>, i: int) -> int
    decreases s.len() - i,
{
    if 0 <= i < s.len() && (is_digit(s[i]) || s[i] == '.') {
        number_end(s, i + 1)
    } else {
        i
    }
}

/// End of the run of letters and digits that starts at `i`.
pub open spec fn word_end(s: Seq<char>, i: int) -> int
    decreases s.len() - i,
{
    if 0 <= i < s.len() && (is_digit(s[i]) || is_alpha(s[i])) {
        word_end(s, i + 1)
    } else {
        i
    }
}

/// Position of the first point in `s[i..j]`, or `j` when there is none.
pub open spec fn first_point(s: Seq<char>, i: int, j: int) -> int
    decreases j - i,
{
    if i >= j {
        j
    } else if s[i] == '.' {
        i
    } else {
        first_point(s, i + 1, j)
    }
}

/// The number that the decimal digits `s[i..j]` spell.
pub open spec fn digits_value(s: Seq<char>, i: int, j: int) -> nat
    decreases j - i,
{
    if j <= i {
        0
    } else {
        digits_value(s, i, j - 1) * 10 + digit_value(s[j - 1])
    }
}

/// The numeric literal that starts at `i`, and where it ends. The digits
/// before the first point must fit in 64 bits.
pub open spec fn number_token(s: Seq<char>, i: int) -> Result<(TokenModel, int), ErrorModel> {
    let end = number_end(s, i);
    let p = first_point(s, i, end);
    let whole = digits_value(s, i, p);
    if whole > u64::MAX {
        Err(ErrorModel::InvalidSyntax)
    } else {
        let fraction = if p < end {
            Some(s.subrange(p + 1, end))
        } else {
            None
        };
        Ok((TokenModel::Number(NumberModel { whole: whole as u64, fraction }), end))
    }
}

/// A word: a boolean, a word operator, or a symbol.
pub open spec fn word_token(w: Seq<char>) -> TokenModel {
    if w == "True"@ || w == "true"@ {
        TokenModel::Bool(true)
    } else if w == "False"@ || w == "false"@ {
        TokenModel::Bool(false)
    } else if w == "not"@ {
        TokenModel::Op(Op::Not)
    } else if w == "and"@ {
        TokenModel::Op(Op::And)
    } else if w == "or"@ {
        TokenModel::Op(Op::Or)
    } else {
        TokenModel::Symbol(w)
    }
}

pub open spec fn followed_by(s: Seq<char>, i: int, c: char) -> bool {
    i + 1 < s.len() && s[i + 1] == c
}

pub open spec fn single(t: TokenModel, end: int) -> Result<(Seq<TokenModel>, int), ErrorModel> {
    Ok((seq![t], end))
}

/// An operator whose second character `c2` is optional.
pub open spec fn optional_second(
    s: Seq<char>,
    i: int,
    c2: char,
    one: Op,
    two: Op,
) -> Result<(Seq<TokenModel>, int), ErrorModel> {
    if followed_by(s, i, c2) {
        single(TokenModel::Op(two), i + 2)
    } else {
        single(TokenModel::Op(one), i + 1)
    }
}

/// An operator written with a doubled character.
pub open spec fn doubled(s: Seq<char>, i: int, op: Op) -> Result<(Seq<TokenModel>, int), ErrorModel> {
    if followed_by(s, i, s[i]) {
        single(TokenModel::Op(op), i + 2)
    } else {
        Err(ErrorModel::InvalidSyntax)
    }
}

/// A superscript digit: an exponent followed by the digit.
pub open spec fn superscript(d: u64, i: int) -> Result<(Seq<TokenModel>, int), ErrorModel> {
    Ok((
        seq![TokenModel::Op(Op::Exponent), TokenModel::Number(NumberModel { whole: d, fraction: None })],
        i + 1,
    ))
}

/// The tokens that start at `s[i]`, which is no whitespace, and where they
/// end. `≥` reads as greater-or-equal and `≤` as less-or-equal.
pub open spec fn scan(s: Seq<char>, i: int) -> Result<(Seq<TokenModel>, int), ErrorModel> {
    let c = s[i];
    if c == '+' {
        single(TokenModel::Op(Op::Plus), i + 1)
    } else if c == '-' {
        single(TokenModel::Op(Op::Minus), i + 1)
    } else if c == '*' {
        optional_second(s, i, '*', Op::Multiply, Op::Exponent)
    } else if c == '/' {
        optional_second(s, i, '/', Op::Divide, Op::Divide)
    } else if c == '%' {
        single(TokenModel::Op(Op::Modulo), i + 1)
    } else if c == '^' {
        single(TokenModel::Op(Op::Exponent), i + 1)
    } else if c == '.' {
        single(TokenModel::Op(Op::Dot), i + 1)
    } else if c == '&' {
        doubled(s, i, Op::And)
    } else if c == '|' {
        doubled(s, i, Op::Or)
    } else if c == '=' {
        optional_second(s, i, '=', Op::Equal, Op::Equal)
    } else if c == '!' {
        optional_second(s, i, '=', Op::Not, Op::NotEqual)
    } else if c == '<' {
        optional_second(s, i, '=', Op::LessThan, Op::LessThanOrEqual)
    } else if c == '>' {
        optional_second(s, i, '=', Op::GreaterThan, Op::GreaterThanOrEqual)
    } else if c == '≠' {
        single(TokenModel::Op(Op::NotEqual), i + 1)
    } else if c == '≥' {
        single(TokenModel::Op(Op::GreaterThanOrEqual), i + 1)
    } else if c == '≤' {
        single(TokenModel::Op(Op::LessThanOrEqual), i + 1)
    } else if c == '(' {
        single(TokenModel::LeftParen, i + 1)
    } else if c == ')' {
        single(TokenModel::RightParen, i + 1)
    } else if c == ',' {
        single(TokenModel::Comma, i + 1)
    } else if c == '⁰' {
        superscript(0, i)
    } else if c == '¹' {
        superscript(1, i)
    } else if c == '²' {
        superscript(2, i)
    } else if c == '³' {
        superscript(3, i)
    } else if c == '⁴' {
        superscript(4, i)
    } else if is_digit(c) {
        match number_token(s, i) {
            Ok((t, end)) => single(t, end),
            Err(e) => Err(e),
        }
    } else if is_alpha(c) {
        single(word_token(s.subrange(i, word_end(s, i))), word_end(s, i))
    } else {
        Err(ErrorModel::InvalidChar(c))
    }
}

/// The tokens of `s` from position `i` on, up to its end or to the first
/// character that cannot be lexed, and the error in the latter case.
pub open spec fn lex_from(s: Seq<char>, i: int) -> (Seq<TokenModel>, Option<ErrorModel>)
    decreases s.len() - i,
{
    if i < 0 || i >= s.len() {
        (seq![], None)
    } else if is_space(s[i]) {
        lex_from(s, i + 1)
    } else {
        match scan(s, i) {
            Ok((ts, j)) => if i < j <= s.len() {
                let rest = lex_from(s, j);
                (ts + rest.0, rest.1)
            } else {
                (seq![], None)
            },
            Err(e) => (seq![], Some(e)),
        }
    }
}

/// The tokens of a whole text, and the error that ends them, if any.
pub open spec fn lex(s: Seq<char>) -> (Seq<TokenModel>, Option<ErrorModel>) {
    lex_from(s, 0)
}

/// What one call of `Lexer::next` does to the tokens still to come.
pub open spec fn yields_next(
    before: (Seq<TokenModel>, Option<ErrorModel>),
    after: (Seq<TokenModel>, Option<ErrorModel>),
    r: Result<Option<Token>, MathlineError>,
) -> bool {
    if before.0.len() > 0 {
        match r {
            Ok(Some(t)) => t@ == before.0[0] && after == (before.0.drop_first(), before.1),
            _ => false,
        }
    } else {
        match before.1 {
            Some(e) => match r {
                Err(err) => err@ == e,
                _ => false,
            },
            None => r is Ok && r->Ok_0 is None && after == before,
        }
    }
}

pub proof fn lemma_number_end_bounds(s: Seq<char>, i: int)
    requires
        0 <= i <= s.len(),
    ensures
        i <= number_end(s, i) <= s.len(),
    decreases s.len() - i,
{
    if i < s.len() && (is_digit(s[i]) || s[i] == '.') {
        lemma_number_end_bounds(s, i + 1);
    }
}

pub proof fn lemma_word_end_bounds(s: Seq<char>, i: int)
    requires
        0 <= i <= s.len(),
    ensures
        i <= word_end(s, i) <= s.len(),
    decreases s.len() - i,
{
    if i < s.len() && (is_digit(s[i]) || is_alpha(s[i])) {
        lemma_word_end_bounds(s, i + 1);
    }
}

fn is_space_char(c: char) -> (r: bool)
    ensures
        r == is_space(c),
{
    c == ' ' || c == '\t' || c == '\n'
}

fn is_digit_char(c: char) -> (r: bool)
    ensures
        r == is_digit(c),
{
    '0' <= c && c <= '9'
}

fn is_alpha_char(c: char) -> (r: bool)
    ensures
        r == is_alpha(c),
{
    ('a' <= c && c <= 'z') || ('A' <= c && c <= 'Z') || ('Α' <= c && c <= 'Ω') || ('α' <= c
        && c <= 'ω')
}

/// Splits a text into tokens, one call of `next` at a time.
pub struct Lexer<'a> {
    input: &'a str,
    chars: Vec<char>,
    pos: usize,
    next: Option<Token>,
}

impl<'a> Lexer<'a> {
    pub closed spec fn wf(&self) -> bool {
        &&& self.chars@ == self.input@
        &&& self.pos <= self.chars.len()
    }

    /// The tokens still to come, and the error that ends them, if any.
    pub closed spec fn remaining(&self) -> (Seq<TokenModel>, Option<ErrorModel>) {
        let r = lex_from(self.chars@, self.pos as int);
        match self.next {
            Some(t) => (seq![t@] + r.0, r.1),
            None => r,
        }
    }

    /// A lexer over the whole input.
    pub fn new(input: &'a str) -> (r: Lexer<'a>)
        ensures
            r.wf(),
            r.remaining() == lex(input@),
    {
        Lexer { input, chars: chars_of(input), pos: 0, next: None }
    }

    /// Hands out the next token: the one a superscript left behind, or the
    /// next one in the text after any whitespace. `Ok(None)` at the end.
    pub fn next(&mut self) -> (r: Result<Option<Token>, MathlineError>)
        requires
            old(self).wf(),
        ensures
            final(self).wf(),
            yields_next(old(self).remaining(), final(self).remaining(), r),
    {
        if self.next.is_some() {
            let t = self.next.take();
            proof {
                let rest = lex_from(self.chars@, self.pos as int);
                assert((seq![t->Some_0@] + rest.0).drop_first() =~= rest.0);
            }
            return Ok(t);
        }
        let ghost s = self.chars@;
        let ghost start = self.pos as int;
        let n = self.chars.len();
        while self.pos < n && is_space_char(self.chars[self.pos])
            invariant
                self.wf(),
                self.next is None,
                self.chars@ == s,
                n == s.len(),
                lex_from(s, self.pos as int) == lex_from(s, start),
            decreases n - self.pos,
        {
            self.pos = self.pos + 1;
        }
        if self.pos >= n {
            assert(lex_from(s, start) == (Seq::<TokenModel>::empty(), None::<ErrorModel>));
            return Ok(None);
        }
        let ghost i = self.pos as int;
        assert(self.remaining() == lex_from(s, i));
        assert(!is_space(s[i]));
        let token = match self.scan_token() {
            Ok(t) => t,
            Err(e) => {
                assert(lex_from(s, i) == (Seq::<TokenModel>::empty(), Some(e@)));
                return Err(e);
            },
        };
        proof {
            let rest = lex_from(s, self.pos as int);
            let ts = scan(s, i)->Ok_0.0;
            assert(lex_from(s, i) == (ts + rest.0, rest.1));
            let after = self.remaining();
            assert((seq![token@] + after.0).drop_first() =~= after.0);
            assert(ts + rest.0 =~= seq![token@] + after.0);
        }
        Ok(Some(token))
    }

    /// Reads the token that starts at the current position, which holds no
    /// whitespace; a superscript leaves its digit in `next`.
    #[verifier::rlimit(40)]
    fn scan_token(&mut self) -> (r: Result<Token, MathlineError>)
        requires
            old(self).wf(),
            old(self).next is None,
            old(self).pos < old(self).chars.len(),
            !is_space(old(self).chars@[old(self).pos as int]),
        ensures
            final(self).input == old(self).input,
            final(self).chars == old(self).chars,
            final(self).wf(),
            match scan(old(self).chars@, old(self).pos as int) {
                Ok((ts, j)) => {
                    &&& r is Ok
                    &&& final(self).pos == j
                    &&& old(self).pos < j
                    &&& ts == match final(self).next {
                        Some(t2) => seq![r->Ok_0@, t2@],
                        None => seq![r->Ok_0@],
                    }
                },
                Err(e) => r is Err && r->Err_0@ == e,
            },
    {
        let i = self.pos;
        let c = self.chars[i];
        let token = if c == '+' {
            self.pos = i + 1;
            Token::Op(Op::Plus)
        } else if c == '-' {
            self.pos = i + 1;
            Token::Op(Op::Minus)
        } else if c == '*' {
            if self.followed_by(i, '*') {
                self.pos = i + 2;
                Token::Op(Op::Exponent)
            } else {
                self.pos = i + 1;
                Token::Op(Op::Multiply)
            }
        } else if c == '/' {
            // a doubled slash marks integer division and reads as one
            if self.followed_by(i, '/') {
                self.pos = i + 2;
            } else {
                self.pos = i + 1;
            }
            Token::Op(Op::Divide)
        } else if c == '%' {
            self.pos = i + 1;
            Token::Op(Op::Modulo)
        } else if c == '^' {
            self.pos = i + 1;
            Token::Op(Op::Exponent)
        } else if c == '.' {
            self.pos = i + 1;
            Token::Op(Op::Dot)
        } else if c == '&' {
            if !self.followed_by(i, '&') {
                return Err(MathlineError::InvalidSyntax);
            }
            self.pos = i + 2;
            Token::Op(Op::And)
        } else if c == '|' {
            if !self.followed_by(i, '|') {
                return Err(MathlineError::InvalidSyntax);
            }
            self.pos = i + 2;
            Token::Op(Op::Or)
        } else if c == '=' {
            if self.followed_by(i, '=') {
                self.pos = i + 2;
            } else {
                self.pos = i + 1;
            }
            Token::Op(Op::Equal)
        } else if c == '!' {
            if self.followed_by(i, '=') {
                self.pos = i + 2;
                Token::Op(Op::NotEqual)
            } else {
                self.pos = i + 1;
                Token::Op(Op::Not)
            }
        } else if c == '<' {
            if self.followed_by(i, '=') {
                self.pos = i + 2;
                Token::Op(Op::LessThanOrEqual)
            } else {
                self.pos = i + 1;
                Token::Op(Op::LessThan)
            }
        } else if c == '>' {
            if self.followed_by(i, '=') {
                self.pos = i + 2;
                Token::Op(Op::GreaterThanOrEqual)
            } else {
                self.pos = i + 1;
                Token::Op(Op::GreaterThan)
            }
        } else if c == '≠' {
            self.pos = i + 1;
            Token::Op(Op::NotEqual)
        } else if c == '≥' {
            self.pos = i + 1;
            Token::Op(Op::GreaterThanOrEqual)
        } else if c == '≤' {
            self.pos = i + 1;
            Token::Op(Op::LessThanOrEqual)
        } else if c == '(' {
            self.pos = i + 1;
            Token::LeftParen
        } else if c == ')' {
            self.pos = i + 1;
            Token::RightParen
        } else if c == ',' {
            self.pos = i + 1;
            Token::Comma
        } else if c == '⁰' || c == '¹' || c == '²' || c == '³' || c == '⁴' {
            // a superscript digit is an exponent followed by that digit
            let d: u64 = if c == '⁰' {
                0
            } else if c == '¹' {
                1
            } else if c == '²' {
                2
            } else if c == '³' {
                3
            } else {
                4
            };
            self.next = Some(Token::Number(Number::whole(d)));
            self.pos = i + 1;
            Token::Op(Op::Exponent)
        } else if is_digit_char(c) {
            proof {
                lemma_number_end_bounds(self.chars@, i + 1);
            }
            match self.lex_number() {
                Ok(t) => t,
                Err(e) => return Err(e),
            }
        } else if is_alpha_char(c) {
            proof {
                lemma_word_end_bounds(self.chars@, i + 1);
            }
            self.lex_symbol()
        } else {
            return Err(MathlineError::InvalidChar(c));
        };
        Ok(token)
    }

    fn followed_by(&self, i: usize, c: char) -> (r: bool)
        requires
            self.wf(),
            i < self.chars.len(),
        ensures
            r == followed_by(self.chars@, i as int, c),
    {
        i + 1 < self.chars.len() && self.chars[i + 1] == c
    }

    /// Reads a numeric literal that starts at a digit.
    fn lex_number(&mut self) -> (r: Result<Token, MathlineError>)
        requires
            old(self).wf(),
            old(self).pos < old(self).chars.len(),
            is_digit(old(self).chars@[old(self).pos as int]),
        ensures
            final(self).input == old(self).input,
            final(self).chars == old(self).chars,
            final(self).next == old(self).next,
            final(self).wf(),
            match number_token(old(self).chars@, old(self).pos as int) {
                Ok((t, end)) => r is Ok && r->Ok_0@ == t && final(self).pos == end,
                Err(e) => r is Err && r->Err_0@ == e,
            },
    {
        let ghost s = self.chars@;
        let start = self.pos;
        let n = self.chars.len();
        let ghost end = number_end(s, start as int);
        proof {
            lemma_number_end_bounds(s, start as int);
        }
        let mut i = start;
        let mut whole: u64 = 0;
        let mut too_long = false;
        while i < n && is_digit_char(self.chars[i])
            invariant
                s == self.chars@,
                n == s.len(),
                start <= i <= n,
                i <= end <= n,
                number_end(s, i as int) == end,
                first_point(s, i as int, end) == first_point(s, start as int, end),
                too_long == (digits_value(s, start as int, i as int) > u64::MAX),
                !too_long ==> whole == digits_value(s, start as int, i as int),
            decreases n - i,
        {
            let d = (self.chars[i] as u32 - '0' as u32) as u64;
            if !too_long {
                match whole.checked_mul(10) {
                    Some(w) => match w.checked_add(d) {
                        Some(x) => whole = x,
                        None => too_long = true,
                    },
                    None => too_long = true,
                }
            }
            proof {
                lemma_number_end_bounds(s, i + 1);
            }
            i = i + 1;
        }
        let ghost point = i as int;
        assert(first_point(s, start as int, end) == point);
        let mut frac_start = i;
        let mut has_point = false;
        if i < n && self.chars[i] == '.' {
            has_point = true;
            proof {
                lemma_number_end_bounds(s, i + 1);
            }
            i = i + 1;
            frac_start = i;
            while i < n && (is_digit_char(self.chars[i]) || self.chars[i] == '.')
                invariant
                    s == self.chars@,
                    n == s.len(),
                    frac_start <= i <= n,
                    i <= end <= n,
                    number_end(s, i as int) == end,
                    frac_start == point + 1,
                decreases n - i,
            {
                proof {
                    lemma_number_end_bounds(s, i + 1);
                }
                i = i + 1;
            }
        }
        self.pos = i;
        if too_long {
            return Err(MathlineError::InvalidSyntax);
        }
        let fraction = if has_point {
            Some(self.input.substring_char(frac_start, i).to_owned())
        } else {
            None
        };
        Ok(Token::Number(Number { whole, fraction }))
    }

    /// Reads a word that starts at a letter.
    fn lex_symbol(&mut self) -> (r: Token)
        requires
            old(self).wf(),
            old(self).pos < old(self).chars.len(),
            is_alpha(old(self).chars@[old(self).pos as int]),
        ensures
            final(self).input == old(self).input,
            final(self).chars == old(self).chars,
            final(self).next == old(self).next,
            final(self).wf(),
            final(self).pos == word_end(old(self).chars@, old(self).pos as int),
            r@ == word_token(old(self).chars@.subrange(old(self).pos as int, final(self).pos as int)),
    {
        let ghost s = self.chars@;
        let start = self.pos;
        let n = self.chars.len();
        let mut i = start;
        while i < n && (is_digit_char(self.chars[i]) || is_alpha_char(self.chars[i]))
            invariant
                s == self.chars@,
                n == s.len(),
                start <= i <= n,
                word_end(s, i as int) == word_end(s, start as int),
            decreases n - i,
        {
            i = i + 1;
        }
        self.pos = i;
        let word = self.input.substring_char(start, i);
        if str_eq(word, "True") || str_eq(word, "true") {
            Token::Bool(true)
        } else if str_eq(word, "False") || str_eq(word, "false") {
            Token::Bool(false)
        } else if str_eq(word, "not") {
            Token::Op(Op::Not)
        } else if str_eq(word, "and") {
            Token::Op(Op::And)
        } else if str_eq(word, "or") {
            Token::Op(Op::Or)
        } else {
            Token::Symbol(word.to_owned())
        }
    }
}

} // verus!
