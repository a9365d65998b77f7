//! Whitespace between tokens changes nothing that the lexer yields.
use vstd::prelude::*;

use crate::error::ErrorModel;
use crate::lexer::{
    digits_value, first_point, followed_by, is_alpha, is_digit, is_space, lemma_number_end_bounds,
    lemma_word_end_bounds, lex, lex_from, number_end, scan, word_end,
};
use crate::lexer::{number_token, word_token};
use crate::parser::parse_text;
use crate::round_trip::lemma_first_point_bound;
use crate::token::TokenModel;

verus! {

pub open spec fn is_number_char(c: char) -> bool {
    is_digit(c) || c == '.'
}

pub open spec fn is_word_char(c: char) -> bool {
    is_alpha(c) || is_digit(c)
}

/// Whether a token that ends with `x` can go on with `y`.
pub open spec fn continues(x: char, y: char) -> bool {
    ||| is_number_char(x) && is_number_char(y)
    ||| is_word_char(x) && is_word_char(y)
    ||| x == '*' && y == '*'
    ||| x == '/' && y == '/'
    ||| x == '&' && y == '&'
    ||| x == '|' && y == '|'
    ||| (x == '=' || x == '!' || x == '<' || x == '>') && y == '='
}

/// Whether no token can run from the end of `a` into the start of `b`.
pub open spec fn joins_cleanly(a: Seq<char>, b: Seq<char>) -> bool {
    a.len() == 0 || b.len() == 0 || !continues(a[a.len() - 1], b[0])
}

pub open spec fn is_whitespace(w: Seq<char>) -> bool {
    w.len() > 0 && forall|k: int| 0 <= k < w.len() ==> is_space(#[trigger] w[k])
}

/// Whether `x` from `i` on and `y` from `j` on hold the same characters.
pub open spec fn same_rest(x: Seq<char>, i: int, y: Seq<char>, j: int) -> bool {
    &&& 0 <= i <= x.len()
    &&& 0 <= j <= y.len()
    &&& x.len() - i == y.len() - j
    &&& forall|t: int| 0 <= t < x.len() - i ==> #[trigger] x[i + t] == y[j + t]
}

pub proof fn lemma_same_rest_step(x: Seq<char>, i: int, y: Seq<char>, j: int, d: int)
    requires
        same_rest(x, i, y, j),
        0 <= d <= x.len() - i,
    ensures
        same_rest(x, i + d, y, j + d),
{
    assert forall|t: int| 0 <= t < x.len() - (i + d) implies #[trigger] x[i + d + t] == y[j + d + t] by {
        assert(x[i + (d + t)] == y[j + (d + t)]);
    }
}

pub proof fn lemma_number_end_shift(x: Seq<char>, i: int, y: Seq<char>, j: int)
    requires
        same_rest(x, i, y, j),
    ensures
        number_end(x, i) - i == number_end(y, j) - j,
    decreases x.len() - i,
{
    if i < x.len() {
        assert(x[i + 0] == y[j + 0]);
        lemma_same_rest_step(x, i, y, j, 1);
        lemma_number_end_shift(x, i + 1, y, j + 1);
    }
}

pub proof fn lemma_word_end_shift(x: Seq<char>, i: int, y: Seq<char>, j: int)
    requires
        same_rest(x, i, y, j),
    ensures
        word_end(x, i) - i == word_end(y, j) - j,
    decreases x.len() - i,
{
    if i < x.len() {
        assert(x[i + 0] == y[j + 0]);
        lemma_same_rest_step(x, i, y, j, 1);
        lemma_word_end_shift(x, i + 1, y, j + 1);
    }
}

/// What the lexer computes over `x[i..e]` it computes over the same
/// characters anywhere else.
pub proof fn lemma_range_shift(x: Seq<char>, i: int, y: Seq<char>, j: int, e: int)
    requires
        0 <= i <= e <= x.len(),
        0 <= j,
        j + (e - i) <= y.len(),
        forall|t: int| 0 <= t < e - i ==> #[trigger] x[i + t] == y[j + t],
    ensures
        first_point(x, i, e) - i == first_point(y, j, j + (e - i)) - j,
        digits_value(x, i, e) == digits_value(y, j, j + (e - i)),
        x.subrange(i, e) == y.subrange(j, j + (e - i)),
    decreases e - i,
{
    assert(x.subrange(i, e) =~= y.subrange(j, j + (e - i))) by {
        assert forall|t: int| 0 <= t < e - i implies x.subrange(i, e)[t] == y.subrange(j, j + (e - i))[t] by {
            assert(x[i + t] == y[j + t]);
        }
    }
    if i < e {
        assert(x[i + 0] == y[j + 0]);
        assert(x[i + (e - i - 1)] == y[j + (e - i - 1)]);
        assert forall|t: int| 0 <= t < e - (i + 1) implies #[trigger] x[i + 1 + t] == y[j + 1 + t] by {
            assert(x[i + (1 + t)] == y[j + (1 + t)]);
        }
        lemma_range_shift(x, i + 1, y, j + 1, e);
        assert forall|t: int| 0 <= t < (e - 1) - i implies #[trigger] x[i + t] == y[j + t] by {
            assert(x[i + t] == y[j + t]);
        }
        lemma_range_shift(x, i, y, j, e - 1);
    }
}

pub proof fn lemma_scan_shift(x: Seq<char>, i: int, y: Seq<char>, j: int)
    requires
        same_rest(x, i, y, j),
        i < x.len(),
    ensures
        match scan(x, i) {
            Ok((ts, e)) => scan(y, j) == Ok::<(Seq<TokenModel>, int), ErrorModel>((ts, e - i + j)),
            Err(err) => scan(y, j) == Err::<(Seq<TokenModel>, int), ErrorModel>(err),
        },
{
    assert(x[i + 0] == y[j + 0]);
    if i + 1 < x.len() {
        assert(x[i + 1] == y[j + 1]);
    }
    lemma_number_end_shift(x, i, y, j);
    lemma_word_end_shift(x, i, y, j);
    lemma_number_end_bounds(x, i);
    lemma_word_end_bounds(x, i);
    let ne = number_end(x, i);
    let we = word_end(x, i);
    assert forall|t: int| 0 <= t < ne - i implies #[trigger] x[i + t] == y[j + t] by {
        assert(x[i + t] == y[j + t]);
    }
    lemma_range_shift(x, i, y, j, ne);
    let p = first_point(x, i, ne);
    lemma_first_point_bound(x, i, ne);
    if p < ne {
        assert forall|t: int| 0 <= t < ne - (p + 1) implies #[trigger] x[p + 1 + t] == y[p + 1 - i + j
            + t] by {
            assert(x[i + (p + 1 - i + t)] == y[j + (p + 1 - i + t)]);
        }
        lemma_range_shift(x, p + 1, y, p + 1 - i + j, ne);
    }
    assert forall|t: int| 0 <= t < p - i implies #[trigger] x[i + t] == y[j + t] by {
        assert(x[i + t] == y[j + t]);
    }
    lemma_range_shift(x, i, y, j, p);
    assert forall|t: int| 0 <= t < we - i implies #[trigger] x[i + t] == y[j + t] by {
        assert(x[i + t] == y[j + t]);
    }
    lemma_range_shift(x, i, y, j, we);
    assert(number_token(x, i) matches Ok((t, e)) ==> number_token(y, j) == Ok::<(TokenModel, int), ErrorModel>((t, e - i + j)));
    assert(number_token(x, i) is Err ==> number_token(y, j) == number_token(x, i));
    assert(word_token(x.subrange(i, we)) == word_token(y.subrange(j, word_end(y, j))));
    assert(followed_by(x, i, x[i]) == followed_by(y, j, y[j]));
}

/// Lexing reads only forward: the same characters from two positions give
/// the same tokens.
pub proof fn lemma_lex_shift(x: Seq<char>, i: int, y: Seq<char>, j: int)
    requires
        same_rest(x, i, y, j),
    ensures
        lex_from(x, i) == lex_from(y, j),
    decreases x.len() - i,
{
    if i < x.len() {
        assert(x[i + 0] == y[j + 0]);
        if is_space(x[i]) {
            lemma_same_rest_step(x, i, y, j, 1);
            lemma_lex_shift(x, i + 1, y, j + 1);
        } else {
            lemma_scan_shift(x, i, y, j);
            match scan(x, i) {
                Ok((ts, e)) => if i < e <= x.len() {
                    lemma_same_rest_step(x, i, y, j, e - i);
                    lemma_lex_shift(x, e, y, e - i + j);
                },
                Err(_) => {},
            }
        }
    }
}

pub proof fn lemma_number_end_join(a: Seq<char>, w: Seq<char>, b: Seq<char>, i: int, k: int)
    requires
        is_whitespace(w),
        joins_cleanly(a, b),
        0 <= i < a.len(),
        i <= k <= a.len(),
        forall|m: int| i <= m < k ==> is_number_char(#[trigger] a[m]),
    ensures
        number_end(a + w + b, k) == number_end(a + b, k),
        number_end(a + b, k) <= a.len(),
    decreases a.len() - k,
{
    let s1 = a + w + b;
    let s2 = a + b;
    if k < a.len() {
        assert(s1[k] == a[k] && s2[k] == a[k]);
        if is_number_char(a[k]) {
            lemma_number_end_join(a, w, b, i, k + 1);
        }
    } else {
        assert(s1[k] == w[0]);
        assert(is_number_char(a[k - 1]));
        if b.len() > 0 {
            assert(s2[k] == b[0]);
        }
    }
}

pub proof fn lemma_word_end_join(a: Seq<char>, w: Seq<char>, b: Seq<char>, i: int, k: int)
    requires
        is_whitespace(w),
        joins_cleanly(a, b),
        0 <= i < a.len(),
        i <= k <= a.len(),
        forall|m: int| i <= m < k ==> is_word_char(#[trigger] a[m]),
    ensures
        word_end(a + w + b, k) == word_end(a + b, k),
        word_end(a + b, k) <= a.len(),
    decreases a.len() - k,
{
    let s1 = a + w + b;
    let s2 = a + b;
    if k < a.len() {
        assert(s1[k] == a[k] && s2[k] == a[k]);
        if is_word_char(a[k]) {
            lemma_word_end_join(a, w, b, i, k + 1);
        }
    } else {
        assert(s1[k] == w[0]);
        assert(is_word_char(a[k - 1]));
        if b.len() > 0 {
            assert(s2[k] == b[0]);
        }
    }
}

/// A token that starts in `a` is read the same with or without the
/// whitespace after `a`, and ends within `a`.
pub proof fn lemma_scan_join(a: Seq<char>, w: Seq<char>, b: Seq<char>, i: int)
    requires
        is_whitespace(w),
        joins_cleanly(a, b),
        0 <= i < a.len(),
    ensures
        scan(a + w + b, i) == scan(a + b, i),
        scan(a + b, i) matches Ok((ts, e)) ==> e <= a.len(),
{
    let s1 = a + w + b;
    let s2 = a + b;
    assert(s1[i] == a[i] && s2[i] == a[i]);
    if i + 1 < a.len() {
        assert(s1[i + 1] == a[i + 1] && s2[i + 1] == a[i + 1]);
    } else {
        assert(s1[i + 1] == w[0]);
        if b.len() > 0 {
            assert(s2[i + 1] == b[0]);
            assert(!continues(a[i], b[0]));
        }
    }
    lemma_number_end_join(a, w, b, i, i);
    lemma_word_end_join(a, w, b, i, i);
    lemma_number_end_bounds(s2, i);
    lemma_word_end_bounds(s2, i);
    let ne = number_end(s2, i);
    let we = word_end(s2, i);
    assert forall|t: int| 0 <= t < a.len() - i implies #[trigger] s1[i + t] == s2[i + t] by {
        assert(s1[i + t] == a[i + t]);
        assert(s2[i + t] == a[i + t]);
    }
    lemma_range_shift(s1, i, s2, i, ne);
    lemma_first_point_bound(s1, i, ne);
    let p = first_point(s1, i, ne);
    lemma_range_shift(s1, i, s2, i, p);
    if p < ne {
        lemma_range_shift(s1, p + 1, s2, p + 1, ne);
    }
    lemma_range_shift(s1, i, s2, i, we);
    assert(number_token(s1, i) == number_token(s2, i));
}

pub proof fn lemma_skip_spaces(s: Seq<char>, i: int, j: int)
    requires
        0 <= i <= j <= s.len(),
        forall|m: int| i <= m < j ==> is_space(#[trigger] s[m]),
    ensures
        lex_from(s, i) == lex_from(s, j),
    decreases j - i,
{
    if i < j {
        lemma_skip_spaces(s, i + 1, j);
    }
}

pub proof fn lemma_join_from(a: Seq<char>, w: Seq<char>, b: Seq<char>, i: int)
    requires
        is_whitespace(w),
        joins_cleanly(a, b),
        0 <= i <= a.len(),
    ensures
        lex_from(a + w + b, i) == lex_from(a + b, i),
    decreases a.len() - i,
{
    let s1 = a + w + b;
    let s2 = a + b;
    if i == a.len() {
        assert forall|m: int| a.len() <= m < a.len() + w.len() implies is_space(#[trigger] s1[m]) by {
            assert(s1[m] == w[m - a.len()]);
        }
        lemma_skip_spaces(s1, i, i + w.len());
        assert forall|t: int| 0 <= t < s1.len() - (i + w.len()) implies #[trigger] s1[i + w.len() + t]
            == s2[i + t] by {
            assert(s1[i + w.len() + t] == b[t]);
            assert(s2[i + t] == b[t]);
        }
        lemma_lex_shift(s1, i + w.len(), s2, i);
    } else {
        assert(s1[i] == a[i] && s2[i] == a[i]);
        if is_space(a[i]) {
            lemma_join_from(a, w, b, i + 1);
        } else {
            lemma_scan_join(a, w, b, i);
            match scan(s2, i) {
                Ok((ts, e)) => if i < e {
                    lemma_join_from(a, w, b, e);
                },
                Err(_) => {},
            }
        }
    }
}

/// Whitespace put between two pieces of text changes none of the tokens,
/// and so none of the expressions read, wherever no token could run from
/// the one piece into the other.
pub proof fn lemma_whitespace_insensitive(a: Seq<char>, w: Seq<char>, b: Seq<char>)
    requires
        is_whitespace(w),
        joins_cleanly(a, b),
    ensures
        lex(a + w + b) == lex(a + b),
        parse_text(a + w + b) == parse_text(a + b),
{
    lemma_join_from(a, w, b, 0);
}

} // verus!
