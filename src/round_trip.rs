//! Reading back what was rendered: the text of an expression tree that the
//! parser can produce parses to that same tree.
use vstd::prelude::*;

use crate::error::ErrorModel;
use crate::expression::{infix_op_of, infix_precedence, prefix_op_of, ExprModel, InfixOp, PrefixOp};
use crate::evaluator::eval;
use crate::lexer::{
    lemma_number_end_bounds, lemma_word_end_bounds, digit_value, digits_value, first_point, is_alpha, is_digit, is_space, lex, lex_from,
    number_end, number_token, scan, word_end, word_token,
};
use crate::parser::{parse_all_at, parse_text};
use crate::render::{
    decimal, digit_char, infix_text, number_text, prefix_text, render, render_args, render_operand,
};
use crate::token::NumberModel;
use crate::parser::{parse_args_at, parse_expr_at, parse_infix_at, primary_at, token_at, Stream};
use crate::token::{Op, TokenModel};

verus! {

broadcast use {vstd::seq::axiom_seq_index_decreases, vstd::seq::axiom_seq_subrange_decreases};

/// A name as the lexer reads it: a letter, then letters and digits, and no
/// keyword.
pub open spec fn is_name(w: Seq<char>) -> bool {
    &&& w.len() > 0
    &&& is_alpha(w[0])
    &&& forall|k: int| 0 <= k < w.len() ==> is_alpha(#[trigger] w[k]) || is_digit(w[k])
    &&& word_token(w) == TokenModel::Symbol(w)
}

/// The fraction of a float literal as the lexer reads it.
pub open spec fn is_fraction(f: Seq<char>) -> bool {
    forall|k: int| 0 <= k < f.len() ==> is_digit(#[trigger] f[k]) || f[k] == '.'
}

/// The trees that the parser produces: names are names, fractions are
/// fractions.
pub open spec fn well_formed(e: ExprModel) -> bool
    decreases e, 1int,
{
    match e {
        ExprModel::Bool(_) => true,
        ExprModel::Number(n) => match n.fraction {
            Some(f) => is_fraction(f),
            None => true,
        },
        ExprModel::Variable(v) => is_name(v),
        ExprModel::Call(name, args) => is_name(name) && all_well_formed(args),
        ExprModel::Prefix(_, x) => well_formed(*x),
        ExprModel::Infix(_, l, r) => well_formed(*l) && well_formed(*r),
    }
}

pub open spec fn all_well_formed(args: Seq<ExprModel>) -> bool
    decreases args, 0int,
{
    if args.len() == 0 {
        true
    } else {
        well_formed(args[0]) && all_well_formed(args.subrange(1, args.len() as int))
    }
}

pub open spec fn prefix_token(op: PrefixOp) -> Op {
    match op {
        PrefixOp::Not => Op::Not,
        PrefixOp::Plus => Op::Plus,
        PrefixOp::Minus => Op::Minus,
    }
}

pub open spec fn infix_token(op: InfixOp) -> Op {
    match op {
        InfixOp::Add => Op::Plus,
        InfixOp::Subtract => Op::Minus,
        InfixOp::Multiply => Op::Multiply,
        InfixOp::Divide => Op::Divide,
        InfixOp::Modulo => Op::Modulo,
        InfixOp::Exponent => Op::Exponent,
        InfixOp::And => Op::And,
        InfixOp::Or => Op::Or,
        InfixOp::Equal => Op::Equal,
        InfixOp::NotEqual => Op::NotEqual,
        InfixOp::LessThan => Op::LessThan,
        InfixOp::LessThanOrEqual => Op::LessThanOrEqual,
        InfixOp::GreaterThan => Op::GreaterThan,
        InfixOp::GreaterThanOrEqual => Op::GreaterThanOrEqual,
        InfixOp::Dot => Op::Dot,
    }
}

pub open spec fn is_compound(e: ExprModel) -> bool {
    e is Prefix || e is Infix
}

/// The tokens of the text of an expression.
pub open spec fn tokens_of(e: ExprModel) -> Seq<TokenModel>
    decreases e, 1int,
{
    match e {
        ExprModel::Bool(b) => seq![TokenModel::Bool(b)],
        ExprModel::Number(n) => seq![TokenModel::Number(n)],
        ExprModel::Variable(v) => seq![TokenModel::Symbol(v)],
        ExprModel::Call(name, args) => seq![TokenModel::Symbol(name), TokenModel::LeftParen]
            + args_tokens(args) + seq![TokenModel::RightParen],
        ExprModel::Prefix(op, x) => seq![TokenModel::Op(prefix_token(op))] + operand_tokens(*x),
        ExprModel::Infix(op, l, r) => operand_tokens(*l) + seq![TokenModel::Op(infix_token(op))]
            + operand_tokens(*r),
    }
}

/// The tokens of the text of an operand: in parentheses when compound.
pub open spec fn operand_tokens(e: ExprModel) -> Seq<TokenModel>
    decreases e, 2int,
{
    if is_compound(e) {
        seq![TokenModel::LeftParen] + tokens_of(e) + seq![TokenModel::RightParen]
    } else {
        tokens_of(e)
    }
}

/// The tokens of call arguments, separated by commas.
pub open spec fn args_tokens(args: Seq<ExprModel>) -> Seq<TokenModel>
    decreases args, 0int,
{
    if args.len() == 0 {
        seq![]
    } else if args.len() == 1 {
        tokens_of(args[0])
    } else {
        tokens_of(args[0]) + seq![TokenModel::Comma] + args_tokens(args.subrange(1, args.len() as int))
    }
}

/// Whether the token at `k` ends an expression: the end, a closing
/// parenthesis or a comma.
pub open spec fn stops(st: Stream, k: int) -> bool {
    match token_at(st, k) {
        Ok(None) => true,
        Ok(Some(TokenModel::RightParen)) => true,
        Ok(Some(TokenModel::Comma)) => true,
        _ => false,
    }
}

/// Whether `ts` stands in the stream from position `i` on.
pub open spec fn stands_at(st: Stream, i: int, ts: Seq<TokenModel>) -> bool {
    0 <= i && i + ts.len() <= st.0.len() && st.0.subrange(i, i + ts.len()) == ts
}

pub proof fn lemma_stands_split(st: Stream, i: int, a: Seq<TokenModel>, b: Seq<TokenModel>)
    requires
        stands_at(st, i, a + b),
    ensures
        stands_at(st, i, a),
        stands_at(st, i + a.len(), b),
{
    let whole = st.0.subrange(i, i + (a + b).len());
    assert forall|k: int| 0 <= k < a.len() implies st.0.subrange(i, i + a.len())[k] == a[k] by {
        assert(whole[k] == st.0[i + k]);
        assert((a + b)[k] == a[k]);
    }
    assert forall|k: int| 0 <= k < b.len() implies st.0.subrange(
        i + a.len(),
        i + a.len() + b.len(),
    )[k] == b[k] by {
        assert(whole[a.len() + k] == st.0[i + a.len() + k]);
        assert((a + b)[a.len() + k] == b[k]);
    }
    assert(st.0.subrange(i, i + a.len()) =~= a);
    assert(st.0.subrange(i + a.len(), i + a.len() + b.len()) =~= b);
}

pub proof fn lemma_stands_first(st: Stream, i: int, ts: Seq<TokenModel>)
    requires
        stands_at(st, i, ts),
        ts.len() > 0,
    ensures
        token_at(st, i) == Ok::<Option<TokenModel>, ErrorModel>(Some(ts[0])),
{
    assert(st.0.subrange(i, i + ts.len())[0] == st.0[i]);
}

pub proof fn lemma_tokens_nonempty(e: ExprModel)
    ensures
        tokens_of(e).len() > 0,
        operand_tokens(e).len() > 0,
        !(tokens_of(e)[0] is RightParen),
        !(operand_tokens(e)[0] is RightParen),
    decreases e,
{
    match e {
        ExprModel::Prefix(op, x) => {
            lemma_tokens_nonempty(*x);
        },
        ExprModel::Infix(op, l, r) => {
            lemma_tokens_nonempty(*l);
        },
        _ => {},
    }
}

pub proof fn lemma_stands_split3(
    st: Stream,
    i: int,
    a: Seq<TokenModel>,
    b: Seq<TokenModel>,
    c: Seq<TokenModel>,
)
    requires
        stands_at(st, i, a + b + c),
    ensures
        stands_at(st, i, a),
        stands_at(st, i + a.len(), b),
        stands_at(st, i + a.len() + b.len(), c),
{
    lemma_stands_split(st, i, a + b, c);
    lemma_stands_split(st, i, a, b);
}

/// An operand that applies no operator is read as the primary at `i`.
pub proof fn lemma_atom(st: Stream, i: int, e: ExprModel)
    requires
        well_formed(e),
        !is_compound(e),
        stands_at(st, i, tokens_of(e)),
        token_at(st, i + tokens_of(e).len()) is Ok,
        token_at(st, i + tokens_of(e).len()) != Ok::<Option<TokenModel>, ErrorModel>(
            Some(TokenModel::LeftParen),
        ),
    ensures
        primary_at(st, i) == Ok::<(ExprModel, int), ErrorModel>((e, i + tokens_of(e).len())),
    decreases e, 0int,
{
    lemma_tokens_nonempty(e);
    lemma_stands_first(st, i, tokens_of(e));
    match e {
        ExprModel::Call(name, args) => {
            let head = seq![TokenModel::Symbol(name), TokenModel::LeftParen];
            let tail = seq![TokenModel::RightParen];
            assert(tokens_of(e) =~= head + (args_tokens(args) + tail));
            lemma_stands_split(st, i, head, args_tokens(args) + tail);
            assert(head =~= seq![TokenModel::Symbol(name)] + seq![TokenModel::LeftParen]);
            lemma_stands_split(st, i, seq![TokenModel::Symbol(name)], seq![TokenModel::LeftParen]);
            lemma_stands_first(st, i + 1, seq![TokenModel::LeftParen]);
            lemma_stands_split(st, i + 2, args_tokens(args), tail);
            if args.len() == 0 {
                lemma_stands_first(st, i + 2, tail);
                assert(args =~= Seq::<ExprModel>::empty());
            } else {
                lemma_tokens_nonempty(args[0]);
                assert(args_tokens(args)[0] == tokens_of(args[0])[0]);
                lemma_stands_first(st, i + 2, args_tokens(args));
                lemma_args(st, i + 2, name, seq![], args);
                assert(seq![] + args =~= args);
            }
        },
        _ => {},
    }
}

/// Call arguments followed by a closing parenthesis are read as the rest
/// of the call.
pub proof fn lemma_args(st: Stream, i: int, name: Seq<char>, done: Seq<ExprModel>, args: Seq<ExprModel>)
    requires
        args.len() > 0,
        all_well_formed(args),
        stands_at(st, i, args_tokens(args) + seq![TokenModel::RightParen]),
    ensures
        parse_args_at(st, i, name, done) == Ok::<(ExprModel, int), ErrorModel>(
            (ExprModel::Call(name, done + args), i + args_tokens(args).len() + 1),
        ),
    decreases args, 0int,
{
    let first = args[0];
    let rest = args.subrange(1, args.len() as int);
    let close = seq![TokenModel::RightParen];
    let k = i + tokens_of(first).len();
    if args.len() == 1 {
        lemma_stands_split(st, i, tokens_of(first), close);
        lemma_stands_first(st, k, close);
        lemma_expr(st, i, 0, first);
        assert(done.push(first) =~= done + args);
    } else {
        let comma = seq![TokenModel::Comma];
        assert(args_tokens(args) + close =~= tokens_of(first) + comma + (args_tokens(rest) + close));
        lemma_stands_split3(st, i, tokens_of(first), comma, args_tokens(rest) + close);
        lemma_stands_first(st, k, comma);
        lemma_expr(st, i, 0, first);
        lemma_args(st, k + 1, name, done.push(first), rest);
        assert(done.push(first) + rest =~= done + args);
    }
}

/// The tokens of a tree, followed by a token that ends an expression, are
/// read as that tree.
pub proof fn lemma_expr(st: Stream, i: int, min: u8, e: ExprModel)
    requires
        well_formed(e),
        stands_at(st, i, tokens_of(e)),
        stops(st, i + tokens_of(e).len()),
        e is Infix ==> infix_precedence(e->Infix_0).0 >= min,
    ensures
        parse_expr_at(st, i, min) == Ok::<(ExprModel, int), ErrorModel>((e, i + tokens_of(e).len())),
    decreases e, 1int,
{
    let k = i + tokens_of(e).len();
    lemma_tokens_nonempty(e);
    lemma_stands_first(st, i, tokens_of(e));
    match e {
        ExprModel::Prefix(op, x) => {
            let head = seq![TokenModel::Op(prefix_token(op))];
            lemma_stands_split(st, i, head, operand_tokens(*x));
            lemma_operand_expr(st, i + 1, crate::expression::prefix_precedence(op), *x);
            assert(prefix_op_of(prefix_token(op)) == Some(op));
            assert(primary_at(st, i) == Ok::<(ExprModel, int), ErrorModel>((e, k)));
        },
        ExprModel::Infix(op, l, r) => {
            let mid = seq![TokenModel::Op(infix_token(op))];
            lemma_stands_split3(st, i, operand_tokens(*l), mid, operand_tokens(*r));
            let j = i + operand_tokens(*l).len();
            lemma_stands_first(st, j, mid);
            lemma_operand_primary(st, i, *l);
            lemma_tokens_nonempty(*r);
            lemma_operand_expr(st, j + 1, infix_precedence(op).1, *r);
            assert(infix_op_of(infix_token(op)) == Some(op));
            assert(parse_infix_at(st, *l, j, min) == parse_infix_at(
                st,
                ExprModel::Infix(op, l, r),
                k,
                min,
            ));
        },
        _ => {
            lemma_atom(st, i, e);
        },
    }
}

/// An operand, in parentheses when compound, is read as the primary at `i`
/// when no opening parenthesis follows it.
pub proof fn lemma_operand_primary(st: Stream, i: int, e: ExprModel)
    requires
        well_formed(e),
        stands_at(st, i, operand_tokens(e)),
        token_at(st, i + operand_tokens(e).len()) is Ok,
        token_at(st, i + operand_tokens(e).len()) != Ok::<Option<TokenModel>, ErrorModel>(
            Some(TokenModel::LeftParen),
        ),
    ensures
        primary_at(st, i) == Ok::<(ExprModel, int), ErrorModel>((e, i + operand_tokens(e).len())),
    decreases e, 2int,
{
    if is_compound(e) {
        let open = seq![TokenModel::LeftParen];
        let close = seq![TokenModel::RightParen];
        lemma_stands_split3(st, i, open, tokens_of(e), close);
        lemma_stands_first(st, i, open);
        let k = i + 1 + tokens_of(e).len();
        lemma_stands_first(st, k, close);
        lemma_expr(st, i + 1, 0, e);
    } else {
        lemma_atom(st, i, e);
    }
}

/// An operand followed by a token that ends an expression is read as that
/// operand, whatever the binding strength asked for.
pub proof fn lemma_operand_expr(st: Stream, i: int, min: u8, e: ExprModel)
    requires
        well_formed(e),
        stands_at(st, i, operand_tokens(e)),
        stops(st, i + operand_tokens(e).len()),
    ensures
        parse_expr_at(st, i, min) == Ok::<(ExprModel, int), ErrorModel>(
            (e, i + operand_tokens(e).len()),
        ),
    decreases e, 3int,
{
    lemma_tokens_nonempty(e);
    lemma_operand_primary(st, i, e);
}

/// The tokens of a well-formed tree, alone in the stream, parse back to it.
pub proof fn lemma_tokens_parse_back(e: ExprModel)
    requires
        well_formed(e),
    ensures
        parse_all_at((tokens_of(e), None), 0) == Ok::<Seq<ExprModel>, ErrorModel>(seq![e]),
{
    let st: Stream = (tokens_of(e), None);
    let n = tokens_of(e).len();
    lemma_tokens_nonempty(e);
    assert(st.0.subrange(0, n as int) =~= tokens_of(e));
    lemma_expr(st, 0, 0, e);
    assert(parse_all_at(st, n as int) == Ok::<Seq<ExprModel>, ErrorModel>(seq![]));
    assert(seq![e] + Seq::<ExprModel>::empty() =~= seq![e]);
}

// Lexing rendered text.

/// The characters after which no token goes on.
pub open spec fn delimits(c: char) -> bool {
    c == ' ' || c == '(' || c == ')' || c == ','
}

/// Whether position `k` ends a token: the end of the text or a delimiter.
pub open spec fn ends_token(s: Seq<char>, k: int) -> bool {
    k == s.len() || (0 <= k < s.len() && delimits(s[k]))
}

/// Whether `t` stands in `s` from position `i` on.
pub open spec fn text_at(s: Seq<char>, i: int, t: Seq<char>) -> bool {
    0 <= i && i + t.len() <= s.len() && s.subrange(i, i + t.len()) == t
}

/// Whether lexing from `i` yields `ts` and then what lexing from `k` yields.
pub open spec fn lexes_as(s: Seq<char>, i: int, ts: Seq<TokenModel>, k: int) -> bool {
    lex_from(s, i) == (ts + lex_from(s, k).0, lex_from(s, k).1)
}

pub proof fn lemma_text_split(s: Seq<char>, i: int, a: Seq<char>, b: Seq<char>)
    requires
        text_at(s, i, a + b),
    ensures
        text_at(s, i, a),
        text_at(s, i + a.len(), b),
{
    let whole = s.subrange(i, i + (a + b).len());
    assert forall|k: int| 0 <= k < a.len() implies s.subrange(i, i + a.len())[k] == a[k] by {
        assert(whole[k] == s[i + k]);
        assert((a + b)[k] == a[k]);
    }
    assert forall|k: int| 0 <= k < b.len() implies s.subrange(
        i + a.len(),
        i + a.len() + b.len(),
    )[k] == b[k] by {
        assert(whole[a.len() + k] == s[i + a.len() + k]);
        assert((a + b)[a.len() + k] == b[k]);
    }
    assert(s.subrange(i, i + a.len()) =~= a);
    assert(s.subrange(i + a.len(), i + a.len() + b.len()) =~= b);
}

pub proof fn lemma_text_char(s: Seq<char>, i: int, t: Seq<char>, m: int)
    requires
        text_at(s, i, t),
        0 <= m < t.len(),
    ensures
        s[i + m] == t[m],
{
    assert(s.subrange(i, i + t.len())[m] == s[i + m]);
}

pub proof fn lemma_lexes_chain(
    s: Seq<char>,
    i: int,
    a: Seq<TokenModel>,
    j: int,
    b: Seq<TokenModel>,
    k: int,
)
    requires
        lexes_as(s, i, a, j),
        lexes_as(s, j, b, k),
    ensures
        lexes_as(s, i, a + b, k),
{
    assert(a + (b + lex_from(s, k).0) =~= a + b + lex_from(s, k).0);
}

pub proof fn lemma_digit_char(d: nat)
    requires
        d < 10,
    ensures
        is_digit(digit_char(d)),
        digit_value(digit_char(d)) == d,
{
}

/// The value of digits depends only on the digits.
pub proof fn lemma_digits_value_at(s: Seq<char>, i: int, t: Seq<char>, j: int)
    requires
        text_at(s, i, t),
        0 <= j <= t.len(),
    ensures
        digits_value(s, i, i + j) == digits_value(t, 0, j),
    decreases j,
{
    if j > 0 {
        lemma_digits_value_at(s, i, t, j - 1);
        lemma_text_char(s, i, t, j - 1);
    }
}

pub proof fn lemma_decimal(n: nat)
    ensures
        decimal(n).len() >= 1,
        forall|m: int| 0 <= m < decimal(n).len() ==> is_digit(#[trigger] decimal(n)[m]),
        digits_value(decimal(n), 0, decimal(n).len() as int) == n,
    decreases n,
{
    if n < 10 {
        lemma_digit_char(n);
        assert(digits_value(decimal(n), 0, 0) == 0);
    } else {
        lemma_decimal(n / 10);
        lemma_digit_char(n % 10);
        let d = decimal(n / 10);
        let full = decimal(n);
        assert(full == d.push(digit_char(n % 10)));
        assert(full.subrange(0, d.len() as int) =~= d);
        lemma_digits_value_at(full, 0, d, d.len() as int);
        assert(digits_value(full, 0, full.len() as int) == digits_value(full, 0, d.len() as int) * 10
            + digit_value(full[d.len() as int]));
        assert(n == (n / 10) * 10 + n % 10);
    }
}

pub proof fn lemma_number_end_at(s: Seq<char>, i: int, j: int)
    requires
        0 <= i <= j <= s.len(),
        forall|m: int| i <= m < j ==> is_digit(#[trigger] s[m]) || s[m] == '.',
        ends_token(s, j),
    ensures
        number_end(s, i) == j,
    decreases j - i,
{
    if i < j {
        lemma_number_end_at(s, i + 1, j);
    }
}

pub proof fn lemma_first_point_at(s: Seq<char>, i: int, p: int, end: int)
    requires
        0 <= i <= p <= end <= s.len(),
        forall|m: int| i <= m < p ==> #[trigger] s[m] != '.',
        p == end || s[p] == '.',
    ensures
        first_point(s, i, end) == p,
    decreases p - i,
{
    if i < p {
        lemma_first_point_at(s, i + 1, p, end);
    }
}

pub proof fn lemma_word_end_at(s: Seq<char>, i: int, j: int)
    requires
        0 <= i <= j <= s.len(),
        forall|m: int| i <= m < j ==> is_alpha(#[trigger] s[m]) || is_digit(s[m]),
        ends_token(s, j),
    ensures
        word_end(s, i) == j,
    decreases j - i,
{
    if i < j {
        lemma_word_end_at(s, i + 1, j);
    }
}

/// A word: a letter, then letters and digits.
pub open spec fn is_word(w: Seq<char>) -> bool {
    &&& w.len() > 0
    &&& is_alpha(w[0])
    &&& forall|k: int| 0 <= k < w.len() ==> is_alpha(#[trigger] w[k]) || is_digit(w[k])
}

pub proof fn lemma_lex_word(s: Seq<char>, i: int, w: Seq<char>)
    requires
        is_word(w),
        text_at(s, i, w),
        ends_token(s, i + w.len()),
    ensures
        lexes_as(s, i, seq![word_token(w)], i + w.len()),
{
    assert forall|m: int| i <= m < i + w.len() implies is_alpha(#[trigger] s[m]) || is_digit(s[m]) by {
        lemma_text_char(s, i, w, m - i);
    }
    lemma_word_end_at(s, i, i + w.len());
    lemma_text_char(s, i, w, 0);
    assert(!is_space(s[i]));
    assert(scan(s, i) == Ok::<(Seq<TokenModel>, int), ErrorModel>((seq![word_token(w)], i + w.len())));
}

pub proof fn lemma_keywords()
    ensures
        word_token("true"@) == TokenModel::Bool(true),
        word_token("false"@) == TokenModel::Bool(false),
        word_token("not"@) == TokenModel::Op(Op::Not),
        word_token("and"@) == TokenModel::Op(Op::And),
        word_token("or"@) == TokenModel::Op(Op::Or),
        is_word("true"@),
        is_word("false"@),
        is_word("not"@),
        is_word("and"@),
        is_word("or"@),
{
    reveal_strlit("true");
    reveal_strlit("True");
    reveal_strlit("false");
    reveal_strlit("False");
    reveal_strlit("not");
    reveal_strlit("and");
    reveal_strlit("or");
    assert("true"@[0] == 't' && "True"@[0] == 'T' && "false"@[0] == 'f' && "False"@[0] == 'F');
    assert("not"@[0] == 'n' && "and"@[0] == 'a' && "or"@[0] == 'o');
}

pub proof fn lemma_lex_number(s: Seq<char>, i: int, n: NumberModel)
    requires
        text_at(s, i, number_text(n)),
        ends_token(s, i + number_text(n).len()),
        n.fraction is Some ==> is_fraction(n.fraction->Some_0),
    ensures
        lexes_as(s, i, seq![TokenModel::Number(n)], i + number_text(n).len()),
{
    let t = number_text(n);
    let d = decimal(n.whole as nat);
    let end = i + t.len();
    let p = i + d.len();
    lemma_decimal(n.whole as nat);
    match n.fraction {
        Some(f) => {
            lemma_text_split(s, i, d + seq!['.'], f);
            lemma_text_split(s, i, d, seq!['.']);
            lemma_text_char(s, p, seq!['.'], 0);
        },
        None => {},
    }
    assert forall|m: int| i <= m < end implies is_digit(#[trigger] s[m]) || s[m] == '.' by {
        lemma_text_char(s, i, t, m - i);
        if m < p {
            assert(t[m - i] == d[m - i]);
        } else if m > p {
            let f = n.fraction->Some_0;
            assert(t[m - i] == f[m - p - 1]);
        }
    }
    lemma_number_end_at(s, i, end);
    assert forall|m: int| i <= m < p implies #[trigger] s[m] != '.' by {
        lemma_text_char(s, i, t, m - i);
        assert(t[m - i] == d[m - i]);
    }
    lemma_first_point_at(s, i, p, end);
    assert(t =~= d + t.subrange(d.len() as int, t.len() as int));
    lemma_text_split(s, i, d, t.subrange(d.len() as int, t.len() as int));
    lemma_digits_value_at(s, i, d, d.len() as int);
    match n.fraction {
        Some(f) => {
            lemma_digits_value_at(s, p + 1, f, f.len() as int);
            assert(s.subrange(p + 1, end) == f);
        },
        None => {},
    }
    lemma_text_char(s, i, t, 0);
    assert(t[0] == d[0]);
    assert(!is_space(s[i]));
    assert(number_token(s, i) == Ok::<(TokenModel, int), ErrorModel>((TokenModel::Number(n), end)));
}

pub proof fn lemma_lex_infix_op(s: Seq<char>, j: int, op: InfixOp)
    requires
        text_at(s, j, infix_text(op)),
        j + infix_text(op).len() < s.len(),
        s[j + infix_text(op).len()] == ' ',
    ensures
        lexes_as(s, j, seq![TokenModel::Op(infix_token(op))], j + infix_text(op).len()),
{
    reveal_strlit("+");
    reveal_strlit("-");
    reveal_strlit("*");
    reveal_strlit("/");
    reveal_strlit("%");
    reveal_strlit("**");
    reveal_strlit("and");
    reveal_strlit("or");
    reveal_strlit("==");
    reveal_strlit("!=");
    reveal_strlit("<");
    reveal_strlit("<=");
    reveal_strlit(">");
    reveal_strlit(">=");
    reveal_strlit(".");
    lemma_keywords();
    let t = infix_text(op);
    if op is And || op is Or {
        lemma_lex_word(s, j, t);
    } else {
        lemma_text_char(s, j, t, 0);
        if t.len() > 1 {
            lemma_text_char(s, j, t, 1);
        }
        assert(scan(s, j) == Ok::<(Seq<TokenModel>, int), ErrorModel>(
            (seq![TokenModel::Op(infix_token(op))], j + t.len()),
        ));
    }
}

pub proof fn lemma_lex_prefix_op(s: Seq<char>, i: int, op: PrefixOp)
    requires
        text_at(s, i, prefix_text(op)),
    ensures
        lexes_as(s, i, seq![TokenModel::Op(prefix_token(op))], i + prefix_text(op).len()),
{
    reveal_strlit("not ");
    reveal_strlit("+");
    reveal_strlit("-");
    let t = prefix_text(op);
    lemma_text_char(s, i, t, 0);
    if op is Not {
        lemma_keywords();
        reveal_strlit("not");
        assert(t =~= "not"@ + seq![' ']);
        lemma_text_split(s, i, "not"@, seq![' ']);
        lemma_text_char(s, i + 3, seq![' '], 0);
        lemma_lex_word(s, i, "not"@);
        assert(lex_from(s, i + 3) == lex_from(s, i + 4));
    } else {
        assert(scan(s, i) == Ok::<(Seq<TokenModel>, int), ErrorModel>(
            (seq![TokenModel::Op(prefix_token(op))], i + 1),
        ));
    }
}

/// A single character that is a token by itself.
pub proof fn lemma_lex_punctuation(s: Seq<char>, i: int, c: char, t: TokenModel)
    requires
        0 <= i < s.len(),
        s[i] == c,
        (c == '(' && t == TokenModel::LeftParen) || (c == ')' && t == TokenModel::RightParen) || (c
            == ',' && t == TokenModel::Comma),
    ensures
        lexes_as(s, i, seq![t], i + 1),
{
    assert(scan(s, i) == Ok::<(Seq<TokenModel>, int), ErrorModel>((seq![t], i + 1)));
}

pub proof fn lemma_lex_space(s: Seq<char>, i: int)
    requires
        0 <= i < s.len(),
        s[i] == ' ',
    ensures
        lexes_as(s, i, seq![], i + 1),
{
    assert(Seq::<TokenModel>::empty() + lex_from(s, i + 1).0 =~= lex_from(s, i + 1).0);
}

pub proof fn lemma_all_well_formed(args: Seq<ExprModel>)
    ensures
        all_well_formed(args) <==> forall|k: int| 0 <= k < args.len() ==> well_formed(#[trigger] args[k]),
    decreases args.len(),
{
    if args.len() > 0 {
        let rest = args.subrange(1, args.len() as int);
        lemma_all_well_formed(rest);
        if forall|k: int| 0 <= k < args.len() ==> well_formed(#[trigger] args[k]) {
            assert forall|k: int| 0 <= k < rest.len() implies well_formed(#[trigger] rest[k]) by {
                assert(rest[k] == args[k + 1]);
            }
        }
        if all_well_formed(args) {
            assert forall|k: int| 0 <= k < args.len() implies well_formed(#[trigger] args[k]) by {
                if k > 0 {
                    assert(rest[k - 1] == args[k]);
                }
            }
        }
    }
}

/// The tokens of arguments, read from the last one.
pub proof fn lemma_args_tokens_last(args: Seq<ExprModel>)
    requires
        args.len() >= 2,
    ensures
        args_tokens(args) == args_tokens(args.subrange(0, args.len() - 1)) + seq![TokenModel::Comma]
            + tokens_of(args[args.len() - 1]),
    decreases args.len(),
{
    let n = args.len() as int;
    let rest = args.subrange(1, n);
    let front = args.subrange(0, n - 1);
    if n == 2 {
        assert(rest.len() == 1);
        assert(front.len() == 1);
        assert(rest[0] == args[1]);
        assert(front[0] == args[0]);
        assert(args_tokens(rest) == tokens_of(rest[0]));
        assert(args_tokens(front) == tokens_of(front[0]));
    } else {
        lemma_args_tokens_last(rest);
        assert(rest.subrange(0, rest.len() - 1) =~= front.subrange(1, front.len() as int));
        assert(rest[rest.len() - 1] == args[n - 1]);
        assert(front[0] == args[0]);
        assert(args_tokens(front) == tokens_of(front[0]) + seq![TokenModel::Comma] + args_tokens(
            front.subrange(1, front.len() as int),
        ));
        assert(args_tokens(args) =~= args_tokens(front) + seq![TokenModel::Comma] + tokens_of(
            args[n - 1],
        ));
    }
}

/// Rendered text of a well-formed tree, ending where a token ends, lexes
/// as the tree's tokens.
pub proof fn lemma_lex_render(s: Seq<char>, i: int, e: ExprModel)
    requires
        well_formed(e),
        text_at(s, i, render(e)),
        ends_token(s, i + render(e).len()),
    ensures
        lexes_as(s, i, tokens_of(e), i + render(e).len()),
    decreases e, 1int,
{
    reveal_strlit("(");
    reveal_strlit(")");
    reveal_strlit(" ");
    reveal_strlit(", ");
    let k = i + render(e).len();
    match e {
        ExprModel::Bool(b) => {
            lemma_keywords();
            if b {
                lemma_lex_word(s, i, "true"@);
            } else {
                lemma_lex_word(s, i, "false"@);
            }
        },
        ExprModel::Number(n) => {
            lemma_lex_number(s, i, n);
        },
        ExprModel::Variable(v) => {
            lemma_lex_word(s, i, v);
        },
        ExprModel::Call(name, args) => {
            lemma_lex_call(s, i, e);
        },
        ExprModel::Prefix(op, x) => {
            lemma_lex_prefix(s, i, e);
        },
        ExprModel::Infix(op, l, r) => {
            lemma_lex_infix(s, i, e);
        },
    }
}

pub proof fn lemma_lex_call(s: Seq<char>, i: int, e: ExprModel)
    requires
        e is Call,
        well_formed(e),
        text_at(s, i, render(e)),
        ends_token(s, i + render(e).len()),
    ensures
        lexes_as(s, i, tokens_of(e), i + render(e).len()),
    decreases e, 0int,
{
    reveal_strlit("(");
    reveal_strlit(")");
    reveal_strlit(" ");
    let k = i + render(e).len();
    let name = e->Call_0;
    let args = e->Call_1;

        let ra = render_args(args);
        lemma_text_split(s, i, name + "("@ + ra, ")"@);
        lemma_text_split(s, i, name + "("@, ra);
        lemma_text_split(s, i, name, "("@);
        let j = i + name.len();
        lemma_text_char(s, j, "("@, 0);
        lemma_text_char(s, j + 1 + ra.len(), ")"@, 0);
        lemma_lex_word(s, i, name);
        lemma_lex_punctuation(s, j, '(', TokenModel::LeftParen);
        lemma_lex_args(s, j + 1, args);
        lemma_lex_punctuation(s, j + 1 + ra.len(), ')', TokenModel::RightParen);
        lemma_lexes_chain(s, i, seq![TokenModel::Symbol(name)], j, seq![TokenModel::LeftParen], j + 1);
        lemma_lexes_chain(
            s,
            i,
            seq![TokenModel::Symbol(name)] + seq![TokenModel::LeftParen],
            j + 1,
            args_tokens(args),
            j + 1 + ra.len(),
        );
        lemma_lexes_chain(
            s,
            i,
            seq![TokenModel::Symbol(name)] + seq![TokenModel::LeftParen] + args_tokens(args),
            j + 1 + ra.len(),
            seq![TokenModel::RightParen],
            k,
        );
        assert(seq![TokenModel::Symbol(name)] + seq![TokenModel::LeftParen] =~= seq![
            TokenModel::Symbol(name),
            TokenModel::LeftParen,
        ]);
}

pub proof fn lemma_lex_prefix(s: Seq<char>, i: int, e: ExprModel)
    requires
        e is Prefix,
        well_formed(e),
        text_at(s, i, render(e)),
        ends_token(s, i + render(e).len()),
    ensures
        lexes_as(s, i, tokens_of(e), i + render(e).len()),
    decreases e, 0int,
{
    reveal_strlit("(");
    reveal_strlit(")");
    reveal_strlit(" ");
    let k = i + render(e).len();
    let op = e->Prefix_0;
    let x = e->Prefix_1;

        let pt = prefix_text(op);
        lemma_text_split(s, i, pt, render_operand(*x));
        lemma_lex_prefix_op(s, i, op);
        lemma_lex_operand(s, i + pt.len(), *x);
        lemma_lexes_chain(
            s,
            i,
            seq![TokenModel::Op(prefix_token(op))],
            i + pt.len(),
            operand_tokens(*x),
            k,
        );
}

pub proof fn lemma_lex_infix(s: Seq<char>, i: int, e: ExprModel)
    requires
        e is Infix,
        well_formed(e),
        text_at(s, i, render(e)),
        ends_token(s, i + render(e).len()),
    ensures
        lexes_as(s, i, tokens_of(e), i + render(e).len()),
    decreases e, 0int,
{
    reveal_strlit("(");
    reveal_strlit(")");
    reveal_strlit(" ");
    let k = i + render(e).len();
    let op = e->Infix_0;
    let l = e->Infix_1;
    let r = e->Infix_2;

        let a = render_operand(*l);
        let t = infix_text(op);
        let b = render_operand(*r);
        lemma_text_split(s, i, a + " "@ + t + " "@, b);
        lemma_text_split(s, i, a + " "@ + t, " "@);
        lemma_text_split(s, i, a + " "@, t);
        lemma_text_split(s, i, a, " "@);
        let j = i + a.len();
        let m = j + 1 + t.len();
        lemma_text_char(s, j, " "@, 0);
        lemma_text_char(s, m, " "@, 0);
        lemma_lex_operand(s, i, *l);
        lemma_lex_space(s, j);
        lemma_lex_infix_op(s, j + 1, op);
        lemma_lex_space(s, m);
        lemma_lex_operand(s, m + 1, *r);
        let op_token = seq![TokenModel::Op(infix_token(op))];
        lemma_lexes_chain(s, j, seq![], j + 1, op_token, m);
        lemma_lexes_chain(s, j, seq![] + op_token, m, seq![], m + 1);
        lemma_lexes_chain(s, j, seq![] + op_token + seq![], m + 1, operand_tokens(*r), k);
        lemma_lexes_chain(s, i, operand_tokens(*l), j, seq![] + op_token + seq![] + operand_tokens(*r), k);
        assert(operand_tokens(*l) + (seq![] + op_token + seq![] + operand_tokens(*r)) =~= tokens_of(e));
}

pub proof fn lemma_lex_operand(s: Seq<char>, i: int, e: ExprModel)
    requires
        well_formed(e),
        text_at(s, i, render_operand(e)),
        ends_token(s, i + render_operand(e).len()),
    ensures
        lexes_as(s, i, operand_tokens(e), i + render_operand(e).len()),
    decreases e, 2int,
{
    reveal_strlit("(");
    reveal_strlit(")");
    if is_compound(e) {
        let r = render(e);
        let k = i + render_operand(e).len();
        lemma_text_split(s, i, "("@ + r, ")"@);
        lemma_text_split(s, i, "("@, r);
        lemma_text_char(s, i, "("@, 0);
        lemma_text_char(s, i + 1 + r.len(), ")"@, 0);
        lemma_lex_punctuation(s, i, '(', TokenModel::LeftParen);
        lemma_lex_render(s, i + 1, e);
        lemma_lex_punctuation(s, i + 1 + r.len(), ')', TokenModel::RightParen);
        lemma_lexes_chain(s, i, seq![TokenModel::LeftParen], i + 1, tokens_of(e), i + 1 + r.len());
        lemma_lexes_chain(
            s,
            i,
            seq![TokenModel::LeftParen] + tokens_of(e),
            i + 1 + r.len(),
            seq![TokenModel::RightParen],
            k,
        );
    } else {
        lemma_lex_render(s, i, e);
    }
}

pub proof fn lemma_lex_args(s: Seq<char>, i: int, args: Seq<ExprModel>)
    requires
        all_well_formed(args),
        text_at(s, i, render_args(args)),
        ends_token(s, i + render_args(args).len()),
    ensures
        lexes_as(s, i, args_tokens(args), i + render_args(args).len()),
    decreases args, 0int,
{
    reveal_strlit(", ");
    lemma_all_well_formed(args);
    let n = args.len() as int;
    if n == 0 {
        assert(Seq::<TokenModel>::empty() + lex_from(s, i).0 =~= lex_from(s, i).0);
    } else if n == 1 {
        lemma_lex_render(s, i, args[0]);
    } else {
        let front = args.subrange(0, n - 1);
        let last = args[n - 1];
        let rf = render_args(front);
        lemma_all_well_formed(front);
        assert forall|k: int| 0 <= k < front.len() implies well_formed(#[trigger] front[k]) by {
            assert(front[k] == args[k]);
        }
        lemma_text_split(s, i, rf + ", "@, render(last));
        lemma_text_split(s, i, rf, ", "@);
        let j = i + rf.len();
        lemma_text_char(s, j, ", "@, 0);
        lemma_text_char(s, j, ", "@, 1);
        lemma_lex_args(s, i, front);
        lemma_lex_punctuation(s, j, ',', TokenModel::Comma);
        lemma_lex_space(s, j + 1);
        lemma_lex_render(s, j + 2, last);
        let k = j + 2 + render(last).len();
        lemma_lexes_chain(s, j, seq![TokenModel::Comma], j + 1, seq![], j + 2);
        lemma_lexes_chain(s, j, seq![TokenModel::Comma] + seq![], j + 2, tokens_of(last), k);
        lemma_lexes_chain(s, i, args_tokens(front), j, seq![TokenModel::Comma] + seq![] + tokens_of(last), k);
        lemma_args_tokens_last(args);
        assert(args_tokens(front) + (seq![TokenModel::Comma] + seq![] + tokens_of(last)) =~= args_tokens(
            args,
        ));
    }
}

/// The text of a well-formed tree reads back as that tree, alone.
pub proof fn lemma_render_parses_back(e: ExprModel)
    requires
        well_formed(e),
    ensures
        parse_text(render(e)) == Ok::<Seq<ExprModel>, ErrorModel>(seq![e]),
{
    let s = render(e);
    assert(s.subrange(0, s.len() as int) =~= s);
    lemma_lex_render(s, 0, e);
    assert(lex_from(s, s.len() as int) == (Seq::<TokenModel>::empty(), None::<ErrorModel>));
    assert(tokens_of(e) + Seq::<TokenModel>::empty() =~= tokens_of(e));
    assert(lex(s) == (tokens_of(e), None::<ErrorModel>));
    lemma_tokens_parse_back(e);
}

// Trees read from text are well formed.

pub open spec fn token_well_formed(t: TokenModel) -> bool {
    match t {
        TokenModel::Symbol(w) => is_name(w),
        TokenModel::Number(n) => n.fraction is Some ==> is_fraction(n.fraction->Some_0),
        _ => true,
    }
}

pub open spec fn stream_well_formed(st: Stream) -> bool {
    forall|k: int| 0 <= k < st.0.len() ==> token_well_formed(#[trigger] st.0[k])
}

pub proof fn lemma_word_run(s: Seq<char>, i: int)
    requires
        0 <= i <= s.len(),
    ensures
        forall|m: int| i <= m < word_end(s, i) ==> is_alpha(#[trigger] s[m]) || is_digit(s[m]),
    decreases s.len() - i,
{
    if i < s.len() && (is_digit(s[i]) || is_alpha(s[i])) {
        lemma_word_run(s, i + 1);
    }
}

pub proof fn lemma_number_run(s: Seq<char>, i: int)
    requires
        0 <= i <= s.len(),
    ensures
        forall|m: int| i <= m < number_end(s, i) ==> is_digit(#[trigger] s[m]) || s[m] == '.',
    decreases s.len() - i,
{
    if i < s.len() && (is_digit(s[i]) || s[i] == '.') {
        lemma_number_run(s, i + 1);
    }
}

pub proof fn lemma_first_point_bound(s: Seq<char>, i: int, j: int)
    requires
        i <= j,
    ensures
        i <= first_point(s, i, j) <= j,
    decreases j - i,
{
    if i < j && s[i] != '.' {
        lemma_first_point_bound(s, i + 1, j);
    }
}

/// The lexer yields names as symbols and fractions as fractions.
pub proof fn lemma_lex_well_formed(s: Seq<char>, i: int)
    ensures
        forall|k: int|
            0 <= k < lex_from(s, i).0.len() ==> token_well_formed(#[trigger] lex_from(s, i).0[k]),
    decreases s.len() - i,
{
    if 0 <= i < s.len() {
        if is_space(s[i]) {
            lemma_lex_well_formed(s, i + 1);
            assert(lex_from(s, i) == lex_from(s, i + 1));
        } else {
            match scan(s, i) {
                Ok((ts, j)) => if i < j <= s.len() {
                    lemma_lex_well_formed(s, j);
                    let c = s[i];
                    if is_digit(c) {
                        lemma_number_end_bounds(s, i);
                        lemma_number_run(s, i);
                        let end = number_end(s, i);
                        let p = first_point(s, i, end);
                        lemma_first_point_bound(s, i, end);
                        if p < end {
                            let f = s.subrange(p + 1, end);
                            assert forall|m: int| 0 <= m < f.len() implies is_digit(#[trigger] f[m])
                                || f[m] == '.' by {
                                assert(f[m] == s[p + 1 + m]);
                            }
                        }
                    } else if is_alpha(c) {
                        lemma_word_end_bounds(s, i + 1);
                        lemma_word_run(s, i);
                        let w = s.subrange(i, word_end(s, i));
                        assert forall|m: int| 0 <= m < w.len() implies is_alpha(#[trigger] w[m])
                            || is_digit(w[m]) by {
                            assert(w[m] == s[i + m]);
                        }
                    }
                    let rest = lex_from(s, j).0;
                    assert forall|k: int| 0 <= k < ts.len() implies token_well_formed(#[trigger] ts[k]) by {
                        if is_alpha(c) && !is_digit(c) {
                            let w = s.subrange(i, word_end(s, i));
                            assert(w[0] == s[i]);
                        }
                    }
                    assert forall|k: int| 0 <= k < (ts + rest).len() implies token_well_formed(
                        #[trigger] (ts + rest)[k],
                    ) by {
                        if k >= ts.len() {
                            assert((ts + rest)[k] == rest[k - ts.len()]);
                        }
                    }
                    assert(lex_from(s, i).0 == ts + rest);
                } else {
                    assert(lex_from(s, i).0.len() == 0);
                },
                Err(_) => {
                    assert(lex_from(s, i).0.len() == 0);
                },
            }
        }
    }
}

pub proof fn lemma_primary_well_formed(st: Stream, i: int)
    requires
        stream_well_formed(st),
    ensures
        primary_at(st, i) is Ok ==> well_formed(primary_at(st, i)->Ok_0.0),
    decreases st.0.len() - i, 0int,
{
    if 0 <= i < st.0.len() {
        assert(token_well_formed(st.0[i]));
        match st.0[i] {
            TokenModel::Symbol(name) => {
                assert(all_well_formed(seq![]));
                if token_at(st, i + 1) == Ok::<Option<TokenModel>, ErrorModel>(Some(TokenModel::LeftParen)) {
                    lemma_args_well_formed(st, i + 2, name, seq![]);
                    assert(well_formed(ExprModel::Call(name, seq![])));
                } else {
                    assert(well_formed(ExprModel::Variable(name)));
                }
            },
            TokenModel::LeftParen => {
                lemma_expr_well_formed(st, i + 1, 0);
            },
            TokenModel::Op(op) => {
                if let Some(p) = prefix_op_of(op) {
                    lemma_expr_well_formed(st, i + 1, crate::expression::prefix_precedence(p));
                }
            },
            _ => {},
        }
    }
}

pub proof fn lemma_expr_well_formed(st: Stream, i: int, min: u8)
    requires
        stream_well_formed(st),
    ensures
        parse_expr_at(st, i, min) is Ok ==> well_formed(parse_expr_at(st, i, min)->Ok_0.0),
    decreases st.0.len() - i, 1int,
{
    if 0 <= i < st.0.len() {
        lemma_primary_well_formed(st, i);
        match primary_at(st, i) {
            Ok((lhs, j)) => if i < j <= st.0.len() {
                lemma_infix_well_formed(st, lhs, j, min);
            },
            Err(_) => {},
        }
    }
}

pub proof fn lemma_infix_well_formed(st: Stream, lhs: ExprModel, i: int, min: u8)
    requires
        stream_well_formed(st),
        well_formed(lhs),
    ensures
        parse_infix_at(st, lhs, i, min) is Ok ==> well_formed(parse_infix_at(st, lhs, i, min)->Ok_0.0),
    decreases st.0.len() - i, 1int,
{
    match token_at(st, i) {
        Ok(Some(TokenModel::Op(op))) => match infix_op_of(op) {
            Some(io) => if infix_precedence(io).0 >= min {
                lemma_expr_well_formed(st, i + 1, infix_precedence(io).1);
                match parse_expr_at(st, i + 1, infix_precedence(io).1) {
                    Ok((rhs, j)) => if i < j <= st.0.len() {
                        lemma_infix_well_formed(
                            st,
                            ExprModel::Infix(io, Box::new(lhs), Box::new(rhs)),
                            j,
                            min,
                        );
                    },
                    Err(_) => {},
                }
            },
            None => {},
        },
        _ => {},
    }
}

pub proof fn lemma_args_well_formed(st: Stream, i: int, name: Seq<char>, done: Seq<ExprModel>)
    requires
        stream_well_formed(st),
        is_name(name),
        all_well_formed(done),
    ensures
        parse_args_at(st, i, name, done) is Ok ==> well_formed(parse_args_at(st, i, name, done)->Ok_0.0),
    decreases st.0.len() - i, 2int,
{
    if 0 <= i <= st.0.len() {
        lemma_expr_well_formed(st, i, 0);
        match parse_expr_at(st, i, 0) {
            Ok((arg, j)) => {
                let more = done.push(arg);
                lemma_all_well_formed(done);
                lemma_all_well_formed(more);
                assert forall|k: int| 0 <= k < more.len() implies well_formed(#[trigger] more[k]) by {
                    if k < done.len() {
                        assert(more[k] == done[k]);
                    }
                }
                match token_at(st, j) {
                    Ok(Some(TokenModel::Comma)) => if i < j < st.0.len() {
                        lemma_args_well_formed(st, j + 1, name, more);
                    },
                    _ => {},
                }
            },
            Err(_) => {},
        }
    }
}

pub proof fn lemma_all_parsed_well_formed(st: Stream, i: int)
    requires
        stream_well_formed(st),
    ensures
        parse_all_at(st, i) is Ok ==> forall|k: int|
            0 <= k < parse_all_at(st, i)->Ok_0.len() ==> well_formed(
                #[trigger] parse_all_at(st, i)->Ok_0[k],
            ),
    decreases st.0.len() - i,
{
    match token_at(st, i) {
        Ok(Some(_)) => {
            lemma_expr_well_formed(st, i, 0);
            match parse_expr_at(st, i, 0) {
                Ok((e, j)) => if i < j <= st.0.len() {
                    lemma_all_parsed_well_formed(st, j);
                    match parse_all_at(st, j) {
                        Ok(es) => {
                            assert forall|k: int| 0 <= k < (seq![e] + es).len() implies well_formed(
                                #[trigger] (seq![e] + es)[k],
                            ) by {
                                if k > 0 {
                                    assert((seq![e] + es)[k] == es[k - 1]);
                                }
                            }
                        },
                        Err(_) => {},
                    }
                },
                Err(_) => {},
            }
        },
        _ => {},
    }
}

/// Every expression read from a text renders to a text that reads back as
/// that same expression, alone; so it evaluates to the same value.
pub proof fn lemma_round_trip(text: Seq<char>, k: int)
    requires
        parse_text(text) is Ok,
        0 <= k < parse_text(text)->Ok_0.len(),
    ensures
        parse_text(render(parse_text(text)->Ok_0[k])) == Ok::<Seq<ExprModel>, ErrorModel>(
            seq![parse_text(text)->Ok_0[k]],
        ),
        eval(parse_text(render(parse_text(text)->Ok_0[k]))->Ok_0[0]) == eval(
            parse_text(text)->Ok_0[k],
        ),
{
    lemma_lex_well_formed(text, 0);
    lemma_all_parsed_well_formed(lex(text), 0);
    lemma_render_parses_back(parse_text(text)->Ok_0[k]);
}

} // verus!
