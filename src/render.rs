use vstd::prelude::*;

use crate::expression::{
    lemma_call_model, models, ExprModel, Expression, InfixOp, PrefixOp, ValueExpression,
};
use crate::token::{Number, NumberModel, Op, Token, TokenModel};

verus! {

broadcast use {
    vstd::std_specs::vec::axiom_vec_index_decreases,
    vstd::seq::axiom_seq_index_decreases,
    vstd::seq::axiom_seq_subrange_decreases,
};

pub open spec fn digit_char(d: nat) -> char {
    if d == 0 {
        '0'
    } else if d == 1 {
        '1'
    } else if d == 2 {
        '2'
    } else if d == 3 {
        '3'
    } else if d == 4 {
        '4'
    } else if d == 5 {
        '5'
    } else if d == 6 {
        '6'
    } else if d == 7 {
        '7'
    } else if d == 8 {
        '8'
    } else {
        '9'
    }
}

/// The decimal digits of a number, without leading zeros.
pub open spec fn decimal(n: nat) -> Seq<char>
    decreases n,
{
    if n < 10 {
        seq![digit_char(n)]
    } else {
        decimal(n / 10).push(digit_char(n % 10))
    }
}

pub open spec fn number_text(n: NumberModel) -> Seq<char> {
    match n.fraction {
        Some(f) => decimal(n.whole as nat) + seq!['.'] + f,
        None => decimal(n.whole as nat),
    }
}

pub open spec fn prefix_text(op: PrefixOp) -> Seq<char> {
    match op {
        PrefixOp::Not => "not "@,
        PrefixOp::Plus => "+"@,
        PrefixOp::Minus => "-"@,
    }
}

pub open spec fn infix_text(op: InfixOp) -> Seq<char> {
    match op {
        InfixOp::Add => "+"@,
        InfixOp::Subtract => "-"@,
        InfixOp::Multiply => "*"@,
        InfixOp::Divide => "/"@,
        InfixOp::Modulo => "%"@,
        InfixOp::Exponent => "**"@,
        InfixOp::And => "and"@,
        InfixOp::Or => "or"@,
        InfixOp::Equal => "=="@,
        InfixOp::NotEqual => "!="@,
        InfixOp::LessThan => "<"@,
        InfixOp::LessThanOrEqual => "<="@,
        InfixOp::GreaterThan => ">"@,
        InfixOp::GreaterThanOrEqual => ">="@,
        InfixOp::Dot => "."@,
    }
}

/// How an operator token is shown.
pub open spec fn op_text(op: Op) -> Seq<char> {
    match op {
        Op::Not => "not"@,
        Op::Plus => "+"@,
        Op::Minus => "-"@,
        Op::Multiply => "*"@,
        Op::Divide => "/"@,
        Op::Modulo => "%"@,
        Op::Exponent => "^"@,
        Op::Dot => "."@,
        Op::And => "and"@,
        Op::Or => "or"@,
        Op::Equal => "="@,
        Op::NotEqual => "≠"@,
        Op::LessThan => "<"@,
        Op::LessThanOrEqual => "≤"@,
        Op::GreaterThan => ">"@,
        Op::GreaterThanOrEqual => "≥"@,
    }
}

/// How a token is shown.
pub open spec fn token_text(t: TokenModel) -> Seq<char> {
    match t {
        TokenModel::Bool(b) => if b {
            "true"@
        } else {
            "false"@
        },
        TokenModel::Number(n) => number_text(n),
        TokenModel::Symbol(s) => s,
        TokenModel::Op(op) => op_text(op),
        TokenModel::LeftParen => "("@,
        TokenModel::RightParen => ")"@,
        TokenModel::Comma => ","@,
    }
}

/// The text of an expression. Operands that are themselves operator
/// applications are put in parentheses, so the text reads back as the same
/// tree.
pub open spec fn render(e: ExprModel) -> Seq<char>
    decreases e, 1int,
{
    match e {
        ExprModel::Bool(b) => if b {
            "true"@
        } else {
            "false"@
        },
        ExprModel::Number(n) => number_text(n),
        ExprModel::Variable(v) => v,
        ExprModel::Call(name, args) => name + "("@ + render_args(args) + ")"@,
        ExprModel::Prefix(op, x) => prefix_text(op) + render_operand(*x),
        ExprModel::Infix(op, l, r) => render_operand(*l) + " "@ + infix_text(op) + " "@
            + render_operand(*r),
    }
}

/// The text of an operand: in parentheses when it applies an operator.
pub open spec fn render_operand(e: ExprModel) -> Seq<char>
    decreases e, 2int,
{
    if e is Prefix || e is Infix {
        "("@ + render(e) + ")"@
    } else {
        render(e)
    }
}

/// The texts of call arguments, separated by commas.
pub open spec fn render_args(args: Seq<ExprModel>) -> Seq<char>
    decreases args, 0int,
{
    if args.len() == 0 {
        seq![]
    } else if args.len() == 1 {
        render(args[0])
    } else {
        render_args(args.subrange(0, args.len() - 1)) + ", "@ + render(args[args.len() - 1])
    }
}

fn digit_str(d: u64) -> (r: &'static str)
    requires
        d < 10,
    ensures
        r@ == seq![digit_char(d as nat)],
{
    proof {
        reveal_strlit("0");
        reveal_strlit("1");
        reveal_strlit("2");
        reveal_strlit("3");
        reveal_strlit("4");
        reveal_strlit("5");
        reveal_strlit("6");
        reveal_strlit("7");
        reveal_strlit("8");
        reveal_strlit("9");
    }
    if d == 0 {
        "0"
    } else if d == 1 {
        "1"
    } else if d == 2 {
        "2"
    } else if d == 3 {
        "3"
    } else if d == 4 {
        "4"
    } else if d == 5 {
        "5"
    } else if d == 6 {
        "6"
    } else if d == 7 {
        "7"
    } else if d == 8 {
        "8"
    } else {
        "9"
    }
}

/// The decimal digits of a number.
pub fn decimal_string(n: u64) -> (r: String)
    ensures
        r@ == decimal(n as nat),
    decreases n,
{
    if n < 10 {
        String::from_str(digit_str(n))
    } else {
        let mut s = decimal_string(n / 10);
        s.append(digit_str(n % 10));
        s
    }
}

impl Number {
    /// The literal as written: its digits, and its fraction after a point.
    pub fn to_string(&self) -> (r: String)
        ensures
            r@ == number_text(self@),
    {
        let mut s = decimal_string(self.whole);
        match &self.fraction {
            Some(f) => {
                s.append(".");
                s.append(f.as_str());
                proof {
                    reveal_strlit(".");
                }
            },
            None => {},
        }
        s
    }
}

impl Op {
    /// How the operator is shown.
    pub fn symbol(&self) -> (r: &'static str)
        ensures
            r@ == op_text(*self),
    {
        match self {
            Op::Not => "not",
            Op::Plus => "+",
            Op::Minus => "-",
            Op::Multiply => "*",
            Op::Divide => "/",
            Op::Modulo => "%",
            Op::Exponent => "^",
            Op::Dot => ".",
            Op::And => "and",
            Op::Or => "or",
            Op::Equal => "=",
            Op::NotEqual => "≠",
            Op::LessThan => "<",
            Op::LessThanOrEqual => "≤",
            Op::GreaterThan => ">",
            Op::GreaterThanOrEqual => "≥",
        }
    }
}

impl Token {
    /// How the token is shown.
    pub fn to_string(&self) -> (r: String)
        ensures
            r@ == token_text(self@),
    {
        match self {
            Token::Bool(b) => if *b {
                String::from_str("true")
            } else {
                String::from_str("false")
            },
            Token::Number(n) => n.to_string(),
            Token::Symbol(s) => s.clone(),
            Token::Op(op) => String::from_str(op.symbol()),
            Token::LeftParen => String::from_str("("),
            Token::RightParen => String::from_str(")"),
            Token::Comma => String::from_str(","),
        }
    }
}

impl PrefixOp {
    /// How the operator is written.
    pub fn symbol(&self) -> (r: &'static str)
        ensures
            r@ == prefix_text(*self),
    {
        match self {
            PrefixOp::Not => "not ",
            PrefixOp::Plus => "+",
            PrefixOp::Minus => "-",
        }
    }
}

impl InfixOp {
    /// How the operator is written.
    pub fn symbol(&self) -> (r: &'static str)
        ensures
            r@ == infix_text(*self),
    {
        match self {
            InfixOp::Add => "+",
            InfixOp::Subtract => "-",
            InfixOp::Multiply => "*",
            InfixOp::Divide => "/",
            InfixOp::Modulo => "%",
            InfixOp::Exponent => "**",
            InfixOp::And => "and",
            InfixOp::Or => "or",
            InfixOp::Equal => "==",
            InfixOp::NotEqual => "!=",
            InfixOp::LessThan => "<",
            InfixOp::LessThanOrEqual => "<=",
            InfixOp::GreaterThan => ">",
            InfixOp::GreaterThanOrEqual => ">=",
            InfixOp::Dot => ".",
        }
    }
}

/// The texts of call arguments, separated by commas.
fn args_string(ps: &Vec<Expression>) -> (r: String)
    ensures
        r@ == render_args(models(ps@)),
    decreases ps, 0int,
{
    let ghost args = models(ps@);
    let mut s = String::new();
    let mut k: usize = 0;
    assert(args.subrange(0, 0) =~= Seq::<ExprModel>::empty());
    while k < ps.len()
        invariant
            k <= ps.len(),
            args == models(ps@),
            s@ == render_args(args.subrange(0, k as int)),
        decreases ps.len() - k,
    {
        if k > 0 {
            s.append(", ");
        }
        let t = ps[k].to_string();
        s.append(t.as_str());
        proof {
            let next = args.subrange(0, k + 1);
            assert(next.subrange(0, k as int) =~= args.subrange(0, k as int));
            assert(s@ =~= render_args(next));
        }
        k = k + 1;
    }
    assert(args.subrange(0, ps.len() as int) =~= args);
    s
}

impl Expression {
    /// The text of this expression; it reads back as the same tree.
    pub fn to_string(&self) -> (r: String)
        ensures
            r@ == render(self@),
        decreases self, 1int,
    {
        match self {
            Expression::Value(ValueExpression::Bool(b)) => if *b {
                String::from_str("true")
            } else {
                String::from_str("false")
            },
            Expression::Value(ValueExpression::Number(n)) => n.to_string(),
            Expression::Value(ValueExpression::Variable(v)) => v.clone(),
            Expression::Fn(f) => {
                proof {
                    lemma_call_model(*f);
                }
                let mut s = f.name.clone();
                s.append("(");
                let t = args_string(&f.parameters);
                s.append(t.as_str());
                s.append(")");
                s
            },
            Expression::Prefix(p) => {
                let mut s = String::from_str(p.op.symbol());
                let t = p.rhs.operand_string();
                s.append(t.as_str());
                s
            },
            Expression::Infix(i) => {
                let mut s = i.lhs.operand_string();
                s.append(" ");
                s.append(i.op.symbol());
                s.append(" ");
                let t = i.rhs.operand_string();
                s.append(t.as_str());
                s
            },
        }
    }

    /// The text of this expression as an operand of an operator.
    fn operand_string(&self) -> (r: String)
        ensures
            r@ == render_operand(self@),
        decreases self, 2int,
    {
        let t = self.to_string();
        match self {
            Expression::Prefix(_) | Expression::Infix(_) => {
                let mut s = String::from_str("(");
                s.append(t.as_str());
                s.append(")");
                s
            },
            _ => t,
        }
    }
}

} // verus!
