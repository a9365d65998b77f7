use vstd::prelude::*;

use crate::error::{ErrorModel, MathlineError};
use crate::expression::{
    lemma_call_model, models, ExprModel, Expression, FnExpression, InfixExpression, InfixOp,
    PrefixExpression, PrefixOp, ValueExpression,
};
use crate::text::str_eq;
use crate::token::{Number, NumberModel};
use crate::value::{
    as_boolean, as_number, int_expr, integer_expression, value_expr, value_models, Module, Value,
    ValueModel,
};

verus! {

broadcast use {
    vstd::std_specs::vec::axiom_vec_index_decreases,
    vstd::seq::axiom_seq_index_decreases,
    vstd::seq::axiom_seq_subrange_decreases,
};

pub open spec fn pow(base: int, exp: nat) -> int
    decreases exp,
{
    if exp == 0 {
        1
    } else {
        base * pow(base, (exp - 1) as nat)
    }
}

pub open spec fn abs(n: int) -> int {
    if n < 0 {
        -n
    } else {
        n
    }
}

pub open spec fn fits_i64(n: int) -> bool {
    i64::MIN <= n <= i64::MAX
}

/// A numeric literal: an integer when it has no fraction, else a float.
pub open spec fn number_value(n: NumberModel) -> Result<ValueModel, ErrorModel> {
    match n.fraction {
        Some(_) => Ok(ValueModel::F64(ExprModel::Number(n))),
        None => if n.whole <= i64::MAX {
            Ok(ValueModel::I64(n.whole as i64))
        } else {
            Err(ErrorModel::InvalidExpression(ExprModel::Number(n)))
        },
    }
}

/// A name, looked up in the fixed table of constants.
pub open spec fn variable_value(name: Seq<char>) -> Result<ValueModel, ErrorModel> {
    if name == "math"@ {
        Ok(ValueModel::Module(Module::Math))
    } else if name == "pi"@ || name == "PI"@ || name == "π"@ {
        Ok(ValueModel::F64(ExprModel::Variable("pi"@)))
    } else if name == "tau"@ || name == "TAU"@ || name == "τ"@ {
        Ok(ValueModel::F64(ExprModel::Variable("tau"@)))
    } else if name == "e"@ {
        Ok(ValueModel::F64(ExprModel::Variable("e"@)))
    } else {
        Err(ErrorModel::UnknownVariable(name))
    }
}

/// The failure of `+` or `-` on a boolean, or of `-` on the smallest
/// integer, whose negation does not fit.
pub open spec fn prefix_failure(op: PrefixOp, v: ValueModel) -> ErrorModel {
    ErrorModel::InvalidExpression(ExprModel::Prefix(op, Box::new(value_expr(v))))
}

/// A prefix operator on a value: `not` needs a boolean, `+` and `-` a
/// number; a module is neither.
pub open spec fn prefix_value(op: PrefixOp, v: ValueModel) -> Result<ValueModel, ErrorModel> {
    match op {
        PrefixOp::Not => match v {
            ValueModel::Bool(e) => Ok(ValueModel::Bool(ExprModel::Prefix(PrefixOp::Not, Box::new(e)))),
            _ => Err(ErrorModel::CannotUseAsBool),
        },
        PrefixOp::Plus => match v {
            ValueModel::I64(n) => Ok(ValueModel::I64(n)),
            ValueModel::F64(e) => Ok(ValueModel::F64(e)),
            ValueModel::Module(_) => Err(ErrorModel::CannotUseAsNumber),
            ValueModel::Bool(_) => Err(prefix_failure(op, v)),
        },
        PrefixOp::Minus => match v {
            ValueModel::I64(n) => if n != i64::MIN {
                Ok(ValueModel::I64(-n as i64))
            } else {
                Err(prefix_failure(op, v))
            },
            ValueModel::F64(e) => Ok(ValueModel::F64(ExprModel::Prefix(PrefixOp::Minus, Box::new(e)))),
            ValueModel::Module(_) => Err(ErrorModel::CannotUseAsNumber),
            ValueModel::Bool(_) => Err(prefix_failure(op, v)),
        },
    }
}

/// The failure of an integer operation whose result does not fit in 64 bits.
pub open spec fn overflow(op: InfixOp, a: i64, b: i64) -> ErrorModel {
    ErrorModel::InvalidExpression(
        ExprModel::Infix(op, Box::new(int_expr(a as int)), Box::new(int_expr(b as int))),
    )
}

pub open spec fn checked_result(op: InfixOp, a: i64, b: i64, r: Option<i64>) -> Result<ValueModel, ErrorModel> {
    match r {
        Some(x) => Ok(ValueModel::I64(x)),
        None => Err(overflow(op, a, b)),
    }
}

/// An arithmetic operator on two integers: its result, or `None` when it
/// takes the float path (a division that is not exact, an exponent that is
/// negative or does not fit in 32 unsigned bits).
pub open spec fn integer_result(op: InfixOp, a: i64, b: i64) -> Option<Result<ValueModel, ErrorModel>> {
    match op {
        InfixOp::Add => Some(checked_result(op, a, b, a.checked_add(b))),
        InfixOp::Subtract => Some(checked_result(op, a, b, a.checked_sub(b))),
        InfixOp::Multiply => Some(checked_result(op, a, b, a.checked_mul(b))),
        InfixOp::Divide => if a.checked_rem(b) == Some(0i64) {
            Some(checked_result(op, a, b, a.checked_div(b)))
        } else {
            None
        },
        InfixOp::Modulo => Some(checked_result(op, a, b, a.checked_rem(b))),
        InfixOp::Exponent => if 0 <= b <= u32::MAX {
            let p = pow(a as int, b as nat);
            Some(
                if fits_i64(p) {
                    Ok(ValueModel::I64(p as i64))
                } else {
                    Err(overflow(op, a, b))
                },
            )
        } else {
            None
        },
        _ => None,
    }
}

/// Both operands used as floats, combined into a float.
pub open spec fn float_result(op: InfixOp, l: ValueModel, r: ValueModel) -> Result<ValueModel, ErrorModel> {
    match as_number(l) {
        Ok(x) => match as_number(r) {
            Ok(y) => Ok(ValueModel::F64(ExprModel::Infix(op, Box::new(x), Box::new(y)))),
            Err(e) => Err(e),
        },
        Err(e) => Err(e),
    }
}

/// Both operands used as floats and compared.
pub open spec fn comparison_result(op: InfixOp, l: ValueModel, r: ValueModel) -> Result<ValueModel, ErrorModel> {
    match as_number(l) {
        Ok(x) => match as_number(r) {
            Ok(y) => Ok(ValueModel::Bool(ExprModel::Infix(op, Box::new(x), Box::new(y)))),
            Err(e) => Err(e),
        },
        Err(e) => Err(e),
    }
}

/// Both operands used as booleans and combined.
pub open spec fn logical_result(op: InfixOp, l: ValueModel, r: ValueModel) -> Result<ValueModel, ErrorModel> {
    match as_boolean(l) {
        Ok(x) => match as_boolean(r) {
            Ok(y) => Ok(ValueModel::Bool(ExprModel::Infix(op, Box::new(x), Box::new(y)))),
            Err(e) => Err(e),
        },
        Err(e) => Err(e),
    }
}

pub open spec fn is_arithmetic(op: InfixOp) -> bool {
    op is Add || op is Subtract || op is Multiply || op is Divide || op is Modulo || op is Exponent
}

pub open spec fn infix_value(op: InfixOp, l: ValueModel, r: ValueModel) -> Result<ValueModel, ErrorModel> {
    if is_arithmetic(op) {
        match (l, r) {
            (ValueModel::I64(a), ValueModel::I64(b)) => match integer_result(op, a, b) {
                Some(res) => res,
                None => float_result(op, l, r),
            },
            _ => float_result(op, l, r),
        }
    } else if op is And || op is Or {
        logical_result(op, l, r)
    } else if op is Dot {
        match l {
            ValueModel::Module(_) => Ok(r),
            _ => Err(ErrorModel::CannotUseAsModule),
        }
    } else {
        comparison_result(op, l, r)
    }
}

/// Whether a name is one of the built-in functions of one float argument.
pub open spec fn is_float_function(name: Seq<char>) -> bool {
    name == "sin"@ || name == "cos"@ || name == "tan"@ || name == "log"@ || name == "ln"@
}

/// A built-in function applied to the values of its arguments.
pub open spec fn call_value(name: Seq<char>, args: Seq<ValueModel>) -> Result<ValueModel, ErrorModel> {
    if is_float_function(name) || name == "print"@ {
        if args.len() != 1 {
            Err(ErrorModel::InvalidFnParameterLength(name, args.len()))
        } else if name == "print"@ {
            Ok(args[0])
        } else {
            match as_number(args[0]) {
                Ok(x) => Ok(ValueModel::F64(ExprModel::Call(name, seq![x]))),
                Err(e) => Err(e),
            }
        }
    } else {
        Err(ErrorModel::FunctionIsNotSupported(name))
    }
}

/// The literal 9223372036854775808: too large for an integer by itself,
/// the smallest integer when negated.
pub open spec fn smallest_magnitude() -> ExprModel {
    ExprModel::Number(NumberModel { whole: 9223372036854775808, fraction: None })
}

/// The value of an expression, or the first failure met. Operands and
/// arguments are evaluated left to right, all of them before the operator
/// or function is applied.
pub open spec fn eval(e: ExprModel) -> Result<ValueModel, ErrorModel>
    decreases e,
{
    match e {
        ExprModel::Bool(b) => Ok(ValueModel::Bool(ExprModel::Bool(b))),
        ExprModel::Number(n) => number_value(n),
        ExprModel::Variable(v) => variable_value(v),
        ExprModel::Call(name, args) => match args_values(args) {
            Ok(vs) => call_value(name, vs),
            Err(err) => Err(err),
        },
        ExprModel::Prefix(op, x) => if op == PrefixOp::Minus && *x == smallest_magnitude() {
            Ok(ValueModel::I64(i64::MIN))
        } else {
            match eval(*x) {
                Ok(v) => prefix_value(op, v),
                Err(err) => Err(err),
            }
        },
        ExprModel::Infix(op, l, r) => match eval(*l) {
            Ok(a) => match eval(*r) {
                Ok(b) => infix_value(op, a, b),
                Err(err) => Err(err),
            },
            Err(err) => Err(err),
        },
    }
}

/// The values of a list of expressions, or the first failure met.
pub open spec fn args_values(args: Seq<ExprModel>) -> Result<Seq<ValueModel>, ErrorModel>
    decreases args,
{
    if args.len() == 0 {
        Ok(seq![])
    } else {
        match args_values(args.subrange(0, args.len() - 1)) {
            Ok(vs) => match eval(args[args.len() - 1]) {
                Ok(v) => Ok(vs.push(v)),
                Err(err) => Err(err),
            },
            Err(err) => Err(err),
        }
    }
}

pub open spec fn result_model(r: Result<Value, MathlineError>) -> Result<ValueModel, ErrorModel> {
    match r {
        Ok(v) => Ok(v@),
        Err(e) => Err(e@),
    }
}

/// An integer exponentiation whose result does not fit in 64 bits fails
/// with an invalid expression that shows both operands: it never falls back
/// to a float. The integer path is the one for an exponent that fits in 32
/// unsigned bits.
pub proof fn lemma_exponent_overflow_fails(lhs: ExprModel, rhs: ExprModel, a: i64, b: i64)
    requires
        eval(lhs) == Ok::<ValueModel, ErrorModel>(ValueModel::I64(a)),
        eval(rhs) == Ok::<ValueModel, ErrorModel>(ValueModel::I64(b)),
        0 <= b <= u32::MAX,
        !fits_i64(pow(a as int, b as nat)),
    ensures
        eval(ExprModel::Infix(InfixOp::Exponent, Box::new(lhs), Box::new(rhs))) == Err::<
            ValueModel,
            ErrorModel,
        >(
            ErrorModel::InvalidExpression(
                ExprModel::Infix(
                    InfixOp::Exponent,
                    Box::new(int_expr(a as int)),
                    Box::new(int_expr(b as int)),
                ),
            ),
        ),
{
}

/// The literal of an integer evaluates to that integer, the smallest one
/// included.
pub proof fn lemma_int_expr_eval(n: i64)
    ensures
        eval(int_expr(n as int)) == Ok::<ValueModel, ErrorModel>(ValueModel::I64(n)),
{
    if n < 0 && n != i64::MIN {
        let inner = ExprModel::Number(NumberModel { whole: (-n) as u64, fraction: None });
        assert(inner != smallest_magnitude());
        assert(eval(inner) == Ok::<ValueModel, ErrorModel>(ValueModel::I64((-n) as i64)));
    }
}

proof fn lemma_constant_names()
    ensures
        "math"@ != "pi"@ && "PI"@ != "pi"@ && "π"@ != "pi"@,
        "math"@ != "tau"@ && "pi"@ != "tau"@ && "PI"@ != "tau"@ && "π"@ != "tau"@,
        "TAU"@ != "tau"@ && "τ"@ != "tau"@,
        "math"@ != "e"@ && "pi"@ != "e"@ && "PI"@ != "e"@ && "π"@ != "e"@,
        "tau"@ != "e"@ && "TAU"@ != "e"@ && "τ"@ != "e"@,
{
    reveal_strlit("math");
    reveal_strlit("pi");
    reveal_strlit("PI");
    reveal_strlit("π");
    reveal_strlit("tau");
    reveal_strlit("TAU");
    reveal_strlit("τ");
    reveal_strlit("e");
    assert("math"@[0] == 'm' && "pi"@[0] == 'p' && "PI"@[0] == 'P' && "π"@[0] == 'π');
    assert("tau"@[0] == 't' && "TAU"@[0] == 'T' && "τ"@[0] == 'τ' && "e"@[0] == 'e');
}

/// Whether the expression that stands for `v` evaluates to `v` again.
pub open spec fn reads_back(v: ValueModel) -> bool {
    eval(value_expr(v)) == Ok::<ValueModel, ErrorModel>(v)
}

/// Every value that evaluation yields, but a module, reads back: the
/// expression that stands for it, as embedded in an error, evaluates to it.
pub proof fn lemma_value_reads_back(e: ExprModel)
    ensures
        eval(e) matches Ok(v) ==> (v is Module || reads_back(v)),
    decreases e, 1int,
{
    match eval(e) {
        Ok(v) => {
            if v is I64 {
                lemma_int_expr_eval(v->I64_0);
            }
            match e {
                ExprModel::Variable(name) => {
                    lemma_constant_names();
                },
                ExprModel::Prefix(op, x) => {
                    lemma_value_reads_back(*x);
                    if !(op == PrefixOp::Minus && *x == smallest_magnitude()) {
                        let vx = eval(*x)->Ok_0;
                        if vx is F64 {
                            assert(eval(smallest_magnitude()) is Err);
                        }
                    }
                },
                ExprModel::Infix(op, l, r) => {
                    lemma_value_reads_back(*l);
                    lemma_value_reads_back(*r);
                    let va = eval(*l)->Ok_0;
                    let vb = eval(*r)->Ok_0;
                    if va is I64 {
                        lemma_int_expr_eval(va->I64_0);
                    }
                    if vb is I64 {
                        lemma_int_expr_eval(vb->I64_0);
                    }
                },
                ExprModel::Call(name, args) => {
                    lemma_args_read_back(args);
                    let vs = args_values(args)->Ok_0;
                    if vs.len() == 1 && !(vs[0] is Module) {
                        if vs[0] is I64 {
                            lemma_int_expr_eval(vs[0]->I64_0);
                        }
                        let x = value_expr(vs[0]);
                        let one = seq![x];
                        assert(one.subrange(0, 0).len() == 0);
                        assert(args_values(one.subrange(0, 0)) == Ok::<Seq<ValueModel>, ErrorModel>(
                            Seq::<ValueModel>::empty(),
                        ));
                        assert(one[0] == x);
                        assert(eval(one[one.len() - 1]) == Ok::<ValueModel, ErrorModel>(vs[0]));
                        assert(args_values(one) == Ok::<Seq<ValueModel>, ErrorModel>(
                            Seq::<ValueModel>::empty().push(vs[0]),
                        ));
                        assert(Seq::<ValueModel>::empty().push(vs[0]) =~= vs);
                    }
                },
                _ => {},
            }
        },
        Err(_) => {},
    }
}

pub proof fn lemma_args_read_back(args: Seq<ExprModel>)
    ensures
        args_values(args) matches Ok(vs) ==> forall|k: int|
            0 <= k < vs.len() ==> (#[trigger] vs[k] is Module || reads_back(vs[k])),
    decreases args, 0int,
{
    if args.len() > 0 {
        let front = args.subrange(0, args.len() - 1);
        lemma_args_read_back(front);
        lemma_value_reads_back(args[args.len() - 1]);
        match args_values(args) {
            Ok(vs) => {
                let before = args_values(front)->Ok_0;
                assert forall|k: int| 0 <= k < vs.len() implies (#[trigger] vs[k] is Module
                    || reads_back(vs[k])) by {
                    if k < before.len() {
                        assert(vs[k] == before[k]);
                    }
                }
            },
            Err(_) => {},
        }
    }
}

pub proof fn lemma_pow_unit(base: int, exp: nat)
    requires
        -1 <= base <= 1,
    ensures
        base == 0 ==> pow(base, exp) == if exp == 0 { 1int } else { 0int },
        base == 1 ==> pow(base, exp) == 1,
        base == -1 ==> pow(base, exp) == if exp % 2 == 0 { 1int } else { -1int },
    decreases exp,
{
    if exp > 0 {
        lemma_pow_unit(base, (exp - 1) as nat);
    }
}

/// For a base of magnitude two or more, each further factor at least
/// doubles the magnitude.
pub proof fn lemma_pow_grows(base: int, k: nat, m: nat)
    requires
        abs(base) >= 2,
        k < m,
    ensures
        abs(pow(base, m)) >= 2 * abs(pow(base, k)),
    decreases m,
{
    let p = pow(base, (m - 1) as nat);
    assert(abs(base * p) == abs(base) * abs(p)) by (nonlinear_arith);
    assert(abs(base) * abs(p) >= 2 * abs(p)) by (nonlinear_arith)
        requires
            abs(base) >= 2,
            abs(p) >= 0,
    ;
    if k < m - 1 {
        lemma_pow_grows(base, k, (m - 1) as nat);
    }
}

/// A failure among the first `k` arguments is the failure of the whole list.
pub proof fn lemma_args_failure(args: Seq<ExprModel>, k: int)
    requires
        0 <= k <= args.len(),
        args_values(args.subrange(0, k)) is Err,
    ensures
        args_values(args) == args_values(args.subrange(0, k)),
    decreases args.len(),
{
    if k == args.len() {
        assert(args.subrange(0, k) =~= args);
    } else {
        let shorter = args.subrange(0, args.len() - 1);
        assert(shorter.subrange(0, k) =~= args.subrange(0, k));
        lemma_args_failure(shorter, k);
    }
}

/// `base` raised to `exp`, when the result fits in 64 bits.
fn checked_power(base: i64, exp: u32) -> (r: Option<i64>)
    ensures
        match r {
            Some(v) => fits_i64(pow(base as int, exp as nat)) && v == pow(base as int, exp as nat),
            None => !fits_i64(pow(base as int, exp as nat)),
        },
{
    if -1 <= base && base <= 1 {
        proof {
            lemma_pow_unit(base as int, exp as nat);
        }
        if base == 0 {
            return if exp == 0 {
                Some(1)
            } else {
                Some(0)
            };
        } else if base == 1 {
            return Some(1);
        } else {
            return if exp % 2 == 0 {
                Some(1)
            } else {
                Some(-1)
            };
        }
    }
    let mut acc: i64 = 1;
    let mut k: u32 = 0;
    while k < exp
        invariant
            k <= exp,
            abs(base as int) >= 2,
            acc as int == pow(base as int, k as nat),
        decreases exp - k,
    {
        match acc.checked_mul(base) {
            Some(x) => {
                acc = x;
                k = k + 1;
            },
            None => {
                proof {
                    let next = pow(base as int, (k + 1) as nat);
                    assert(next == base * acc);
                    if k + 1 < exp {
                        lemma_pow_grows(base as int, (k + 1) as nat, exp as nat);
                    }
                }
                return None;
            },
        }
    }
    Some(acc)
}

fn infix(op: InfixOp, lhs: Expression, rhs: Expression) -> (r: Expression)
    ensures
        r@ == ExprModel::Infix(op, Box::new(lhs@), Box::new(rhs@)),
{
    Expression::Infix(InfixExpression { op, lhs: Box::new(lhs), rhs: Box::new(rhs) })
}

fn overflow_error(op: InfixOp, a: i64, b: i64) -> (r: MathlineError)
    ensures
        r@ == overflow(op, a, b),
{
    MathlineError::InvalidExpression(Box::new(infix(op, integer_expression(a), integer_expression(b))))
}

fn checked_value(op: InfixOp, a: i64, b: i64, r: Option<i64>) -> (res: Result<Value, MathlineError>)
    ensures
        result_model(res) == checked_result(op, a, b, r),
{
    match r {
        Some(x) => Ok(Value::I64(x)),
        None => Err(overflow_error(op, a, b)),
    }
}

fn eval_number(n: &Number) -> (r: Result<Value, MathlineError>)
    ensures
        result_model(r) == number_value(n@),
{
    match &n.fraction {
        Some(_) => Ok(Value::F64(Box::new(Expression::Value(ValueExpression::Number(n.duplicate()))))),
        None => if n.whole <= i64::MAX as u64 {
            Ok(Value::I64(n.whole as i64))
        } else {
            Err(
                MathlineError::InvalidExpression(
                    Box::new(Expression::Value(ValueExpression::Number(n.duplicate()))),
                ),
            )
        },
    }
}

fn constant(name: &str) -> (r: Value)
    ensures
        r@ == ValueModel::F64(ExprModel::Variable(name@)),
{
    Value::F64(Box::new(Expression::Value(ValueExpression::Variable(name.to_owned()))))
}

fn eval_variable(name: &String) -> (r: Result<Value, MathlineError>)
    ensures
        result_model(r) == variable_value(name@),
{
    let v = name.as_str();
    if str_eq(v, "math") {
        Ok(Value::Module(Module::Math))
    } else if str_eq(v, "pi") || str_eq(v, "PI") || str_eq(v, "π") {
        Ok(constant("pi"))
    } else if str_eq(v, "tau") || str_eq(v, "TAU") || str_eq(v, "τ") {
        Ok(constant("tau"))
    } else if str_eq(v, "e") {
        Ok(constant("e"))
    } else {
        Err(MathlineError::UnknownVariable(name.clone()))
    }
}

fn eval_prefix(op: PrefixOp, v: Value) -> (r: Result<Value, MathlineError>)
    ensures
        result_model(r) == prefix_value(op, v@),
{
    let ghost vm = v@;
    let outcome: Result<Value, Value> = match op {
        PrefixOp::Not => match v {
            Value::Bool(e) => Ok(
                Value::Bool(Box::new(Expression::Prefix(PrefixExpression { op, rhs: e }))),
            ),
            _ => return Err(MathlineError::CannotUseAsBool),
        },
        PrefixOp::Plus => match v {
            Value::I64(n) => Ok(Value::I64(n)),
            Value::F64(e) => Ok(Value::F64(e)),
            Value::Module(_) => return Err(MathlineError::CannotUseAsNumber),
            other => Err(other),
        },
        PrefixOp::Minus => match v {
            Value::I64(n) => if n != i64::MIN {
                Ok(Value::I64(-n))
            } else {
                Err(Value::I64(n))
            },
            Value::F64(e) => Ok(
                Value::F64(Box::new(Expression::Prefix(PrefixExpression { op, rhs: e }))),
            ),
            Value::Module(_) => return Err(MathlineError::CannotUseAsNumber),
            other => Err(other),
        },
    };
    match outcome {
        Ok(value) => Ok(value),
        Err(operand) => {
            assert(operand@ == vm);
            let rhs = Box::new(operand.into_expression());
            Err(MathlineError::InvalidExpression(Box::new(Expression::Prefix(PrefixExpression { op, rhs }))))
        },
    }
}

fn integer_infix(op: InfixOp, a: i64, b: i64) -> (r: Option<Result<Value, MathlineError>>)
    ensures
        match integer_result(op, a, b) {
            Some(res) => r is Some && result_model(r->Some_0) == res,
            None => r is None,
        },
{
    match op {
        InfixOp::Add => Some(checked_value(op, a, b, a.checked_add(b))),
        InfixOp::Subtract => Some(checked_value(op, a, b, a.checked_sub(b))),
        InfixOp::Multiply => Some(checked_value(op, a, b, a.checked_mul(b))),
        InfixOp::Divide => match a.checked_rem(b) {
            Some(0) => Some(checked_value(op, a, b, a.checked_div(b))),
            _ => None,
        },
        InfixOp::Modulo => Some(checked_value(op, a, b, a.checked_rem(b))),
        InfixOp::Exponent => if 0 <= b && b <= u32::MAX as i64 {
            match checked_power(a, b as u32) {
                Some(p) => Some(Ok(Value::I64(p))),
                None => Some(Err(overflow_error(op, a, b))),
            }
        } else {
            None
        },
        _ => None,
    }
}

fn float_infix(op: InfixOp, l: Value, r: Value) -> (res: Result<Value, MathlineError>)
    ensures
        result_model(res) == float_result(op, l@, r@),
{
    let x = match l.as_f64() {
        Ok(x) => x,
        Err(e) => return Err(e),
    };
    let y = match r.as_f64() {
        Ok(y) => y,
        Err(e) => return Err(e),
    };
    Ok(Value::F64(Box::new(infix(op, x, y))))
}

fn comparison(op: InfixOp, l: Value, r: Value) -> (res: Result<Value, MathlineError>)
    ensures
        result_model(res) == comparison_result(op, l@, r@),
{
    let x = match l.as_f64() {
        Ok(x) => x,
        Err(e) => return Err(e),
    };
    let y = match r.as_f64() {
        Ok(y) => y,
        Err(e) => return Err(e),
    };
    Ok(Value::Bool(Box::new(infix(op, x, y))))
}

fn logical(op: InfixOp, l: Value, r: Value) -> (res: Result<Value, MathlineError>)
    ensures
        result_model(res) == logical_result(op, l@, r@),
{
    let x = match l.as_bool() {
        Ok(x) => x,
        Err(e) => return Err(e),
    };
    let y = match r.as_bool() {
        Ok(y) => y,
        Err(e) => return Err(e),
    };
    Ok(Value::Bool(Box::new(infix(op, x, y))))
}

fn eval_infix(op: InfixOp, l: Value, r: Value) -> (res: Result<Value, MathlineError>)
    ensures
        result_model(res) == infix_value(op, l@, r@),
{
    match op {
        InfixOp::Add | InfixOp::Subtract | InfixOp::Multiply | InfixOp::Divide | InfixOp::Modulo
        | InfixOp::Exponent => {
            if let Value::I64(a) = l {
                if let Value::I64(b) = r {
                    if let Some(res) = integer_infix(op, a, b) {
                        return res;
                    }
                }
            }
            float_infix(op, l, r)
        },
        InfixOp::And | InfixOp::Or => logical(op, l, r),
        InfixOp::Dot => match l {
            Value::Module(_) => Ok(r),
            _ => Err(MathlineError::CannotUseAsModule),
        },
        _ => comparison(op, l, r),
    }
}

fn eval_function(name: &String, args: Vec<Value>) -> (r: Result<Value, MathlineError>)
    ensures
        result_model(r) == call_value(name@, value_models(args@)),
{
    let n = name.as_str();
    let float_function = str_eq(n, "sin") || str_eq(n, "cos") || str_eq(n, "tan") || str_eq(n, "log")
        || str_eq(n, "ln");
    let print = str_eq(n, "print");
    if !float_function && !print {
        return Err(MathlineError::FunctionIsNotSupported(name.clone()));
    }
    if args.len() != 1 {
        return Err(MathlineError::InvalidFnParameterLength { name: name.clone(), len: args.len() });
    }
    let mut args = args;
    let ghost first = args@[0]@;
    let arg = args.pop().unwrap();
    assert(arg@ == first);
    if print {
        return Ok(arg);
    }
    let x = match arg.as_f64() {
        Ok(x) => x,
        Err(e) => return Err(e),
    };
    let ghost xm = x@;
    let mut parameters: Vec<Expression> = Vec::new();
    parameters.push(x);
    let f = FnExpression { name: name.clone(), parameters };
    proof {
        lemma_call_model(f);
        assert(models(f.parameters@) =~= seq![xm]);
    }
    Ok(Value::F64(Box::new(Expression::Fn(f))))
}

fn eval_args(args: &Vec<Expression>) -> (r: Result<Vec<Value>, MathlineError>)
    ensures
        match args_values(models(args@)) {
            Ok(vs) => r is Ok && value_models(r->Ok_0@) == vs,
            Err(e) => r is Err && r->Err_0@ == e,
        },
    decreases args,
{
    let ghost all = models(args@);
    let mut values: Vec<Value> = Vec::new();
    let mut k: usize = 0;
    assert(all.subrange(0, 0) =~= Seq::<ExprModel>::empty());
    assert(value_models(values@) =~= Seq::<ValueModel>::empty());
    while k < args.len()
        invariant
            k <= args.len(),
            all == models(args@),
            args_values(all.subrange(0, k as int)) == Ok::<Seq<ValueModel>, ErrorModel>(value_models(values@)),
        decreases args.len() - k,
    {
        let ghost prefix = all.subrange(0, k + 1);
        assert(prefix.subrange(0, k as int) =~= all.subrange(0, k as int));
        let v = match eval_expr(&args[k]) {
            Ok(v) => v,
            Err(e) => {
                proof {
                    lemma_args_failure(all, k + 1);
                }
                return Err(e);
            },
        };
        let ghost before = value_models(values@);
        values.push(v);
        assert(value_models(values@) =~= before.push(v@));
        k = k + 1;
    }
    assert(all.subrange(0, args.len() as int) =~= all);
    Ok(values)
}

/// The value of an expression, or the first failure met.
fn eval_expr(e: &Expression) -> (r: Result<Value, MathlineError>)
    ensures
        result_model(r) == eval(e@),
    decreases e,
{
    match e {
        Expression::Value(ValueExpression::Bool(b)) => Ok(
            Value::Bool(Box::new(Expression::Value(ValueExpression::Bool(*b)))),
        ),
        Expression::Value(ValueExpression::Number(n)) => eval_number(n),
        Expression::Value(ValueExpression::Variable(v)) => eval_variable(v),
        Expression::Fn(f) => {
            proof {
                lemma_call_model(*f);
            }
            let args = match eval_args(&f.parameters) {
                Ok(vs) => vs,
                Err(err) => return Err(err),
            };
            eval_function(&f.name, args)
        },
        Expression::Prefix(p) => {
            if let PrefixOp::Minus = p.op {
                if let Expression::Value(ValueExpression::Number(n)) = &*p.rhs {
                    if n.whole == 9223372036854775808u64 && n.fraction.is_none() {
                        return Ok(Value::I64(i64::MIN));
                    }
                }
            }
            let v = match eval_expr(&p.rhs) {
                Ok(v) => v,
                Err(err) => return Err(err),
            };
            eval_prefix(p.op, v)
        },
        Expression::Infix(i) => {
            let l = match eval_expr(&i.lhs) {
                Ok(v) => v,
                Err(err) => return Err(err),
            };
            let r = match eval_expr(&i.rhs) {
                Ok(v) => v,
                Err(err) => return Err(err),
            };
            eval_infix(i.op, l, r)
        },
    }
}

/// Evaluates one expression tree.
pub struct Evaluator {
    expression: Expression,
}

impl Evaluator {
    /// The expression that this evaluator evaluates.
    pub closed spec fn expression(&self) -> ExprModel {
        self.expression@
    }

    /// An evaluator for the expression.
    pub fn new(expression: Expression) -> (r: Evaluator)
        ensures
            r.expression() == expression@,
    {
        Evaluator { expression }
    }

    /// The value of the expression, or the first failure met.
    pub fn eval(self) -> (r: Result<Value, MathlineError>)
        ensures
            result_model(r) == eval(self.expression()),
    {
        eval_expr(&self.expression)
    }
}

} // verus!
