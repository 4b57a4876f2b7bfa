use crate::float::{
    abs_bits, add_bits, bits_of_i64, div_bits, float_abs, float_add, float_div, float_lt,
    float_mul, float_neg, float_of_int, float_sub, float_text, lt_bits, mul_bits, neg_bits,
    render_float, sub_bits, EPSILON_BITS,
};
use crate::num::{dec_text_int, i64_to_dec};
use vstd::prelude::*;
use vstd::string::*;
use vstd::wrapping::i64_specs;

verus! {

/// A runtime value: an integer, a floating-point number (held as the bit
/// pattern of an IEEE-754 binary64), or a boolean.
#[derive(Debug, Copy, Clone, PartialEq)]
pub enum Value {
    Int(i64),
    Float(u64),
    Bool(bool),
}

/// A value coerced to binary64 bits: floats are themselves, integers are
/// cast, booleans become one or zero.
pub open spec fn coerce_bits(v: Value) -> u64 {
    match v {
        Value::Int(i) => bits_of_i64(i),
        Value::Float(b) => b,
        Value::Bool(b) => bits_of_i64(if b { 1i64 } else { 0i64 }),
    }
}

/// The textual rendering of a value.
pub open spec fn value_text(v: Value) -> Seq<char> {
    match v {
        Value::Int(i) => dec_text_int(i as int),
        Value::Float(b) => float_text(b),
        Value::Bool(b) => if b { "true"@ } else { "false"@ },
    }
}

impl Value {
    /// The value coerced to binary64 bits.
    pub fn as_float_bits(&self) -> (r: u64)
        ensures
            r == coerce_bits(*self),
    {
        match self {
            Value::Float(b) => *b,
            Value::Int(i) => float_of_int(*i),
            Value::Bool(b) => float_of_int(if *b { 1i64 } else { 0i64 }),
        }
    }

    /// Renders the value: integers in decimal, floats in the library's
    /// decimal form, booleans as `true`/`false`.
    pub fn to_text(&self) -> (s: String)
        ensures
            s@ == value_text(*self),
    {
        match self {
            Value::Int(i) => i64_to_dec(*i),
            Value::Float(b) => render_float(*b),
            Value::Bool(b) => if *b {
                String::from_str("true")
            } else {
                String::from_str("false")
            },
        }
    }
}

/// The variable environment: a flat mapping from names to the value last
/// bound to each.
pub struct Env {
    vars: Vec<(String, Value)>,
}

/// The mapping that an association list denotes: later entries win.
pub open spec fn assoc_map(s: Seq<(String, Value)>) -> Map<Seq<char>, Value>
    decreases s.len(),
{
    if s.len() == 0 {
        Map::empty()
    } else {
        assoc_map(s.drop_last()).insert(s.last().0@, s.last().1)
    }
}

impl View for Env {
    type V = Map<Seq<char>, Value>;

    closed spec fn view(&self) -> Map<Seq<char>, Value> {
        assoc_map(self.vars@)
    }
}

proof fn lemma_assoc_found(s: Seq<(String, Value)>, k: Seq<char>, j: int)
    requires
        0 <= j < s.len(),
        s[j].0@ == k,
        forall|m: int| j < m < s.len() ==> s[m].0@ != k,
    ensures
        assoc_map(s).contains_key(k),
        assoc_map(s)[k] == s[j].1,
    decreases s.len(),
{
    if j == s.len() - 1 {
    } else {
        lemma_assoc_found(s.drop_last(), k, j);
    }
}

proof fn lemma_assoc_absent(s: Seq<(String, Value)>, k: Seq<char>)
    requires
        forall|m: int| 0 <= m < s.len() ==> s[m].0@ != k,
    ensures
        !assoc_map(s).contains_key(k),
    decreases s.len(),
{
    if s.len() > 0 {
        lemma_assoc_absent(s.drop_last(), k);
    }
}

impl Env {
    /// An environment with no bindings.
    pub fn new() -> (r: Env)
        ensures
            r@ == Map::<Seq<char>, Value>::empty(),
    {
        let e = Env { vars: Vec::new() };
        proof {
            assert(e@ =~= Map::<Seq<char>, Value>::empty());
        }
        e
    }

    /// Binds `name` to `val`, overwriting any earlier binding.
    pub fn insert(&mut self, name: String, val: Value)
        ensures
            final(self)@ == old(self)@.insert(name@, val),
    {
        let ghost prev = self.vars@;
        self.vars.push((name, val));
        proof {
            assert(self.vars@.drop_last() =~= prev);
        }
    }

    /// The value last bound to `name`, if any.
    pub fn get(&self, name: &String) -> (r: Option<Value>)
        ensures
            match r {
                Some(v) => self@.contains_key(name@) && self@[name@] == v,
                None => !self@.contains_key(name@),
            },
    {
        let n = self.vars.len();
        let mut i: usize = n;
        while i > 0
            invariant
                0 <= i <= n == self.vars@.len(),
                forall|m: int| i <= m < n ==> self.vars@[m].0@ != name@,
            ensures
                0 <= i <= n,
                forall|m: int| i <= m < n ==> self.vars@[m].0@ != name@,
                i > 0 ==> self.vars@[i - 1].0@ == name@,
            decreases i,
        {
            let entry = &self.vars[i - 1];
            if entry.0 == *name {
                break ;
            }
            i = i - 1;
        }
        if i > 0 {
            proof {
                lemma_assoc_found(self.vars@, name@, i - 1);
            }
            Some(self.vars[i - 1].1)
        } else {
            proof {
                lemma_assoc_absent(self.vars@, name@);
            }
            None
        }
    }
}

/// A fault during evaluation.
#[derive(Debug, Clone, PartialEq)]
pub enum EvalError {
    /// A variable was read that no declaration has bound.
    UnboundVariable(String),
    /// Both operands of a division were integers and the divisor was zero.
    DivideByZero,
}

/// The mathematical model of an evaluation fault.
pub enum EvalFault {
    UnboundVariable(Seq<char>),
    DivideByZero,
}

impl View for EvalError {
    type V = EvalFault;

    open spec fn view(&self) -> EvalFault {
        match self {
            EvalError::UnboundVariable(n) => EvalFault::UnboundVariable(n@),
            EvalError::DivideByZero => EvalFault::DivideByZero,
        }
    }
}

/// An expression tree of the language.
#[derive(Debug)]
pub enum Expr {
    Literal(Value),
    VarDeclaration(String, Box<Expr>),
    Var(String),
    Print(Box<Expr>),
    Multiplication(Box<Expr>, Box<Expr>),
    Division(Box<Expr>, Box<Expr>),
    Addition(Box<Expr>, Box<Expr>),
    Subtraction(Box<Expr>, Box<Expr>),
    Negative(Box<Expr>),
    Equality(Box<Expr>, Box<Expr>),
    Conditional(Box<Expr>, Box<Expr>, Box<Expr>),
}

/// The mathematical model of an expression: as `Expr`, with names as
/// character sequences.
pub enum ExprView {
    Literal(Value),
    VarDeclaration(Seq<char>, Box<ExprView>),
    Var(Seq<char>),
    Print(Box<ExprView>),
    Multiplication(Box<ExprView>, Box<ExprView>),
    Division(Box<ExprView>, Box<ExprView>),
    Addition(Box<ExprView>, Box<ExprView>),
    Subtraction(Box<ExprView>, Box<ExprView>),
    Negative(Box<ExprView>),
    Equality(Box<ExprView>, Box<ExprView>),
    Conditional(Box<ExprView>, Box<ExprView>, Box<ExprView>),
}

pub open spec fn expr_view(e: Expr) -> ExprView
    decreases e,
{
    match e {
        Expr::Literal(v) => ExprView::Literal(v),
        Expr::VarDeclaration(n, init) => ExprView::VarDeclaration(
            n@,
            Box::new(expr_view(*init)),
        ),
        Expr::Var(n) => ExprView::Var(n@),
        Expr::Print(sub) => ExprView::Print(Box::new(expr_view(*sub))),
        Expr::Multiplication(l, r) => ExprView::Multiplication(
            Box::new(expr_view(*l)),
            Box::new(expr_view(*r)),
        ),
        Expr::Division(l, r) => ExprView::Division(
            Box::new(expr_view(*l)),
            Box::new(expr_view(*r)),
        ),
        Expr::Addition(l, r) => ExprView::Addition(
            Box::new(expr_view(*l)),
            Box::new(expr_view(*r)),
        ),
        Expr::Subtraction(l, r) => ExprView::Subtraction(
            Box::new(expr_view(*l)),
            Box::new(expr_view(*r)),
        ),
        Expr::Negative(sub) => ExprView::Negative(Box::new(expr_view(*sub))),
        Expr::Equality(l, r) => ExprView::Equality(
            Box::new(expr_view(*l)),
            Box::new(expr_view(*r)),
        ),
        Expr::Conditional(c, t, f) => ExprView::Conditional(
            Box::new(expr_view(*c)),
            Box::new(expr_view(*t)),
            Box::new(expr_view(*f)),
        ),
    }
}

impl View for Expr {
    type V = ExprView;

    open spec fn view(&self) -> ExprView {
        expr_view(*self)
    }
}

/// Truncating integer division (rounding toward zero).
pub open spec fn trunc_div(a: int, b: int) -> int
    recommends
        b != 0,
{
    if a >= 0 && b > 0 {
        a / b
    } else if a < 0 && b < 0 {
        (-a) / (-b)
    } else if a < 0 {
        -((-a) / b)
    } else {
        -(a / (-b))
    }
}

/// 64-bit integer division with truncation toward zero and wraparound on
/// overflow of the one overflowing case.
pub open spec fn wrap_div_i64(a: i64, b: i64) -> i64
    recommends
        b != 0,
{
    if a == i64::MIN && b == -1 {
        i64::MIN
    } else {
        trunc_div(a as int, b as int) as i64
    }
}

/// Multiplication: 64-bit wraparound on two integers, otherwise binary64 on
/// the coerced operands.
pub open spec fn spec_multiplication(l: Value, r: Value) -> Value {
    match (l, r) {
        (Value::Int(a), Value::Int(b)) => Value::Int(i64_specs::wrapping_mul(a, b)),
        _ => Value::Float(mul_bits(coerce_bits(l), coerce_bits(r))),
    }
}

/// Division: truncating on two integers, with a fault on a zero divisor;
/// otherwise binary64 on the coerced operands (never a fault).
pub open spec fn spec_division(l: Value, r: Value) -> Result<Value, EvalFault> {
    match (l, r) {
        (Value::Int(a), Value::Int(b)) => if b == 0 {
            Err(EvalFault::DivideByZero)
        } else {
            Ok(Value::Int(wrap_div_i64(a, b)))
        },
        _ => Ok(Value::Float(div_bits(coerce_bits(l), coerce_bits(r)))),
    }
}

/// Addition: 64-bit wraparound on two integers, otherwise binary64.
pub open spec fn spec_addition(l: Value, r: Value) -> Value {
    match (l, r) {
        (Value::Int(a), Value::Int(b)) => Value::Int(i64_specs::wrapping_add(a, b)),
        _ => Value::Float(add_bits(coerce_bits(l), coerce_bits(r))),
    }
}

/// Subtraction: 64-bit wraparound on two integers, otherwise binary64.
pub open spec fn spec_subtraction(l: Value, r: Value) -> Value {
    match (l, r) {
        (Value::Int(a), Value::Int(b)) => Value::Int(i64_specs::wrapping_sub(a, b)),
        _ => Value::Float(sub_bits(coerce_bits(l), coerce_bits(r))),
    }
}

/// Negation: arithmetic on numbers (with 64-bit wraparound on the integer
/// edge case), logical on booleans.
pub open spec fn spec_negative(v: Value) -> Value {
    match v {
        Value::Int(i) => Value::Int(i64_specs::wrapping_sub(0i64, i)),
        Value::Float(b) => Value::Float(neg_bits(b)),
        Value::Bool(b) => Value::Bool(!b),
    }
}

/// Whether two binary64 values differ by strictly less than 1e-6.
pub open spec fn approx_eq(a: u64, b: u64) -> bool {
    lt_bits(abs_bits(sub_bits(a, b)), EPSILON_BITS)
}

/// Equality: both operands coerced to binary64, equal within 1e-6.
pub open spec fn spec_equality(l: Value, r: Value) -> Value {
    Value::Bool(approx_eq(coerce_bits(l), coerce_bits(r)))
}

/// What evaluating an expression does: the result (or first fault), the
/// environment after it, and the lines printed, in order.
pub open spec fn spec_eval(e: ExprView, env: Map<Seq<char>, Value>, out: Seq<Seq<char>>) -> (
    Result<Value, EvalFault>,
    Map<Seq<char>, Value>,
    Seq<Seq<char>>,
)
    decreases e,
{
    match e {
        ExprView::Literal(v) => (Ok(v), env, out),
        ExprView::VarDeclaration(name, init) => {
            let (r1, env1, out1) = spec_eval(*init, env, out);
            match r1 {
                Ok(v) => (Ok(v), env1.insert(name, v), out1),
                Err(f) => (Err(f), env1, out1),
            }
        },
        ExprView::Var(name) => if env.contains_key(name) {
            (Ok(env[name]), env, out)
        } else {
            (Err(EvalFault::UnboundVariable(name)), env, out)
        },
        ExprView::Print(sub) => {
            let (r1, env1, out1) = spec_eval(*sub, env, out);
            match r1 {
                Ok(v) => (Ok(v), env1, out1.push(value_text(v))),
                Err(f) => (Err(f), env1, out1),
            }
        },
        ExprView::Multiplication(l, r) => {
            let (r1, env1, out1) = spec_eval(*l, env, out);
            match r1 {
                Ok(lv) => {
                    let (r2, env2, out2) = spec_eval(*r, env1, out1);
                    match r2 {
                        Ok(rv) => (Ok(spec_multiplication(lv, rv)), env2, out2),
                        Err(f) => (Err(f), env2, out2),
                    }
                },
                Err(f) => (Err(f), env1, out1),
            }
        },
        ExprView::Division(l, r) => {
            let (r1, env1, out1) = spec_eval(*l, env, out);
            match r1 {
                Ok(lv) => {
                    let (r2, env2, out2) = spec_eval(*r, env1, out1);
                    match r2 {
                        Ok(rv) => (spec_division(lv, rv), env2, out2),
                        Err(f) => (Err(f), env2, out2),
                    }
                },
                Err(f) => (Err(f), env1, out1),
            }
        },
        ExprView::Addition(l, r) => {
            let (r1, env1, out1) = spec_eval(*l, env, out);
            match r1 {
                Ok(lv) => {
                    let (r2, env2, out2) = spec_eval(*r, env1, out1);
                    match r2 {
                        Ok(rv) => (Ok(spec_addition(lv, rv)), env2, out2),
                        Err(f) => (Err(f), env2, out2),
                    }
                },
                Err(f) => (Err(f), env1, out1),
            }
        },
        ExprView::Subtraction(l, r) => {
            let (r1, env1, out1) = spec_eval(*l, env, out);
            match r1 {
                Ok(lv) => {
                    let (r2, env2, out2) = spec_eval(*r, env1, out1);
                    match r2 {
                        Ok(rv) => (Ok(spec_subtraction(lv, rv)), env2, out2),
                        Err(f) => (Err(f), env2, out2),
                    }
                },
                Err(f) => (Err(f), env1, out1),
            }
        },
        ExprView::Negative(sub) => {
            let (r1, env1, out1) = spec_eval(*sub, env, out);
            match r1 {
                Ok(v) => (Ok(spec_negative(v)), env1, out1),
                Err(f) => (Err(f), env1, out1),
            }
        },
        ExprView::Equality(l, r) => {
            let (r1, env1, out1) = spec_eval(*l, env, out);
            match r1 {
                Ok(lv) => {
                    let (r2, env2, out2) = spec_eval(*r, env1, out1);
                    match r2 {
                        Ok(rv) => (Ok(spec_equality(lv, rv)), env2, out2),
                        Err(f) => (Err(f), env2, out2),
                    }
                },
                Err(f) => (Err(f), env1, out1),
            }
        },
        ExprView::Conditional(c, t, f) => {
            let (r1, env1, out1) = spec_eval(*c, env, out);
            match r1 {
                Ok(cv) => if cv == Value::Bool(true) {
                    spec_eval(*t, env1, out1)
                } else {
                    spec_eval(*f, env1, out1)
                },
                Err(fault) => (Err(fault), env1, out1),
            }
        },
    }
}

/// The printed lines that an output buffer holds.
pub open spec fn out_view(v: Seq<String>) -> Seq<Seq<char>> {
    v.map_values(|s: String| s@)
}

/// An evaluation result seen mathematically.
pub open spec fn res_view(r: Result<Value, EvalError>) -> Result<Value, EvalFault> {
    match r {
        Ok(v) => Ok(v),
        Err(e) => Err(e@),
    }
}

/// Multiplies two values under the language's coercion rule.
pub fn eval_multiplication(lv: Value, rv: Value) -> (r: Value)
    ensures
        r == spec_multiplication(lv, rv),
{
    match (lv, rv) {
        (Value::Int(a), Value::Int(b)) => Value::Int(a.wrapping_mul(b)),
        _ => Value::Float(float_mul(lv.as_float_bits(), rv.as_float_bits())),
    }
}

/// Divides two values under the language's coercion rule; a fault only on an
/// all-integer division by zero.
pub fn eval_division(lv: Value, rv: Value) -> (r: Result<Value, EvalError>)
    ensures
        res_view(r) == spec_division(lv, rv),
{
    match (lv, rv) {
        (Value::Int(a), Value::Int(b)) => {
            if b == 0 {
                Err(EvalError::DivideByZero)
            } else {
                proof {
                    let x = a as int;
                    let d = b as int;
                    if !(a == i64::MIN && b == -1) {
                        if a >= 0 && b > 0 {
                            vstd::arithmetic::div_mod::lemma_div_pos_is_pos(x, d);
                            vstd::arithmetic::div_mod::lemma_div_basics_5(x, d);
                        } else if a < 0 && b < 0 {
                            vstd::arithmetic::div_mod::lemma_div_pos_is_pos(-x, -d);
                            vstd::arithmetic::div_mod::lemma_div_basics_5(-x, -d);
                            vstd::arithmetic::div_mod::lemma_div_basics_2(-x);
                            if d <= -2 {
                                vstd::arithmetic::div_mod::lemma_div_is_ordered_by_denominator(
                                    -x,
                                    2,
                                    -d,
                                );
                            }
                        } else if a < 0 {
                            vstd::arithmetic::div_mod::lemma_div_pos_is_pos(-x, d);
                            vstd::arithmetic::div_mod::lemma_div_basics_5(-x, d);
                        } else {
                            vstd::arithmetic::div_mod::lemma_div_pos_is_pos(x, -d);
                            vstd::arithmetic::div_mod::lemma_div_basics_5(x, -d);
                        }
                        assert(i64::MIN <= trunc_div(x, d) <= i64::MAX);
                    } else {
                        vstd::arithmetic::div_mod::lemma_div_basics_2(-x);
                    }
                }
                match a.checked_div(b) {
                    Some(q) => Ok(Value::Int(q)),
                    None => Ok(Value::Int(i64::MIN)),
                }
            }
        },
        _ => Ok(Value::Float(float_div(lv.as_float_bits(), rv.as_float_bits()))),
    }
}

/// Adds two values under the language's coercion rule.
pub fn eval_addition(lv: Value, rv: Value) -> (r: Value)
    ensures
        r == spec_addition(lv, rv),
{
    match (lv, rv) {
        (Value::Int(a), Value::Int(b)) => Value::Int(a.wrapping_add(b)),
        _ => Value::Float(float_add(lv.as_float_bits(), rv.as_float_bits())),
    }
}

/// Subtracts two values under the language's coercion rule.
pub fn eval_subtraction(lv: Value, rv: Value) -> (r: Value)
    ensures
        r == spec_subtraction(lv, rv),
{
    match (lv, rv) {
        (Value::Int(a), Value::Int(b)) => Value::Int(a.wrapping_sub(b)),
        _ => Value::Float(float_sub(lv.as_float_bits(), rv.as_float_bits())),
    }
}

/// Negates a value: arithmetically for numbers, logically for booleans.
pub fn eval_negative(v: Value) -> (r: Value)
    ensures
        r == spec_negative(v),
{
    match v {
        Value::Int(i) => Value::Int((0i64).wrapping_sub(i)),
        Value::Float(b) => Value::Float(float_neg(b)),
        Value::Bool(b) => Value::Bool(!b),
    }
}

/// Compares two values: both coerced to binary64, equal within 1e-6.
pub fn eval_equality(lv: Value, rv: Value) -> (r: Value)
    ensures
        r == spec_equality(lv, rv),
{
    let diff = float_sub(lv.as_float_bits(), rv.as_float_bits());
    Value::Bool(float_lt(float_abs(diff), EPSILON_BITS))
}

impl Expr {
    /// Evaluates the expression against `env`, appending each printed line
    /// to `out`. Faults are reported as recoverable errors: an unbound
    /// variable read and an all-integer division by zero.
    pub fn eval(&self, env: &mut Env, out: &mut Vec<String>) -> (r: Result<Value, EvalError>)
        ensures
            ({
                let (sr, senv, sout) = spec_eval(self@, old(env)@, out_view(old(out)@));
                &&& res_view(r) == sr
                &&& final(env)@ == senv
                &&& out_view(final(out)@) == sout
            }),
        decreases self,
    {
        match self {
            Expr::Literal(v) => Ok(*v),
            Expr::VarDeclaration(name, init) => {
                match init.eval(env, out) {
                    Ok(v) => {
                        env.insert(name.clone(), v);
                        Ok(v)
                    },
                    Err(e) => Err(e),
                }
            },
            Expr::Var(name) => {
                match env.get(name) {
                    Some(v) => Ok(v),
                    None => Err(EvalError::UnboundVariable(name.clone())),
                }
            },
            Expr::Print(sub) => {
                match sub.eval(env, out) {
                    Ok(v) => {
                        let ghost prev = out@;
                        out.push(v.to_text());
                        proof {
                            assert(out_view(out@) =~= out_view(prev).push(value_text(v)));
                        }
                        Ok(v)
                    },
                    Err(e) => Err(e),
                }
            },
            Expr::Multiplication(l, r) => {
                match l.eval(env, out) {
                    Ok(lv) => match r.eval(env, out) {
                        Ok(rv) => Ok(eval_multiplication(lv, rv)),
                        Err(e) => Err(e),
                    },
                    Err(e) => Err(e),
                }
            },
            Expr::Division(l, r) => {
                match l.eval(env, out) {
                    Ok(lv) => match r.eval(env, out) {
                        Ok(rv) => eval_division(lv, rv),
                        Err(e) => Err(e),
                    },
                    Err(e) => Err(e),
                }
            },
            Expr::Addition(l, r) => {
                match l.eval(env, out) {
                    Ok(lv) => match r.eval(env, out) {
                        Ok(rv) => Ok(eval_addition(lv, rv)),
                        Err(e) => Err(e),
                    },
                    Err(e) => Err(e),
                }
            },
            Expr::Subtraction(l, r) => {
                match l.eval(env, out) {
                    Ok(lv) => match r.eval(env, out) {
                        Ok(rv) => Ok(eval_subtraction(lv, rv)),
                        Err(e) => Err(e),
                    },
                    Err(e) => Err(e),
                }
            },
            Expr::Negative(sub) => {
                match sub.eval(env, out) {
                    Ok(v) => Ok(eval_negative(v)),
                    Err(e) => Err(e),
                }
            },
            Expr::Equality(l, r) => {
                match l.eval(env, out) {
                    Ok(lv) => match r.eval(env, out) {
                        Ok(rv) => Ok(eval_equality(lv, rv)),
                        Err(e) => Err(e),
                    },
                    Err(e) => Err(e),
                }
            },
            Expr::Conditional(c, t, f) => {
                match c.eval(env, out) {
                    Ok(cv) => {
                        match cv {
                            Value::Bool(true) => t.eval(env, out),
                            _ => f.eval(env, out),
                        }
                    },
                    Err(e) => Err(e),
                }
            },
        }
    }
}

/// An integer literal expression.
pub fn integer(val: i64) -> (r: Expr)
    ensures
        r@ == ExprView::Literal(Value::Int(val)),
{
    Expr::Literal(Value::Int(val))
}

/// A float literal expression, from the bit pattern of a binary64.
pub fn float(val: u64) -> (r: Expr)
    ensures
        r@ == ExprView::Literal(Value::Float(val)),
{
    Expr::Literal(Value::Float(val))
}

/// A boolean literal expression.
pub fn boolean(val: bool) -> (r: Expr)
    ensures
        r@ == ExprView::Literal(Value::Bool(val)),
{
    Expr::Literal(Value::Bool(val))
}

/// A negation expression.
pub fn negative(val: Expr) -> (r: Expr)
    ensures
        r@ == ExprView::Negative(Box::new(val@)),
{
    Expr::Negative(Box::new(val))
}

/// An addition expression.
pub fn add(left: Expr, right: Expr) -> (r: Expr)
    ensures
        r@ == ExprView::Addition(Box::new(left@), Box::new(right@)),
{
    Expr::Addition(Box::new(left), Box::new(right))
}

/// A subtraction expression.
pub fn subtract(left: Expr, right: Expr) -> (r: Expr)
    ensures
        r@ == ExprView::Subtraction(Box::new(left@), Box::new(right@)),
{
    Expr::Subtraction(Box::new(left), Box::new(right))
}

/// A multiplication expression.
pub fn multiply(left: Expr, right: Expr) -> (r: Expr)
    ensures
        r@ == ExprView::Multiplication(Box::new(left@), Box::new(right@)),
{
    Expr::Multiplication(Box::new(left), Box::new(right))
}

/// A division expression.
pub fn divide(left: Expr, right: Expr) -> (r: Expr)
    ensures
        r@ == ExprView::Division(Box::new(left@), Box::new(right@)),
{
    Expr::Division(Box::new(left), Box::new(right))
}

/// An equality-test expression.
pub fn equality(left: Expr, right: Expr) -> (r: Expr)
    ensures
        r@ == ExprView::Equality(Box::new(left@), Box::new(right@)),
{
    Expr::Equality(Box::new(left), Box::new(right))
}

/// A conditional expression.
pub fn conditional(cond: Expr, val_if_true: Expr, val_if_false: Expr) -> (r: Expr)
    ensures
        r@ == ExprView::Conditional(
            Box::new(cond@),
            Box::new(val_if_true@),
            Box::new(val_if_false@),
        ),
{
    Expr::Conditional(Box::new(cond), Box::new(val_if_true), Box::new(val_if_false))
}

} // verus!
