use crate::expr::{
    approx_eq, coerce_bits, spec_division, spec_eval, spec_negative, trunc_div, value_text,
    EvalFault, ExprView, Value,
};
use crate::float::div_bits;
use crate::lexer::{
    is_alpha, is_ws, lex_rest, spec_eat_token, spec_tokenize, trim_len, ws_run, TokenView,
};
use crate::num::{all_digits, dec_text_nat, dec_val, digit_of, digit_val, is_digit};
use crate::parser::{sp_parse_all, spec_parse};
use vstd::prelude::*;

verus! {

proof fn lemma_dec_text_digits(n: nat)
    ensures
        dec_text_nat(n).len() >= 1,
        all_digits(dec_text_nat(n)),
        is_digit(dec_text_nat(n)[0]),
        !is_ws(dec_text_nat(n).last()),
        !is_alpha(dec_text_nat(n)[0]),
        !is_ws(dec_text_nat(n)[0]),
    decreases n,
{
    if n < 10 {
    } else {
        lemma_dec_text_digits(n / 10);
        let s = dec_text_nat(n);
        let p = dec_text_nat(n / 10);
        assert(s == p.push(digit_of((n % 10) as int)));
        assert(forall|i: int| 0 <= i < p.len() ==> s[i] == p[i]);
        assert(is_digit(s[s.len() - 1]));
    }
}

proof fn lemma_dec_text_val(n: nat)
    ensures
        dec_val(dec_text_nat(n)) == n,
    decreases n,
{
    if n < 10 {
        assert(dec_text_nat(n).drop_last() =~= Seq::<char>::empty());
        assert(dec_val(Seq::<char>::empty()) == 0);
        assert(digit_val(digit_of(n as int)) == n);
    } else {
        lemma_dec_text_val(n / 10);
        let s = dec_text_nat(n);
        let p = dec_text_nat(n / 10);
        assert(s == p.push(digit_of((n % 10) as int)));
        assert(s.drop_last() =~= p);
        assert(digit_val(digit_of((n % 10) as int)) == n % 10);
        vstd::arithmetic::div_mod::lemma_fundamental_div_mod(n as int, 10);
    }
}

/// A run of digits denoting a value in range lexes as that one integer token.
proof fn lemma_eat_token_digits(rem: Seq<char>)
    requires
        rem.len() >= 1,
        all_digits(rem),
        dec_val(rem) <= i64::MAX,
    ensures
        spec_eat_token(rem) == Ok::<(TokenView, int), crate::lexer::TokenFault>(
            (TokenView::Int(dec_val(rem) as i64), rem.len() as int),
        ),
{
    crate::lexer::lemma_run_of_exact(rem, |c: char| is_digit(c), rem.len() as int);
    crate::num::lemma_dec_val_nonneg(rem);
    assert(rem.take(rem.len() as int) =~= rem);
}

/// The decimal text of a non-negative 64-bit integer lexes as that integer
/// token followed by the end-of-input marker.
proof fn lemma_tokenize_dec_nat(n: i64)
    requires
        0 <= n,
    ensures
        spec_tokenize(dec_text_nat(n as nat)) == Ok::<Seq<(TokenView, int)>, crate::lexer::LexFault>(
            seq![
                (TokenView::Int(n), 0int),
                (TokenView::EOF, dec_text_nat(n as nat).len() as int),
            ],
        ),
{
    let s = dec_text_nat(n as nat);
    lemma_dec_text_digits(n as nat);
    lemma_dec_text_val(n as nat);
    assert(ws_run(s) == 0) by {
        crate::lexer::lemma_run_of_exact(s, |c: char| is_ws(c), 0);
    }
    assert(s.skip(0) =~= s);
    lemma_eat_token_digits(s);
    assert(ws_run(s.skip(s.len() as int)) == 0) by {
        crate::lexer::lemma_run_of_exact(s.skip(s.len() as int), |c: char| is_ws(c), 0);
    }
    assert(lex_rest(s, 0) == Ok::<Seq<(TokenView, int)>, crate::lexer::LexFault>(
        seq![(TokenView::Int(n), 0int)],
    ));
    assert(trim_len(s) == s.len());
    assert(seq![(TokenView::Int(n), 0int)].push((TokenView::EOF, s.len() as int)) =~= seq![
        (TokenView::Int(n), 0int),
        (TokenView::EOF, s.len() as int),
    ]);
}

/// Evaluating a literal yields its value and touches nothing.
proof fn lemma_eval_literal(v: Value, env: Map<Seq<char>, Value>, out: Seq<Seq<char>>)
    ensures
        spec_eval(ExprView::Literal(v), env, out) == (Ok::<Value, EvalFault>(v), env, out),
{
}

/// Truncating division of two in-range integers stays in range.
proof fn lemma_trunc_div_range(a: i64, b: i64)
    requires
        b != 0,
        !(a == i64::MIN && b == -1),
    ensures
        i64::MIN <= trunc_div(a as int, b as int) <= i64::MAX,
        crate::expr::wrap_div_i64(a, b) == trunc_div(a as int, b as int) as i64,
    decreases 0int,
{
    let x = a as int;
    let d = b as int;
    if a >= 0 && b > 0 {
        vstd::arithmetic::div_mod::lemma_div_pos_is_pos(x, d);
        vstd::arithmetic::div_mod::lemma_div_basics_5(x, d);
    } else if a < 0 && b < 0 {
        vstd::arithmetic::div_mod::lemma_div_pos_is_pos(-x, -d);
        vstd::arithmetic::div_mod::lemma_div_basics_5(-x, -d);
        vstd::arithmetic::div_mod::lemma_div_basics_2(-x);
        if d <= -2 {
            vstd::arithmetic::div_mod::lemma_div_is_ordered_by_denominator(-x, 2, -d);
        }
    } else if a < 0 {
        vstd::arithmetic::div_mod::lemma_div_pos_is_pos(-x, d);
        vstd::arithmetic::div_mod::lemma_div_basics_5(-x, d);
    } else {
        vstd::arithmetic::div_mod::lemma_div_pos_is_pos(x, -d);
        vstd::arithmetic::div_mod::lemma_div_basics_5(x, -d);
    }
}

proof fn lemma_parse_single_literal(ts: Seq<(TokenView, int)>, v: Value)
    requires
        ts.len() == 2,
        ts[0].0 == (match v {
            Value::Int(n) => TokenView::Int(n),
            Value::Float(b) => TokenView::Float(b),
            Value::Bool(b) => if b {
                TokenView::True
            } else {
                TokenView::False
            },
        }),
        ts[1].0 == TokenView::EOF,
    ensures
        sp_parse_all(ts, 0) == Ok::<Seq<ExprView>, (int, Seq<char>)>(
            seq![ExprView::Literal(v)],
        ),
{
    let lit = ExprView::Literal(v);
    assert(crate::parser::sp_primary(ts, 0) == Ok::<(ExprView, int), (int, Seq<char>)>((lit, 1)));
    assert(crate::parser::sp_mul_chain(ts, 1, lit) == Ok::<(ExprView, int), (int, Seq<char>)>(
        (lit, 1),
    ));
    assert(crate::parser::sp_multiplicative(ts, 0) == Ok::<(ExprView, int), (int, Seq<char>)>(
        (lit, 1),
    ));
    assert(crate::parser::sp_add_chain(ts, 1, lit) == Ok::<(ExprView, int), (int, Seq<char>)>(
        (lit, 1),
    ));
    assert(crate::parser::sp_additive(ts, 0) == Ok::<(ExprView, int), (int, Seq<char>)>((lit, 1)));
    assert(crate::parser::sp_eq_chain(ts, 1, lit) == Ok::<(ExprView, int), (int, Seq<char>)>(
        (lit, 1),
    ));
    assert(crate::parser::sp_conditional(ts, 0) == Ok::<(ExprView, int), (int, Seq<char>)>(
        (lit, 1),
    ));
    assert(sp_parse_all(ts, 1) == Ok::<Seq<ExprView>, (int, Seq<char>)>(Seq::empty()));
    assert(seq![lit] + Seq::<ExprView>::empty() =~= seq![lit]);
}

/// Parsing the decimal text of any in-range non-negative integer yields that
/// one literal, and evaluating it yields that integer, whatever the
/// environment; the environment and output are untouched.
pub proof fn lemma_int_literal_round_trip(
    n: i64,
    env: Map<Seq<char>, Value>,
    out: Seq<Seq<char>>,
)
    requires
        0 <= n,
    ensures
        ({
            let es = spec_parse(dec_text_nat(n as nat));
            &&& es matches Ok(list)
            &&& list == seq![ExprView::Literal(Value::Int(n))]
            &&& spec_eval(ExprView::Literal(Value::Int(n)), env, out) == (
                Ok::<Value, EvalFault>(Value::Int(n)),
                env,
                out,
            )
        }),
{
    let s = dec_text_nat(n as nat);
    lemma_tokenize_dec_nat(n);
    let ts = seq![(TokenView::Int(n), 0int), (TokenView::EOF, s.len() as int)];
    lemma_parse_single_literal(ts, Value::Int(n));
}

/// Printing any 64-bit integer but the smallest and parsing the text back
/// yields a single expression that evaluates to the same integer (the
/// smallest one's magnitude does not lex as an in-range literal).
#[verifier::rlimit(50)]
pub proof fn lemma_int_print_parse_round_trip(
    n: i64,
    env: Map<Seq<char>, Value>,
    out: Seq<Seq<char>>,
)
    requires
        n != i64::MIN,
    ensures
        ({
            let es = spec_parse(value_text(Value::Int(n)));
            &&& es matches Ok(list)
            &&& list.len() == 1
            &&& spec_eval(list[0], env, out) == (
                Ok::<Value, EvalFault>(Value::Int(n)),
                env,
                out,
            )
        }),
{
    if n >= 0 {
        lemma_int_literal_round_trip(n, env, out);
    } else {
        let s = value_text(Value::Int(n));
        let m = (-n) as i64;
        let d = dec_text_nat(m as nat);
        assert(s == seq!['-'] + d);
        lemma_dec_text_digits(m as nat);
        lemma_dec_text_val(m as nat);
        assert(ws_run(s) == 0) by {
            crate::lexer::lemma_run_of_exact(s, |c: char| is_ws(c), 0);
        }
        assert(s.skip(0) =~= s);
        assert(s[0] == '-');
        assert(spec_eat_token(s) == Ok::<(TokenView, int), crate::lexer::TokenFault>(
            (TokenView::Minus, 1int),
        ));
        assert(s.skip(1) =~= d);
        assert(ws_run(d) == 0) by {
            crate::lexer::lemma_run_of_exact(d, |c: char| is_ws(c), 0);
        }
        lemma_eat_token_digits(d);
        assert(ws_run(s.skip(s.len() as int)) == 0) by {
            crate::lexer::lemma_run_of_exact(s.skip(s.len() as int), |c: char| is_ws(c), 0);
        }
        assert(lex_rest(s, 1) == Ok::<Seq<(TokenView, int)>, crate::lexer::LexFault>(
            seq![(TokenView::Int(m), 1int)],
        ));
        assert(lex_rest(s, 0) == Ok::<Seq<(TokenView, int)>, crate::lexer::LexFault>(
            seq![(TokenView::Minus, 0int), (TokenView::Int(m), 1int)],
        )) by {
            assert(seq![(TokenView::Minus, 0int)] + seq![(TokenView::Int(m), 1int)] =~= seq![
                (TokenView::Minus, 0int),
                (TokenView::Int(m), 1int),
            ]);
        }
        assert(trim_len(s) == s.len());
        let ts = seq![
            (TokenView::Minus, 0int),
            (TokenView::Int(m), 1int),
            (TokenView::EOF, s.len() as int),
        ];
        assert(spec_tokenize(s) == Ok::<Seq<(TokenView, int)>, crate::lexer::LexFault>(ts)) by {
            assert(seq![(TokenView::Minus, 0int), (TokenView::Int(m), 1int)].push(
                (TokenView::EOF, s.len() as int),
            ) =~= ts);
        }
        let lit = ExprView::Literal(Value::Int(m));
        let neg = ExprView::Negative(Box::new(lit));
        assert(crate::parser::sp_primary(ts, 1) == Ok::<(ExprView, int), (int, Seq<char>)>(
            (lit, 2),
        ));
        assert(crate::parser::sp_primary(ts, 0) == Ok::<(ExprView, int), (int, Seq<char>)>(
            (neg, 2),
        ));
        assert(crate::parser::sp_mul_chain(ts, 2, neg) == Ok::<(ExprView, int), (int, Seq<char>)>(
            (neg, 2),
        ));
        assert(crate::parser::sp_multiplicative(ts, 0) == Ok::<
            (ExprView, int),
            (int, Seq<char>),
        >((neg, 2)));
        assert(crate::parser::sp_add_chain(ts, 2, neg) == Ok::<(ExprView, int), (int, Seq<char>)>(
            (neg, 2),
        ));
        assert(crate::parser::sp_additive(ts, 0) == Ok::<(ExprView, int), (int, Seq<char>)>(
            (neg, 2),
        ));
        assert(crate::parser::sp_eq_chain(ts, 2, neg) == Ok::<(ExprView, int), (int, Seq<char>)>(
            (neg, 2),
        ));
        assert(crate::parser::sp_conditional(ts, 0) == Ok::<(ExprView, int), (int, Seq<char>)>(
            (neg, 2),
        ));
        assert(sp_parse_all(ts, 2) == Ok::<Seq<ExprView>, (int, Seq<char>)>(Seq::empty()));
        assert(sp_parse_all(ts, 0) == Ok::<Seq<ExprView>, (int, Seq<char>)>(seq![neg])) by {
            assert(seq![neg] + Seq::<ExprView>::empty() =~= seq![neg]);
        }
        lemma_eval_literal(Value::Int(m), env, out);
        assert(spec_negative(Value::Int(m)) == Value::Int(n));
        assert(spec_eval(neg, env, out) == (
            Ok::<Value, EvalFault>(Value::Int(n)),
            env,
            out,
        ));
    }
}

/// Dividing two integer values with a non-zero divisor truncates toward zero
/// (the one overflowing pair wraps and is left out here).
pub proof fn lemma_division_of_ints(
    a: i64,
    b: i64,
    env: Map<Seq<char>, Value>,
    out: Seq<Seq<char>>,
)
    requires
        b != 0,
        !(a == i64::MIN && b == -1),
    ensures
        spec_eval(
            ExprView::Division(
                Box::new(ExprView::Literal(Value::Int(a))),
                Box::new(ExprView::Literal(Value::Int(b))),
            ),
            env,
            out,
        ) == (
            Ok::<Value, EvalFault>(Value::Int(trunc_div(a as int, b as int) as i64)),
            env,
            out,
        ),
{
    lemma_eval_literal(Value::Int(a), env, out);
    lemma_eval_literal(Value::Int(b), env, out);
    lemma_trunc_div_range(a, b);
}

/// Dividing two integer values by zero is the division-by-zero fault.
pub proof fn lemma_division_by_zero(a: i64, env: Map<Seq<char>, Value>, out: Seq<Seq<char>>)
    ensures
        spec_eval(
            ExprView::Division(
                Box::new(ExprView::Literal(Value::Int(a))),
                Box::new(ExprView::Literal(Value::Int(0))),
            ),
            env,
            out,
        ) == (Err::<Value, EvalFault>(EvalFault::DivideByZero), env, out),
{
    lemma_eval_literal(Value::Int(a), env, out);
    lemma_eval_literal(Value::Int(0), env, out);
}

/// When either operand is a float or a boolean, division is the binary64
/// operation on both operands coerced to binary64 — and never a fault.
pub proof fn lemma_division_coerces(
    l: Value,
    r: Value,
    env: Map<Seq<char>, Value>,
    out: Seq<Seq<char>>,
)
    requires
        !(l is Int && r is Int),
    ensures
        spec_eval(
            ExprView::Division(
                Box::new(ExprView::Literal(l)),
                Box::new(ExprView::Literal(r)),
            ),
            env,
            out,
        ) == (
            Ok::<Value, EvalFault>(Value::Float(div_bits(coerce_bits(l), coerce_bits(r)))),
            env,
            out,
        ),
{
    lemma_eval_literal(l, env, out);
    lemma_eval_literal(r, env, out);
    assert(spec_division(l, r) == Ok::<Value, EvalFault>(
        Value::Float(div_bits(coerce_bits(l), coerce_bits(r))),
    ));
}

/// A declaration binds its name to the initializer's value and itself
/// returns that value; reading the name afterwards yields it.
pub proof fn lemma_declaration_then_read(
    name: Seq<char>,
    v: Value,
    env: Map<Seq<char>, Value>,
    out: Seq<Seq<char>>,
)
    ensures
        spec_eval(
            ExprView::VarDeclaration(name, Box::new(ExprView::Literal(v))),
            env,
            out,
        ) == (Ok::<Value, EvalFault>(v), env.insert(name, v), out),
        spec_eval(ExprView::Var(name), env.insert(name, v), out) == (
            Ok::<Value, EvalFault>(v),
            env.insert(name, v),
            out,
        ),
{
    lemma_eval_literal(v, env, out);
}

/// Re-declaring a name overwrites the earlier binding: after binding `v1`
/// then `v2`, reading the name yields `v2` (last write wins, no shadowing).
pub proof fn lemma_rebinding_last_write_wins(
    name: Seq<char>,
    v1: Value,
    v2: Value,
    env: Map<Seq<char>, Value>,
    out: Seq<Seq<char>>,
)
    ensures
        ({
            let env1 = spec_eval(
                ExprView::VarDeclaration(name, Box::new(ExprView::Literal(v1))),
                env,
                out,
            ).1;
            let env2 = spec_eval(
                ExprView::VarDeclaration(name, Box::new(ExprView::Literal(v2))),
                env1,
                out,
            ).1;
            spec_eval(ExprView::Var(name), env2, out) == (
                Ok::<Value, EvalFault>(v2),
                env2,
                out,
            )
        }),
{
    lemma_eval_literal(v1, env, out);
    lemma_declaration_then_read(name, v1, env, out);
    let env1 = env.insert(name, v1);
    lemma_eval_literal(v2, env1, out);
    lemma_declaration_then_read(name, v2, env1, out);
}

/// A conditional takes its true branch exactly on the value `true`; every
/// other condition value — `false`, or any integer or float — takes the
/// false branch.
pub proof fn lemma_conditional_on_value(
    cv: Value,
    t: ExprView,
    f: ExprView,
    env: Map<Seq<char>, Value>,
    out: Seq<Seq<char>>,
)
    ensures
        spec_eval(
            ExprView::Conditional(
                Box::new(ExprView::Literal(cv)),
                Box::new(t),
                Box::new(f),
            ),
            env,
            out,
        ) == (if cv == Value::Bool(true) {
            spec_eval(t, env, out)
        } else {
            spec_eval(f, env, out)
        }),
{
    lemma_eval_literal(cv, env, out);
}

/// Any input that holds only whitespace — the empty input among them —
/// lexes to the empty-input fault.
pub proof fn lemma_blank_input_is_empty_fault(s: Seq<char>)
    requires
        forall|i: int| 0 <= i < s.len() ==> is_ws(s[i]),
    ensures
        spec_tokenize(s) == Err::<Seq<(TokenView, int)>, crate::lexer::LexFault>(
            crate::lexer::LexFault::Empty,
        ),
{
    crate::lexer::lemma_run_of_exact(s, |c: char| is_ws(c), s.len() as int);
}

/// The equality test coerces both operands to binary64, whatever their
/// kinds, and is true exactly when the coerced values differ by strictly
/// less than 1e-6.
pub proof fn lemma_equality_coerces(
    l: Value,
    r: Value,
    env: Map<Seq<char>, Value>,
    out: Seq<Seq<char>>,
)
    ensures
        spec_eval(
            ExprView::Equality(
                Box::new(ExprView::Literal(l)),
                Box::new(ExprView::Literal(r)),
            ),
            env,
            out,
        ) == (
            Ok::<Value, EvalFault>(Value::Bool(approx_eq(coerce_bits(l), coerce_bits(r)))),
            env,
            out,
        ),
{
    lemma_eval_literal(l, env, out);
    lemma_eval_literal(r, env, out);
}

/// Negation is arithmetic on integers and floats and logical on booleans.
pub proof fn lemma_negation_of_value(v: Value, env: Map<Seq<char>, Value>, out: Seq<Seq<char>>)
    ensures
        spec_eval(ExprView::Negative(Box::new(ExprView::Literal(v))), env, out) == (
            Ok::<Value, EvalFault>(spec_negative(v)),
            env,
            out,
        ),
        v matches Value::Bool(b) ==> spec_negative(v) == Value::Bool(!b),
        (v matches Value::Int(i) && i != i64::MIN) ==> (v matches Value::Int(i) && spec_negative(
            v,
        ) == Value::Int((-i) as i64)),
        v matches Value::Float(b) ==> spec_negative(v) == Value::Float(
            crate::float::neg_bits(b),
        ),
{
    lemma_eval_literal(v, env, out);
}

} // verus!
