use mathlang::error::print_err;
use mathlang::expr::{divide, integer, Env, EvalError, Value};
use mathlang::lexer::{tokenize, Token};
use mathlang::num::{i64_to_dec, parse_digits_i64, u64_to_dec};
use mathlang::parser::parse;

fn eval_all(src: &str, env: &mut Env, out: &mut Vec<String>) -> Result<Value, EvalError> {
    let exprs = parse(src).expect("expected the source to parse");
    assert!(!exprs.is_empty());
    let mut last = None;
    for e in &exprs {
        last = Some(e.eval(env, out)?);
    }
    Ok(last.unwrap())
}

fn eval_str(src: &str) -> Value {
    let mut env = Env::new();
    let mut out: Vec<String> = Vec::new();
    eval_all(src, &mut env, &mut out).expect("expected evaluation to succeed")
}

#[test]
fn integer_literal_evaluates_to_itself() {
    assert_eq!(eval_str("12345"), Value::Int(12345));
    assert_eq!(eval_str("0"), Value::Int(0));
    assert_eq!(eval_str("9223372036854775807"), Value::Int(i64::MAX));
}

#[test]
fn printed_int_relexes_to_same_int() {
    for n in [0i64, 7, 42, -7, -1000000007, i64::MAX, i64::MIN + 1] {
        let text = Value::Int(n).to_text();
        assert_eq!(eval_str(&text), Value::Int(n));
    }
}

#[test]
fn too_large_integer_literal_is_a_lex_error() {
    let err = parse("9223372036854775808").unwrap_err();
    assert!(err.contains("Sorry, I couldn't construct this number :("));
}

#[test]
fn integer_division_truncates_toward_zero() {
    assert_eq!(eval_str("7/2"), Value::Int(3));
    assert_eq!(eval_str("-7/2"), Value::Int(-3));
    assert_eq!(eval_str("7/-2"), Value::Int(-3));
    assert_eq!(eval_str("-7/-2"), Value::Int(3));
    assert_eq!(eval_str("0/5"), Value::Int(0));
}

#[test]
fn integer_division_by_zero_is_an_error() {
    let mut env = Env::new();
    let mut out: Vec<String> = Vec::new();
    assert_eq!(eval_all("1/0", &mut env, &mut out), Err(EvalError::DivideByZero));
}

#[test]
fn smallest_int_divided_by_minus_one_wraps() {
    let mut env = Env::new();
    let mut out: Vec<String> = Vec::new();
    let e = divide(integer(i64::MIN), integer(-1));
    assert_eq!(e.eval(&mut env, &mut out), Ok(Value::Int(i64::MIN)));
}

#[test]
fn float_division_follows_ieee() {
    assert_eq!(eval_str("7.0/2"), Value::Float((7.0f64 / 2.0).to_bits()));
    assert_eq!(eval_str("1.0/4.0"), Value::Float(0.25f64.to_bits()));
    assert_eq!(eval_str("1.0/0.0"), Value::Float(f64::INFINITY.to_bits()));
}

#[test]
fn bool_operands_coerce_to_float() {
    assert_eq!(eval_str("true + 1"), Value::Float(2.0f64.to_bits()));
    assert_eq!(eval_str("false * 3"), Value::Float(0.0f64.to_bits()));
}

#[test]
fn float_arithmetic_matches_hardware() {
    assert_eq!(eval_str("1.5 + 0.25"), Value::Float((1.5f64 + 0.25).to_bits()));
    assert_eq!(eval_str("2.5 - 0.25"), Value::Float((2.5f64 - 0.25).to_bits()));
    assert_eq!(eval_str("1.5 * 2.0"), Value::Float((1.5f64 * 2.0).to_bits()));
    assert_eq!(eval_str("1 + 0.5"), Value::Float(1.5f64.to_bits()));
}

#[test]
fn integer_arithmetic_wraps() {
    assert_eq!(eval_str("2 + 3 * 4"), Value::Int(14));
    assert_eq!(eval_str("(2 + 3) * 4"), Value::Int(20));
    assert_eq!(eval_str("10 - 2 - 3"), Value::Int(5));
    assert_eq!(
        eval_str("9223372036854775807 + 1"),
        Value::Int(i64::MIN),
    );
}

#[test]
fn declaration_binds_and_returns_value() {
    let mut env = Env::new();
    let mut out: Vec<String> = Vec::new();
    assert_eq!(eval_all("let x = 5", &mut env, &mut out), Ok(Value::Int(5)));
    assert_eq!(eval_all("x", &mut env, &mut out), Ok(Value::Int(5)));
}

#[test]
fn rebinding_last_write_wins() {
    let mut env = Env::new();
    let mut out: Vec<String> = Vec::new();
    eval_all("let x = 5", &mut env, &mut out).unwrap();
    eval_all("let x = 10", &mut env, &mut out).unwrap();
    assert_eq!(eval_all("x", &mut env, &mut out), Ok(Value::Int(10)));
}

#[test]
fn unbound_variable_is_an_error() {
    let mut env = Env::new();
    let mut out: Vec<String> = Vec::new();
    assert_eq!(
        eval_all("y", &mut env, &mut out),
        Err(EvalError::UnboundVariable("y".to_string()))
    );
}

#[test]
fn env_insert_and_get() {
    let mut env = Env::new();
    assert_eq!(env.get(&"x".to_string()), None);
    env.insert("x".to_string(), Value::Int(1));
    assert_eq!(env.get(&"x".to_string()), Some(Value::Int(1)));
    env.insert("x".to_string(), Value::Bool(true));
    assert_eq!(env.get(&"x".to_string()), Some(Value::Bool(true)));
}

#[test]
fn equality_is_float_based_with_epsilon() {
    assert_eq!(eval_str("1 == 1"), Value::Bool(true));
    assert_eq!(eval_str("1 == 1.0000001"), Value::Bool(true));
    assert_eq!(eval_str("1 == 1.001"), Value::Bool(false));
    assert_eq!(eval_str("true == 1"), Value::Bool(true));
    assert_eq!(eval_str("0 == 0.0000009"), Value::Bool(true));
    assert_eq!(eval_str("0 == 0.0000011"), Value::Bool(false));
}

#[test]
fn conditional_takes_true_branch_only_on_true() {
    assert_eq!(eval_str("if true then 1 else 2"), Value::Int(1));
    assert_eq!(eval_str("if false then 1 else 2"), Value::Int(2));
    assert_eq!(eval_str("if 0 then 1 else 2"), Value::Int(2));
    assert_eq!(eval_str("if 7 then 1 else 2"), Value::Int(2));
    assert_eq!(eval_str("if 1 == 1 then 5 else 6"), Value::Int(5));
}

#[test]
fn let_initializer_uses_top_grammar_rule() {
    let mut env = Env::new();
    let mut out: Vec<String> = Vec::new();
    assert_eq!(
        eval_all("let x = 1 == 1", &mut env, &mut out),
        Ok(Value::Bool(true))
    );
    assert_eq!(eval_all("x", &mut env, &mut out), Ok(Value::Bool(true)));
}

#[test]
fn negation_on_each_kind() {
    assert_eq!(eval_str("-(true)"), Value::Bool(false));
    assert_eq!(eval_str("-5"), Value::Int(-5));
    assert_eq!(eval_str("-5.0"), Value::Float((-5.0f64).to_bits()));
}

#[test]
fn missing_close_paren_error_points_at_end_of_input() {
    let err = parse("(1 + 2").unwrap_err();
    assert_eq!(
        err,
        "Hey, I expected a closing parenthesis here\n1| (1 + 2\n         ^"
    );
}

#[test]
fn dangling_operator_error_points_at_end_of_input() {
    let err = parse("1 +").unwrap_err();
    assert_eq!(
        err,
        "Hey, I didn't expect the input to end right here\n1| 1 +\n      ^"
    );
}

#[test]
fn empty_input_is_a_lex_error() {
    let msg = "Didn't find any input. Give me something to parse next time!";
    assert_eq!(tokenize("").unwrap_err(), msg);
    assert_eq!(tokenize("   ").unwrap_err(), msg);
}

#[test]
fn unexpected_character_is_a_lex_error() {
    let err = tokenize("1 @ 2").unwrap_err();
    assert!(err.contains("Sorry, I dont know what to do with this character :("));
}

#[test]
fn unexpected_token_is_a_parse_error() {
    let err = parse("1 = 2").unwrap_err();
    assert!(err.contains("Hey, I didn't expect this thing right here"));
}

#[test]
fn let_requires_name_and_equals() {
    assert!(parse("let 1 = 2")
        .unwrap_err()
        .contains("Hey, I expected a name of a variable right here"));
    assert!(parse("let x 2")
        .unwrap_err()
        .contains("Hey, I expected \"=\" right here"));
}

#[test]
fn conditional_requires_then_and_else() {
    assert!(parse("if 1 1 else 2")
        .unwrap_err()
        .contains("Hey, I expected a \"then\" keyword right here"));
    assert!(parse("if 1 then 1 2")
        .unwrap_err()
        .contains("Hey, I expected an \"else\" keyword right here"));
}

#[test]
fn tokens_carry_positions_and_double_equals_is_greedy() {
    let toks = tokenize("1 == 2").unwrap();
    assert_eq!(
        toks,
        vec![
            (Token::Int(1), 0),
            (Token::DoubleEquals, 2),
            (Token::Int(2), 5),
            (Token::EOF, 6),
        ]
    );
}

#[test]
fn keywords_and_names_are_distinguished() {
    let toks = tokenize("let print true false if then else foo").unwrap();
    let kinds: Vec<Token> = toks.into_iter().map(|p| p.0).collect();
    assert_eq!(
        kinds,
        vec![
            Token::LetKeyword,
            Token::PrintKeyword,
            Token::True,
            Token::False,
            Token::If,
            Token::Then,
            Token::Else,
            Token::Name("foo".to_string()),
            Token::EOF,
        ]
    );
}

#[test]
fn float_literals_lex_to_bits() {
    let toks = tokenize("2.5").unwrap();
    assert_eq!(toks[0].0, Token::Float(2.5f64.to_bits()));
}

#[test]
fn print_appends_rendered_value() {
    let exprs = parse("print 3 + 4").expect("parse");
    let mut env = Env::new();
    let mut out: Vec<String> = Vec::new();
    let mut last = Value::Bool(false);
    for e in &exprs {
        last = e.eval(&mut env, &mut out).unwrap();
    }
    assert_eq!(last, Value::Int(7));
    assert_eq!(out, vec!["7".to_string()]);
}

#[test]
fn values_render_like_the_language() {
    assert_eq!(Value::Int(-42).to_text(), "-42");
    assert_eq!(Value::Int(0).to_text(), "0");
    assert_eq!(Value::Bool(true).to_text(), "true");
    assert_eq!(Value::Bool(false).to_text(), "false");
    assert_eq!(Value::Float(2.5f64.to_bits()).to_text(), "2.5");
    assert_eq!(Value::Float(5.0f64.to_bits()).to_text(), "5");
}

#[test]
fn multiple_top_level_expressions_share_the_environment() {
    let exprs = parse("let x = 1 x + 1").expect("parse");
    assert_eq!(exprs.len(), 2);
    let mut env = Env::new();
    let mut out: Vec<String> = Vec::new();
    let mut last = Value::Bool(false);
    for e in &exprs {
        last = e.eval(&mut env, &mut out).unwrap();
    }
    assert_eq!(last, Value::Int(2));
}

#[test]
fn declarations_are_expressions_with_a_value() {
    assert_eq!(eval_str("1 + (let x = 2)"), Value::Int(3));
}

#[test]
fn error_rendering_points_at_the_offending_column() {
    assert_eq!(print_err("a\nbb@c", 4, "msg"), "msg\n2| bb@c\n     ^");
    assert_eq!(print_err("x", 0, "m"), "m\n0| x\n   ^");
}

#[test]
fn decimal_text_helpers_round_trip() {
    assert_eq!(u64_to_dec(0), "0");
    assert_eq!(u64_to_dec(90210), "90210");
    assert_eq!(i64_to_dec(i64::MIN), "-9223372036854775808");
    assert_eq!(parse_digits_i64("9223372036854775807"), Some(i64::MAX));
    assert_eq!(parse_digits_i64("9223372036854775808"), None);
    assert_eq!(parse_digits_i64("007"), Some(7));
}

#[test]
fn lexer_helpers_split_as_documented() {
    assert_eq!(mathlang::lexer::first("xy"), 'x');
    assert_eq!(mathlang::lexer::skip_char("xy"), "y");
    assert_eq!(mathlang::lexer::skip_whitespace("  a"), "a");
    assert_eq!(mathlang::lexer::eat_digits("12a"), ("a", "12"));
    assert_eq!(mathlang::lexer::eat_while("aab", |c| c == 'a'), ("b", "aa"));
}

#[test]
fn lex_error_helpers_carry_position() {
    let e = mathlang::lexer::unexpected_char("@ rest");
    assert_eq!(e.print("12 @ rest"), print_err("12 @ rest", 3, "Sorry, I dont know what to do with this character :("));
    let f = mathlang::lexer::failed_to_parse_number("99999999999999999999");
    assert_eq!(f.rest_len, 20);
}

#[test]
fn epsilon_constant_is_one_millionth() {
    assert_eq!(mathlang::float::EPSILON_BITS, 1.0e-6f64.to_bits());
}
