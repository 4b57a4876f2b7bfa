use crate::error::{print_err, spec_print_err};
use crate::expr::{Expr, ExprView, Value};
use crate::lexer::{lex_fault_text, spec_tokenize, tokenize, toks_view, Token, TokenView};
use vstd::prelude::*;
use vstd::string::*;

verus! {

// The spec parse functions below mirror the grammar's recursive descent. A
// result position is checked against its bounds before each further call:
// on a token list that ends in the end-of-input marker those checks never
// fail (every rule consumes at least one token and never the marker), but
// they make the mutual recursion's termination measure evident.

pub open spec fn msg_expected_close() -> Seq<char> {
    "Hey, I expected a closing parenthesis here"@
}

pub open spec fn msg_expected_name() -> Seq<char> {
    "Hey, I expected a name of a variable right here"@
}

pub open spec fn msg_expected_eq() -> Seq<char> {
    "Hey, I expected \"=\" right here"@
}

pub open spec fn msg_expected_then() -> Seq<char> {
    "Hey, I expected a \"then\" keyword right here (conditional expressions look like this: if *condition* then *value* else *value*)"@
}

pub open spec fn msg_expected_else() -> Seq<char> {
    "Hey, I expected an \"else\" keyword right here"@
}

pub open spec fn msg_unexpected_end() -> Seq<char> {
    "Hey, I didn't expect the input to end right here"@
}

pub open spec fn msg_unexpected_thing() -> Seq<char> {
    "Hey, I didn't expect this thing right here"@
}

/// A primary expression: a parenthesized expression, a literal, a unary
/// negation, a declaration, a print, a variable, or a conditional.
pub open spec fn sp_primary(toks: Seq<(TokenView, int)>, i: int) -> Result<
    (ExprView, int),
    (int, Seq<char>),
>
    recommends
        0 <= i < toks.len(),
    decreases toks.len() - i, 0int,
{
    let pos = toks[i].1;
    match toks[i].0 {
        TokenView::LeftParen => if !(0 <= i && i + 1 < toks.len()) {
            Err((pos, msg_unexpected_end()))
        } else {
            match sp_conditional(toks, i + 1) {
                Err(e) => Err(e),
                Ok((e1, j)) => if !(i + 1 < j && j < toks.len()) {
                    Err((pos, msg_unexpected_end()))
                } else if toks[j].0 is RightParen {
                    Ok((e1, j + 1))
                } else {
                    Err((toks[j].1, msg_expected_close()))
                },
            }
        },
        TokenView::Int(v) => Ok((ExprView::Literal(Value::Int(v)), i + 1)),
        TokenView::Float(b) => Ok((ExprView::Literal(Value::Float(b)), i + 1)),
        TokenView::Minus => if !(0 <= i && i + 1 < toks.len()) {
            Err((pos, msg_unexpected_end()))
        } else {
            match sp_primary(toks, i + 1) {
                Err(e) => Err(e),
                Ok((e1, j)) => Ok((ExprView::Negative(Box::new(e1)), j)),
            }
        },
        TokenView::LetKeyword => if !(0 <= i && i + 2 < toks.len()) {
            Err((pos, msg_unexpected_end()))
        } else {
            match toks[i + 1].0 {
                TokenView::Name(nm) => if toks[i + 2].0 is Equals {
                    match sp_conditional(toks, i + 3) {
                        Err(e) => Err(e),
                        Ok((e1, j)) => Ok(
                            (ExprView::VarDeclaration(nm, Box::new(e1)), j),
                        ),
                    }
                } else {
                    Err((toks[i + 2].1, msg_expected_eq()))
                },
                _ => Err((toks[i + 1].1, msg_expected_name())),
            }
        },
        TokenView::PrintKeyword => if !(0 <= i && i + 1 < toks.len()) {
            Err((pos, msg_unexpected_end()))
        } else {
            match sp_conditional(toks, i + 1) {
                Err(e) => Err(e),
                Ok((e1, j)) => Ok((ExprView::Print(Box::new(e1)), j)),
            }
        },
        TokenView::Name(nm) => Ok((ExprView::Var(nm), i + 1)),
        TokenView::True => Ok((ExprView::Literal(Value::Bool(true)), i + 1)),
        TokenView::False => Ok((ExprView::Literal(Value::Bool(false)), i + 1)),
        TokenView::If => if !(0 <= i && i + 1 < toks.len()) {
            Err((pos, msg_unexpected_end()))
        } else {
            match sp_conditional(toks, i + 1) {
                Err(e) => Err(e),
                Ok((c, j)) => if !(i + 1 < j && j + 1 < toks.len()) {
                    Err((pos, msg_unexpected_end()))
                } else if !(toks[j].0 is Then) {
                    Err((toks[j].1, msg_expected_then()))
                } else {
                    match sp_conditional(toks, j + 1) {
                        Err(e) => Err(e),
                        Ok((tb, k)) => if !(j + 1 < k && k + 1 < toks.len()) {
                            Err((pos, msg_unexpected_end()))
                        } else if !(toks[k].0 is Else) {
                            Err((toks[k].1, msg_expected_else()))
                        } else {
                            match sp_conditional(toks, k + 1) {
                                Err(e) => Err(e),
                                Ok((fb, m)) => Ok(
                                    (
                                        ExprView::Conditional(
                                            Box::new(c),
                                            Box::new(tb),
                                            Box::new(fb),
                                        ),
                                        m,
                                    ),
                                ),
                            }
                        },
                    }
                },
            }
        },
        TokenView::EOF => Err((pos, msg_unexpected_end())),
        _ => Err((pos, msg_unexpected_thing())),
    }
}

/// Left-associative folding of `*` and `/` onto `acc`.
pub open spec fn sp_mul_chain(toks: Seq<(TokenView, int)>, i: int, acc: ExprView) -> Result<
    (ExprView, int),
    (int, Seq<char>),
>
    decreases toks.len() - i, 1int,
{
    if !(0 <= i < toks.len()) {
        Ok((acc, i))
    } else {
        let pos = toks[i].1;
        match toks[i].0 {
            TokenView::Star => if !(i + 1 < toks.len()) {
                Err((pos, msg_unexpected_end()))
            } else {
                match sp_primary(toks, i + 1) {
                    Err(e) => Err(e),
                    Ok((e2, j)) => if !(i + 1 < j && j <= toks.len()) {
                        Err((pos, msg_unexpected_end()))
                    } else {
                        sp_mul_chain(
                            toks,
                            j,
                            ExprView::Multiplication(Box::new(acc), Box::new(e2)),
                        )
                    },
                }
            },
            TokenView::Slash => if !(i + 1 < toks.len()) {
                Err((pos, msg_unexpected_end()))
            } else {
                match sp_primary(toks, i + 1) {
                    Err(e) => Err(e),
                    Ok((e2, j)) => if !(i + 1 < j && j <= toks.len()) {
                        Err((pos, msg_unexpected_end()))
                    } else {
                        sp_mul_chain(toks, j, ExprView::Division(Box::new(acc), Box::new(e2)))
                    },
                }
            },
            _ => Ok((acc, i)),
        }
    }
}

/// A multiplicative expression: primaries folded under `*` and `/`.
pub open spec fn sp_multiplicative(toks: Seq<(TokenView, int)>, i: int) -> Result<
    (ExprView, int),
    (int, Seq<char>),
>
    recommends
        0 <= i < toks.len(),
    decreases toks.len() - i, 2int,
{
    if !(0 <= i < toks.len()) {
        Err((0, msg_unexpected_end()))
    } else {
        match sp_primary(toks, i) {
            Err(e) => Err(e),
            Ok((e1, j)) => if !(i < j && j <= toks.len()) {
                Err((toks[i].1, msg_unexpected_end()))
            } else {
                sp_mul_chain(toks, j, e1)
            },
        }
    }
}

/// Left-associative folding of `+` and `-` onto `acc`.
pub open spec fn sp_add_chain(toks: Seq<(TokenView, int)>, i: int, acc: ExprView) -> Result<
    (ExprView, int),
    (int, Seq<char>),
>
    decreases toks.len() - i, 3int,
{
    if !(0 <= i < toks.len()) {
        Ok((acc, i))
    } else {
        let pos = toks[i].1;
        match toks[i].0 {
            TokenView::Plus => if !(i + 1 < toks.len()) {
                Err((pos, msg_unexpected_end()))
            } else {
                match sp_multiplicative(toks, i + 1) {
                    Err(e) => Err(e),
                    Ok((e2, j)) => if !(i + 1 < j && j <= toks.len()) {
                        Err((pos, msg_unexpected_end()))
                    } else {
                        sp_add_chain(toks, j, ExprView::Addition(Box::new(acc), Box::new(e2)))
                    },
                }
            },
            TokenView::Minus => if !(i + 1 < toks.len()) {
                Err((pos, msg_unexpected_end()))
            } else {
                match sp_multiplicative(toks, i + 1) {
                    Err(e) => Err(e),
                    Ok((e2, j)) => if !(i + 1 < j && j <= toks.len()) {
                        Err((pos, msg_unexpected_end()))
                    } else {
                        sp_add_chain(toks, j, ExprView::Subtraction(Box::new(acc), Box::new(e2)))
                    },
                }
            },
            _ => Ok((acc, i)),
        }
    }
}

/// An additive expression: multiplicatives folded under `+` and `-`.
pub open spec fn sp_additive(toks: Seq<(TokenView, int)>, i: int) -> Result<
    (ExprView, int),
    (int, Seq<char>),
>
    recommends
        0 <= i < toks.len(),
    decreases toks.len() - i, 4int,
{
    if !(0 <= i < toks.len()) {
        Err((0, msg_unexpected_end()))
    } else {
        match sp_multiplicative(toks, i) {
            Err(e) => Err(e),
            Ok((e1, j)) => if !(i < j && j <= toks.len()) {
                Err((toks[i].1, msg_unexpected_end()))
            } else {
                sp_add_chain(toks, j, e1)
            },
        }
    }
}

/// Left-associative folding of `==` onto `acc`.
pub open spec fn sp_eq_chain(toks: Seq<(TokenView, int)>, i: int, acc: ExprView) -> Result<
    (ExprView, int),
    (int, Seq<char>),
>
    decreases toks.len() - i, 5int,
{
    if !(0 <= i < toks.len()) {
        Ok((acc, i))
    } else {
        let pos = toks[i].1;
        match toks[i].0 {
            TokenView::DoubleEquals => if !(i + 1 < toks.len()) {
                Err((pos, msg_unexpected_end()))
            } else {
                match sp_additive(toks, i + 1) {
                    Err(e) => Err(e),
                    Ok((e2, j)) => if !(i + 1 < j && j <= toks.len()) {
                        Err((pos, msg_unexpected_end()))
                    } else {
                        sp_eq_chain(toks, j, ExprView::Equality(Box::new(acc), Box::new(e2)))
                    },
                }
            },
            _ => Ok((acc, i)),
        }
    }
}

/// The grammar's top rule: additives folded under `==`.
pub open spec fn sp_conditional(toks: Seq<(TokenView, int)>, i: int) -> Result<
    (ExprView, int),
    (int, Seq<char>),
>
    recommends
        0 <= i < toks.len(),
    decreases toks.len() - i, 6int,
{
    if !(0 <= i < toks.len()) {
        Err((0, msg_unexpected_end()))
    } else {
        match sp_additive(toks, i) {
            Err(e) => Err(e),
            Ok((e1, j)) => if !(i < j && j <= toks.len()) {
                Err((toks[i].1, msg_unexpected_end()))
            } else {
                sp_eq_chain(toks, j, e1)
            },
        }
    }
}

/// Top-level expressions parsed one after another until the end-of-input
/// marker.
pub open spec fn sp_parse_all(toks: Seq<(TokenView, int)>, i: int) -> Result<
    Seq<ExprView>,
    (int, Seq<char>),
>
    decreases toks.len() - i, 7int,
{
    if !(0 <= i < toks.len()) {
        Ok(Seq::empty())
    } else if toks[i].0 is EOF {
        Ok(Seq::empty())
    } else {
        match sp_conditional(toks, i) {
            Err(e) => Err(e),
            Ok((e1, j)) => if !(i < j && j <= toks.len()) {
                Err((toks[i].1, msg_unexpected_end()))
            } else {
                match sp_parse_all(toks, j) {
                    Err(e) => Err(e),
                    Ok(es) => Ok(seq![e1] + es),
                }
            },
        }
    }
}

/// A parse error's position, kept within the text it is rendered against.
pub open spec fn clamp_pos(s: Seq<char>, p: int) -> int {
    if 0 <= p <= s.len() {
        p
    } else {
        s.len() as int
    }
}

/// What parsing a whole text yields: the top-level expressions in order, or
/// the first lexing or parsing fault, rendered as a message.
pub open spec fn spec_parse(s: Seq<char>) -> Result<Seq<ExprView>, Seq<char>> {
    match spec_tokenize(s) {
        Err(f) => Err(lex_fault_text(s, f)),
        Ok(ts) => match sp_parse_all(ts, 0) {
            Ok(es) => Ok(es),
            Err((p, m)) => Err(spec_print_err(s, clamp_pos(s, p), m)),
        },
    }
}

/// A parse error: the offset of the failing token and a fixed message.
struct ParseError {
    pos: usize,
    msg: &'static str,
}

fn parse_primary(toks: &Vec<(Token, usize)>, i: usize) -> (r: Result<(Expr, usize), ParseError>)
    requires
        i < toks@.len(),
    ensures
        match r {
            Ok((e, j)) => {
                &&& sp_primary(toks_view(toks@), i as int) matches Ok(p)
                &&& p.0 == e@
                &&& p.1 == j as int
                &&& i < j <= toks@.len()
            },
            Err(pe) => {
                &&& sp_primary(toks_view(toks@), i as int) matches Err(q)
                &&& q.0 == pe.pos as int
                &&& q.1 == pe.msg@
            },
        },
    decreases toks@.len() - i, 0int,
{
    let n = toks.len();
    let pos = toks[i].1;
    match &toks[i].0 {
        Token::LeftParen => {
            if !(n - i > 1) {
                return Err(ParseError { pos, msg: "Hey, I didn't expect the input to end right here" });
            }
            match parse_conditional(toks, i + 1) {
                Err(e) => Err(e),
                Ok((e1, j)) => {
                    if !(j < n) {
                        return Err(ParseError { pos, msg: "Hey, I didn't expect the input to end right here" });
                    }
                    if matches!(&toks[j].0, Token::RightParen) {
                        Ok((e1, j + 1))
                    } else {
                        Err(ParseError { pos: toks[j].1, msg: "Hey, I expected a closing parenthesis here" })
                    }
                },
            }
        },
        Token::Int(v) => Ok((Expr::Literal(Value::Int(*v)), i + 1)),
        Token::Float(b) => Ok((Expr::Literal(Value::Float(*b)), i + 1)),
        Token::Minus => {
            if !(n - i > 1) {
                return Err(ParseError { pos, msg: "Hey, I didn't expect the input to end right here" });
            }
            match parse_primary(toks, i + 1) {
                Err(e) => Err(e),
                Ok((e1, j)) => Ok((crate::expr::negative(e1), j)),
            }
        },
        Token::LetKeyword => {
            if !(n - i > 2) {
                return Err(ParseError { pos, msg: "Hey, I didn't expect the input to end right here" });
            }
            match &toks[i + 1].0 {
                Token::Name(nm) => {
                    if matches!(&toks[i + 2].0, Token::Equals) {
                        let name = nm.clone();
                        if !(n - i > 3) {
                            proof {
                                assert(toks_view(toks@).len() == toks@.len());
                                assert(toks_view(toks@)[i + 1].0 == toks@[i as int + 1].0@);
                                assert(toks_view(toks@)[i + 2].0 == toks@[i as int + 2].0@);
                                assert(sp_conditional(toks_view(toks@), i + 3) == Err::<
                                    (ExprView, int),
                                    (int, Seq<char>),
                                >((0, msg_unexpected_end())));
                            }
                            return Err(ParseError { pos: 0, msg: "Hey, I didn't expect the input to end right here" });
                        }
                        match parse_conditional(toks, i + 3) {
                            Err(e) => Err(e),
                            Ok((e1, j)) => Ok(
                                (Expr::VarDeclaration(name, Box::new(e1)), j),
                            ),
                        }
                    } else {
                        Err(ParseError { pos: toks[i + 2].1, msg: "Hey, I expected \"=\" right here" })
                    }
                },
                _ => Err(ParseError { pos: toks[i + 1].1, msg: "Hey, I expected a name of a variable right here" }),
            }
        },
        Token::PrintKeyword => {
            if !(n - i > 1) {
                return Err(ParseError { pos, msg: "Hey, I didn't expect the input to end right here" });
            }
            match parse_conditional(toks, i + 1) {
                Err(e) => Err(e),
                Ok((e1, j)) => Ok((Expr::Print(Box::new(e1)), j)),
            }
        },
        Token::Name(nm) => Ok((Expr::Var(nm.clone()), i + 1)),
        Token::True => Ok((crate::expr::boolean(true), i + 1)),
        Token::False => Ok((crate::expr::boolean(false), i + 1)),
        Token::If => {
            if !(n - i > 1) {
                return Err(ParseError { pos, msg: "Hey, I didn't expect the input to end right here" });
            }
            match parse_conditional(toks, i + 1) {
                Err(e) => Err(e),
                Ok((c, j)) => {
                    if !(n - j > 1) {
                        return Err(ParseError { pos, msg: "Hey, I didn't expect the input to end right here" });
                    }
                    if !matches!(&toks[j].0, Token::Then) {
                        return Err(ParseError { pos: toks[j].1, msg: "Hey, I expected a \"then\" keyword right here (conditional expressions look like this: if *condition* then *value* else *value*)" });
                    }
                    match parse_conditional(toks, j + 1) {
                        Err(e) => Err(e),
                        Ok((tb, k)) => {
                            if !(n - k > 1) {
                                return Err(ParseError { pos, msg: "Hey, I didn't expect the input to end right here" });
                            }
                            if !matches!(&toks[k].0, Token::Else) {
                                return Err(ParseError { pos: toks[k].1, msg: "Hey, I expected an \"else\" keyword right here" });
                            }
                            match parse_conditional(toks, k + 1) {
                                Err(e) => Err(e),
                                Ok((fb, m)) => Ok((crate::expr::conditional(c, tb, fb), m)),
                            }
                        },
                    }
                },
            }
        },
        Token::EOF => Err(ParseError { pos, msg: "Hey, I didn't expect the input to end right here" }),
        _ => Err(ParseError { pos, msg: "Hey, I didn't expect this thing right here" }),
    }
}

fn parse_multiplicative(toks: &Vec<(Token, usize)>, i: usize) -> (r: Result<
    (Expr, usize),
    ParseError,
>)
    requires
        i < toks@.len(),
    ensures
        match r {
            Ok((e, j)) => {
                &&& sp_multiplicative(toks_view(toks@), i as int) matches Ok(p)
                &&& p.0 == e@
                &&& p.1 == j as int
                &&& i < j <= toks@.len()
            },
            Err(pe) => {
                &&& sp_multiplicative(toks_view(toks@), i as int) matches Err(q)
                &&& q.0 == pe.pos as int
                &&& q.1 == pe.msg@
            },
        },
    decreases toks@.len() - i, 1int,
{
    let n = toks.len();
    let mut cur: (Expr, usize) = match parse_primary(toks, i) {
        Err(e) => {
            return Err(e);
        },
        Ok(p) => p,
    };
    loop
        invariant
            n == toks@.len(),
            i < cur.1 <= n,
            sp_multiplicative(toks_view(toks@), i as int) == sp_mul_chain(
                toks_view(toks@),
                cur.1 as int,
                cur.0@,
            ),
        ensures
            ({
                let res = sp_multiplicative(toks_view(toks@), i as int);
                &&& res matches Ok(p)
                &&& p.0 == cur.0@
                &&& p.1 == cur.1 as int
                &&& i < cur.1 <= n
            }),
        decreases n - cur.1,
    {
        let j = cur.1;
        if j >= n {
            break ;
        }
        let pos = toks[j].1;
        let is_star = matches!(&toks[j].0, Token::Star);
        let is_slash = matches!(&toks[j].0, Token::Slash);
        if !is_star && !is_slash {
            break ;
        }
        if !(n - j > 1) {
            return Err(ParseError { pos, msg: "Hey, I didn't expect the input to end right here" });
        }
        match parse_primary(toks, j + 1) {
            Err(e) => {
                return Err(e);
            },
            Ok((e2, k)) => {
                if is_star {
                    cur = (crate::expr::multiply(cur.0, e2), k);
                } else {
                    cur = (crate::expr::divide(cur.0, e2), k);
                }
            },
        }
    }
    Ok(cur)
}

fn parse_additive(toks: &Vec<(Token, usize)>, i: usize) -> (r: Result<(Expr, usize), ParseError>)
    requires
        i < toks@.len(),
    ensures
        match r {
            Ok((e, j)) => {
                &&& sp_additive(toks_view(toks@), i as int) matches Ok(p)
                &&& p.0 == e@
                &&& p.1 == j as int
                &&& i < j <= toks@.len()
            },
            Err(pe) => {
                &&& sp_additive(toks_view(toks@), i as int) matches Err(q)
                &&& q.0 == pe.pos as int
                &&& q.1 == pe.msg@
            },
        },
    decreases toks@.len() - i, 2int,
{
    let n = toks.len();
    let mut cur: (Expr, usize) = match parse_multiplicative(toks, i) {
        Err(e) => {
            return Err(e);
        },
        Ok(p) => p,
    };
    loop
        invariant
            n == toks@.len(),
            i < cur.1 <= n,
            sp_additive(toks_view(toks@), i as int) == sp_add_chain(
                toks_view(toks@),
                cur.1 as int,
                cur.0@,
            ),
        ensures
            ({
                let res = sp_additive(toks_view(toks@), i as int);
                &&& res matches Ok(p)
                &&& p.0 == cur.0@
                &&& p.1 == cur.1 as int
                &&& i < cur.1 <= n
            }),
        decreases n - cur.1,
    {
        let j = cur.1;
        if j >= n {
            break ;
        }
        let pos = toks[j].1;
        let is_plus = matches!(&toks[j].0, Token::Plus);
        let is_minus = matches!(&toks[j].0, Token::Minus);
        if !is_plus && !is_minus {
            break ;
        }
        if !(n - j > 1) {
            return Err(ParseError { pos, msg: "Hey, I didn't expect the input to end right here" });
        }
        match parse_multiplicative(toks, j + 1) {
            Err(e) => {
                return Err(e);
            },
            Ok((e2, k)) => {
                if is_plus {
                    cur = (crate::expr::add(cur.0, e2), k);
                } else {
                    cur = (crate::expr::subtract(cur.0, e2), k);
                }
            },
        }
    }
    Ok(cur)
}

fn parse_conditional(toks: &Vec<(Token, usize)>, i: usize) -> (r: Result<
    (Expr, usize),
    ParseError,
>)
    requires
        i < toks@.len(),
    ensures
        match r {
            Ok((e, j)) => {
                &&& sp_conditional(toks_view(toks@), i as int) matches Ok(p)
                &&& p.0 == e@
                &&& p.1 == j as int
                &&& i < j <= toks@.len()
            },
            Err(pe) => {
                &&& sp_conditional(toks_view(toks@), i as int) matches Err(q)
                &&& q.0 == pe.pos as int
                &&& q.1 == pe.msg@
            },
        },
    decreases toks@.len() - i, 3int,
{
    let n = toks.len();
    let mut cur: (Expr, usize) = match parse_additive(toks, i) {
        Err(e) => {
            return Err(e);
        },
        Ok(p) => p,
    };
    loop
        invariant
            n == toks@.len(),
            i < cur.1 <= n,
            sp_conditional(toks_view(toks@), i as int) == sp_eq_chain(
                toks_view(toks@),
                cur.1 as int,
                cur.0@,
            ),
        ensures
            ({
                let res = sp_conditional(toks_view(toks@), i as int);
                &&& res matches Ok(p)
                &&& p.0 == cur.0@
                &&& p.1 == cur.1 as int
                &&& i < cur.1 <= n
            }),
        decreases n - cur.1,
    {
        let j = cur.1;
        if j >= n {
            break ;
        }
        let pos = toks[j].1;
        if !matches!(&toks[j].0, Token::DoubleEquals) {
            break ;
        }
        if !(n - j > 1) {
            return Err(ParseError { pos, msg: "Hey, I didn't expect the input to end right here" });
        }
        match parse_additive(toks, j + 1) {
            Err(e) => {
                return Err(e);
            },
            Ok((e2, k)) => {
                cur = (crate::expr::equality(cur.0, e2), k);
            },
        }
    }
    Ok(cur)
}

/// The expressions a list holds, seen mathematically.
pub open spec fn exprs_view(v: Seq<Expr>) -> Seq<ExprView> {
    v.map_values(|e: Expr| e@)
}

/// Parses a whole text into its ordered top-level expressions; the first
/// lexing or parsing fault is rendered as a single descriptive message.
pub fn parse(input: &str) -> (r: Result<Vec<Expr>, String>)
    ensures
        match spec_parse(input@) {
            Ok(es) => r matches Ok(v) && exprs_view(v@) == es,
            Err(m) => r matches Err(s) && s@ == m,
        },
{
    let toks = match tokenize(input) {
        Err(m) => {
            return Err(m);
        },
        Ok(t) => t,
    };
    let ghost tv = toks_view(toks@);
    let n = toks.len();
    let mut expressions: Vec<Expr> = Vec::new();
    let mut i: usize = 0;
    proof {
        if sp_parse_all(tv, 0) is Ok {
            assert(exprs_view(expressions@) + sp_parse_all(tv, 0)->Ok_0 =~= sp_parse_all(
                tv,
                0,
            )->Ok_0);
        }
    }
    loop
        invariant
            n == toks@.len(),
            tv == toks_view(toks@),
            spec_tokenize(input@) matches Ok(ts) && ts == tv,
            0 <= i <= n,
            sp_parse_all(tv, 0) matches Ok(es) ==> (sp_parse_all(tv, i as int) matches Ok(rest)
                && es == exprs_view(expressions@) + rest),
            sp_parse_all(tv, 0) matches Err(q) ==> sp_parse_all(tv, i as int) == Err::<
                Seq<ExprView>,
                (int, Seq<char>),
            >(q),
        ensures
            sp_parse_all(tv, 0) matches Ok(es) && es == exprs_view(expressions@),
        decreases n - i,
    {
        if i >= n {
            proof {
                assert(sp_parse_all(tv, i as int) == Ok::<Seq<ExprView>, (int, Seq<char>)>(
                    Seq::empty(),
                ));
                if sp_parse_all(tv, 0) is Ok {
                    assert(exprs_view(expressions@) + Seq::<ExprView>::empty() =~= exprs_view(
                        expressions@,
                    ));
                }
            }
            break ;
        }
        if matches!(&toks[i].0, Token::EOF) {
            proof {
                assert(tv[i as int].0 == toks@[i as int].0@);
                assert(tv[i as int].0 is EOF);
                assert(sp_parse_all(tv, i as int) == Ok::<Seq<ExprView>, (int, Seq<char>)>(
                    Seq::empty(),
                ));
                if sp_parse_all(tv, 0) is Ok {
                    assert(exprs_view(expressions@) + Seq::<ExprView>::empty() =~= exprs_view(
                        expressions@,
                    ));
                }
            }
            break ;
        }
        proof {
            assert(tv[i as int].0 == toks@[i as int].0@);
            assert(!(tv[i as int].0 is EOF));
        }
        match parse_conditional(&toks, i) {
            Err(pe) => {
                let nn = input.unicode_len();
                let p = if pe.pos <= nn {
                    pe.pos
                } else {
                    nn
                };
                return Err(print_err(input, p, pe.msg));
            },
            Ok((e1, j)) => {
                let ghost prev = expressions@;
                expressions.push(e1);
                proof {
                    assert(exprs_view(expressions@) =~= exprs_view(prev).push(
                        expressions@.last()@,
                    ));
                    if sp_parse_all(tv, i as int) is Ok && sp_parse_all(tv, j as int) is Ok {
                        assert(exprs_view(prev) + (seq![expressions@.last()@] + sp_parse_all(
                            tv,
                            j as int,
                        )->Ok_0) =~= exprs_view(expressions@) + sp_parse_all(tv, j as int)->Ok_0);
                    }
                }
                i = j;
            },
        }
    }
    Ok(expressions)
}

} // verus!
