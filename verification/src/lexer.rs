use crate::error::{print_err, spec_print_err};
use crate::float::{float_of_text, parse_float_bits};
use crate::num::{all_digits, dec_val, is_digit, parse_digits_i64};
use vstd::prelude::*;
use vstd::string::*;

verus! {

/// One lexical token of the language.
#[derive(Debug, Clone, PartialEq)]
pub enum Token {
    /// An integer literal.
    Int(i64),
    /// A floating-point literal, as the bit pattern of an IEEE-754 binary64.
    Float(u64),
    /// An identifier.
    Name(String),
    LetKeyword,
    PrintKeyword,
    True,
    False,
    If,
    Then,
    Else,
    Plus,
    Minus,
    Star,
    Slash,
    LeftParen,
    RightParen,
    Equals,
    DoubleEquals,
    EOF,
}

/// The mathematical model of a token: as `Token`, with identifiers as
/// character sequences.
pub enum TokenView {
    Int(i64),
    Float(u64),
    Name(Seq<char>),
    LetKeyword,
    PrintKeyword,
    True,
    False,
    If,
    Then,
    Else,
    Plus,
    Minus,
    Star,
    Slash,
    LeftParen,
    RightParen,
    Equals,
    DoubleEquals,
    EOF,
}

impl View for Token {
    type V = TokenView;

    open spec fn view(&self) -> TokenView {
        match self {
            Token::Int(v) => TokenView::Int(*v),
            Token::Float(b) => TokenView::Float(*b),
            Token::Name(s) => TokenView::Name(s@),
            Token::LetKeyword => TokenView::LetKeyword,
            Token::PrintKeyword => TokenView::PrintKeyword,
            Token::True => TokenView::True,
            Token::False => TokenView::False,
            Token::If => TokenView::If,
            Token::Then => TokenView::Then,
            Token::Else => TokenView::Else,
            Token::Plus => TokenView::Plus,
            Token::Minus => TokenView::Minus,
            Token::Star => TokenView::Star,
            Token::Slash => TokenView::Slash,
            Token::LeftParen => TokenView::LeftParen,
            Token::RightParen => TokenView::RightParen,
            Token::Equals => TokenView::Equals,
            Token::DoubleEquals => TokenView::DoubleEquals,
            Token::EOF => TokenView::EOF,
        }
    }
}

/// ASCII whitespace: space, tab, line feed, form feed, carriage return.
pub open spec fn is_ws(c: char) -> bool {
    c as u32 == 32 || c as u32 == 9 || c as u32 == 10 || c as u32 == 12 || c as u32 == 13
}

/// ASCII alphabetic characters.
pub open spec fn is_alpha(c: char) -> bool {
    (65 <= c as u32 <= 90) || (97 <= c as u32 <= 122)
}

/// Length of the longest prefix of `s` whose characters all satisfy `p`.
pub open spec fn run_of(s: Seq<char>, p: spec_fn(char) -> bool) -> nat
    decreases s.len(),
{
    if s.len() == 0 {
        0
    } else if p(s[0]) {
        1 + run_of(s.drop_first(), p)
    } else {
        0
    }
}

pub open spec fn ws_run(s: Seq<char>) -> nat {
    run_of(s, |c: char| is_ws(c))
}

pub open spec fn digit_run(s: Seq<char>) -> nat {
    run_of(s, |c: char| is_digit(c))
}

pub open spec fn alpha_run(s: Seq<char>) -> nat {
    run_of(s, |c: char| is_alpha(c))
}

/// Length of `s` without its trailing whitespace.
pub open spec fn trim_len(s: Seq<char>) -> nat
    decreases s.len(),
{
    if s.len() == 0 {
        0
    } else if is_ws(s.last()) {
        trim_len(s.drop_last())
    } else {
        s.len()
    }
}

/// The characters of a run satisfy `p`, the run stops at the first that does
/// not, and the run lies within the text.
pub proof fn lemma_run_of_chars(s: Seq<char>, p: spec_fn(char) -> bool)
    ensures
        run_of(s, p) <= s.len(),
        forall|j: int| 0 <= j < run_of(s, p) ==> p(s[j]),
        run_of(s, p) < s.len() ==> !p(s[run_of(s, p) as int]),
    decreases s.len(),
{
    if s.len() > 0 && p(s[0]) {
        lemma_run_of_chars(s.drop_first(), p);
        assert forall|j: int| 0 <= j < run_of(s, p) implies p(s[j]) by {
            if j > 0 {
                assert(p(s.drop_first()[j - 1]));
            }
        }
        if run_of(s, p) < s.len() {
            assert(!p(s.drop_first()[run_of(s, p) - 1]));
        }
    }
}

/// A prefix of `p`-characters stopped by a non-`p` character is the run.
pub proof fn lemma_run_of_exact(s: Seq<char>, p: spec_fn(char) -> bool, k: int)
    requires
        0 <= k <= s.len(),
        forall|j: int| 0 <= j < k ==> p(s[j]),
        k < s.len() ==> !p(s[k]),
    ensures
        run_of(s, p) == k,
    decreases k,
{
    if k == 0 {
    } else {
        lemma_run_of_exact(s.drop_first(), p, k - 1);
        assert(forall|j: int| 0 <= j < s.drop_first().len() ==> s.drop_first()[j] == s[j + 1]);
    }
}

/// What lexing one token from the start of the remaining text yields: the
/// token and the number of characters consumed, or a fault at the start.
pub enum TokenFault {
    UnexpectedChar,
    BadNumber,
}

pub open spec fn spec_eat_token(rem: Seq<char>) -> Result<(TokenView, int), TokenFault>
    recommends
        rem.len() > 0,
{
    let c = rem[0];
    if c == '+' {
        Ok((TokenView::Plus, 1))
    } else if c == '-' {
        Ok((TokenView::Minus, 1))
    } else if c == '*' {
        Ok((TokenView::Star, 1))
    } else if c == '/' {
        Ok((TokenView::Slash, 1))
    } else if c == '(' {
        Ok((TokenView::LeftParen, 1))
    } else if c == ')' {
        Ok((TokenView::RightParen, 1))
    } else if c == '=' {
        if rem.len() > 1 && rem[1] == '=' {
            Ok((TokenView::DoubleEquals, 2))
        } else {
            Ok((TokenView::Equals, 1))
        }
    } else if is_alpha(c) {
        let n = alpha_run(rem) as int;
        let w = rem.take(n);
        let token = if w == "let"@ {
            TokenView::LetKeyword
        } else if w == "print"@ {
            TokenView::PrintKeyword
        } else if w == "true"@ {
            TokenView::True
        } else if w == "false"@ {
            TokenView::False
        } else if w == "if"@ {
            TokenView::If
        } else if w == "then"@ {
            TokenView::Then
        } else if w == "else"@ {
            TokenView::Else
        } else {
            TokenView::Name(w)
        };
        Ok((token, n))
    } else if is_digit(c) {
        let d = digit_run(rem) as int;
        if d == rem.len() || rem[d] != '.' {
            let v = dec_val(rem.take(d));
            if v <= i64::MAX {
                Ok((TokenView::Int(v as i64), d))
            } else {
                Err(TokenFault::BadNumber)
            }
        } else {
            let e = d + 1 + digit_run(rem.skip(d + 1));
            match float_of_text(rem.take(e)) {
                Some(b) => Ok((TokenView::Float(b), e)),
                None => Err(TokenFault::BadNumber),
            }
        }
    } else {
        Err(TokenFault::UnexpectedChar)
    }
}

/// A fault while lexing a whole text, with the position it is reported at.
pub enum LexFault {
    Empty,
    UnexpectedChar(int),
    BadNumber(int),
}

/// The token stream from position `i` on (`i` at a non-whitespace character),
/// without the final end-of-input marker.
pub open spec fn lex_rest(s: Seq<char>, i: int) -> Result<Seq<(TokenView, int)>, LexFault>
    decreases s.len() - i,
{
    if !(0 <= i < s.len()) {
        Ok(Seq::empty())
    } else {
        match spec_eat_token(s.skip(i)) {
            Err(TokenFault::UnexpectedChar) => Err(LexFault::UnexpectedChar(i)),
            Err(TokenFault::BadNumber) => Err(LexFault::BadNumber(i)),
            Ok((t, n)) => {
                let j = if n < 1 { i + 1 } else { i + n };
                let k = j + ws_run(s.skip(j));
                if k >= s.len() || k < j {
                    Ok(seq![(t, i)])
                } else {
                    match lex_rest(s, k) {
                        Ok(ts) => Ok(seq![(t, i)] + ts),
                        Err(e) => Err(e),
                    }
                }
            },
        }
    }
}

/// The token stream of a whole text: its tokens, each with the position of
/// its first character, ended by exactly one end-of-input marker at the
/// trimmed text's length — or the first fault.
pub open spec fn spec_tokenize(s: Seq<char>) -> Result<Seq<(TokenView, int)>, LexFault> {
    let j = ws_run(s) as int;
    if j >= s.len() {
        Err(LexFault::Empty)
    } else {
        match lex_rest(s, j) {
            Ok(ts) => Ok(ts.push((TokenView::EOF, trim_len(s) as int))),
            Err(e) => Err(e),
        }
    }
}

pub open spec fn msg_empty_input() -> Seq<char> {
    "Didn't find any input. Give me something to parse next time!"@
}

pub open spec fn msg_unexpected_char() -> Seq<char> {
    "Sorry, I dont know what to do with this character :("@
}

pub open spec fn msg_bad_number() -> Seq<char> {
    "Sorry, I couldn't construct this number :( Make sure that it's not too big!"@
}

/// The rendered text of a lexing fault.
pub open spec fn lex_fault_text(s: Seq<char>, f: LexFault) -> Seq<char> {
    match f {
        LexFault::Empty => msg_empty_input(),
        LexFault::UnexpectedChar(p) => spec_print_err(s, p, msg_unexpected_char()),
        LexFault::BadNumber(p) => spec_print_err(s, p, msg_bad_number()),
    }
}

fn is_ws_char(c: char) -> (b: bool)
    ensures
        b == is_ws(c),
{
    let u = c as u32;
    u == 32 || u == 9 || u == 10 || u == 12 || u == 13
}

fn is_digit_char(c: char) -> (b: bool)
    ensures
        b == is_digit(c),
{
    let u = c as u32;
    48 <= u && u <= 57
}

fn is_alpha_char(c: char) -> (b: bool)
    ensures
        b == is_alpha(c),
{
    let u = c as u32;
    (65 <= u && u <= 90) || (97 <= u && u <= 122)
}

/// The first character of a non-empty text.
pub fn first(input: &str) -> (c: char)
    requires
        input@.len() > 0,
    ensures
        c == input@[0],
{
    input.get_char(0)
}

/// The text without its first character.
pub fn skip_char(input: &str) -> (r: &str)
    requires
        input@.len() > 0,
    ensures
        r@ == input@.drop_first(),
{
    let n = input.unicode_len();
    let r = input.substring_char(1, n);
    proof {
        assert(r@ =~= input@.drop_first());
    }
    r
}

/// Splits the text at the end of the longest prefix whose characters all
/// satisfy `cond`: the rest first, then the prefix.
pub fn eat_while<F: Fn(char) -> bool>(input: &str, cond: F) -> (r: (&str, &str))
    requires
        forall|c: char| #[trigger] cond.requires((c,)),
    ensures
        ({
            let k = r.1@.len() as int;
            &&& 0 <= k <= input@.len()
            &&& r.0@ == input@.skip(k)
            &&& r.1@ == input@.take(k)
            &&& forall|j: int| 0 <= j < k ==> call_ensures(cond, (input@[j],), true)
            &&& k < input@.len() ==> call_ensures(cond, (input@[k as int],), false)
        }),
{
    let n = input.unicode_len();
    let mut k: usize = 0;
    while k < n
        invariant
            0 <= k <= n == input@.len(),
            forall|c: char| #[trigger] cond.requires((c,)),
            forall|j: int| 0 <= j < k ==> call_ensures(cond, (input@[j],), true),
        ensures
            0 <= k <= n,
            forall|j: int| 0 <= j < k ==> call_ensures(cond, (input@[j],), true),
            k < n ==> call_ensures(cond, (input@[k as int],), false),
        decreases n - k,
    {
        let c = input.get_char(k);
        if !cond(c) {
            break ;
        }
        k = k + 1;
    }
    let rest = input.substring_char(k, n);
    let prefix = input.substring_char(0, k);
    proof {
        assert(rest@ =~= input@.skip(k as int));
        assert(prefix@ =~= input@.take(k as int));
    }
    (rest, prefix)
}

/// The text without its leading ASCII whitespace.
pub fn skip_whitespace(input: &str) -> (r: &str)
    ensures
        r@ == input@.skip(ws_run(input@) as int),
{
    let (rest, taken) = eat_while(
        input,
        (|c: char| -> (b: bool)
            ensures
                b == is_ws(c),
            {
                is_ws_char(c)
            }),
    );
    proof {
        lemma_run_of_exact(input@, |c: char| is_ws(c), taken@.len() as int);
    }
    rest
}

/// Splits the text at the end of its leading run of ASCII digits: the rest
/// first, then the digits.
pub fn eat_digits(input: &str) -> (r: (&str, &str))
    ensures
        r.0@ == input@.skip(digit_run(input@) as int),
        r.1@ == input@.take(digit_run(input@) as int),
{
    let r = eat_while(
        input,
        (|c: char| -> (b: bool)
            ensures
                b == is_digit(c),
            {
                is_digit_char(c)
            }),
    );
    proof {
        lemma_run_of_exact(input@, |c: char| is_digit(c), r.1@.len() as int);
    }
    r
}

/// A recoverable lexing error: a message, and how much input was left when it
/// was found.
pub struct LexError {
    pub msg: String,
    pub rest_len: usize,
}

impl LexError {
    /// An error found with `remaining_input` left to process.
    pub fn new(remaining_input: &str, msg: String) -> (r: LexError)
        ensures
            r.msg == msg,
            r.rest_len == remaining_input@.len(),
    {
        LexError { rest_len: remaining_input.unicode_len(), msg }
    }

    /// Renders the error against the text it was found in.
    pub fn print(&self, original_input: &str) -> (r: String)
        requires
            self.rest_len <= original_input@.len(),
        ensures
            r@ == spec_print_err(
                original_input@,
                original_input@.len() - self.rest_len,
                self.msg@,
            ),
    {
        let pos = original_input.unicode_len() - self.rest_len;
        print_err(original_input, pos, self.msg.as_str())
    }
}

/// The error for a character the lexer has no rule for.
pub fn unexpected_char(remaining_input: &str) -> (r: LexError)
    ensures
        r.msg@ == msg_unexpected_char(),
        r.rest_len == remaining_input@.len(),
{
    LexError::new(
        remaining_input,
        String::from_str("Sorry, I dont know what to do with this character :("),
    )
}

/// The error for a numeric literal that cannot be constructed.
pub fn failed_to_parse_number(remaining_input: &str) -> (r: LexError)
    ensures
        r.msg@ == msg_bad_number(),
        r.rest_len == remaining_input@.len(),
{
    LexError::new(
        remaining_input,
        String::from_str(
            "Sorry, I couldn't construct this number :( Make sure that it's not too big!",
        ),
    )
}

fn eat_number(input: &str) -> (r: Result<(&str, Token), LexError>)
    requires
        input@.len() > 0,
        is_digit(input@[0]),
    ensures
        match r {
            Ok((rest, token)) => {
                &&& spec_eat_token(input@) matches Ok(p)
                &&& p.0 == token@
                &&& 1 <= p.1 <= input@.len()
                &&& rest@ == input@.skip(p.1)
            },
            Err(e) => {
                &&& spec_eat_token(input@) matches Err(TokenFault::BadNumber)
                &&& e.msg@ == msg_bad_number()
                &&& e.rest_len == input@.len()
            },
        },
{
    proof {
        lemma_run_of_chars(input@, |c: char| is_digit(c));
    }
    let (rest, digits) = eat_digits(input);
    let ghost d = digit_run(input@) as int;
    proof {
        assert(d >= 1);
        assert(all_digits(digits@));
    }
    if rest.is_empty() || first(rest) != '.' {
        match parse_digits_i64(digits) {
            Some(v) => Ok((rest, Token::Int(v))),
            None => Err(failed_to_parse_number(input)),
        }
    } else {
        let rest1 = skip_char(rest);
        let (rest2, _) = eat_digits(rest1);
        proof {
            assert(rest1@ =~= input@.skip(d + 1));
            lemma_run_of_chars(rest1@, |c: char| is_digit(c));
        }
        let ghost e = d + 1 + digit_run(input@.skip(d + 1));
        let n = input.unicode_len();
        let len_tok = n - rest2.unicode_len();
        proof {
            assert(rest2@ =~= input@.skip(e));
            assert(len_tok == e);
        }
        let text = input.substring_char(0, len_tok);
        proof {
            assert(text@ =~= input@.take(e));
        }
        match parse_float_bits(text) {
            Some(b) => Ok((rest2, Token::Float(b))),
            None => Err(failed_to_parse_number(input)),
        }
    }
}

fn eat_word(input: &str) -> (r: (&str, Token))
    requires
        input@.len() > 0,
        is_alpha(input@[0]),
    ensures
        ({
            &&& spec_eat_token(input@) matches Ok(p)
            &&& p.0 == r.1@
            &&& 1 <= p.1 <= input@.len()
            &&& r.0@ == input@.skip(p.1)
        }),
{
    proof {
        lemma_run_of_chars(input@, |c: char| is_alpha(c));
    }
    let (rest, word) = eat_while(
        input,
        (|c: char| -> (b: bool)
            ensures
                b == is_alpha(c),
            {
                is_alpha_char(c)
            }),
    );
    proof {
        lemma_run_of_exact(input@, |c: char| is_alpha(c), word@.len() as int);
        assert(alpha_run(input@) >= 1);
    }
    let w = word.to_owned();
    let token = if w == String::from_str("let") {
        Token::LetKeyword
    } else if w == String::from_str("print") {
        Token::PrintKeyword
    } else if w == String::from_str("true") {
        Token::True
    } else if w == String::from_str("false") {
        Token::False
    } else if w == String::from_str("if") {
        Token::If
    } else if w == String::from_str("then") {
        Token::Then
    } else if w == String::from_str("else") {
        Token::Else
    } else {
        Token::Name(w)
    };
    (rest, token)
}

fn eat_token(input: &str) -> (r: Result<(&str, Token), LexError>)
    requires
        input@.len() > 0,
    ensures
        match r {
            Ok((rest, token)) => {
                &&& spec_eat_token(input@) matches Ok(p)
                &&& p.0 == token@
                &&& 1 <= p.1 <= input@.len()
                &&& rest@ == input@.skip(p.1)
            },
            Err(e) => {
                &&& spec_eat_token(input@) matches Err(f)
                &&& e.msg@ == match f {
                    TokenFault::UnexpectedChar => msg_unexpected_char(),
                    TokenFault::BadNumber => msg_bad_number(),
                }
                &&& e.rest_len == input@.len()
            },
        },
{
    let c = first(input);
    if c == '+' {
        Ok((skip_char(input), Token::Plus))
    } else if c == '-' {
        Ok((skip_char(input), Token::Minus))
    } else if c == '*' {
        Ok((skip_char(input), Token::Star))
    } else if c == '/' {
        Ok((skip_char(input), Token::Slash))
    } else if c == '(' {
        Ok((skip_char(input), Token::LeftParen))
    } else if c == ')' {
        Ok((skip_char(input), Token::RightParen))
    } else if c == '=' {
        let n = input.unicode_len();
        if n > 1 && input.get_char(1) == '=' {
            let rest = input.substring_char(2, n);
            proof {
                assert(rest@ =~= input@.skip(2));
            }
            Ok((rest, Token::DoubleEquals))
        } else {
            Ok((skip_char(input), Token::Equals))
        }
    } else if is_alpha_char(c) {
        let (rest, token) = eat_word(input);
        Ok((rest, token))
    } else if is_digit_char(c) {
        eat_number(input)
    } else {
        Err(unexpected_char(input))
    }
}

/// Computes `trim_len` of the text: its length without trailing whitespace.
fn trimmed_len(input: &str) -> (r: usize)
    ensures
        r == trim_len(input@),
{
    let mut j: usize = input.unicode_len();
    proof {
        assert(input@.take(input@.len() as int) =~= input@);
    }
    while j > 0
        invariant
            0 <= j <= input@.len(),
            trim_len(input@) == trim_len(input@.take(j as int)),
        ensures
            0 <= j <= input@.len(),
            j == trim_len(input@),
        decreases j,
    {
        let c = input.get_char(j - 1);
        proof {
            assert(input@.take(j as int).last() == input@[j - 1]);
            assert(input@.take(j as int).drop_last() =~= input@.take(j - 1));
        }
        if !is_ws_char(c) {
            proof {
                assert(trim_len(input@.take(j as int)) == j);
            }
            break ;
        }
        j = j - 1;
    }
    proof {
        if j == 0 {
            assert(input@.take(0int) =~= Seq::<char>::empty());
        }
    }
    j
}

/// Maps an executable token list to its mathematical model.
pub open spec fn toks_view(v: Seq<(Token, usize)>) -> Seq<(TokenView, int)> {
    v.map_values(|p: (Token, usize)| (p.0@, p.1 as int))
}

/// Lexes a whole text into tokens with their positions; a fault is rendered
/// as a single descriptive message.
pub fn tokenize(input: &str) -> (r: Result<Vec<(Token, usize)>, String>)
    ensures
        match spec_tokenize(input@) {
            Ok(ts) => r matches Ok(v) && toks_view(v@) == ts,
            Err(f) => r matches Err(m) && m@ == lex_fault_text(input@, f),
        },
{
    let ghost s = input@;
    let ghost eof_mark: (TokenView, int) = (TokenView::EOF, trim_len(s) as int);
    let n = input.unicode_len();
    let mut result: Vec<(Token, usize)> = Vec::new();
    let mut unprocessed: &str = skip_whitespace(input);
    let ghost mut cur: int = ws_run(s) as int;
    proof {
        lemma_run_of_chars(s, |c: char| is_ws(c));
    }
    if unprocessed.is_empty() {
        return Err(String::from_str(
            "Didn't find any input. Give me something to parse next time!",
        ));
    }
    proof {
        assert(toks_view(result@) =~= Seq::<(TokenView, int)>::empty());
        if lex_rest(s, cur) is Ok {
            assert(toks_view(result@) + lex_rest(s, cur)->Ok_0 =~= lex_rest(s, cur)->Ok_0);
        }
    }
    loop
        invariant_except_break
            0 <= cur < s.len(),
            unprocessed@.len() > 0,
        invariant
            s == input@,
            n == s.len(),
            0 <= cur <= s.len(),
            unprocessed@ == s.skip(cur),
            unprocessed@.len() == s.len() - cur,
            eof_mark == (TokenView::EOF, trim_len(s) as int),
            lex_rest(s, cur) matches Ok(ts) ==> spec_tokenize(s) == Ok::<
                Seq<(TokenView, int)>,
                LexFault,
            >((toks_view(result@) + ts).push(eof_mark)),
            lex_rest(s, cur) matches Err(f) ==> spec_tokenize(s) == Err::<
                Seq<(TokenView, int)>,
                LexFault,
            >(f),
        ensures
            spec_tokenize(s) == Ok::<Seq<(TokenView, int)>, LexFault>(
                toks_view(result@).push(eof_mark),
            ),
        decreases s.len() - cur,
    {
        let pos = n - unprocessed.unicode_len();
        proof {
            assert(pos == cur);
        }
        match eat_token(unprocessed) {
            Err(e) => {
                proof {
                    assert(e.rest_len <= input@.len());
                }
                return Err(e.print(input));
            },
            Ok((rest, token)) => {
                let ghost consumed = spec_eat_token(s.skip(cur))->Ok_0.1;
                let ghost prev = result@;
                result.push((token, pos));
                let next = skip_whitespace(rest);
                proof {
                    assert(rest@ =~= s.skip(cur + consumed));
                    lemma_run_of_chars(rest@, |c: char| is_ws(c));
                    assert(ws_run(rest@) <= rest@.len());
                }
                let ghost new_cur = cur + consumed + ws_run(s.skip(cur + consumed)) as int;
                unprocessed = next;
                proof {
                    assert(ws_run(s.skip(cur + consumed)) == ws_run(rest@));
                    assert(next@ =~= s.skip(new_cur));
                    assert(new_cur <= s.len());
                    assert(lex_rest(s, cur) == (if new_cur >= s.len() {
                        Ok::<Seq<(TokenView, int)>, LexFault>(seq![(token@, cur)])
                    } else {
                        match lex_rest(s, new_cur) {
                            Ok(ts) => Ok::<Seq<(TokenView, int)>, LexFault>(
                                seq![(token@, cur)] + ts,
                            ),
                            Err(f) => Err::<Seq<(TokenView, int)>, LexFault>(f),
                        }
                    }));
                    assert(toks_view(result@) =~= toks_view(prev).push((token@, cur)));
                    if new_cur >= s.len() {
                        assert(toks_view(prev) + seq![(token@, cur)] =~= toks_view(result@));
                    } else if lex_rest(s, new_cur) is Ok {
                        assert(toks_view(prev) + (seq![(token@, cur)] + lex_rest(s, new_cur)->Ok_0)
                            =~= toks_view(result@) + lex_rest(s, new_cur)->Ok_0);
                    }
                    cur = new_cur;
                    if cur >= s.len() {
                        assert(lex_rest(s, cur) == Ok::<Seq<(TokenView, int)>, LexFault>(
                            Seq::empty(),
                        ));
                        assert(toks_view(result@) + Seq::<(TokenView, int)>::empty() =~= toks_view(
                            result@,
                        ));
                        assert(next@ =~= Seq::<char>::empty());
                    }
                }
                if unprocessed.is_empty() {
                    break ;
                }
            },
        }
    }
    let trimmed = trimmed_len(input);
    let ghost prev = result@;
    result.push((Token::EOF, trimmed));
    proof {
        assert(toks_view(result@) =~= toks_view(prev).push(eof_mark));
    }
    Ok(result)
}

} // verus!
