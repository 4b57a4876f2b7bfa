use vstd::prelude::*;
use vstd::string::*;

verus! {

/// True for the ASCII digits `0` through `9`.
pub open spec fn is_digit(c: char) -> bool {
    48 <= c as u32 <= 57
}

/// Numeric value of an ASCII digit.
pub open spec fn digit_val(c: char) -> int {
    c as u32 - 48
}

/// True when every character of `s` is an ASCII digit.
pub open spec fn all_digits(s: Seq<char>) -> bool {
    forall|i: int| 0 <= i < s.len() ==> is_digit(s[i])
}

/// Numeric value of a run of ASCII digits, most significant first.
pub open spec fn dec_val(s: Seq<char>) -> int
    decreases s.len(),
{
    if s.len() == 0 {
        0
    } else {
        dec_val(s.drop_last()) * 10 + digit_val(s.last())
    }
}

/// The ASCII digit for a value below ten.
pub open spec fn digit_of(d: int) -> char {
    if d == 0 { '0' }
    else if d == 1 { '1' }
    else if d == 2 { '2' }
    else if d == 3 { '3' }
    else if d == 4 { '4' }
    else if d == 5 { '5' }
    else if d == 6 { '6' }
    else if d == 7 { '7' }
    else if d == 8 { '8' }
    else { '9' }
}

/// Decimal text of a non-negative integer, without sign or leading zeros.
pub open spec fn dec_text_nat(n: nat) -> Seq<char>
    decreases n,
{
    if n < 10 {
        seq![digit_of(n as int)]
    } else {
        dec_text_nat(n / 10).push(digit_of((n % 10) as int))
    }
}

/// Decimal text of a signed integer: a `-` sign ahead of the magnitude when negative.
pub open spec fn dec_text_int(n: int) -> Seq<char> {
    if n >= 0 {
        dec_text_nat(n as nat)
    } else {
        seq!['-'] + dec_text_nat((-n) as nat)
    }
}

fn digit_str(d: u64) -> (r: &'static str)
    requires
        d < 10,
    ensures
        r@ =~= seq![digit_of(d as int)],
{
    proof {
        reveal_strlit("0");
        reveal_strlit("1");
        reveal_strlit("2");
        reveal_strlit("3");
        reveal_strlit("4");
        reveal_strlit("5");
        reveal_strlit("6");
        reveal_strlit("7");
        reveal_strlit("8");
        reveal_strlit("9");
    }
    match d {
        0 => "0",
        1 => "1",
        2 => "2",
        3 => "3",
        4 => "4",
        5 => "5",
        6 => "6",
        7 => "7",
        8 => "8",
        _ => "9",
    }
}

/// Decimal rendering of an unsigned 64-bit integer.
pub fn u64_to_dec(n: u64) -> (s: String)
    ensures
        s@ == dec_text_nat(n as nat),
    decreases n,
{
    if n < 10 {
        String::from_str(digit_str(n))
    } else {
        let mut s = u64_to_dec(n / 10);
        s.append(digit_str(n % 10));
        proof {
            assert(s@ =~= dec_text_nat(n as nat));
        }
        s
    }
}

/// Decimal rendering of a signed 64-bit integer.
pub fn i64_to_dec(n: i64) -> (s: String)
    ensures
        s@ == dec_text_int(n as int),
{
    if n >= 0 {
        u64_to_dec(n as u64)
    } else {
        let mag: u64 = if n == i64::MIN {
            0x8000_0000_0000_0000u64
        } else {
            (-n) as u64
        };
        proof {
            reveal_strlit("-");
        }
        let mut s = String::from_str("-");
        s.append(u64_to_dec(mag).as_str());
        proof {
            assert(s@ =~= dec_text_int(n as int));
        }
        s
    }
}

/// Every prefix of a digit run has a value no larger than the whole run's.
proof fn lemma_dec_val_prefix_le(s: Seq<char>, i: int)
    requires
        0 <= i <= s.len(),
        all_digits(s),
    ensures
        dec_val(s.take(i)) <= dec_val(s),
    decreases s.len() - i,
{
    if i < s.len() {
        lemma_dec_val_prefix_le(s, i + 1);
        assert(s.take(i + 1).drop_last() =~= s.take(i));
        assert(s.take(i + 1).last() == s[i]);
        assert(all_digits(s.take(i)));
        lemma_dec_val_nonneg(s.take(i));
        assert(dec_val(s.take(i + 1)) == dec_val(s.take(i)) * 10 + digit_val(s[i]));
    } else {
        assert(s.take(i) =~= s);
    }
}

/// A digit run's value is non-negative.
pub proof fn lemma_dec_val_nonneg(s: Seq<char>)
    requires
        all_digits(s),
    ensures
        dec_val(s) >= 0,
    decreases s.len(),
{
    if s.len() > 0 {
        assert(all_digits(s.drop_last()));
        lemma_dec_val_nonneg(s.drop_last());
    }
}

/// Reads a non-empty run of ASCII digits as a signed 64-bit integer;
/// `None` exactly when the value is too large.
pub fn parse_digits_i64(digits: &str) -> (r: Option<i64>)
    requires
        digits@.len() > 0,
        all_digits(digits@),
    ensures
        match r {
            Some(v) => v == dec_val(digits@) && dec_val(digits@) <= i64::MAX,
            None => dec_val(digits@) > i64::MAX,
        },
{
    let n = digits.unicode_len();
    let mut acc: i64 = 0;
    let mut i: usize = 0;
    proof {
        assert(digits@.take(0int) =~= Seq::<char>::empty());
    }
    while i < n
        invariant
            0 <= i <= n,
            n == digits@.len(),
            all_digits(digits@),
            acc == dec_val(digits@.take(i as int)),
            acc >= 0,
        decreases n - i,
    {
        let c = digits.get_char(i);
        let d = digit_value(c);
        proof {
            assert(digits@.take(i + 1).drop_last() =~= digits@.take(i as int));
            assert(digits@.take(i + 1).last() == digits@[i as int]);
        }
        if acc > (i64::MAX - d as i64) / 10 {
            proof {
                lemma_dec_val_prefix_le(digits@, i + 1);
            }
            return None;
        }
        acc = acc * 10 + d as i64;
        i = i + 1;
    }
    proof {
        assert(digits@.take(n as int) =~= digits@);
    }
    Some(acc)
}

pub fn digit_value(c: char) -> (r: u8)
    requires
        is_digit(c),
    ensures
        r == digit_val(c),
{
    (c as u32 - 48) as u8
}

} // verus!
