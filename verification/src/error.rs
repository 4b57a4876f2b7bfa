use crate::num::{dec_text_nat, u64_to_dec};
use vstd::prelude::*;
use vstd::string::*;

verus! {

/// Number of newline characters in `s`.
pub open spec fn nl_count(s: Seq<char>) -> nat
    decreases s.len(),
{
    if s.len() == 0 {
        0
    } else {
        nl_count(s.drop_last()) + if s.last() == '\n' { 1nat } else { 0nat }
    }
}

/// The line-number label for position `pos`: the number of lines that the
/// text before `pos` spans, counting a final unterminated line as one.
pub open spec fn line_label(s: Seq<char>, pos: int) -> nat {
    if pos <= 0 {
        0
    } else {
        nl_count(s.take(pos)) + if s[pos - 1] == '\n' { 0nat } else { 1nat }
    }
}

/// Index of the first character of the line that holds position `pos`.
pub open spec fn line_start_at(s: Seq<char>, pos: int) -> int
    decreases pos,
{
    if pos <= 0 {
        0
    } else if s[pos - 1] == '\n' {
        pos
    } else {
        line_start_at(s, pos - 1)
    }
}

/// Index just past the last character of the line that holds position `pos`.
pub open spec fn line_end_at(s: Seq<char>, pos: int) -> int
    decreases s.len() - pos,
{
    if pos >= s.len() {
        s.len() as int
    } else if s[pos] == '\n' {
        pos
    } else {
        line_end_at(s, pos + 1)
    }
}

/// A run of `k` spaces.
pub open spec fn spaces(k: int) -> Seq<char>
    decreases k,
{
    if k <= 0 {
        Seq::empty()
    } else {
        spaces(k - 1).push(' ')
    }
}

/// The rendered error: the message, then the source line labelled with its
/// line number, then a caret line pointing at the offending column.
pub open spec fn spec_print_err(s: Seq<char>, pos: int, msg: Seq<char>) -> Seq<char> {
    let ls = line_start_at(s, pos);
    let le = line_end_at(s, pos);
    let label = dec_text_nat(line_label(s, pos));
    msg + seq!['\n'] + label + seq!['|', ' '] + s.subrange(ls, le) + seq!['\n'] + spaces(
        pos - ls + label.len() + 2,
    ) + seq!['^']
}

fn count_newlines(input: &str, pos: usize) -> (r: usize)
    requires
        pos <= input@.len(),
    ensures
        r == nl_count(input@.take(pos as int)),
{
    let mut i: usize = 0;
    let mut acc: usize = 0;
    proof {
        assert(input@.take(0int) =~= Seq::<char>::empty());
    }
    while i < pos
        invariant
            0 <= i <= pos <= input@.len(),
            acc == nl_count(input@.take(i as int)),
            acc <= i,
        decreases pos - i,
    {
        let c = input.get_char(i);
        proof {
            assert(input@.take(i + 1).drop_last() =~= input@.take(i as int));
            assert(input@.take(i + 1).last() == input@[i as int]);
        }
        if c == '\n' {
            acc = acc + 1;
        }
        i = i + 1;
    }
    acc
}

fn find_line_start(input: &str, pos: usize) -> (r: usize)
    requires
        pos <= input@.len(),
    ensures
        r == line_start_at(input@, pos as int),
        r <= pos,
{
    let mut j: usize = pos;
    while j > 0
        invariant
            0 <= j <= pos <= input@.len(),
            line_start_at(input@, pos as int) == line_start_at(input@, j as int),
        ensures
            0 <= j <= pos,
            j == line_start_at(input@, pos as int),
        decreases j,
    {
        let c = input.get_char(j - 1);
        if c == '\n' {
            break ;
        }
        j = j - 1;
    }
    j
}

fn find_line_end(input: &str, pos: usize) -> (r: usize)
    requires
        pos <= input@.len(),
    ensures
        r == line_end_at(input@, pos as int),
        pos <= r <= input@.len(),
{
    let n = input.unicode_len();
    let mut j: usize = pos;
    while j < n
        invariant
            pos <= j <= n == input@.len(),
            line_end_at(input@, pos as int) == line_end_at(input@, j as int),
        ensures
            pos <= j <= input@.len(),
            j == line_end_at(input@, pos as int),
        decreases n - j,
    {
        let c = input.get_char(j);
        if c == '\n' {
            break ;
        }
        j = j + 1;
    }
    j
}

fn space_run(k: u128) -> (r: String)
    ensures
        r@ == spaces(k as int),
{
    proof {
        reveal_strlit(" ");
    }
    let mut s = String::new();
    let mut i: u128 = 0;
    while i < k
        invariant
            0 <= i <= k,
            s@ == spaces(i as int),
        decreases k - i,
    {
        s.append(" ");
        proof {
            reveal_strlit(" ");
            assert(s@ =~= spaces(i + 1));
        }
        i = i + 1;
    }
    s
}

/// A text holds no more newlines than characters.
proof fn lemma_nl_count_le(s: Seq<char>)
    ensures
        nl_count(s) <= s.len(),
    decreases s.len(),
{
    if s.len() > 0 {
        lemma_nl_count_le(s.drop_last());
    }
}

/// Renders `msg` with the source line around position `pos` and a caret
/// pointing at that position.
pub fn print_err(input: &str, pos: usize, msg: &str) -> (r: String)
    requires
        pos <= input@.len(),
    ensures
        r@ == spec_print_err(input@, pos as int, msg@),
{
    let nl = count_newlines(input, pos);
    let ghost label_num = line_label(input@, pos as int);
    let label: String = if pos == 0 {
        u64_to_dec(0)
    } else {
        let last = input.get_char(pos - 1);
        proof {
            assert(input@.take(pos as int).drop_last() =~= input@.take(pos - 1));
            assert(input@.take(pos as int).last() == input@[pos - 1]);
            lemma_nl_count_le(input@.take(pos - 1));
        }
        if last == '\n' {
            u64_to_dec(nl as u64)
        } else {
            u64_to_dec(nl as u64 + 1)
        }
    };
    proof {
        assert(label@ == dec_text_nat(label_num));
    }
    let ls = find_line_start(input, pos);
    let le = find_line_end(input, pos);
    proof {
        lemma_line_bounds(input@, pos as int);
    }
    let line = input.substring_char(ls, le);
    proof {
        reveal_strlit("\n");
        reveal_strlit("| ");
        reveal_strlit("^");
    }
    let mut out = String::from_str(msg);
    out.append("\n");
    out.append(label.as_str());
    out.append("| ");
    out.append(line);
    out.append("\n");
    let label_len = label.as_str().unicode_len();
    let pad_n: u128 = (pos as u128) - (ls as u128) + (label_len as u128) + 2;
    let pad = space_run(pad_n);
    out.append(pad.as_str());
    out.append("^");
    proof {
        assert("\n"@ =~= seq!['\n']);
        assert("| "@ =~= seq!['|', ' ']);
        assert("^"@ =~= seq!['^']);
        assert(out@ =~= spec_print_err(input@, pos as int, msg@));
    }
    out
}

/// The line around a position lies within the text.
proof fn lemma_line_bounds(s: Seq<char>, pos: int)
    requires
        0 <= pos <= s.len(),
    ensures
        0 <= line_start_at(s, pos) <= pos,
        pos <= line_end_at(s, pos) <= s.len(),
    decreases pos,
{
    if pos > 0 && s[pos - 1] != '\n' {
        lemma_line_bounds(s, pos - 1);
        lemma_line_end_ge(s, pos);
    } else {
        lemma_line_end_ge(s, pos);
    }
}

proof fn lemma_line_end_ge(s: Seq<char>, pos: int)
    requires
        0 <= pos <= s.len(),
    ensures
        pos <= line_end_at(s, pos) <= s.len(),
    decreases s.len() - pos,
{
    if pos < s.len() && s[pos] != '\n' {
        lemma_line_end_ge(s, pos + 1);
    }
}

} // verus!
