//! The locator string: `<fileId>:<line>:<col>`, with literal colon
//! separators and the numbers written in decimal.

use vstd::prelude::*;
use vstd::string::*;

verus! {

/// The decimal digit character for `d` (0 through 9).
pub open spec fn dec_digit(d: int) -> char {
    if d == 0 {
        '0'
    } else if d == 1 {
        '1'
    } else if d == 2 {
        '2'
    } else if d == 3 {
        '3'
    } else if d == 4 {
        '4'
    } else if d == 5 {
        '5'
    } else if d == 6 {
        '6'
    } else if d == 7 {
        '7'
    } else if d == 8 {
        '8'
    } else {
        '9'
    }
}

/// The decimal digits of `n`, most significant first, with no leading
/// zeros except for `n == 0` itself.
pub open spec fn dec_seq(n: int) -> Seq<char>
    decreases n,
{
    if n < 10 {
        seq![dec_digit(n)]
    } else {
        dec_seq(n / 10).push(dec_digit(n % 10))
    }
}

/// The locator for position (`line`, `col`) in the file named `file_id`:
/// the file id, the line and the column, separated by colons.
pub open spec fn locator_seq(file_id: Seq<char>, line: int, col: int) -> Seq<char> {
    file_id + seq![':'] + dec_seq(line) + seq![':'] + dec_seq(col)
}

/// The one-character string for the decimal digit `d`.
fn digit_str(d: usize) -> (r: &'static str)
    requires
        d < 10,
    ensures
        r@ == seq![dec_digit(d as int)],
{
    let r: &'static str = match d {
        0 => "0",
        1 => "1",
        2 => "2",
        3 => "3",
        4 => "4",
        5 => "5",
        6 => "6",
        7 => "7",
        8 => "8",
        _ => "9",
    };
    proof {
        reveal_strlit("0");
        reveal_strlit("1");
        reveal_strlit("2");
        reveal_strlit("3");
        reveal_strlit("4");
        reveal_strlit("5");
        reveal_strlit("6");
        reveal_strlit("7");
        reveal_strlit("8");
        reveal_strlit("9");
        assert(r@ =~= seq![dec_digit(d as int)]);
    }
    r
}

/// Appends the decimal digits of `n` to `out`.
fn push_dec(out: &mut String, n: usize)
    ensures
        final(out)@ == old(out)@ + dec_seq(n as int),
    decreases n,
{
    if n >= 10 {
        push_dec(out, n / 10);
        out.append(digit_str(n % 10));
        assert(out@ =~= old(out)@ + dec_seq(n as int));
    } else {
        out.append(digit_str(n));
        assert(out@ =~= old(out)@ + dec_seq(n as int));
    }
}

/// Builds the locator string `<file_id>:<line>:<col>`.
pub fn make_locator(file_id: &str, line: usize, col: usize) -> (r: String)
    ensures
        r@ == locator_seq(file_id@, line as int, col as int),
{
    let mut s = String::from_str(file_id);
    s.append(":");
    push_dec(&mut s, line);
    s.append(":");
    push_dec(&mut s, col);
    proof {
        reveal_strlit(":");
        assert(s@ =~= locator_seq(file_id@, line as int, col as int));
    }
    s
}

} // verus!
