//! The summary line a report entry asks the caller to print.
//!
//! A report entry carries two counters taken from the document; the
//! library renders them into the one summary sentence, digit by digit, so
//! the exact text is pinned down by the contract.

use vstd::prelude::*;
use vstd::string::StringExecFns;

verus! {

pub open spec fn digit_char(d: nat) -> char {
    if d == 0 {
        '0'
    } else if d == 1 {
        '1'
    } else if d == 2 {
        '2'
    } else if d == 3 {
        '3'
    } else if d == 4 {
        '4'
    } else if d == 5 {
        '5'
    } else if d == 6 {
        '6'
    } else if d == 7 {
        '7'
    } else if d == 8 {
        '8'
    } else {
        '9'
    }
}

/// The decimal digits of `n`, most significant first, no leading zeros
/// except for `n == 0` itself.
pub open spec fn dec_seq(n: nat) -> Seq<char>
    decreases n,
{
    if n < 10 {
        seq![digit_char(n)]
    } else {
        dec_seq(n / 10).push(digit_char(n % 10))
    }
}

/// The exact summary text for a report carrying the two counters.
pub open spec fn report_line_spec(d: nat, f: nat) -> Seq<char> {
    "Written "@ + dec_seq(d) + " directories and "@ + dec_seq(f) + " files."@
}

fn push_digit(d: u64, out: &mut String)
    requires
        d < 10,
    ensures
        final(out)@ == old(out)@ + seq![digit_char(d as nat)],
{
    let s: &str = if d == 0 {
        "0"
    } else if d == 1 {
        "1"
    } else if d == 2 {
        "2"
    } else if d == 3 {
        "3"
    } else if d == 4 {
        "4"
    } else if d == 5 {
        "5"
    } else if d == 6 {
        "6"
    } else if d == 7 {
        "7"
    } else if d == 8 {
        "8"
    } else {
        "9"
    };
    proof {
        reveal_strlit("0");
        reveal_strlit("1");
        reveal_strlit("2");
        reveal_strlit("3");
        reveal_strlit("4");
        reveal_strlit("5");
        reveal_strlit("6");
        reveal_strlit("7");
        reveal_strlit("8");
        reveal_strlit("9");
        assert(s@ =~= seq![digit_char(d as nat)]);
    }
    out.append(s);
}

/// Append the decimal rendering of `n`.
pub fn push_decimal(n: u64, out: &mut String)
    ensures
        final(out)@ == old(out)@ + dec_seq(n as nat),
    decreases n,
{
    if n >= 10 {
        push_decimal(n / 10, out);
    }
    push_digit(n % 10, out);
    proof {
        if n < 10 {
            assert(n % 10 == n);
        } else {
            assert((n / 10) as nat == n as nat / 10);
            assert((n % 10) as nat == n as nat % 10);
            assert(old(out)@ + dec_seq((n / 10) as nat) + seq![digit_char((n % 10) as nat)]
                =~= old(out)@ + dec_seq(n as nat));
        }
    }
}

/// Render the summary for a report entry: the counters come from the
/// document and are echoed, never recounted.
pub fn report_line(directories: u64, files: u64) -> (r: String)
    ensures
        r@ == report_line_spec(directories as nat, files as nat),
{
    let mut s = String::new();
    s.append("Written ");
    push_decimal(directories, &mut s);
    s.append(" directories and ");
    push_decimal(files, &mut s);
    s.append(" files.");
    proof {
        assert(s@ =~= report_line_spec(directories as nat, files as nat));
    }
    s
}

} // verus!
