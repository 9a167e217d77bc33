//! Rendering of playback clocks: a position or duration in milliseconds,
//! shown as minutes and seconds, each zero-padded to at least two digits.

use vstd::prelude::*;

verus! {

/// The decimal digits of `n`, most significant first.
pub open spec fn dec_digits(n: nat) -> Seq<u8>
    decreases n,
{
    if n < 10 {
        seq![(48 + n) as u8]
    } else {
        dec_digits(n / 10).push((48 + n % 10) as u8)
    }
}

/// At least two digits: a single digit gets one leading zero.
pub open spec fn two_digits(n: nat) -> Seq<u8> {
    if n < 10 {
        seq![48u8] + dec_digits(n)
    } else {
        dec_digits(n)
    }
}

/// A playback clock: whole minutes and the remaining seconds, each at
/// least two digits, separated by a colon.
pub open spec fn time_text(ms: nat) -> Seq<u8> {
    let total = ms / 1000;
    two_digits(total / 60) + seq![58u8] + two_digits(total % 60)
}

/// Appends the decimal digits of `n`.
fn push_decimal(out: &mut Vec<u8>, n: u64)
    ensures
        final(out)@ == old(out)@ + dec_digits(n as nat),
    decreases n,
{
    if n >= 10 {
        push_decimal(out, n / 10);
    }
    let digit: u8 = 48 + (n % 10) as u8;
    out.push(digit);
    proof {
        if n < 10 {
            assert(out@ =~= old(out)@ + dec_digits(n as nat));
        } else {
            assert(out@ =~= old(out)@ + dec_digits(n as nat));
        }
    }
}

/// The text of a playback clock for a position in milliseconds: "MM:SS",
/// with the minutes growing past two digits when they must.
pub fn format_time(ms: u64) -> (r: Vec<u8>)
    ensures
        r@ == time_text(ms as nat),
{
    let total = ms / 1000;
    let minutes = total / 60;
    let seconds = total % 60;
    let mut out: Vec<u8> = Vec::new();
    if minutes < 10 {
        out.push(48);
    }
    push_decimal(&mut out, minutes);
    proof {
        assert(out@ =~= two_digits(minutes as nat));
    }
    let ghost head = out@;
    out.push(58);
    if seconds < 10 {
        out.push(48);
    }
    push_decimal(&mut out, seconds);
    proof {
        assert(out@ =~= head + seq![58u8] + two_digits(seconds as nat));
        assert(out@ =~= time_text(ms as nat));
    }
    out
}

} // verus!
