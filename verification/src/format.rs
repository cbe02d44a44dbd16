//! The elapsed-time log prefix.
//!
//! Every line a run prints carries a prefix of the form `[12.34s]`: the time
//! since the run started, in seconds with two decimal places.  The shell
//! measures the elapsed hundredths of a second; this module renders them.

use vstd::prelude::*;

verus! {

/// The decimal digits of `n`, most significant first.
pub open spec fn dec_digits(n: nat) -> Seq<u8>
    decreases n,
{
    if n < 10 {
        seq![(48 + n) as u8]
    } else {
        dec_digits(n / 10).push((48 + n % 10) as u8)
    }
}

/// Render a number in decimal.
pub fn digits(n: u64) -> (r: Vec<u8>)
    ensures
        r@ == dec_digits(n as nat),
    decreases n,
{
    if n < 10 {
        let mut r: Vec<u8> = Vec::new();
        r.push(48 + (n as u8));
        proof {
            assert(r@ =~= dec_digits(n as nat));
        }
        r
    } else {
        let mut r = digits(n / 10);
        r.push(48 + ((n % 10) as u8));
        proof {
            assert(r@ =~= dec_digits(n as nat));
        }
        r
    }
}

/// The log prefix for `centis` elapsed hundredths of a second: `[`, the whole
/// seconds in decimal, `.`, exactly two digits of hundredths, `s`, `]`.
pub open spec fn spec_elapsed(centis: nat) -> Seq<u8> {
    seq![91u8] + dec_digits(centis / 100) + seq![
        46u8,
        (48 + (centis % 100) / 10) as u8,
        (48 + centis % 10) as u8,
        115u8,
        93u8,
    ]
}

/// Render the elapsed-time log prefix, `[12.34s]` for 1234 hundredths.
pub fn elapsed(centis: u64) -> (r: Vec<u8>)
    ensures
        r@ == spec_elapsed(centis as nat),
{
    let mut r: Vec<u8> = Vec::new();
    r.push(91);
    let whole = digits(centis / 100);
    let mut i: usize = 0;
    while i < whole.len()
        invariant
            i <= whole.len(),
            r@ == seq![91u8] + whole@.take(i as int),
        decreases whole.len() - i,
    {
        r.push(whole[i]);
        proof {
            assert(r@ =~= seq![91u8] + whole@.take(i + 1));
        }
        i += 1;
    }
    proof {
        assert(whole@.take(whole@.len() as int) =~= whole@);
    }
    r.push(46);
    r.push(48 + (((centis % 100) / 10) as u8));
    r.push(48 + ((centis % 10) as u8));
    r.push(115);
    r.push(93);
    proof {
        assert(r@ =~= spec_elapsed(centis as nat));
    }
    r
}

} // verus!
