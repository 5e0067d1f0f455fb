use vstd::prelude::*;
use vstd::string::*;

verus! {

/// The character of a decimal digit.
pub open spec fn digit_char(d: nat) -> char {
    seq!['0', '1', '2', '3', '4', '5', '6', '7', '8', '9'][d as int]
}

/// The decimal digits of `n`, without sign or leading zeros.
pub open spec fn decimal_digits(n: nat) -> Seq<char>
    decreases n,
{
    if n < 10 {
        seq![digit_char(n)]
    } else {
        decimal_digits(n / 10).push(digit_char(n % 10))
    }
}

/// Relies on `u64`'s `Display`, through `ToString`: the decimal digits of `n`.
#[verifier::external_body]
pub(crate) fn decimal_text(n: u64) -> (r: String)
    ensures
        r@ == decimal_digits(n as nat),
{
    n.to_string()
}

pub const KIB: u64 = 1024;

pub const MIB: u64 = 1024 * 1024;

pub const GIB: u64 = 1024 * 1024 * 1024;

pub const TIB: u64 = 1024 * 1024 * 1024 * 1024;

/// A byte count in the largest unit, up to TB, that leaves at least 1 of it, rounded
/// down: `512B`, `4KB`, `1GB`.
pub open spec fn humanized(bytes: nat) -> Seq<char> {
    if bytes < KIB {
        decimal_digits(bytes) + seq!['B']
    } else if bytes < MIB {
        decimal_digits(bytes / KIB as nat) + seq!['K', 'B']
    } else if bytes < GIB {
        decimal_digits(bytes / MIB as nat) + seq!['M', 'B']
    } else if bytes < TIB {
        decimal_digits(bytes / GIB as nat) + seq!['G', 'B']
    } else {
        decimal_digits(bytes / TIB as nat) + seq!['T', 'B']
    }
}

/// A byte count for people to read, as `humanized` describes.
pub fn humanize(bytes: u64) -> (r: String)
    ensures
        r@ == humanized(bytes as nat),
{
    proof {
        reveal_strlit("B");
        reveal_strlit("KB");
        reveal_strlit("MB");
        reveal_strlit("GB");
        reveal_strlit("TB");
    }
    let mut r: String;
    if bytes < KIB {
        r = decimal_text(bytes);
        r.append("B");
    } else if bytes < MIB {
        r = decimal_text(bytes / KIB);
        r.append("KB");
    } else if bytes < GIB {
        r = decimal_text(bytes / MIB);
        r.append("MB");
    } else if bytes < TIB {
        r = decimal_text(bytes / GIB);
        r.append("GB");
    } else {
        r = decimal_text(bytes / TIB);
        r.append("TB");
    }
    assert(r@ =~= humanized(bytes as nat));
    r
}

} // verus!
