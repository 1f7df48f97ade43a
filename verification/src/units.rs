//! Human-readable rendering of byte counts, binary (1024-based) scaling,
//! two fractional digits below the chosen unit.

use vstd::prelude::*;
use vstd::arithmetic::div_mod::{
    lemma_div_is_ordered, lemma_div_is_ordered_by_denominator, lemma_div_nonincreasing,
};
use vstd::string::StringExecFns;
use crate::digits::{dec_digits, digit_char, u64_to_string};

verus! {

pub const KIB: u64 = 1024;

pub const MIB: u64 = 1024 * 1024;

pub const GIB: u64 = 1024 * 1024 * 1024;

/// Hundredths of a unit that `bytes` amounts to, rounded half-up:
/// `round(bytes * 100 / unit)`.
pub open spec fn scaled_centi(bytes: nat, unit: nat) -> nat
    recommends
        unit > 0,
{
    (bytes * 100 + unit / 2) / unit
}

/// `"i.ff"`: the whole units, a dot, and exactly two fractional digits.
pub open spec fn scaled_chars(bytes: nat, unit: nat) -> Seq<char>
    recommends
        unit > 0,
{
    let c = scaled_centi(bytes, unit);
    dec_digits(c / 100) + seq!['.', digit_char((c % 100) / 10), digit_char(c % 10)]
}

/// Which unit the formatter picks: 0 for B, 1 for KB, 2 for MB, 3 for GB.
pub open spec fn unit_rank(bytes: u64) -> nat {
    if bytes >= GIB {
        3
    } else if bytes >= MIB {
        2
    } else if bytes >= KIB {
        1
    } else {
        0
    }
}

/// The exact character sequence `format_bytes` returns.
pub open spec fn spec_format_bytes(bytes: u64) -> Seq<char> {
    if bytes >= GIB {
        scaled_chars(bytes as nat, GIB as nat) + " GB"@
    } else if bytes >= MIB {
        scaled_chars(bytes as nat, MIB as nat) + " MB"@
    } else if bytes >= KIB {
        scaled_chars(bytes as nat, KIB as nat) + " KB"@
    } else {
        dec_digits(bytes as nat) + " B"@
    }
}

/// `"i.ff"` for `bytes` measured in `unit`, rounded half-up.
fn scaled_string(bytes: u64, unit: u64) -> (r: String)
    requires
        1024 <= unit,
    ensures
        r@ == scaled_chars(bytes as nat, unit as nat),
{
    let num: u128 = (bytes as u128) * 100 + (unit as u128) / 2;
    let scaled: u128 = num / (unit as u128);
    proof {
        lemma_div_is_ordered_by_denominator(num as int, 1024, unit as int);
        lemma_div_nonincreasing(num as int, 1024);
        assert(scaled <= num / 1024);
        lemma_div_is_ordered(num as int, (u64::MAX as int) * 100 + (u64::MAX as int), 1024);
        assert(scaled < u64::MAX);
    }
    let int_part: u64 = (scaled / 100) as u64;
    let frac: u64 = (scaled % 100) as u64;
    let mut s = u64_to_string(int_part);
    s.append(".");
    let tens = frac / 10;
    let ones = frac % 10;
    let mut t = u64_to_string(tens);
    t.append(u64_to_string(ones).as_str());
    s.append(t.as_str());
    proof {
        reveal_strlit(".");
        let c = scaled_centi(bytes as nat, unit as nat);
        assert(scaled == c);
        assert(tens == (c % 100) / 10);
        assert(ones == c % 100 % 10);
        assert(c % 100 % 10 == c % 10) by {
            vstd::arithmetic::div_mod::lemma_mod_mod(c as int, 10, 10);
        }
        assert(s@ =~= scaled_chars(bytes as nat, unit as nat));
    }
    s
}

/// Renders `bytes` as `"x.xx GB"`, `"x.xx MB"`, `"x.xx KB"` or `"n B"`,
/// choosing the largest binary unit that `bytes` reaches.
pub fn format_bytes(bytes: u64) -> (r: String)
    ensures
        r@ == spec_format_bytes(bytes),
{
    if bytes >= GIB {
        let mut s = scaled_string(bytes, GIB);
        s.append(" GB");
        s
    } else if bytes >= MIB {
        let mut s = scaled_string(bytes, MIB);
        s.append(" MB");
        s
    } else if bytes >= KIB {
        let mut s = scaled_string(bytes, KIB);
        s.append(" KB");
        s
    } else {
        let mut s = u64_to_string(bytes);
        s.append(" B");
        s
    }
}

/// The unit suffix shown for each rank.
pub open spec fn unit_suffix(rank: nat) -> Seq<char> {
    if rank == 3 {
        " GB"@
    } else if rank == 2 {
        " MB"@
    } else if rank == 1 {
        " KB"@
    } else {
        " B"@
    }
}

/// The unit boundaries are consistent: a larger byte count is never shown
/// in a smaller unit.
pub proof fn lemma_unit_rank_monotonic(b1: u64, b2: u64)
    requires
        b1 <= b2,
    ensures
        unit_rank(b1) <= unit_rank(b2),
{
}

/// The formatted string indeed ends in the unit of the byte count's rank,
/// so the monotonic rank is the unit a reader sees.
pub proof fn lemma_format_bytes_suffix(b: u64)
    ensures
        unit_suffix(unit_rank(b)).len() <= spec_format_bytes(b).len(),
        spec_format_bytes(b).skip(
            spec_format_bytes(b).len() - unit_suffix(unit_rank(b)).len(),
        ) == unit_suffix(unit_rank(b)),
{
    reveal_strlit(" GB");
    reveal_strlit(" MB");
    reveal_strlit(" KB");
    reveal_strlit(" B");
    let s = spec_format_bytes(b);
    let u = unit_suffix(unit_rank(b));
    assert(s.skip(s.len() - u.len()) =~= u);
}

/// Within one unit, the rounded hundredths value is monotonic in the byte
/// count.
pub proof fn lemma_scaled_monotonic(b1: nat, b2: nat, unit: nat)
    requires
        b1 <= b2,
        unit > 0,
    ensures
        scaled_centi(b1, unit) <= scaled_centi(b2, unit),
{
    lemma_div_is_ordered((b1 * 100 + unit / 2) as int, (b2 * 100 + unit / 2) as int, unit as int);
}

} // verus!
