//! The size-unit converter: scales a raw byte count into a human-readable
//! magnitude with a unit suffix and two decimal places.
use vstd::prelude::*;

use crate::decimal::{dec_digits, digit_char, digit_str, u128_to_string};

verus! {

/// The display unit a byte count scales to.
#[derive(Clone, Copy, PartialEq, Eq, Structural, Debug)]
pub enum Unit {
    B,
    KB,
    MB,
    GB,
    TB,
}

/// The unit a byte count is displayed in: each step up is taken only when
/// the count strictly exceeds the next power of 1024, and scaling stops at
/// terabytes.
pub open spec fn spec_unit_of(n: nat) -> Unit {
    if n <= 1024 {
        Unit::B
    } else if n <= 1048576 {
        Unit::KB
    } else if n <= 1073741824 {
        Unit::MB
    } else if n <= 1099511627776 {
        Unit::GB
    } else {
        Unit::TB
    }
}

/// How many bytes one step of the given unit holds.
pub open spec fn unit_divisor(u: Unit) -> nat {
    match u {
        Unit::B => 1,
        Unit::KB => 1024,
        Unit::MB => 1048576,
        Unit::GB => 1073741824,
        Unit::TB => 1099511627776,
    }
}

/// The suffix the unit is rendered with.
pub open spec fn unit_suffix(u: Unit) -> Seq<char> {
    match u {
        Unit::B => seq!['B'],
        Unit::KB => seq!['K', 'B'],
        Unit::MB => seq!['M', 'B'],
        Unit::GB => seq!['G', 'B'],
        Unit::TB => seq!['T', 'B'],
    }
}

/// The scaled value in hundredths, rounded to the nearest hundredth with
/// ties going to the even hundredth.
pub open spec fn rounded_hundredths(n: nat, den: nat) -> nat
    recommends
        den > 0,
{
    let q = (n * 100) / den;
    let r = (n * 100) % den;
    if 2 * r > den {
        q + 1
    } else if 2 * r == den && q % 2 == 1 {
        q + 1
    } else {
        q
    }
}

/// The full rendering of a byte count: the scaled value with two decimal
/// places, followed by the unit suffix.
pub open spec fn spec_size_with_unit(n: nat) -> Seq<char> {
    let u = spec_unit_of(n);
    let h = rounded_hundredths(n, unit_divisor(u));
    dec_digits(h / 100) + seq!['.'] + seq![digit_char((h % 100) / 10), digit_char(h % 10)]
        + unit_suffix(u)
}

/// Picks the display unit for a byte count.
pub fn size_unit(sizeb: u64) -> (u: Unit)
    ensures
        u == spec_unit_of(sizeb as nat),
{
    if sizeb <= 1024 {
        Unit::B
    } else if sizeb <= 1048576 {
        Unit::KB
    } else if sizeb <= 1073741824 {
        Unit::MB
    } else if sizeb <= 1099511627776 {
        Unit::GB
    } else {
        Unit::TB
    }
}

/// The suffix string of a unit.
fn unit_suffix_str(u: Unit) -> (r: &'static str)
    ensures
        r@ == unit_suffix(u),
{
    proof {
        reveal_strlit("B");
        reveal_strlit("KB");
        reveal_strlit("MB");
        reveal_strlit("GB");
        reveal_strlit("TB");
        assert("B"@ =~= seq!['B']);
        assert("KB"@ =~= seq!['K', 'B']);
        assert("MB"@ =~= seq!['M', 'B']);
        assert("GB"@ =~= seq!['G', 'B']);
        assert("TB"@ =~= seq!['T', 'B']);
    }
    match u {
        Unit::B => "B",
        Unit::KB => "KB",
        Unit::MB => "MB",
        Unit::GB => "GB",
        Unit::TB => "TB",
    }
}

/// Renders a byte count as a scaled size with two decimal places and the
/// unit suffix, as in `4.77MB`.
pub fn get_size_with_unit(sizeb: u64) -> (r: String)
    ensures
        r@ == spec_size_with_unit(sizeb as nat),
{
    let unit = size_unit(sizeb);
    let den: u64 = match unit {
        Unit::B => 1,
        Unit::KB => 1024,
        Unit::MB => 1048576,
        Unit::GB => 1073741824,
        Unit::TB => 1099511627776,
    };
    proof {
        assert(den as nat == unit_divisor(unit));
    }
    let num: u128 = (sizeb as u128) * 100;
    let q: u128 = num / (den as u128);
    let rem: u128 = num % (den as u128);
    let h: u128 = if 2 * rem > (den as u128) {
        q + 1
    } else if 2 * rem == (den as u128) && q % 2 == 1 {
        q + 1
    } else {
        q
    };
    proof {
        assert(h as nat == rounded_hundredths(sizeb as nat, unit_divisor(unit)));
    }
    let whole: u128 = h / 100;
    let tens: u128 = (h % 100) / 10;
    let ones: u128 = h % 10;
    let mut s = u128_to_string(whole);
    s.append(".");
    s.append(digit_str(tens));
    s.append(digit_str(ones));
    let suffix = unit_suffix_str(unit);
    s.append(suffix);
    proof {
        reveal_strlit(".");
        assert("."@ =~= seq!['.']);
        assert((h % 100) / 10 == (h as nat % 100) / 10);
        assert(s@ =~= spec_size_with_unit(sizeb as nat));
    }
    s
}

/// Converting a byte count to its unit string is deterministic: any two
/// renderings of the same count are the same string.
pub proof fn lemma_size_string_deterministic(a: Seq<char>, b: Seq<char>, n: u64)
    requires
        a == spec_size_with_unit(n as nat),
        b == spec_size_with_unit(n as nat),
    ensures
        a == b,
{
}

} // verus!
