//! Human-readable byte counts.
//!
//! A byte count is scaled to the largest binary unit that keeps the
//! whole part under 1024, printed with one fractional digit while the
//! whole part is a single digit, and suffixed with the unit.  All
//! arithmetic rounds toward zero.

use vstd::prelude::*;
use crate::text::{dec_digits, u64_to_string};

verus! {

/// The scaled value `b / d` with its unit: one fractional digit when
/// the whole part is below ten, the whole part alone otherwise.
pub open spec fn scaled_str(b: nat, d: nat, unit: Seq<char>) -> Seq<char> {
    let w = b / d;
    if w < 10 {
        dec_digits(w) + seq!['.'] + dec_digits((b % d) * 10 / d) + unit
    } else {
        dec_digits(w) + unit
    }
}

/// The rendering of a byte count: scaled into the largest binary unit
/// whose whole part stays under 1024, from bytes up to exbibytes.
pub open spec fn format_bytes_spec(b: nat) -> Seq<char> {
    if b < 1024 {
        dec_digits(b) + " B"@
    } else if b < 1048576 {
        scaled_str(b, 1024, " KB"@)
    } else if b < 1073741824 {
        scaled_str(b, 1048576, " MB"@)
    } else if b < 1099511627776 {
        scaled_str(b, 1073741824, " GB"@)
    } else if b < 1125899906842624 {
        scaled_str(b, 1099511627776, " TB"@)
    } else if b < 1152921504606846976 {
        scaled_str(b, 1125899906842624, " PB"@)
    } else {
        scaled_str(b, 1152921504606846976, " EB"@)
    }
}

/// Renders `b / d` with the given unit suffix.
fn scaled_part(b: u64, d: u64, unit: &'static str) -> (r: String)
    requires
        1024 <= d <= 1152921504606846976,
    ensures
        r@ == scaled_str(b as nat, d as nat, unit@),
{
    let w = b / d;
    let mut s = u64_to_string(w);
    if w < 10 {
        let f = (b % d) * 10 / d;
        s.append(".");
        proof {
            vstd::arithmetic::div_mod::lemma_mod_bound(b as int, d as int);
            reveal_strlit(".");
            assert(("."@) =~= seq!['.']);
        }
        let frac = u64_to_string(f);
        s.append(frac.as_str());
    }
    s.append(unit);
    s
}

/// Renders a byte count for display: `"512 B"`, `"9.5 KB"`, `"640 MB"`.
/// The value is scaled to the largest binary unit that keeps the whole
/// part under 1024, with one fractional digit while the whole part has
/// a single digit; fractions round toward zero.
pub fn format_bytes(b: u64) -> (r: String)
    ensures
        r@ == format_bytes_spec(b as nat),
{
    if b < 1024 {
        let mut s = u64_to_string(b);
        s.append(" B");
        s
    } else if b < 1048576 {
        scaled_part(b, 1024, " KB")
    } else if b < 1073741824 {
        scaled_part(b, 1048576, " MB")
    } else if b < 1099511627776 {
        scaled_part(b, 1073741824, " GB")
    } else if b < 1125899906842624 {
        scaled_part(b, 1099511627776, " TB")
    } else if b < 1152921504606846976 {
        scaled_part(b, 1125899906842624, " PB")
    } else {
        scaled_part(b, 1152921504606846976, " EB")
    }
}

} // verus!
