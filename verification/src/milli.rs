//! Fixed-point sensor scalars.
//!
//! Sensor readings arrive as decimal strings with unit suffixes and a
//! locale comma (`"45,5 °C"`, `"12 W"`).  The crate stores them in
//! thousandths of a unit, which keeps every computation on plain
//! integers: parsing, unit scaling and gauge ratios are all specified
//! and verified here.

use vstd::prelude::*;
use crate::text::{
    all_digits, digit_val, digits_val, find_char, is_digit, char_code, chars_of,
    replace_spec, trim_spec, vec_replace, vec_trim,
};

verus! {

/// A sensor scalar held in thousandths of its unit.
#[derive(Clone, Copy, PartialEq, Eq, Structural, Debug)]
pub struct Milli {
    pub thousandths: i64,
}

impl Milli {
    /// The zero reading, used whenever a source is absent.
    pub open spec fn zero_spec() -> Milli {
        Milli { thousandths: 0 }
    }

    /// The zero reading, used whenever a source is absent.
    pub fn zero() -> (r: Milli)
        ensures
            r == Milli::zero_spec(),
    {
        Milli { thousandths: 0 }
    }

    /// The magnitude of the reading, in thousandths.
    pub open spec fn abs_spec(self) -> int {
        if self.thousandths >= 0 {
            self.thousandths as int
        } else {
            -(self.thousandths as int)
        }
    }
}

/// `x` clamped into the `i64` range.
pub open spec fn sat_i64(x: int) -> int {
    if x > i64::MAX {
        i64::MAX as int
    } else if x < i64::MIN {
        i64::MIN as int
    } else {
        x
    }
}

/// The magnitude of `x`, as a `u64`.
pub fn abs_u64(x: i64) -> (r: u64)
    ensures
        r as int == if x >= 0 {
            x as int
        } else {
            -(x as int)
        },
{
    if x >= 0 {
        x as u64
    } else if x == i64::MIN {
        9223372036854775808u64
    } else {
        (-x) as u64
    }
}

/// Whether `a` is at least as large as `b` in magnitude.
pub fn milli_abs_ge(a: Milli, b: Milli) -> (r: bool)
    ensures
        r == (a.abs_spec() >= b.abs_spec()),
{
    abs_u64(a.thousandths) >= abs_u64(b.thousandths)
}

/// The value of `v * num / 1000`, computed on the magnitude and rounded
/// toward zero, then clamped into `i64`.
pub open spec fn milli_scale_spec(v: Milli, num: int) -> int {
    let mag = v.abs_spec() * num / 1000;
    if v.thousandths >= 0 {
        sat_i64(mag)
    } else {
        sat_i64(-mag)
    }
}

/// Scales a reading of `v` thousandths of a unit that is `num` bytes
/// into whole bytes: with `num == 1048576` mebibytes become bytes.
/// Rounds toward zero and saturates at the `i64` bounds.
pub fn milli_scale(v: Milli, num: u64) -> (r: i64)
    requires
        num <= 1099511627776u64,
    ensures
        r as int == milli_scale_spec(v, num as int),
{
    let a = abs_u64(v.thousandths);
    proof {
        assert(a as u128 as int * (num as u128 as int) <= 0x8000_0000_0000_0000u128 as int
            * 1099511627776u64 as int) by (nonlinear_arith)
            requires
                a as int <= 0x8000_0000_0000_0000u128 as int,
                num as int <= 1099511627776u64 as int,
        ;
    }
    let mag = (a as u128) * (num as u128) / 1000;
    if v.thousandths >= 0 {
        if mag > i64::MAX as u128 {
            i64::MAX
        } else {
            mag as i64
        }
    } else {
        if mag > i64::MAX as u128 {
            i64::MIN
        } else {
            -(mag as i64)
        }
    }
}

/// The permille ratio `num * 1000 / den`, zero on a nonpositive
/// denominator, computed on the magnitude of `num`, rounded toward
/// zero and clamped into `i64`.
pub open spec fn ratio_permille_spec(num: i64, den: i64) -> int {
    if den <= 0 {
        0
    } else {
        let a = if num >= 0 {
            num as int
        } else {
            -(num as int)
        };
        let mag = a * 1000 / den as int;
        if num >= 0 {
            sat_i64(mag)
        } else {
            sat_i64(-mag)
        }
    }
}

/// The first three fractional digits of a decimal fraction, read as
/// thousandths; digits beyond the third are ignored.
pub open spec fn frac_thousandths(fd: Seq<char>) -> int {
    if fd.len() >= 3 {
        digits_val(fd.subrange(0, 3))
    } else if fd.len() == 2 {
        digits_val(fd) * 10
    } else if fd.len() == 1 {
        digits_val(fd) * 100
    } else {
        0
    }
}

/// A decimal parse into thousandths: an optional sign, integer digits,
/// then an optional dot with fraction digits, of which the first three
/// count.  At least one digit must be present; a magnitude beyond the
/// `i64` range fails, as does any other character.
pub open spec fn parse_milli_spec(s: Seq<char>) -> Option<int> {
    let neg = s.len() >= 1 && s[0] == '-';
    let t = if s.len() >= 1 && (s[0] == '-' || s[0] == '+') {
        s.skip(1)
    } else {
        s
    };
    let d = find_char(t, '.');
    let ip = if d == -1 {
        t
    } else {
        t.subrange(0, d)
    };
    let fp = if d == -1 {
        Seq::<char>::empty()
    } else {
        t.skip(d + 1)
    };
    if ip.len() + fp.len() >= 1 && all_digits(ip) && all_digits(fp) {
        let mag = digits_val(ip) * 1000 + frac_thousandths(fp);
        if mag <= i64::MAX {
            Some(
                if neg {
                    -mag
                } else {
                    mag
                },
            )
        } else {
            None
        }
    } else {
        None
    }
}

/// A successful decimal parse always lies within the `i64` range.
pub proof fn lemma_parse_milli_in_range(s: Seq<char>)
    ensures
        parse_milli_spec(s) matches Some(n) ==> -(i64::MAX as int) <= n <= i64::MAX,
{
    let t = if s.len() >= 1 && (s[0] == '-' || s[0] == '+') {
        s.skip(1)
    } else {
        s
    };
    let d = find_char(t, '.');
    let ip = if d == -1 {
        t
    } else {
        t.subrange(0, d)
    };
    let fp = if d == -1 {
        Seq::<char>::empty()
    } else {
        t.skip(d + 1)
    };
    if ip.len() + fp.len() >= 1 && all_digits(ip) && all_digits(fp) {
        crate::text::lemma_digits_val_nonneg(ip);
        lemma_frac_thousandths_bounds(fp);
    }
}

/// Reads the fraction digits `v@.subrange(from, to)`: fails on any
/// non-digit, otherwise yields the value of the first three digits in
/// thousandths.
fn scan_frac(v: &Vec<char>, from: usize, to: usize) -> (r: Option<u64>)
    requires
        from <= to <= v@.len(),
    ensures
        ({
            let fp = v@.subrange(from as int, to as int);
            match r {
                Some(f) => all_digits(fp) && f as int == frac_thousandths(fp) && f <= 999,
                None => !all_digits(fp),
            }
        }),
{
    let ghost fp = v@.subrange(from as int, to as int);
    let mut i: usize = from;
    while i < to
        invariant
            from <= i <= to <= v@.len(),
            fp == v@.subrange(from as int, to as int),
            all_digits(fp.subrange(0, i - from)),
        decreases to - i,
    {
        let u = char_code(v[i]);
        if u < 48 || u > 57 {
            proof {
                assert(!is_digit(fp[i - from]));
            }
            return None;
        }
        proof {
            assert(fp.subrange(0, i + 1 - from) =~= fp.subrange(0, i - from).push(fp[i - from]));
            assert(is_digit(fp[i - from]));
        }
        i = i + 1;
    }
    proof {
        assert(fp.subrange(0, to - from) =~= fp);
    }
    let len = to - from;
    if len == 0 {
        return Some(0);
    }
    proof {
        assert(fp[0] == v@[from as int]);
        assert(is_digit(fp[0]));
    }
    let d0 = (char_code(v[from]) - 48) as u64;
    proof {
        assert(fp.subrange(0, 1) =~= Seq::<char>::empty().push(fp[0]));
        crate::text::lemma_digits_val_snoc(Seq::<char>::empty(), fp[0]);
        assert(digits_val(fp.subrange(0, 1)) == digit_val(fp[0]));
    }
    if len == 1 {
        proof {
            assert(fp.subrange(0, 1) =~= fp);
        }
        return Some(d0 * 100);
    }
    proof {
        assert(fp[1] == v@[from + 1]);
        assert(is_digit(fp[1]));
    }
    let d1 = (char_code(v[from + 1]) - 48) as u64;
    proof {
        assert(fp.subrange(0, 2) =~= fp.subrange(0, 1).push(fp[1]));
        crate::text::lemma_digits_val_snoc(fp.subrange(0, 1), fp[1]);
        assert(digits_val(fp.subrange(0, 2)) == digit_val(fp[0]) * 10 + digit_val(fp[1]));
    }
    if len == 2 {
        proof {
            assert(fp.subrange(0, 2) =~= fp);
        }
        return Some((d0 * 10 + d1) * 10);
    }
    proof {
        assert(fp[2] == v@[from + 2]);
        assert(is_digit(fp[2]));
    }
    let d2 = (char_code(v[from + 2]) - 48) as u64;
    proof {
        assert(fp.subrange(0, 3) =~= fp.subrange(0, 2).push(fp[2]));
        crate::text::lemma_digits_val_snoc(fp.subrange(0, 2), fp[2]);
    }
    Some(d0 * 100 + d1 * 10 + d2)
}

/// A decimal parse of the whole vector into thousandths, as
/// [`parse_milli_spec`] lays it out.
pub fn parse_milli_vec(v: &Vec<char>) -> (r: Option<i64>)
    ensures
        match parse_milli_spec(v@) {
            Some(n) => r == Some(n as i64),
            None => r is None,
        },
{
    let n = v.len();
    let neg = n >= 1 && v[0] == '-';
    let start: usize = if n >= 1 && (v[0] == '-' || v[0] == '+') {
        1
    } else {
        0
    };
    let ghost t = if start == 1 {
        v@.skip(1)
    } else {
        v@
    };
    proof {
        if start == 0 {
            assert(v@.skip(0) =~= v@);
        }
        assert(t == v@.skip(start as int));
    }
    let dot = crate::text::vec_find_char(v, '.', start);
    let ghost dt = find_char(t, '.');
    proof {
        assert(forall|k: int| 0 <= k < t.len() ==> t[k] == v@[k + start]);
        if dot < n {
            crate::text::lemma_find_char_first(t, '.', dot - start);
            assert(dt == dot - start);
        } else {
            crate::text::lemma_find_char_absent(t, '.');
            assert(dt == -1);
        }
    }
    let ghost ip = if dt == -1 {
        t
    } else {
        t.subrange(0, dt)
    };
    let ghost fp = if dt == -1 {
        Seq::<char>::empty()
    } else {
        t.skip(dt + 1)
    };
    let ip_to = if dot < n {
        dot
    } else {
        n
    };
    proof {
        assert(v@.subrange(start as int, ip_to as int) =~= ip);
    }
    // magnitude cap for the integer digits: one more would overflow
    let ipv: u64 = if start == ip_to {
        proof {
            assert(ip.len() == 0);
        }
        0
    } else {
        match crate::text::parse_digits_exec(v, start, ip_to, 9223372036854775u64) {
            Some(a) => a,
            None => {
                proof {
                    if all_digits(ip) {
                        crate::text::lemma_digits_val_nonneg(ip);
                        assert(digits_val(ip) > 9223372036854775);
                        if all_digits(fp) {
                            lemma_frac_thousandths_bounds(fp);
                            assert(digits_val(ip) * 1000 + frac_thousandths(fp) > i64::MAX);
                        }
                    }
                }
                return None;
            },
        }
    };
    let f: u64 = if dot < n {
        proof {
            assert(v@.subrange(dot + 1, n as int) =~= fp);
        }
        match scan_frac(v, dot + 1, n) {
            Some(f) => f,
            None => {
                return None;
            },
        }
    } else {
        0
    };
    if ip_to == start && !(dot < n && dot + 1 < n) {
        // no digit at all
        proof {
            assert(ip.len() + fp.len() == 0);
        }
        return None;
    }
    proof {
        crate::text::lemma_digits_val_nonneg(ip);
        lemma_frac_thousandths_bounds(fp);
    }
    let mag: u64 = ipv * 1000 + f;
    if mag > i64::MAX as u64 {
        return None;
    }
    if neg {
        Some(-(mag as i64))
    } else {
        Some(mag as i64)
    }
}

/// The thousandths of a digit fraction lie between 0 and 999.
proof fn lemma_frac_thousandths_bounds(fp: Seq<char>)
    requires
        all_digits(fp),
    ensures
        0 <= frac_thousandths(fp) <= 999,
{
    if fp.len() >= 3 {
        let s3 = fp.subrange(0, 3);
        assert(is_digit(fp[0]) && is_digit(fp[1]) && is_digit(fp[2]));
        assert(s3.last() == fp[2]);
        assert(s3.drop_last() =~= fp.subrange(0, 2));
        assert(fp.subrange(0, 2).last() == fp[1]);
        assert(fp.subrange(0, 2).drop_last() =~= fp.subrange(0, 1));
        assert(fp.subrange(0, 1).last() == fp[0]);
        assert(fp.subrange(0, 1).drop_last() =~= Seq::<char>::empty());
        assert(digits_val(Seq::<char>::empty()) == 0);
        assert(digits_val(fp.subrange(0, 1)) == digit_val(fp[0]));
        assert(digits_val(fp.subrange(0, 2)) == digits_val(fp.subrange(0, 1)) * 10 + digit_val(
            fp[1],
        ));
        assert(digits_val(s3) == digits_val(fp.subrange(0, 2)) * 10 + digit_val(fp[2]));
    } else if fp.len() == 2 {
        assert(is_digit(fp[0]) && is_digit(fp[1]));
        assert(fp.last() == fp[1]);
        assert(fp.drop_last() =~= fp.subrange(0, 1));
        assert(fp.subrange(0, 1).last() == fp[0]);
        assert(fp.subrange(0, 1).drop_last() =~= Seq::<char>::empty());
        assert(digits_val(Seq::<char>::empty()) == 0);
        assert(digits_val(fp.subrange(0, 1)) == digit_val(fp[0]));
        assert(digits_val(fp) == digits_val(fp.subrange(0, 1)) * 10 + digit_val(fp[1]));
    } else if fp.len() == 1 {
        assert(is_digit(fp[0]));
        assert(fp.last() == fp[0]);
        assert(fp.drop_last() =~= Seq::<char>::empty());
        assert(digits_val(Seq::<char>::empty()) == 0);
        assert(digits_val(fp) == digit_val(fp[0]));
    }
}

/// A raw sensor string with the known unit suffixes and the degree
/// sign removed and the locale comma turned into a decimal point, in
/// the fixed order the suffixes are stripped.
pub open spec fn normalize_value_spec(s: Seq<char>) -> Seq<char> {
    let s1 = replace_spec(s, seq!['\u{00B0}', 'C'], Seq::<char>::empty());
    let s2 = replace_spec(s1, seq!['%'], Seq::<char>::empty());
    let s3 = replace_spec(s2, seq!['M', 'H', 'z'], Seq::<char>::empty());
    let s4 = replace_spec(s3, seq!['W'], Seq::<char>::empty());
    let s5 = replace_spec(s4, seq!['M', 'B'], Seq::<char>::empty());
    let s6 = replace_spec(s5, seq!['G', 'B'], Seq::<char>::empty());
    replace_spec(s6, seq![','], seq!['.'])
}

/// The numeric value of a raw sensor string, in thousandths: unit
/// suffixes stripped, comma normalized, whitespace trimmed, then
/// parsed; zero whenever the remainder is not a plain decimal number.
pub open spec fn sensor_value_spec(s: Seq<char>) -> int {
    match parse_milli_spec(trim_spec(normalize_value_spec(s))) {
        Some(v) => v,
        None => 0,
    }
}

/// Parses a raw sensor string (`"45,5 °C"`, `"12 W"`, `"3,5 GB"`) into
/// thousandths of its unit; an absent or malformed value yields zero
/// rather than an error.
pub fn parse_sensor_value(s: &str) -> (r: Milli)
    ensures
        r.thousandths as int == sensor_value_spec(s@),
{
    let cs = chars_of(s);
    let empty: Vec<char> = Vec::new();
    let deg_c: Vec<char> = vec!['\u{00B0}', 'C'];
    let pct: Vec<char> = vec!['%'];
    let mhz: Vec<char> = vec!['M', 'H', 'z'];
    let watt: Vec<char> = vec!['W'];
    let mb: Vec<char> = vec!['M', 'B'];
    let gb: Vec<char> = vec!['G', 'B'];
    let comma: Vec<char> = vec![','];
    let dot: Vec<char> = vec!['.'];
    proof {
        assert(deg_c@ =~= seq!['\u{00B0}', 'C']);
        assert(pct@ =~= seq!['%']);
        assert(mhz@ =~= seq!['M', 'H', 'z']);
        assert(watt@ =~= seq!['W']);
        assert(mb@ =~= seq!['M', 'B']);
        assert(gb@ =~= seq!['G', 'B']);
        assert(comma@ =~= seq![',']);
        assert(dot@ =~= seq!['.']);
        assert(empty@ =~= Seq::<char>::empty());
    }
    let s1 = vec_replace(&cs, &deg_c, &empty);
    let s2 = vec_replace(&s1, &pct, &empty);
    let s3 = vec_replace(&s2, &mhz, &empty);
    let s4 = vec_replace(&s3, &watt, &empty);
    let s5 = vec_replace(&s4, &mb, &empty);
    let s6 = vec_replace(&s5, &gb, &empty);
    let s7 = vec_replace(&s6, &comma, &dot);
    let t = vec_trim(&s7);
    proof {
        assert(s1@ == replace_spec(s@, seq!['\u{00B0}', 'C'], Seq::<char>::empty()));
        assert(s7@ == normalize_value_spec(s@));
        assert(t@ == trim_spec(normalize_value_spec(s@)));
        lemma_parse_milli_in_range(t@);
    }
    match parse_milli_vec(&t) {
        Some(v) => Milli { thousandths: v },
        None => Milli { thousandths: 0 },
    }
}

/// A sensor value lies within the symmetric `i64` range.
pub proof fn lemma_sensor_value_in_range(s: Seq<char>)
    ensures
        -(i64::MAX as int) <= sensor_value_spec(s) <= i64::MAX,
{
    lemma_parse_milli_in_range(trim_spec(normalize_value_spec(s)));
}

/// The numeric value of a core-temperature string, in thousandths of a
/// degree: only the degree sign is stripped and the comma normalized
/// before parsing; zero on anything that is not a plain number.
pub open spec fn temp_value_spec(s: Seq<char>) -> int {
    let s1 = replace_spec(s, seq!['\u{00B0}', 'C'], Seq::<char>::empty());
    let s2 = replace_spec(s1, seq![','], seq!['.']);
    match parse_milli_spec(trim_spec(s2)) {
        Some(v) => v,
        None => 0,
    }
}

/// A core-temperature value lies within the symmetric `i64` range.
pub proof fn lemma_temp_value_in_range(s: Seq<char>)
    ensures
        -(i64::MAX as int) <= temp_value_spec(s) <= i64::MAX,
{
    let s1 = replace_spec(s, seq!['\u{00B0}', 'C'], Seq::<char>::empty());
    let s2 = replace_spec(s1, seq![','], seq!['.']);
    lemma_parse_milli_in_range(trim_spec(s2));
}

/// Parses a per-core temperature string into thousandths of a degree.
pub fn parse_temp_value(s: &str) -> (r: Milli)
    ensures
        r.thousandths as int == temp_value_spec(s@),
{
    let cs = chars_of(s);
    let empty: Vec<char> = Vec::new();
    let deg_c: Vec<char> = vec!['\u{00B0}', 'C'];
    let comma: Vec<char> = vec![','];
    let dot: Vec<char> = vec!['.'];
    proof {
        assert(deg_c@ =~= seq!['\u{00B0}', 'C']);
        assert(comma@ =~= seq![',']);
        assert(dot@ =~= seq!['.']);
        assert(empty@ =~= Seq::<char>::empty());
    }
    let s1 = vec_replace(&cs, &deg_c, &empty);
    let s2 = vec_replace(&s1, &comma, &dot);
    let t = vec_trim(&s2);
    proof {
        lemma_parse_milli_in_range(t@);
    }
    match parse_milli_vec(&t) {
        Some(v) => Milli { thousandths: v },
        None => Milli { thousandths: 0 },
    }
}

/// The saturating sum of two `i64` values.
pub fn add_sat_i64(a: i64, b: i64) -> (r: i64)
    ensures
        r as int == sat_i64(a as int + b as int),
{
    match a.checked_add(b) {
        Some(s) => s,
        None => {
            if a >= 0 {
                i64::MAX
            } else {
                i64::MIN
            }
        },
    }
}

/// The gauge ratio of `num` to `den` in permille: a used/total pair of
/// 512 MiB and 1 GiB yields 500.  A nonpositive denominator (an absent
/// total) yields zero rather than an error.
pub fn ratio_permille(num: i64, den: i64) -> (r: i64)
    ensures
        r as int == ratio_permille_spec(num, den),
{
    if den <= 0 {
        return 0;
    }
    let a = abs_u64(num);
    let mag = (a as u128) * 1000 / (den as u128);
    if num >= 0 {
        if mag > i64::MAX as u128 {
            i64::MAX
        } else {
            mag as i64
        }
    } else {
        if mag > i64::MAX as u128 {
            i64::MIN
        } else {
            -(mag as i64)
        }
    }
}

} // verus!
