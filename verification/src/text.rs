//! Character-sequence utilities.
//!
//! The hardware-tree path queries and the sensor-value parser work on
//! plain character sequences: ASCII case folding, substring search,
//! pattern replacement, trimming and decimal parsing/printing.  All of
//! it is specified over `Seq<char>` and verified here.

use vstd::prelude::*;

verus! {

/// Whether `c` is an ASCII upper-case letter.
pub open spec fn is_ascii_upper(c: char) -> bool {
    65 <= c as int <= 90
}

/// The code point of `c` with ASCII upper-case letters folded to lower case.
pub open spec fn fold_char(c: char) -> int {
    if is_ascii_upper(c) {
        c as int + 32
    } else {
        c as int
    }
}

/// Character equality up to ASCII case.
pub open spec fn chars_eq_ci(a: char, b: char) -> bool {
    fold_char(a) == fold_char(b)
}

/// Whether `pat` matches `text` at position `i`, up to ASCII case.
pub open spec fn matches_ci_at(text: Seq<char>, pat: Seq<char>, i: int) -> bool {
    forall|j: int| 0 <= j < pat.len() ==> chars_eq_ci(text[i + j], pat[j])
}

/// Whether `text` contains `pat` as a substring, up to ASCII case.
/// The empty pattern is contained in every text.
pub open spec fn contains_ci(text: Seq<char>, pat: Seq<char>) -> bool {
    exists|i: int| 0 <= i <= text.len() - pat.len() && matches_ci_at(text, pat, i)
}

/// Whether `text` contains `pat` as a substring, character for
/// character.  The empty pattern is contained in every text.
pub open spec fn contains_seq(text: Seq<char>, pat: Seq<char>) -> bool {
    exists|i: int|
        0 <= i <= text.len() - pat.len() && #[trigger] text.subrange(i, i + pat.len()) == pat
}

/// The characters of `s` as a vector, in order.
pub fn chars_of(s: &str) -> (r: Vec<char>)
    ensures
        r@ == s@,
{
    let n = s.unicode_len();
    let mut r: Vec<char> = Vec::new();
    let mut i: usize = 0;
    while i < n
        invariant
            i <= n,
            n == s@.len(),
            r@ == s@.subrange(0, i as int),
        decreases n - i,
    {
        r.push(s.get_char(i));
        proof {
            assert(r@ =~= s@.subrange(0, (i + 1) as int));
        }
        i = i + 1;
    }
    proof {
        assert(r@ =~= s@);
    }
    r
}

/// The code point of `c` as an integer.
pub fn char_code(c: char) -> (r: u32)
    ensures
        r as int == c as int,
{
    c as u32
}

/// The case-folded code point of `c`, executably.
pub fn fold_char_exec(c: char) -> (r: u32)
    ensures
        r as int == fold_char(c),
{
    let u = c as u32;
    if 65 <= u && u <= 90 {
        u + 32
    } else {
        u
    }
}

/// Whether `pat` matches `text` at position `i`, up to ASCII case.
fn matches_ci_at_exec(text: &Vec<char>, pat: &Vec<char>, i: usize) -> (r: bool)
    requires
        i + pat@.len() <= text@.len(),
    ensures
        r == matches_ci_at(text@, pat@, i as int),
{
    let n = text.len();
    let mut j: usize = 0;
    while j < pat.len()
        invariant
            j <= pat@.len(),
            i + pat@.len() <= text@.len(),
            n == text@.len(),
            forall|k: int| 0 <= k < j ==> chars_eq_ci(text@[i + k], pat@[k]),
        decreases pat@.len() - j,
    {
        let a = fold_char_exec(text[i + j]);
        let b = fold_char_exec(pat[j]);
        if a != b {
            return false;
        }
        j = j + 1;
    }
    true
}

/// Whether `text` contains `pat` as a substring, up to ASCII case.
pub fn vec_contains_ci(text: &Vec<char>, pat: &Vec<char>) -> (r: bool)
    ensures
        r == contains_ci(text@, pat@),
{
    if pat.len() == 0 {
        proof {
            assert(matches_ci_at(text@, pat@, 0));
        }
        return true;
    }
    if pat.len() > text.len() {
        return false;
    }
    let bound = text.len() - pat.len();
    let mut i: usize = 0;
    loop
        invariant
            i <= bound + 1,
            pat@.len() >= 1,
            text@.len() <= usize::MAX,
            bound <= text@.len() - 1,
            bound == text@.len() - pat@.len(),
            forall|k: int| 0 <= k < i ==> !matches_ci_at(text@, pat@, k),
        decreases bound + 1 - i,
    {
        if i > bound {
            return false;
        }
        if matches_ci_at_exec(text, pat, i) {
            return true;
        }
        i = i + 1;
    }
}

/// The position of the first occurrence of `c` at or after `start`, or
/// the length of the vector if there is none.
pub fn vec_find_char(v: &Vec<char>, c: char, start: usize) -> (d: usize)
    requires
        start <= v@.len(),
    ensures
        start <= d <= v@.len(),
        d < v@.len() ==> v@[d as int] == c,
        forall|k: int| start <= k < d ==> v@[k] != c,
{
    let n = v.len();
    let mut i: usize = start;
    while i < n
        invariant
            start <= i <= n,
            n == v@.len(),
            forall|k: int| start <= k < i ==> v@[k] != c,
        decreases n - i,
    {
        if v[i] == c {
            return i;
        }
        i = i + 1;
    }
    n
}

/// Copies `v@.subrange(a, b)` into a fresh vector.
pub fn vec_slice(v: &Vec<char>, a: usize, b: usize) -> (r: Vec<char>)
    requires
        a <= b <= v@.len(),
    ensures
        r@ == v@.subrange(a as int, b as int),
{
    let mut r: Vec<char> = Vec::new();
    let mut i: usize = a;
    while i < b
        invariant
            a <= i <= b <= v@.len(),
            r@ == v@.subrange(a as int, i as int),
        decreases b - i,
    {
        r.push(v[i]);
        proof {
            assert(r@ =~= v@.subrange(a as int, (i + 1) as int));
        }
        i = i + 1;
    }
    r
}

/// Whether the two character vectors hold the same sequence.
pub fn vec_chars_eq(a: &Vec<char>, b: &Vec<char>) -> (r: bool)
    ensures
        r == (a@ == b@),
{
    if a.len() != b.len() {
        proof {
            assert(a@ !~= b@);
        }
        return false;
    }
    let mut i: usize = 0;
    while i < a.len()
        invariant
            i <= a@.len(),
            a@.len() == b@.len(),
            forall|k: int| 0 <= k < i ==> a@[k] == b@[k],
        decreases a@.len() - i,
    {
        if a[i] != b[i] {
            return false;
        }
        i = i + 1;
    }
    proof {
        assert(a@ =~= b@);
    }
    true
}

/// Whether `text` contains `pat` as a substring, character for
/// character.
pub fn vec_contains(text: &Vec<char>, pat: &Vec<char>) -> (r: bool)
    ensures
        r == contains_seq(text@, pat@),
{
    if pat.len() == 0 {
        proof {
            assert(text@.subrange(0, 0 + pat@.len() as int) =~= pat@);
        }
        return true;
    }
    if pat.len() > text.len() {
        return false;
    }
    let bound = text.len() - pat.len();
    let mut i: usize = 0;
    loop
        invariant
            i <= bound + 1,
            pat@.len() >= 1,
            text@.len() <= usize::MAX,
            bound <= text@.len() - 1,
            bound == text@.len() - pat@.len(),
            forall|k: int| 0 <= k < i ==> #[trigger] text@.subrange(k, k + pat@.len()) != pat@,
        decreases bound + 1 - i,
    {
        if i > bound {
            return false;
        }
        if match_pat_at(text, pat, i) {
            return true;
        }
        i = i + 1;
    }
}

/// `s` with every non-overlapping occurrence of `pat` replaced by `rep`,
/// scanning left to right.  With an empty pattern, `s` is unchanged.
pub open spec fn replace_spec(s: Seq<char>, pat: Seq<char>, rep: Seq<char>) -> Seq<char>
    decreases s.len(),
{
    if pat.len() == 0 || s.len() < pat.len() {
        s
    } else if s.subrange(0, pat.len() as int) == pat {
        rep + replace_spec(s.skip(pat.len() as int), pat, rep)
    } else {
        seq![s[0]] + replace_spec(s.skip(1), pat, rep)
    }
}

/// Whether `pat` stands at position `i` of `s`, character for character.
fn match_pat_at(s: &Vec<char>, pat: &Vec<char>, i: usize) -> (r: bool)
    requires
        i + pat@.len() <= s@.len(),
    ensures
        r == (s@.subrange(i as int, i + pat@.len()) == pat@),
{
    let n = s.len();
    let mut j: usize = 0;
    while j < pat.len()
        invariant
            j <= pat@.len(),
            i + pat@.len() <= s@.len(),
            n == s@.len(),
            forall|k: int| 0 <= k < j ==> s@[i + k] == pat@[k],
        decreases pat@.len() - j,
    {
        if s[i + j] != pat[j] {
            proof {
                assert(s@.subrange(i as int, i + pat@.len())[j as int] != pat@[j as int]);
            }
            return false;
        }
        j = j + 1;
    }
    proof {
        assert(s@.subrange(i as int, i + pat@.len()) =~= pat@);
    }
    true
}

/// `s` with every occurrence of `pat` replaced by `rep`.
pub fn vec_replace(s: &Vec<char>, pat: &Vec<char>, rep: &Vec<char>) -> (r: Vec<char>)
    requires
        pat@.len() >= 1,
    ensures
        r@ == replace_spec(s@, pat@, rep@),
{
    let n = s.len();
    let mut out: Vec<char> = Vec::new();
    let mut i: usize = 0;
    proof {
        assert(s@.skip(0) =~= s@);
        assert(out@ + replace_spec(s@, pat@, rep@) =~= replace_spec(s@, pat@, rep@));
    }
    while i < n
        invariant
            i <= n,
            n == s@.len(),
            pat@.len() >= 1,
            replace_spec(s@, pat@, rep@) == out@ + replace_spec(s@.skip(i as int), pat@, rep@),
        decreases n - i,
    {
        if pat.len() <= n - i && match_pat_at(s, pat, i) {
            proof {
                assert(s@.skip(i as int).subrange(0, pat@.len() as int) =~= s@.subrange(
                    i as int,
                    i + pat@.len(),
                ));
                assert(s@.skip(i as int).skip(pat@.len() as int) =~= s@.skip(
                    i + pat@.len(),
                ));
            }
            let ghost out0 = out@;
            let mut k: usize = 0;
            while k < rep.len()
                invariant
                    k <= rep@.len(),
                    out@ == out0 + rep@.subrange(0, k as int),
                decreases rep@.len() - k,
            {
                out.push(rep[k]);
                proof {
                    assert(out@ =~= out0 + rep@.subrange(0, (k + 1) as int));
                }
                k = k + 1;
            }
            proof {
                assert(rep@.subrange(0, rep@.len() as int) =~= rep@);
                assert((out0 + rep@) + replace_spec(s@.skip(i + pat@.len()), pat@, rep@) =~= out0
                    + (rep@ + replace_spec(s@.skip(i + pat@.len()), pat@, rep@)));
            }
            i = i + pat.len();
        } else {
            proof {
                if pat@.len() <= n - i {
                    assert(s@.skip(i as int).subrange(0, pat@.len() as int) =~= s@.subrange(
                        i as int,
                        i + pat@.len(),
                    ));
                } else {
                    assert(s@.skip(i as int).len() < pat@.len());
                }
                assert(s@.skip(i as int).skip(1) =~= s@.skip(i + 1));
                assert(seq![s@[i as int]] + replace_spec(s@.skip(i + 1), pat@, rep@) =~= seq![
                    s@[i as int],
                ] + replace_spec(s@.skip(i + 1), pat@, rep@));
                // with a tail shorter than the pattern, the spec keeps the
                // tail unchanged, which equals taking one character at a time
                if s@.skip(i as int).len() < pat@.len() {
                    assert(s@.skip(i as int) =~= seq![s@[i as int]] + s@.skip(i + 1));
                    assert(replace_spec(s@.skip(i + 1), pat@, rep@) == s@.skip(i + 1));
                }
                assert((out@ + seq![s@[i as int]]) + replace_spec(s@.skip(i + 1), pat@, rep@)
                    =~= out@ + (seq![s@[i as int]] + replace_spec(s@.skip(i + 1), pat@, rep@)));
            }
            out.push(s[i]);
            i = i + 1;
        }
    }
    proof {
        assert(s@.skip(n as int) =~= Seq::<char>::empty());
        assert(out@ + Seq::<char>::empty() =~= out@);
    }
    out
}

/// Whether `c` is one of the ASCII whitespace characters that trimming strips.
pub open spec fn is_space(c: char) -> bool {
    c == ' ' || c == '\t' || c == '\n' || c == '\r'
}

/// `s` without its leading whitespace.
pub open spec fn trim_start_spec(s: Seq<char>) -> Seq<char>
    decreases s.len(),
{
    if s.len() > 0 && is_space(s[0]) {
        trim_start_spec(s.skip(1))
    } else {
        s
    }
}

/// `s` without its trailing whitespace.
pub open spec fn trim_end_spec(s: Seq<char>) -> Seq<char>
    decreases s.len(),
{
    if s.len() > 0 && is_space(s.last()) {
        trim_end_spec(s.drop_last())
    } else {
        s
    }
}

/// `s` without leading and trailing whitespace.
pub open spec fn trim_spec(s: Seq<char>) -> Seq<char> {
    trim_end_spec(trim_start_spec(s))
}

fn is_space_exec(c: char) -> (r: bool)
    ensures
        r == is_space(c),
{
    c == ' ' || c == '\t' || c == '\n' || c == '\r'
}

/// `s` without leading and trailing ASCII whitespace.
pub fn vec_trim(s: &Vec<char>) -> (r: Vec<char>)
    ensures
        r@ == trim_spec(s@),
{
    let n = s.len();
    let mut a: usize = 0;
    proof {
        assert(s@.skip(0) =~= s@);
    }
    while a < n && is_space_exec(s[a])
        invariant
            a <= n,
            n == s@.len(),
            trim_start_spec(s@) == trim_start_spec(s@.skip(a as int)),
        decreases n - a,
    {
        proof {
            assert(s@.skip(a as int).skip(1) =~= s@.skip(a + 1));
        }
        a = a + 1;
    }
    proof {
        assert(trim_start_spec(s@) == s@.skip(a as int));
    }
    let mut b: usize = n;
    while b > a && is_space_exec(s[b - 1])
        invariant
            a <= b <= n,
            n == s@.len(),
            trim_start_spec(s@) == s@.skip(a as int),
            trim_end_spec(s@.skip(a as int)) == trim_end_spec(s@.subrange(a as int, b as int)),
        decreases b,
    {
        proof {
            assert(s@.subrange(a as int, b as int).drop_last() =~= s@.subrange(
                a as int,
                b - 1,
            ));
        }
        b = b - 1;
    }
    proof {
        if b == a {
            assert(s@.subrange(a as int, b as int).len() == 0);
        }
        assert(trim_end_spec(s@.subrange(a as int, b as int)) == s@.subrange(a as int, b as int));
    }
    let mut r: Vec<char> = Vec::new();
    let mut i: usize = a;
    while i < b
        invariant
            a <= i <= b <= n,
            n == s@.len(),
            r@ == s@.subrange(a as int, i as int),
        decreases b - i,
    {
        r.push(s[i]);
        proof {
            assert(r@ =~= s@.subrange(a as int, (i + 1) as int));
        }
        i = i + 1;
    }
    r
}

/// Whether `c` is an ASCII decimal digit.
pub open spec fn is_digit(c: char) -> bool {
    48 <= c as int <= 57
}

/// The numeric value of a digit character.
pub open spec fn digit_val(c: char) -> int {
    c as int - 48
}

/// Whether every character of `s` is a decimal digit.
pub open spec fn all_digits(s: Seq<char>) -> bool {
    forall|i: int| 0 <= i < s.len() ==> is_digit(s[i])
}

/// The value of a digit string read in base ten.
pub open spec fn digits_val(s: Seq<char>) -> int
    decreases s.len(),
{
    if s.len() == 0 {
        0
    } else {
        digits_val(s.drop_last()) * 10 + digit_val(s.last())
    }
}

/// A digit string never has a negative value.
pub proof fn lemma_digits_val_nonneg(s: Seq<char>)
    requires
        all_digits(s),
    ensures
        digits_val(s) >= 0,
    decreases s.len(),
{
    if s.len() > 0 {
        assert(all_digits(s.drop_last()));
        lemma_digits_val_nonneg(s.drop_last());
    }
}

/// A digit string is worth at least any of its prefixes.
pub proof fn lemma_digits_val_prefix_le(s: Seq<char>, k: int)
    requires
        all_digits(s),
        0 <= k <= s.len(),
    ensures
        digits_val(s.subrange(0, k)) <= digits_val(s),
    decreases s.len(),
{
    if k == s.len() {
        assert(s.subrange(0, k) =~= s);
    } else {
        assert(all_digits(s.drop_last()));
        assert(s.subrange(0, k) =~= s.drop_last().subrange(0, k));
        lemma_digits_val_prefix_le(s.drop_last(), k);
        lemma_digits_val_nonneg(s.drop_last());
    }
}

/// Appending one digit multiplies the value by ten and adds the digit.
pub proof fn lemma_digits_val_snoc(s: Seq<char>, c: char)
    ensures
        digits_val(s.push(c)) == digits_val(s) * 10 + digit_val(c),
{
    assert(s.push(c).drop_last() =~= s);
}

/// The position of the first occurrence of `c` in `s`, or -1 if absent.
pub open spec fn find_char(s: Seq<char>, c: char) -> int
    decreases s.len(),
{
    if s.len() == 0 {
        -1
    } else if s[0] == c {
        0
    } else {
        let r = find_char(s.skip(1), c);
        if r == -1 {
            -1
        } else {
            r + 1
        }
    }
}

/// `find_char` yields -1 or a position inside the sequence.
pub proof fn lemma_find_char_range(s: Seq<char>, c: char)
    ensures
        find_char(s, c) == -1 || (0 <= find_char(s, c) < s.len() && s[find_char(s, c)] == c),
    decreases s.len(),
{
    if s.len() > 0 && s[0] != c {
        lemma_find_char_range(s.skip(1), c);
    }
}

/// `find_char` returns the first occurrence.
pub proof fn lemma_find_char_first(s: Seq<char>, c: char, i: int)
    requires
        0 <= i < s.len(),
        s[i] == c,
        forall|k: int| 0 <= k < i ==> s[k] != c,
    ensures
        find_char(s, c) == i,
    decreases i,
{
    if i > 0 {
        assert(forall|k: int| 0 <= k < i - 1 ==> s.skip(1)[k] == s[k + 1]);
        lemma_find_char_first(s.skip(1), c, i - 1);
    }
}

/// `find_char` reports absence as -1.
pub proof fn lemma_find_char_absent(s: Seq<char>, c: char)
    requires
        forall|k: int| 0 <= k < s.len() ==> s[k] != c,
    ensures
        find_char(s, c) == -1,
    decreases s.len(),
{
    if s.len() > 0 {
        assert(forall|k: int| 0 <= k < s.len() - 1 ==> s.skip(1)[k] == s[k + 1]);
        lemma_find_char_absent(s.skip(1), c);
    }
}

/// An unsigned decimal parse: an optional leading `+`, then at least
/// one digit, with a value of at most `max`; anything else fails.
pub open spec fn parse_uint_spec(s: Seq<char>, max: int) -> Option<int> {
    let t = if s.len() >= 1 && s[0] == '+' {
        s.skip(1)
    } else {
        s
    };
    if t.len() >= 1 && all_digits(t) && digits_val(t) <= max {
        Some(digits_val(t))
    } else {
        None
    }
}

/// A successful unsigned parse lies between 0 and `max`.
pub proof fn lemma_parse_uint_in_range(s: Seq<char>, max: int)
    ensures
        parse_uint_spec(s, max) matches Some(n) ==> 0 <= n <= max,
{
    let t = if s.len() >= 1 && s[0] == '+' {
        s.skip(1)
    } else {
        s
    };
    if t.len() >= 1 && all_digits(t) {
        lemma_digits_val_nonneg(t);
    }
}

/// A signed decimal parse: an optional sign, then at least one digit,
/// with a value within `min ..= max`; anything else fails.
pub open spec fn parse_sint_spec(s: Seq<char>, min: int, max: int) -> Option<int> {
    if s.len() >= 1 && s[0] == '-' {
        let t = s.skip(1);
        if t.len() >= 1 && all_digits(t) && -digits_val(t) >= min {
            Some(-digits_val(t))
        } else {
            None
        }
    } else {
        parse_uint_spec(s, max)
    }
}

/// The 32-bit signed parse is the 64-bit one restricted to its range.
pub proof fn lemma_parse_sint_narrow(s: Seq<char>)
    ensures
        ({
            let wide = parse_sint_spec(s, i64::MIN as int, i64::MAX as int);
            let narrow = parse_sint_spec(s, i32::MIN as int, i32::MAX as int);
            match narrow {
                Some(n) => wide == Some(n) && i32::MIN <= n <= i32::MAX,
                None => !(wide matches Some(v) && i32::MIN <= v <= i32::MAX),
            }
        }),
{
    if s.len() >= 1 && s[0] == '-' {
        let t = s.skip(1);
        if t.len() >= 1 && all_digits(t) {
            lemma_digits_val_nonneg(t);
        }
    } else {
        let t = if s.len() >= 1 && s[0] == '+' {
            s.skip(1)
        } else {
            s
        };
        if t.len() >= 1 && all_digits(t) {
            lemma_digits_val_nonneg(t);
        }
    }
}

/// Parses the digit run `v@.subrange(from, to)`, accumulating left to
/// right; fails on a non-digit, an empty run, or a value above `max`.
pub(crate) fn parse_digits_exec(v: &Vec<char>, from: usize, to: usize, max: u64) -> (r: Option<
    u64,
>)
    requires
        from <= to <= v@.len(),
        9 <= max,
    ensures
        ({
            let t = v@.subrange(from as int, to as int);
            match r {
                Some(n) => t.len() >= 1 && all_digits(t) && digits_val(t) == n as int && n <= max,
                None => !(t.len() >= 1 && all_digits(t) && digits_val(t) <= max as int),
            }
        }),
{
    let ghost t = v@.subrange(from as int, to as int);
    let n = to;
    if from == n {
        return None;
    }
    let mut acc: u64 = 0;
    let mut i: usize = from;
    while i < n
        invariant
            from <= i <= n,
            n <= v@.len(),
            n == to,
            t == v@.subrange(from as int, to as int),
            9 <= max,
            all_digits(t.subrange(0, i - from)),
            acc as int == digits_val(t.subrange(0, i - from)),
            acc <= max,
        decreases n - i,
    {
        let c = v[i];
        let u = char_code(c);
        if u < 48 || u > 57 {
            proof {
                assert(!is_digit(t[i - from]));
            }
            return None;
        }
        let d = (u - 48) as u64;
        proof {
            assert(t[i - from] == v@[i as int]);
            assert(d as int == digit_val(t[i - from]));
            assert(t.subrange(0, i + 1 - from) =~= t.subrange(0, i - from).push(t[i - from]));
            lemma_digits_val_snoc(t.subrange(0, i - from), t[i - from]);
        }
        if acc > (max - d) / 10 {
            proof {
                let pre = t.subrange(0, i + 1 - from);
                assert(digits_val(pre) == acc as int * 10 + d as int);
                assert(acc as int >= (max as int - d as int) / 10 + 1);
                assert(10 * ((max as int - d as int) / 10) > max as int - d as int - 10);
                assert(digits_val(pre) > max as int);
                if all_digits(t) {
                    lemma_digits_val_prefix_le(t, i + 1 - from);
                }
            }
            return None;
        }
        proof {
            assert(10 * ((max as int - d as int) / 10) <= max as int - d as int);
        }
        acc = acc * 10 + d;
        i = i + 1;
    }
    proof {
        assert(t.subrange(0, n - from) =~= t);
    }
    Some(acc)
}

/// An unsigned decimal parse of the whole vector, into a `usize`.
pub fn parse_usize_vec(v: &Vec<char>) -> (r: Option<usize>)
    ensures
        match parse_uint_spec(v@, usize::MAX as int) {
            Some(n) => r == Some(n as usize),
            None => r is None,
        },
{
    let n = v.len();
    let from: usize = if n >= 1 && v[0] == '+' {
        1
    } else {
        0
    };
    proof {
        assert(v@.subrange(from as int, n as int) =~= v@.skip(from as int));
        if from == 0 {
            assert(v@.skip(0) =~= v@);
        }
    }
    match parse_digits_exec(v, from, n, usize::MAX as u64) {
        Some(a) => Some(a as usize),
        None => None,
    }
}

/// A signed decimal parse of the whole vector, into an `i64`.
pub fn parse_i64_vec(v: &Vec<char>) -> (r: Option<i64>)
    ensures
        match parse_sint_spec(v@, i64::MIN as int, i64::MAX as int) {
            Some(n) => r == Some(n as i64),
            None => r is None,
        },
{
    let n = v.len();
    if n >= 1 && v[0] == '-' {
        proof {
            assert(v@.subrange(1, n as int) =~= v@.skip(1));
        }
        match parse_digits_exec(v, 1, n, i64::MAX as u64 + 1) {
            Some(a) => {
                proof {
                    assert(-(a as int) >= i64::MIN as int);
                }
                if a == i64::MAX as u64 + 1 {
                    Some(i64::MIN)
                } else {
                    Some(-(a as i64))
                }
            },
            None => None,
        }
    } else {
        let from: usize = if n >= 1 && v[0] == '+' {
            1
        } else {
            0
        };
        proof {
            assert(v@.subrange(from as int, n as int) =~= v@.skip(from as int));
            if from == 0 {
                assert(v@.skip(0) =~= v@);
            }
        }
        match parse_digits_exec(v, from, n, i64::MAX as u64) {
            Some(a) => Some(a as i64),
            None => None,
        }
    }
}

/// The decimal digit string of a nonnegative integer, most significant
/// digit first, without leading zeros (zero itself prints as one digit).
pub open spec fn dec_digits(n: nat) -> Seq<char>
    decreases n,
{
    if n < 10 {
        seq![(48 + n) as char]
    } else {
        dec_digits(n / 10).push((48 + n % 10) as char)
    }
}

/// The one-character string of a single decimal digit.
fn digit_str(d: u64) -> (r: &'static str)
    requires
        d < 10,
    ensures
        r@ == seq![(48 + d as int) as char],
{
    proof {
        reveal_strlit("0");
        reveal_strlit("1");
        reveal_strlit("2");
        reveal_strlit("3");
        reveal_strlit("4");
        reveal_strlit("5");
        reveal_strlit("6");
        reveal_strlit("7");
        reveal_strlit("8");
        reveal_strlit("9");
    }
    let r = if d == 0 {
        "0"
    } else if d == 1 {
        "1"
    } else if d == 2 {
        "2"
    } else if d == 3 {
        "3"
    } else if d == 4 {
        "4"
    } else if d == 5 {
        "5"
    } else if d == 6 {
        "6"
    } else if d == 7 {
        "7"
    } else {
        if d == 8 {
            "8"
        } else {
            "9"
        }
    };
    proof {
        assert(r@ =~= seq![(48 + d as int) as char]);
    }
    r
}

/// The decimal digit string of `n`, as a fresh string.
pub fn u64_to_string(n: u64) -> (r: String)
    ensures
        r@ == dec_digits(n as nat),
    decreases n,
{
    if n < 10 {
        let r = String::from_str(digit_str(n));
        r
    } else {
        let mut r = u64_to_string(n / 10);
        r.append(digit_str(n % 10));
        proof {
            assert(dec_digits((n / 10) as nat) + seq![(48 + (n % 10) as int) as char]
                =~= dec_digits((n / 10) as nat).push((48 + (n as nat) % 10) as char));
        }
        r
    }
}

} // verus!
