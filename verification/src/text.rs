//! Character-level text utilities: ASCII case mapping, decimal parsing
//! and rendering, and path name splitting.  All string contents are
//! specified over their `Seq<char>` views.

use vstd::prelude::*;
use vstd::string::*;

verus! {

/// `c` is an ASCII decimal digit.
pub open spec fn is_digit(c: char) -> bool {
    48 <= c as u32 <= 57
}

/// Numeric value of an ASCII digit.
pub open spec fn digit_val(c: char) -> nat
    recommends
        is_digit(c),
{
    (c as u32 - 48) as nat
}

/// The ASCII digit character for a value below ten.
pub open spec fn digit_char(d: nat) -> char
    recommends
        d < 10,
{
    (((d + 48) as u8) as char)
}

/// Every character of `s` is an ASCII digit.
pub open spec fn all_digits(s: Seq<char>) -> bool {
    forall|i: int| 0 <= i < s.len() ==> is_digit(s[i])
}

/// Value of a digit string read in base ten, most significant first.
pub open spec fn val_of(s: Seq<char>) -> nat
    decreases s.len(),
{
    if s.len() == 0 {
        0
    } else {
        val_of(s.drop_last()) * 10 + digit_val(s.last())
    }
}

/// Base-ten rendering of `n`, without leading zeros (a lone zero for 0).
pub open spec fn dec_seq(n: nat) -> Seq<char>
    decreases n,
{
    if n < 10 {
        seq![digit_char(n)]
    } else {
        dec_seq(n / 10).push(digit_char(n % 10))
    }
}

/// ASCII lowercase of one character; anything but `A`..`Z` is unchanged.
pub open spec fn lower_char(c: char) -> char {
    if 65 <= c as u32 <= 90 {
        (((c as u32 + 32) as u8) as char)
    } else {
        c
    }
}

/// ASCII uppercase of one character; anything but `a`..`z` is unchanged.
pub open spec fn upper_char(c: char) -> char {
    if 97 <= c as u32 <= 122 {
        (((c as u32 - 32) as u8) as char)
    } else {
        c
    }
}

/// ASCII lowercase, character by character.
pub open spec fn lower_seq(s: Seq<char>) -> Seq<char> {
    s.map_values(|c: char| lower_char(c))
}

/// ASCII uppercase, character by character.
pub open spec fn upper_seq(s: Seq<char>) -> Seq<char> {
    s.map_values(|c: char| upper_char(c))
}

/// The characters of `s`, as a vector.
pub fn string_to_chars(s: &str) -> (r: Vec<char>)
    ensures
        r@ == s@,
{
    let n = s.unicode_len();
    let mut v: Vec<char> = Vec::new();
    let mut i: usize = 0;
    while i < n
        invariant
            i <= n,
            n == s@.len(),
            v@ == s@.take(i as int),
        decreases n - i,
    {
        let c = s.get_char(i);
        v.push(c);
        i = i + 1;
        proof {
            assert(v@ =~= s@.take(i as int));
        }
    }
    proof {
        assert(s@.take(n as int) =~= s@);
    }
    v
}

/// Relies on `String`'s `FromIterator<char>` (through `Iterator::collect`):
/// collecting characters yields the string of exactly those characters, in
/// order.
#[verifier::external_body]
pub(crate) fn chars_to_string(v: &Vec<char>) -> (r: String)
    ensures
        r@ == v@,
{
    v.iter().collect()
}

fn lower_char_exec(c: char) -> (r: char)
    ensures
        r == lower_char(c),
{
    let u = c as u32;
    if 65 <= u && u <= 90 {
        ((u + 32) as u8) as char
    } else {
        c
    }
}

fn upper_char_exec(c: char) -> (r: char)
    ensures
        r == upper_char(c),
{
    let u = c as u32;
    if 97 <= u && u <= 122 {
        ((u - 32) as u8) as char
    } else {
        c
    }
}

/// ASCII-lowercase every character of `s`.
pub fn ascii_lowercase(s: &str) -> (r: String)
    ensures
        r@ == lower_seq(s@),
{
    let chars = string_to_chars(s);
    let mut out: Vec<char> = Vec::new();
    let mut i: usize = 0;
    while i < chars.len()
        invariant
            i <= chars.len(),
            chars@ == s@,
            out@ == lower_seq(s@.take(i as int)),
        decreases chars.len() - i,
    {
        let c = lower_char_exec(chars[i]);
        out.push(c);
        i = i + 1;
        proof {
            assert(out@ =~= lower_seq(s@.take(i as int)));
        }
    }
    proof {
        assert(lower_seq(s@.take(chars@.len() as int)) =~= lower_seq(s@));
    }
    chars_to_string(&out)
}

/// ASCII-uppercase every character of `s`.
pub fn ascii_uppercase(s: &str) -> (r: String)
    ensures
        r@ == upper_seq(s@),
{
    let chars = string_to_chars(s);
    let mut out: Vec<char> = Vec::new();
    let mut i: usize = 0;
    while i < chars.len()
        invariant
            i <= chars.len(),
            chars@ == s@,
            out@ == upper_seq(s@.take(i as int)),
        decreases chars.len() - i,
    {
        let c = upper_char_exec(chars[i]);
        out.push(c);
        i = i + 1;
        proof {
            assert(out@ =~= upper_seq(s@.take(i as int)));
        }
    }
    proof {
        assert(upper_seq(s@.take(chars@.len() as int)) =~= upper_seq(s@));
    }
    chars_to_string(&out)
}

/// String equality over views.
pub fn str_eq(a: &str, b: &str) -> (r: bool)
    ensures
        r == (a@ == b@),
{
    let sa: String = a.to_owned();
    let sb: String = b.to_owned();
    sa == sb
}

/// The value of a digit prefix never exceeds the value of the whole
/// digit string.
pub proof fn lemma_val_of_prefix_le(s: Seq<char>, i: int)
    requires
        0 <= i <= s.len(),
    ensures
        val_of(s.take(i)) <= val_of(s),
    decreases s.len() - i,
{
    if i == s.len() {
        assert(s.take(i) =~= s);
    } else {
        assert(s.take(i + 1).drop_last() =~= s.take(i));
        assert(val_of(s.take(i + 1)) == val_of(s.take(i)) * 10 + digit_val(s[i]));
        lemma_val_of_prefix_le(s, i + 1);
    }
}

/// Parse a nonempty all-digit string as a base-ten number no larger than
/// `max`.  Returns `None` exactly when the string is empty, holds a
/// non-digit, or its value exceeds `max`.
pub fn parse_digits_bounded(s: &str, max: u64) -> (r: Option<u64>)
    ensures
        match r {
            Some(v) => s@.len() > 0 && all_digits(s@) && v == val_of(s@) && v <= max,
            None => !(s@.len() > 0 && all_digits(s@) && val_of(s@) <= max),
        },
{
    let chars = string_to_chars(s);
    let n = chars.len();
    if n == 0 {
        return None;
    }
    let mut v: u64 = 0;
    let mut i: usize = 0;
    while i < n
        invariant
            i <= n,
            n == chars@.len(),
            chars@ == s@,
            all_digits(s@.take(i as int)),
            v == val_of(s@.take(i as int)),
            v <= max,
        decreases n - i,
    {
        let u = chars[i] as u32;
        if u < 48 || u > 57 {
            assert(!is_digit(s@[i as int]));
            return None;
        }
        let d = (u - 48) as u64;
        proof {
            assert(s@.take(i as int + 1).drop_last() =~= s@.take(i as int));
            assert(val_of(s@.take(i as int + 1)) == val_of(s@.take(i as int)) * 10 + digit_val(
                s@[i as int],
            ));
        }
        if d > max {
            proof {
                assert(val_of(s@.take(i as int + 1)) > max);
                lemma_val_of_prefix_le(s@, i as int + 1);
            }
            return None;
        }
        if v > (max - d) / 10 {
            proof {
                let t = (max - d) as int;
                assert(v * 10 + d > max) by (nonlinear_arith)
                    requires
                        v > t / 10,
                        t == max - d,
                        0 <= d < 10,
                        v >= 0,
                ;
                lemma_val_of_prefix_le(s@, i as int + 1);
            }
            return None;
        }
        proof {
            let t = (max - d) as int;
            assert(v * 10 + d <= max) by (nonlinear_arith)
                requires
                    v <= t / 10,
                    t == max - d,
                    0 <= d < 10,
                    v >= 0,
            ;
        }
        v = v * 10 + d;
        i = i + 1;
        proof {
            assert(all_digits(s@.take(i as int)));
        }
    }
    proof {
        assert(s@.take(n as int) =~= s@);
    }
    Some(v)
}

/// Append the base-ten rendering of `n` to `v`.
pub fn push_dec_u64(v: &mut Vec<char>, n: u64)
    ensures
        final(v)@ == old(v)@ + dec_seq(n as nat),
    decreases n,
{
    if n < 10 {
        let c = ((n as u8) + 48) as char;
        proof {
            assert(c == digit_char(n as nat));
            assert(dec_seq(n as nat) =~= seq![digit_char(n as nat)]);
        }
        v.push(c);
        proof {
            assert(v@ =~= old(v)@ + dec_seq(n as nat));
        }
    } else {
        push_dec_u64(v, n / 10);
        let d = n % 10;
        let c = ((d as u8) + 48) as char;
        proof {
            assert(c == digit_char((n % 10) as nat));
        }
        v.push(c);
        proof {
            assert(v@ =~= old(v)@ + dec_seq(n as nat));
        }
    }
}

/// Base-ten rendering of `n` as a string.
pub fn u64_to_string(n: u64) -> (r: String)
    ensures
        r@ == dec_seq(n as nat),
{
    let mut v: Vec<char> = Vec::new();
    push_dec_u64(&mut v, n);
    chars_to_string(&v)
}

/// Index of the first `.` in `s` at or after `i`; `s.len()` when absent.
pub open spec fn first_dot(s: Seq<char>, i: int) -> int
    decreases s.len() - i,
    when 0 <= i <= s.len()
{
    if i >= s.len() {
        s.len() as int
    } else if s[i] == '.' {
        i
    } else {
        first_dot(s, i + 1)
    }
}

/// Milliseconds contributed by the fractional digits of a duration in
/// seconds; only the first three digits carry weight.
pub open spec fn frac_ms(f: Seq<char>) -> nat {
    if f.len() == 0 {
        0
    } else if f.len() == 1 {
        digit_val(f[0]) * 100
    } else if f.len() == 2 {
        digit_val(f[0]) * 100 + digit_val(f[1]) * 10
    } else {
        digit_val(f[0]) * 100 + digit_val(f[1]) * 10 + digit_val(f[2])
    }
}

/// A duration, given in seconds as `digits` or `digits.digits` (the
/// integer part nonempty), read as a whole number of milliseconds;
/// fractional digits past the third are ignored.  `None` for any other
/// shape.
pub open spec fn duration_ms_spec(s: Seq<char>) -> Option<int> {
    let p = first_dot(s, 0);
    if p == s.len() {
        if s.len() > 0 && all_digits(s) {
            Some((val_of(s) * 1000) as int)
        } else {
            None
        }
    } else {
        let ip = s.take(p);
        let fp = s.skip(p + 1);
        if ip.len() > 0 && all_digits(ip) && all_digits(fp) {
            Some((val_of(ip) * 1000 + frac_ms(fp)) as int)
        } else {
            None
        }
    }
}

proof fn lemma_first_dot_from(s: Seq<char>, i: int, p: int)
    requires
        0 <= i <= p <= s.len(),
        forall|j: int| i <= j < p ==> s[j] != '.',
        p == s.len() || s[p] == '.',
    ensures
        first_dot(s, i) == p,
    decreases p - i,
{
    if i < p {
        lemma_first_dot_from(s, i + 1, p);
    }
}

/// Parse a probe duration string into milliseconds, per
/// `duration_ms_spec`.  `None` when the string has another shape or the
/// value does not fit.
pub fn parse_duration_ms(s: &str) -> (r: Option<u64>)
    ensures
        match r {
            Some(v) => duration_ms_spec(s@) == Some(v as int),
            None => !(duration_ms_spec(s@) matches Some(m) && m <= u64::MAX),
        },
{
    let chars = string_to_chars(s);
    let n = chars.len();
    let mut p: usize = n;
    let mut i: usize = 0;
    while i < n
        invariant
            i <= n,
            n == chars@.len(),
            chars@ == s@,
            (p == n && (forall|j: int| 0 <= j < i ==> s@[j] != '.')) || (p < i && s@[p as int]
                == '.' && (forall|j: int| 0 <= j < p ==> s@[j] != '.')),
        decreases n - i,
    {
        if p == n && chars[i] == '.' {
            p = i;
        }
        i = i + 1;
    }
    proof {
        lemma_first_dot_from(s@, 0, p as int);
    }
    if p == n {
        match parse_digits_bounded(s, u64::MAX / 1000) {
            Some(v) => {
                proof {
                    let t = u64::MAX as int;
                    assert(v * 1000 <= t) by (nonlinear_arith)
                        requires
                            0 <= v <= t / 1000,
                            t > 0,
                    ;
                }
                Some(v * 1000)
            },
            None => {
                proof {
                    if s@.len() > 0 && all_digits(s@) {
                        let t = u64::MAX as int;
                        let w = val_of(s@) as int;
                        assert(w * 1000 > t) by (nonlinear_arith)
                            requires
                                w > t / 1000,
                                t > 0,
                        ;
                    }
                }
                None
            },
        }
    } else {
        let ghost fp = s@.skip(p as int + 1);
        // the fractional part must be all digits
        let mut k: usize = p + 1;
        while k < n
            invariant
                p < k <= n,
                n == chars@.len(),
                chars@ == s@,
                first_dot(s@, 0) == p as int,
                forall|j: int| p < j < k ==> is_digit(s@[j]),
                fp == s@.skip(p as int + 1),
            decreases n - k,
        {
            let u = chars[k] as u32;
            if u < 48 || u > 57 {
                proof {
                    assert(fp[k - p - 1] == s@[k as int]);
                    assert(!all_digits(fp));
                }
                return None;
            }
            k = k + 1;
        }
        proof {
            assert(forall|j: int| 0 <= j < fp.len() ==> fp[j] == s@[p + 1 + j]);
            assert(all_digits(fp));
        }
        // milliseconds from the first three fractional digits
        let fl = n - (p + 1);
        let mut frac: u64 = 0;
        if fl >= 1 {
            frac = frac + ((chars[p + 1] as u32 - 48) as u64) * 100;
        }
        if fl >= 2 {
            frac = frac + ((chars[p + 2] as u32 - 48) as u64) * 10;
        }
        if fl >= 3 {
            frac = frac + ((chars[p + 3] as u32 - 48) as u64);
        }
        proof {
            assert(frac == frac_ms(fp));
            assert(frac <= 999);
        }
        let int_str = s.substring_char(0, p);
        proof {
            assert(int_str@ =~= s@.take(p as int));
        }
        let max_int = (u64::MAX - frac) / 1000;
        match parse_digits_bounded(int_str, max_int) {
            Some(v) => {
                proof {
                    let t = (u64::MAX - frac) as int;
                    assert(v * 1000 <= t) by (nonlinear_arith)
                        requires
                            0 <= v <= t / 1000,
                            t >= 0,
                    ;
                }
                Some(v * 1000 + frac)
            },
            None => {
                proof {
                    let ip = s@.take(p as int);
                    if ip.len() > 0 && all_digits(ip) {
                        let t = (u64::MAX - frac) as int;
                        let w = val_of(ip) as int;
                        assert(w * 1000 > t) by (nonlinear_arith)
                            requires
                                w > t / 1000,
                                t >= 0,
                        ;
                    }
                }
                None
            },
        }
    }
}

/// Index of the last occurrence of `c` in `s`, or -1 if absent.
pub open spec fn last_pos(s: Seq<char>, c: char) -> int
    decreases s.len(),
{
    if s.len() == 0 {
        -1
    } else if s.last() == c {
        s.len() - 1
    } else {
        last_pos(s.drop_last(), c)
    }
}

/// Last occurrence of `c` in `s`, or `None` when absent.
pub fn find_last(chars: &Vec<char>, c: char) -> (r: Option<usize>)
    ensures
        match r {
            Some(k) => last_pos(chars@, c) == k && k < chars@.len(),
            None => last_pos(chars@, c) == -1,
        },
{
    let n = chars.len();
    let mut found: Option<usize> = None;
    let mut i: usize = 0;
    while i < n
        invariant
            i <= n,
            n == chars@.len(),
            match found {
                Some(k) => last_pos(chars@.take(i as int), c) == k && k < i,
                None => last_pos(chars@.take(i as int), c) == -1,
            },
        decreases n - i,
    {
        proof {
            assert(chars@.take(i as int + 1).drop_last() =~= chars@.take(i as int));
        }
        if chars[i] == c {
            found = Some(i);
        }
        i = i + 1;
    }
    proof {
        assert(chars@.take(n as int) =~= chars@);
    }
    found
}

/// The extension of a path: what follows the last `.` of the final path
/// component, provided that dot is neither the component's first
/// character (a hidden file has no extension) nor before the last `/`.
pub open spec fn spec_extension(s: Seq<char>) -> Option<Seq<char>> {
    let ls = last_pos(s, '/');
    let ld = last_pos(s, '.');
    if ld > ls + 1 {
        Some(s.skip(ld + 1))
    } else {
        None
    }
}

/// The stem of a path's final component: the component without its
/// extension and without the dot that introduced it.
pub open spec fn spec_stem(s: Seq<char>) -> Seq<char> {
    let ls = last_pos(s, '/');
    let ld = last_pos(s, '.');
    if ld > ls + 1 {
        s.subrange(ls + 1, ld)
    } else {
        s.skip(ls + 1)
    }
}

/// The extension of `path`, per `spec_extension`.
pub fn extension_of(path: &str) -> (r: Option<String>)
    ensures
        match r {
            Some(e) => spec_extension(path@) == Some(e@),
            None => spec_extension(path@) is None,
        },
{
    let chars = string_to_chars(path);
    let n = chars.len();
    let ls = find_last(&chars, '/');
    let ld = find_last(&chars, '.');
    let ls_next: usize = match ls {
        Some(k) => k + 1,
        None => 0,
    };
    match ld {
        Some(d) => {
            if d > ls_next {
                let e = path.substring_char(d + 1, n);
                proof {
                    assert(e@ =~= path@.skip(d + 1));
                }
                Some(e.to_owned())
            } else {
                None
            }
        },
        None => None,
    }
}

/// The stem of `path`'s final component, per `spec_stem`.
pub fn stem_of(path: &str) -> (r: String)
    ensures
        r@ == spec_stem(path@),
{
    let chars = string_to_chars(path);
    let n = chars.len();
    let ls = find_last(&chars, '/');
    let ld = find_last(&chars, '.');
    let ls_next: usize = match ls {
        Some(k) => k + 1,
        None => 0,
    };
    let hi: usize = match ld {
        Some(d) => if d > ls_next {
            d
        } else {
            n
        },
        None => n,
    };
    let e = path.substring_char(ls_next, hi);
    proof {
        assert(e@ =~= spec_stem(path@));
    }
    e.to_owned()
}

} // verus!
