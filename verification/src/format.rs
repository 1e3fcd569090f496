//! Human-readable rendering of sizes, durations and bit-rates, in
//! fixed-point decimal over integers.

use vstd::prelude::*;
use crate::text::{chars_to_string, dec_seq, digit_char, push_dec_u64};

verus! {

/// `h` hundredths rendered as a two-decimal number: `h/100`, a dot,
/// and two fraction digits.
pub open spec fn fixed2(h: int) -> Seq<char>
    recommends
        h >= 0,
{
    dec_seq((h / 100) as nat).push('.').push(digit_char(((h % 100) / 10) as nat)).push(
        digit_char((h % 10) as nat),
    )
}

/// `t` tenths rendered as a one-decimal number.
pub open spec fn fixed1(t: int) -> Seq<char>
    recommends
        t >= 0,
{
    dec_seq((t / 10) as nat).push('.').push(digit_char((t % 10) as nat))
}

/// A byte count rendered against binary unit steps, two decimals,
/// rounded half-up; plain bytes below one KB.
pub open spec fn spec_format_bytes(b: nat) -> Seq<char> {
    if b >= 1073741824 {
        fixed2(((b * 100 + 536870912) / 1073741824) as int) + seq![' ', 'G', 'B']
    } else if b >= 1048576 {
        fixed2(((b * 100 + 524288) / 1048576) as int) + seq![' ', 'M', 'B']
    } else if b >= 1024 {
        fixed2(((b * 100 + 512) / 1024) as int) + seq![' ', 'K', 'B']
    } else {
        dec_seq(b) + seq![' ', 'b', 'y', 't', 'e', 's']
    }
}

/// A duration in milliseconds rendered as hours, minutes and seconds
/// where they are nonzero, else as seconds with one decimal, rounded
/// half-up.
pub open spec fn spec_format_duration(ms: nat) -> Seq<char> {
    let total = ms / 1000;
    let hours = total / 3600;
    let minutes = (total % 3600) / 60;
    let secs = total % 60;
    if hours > 0 {
        dec_seq(hours) + seq!['\u{6642}', '\u{9593}'] + dec_seq(minutes) + seq!['\u{5206}']
            + dec_seq(secs) + seq!['\u{79d2}']
    } else if minutes > 0 {
        dec_seq(minutes) + seq!['\u{5206}'] + dec_seq(secs) + seq!['\u{79d2}']
    } else {
        fixed1(((ms + 50) / 100) as int) + seq!['\u{79d2}']
    }
}

/// A bit-rate rendered in Mbps with one decimal (rounded half-up),
/// kbps, or bps; `N/A` when zero or unknown.
pub open spec fn spec_format_bitrate(b: int) -> Seq<char> {
    if b >= 1000000 {
        fixed1(((b + 50000) / 100000) as int) + seq![' ', 'M', 'b', 'p', 's']
    } else if b >= 1000 {
        dec_seq((b / 1000) as nat) + seq![' ', 'k', 'b', 'p', 's']
    } else if b > 0 {
        dec_seq(b as nat) + seq![' ', 'b', 'p', 's']
    } else {
        seq!['N', '/', 'A']
    }
}

/// Scale `b` bytes to hundredths of `unit`, rounded half-up.
fn hundredths_of(b: u64, unit: u64, half: u64) -> (h: u64)
    requires
        unit >= 100,
        half == unit / 2,
    ensures
        h == ((b as int) * 100 + half) / (unit as int),
{
    let wide: u128 = (b as u128) * 100 + (half as u128);
    let q: u128 = wide / (unit as u128);
    proof {
        assert((q as int) <= u64::MAX) by (nonlinear_arith)
            requires
                (q as int) == ((b as int) * 100 + (half as int)) / (unit as int),
                (b as int) <= u64::MAX,
                (unit as int) >= 100,
                (half as int) < (unit as int),
        ;
    }
    q as u64
}

/// Render `b` bytes per `spec_format_bytes`.
pub fn format_bytes(bytes: u64) -> (r: String)
    ensures
        r@ == spec_format_bytes(bytes as nat),
{
    let mut v: Vec<char> = Vec::new();
    if bytes >= 1073741824 {
        let h = hundredths_of(bytes, 1073741824, 536870912);
        push_fixed2(&mut v, h);
        v.push(' ');
        v.push('G');
        v.push('B');
    } else if bytes >= 1048576 {
        let h = hundredths_of(bytes, 1048576, 524288);
        push_fixed2(&mut v, h);
        v.push(' ');
        v.push('M');
        v.push('B');
    } else if bytes >= 1024 {
        let h = hundredths_of(bytes, 1024, 512);
        push_fixed2(&mut v, h);
        v.push(' ');
        v.push('K');
        v.push('B');
    } else {
        push_dec_u64(&mut v, bytes);
        v.push(' ');
        v.push('b');
        v.push('y');
        v.push('t');
        v.push('e');
        v.push('s');
    }
    proof {
        assert(v@ =~= spec_format_bytes(bytes as nat));
    }
    chars_to_string(&v)
}

/// Append `h` hundredths as a two-decimal number.
fn push_fixed2(v: &mut Vec<char>, h: u64)
    ensures
        final(v)@ == old(v)@ + fixed2(h as int),
{
    push_dec_u64(v, h / 100);
    v.push('.');
    let d1 = ((h % 100) / 10) as u8 + 48;
    let d2 = (h % 10) as u8 + 48;
    v.push(d1 as char);
    v.push(d2 as char);
    proof {
        assert(v@ =~= old(v)@ + fixed2(h as int));
    }
}

/// Append `t` tenths as a one-decimal number.
fn push_fixed1(v: &mut Vec<char>, t: u64)
    ensures
        final(v)@ == old(v)@ + fixed1(t as int),
{
    push_dec_u64(v, t / 10);
    v.push('.');
    let d = (t % 10) as u8 + 48;
    v.push(d as char);
    proof {
        assert(v@ =~= old(v)@ + fixed1(t as int));
    }
}

/// Render a duration per `spec_format_duration`.
pub fn format_duration(ms: u64) -> (r: String)
    ensures
        r@ == spec_format_duration(ms as nat),
{
    let total = ms / 1000;
    let hours = total / 3600;
    let minutes = (total % 3600) / 60;
    let secs = total % 60;
    let mut v: Vec<char> = Vec::new();
    if hours > 0 {
        push_dec_u64(&mut v, hours);
        v.push('\u{6642}');
        v.push('\u{9593}');
        push_dec_u64(&mut v, minutes);
        v.push('\u{5206}');
        push_dec_u64(&mut v, secs);
        v.push('\u{79d2}');
    } else if minutes > 0 {
        push_dec_u64(&mut v, minutes);
        v.push('\u{5206}');
        push_dec_u64(&mut v, secs);
        v.push('\u{79d2}');
    } else {
        push_fixed1(&mut v, (ms + 50) / 100);
        v.push('\u{79d2}');
    }
    proof {
        assert(v@ =~= spec_format_duration(ms as nat));
    }
    chars_to_string(&v)
}

/// Render a bit-rate per `spec_format_bitrate`.
pub fn format_bitrate(bitrate: i64) -> (r: String)
    ensures
        r@ == spec_format_bitrate(bitrate as int),
{
    let mut v: Vec<char> = Vec::new();
    if bitrate >= 1000000 {
        let t = ((bitrate as u64) + 50000) / 100000;
        push_fixed1(&mut v, t);
        v.push(' ');
        v.push('M');
        v.push('b');
        v.push('p');
        v.push('s');
    } else if bitrate >= 1000 {
        push_dec_u64(&mut v, (bitrate as u64) / 1000);
        v.push(' ');
        v.push('k');
        v.push('b');
        v.push('p');
        v.push('s');
    } else if bitrate > 0 {
        push_dec_u64(&mut v, bitrate as u64);
        v.push(' ');
        v.push('b');
        v.push('p');
        v.push('s');
    } else {
        v.push('N');
        v.push('/');
        v.push('A');
    }
    proof {
        assert(v@ =~= spec_format_bitrate(bitrate as int));
    }
    chars_to_string(&v)
}

} // verus!
