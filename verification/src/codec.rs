//! The machine-readable record format: a fixed JSON shape for one
//! metadata record, with a renderer and a strict parser that are exact
//! inverses of one another.

use vstd::prelude::*;
use vstd::string::*;
use crate::record::AudioInfo;
use crate::tags::Tags;
use crate::text::{
    chars_to_string,
    dec_seq,
    digit_char,
    digit_val,
    is_digit,
    push_dec_u64,
    string_to_chars,
    val_of,
};

verus! {

/// A string character as it appears inside a JSON string: quotes and
/// backslashes carry a backslash escape, everything else stands as is.
pub open spec fn esc_char(c: char) -> Seq<char> {
    if c == '"' || c == '\\' {
        seq!['\\', c]
    } else {
        seq![c]
    }
}

/// The escaped body of a JSON string.
pub open spec fn esc(s: Seq<char>) -> Seq<char>
    decreases s.len(),
{
    if s.len() == 0 {
        Seq::<char>::empty()
    } else {
        esc(s.drop_last()) + esc_char(s.last())
    }
}

/// A quoted, escaped JSON string.
pub open spec fn jstr(s: Seq<char>) -> Seq<char> {
    seq!['"'] + esc(s) + seq!['"']
}

/// One rendered tag pair.
pub open spec fn jpair(p: (Seq<char>, Seq<char>)) -> Seq<char> {
    jstr(p.0) + seq![':'] + jstr(p.1)
}

/// The rendered tag pairs after the first, each behind a comma.
pub open spec fn jtags_rest(pairs: Seq<(Seq<char>, Seq<char>)>) -> Seq<char>
    decreases pairs.len(),
{
    if pairs.len() == 0 {
        Seq::<char>::empty()
    } else {
        seq![','] + jpair(pairs[0]) + jtags_rest(pairs.drop_first())
    }
}

/// The rendered tag pairs, comma-separated.
pub open spec fn jtags_body(pairs: Seq<(Seq<char>, Seq<char>)>) -> Seq<char> {
    if pairs.len() == 0 {
        Seq::<char>::empty()
    } else {
        jpair(pairs[0]) + jtags_rest(pairs.drop_first())
    }
}

/// The rendered tag object.
pub open spec fn jtags(pairs: Seq<(Seq<char>, Seq<char>)>) -> Seq<char> {
    seq!['{'] + jtags_body(pairs) + seq!['}']
}

/// A rendered boolean.
pub open spec fn jbool(b: bool) -> Seq<char> {
    if b {
        "true"@
    } else {
        "false"@
    }
}

/// The canonical JSON rendering of a record: one object, fixed key
/// order, no whitespace, durations and times in milliseconds.
pub open spec fn spec_render_record(r: AudioInfo) -> Seq<char> {
    "{\"file_path\":"@ + (jstr(r.file_path@) + (",\"file_size\":"@ + (dec_seq(r.file_size as nat)
        + (",\"duration_ms\":"@ + (dec_seq(r.duration_ms as nat) + (",\"bit_rate\":"@ + (dec_seq(
        r.bit_rate as nat,
    ) + (",\"sample_rate\":"@ + (dec_seq(r.sample_rate as nat) + (",\"channels\":"@ + (dec_seq(
        r.channels as nat,
    ) + (",\"codec_name\":"@ + (jstr(r.codec_name@) + (",\"codec_long_name\":"@ + (jstr(
        r.codec_long_name@,
    ) + (",\"format_name\":"@ + (jstr(r.format_name@) + (",\"format_long_name\":"@ + (jstr(
        r.format_long_name@,
    ) + (",\"has_video\":"@ + (jbool(r.has_video) + (",\"metadata\":"@ + (jtags(
        r.metadata.view_seq(),
    ) + (",\"processing_time_ms\":"@ + (dec_seq(r.processing_time_ms as nat)
        + "}"@)))))))))))))))))))))))))
}

/// Splitting one character off the front of the escaped body.
proof fn lemma_esc_front(s: Seq<char>)
    requires
        s.len() > 0,
    ensures
        esc(s) == esc_char(s[0]) + esc(s.drop_first()),
    decreases s.len(),
{
    if s.len() == 1 {
        assert(s.drop_last() =~= Seq::<char>::empty());
        assert(s.drop_first() =~= Seq::<char>::empty());
        assert(esc(s) =~= esc_char(s[0]) + esc(s.drop_first()));
    } else {
        lemma_esc_front(s.drop_last());
        assert(s.drop_last()[0] == s[0]);
        assert(s.drop_last().drop_first() =~= s.drop_first().drop_last());
        assert(s.drop_first().last() == s.last());
        assert(esc(s) == esc(s.drop_last()) + esc_char(s.last()));
        assert(esc(s.drop_first()) == esc(s.drop_first().drop_last()) + esc_char(s.last()));
        assert(esc(s) =~= esc_char(s[0]) + esc(s.drop_first()));
    }
}

/// Appending one pair to the rendered list.
proof fn lemma_jtags_rest_snoc(pairs: Seq<(Seq<char>, Seq<char>)>, p: (Seq<char>, Seq<char>))
    ensures
        jtags_rest(pairs.push(p)) == jtags_rest(pairs) + seq![','] + jpair(p),
    decreases pairs.len(),
{
    let single = pairs.push(p);
    if pairs.len() == 0 {
        assert(single.len() == 1);
        assert(single[0] == p);
        assert(single.drop_first() =~= Seq::<(Seq<char>, Seq<char>)>::empty());
        assert(jtags_rest(single) == seq![','] + jpair(single[0]) + jtags_rest(
            single.drop_first(),
        ));
        assert(jtags_rest(single.drop_first()) == Seq::<char>::empty());
        assert(jtags_rest(single) =~= jtags_rest(pairs) + seq![','] + jpair(p));
    } else {
        assert(single.drop_first() =~= pairs.drop_first().push(p));
        assert(single[0] == pairs[0]);
        assert(jtags_rest(single) == seq![','] + jpair(single[0]) + jtags_rest(
            single.drop_first(),
        ));
        lemma_jtags_rest_snoc(pairs.drop_first(), p);
        assert(jtags_rest(single) =~= jtags_rest(pairs) + seq![','] + jpair(p));
    }
}

proof fn lemma_jtags_body_snoc(pairs: Seq<(Seq<char>, Seq<char>)>, p: (Seq<char>, Seq<char>))
    ensures
        jtags_body(pairs.push(p)) == (if pairs.len() == 0 {
            jpair(p)
        } else {
            jtags_body(pairs) + seq![','] + jpair(p)
        }),
{
    if pairs.len() == 0 {
        assert(pairs.push(p)[0] == p);
        assert(pairs.push(p).drop_first() =~= Seq::<(Seq<char>, Seq<char>)>::empty());
        assert(jtags_body(pairs.push(p)) =~= jpair(p));
    } else {
        assert(pairs.push(p)[0] == pairs[0]);
        assert(pairs.push(p).drop_first() =~= pairs.drop_first().push(p));
        lemma_jtags_rest_snoc(pairs.drop_first(), p);
        assert(jtags_body(pairs.push(p)) =~= jtags_body(pairs) + seq![','] + jpair(p));
    }
}

/// Append the escaped, quoted rendering of `s`.
fn push_jstr(v: &mut Vec<char>, s: &str)
    ensures
        final(v)@ == old(v)@ + jstr(s@),
{
    let chars = string_to_chars(s);
    v.push('"');
    let ghost base = v@;
    let n = chars.len();
    let mut i: usize = 0;
    proof {
        assert(esc(s@.take(0)) =~= Seq::<char>::empty());
        assert(v@ =~= base + esc(s@.take(0)));
    }
    while i < n
        invariant
            i <= n,
            n == chars@.len(),
            chars@ == s@,
            v@ == base + esc(s@.take(i as int)),
        decreases n - i,
    {
        let c = chars[i];
        proof {
            assert(s@.take(i as int + 1).drop_last() =~= s@.take(i as int));
            assert(s@.take(i as int + 1).last() == s@[i as int]);
        }
        if c == '"' || c == '\\' {
            v.push('\\');
            v.push(c);
        } else {
            v.push(c);
        }
        i = i + 1;
        proof {
            assert(v@ =~= base + esc(s@.take(i as int)));
        }
    }
    proof {
        assert(s@.take(n as int) =~= s@);
    }
    v.push('"');
    proof {
        assert(v@ =~= old(v)@ + jstr(s@));
    }
}

/// Append a literal, character for character.
fn push_lit(v: &mut Vec<char>, lit: &str)
    ensures
        final(v)@ == old(v)@ + lit@,
{
    let chars = string_to_chars(lit);
    let n = chars.len();
    let mut i: usize = 0;
    while i < n
        invariant
            i <= n,
            n == chars@.len(),
            chars@ == lit@,
            v@ == old(v)@ + lit@.take(i as int),
        decreases n - i,
    {
        v.push(chars[i]);
        i = i + 1;
        proof {
            assert(v@ =~= old(v)@ + lit@.take(i as int));
        }
    }
    proof {
        assert(lit@.take(n as int) =~= lit@);
    }
}

/// Append the rendered tag object of `t`.
fn push_jtags(v: &mut Vec<char>, t: &Tags)
    ensures
        final(v)@ == old(v)@ + jtags(t.view_seq()),
{
    v.push('{');
    let ghost base = v@;
    let n = t.len();
    let mut i: usize = 0;
    proof {
        assert(v@ =~= base + jtags_body(t.view_seq().take(0)));
    }
    while i < n
        invariant
            i <= n,
            n == t.view_seq().len(),
            v@ == base + jtags_body(t.view_seq().take(i as int)),
        decreases n - i,
    {
        let p = t.pair_at(i);
        proof {
            assert(t.view_seq().take(i as int + 1).drop_last() =~= t.view_seq().take(i as int));
            assert(t.view_seq().take(i as int + 1).last() == t.view_seq()[i as int]);
            lemma_jtags_body_snoc(t.view_seq().take(i as int), t.view_seq()[i as int]);
            assert(t.view_seq().take(i as int).push(t.view_seq()[i as int]) =~= t.view_seq().take(
                i as int + 1,
            ));
        }
        if i > 0 {
            v.push(',');
        }
        push_jstr(v, p.0.as_str());
        v.push(':');
        push_jstr(v, p.1.as_str());
        i = i + 1;
        proof {
            assert(v@ =~= base + jtags_body(t.view_seq().take(i as int)));
        }
    }
    proof {
        assert(t.view_seq().take(n as int) =~= t.view_seq());
    }
    v.push('}');
    proof {
        assert(v@ =~= old(v)@ + jtags(t.view_seq()));
    }
}

/// Consume one expected character.
pub open spec fn p_char(s: Seq<char>, c: char) -> Option<Seq<char>> {
    if s.len() > 0 && s[0] == c {
        Some(s.drop_first())
    } else {
        None
    }
}

/// Consume an expected literal.
pub open spec fn p_lit(s: Seq<char>, lit: Seq<char>) -> Option<Seq<char>> {
    if lit.len() <= s.len() && s.take(lit.len() as int) == lit {
        Some(s.skip(lit.len() as int))
    } else {
        None
    }
}

/// Consume an escaped string body up to and including the closing
/// quote; yields the unescaped content.
pub open spec fn p_str_body(s: Seq<char>) -> Option<(Seq<char>, Seq<char>)>
    decreases s.len(),
{
    if s.len() == 0 {
        None
    } else if s[0] == '"' {
        Some((Seq::<char>::empty(), s.drop_first()))
    } else if s[0] == '\\' {
        if s.len() >= 2 && (s[1] == '"' || s[1] == '\\') {
            match p_str_body(s.skip(2)) {
                Some((t, r)) => Some((seq![s[1]] + t, r)),
                None => None,
            }
        } else {
            None
        }
    } else {
        match p_str_body(s.drop_first()) {
            Some((t, r)) => Some((seq![s[0]] + t, r)),
            None => None,
        }
    }
}

/// Consume a quoted string.
pub open spec fn p_string(s: Seq<char>) -> Option<(Seq<char>, Seq<char>)> {
    if s.len() > 0 && s[0] == '"' {
        p_str_body(s.drop_first())
    } else {
        None
    }
}

/// How many digits `s` starts with.
pub open spec fn lead_digits(s: Seq<char>) -> int
    decreases s.len(),
{
    if s.len() > 0 && is_digit(s[0]) {
        1 + lead_digits(s.drop_first())
    } else {
        0
    }
}

/// Consume a number: a nonempty maximal digit run whose value is at
/// most `max`.
pub open spec fn p_num(s: Seq<char>, max: nat) -> Option<(nat, Seq<char>)> {
    let e = lead_digits(s);
    if e == 0 {
        None
    } else {
        let n = val_of(s.take(e));
        if n <= max {
            Some((n, s.skip(e)))
        } else {
            None
        }
    }
}

/// Consume `true` or `false`.
pub open spec fn p_bool(s: Seq<char>) -> Option<(bool, Seq<char>)> {
    match p_lit(s, "true"@) {
        Some(r) => Some((true, r)),
        None => match p_lit(s, "false"@) {
            Some(r) => Some((false, r)),
            None => None,
        },
    }
}

/// Consume one `"key":"value"` pair.
pub open spec fn p_pair(s: Seq<char>) -> Option<((Seq<char>, Seq<char>), Seq<char>)> {
    match p_string(s) {
        Some((k, r1)) => match p_char(r1, ':') {
            Some(r2) => match p_string(r2) {
                Some((v, r3)) => Some(((k, v), r3)),
                None => None,
            },
            None => None,
        },
        None => None,
    }
}

/// Consume a nonempty comma-separated pair list and the closing brace.
/// `fuel` bounds the pairs still admissible; the top level passes the
/// remaining length, which one pair always exceeds consuming.
pub open spec fn p_pairs(s: Seq<char>, fuel: nat) -> Option<
    (Seq<(Seq<char>, Seq<char>)>, Seq<char>),
>
    decreases fuel,
{
    if fuel == 0 {
        None
    } else {
        match p_pair(s) {
            Some((p, r)) => {
                if r.len() > 0 && r[0] == ',' {
                    match p_pairs(r.drop_first(), (fuel - 1) as nat) {
                        Some((ps, rr)) => Some((seq![p] + ps, rr)),
                        None => None,
                    }
                } else if r.len() > 0 && r[0] == '}' {
                    Some((seq![p], r.drop_first()))
                } else {
                    None
                }
            },
            None => None,
        }
    }
}

/// Consume a tag object.
pub open spec fn p_tags(s: Seq<char>) -> Option<(Seq<(Seq<char>, Seq<char>)>, Seq<char>)> {
    if s.len() > 0 && s[0] == '{' {
        let r = s.drop_first();
        if r.len() > 0 && r[0] == '}' {
            Some((Seq::<(Seq<char>, Seq<char>)>::empty(), r.drop_first()))
        } else {
            p_pairs(r, r.len() as nat)
        }
    } else {
        None
    }
}

/// The keys of `pairs` are pairwise distinct.
pub open spec fn keys_unique(pairs: Seq<(Seq<char>, Seq<char>)>) -> bool {
    forall|i: int, j: int| 0 <= i < j < pairs.len() ==> pairs[i].0 != pairs[j].0
}

/// The abstract content of a rendered record: every field over
/// mathematical values.
pub struct JsonRecord {
    pub file_path: Seq<char>,
    pub file_size: nat,
    pub duration_ms: nat,
    pub bit_rate: nat,
    pub sample_rate: nat,
    pub channels: nat,
    pub codec_name: Seq<char>,
    pub codec_long_name: Seq<char>,
    pub format_name: Seq<char>,
    pub format_long_name: Seq<char>,
    pub has_video: bool,
    pub metadata: Seq<(Seq<char>, Seq<char>)>,
    pub processing_time_ms: nat,
}

/// The abstract content of a record value.
pub open spec fn record_shape(r: AudioInfo) -> JsonRecord {
    JsonRecord {
        file_path: r.file_path@,
        file_size: r.file_size as nat,
        duration_ms: r.duration_ms as nat,
        bit_rate: r.bit_rate as nat,
        sample_rate: r.sample_rate as nat,
        channels: r.channels as nat,
        codec_name: r.codec_name@,
        codec_long_name: r.codec_long_name@,
        format_name: r.format_name@,
        format_long_name: r.format_long_name@,
        has_video: r.has_video,
        metadata: r.metadata.view_seq(),
        processing_time_ms: r.processing_time_ms as nat,
    }
}

/// Parse a whole record document: the canonical shape, nothing before
/// or after, tag keys unique, every number within its field's range.
pub open spec fn spec_parse_record(s: Seq<char>) -> Option<JsonRecord> {
    match p_lit(s, "{\"file_path\":"@) {
        Some(s1) => match p_string(s1) {
            Some((file_path, s2)) => match p_lit(s2, ",\"file_size\":"@) {
                Some(s3) => match p_num(s3, u64::MAX as nat) {
                    Some((file_size, s4)) => match p_lit(s4, ",\"duration_ms\":"@) {
                        Some(s5) => match p_num(s5, u64::MAX as nat) {
                            Some((duration_ms, s6)) => match p_lit(s6, ",\"bit_rate\":"@) {
                                Some(s7) => match p_num(s7, i64::MAX as nat) {
                                    Some((bit_rate, s8)) => spec_parse_record_tail(
                                        s8,
                                        file_path,
                                        file_size,
                                        duration_ms,
                                        bit_rate,
                                    ),
                                    None => None,
                                },
                                None => None,
                            },
                            None => None,
                        },
                        None => None,
                    },
                    None => None,
                },
                None => None,
            },
            None => None,
        },
        None => None,
    }
}

/// The rest of the record grammar, from `sample_rate` on.
pub open spec fn spec_parse_record_tail(
    s8: Seq<char>,
    file_path: Seq<char>,
    file_size: nat,
    duration_ms: nat,
    bit_rate: nat,
) -> Option<JsonRecord> {
    match p_lit(s8, ",\"sample_rate\":"@) {
        Some(s9) => match p_num(s9, i32::MAX as nat) {
            Some((sample_rate, s10)) => match p_lit(s10, ",\"channels\":"@) {
                Some(s11) => match p_num(s11, i32::MAX as nat) {
                    Some((channels, s12)) => match p_lit(s12, ",\"codec_name\":"@) {
                        Some(s13) => match p_string(s13) {
                            Some((codec_name, s14)) => match p_lit(
                                s14,
                                ",\"codec_long_name\":"@,
                            ) {
                                Some(s15) => match p_string(s15) {
                                    Some((codec_long_name, s16)) => spec_parse_record_tail2(
                                        s16,
                                        JsonRecord {
                                            file_path,
                                            file_size,
                                            duration_ms,
                                            bit_rate,
                                            sample_rate,
                                            channels,
                                            codec_name,
                                            codec_long_name,
                                            format_name: Seq::<char>::empty(),
                                            format_long_name: Seq::<char>::empty(),
                                            has_video: false,
                                            metadata: Seq::<(Seq<char>, Seq<char>)>::empty(),
                                            processing_time_ms: 0,
                                        },
                                    ),
                                    None => None,
                                },
                                None => None,
                            },
                            None => None,
                        },
                        None => None,
                    },
                    None => None,
                },
                None => None,
            },
            None => None,
        },
        None => None,
    }
}

/// The rest of the record grammar, from `format_name` on; `acc` holds
/// the fields parsed so far.
pub open spec fn spec_parse_record_tail2(s16: Seq<char>, acc: JsonRecord) -> Option<JsonRecord> {
    match p_lit(s16, ",\"format_name\":"@) {
        Some(s17) => match p_string(s17) {
            Some((format_name, s18)) => match p_lit(s18, ",\"format_long_name\":"@) {
                Some(s19) => match p_string(s19) {
                    Some((format_long_name, s20)) => match p_lit(s20, ",\"has_video\":"@) {
                        Some(s21) => match p_bool(s21) {
                            Some((has_video, s22)) => match p_lit(s22, ",\"metadata\":"@) {
                                Some(s23) => match p_tags(s23) {
                                    Some((metadata, s24)) => if keys_unique(metadata) {
                                        match p_lit(s24, ",\"processing_time_ms\":"@) {
                                            Some(s25) => match p_num(s25, u64::MAX as nat) {
                                                Some((processing_time_ms, s26)) => match p_char(
                                                    s26,
                                                    '}',
                                                ) {
                                                    Some(s27) => if s27.len() == 0 {
                                                        Some(
                                                            JsonRecord {
                                                                format_name,
                                                                format_long_name,
                                                                has_video,
                                                                metadata,
                                                                processing_time_ms,
                                                                ..acc
                                                            },
                                                        )
                                                    } else {
                                                        None
                                                    },
                                                    None => None,
                                                },
                                                None => None,
                                            },
                                            None => None,
                                        }
                                    } else {
                                        None
                                    },
                                    None => None,
                                },
                                None => None,
                            },
                            None => None,
                        },
                        None => None,
                    },
                    None => None,
                },
                None => None,
            },
            None => None,
        },
        None => None,
    }
}


/// Expect `lit` at position `i` of `cs`.
fn q_lit(cs: &Vec<char>, i: usize, lit: &str) -> (r: Option<usize>)
    requires
        i <= cs@.len(),
    ensures
        match r {
            Some(j) => i <= j <= cs@.len() && p_lit(cs@.skip(i as int), lit@) == Some(
                cs@.skip(j as int),
            ),
            None => p_lit(cs@.skip(i as int), lit@) is None,
        },
{
    let lc = string_to_chars(lit);
    let m = lc.len();
    let n = cs.len();
    if n - i < m {
        return None;
    }
    let mut k: usize = 0;
    while k < m
        invariant
            k <= m,
            m == lc@.len(),
            lc@ == lit@,
            n == cs@.len(),
            i + m <= n,
            forall|q: int| 0 <= q < k ==> cs@[i + q] == lit@[q],
        decreases m - k,
    {
        if cs[i + k] != lc[k] {
            proof {
                assert(cs@.skip(i as int).take(lit@.len() as int)[k as int] != lit@[k as int]);
            }
            return None;
        }
        k = k + 1;
    }
    proof {
        assert(cs@.skip(i as int).take(lit@.len() as int) =~= lit@);
        assert(cs@.skip(i as int).skip(lit@.len() as int) =~= cs@.skip(i as int + m as int));
    }
    Some(i + m)
}

/// Expect character `c` at position `i`.
fn q_char(cs: &Vec<char>, i: usize, c: char) -> (r: Option<usize>)
    requires
        i <= cs@.len(),
    ensures
        match r {
            Some(j) => j == i + 1 && j <= cs@.len() && p_char(cs@.skip(i as int), c) == Some(
                cs@.skip(j as int),
            ),
            None => p_char(cs@.skip(i as int), c) is None,
        },
{
    if i < cs.len() && cs[i] == c {
        proof {
            assert(cs@.skip(i as int).drop_first() =~= cs@.skip(i as int + 1));
        }
        Some(i + 1)
    } else {
        None
    }
}

/// Parse a quoted string at position `i`.
fn q_string(cs: &Vec<char>, i: usize) -> (r: Option<(String, usize)>)
    requires
        i <= cs@.len(),
    ensures
        match r {
            Some((x, j)) => i < j <= cs@.len() && p_string(cs@.skip(i as int)) == Some(
                (x@, cs@.skip(j as int)),
            ),
            None => p_string(cs@.skip(i as int)) is None,
        },
{
    if i >= cs.len() || cs[i] != '"' {
        return None;
    }
    proof {
        assert(cs@.skip(i as int)[0] == '"');
        assert(cs@.skip(i as int).drop_first() =~= cs@.skip(i as int + 1));
        assert(p_string(cs@.skip(i as int)) == p_str_body(cs@.skip(i as int + 1)));
    }
    let mut content: Vec<char> = Vec::new();
    let mut j: usize = i + 1;
    let n = cs.len();
    loop
        invariant
            i + 1 <= j <= n,
            n == cs@.len(),
            p_string(cs@.skip(i as int)) == (match p_str_body(cs@.skip(j as int)) {
                Some((t, r)) => Some((content@ + t, r)),
                None => None,
            }),
        decreases cs@.len() - j,
    {
        if j >= n {
            proof {
                assert(cs@.skip(j as int).len() == 0);
            }
            return None;
        }
        let c = cs[j];
        proof {
            assert(cs@.skip(j as int)[0] == c);
        }
        if c == '"' {
            proof {
                assert(cs@.skip(j as int).drop_first() =~= cs@.skip(j as int + 1));
                assert(content@ + Seq::<char>::empty() =~= content@);
            }
            return Some((chars_to_string(&content), j + 1));
        } else if c == '\\' {
            if j + 1 < cs.len() && (cs[j + 1] == '"' || cs[j + 1] == '\\') {
                let c2 = cs[j + 1];
                proof {
                    assert(cs@.skip(j as int)[1] == c2);
                    assert(cs@.skip(j as int).skip(2) =~= cs@.skip(j as int + 2));
                    assert forall|t: Seq<char>| #[trigger] (content@ + (seq![c2] + t)) == content@.push(c2)
                        + t by {
                        assert(content@ + (seq![c2] + t) =~= content@.push(c2) + t);
                    }
                }
                content.push(c2);
                j = j + 2;
            } else {
                proof {
                    assert(cs@.skip(j as int)[0] == '\\');
                    if j + 1 < n {
                        assert(cs@.skip(j as int)[1] == cs@[j as int + 1]);
                    }
                }
                return None;
            }
        } else {
            proof {
                assert(cs@.skip(j as int).drop_first() =~= cs@.skip(j as int + 1));
                assert forall|t: Seq<char>| #[trigger] (content@ + (seq![c] + t)) == content@.push(c)
                    + t by {
                    assert(content@ + (seq![c] + t) =~= content@.push(c) + t);
                }
            }
            content.push(c);
            j = j + 1;
        }
    }
}

/// The value of a longer digit prefix is at least that of a shorter.
proof fn lemma_lead_digits_eq(s: Seq<char>, a: int)
    requires
        0 <= a <= s.len(),
        forall|j: int| 0 <= j < a ==> is_digit(s[j]),
        a == s.len() || !is_digit(s[a]),
    ensures
        lead_digits(s) == a,
    decreases a,
{
    if a == 0 {
    } else {
        assert(is_digit(s[0]));
        lemma_lead_digits_eq(s.drop_first(), a - 1);
    }
}

proof fn lemma_lead_digits_ge(s: Seq<char>, a: int)
    requires
        0 <= a <= s.len(),
        forall|j: int| 0 <= j < a ==> is_digit(s[j]),
    ensures
        lead_digits(s) >= a,
    decreases a,
{
    if a > 0 {
        assert(is_digit(s[0]));
        assert(lead_digits(s) == 1 + lead_digits(s.drop_first()));
        assert forall|j: int| 0 <= j < a - 1 implies is_digit(s.drop_first()[j]) by {
            assert(s.drop_first()[j] == s[j + 1]);
        }
        lemma_lead_digits_ge(s.drop_first(), a - 1);
    } else {
        lemma_lead_digits_bound(s);
    }
}

proof fn lemma_lead_digits_bound(s: Seq<char>)
    ensures
        0 <= lead_digits(s) <= s.len(),
        forall|j: int| 0 <= j < lead_digits(s) ==> is_digit(s[j]),
    decreases s.len(),
{
    if s.len() > 0 && is_digit(s[0]) {
        lemma_lead_digits_bound(s.drop_first());
        assert forall|j: int| 0 <= j < lead_digits(s) implies is_digit(s[j]) by {
            if j > 0 {
                assert(s.drop_first()[j - 1] == s[j]);
            }
        }
    }
}

/// Parse a bounded number at position `i`.
fn q_num(cs: &Vec<char>, i: usize, max: u64) -> (r: Option<(u64, usize)>)
    requires
        i <= cs@.len(),
    ensures
        match r {
            Some((v, j)) => i < j <= cs@.len() && p_num(cs@.skip(i as int), max as nat) == Some(
                (v as nat, cs@.skip(j as int)),
            ),
            None => p_num(cs@.skip(i as int), max as nat) is None,
        },
{
    let ghost s = cs@.skip(i as int);
    let n = cs.len();
    let mut v: u64 = 0;
    let mut k: usize = i;
    let mut stop = false;
    while k < n && !stop
        invariant
            i <= k <= n,
            n == cs@.len(),
            s == cs@.skip(i as int),
            forall|q: int| 0 <= q < k - i ==> is_digit(s[q]),
            v == val_of(s.take(k - i)),
            v <= max,
            stop ==> k < n && !is_digit(s[k - i]),
        decreases n - k, (if stop { 0int } else { 1int }),
    {
        let u = cs[k] as u32;
        if u < 48 || u > 57 {
            proof {
                assert(s[k - i] == cs@[k as int]);
            }
            stop = true;
            continue;
        }
        let d = (u - 48) as u64;
        proof {
            assert(s[k - i] == cs@[k as int]);
            assert(is_digit(s[k - i]));
            assert(s.take(k - i + 1).drop_last() =~= s.take(k - i));
            assert(s.take(k - i + 1).last() == s[k - i]);
            assert(val_of(s.take(k - i + 1)) == val_of(s.take(k - i)) * 10 + digit_val(s[k - i]));
        }
        if d > max {
            proof {
                lemma_overflow_means_none(s, k - i + 1, max as nat);
            }
            return None;
        }
        if v > (max - d) / 10 {
            proof {
                let t = (max - d) as int;
                assert(v * 10 + d > max) by (nonlinear_arith)
                    requires
                        v > t / 10,
                        t == max - d,
                        0 <= d < 10,
                        v >= 0,
                ;
                lemma_overflow_means_none(s, k - i + 1, max as nat);
            }
            return None;
        }
        proof {
            let t = (max - d) as int;
            assert(v * 10 + d <= max) by (nonlinear_arith)
                requires
                    v <= t / 10,
                    t == max - d,
                    0 <= d < 10,
                    v >= 0,
            ;
        }
        v = v * 10 + d;
        k = k + 1;
    }
    if k == i {
        proof {
            if s.len() > 0 {
                assert(s[0] == cs@[i as int]);
            }
            assert(lead_digits(s) == 0);
        }
        return None;
    }
    proof {
        lemma_lead_digits_eq(s, k - i);
        assert(s.skip(k - i) =~= cs@.skip(k as int));
    }
    Some((v, k))
}

/// A digit run whose prefix already exceeds `max` makes `p_num` fail.
proof fn lemma_overflow_means_none(s: Seq<char>, a: int, max: nat)
    requires
        0 <= a <= s.len(),
        forall|j: int| 0 <= j < a ==> is_digit(s[j]),
        val_of(s.take(a)) > max,
    ensures
        p_num(s, max) is None,
{
    lemma_lead_digits_bound(s);
    lemma_lead_digits_ge(s, a);
    let e = lead_digits(s);
    crate::text::lemma_val_of_prefix_le(s.take(e), a);
    assert(s.take(e).take(a) =~= s.take(a));
}

/// Parse `true` or `false` at position `i`.
fn q_bool(cs: &Vec<char>, i: usize) -> (r: Option<(bool, usize)>)
    requires
        i <= cs@.len(),
    ensures
        match r {
            Some((b, j)) => i <= j <= cs@.len() && p_bool(cs@.skip(i as int)) == Some(
                (b, cs@.skip(j as int)),
            ),
            None => p_bool(cs@.skip(i as int)) is None,
        },
{
    match q_lit(cs, i, "true") {
        Some(j) => Some((true, j)),
        None => match q_lit(cs, i, "false") {
            Some(j) => Some((false, j)),
            None => None,
        },
    }
}


/// Parse a tag object at position `i`, building the tag mapping;
/// duplicate keys are rejected.
fn q_tags(cs: &Vec<char>, i: usize) -> (r: Option<(Tags, usize)>)
    requires
        i <= cs@.len(),
    ensures
        match r {
            Some((t, j)) => {
                &&& i < j <= cs@.len()
                &&& t.wf()
                &&& keys_unique(t.view_seq())
                &&& p_tags(cs@.skip(i as int)) == Some((t.view_seq(), cs@.skip(j as int)))
            },
            None => (p_tags(cs@.skip(i as int)) is None) || (p_tags(cs@.skip(i as int)) matches Some(
                (ps, rr),
            ) && !keys_unique(ps)),
        },
{
    let n = cs.len();
    if i >= n || cs[i] != '{' {
        proof {
            if i < n {
                assert(cs@.skip(i as int)[0] == cs@[i as int]);
            }
        }
        return None;
    }
    proof {
        assert(cs@.skip(i as int)[0] == '{');
        assert(cs@.skip(i as int).drop_first() =~= cs@.skip(i as int + 1));
    }
    if i + 1 < n && cs[i + 1] == '}' {
        proof {
            assert(cs@.skip(i as int + 1)[0] == '}');
            assert(cs@.skip(i as int + 1).drop_first() =~= cs@.skip(i as int + 2));
        }
        let t = Tags::new();
        return Some((t, i + 2));
    }
    if i + 1 >= n {
        proof {
            assert(cs@.skip(i as int + 1).len() == 0);
        }
        return None;
    }
    proof {
        assert(cs@.skip(i as int + 1)[0] == cs@[i as int + 1]);
        assert(cs@.skip(i as int + 1)[0] != '}');
    }
    let mut acc = Tags::new();
    let mut j: usize = i + 1;
    let mut fuel: usize = n - (i + 1);
    proof {
        assert(cs@.skip(i as int + 1).len() == fuel as int);
        assert forall|ps: Seq<(Seq<char>, Seq<char>)>| #[trigger] (acc.view_seq() + ps) == ps by {
            assert(acc.view_seq() + ps =~= ps);
        }
    }
    loop
        invariant
            i + 1 <= j <= n,
            n == cs@.len(),
            acc.wf(),
            p_tags(cs@.skip(i as int)) == (match p_pairs(cs@.skip(j as int), fuel as nat) {
                Some((ps, rr)) => Some((acc.view_seq() + ps, rr)),
                None => None,
            }),
        decreases fuel,
    {
        if fuel == 0 {
            return None;
        }
        let (k, j1) = match q_string(cs, j) {
            Some(x) => x,
            None => {
                return None;
            },
        };
        let j2 = match q_char(cs, j1, ':') {
            Some(x) => x,
            None => {
                return None;
            },
        };
        let (v, j3) = match q_string(cs, j2) {
            Some(x) => x,
            None => {
                return None;
            },
        };
        proof {
            assert(p_pair(cs@.skip(j as int)) == Some(((k@, v@), cs@.skip(j3 as int))));
        }
        let ghost pair = (k@, v@);
        let ghost acc0 = acc.view_seq();
        if acc.contains_key(k.as_str()) {
            proof {
                crate::tags::lemma_key_index_bounds(acc0, k@);
                let a = crate::tags::key_index(acc0, k@);
                match p_pairs(cs@.skip(j as int), fuel as nat) {
                    Some((ps, rr)) => {
                        assert(ps.len() >= 1 && ps[0] == pair);
                        let all = acc0 + ps;
                        assert(all[a].0 == k@);
                        assert(all[acc0.len() as int].0 == k@);
                        if keys_unique(all) {
                            assert(all[a].0 != all[acc0.len() as int].0);
                        }
                        assert(p_tags(cs@.skip(i as int)) == Some((all, rr)));
                        assert(!keys_unique(all));
                    },
                    None => {
                        assert(p_tags(cs@.skip(i as int)) is None);
                    },
                }
            }
            return None;
        }
        proof {
            crate::tags::lemma_key_index_bounds(acc0, k@);
        }
        acc.insert(k, v);
        proof {
            assert(acc.view_seq() =~= acc0.push(pair));
        }
        if j3 < n && cs[j3] == ',' {
            proof {
                assert(cs@.skip(j3 as int)[0] == ',');
                assert(cs@.skip(j3 as int).drop_first() =~= cs@.skip(j3 as int + 1));
                assert forall|ps: Seq<(Seq<char>, Seq<char>)>| #[trigger] (acc0 + (seq![pair] + ps))
                    == acc0.push(pair) + ps by {
                    assert(acc0 + (seq![pair] + ps) =~= acc0.push(pair) + ps);
                }
            }
            j = j3 + 1;
            fuel = fuel - 1;
        } else if j3 < n && cs[j3] == '}' {
            proof {
                assert(cs@.skip(j3 as int)[0] == '}');
                assert(cs@.skip(j3 as int).drop_first() =~= cs@.skip(j3 as int + 1));
                assert(p_pairs(cs@.skip(j as int), fuel as nat) == Some(
                    (seq![pair], cs@.skip(j3 as int + 1)),
                ));
                assert(acc0 + seq![pair] =~= acc0.push(pair));
            }
            return Some((acc, j3 + 1));
        } else {
            proof {
                if j3 < n {
                    assert(cs@.skip(j3 as int)[0] == cs@[j3 as int]);
                } else {
                    assert(cs@.skip(j3 as int).len() == 0);
                }
            }
            return None;
        }
    }
}

/// Parse a record document, the exact inverse of `record_to_json` on
/// its output.
#[verifier::rlimit(100)]
pub fn record_from_json(s: &str) -> (r: Option<AudioInfo>)
    ensures
        match r {
            Some(rec) => spec_parse_record(s@) == Some(record_shape(rec)) && rec.well_formed(),
            None => spec_parse_record(s@) is None,
        },
{
    let cs = string_to_chars(s);
    proof {
        assert(cs@.skip(0) =~= s@);
    }
    let i1 = match q_lit(&cs, 0, "{\"file_path\":") {
        Some(x) => x,
        None => {
            return None;
        },
    };
    let (file_path, i2) = match q_string(&cs, i1) {
        Some(x) => x,
        None => {
            return None;
        },
    };
    let i3 = match q_lit(&cs, i2, ",\"file_size\":") {
        Some(x) => x,
        None => {
            return None;
        },
    };
    let (file_size, i4) = match q_num(&cs, i3, u64::MAX) {
        Some(x) => x,
        None => {
            return None;
        },
    };
    let i5 = match q_lit(&cs, i4, ",\"duration_ms\":") {
        Some(x) => x,
        None => {
            return None;
        },
    };
    let (duration_ms, i6) = match q_num(&cs, i5, u64::MAX) {
        Some(x) => x,
        None => {
            return None;
        },
    };
    let i7 = match q_lit(&cs, i6, ",\"bit_rate\":") {
        Some(x) => x,
        None => {
            return None;
        },
    };
    let (bit_rate, i8) = match q_num(&cs, i7, i64::MAX as u64) {
        Some(x) => x,
        None => {
            return None;
        },
    };
    let i9 = match q_lit(&cs, i8, ",\"sample_rate\":") {
        Some(x) => x,
        None => {
            return None;
        },
    };
    let (sample_rate, i10) = match q_num(&cs, i9, i32::MAX as u64) {
        Some(x) => x,
        None => {
            return None;
        },
    };
    let i11 = match q_lit(&cs, i10, ",\"channels\":") {
        Some(x) => x,
        None => {
            return None;
        },
    };
    let (channels, i12) = match q_num(&cs, i11, i32::MAX as u64) {
        Some(x) => x,
        None => {
            return None;
        },
    };
    let i13 = match q_lit(&cs, i12, ",\"codec_name\":") {
        Some(x) => x,
        None => {
            return None;
        },
    };
    let (codec_name, i14) = match q_string(&cs, i13) {
        Some(x) => x,
        None => {
            return None;
        },
    };
    let i15 = match q_lit(&cs, i14, ",\"codec_long_name\":") {
        Some(x) => x,
        None => {
            return None;
        },
    };
    let (codec_long_name, i16) = match q_string(&cs, i15) {
        Some(x) => x,
        None => {
            return None;
        },
    };
    let i17 = match q_lit(&cs, i16, ",\"format_name\":") {
        Some(x) => x,
        None => {
            return None;
        },
    };
    let (format_name, i18) = match q_string(&cs, i17) {
        Some(x) => x,
        None => {
            return None;
        },
    };
    let i19 = match q_lit(&cs, i18, ",\"format_long_name\":") {
        Some(x) => x,
        None => {
            return None;
        },
    };
    let (format_long_name, i20) = match q_string(&cs, i19) {
        Some(x) => x,
        None => {
            return None;
        },
    };
    let i21 = match q_lit(&cs, i20, ",\"has_video\":") {
        Some(x) => x,
        None => {
            return None;
        },
    };
    let (has_video, i22) = match q_bool(&cs, i21) {
        Some(x) => x,
        None => {
            return None;
        },
    };
    let i23 = match q_lit(&cs, i22, ",\"metadata\":") {
        Some(x) => x,
        None => {
            return None;
        },
    };
    let (metadata, i24) = match q_tags(&cs, i23) {
        Some(x) => x,
        None => {
            return None;
        },
    };
    let i25 = match q_lit(&cs, i24, ",\"processing_time_ms\":") {
        Some(x) => x,
        None => {
            return None;
        },
    };
    let (processing_time_ms, i26) = match q_num(&cs, i25, u64::MAX) {
        Some(x) => x,
        None => {
            return None;
        },
    };
    let i27 = match q_char(&cs, i26, '}') {
        Some(x) => x,
        None => {
            return None;
        },
    };
    if i27 < cs.len() {
        proof {
            assert(cs@.skip(i27 as int).len() > 0);
        }
        return None;
    }
    proof {
        assert(cs@.skip(i27 as int).len() == 0);
    }
    let rec = AudioInfo {
        file_path,
        file_size,
        duration_ms,
        bit_rate: bit_rate as i64,
        sample_rate: sample_rate as i32,
        channels: channels as i32,
        codec_name,
        codec_long_name,
        format_name,
        format_long_name,
        has_video,
        metadata,
        processing_time_ms,
    };
    Some(rec)
}

proof fn lemma_concat_assoc(x: Seq<char>, y: Seq<char>, z: Seq<char>)
    ensures
        (x + y) + z == x + (y + z),
{
    assert((x + y) + z =~= x + (y + z));
}

/// Render `r` in the canonical record format.
#[verifier::rlimit(100)]
pub fn record_to_json(r: &AudioInfo) -> (out: String)
    requires
        r.well_formed(),
    ensures
        out@ == spec_render_record(*r),
{
    let mut v: Vec<char> = Vec::new();
    push_lit(&mut v, "{\"file_path\":");
    push_jstr(&mut v, r.file_path.as_str());
    push_lit(&mut v, ",\"file_size\":");
    push_dec_u64(&mut v, r.file_size);
    push_lit(&mut v, ",\"duration_ms\":");
    push_dec_u64(&mut v, r.duration_ms);
    push_lit(&mut v, ",\"bit_rate\":");
    push_dec_u64(&mut v, r.bit_rate as u64);
    push_lit(&mut v, ",\"sample_rate\":");
    push_dec_u64(&mut v, r.sample_rate as u64);
    push_lit(&mut v, ",\"channels\":");
    push_dec_u64(&mut v, r.channels as u64);
    push_lit(&mut v, ",\"codec_name\":");
    push_jstr(&mut v, r.codec_name.as_str());
    push_lit(&mut v, ",\"codec_long_name\":");
    push_jstr(&mut v, r.codec_long_name.as_str());
    push_lit(&mut v, ",\"format_name\":");
    push_jstr(&mut v, r.format_name.as_str());
    push_lit(&mut v, ",\"format_long_name\":");
    push_jstr(&mut v, r.format_long_name.as_str());
    push_lit(&mut v, ",\"has_video\":");
    if r.has_video {
        push_lit(&mut v, "true");
    } else {
        push_lit(&mut v, "false");
    }
    push_lit(&mut v, ",\"metadata\":");
    push_jtags(&mut v, &r.metadata);
    push_lit(&mut v, ",\"processing_time_ms\":");
    push_dec_u64(&mut v, r.processing_time_ms);
    push_lit(&mut v, "}");
    proof {
        let a1 = "{\"file_path\":"@;
        let a2 = jstr(r.file_path@);
        let a3 = ",\"file_size\":"@;
        let a4 = dec_seq(r.file_size as nat);
        let a5 = ",\"duration_ms\":"@;
        let a6 = dec_seq(r.duration_ms as nat);
        let a7 = ",\"bit_rate\":"@;
        let a8 = dec_seq(r.bit_rate as nat);
        let a9 = ",\"sample_rate\":"@;
        let a10 = dec_seq(r.sample_rate as nat);
        let a11 = ",\"channels\":"@;
        let a12 = dec_seq(r.channels as nat);
        let a13 = ",\"codec_name\":"@;
        let a14 = jstr(r.codec_name@);
        let a15 = ",\"codec_long_name\":"@;
        let a16 = jstr(r.codec_long_name@);
        let a17 = ",\"format_name\":"@;
        let a18 = jstr(r.format_name@);
        let a19 = ",\"format_long_name\":"@;
        let a20 = jstr(r.format_long_name@);
        let a21 = ",\"has_video\":"@;
        let a22 = jbool(r.has_video);
        let a23 = ",\"metadata\":"@;
        let a24 = jtags(r.metadata.view_seq());
        let a25 = ",\"processing_time_ms\":"@;
        let a26 = dec_seq(r.processing_time_ms as nat);
        let a27 = "}"@;
        let l1 = a1;
        let l2 = l1 + a2;
        let l3 = l2 + a3;
        let l4 = l3 + a4;
        let l5 = l4 + a5;
        let l6 = l5 + a6;
        let l7 = l6 + a7;
        let l8 = l7 + a8;
        let l9 = l8 + a9;
        let l10 = l9 + a10;
        let l11 = l10 + a11;
        let l12 = l11 + a12;
        let l13 = l12 + a13;
        let l14 = l13 + a14;
        let l15 = l14 + a15;
        let l16 = l15 + a16;
        let l17 = l16 + a17;
        let l18 = l17 + a18;
        let l19 = l18 + a19;
        let l20 = l19 + a20;
        let l21 = l20 + a21;
        let l22 = l21 + a22;
        let l23 = l22 + a23;
        let l24 = l23 + a24;
        let l25 = l24 + a25;
        let l26 = l25 + a26;
        let l27 = l26 + a27;
        assert(v@ == l27);
        let t27 = a27;
        let t26 = a26 + t27;
        let t25 = a25 + t26;
        let t24 = a24 + t25;
        let t23 = a23 + t24;
        let t22 = a22 + t23;
        let t21 = a21 + t22;
        let t20 = a20 + t21;
        let t19 = a19 + t20;
        let t18 = a18 + t19;
        let t17 = a17 + t18;
        let t16 = a16 + t17;
        let t15 = a15 + t16;
        let t14 = a14 + t15;
        let t13 = a13 + t14;
        let t12 = a12 + t13;
        let t11 = a11 + t12;
        let t10 = a10 + t11;
        let t9 = a9 + t10;
        let t8 = a8 + t9;
        let t7 = a7 + t8;
        let t6 = a6 + t7;
        let t5 = a5 + t6;
        let t4 = a4 + t5;
        let t3 = a3 + t4;
        let t2 = a2 + t3;
        let t1 = a1 + t2;
        lemma_concat_assoc(l25, a26, t27);
        lemma_concat_assoc(l24, a25, t26);
        lemma_concat_assoc(l23, a24, t25);
        lemma_concat_assoc(l22, a23, t24);
        lemma_concat_assoc(l21, a22, t23);
        lemma_concat_assoc(l20, a21, t22);
        lemma_concat_assoc(l19, a20, t21);
        lemma_concat_assoc(l18, a19, t20);
        lemma_concat_assoc(l17, a18, t19);
        lemma_concat_assoc(l16, a17, t18);
        lemma_concat_assoc(l15, a16, t17);
        lemma_concat_assoc(l14, a15, t16);
        lemma_concat_assoc(l13, a14, t15);
        lemma_concat_assoc(l12, a13, t14);
        lemma_concat_assoc(l11, a12, t13);
        lemma_concat_assoc(l10, a11, t12);
        lemma_concat_assoc(l9, a10, t11);
        lemma_concat_assoc(l8, a9, t10);
        lemma_concat_assoc(l7, a8, t9);
        lemma_concat_assoc(l6, a7, t8);
        lemma_concat_assoc(l5, a6, t7);
        lemma_concat_assoc(l4, a5, t6);
        lemma_concat_assoc(l3, a4, t5);
        lemma_concat_assoc(l2, a3, t4);
        lemma_concat_assoc(l1, a2, t3);
        assert(v@ == t1);
        assert(t1 == spec_render_record(*r));
    }
    chars_to_string(&v)
}

proof fn lemma_p_lit(lit: Seq<char>, rest: Seq<char>)
    ensures
        p_lit(lit + rest, lit) == Some(rest),
{
    let s = lit + rest;
    assert(s.take(lit.len() as int) =~= lit);
    assert(s.skip(lit.len() as int) =~= rest);
}

proof fn lemma_p_char(c: char, rest: Seq<char>)
    ensures
        p_char(seq![c] + rest, c) == Some(rest),
{
    let s = seq![c] + rest;
    assert(s[0] == c);
    assert(s.drop_first() =~= rest);
}

proof fn lemma_p_str_body(x: Seq<char>, rest: Seq<char>)
    ensures
        p_str_body(esc(x) + seq!['"'] + rest) == Some((x, rest)),
    decreases x.len(),
{
    let s = esc(x) + seq!['"'] + rest;
    if x.len() == 0 {
        assert(esc(x) =~= Seq::<char>::empty());
        assert(s[0] == '"');
        assert(s.drop_first() =~= rest);
        assert(p_str_body(s) == Some((Seq::<char>::empty(), rest)));
    } else {
        lemma_esc_front(x);
        let c = x[0];
        let xr = x.drop_first();
        assert(esc(x) == esc_char(c) + esc(xr));
        lemma_p_str_body(xr, rest);
        if c == '"' || c == '\\' {
            assert(esc_char(c) =~= seq!['\\', c]);
            assert(s =~= seq!['\\', c] + (esc(xr) + seq!['"'] + rest));
            assert(s[0] == '\\');
            assert(s[1] == c);
            assert(s.len() >= 2);
            assert(s.skip(2) =~= esc(xr) + seq!['"'] + rest);
            assert(p_str_body(s) == Some((seq![c] + xr, rest)));
            assert(seq![c] + xr =~= x);
        } else {
            assert(esc_char(c) =~= seq![c]);
            assert(s =~= seq![c] + (esc(xr) + seq!['"'] + rest));
            assert(s[0] == c);
            assert(s.drop_first() =~= esc(xr) + seq!['"'] + rest);
            assert(p_str_body(s) == Some((seq![c] + xr, rest)));
            assert(seq![c] + xr =~= x);
        }
    }
}

proof fn lemma_p_string(x: Seq<char>, rest: Seq<char>)
    ensures
        p_string(jstr(x) + rest) == Some((x, rest)),
{
    let s = jstr(x) + rest;
    assert(s[0] == '"');
    assert(s.drop_first() =~= esc(x) + seq!['"'] + rest);
    lemma_p_str_body(x, rest);
}

proof fn lemma_dec_seq_digits(n: nat)
    ensures
        dec_seq(n).len() >= 1,
        forall|j: int| 0 <= j < dec_seq(n).len() ==> is_digit(dec_seq(n)[j]),
    decreases n,
{
    if n < 10 {
        assert(is_digit(digit_char(n)));
        assert(dec_seq(n)[0] == digit_char(n));
    } else {
        lemma_dec_seq_digits(n / 10);
        assert(is_digit(digit_char(n % 10)));
        assert forall|j: int| 0 <= j < dec_seq(n).len() implies is_digit(dec_seq(n)[j]) by {
            if j < dec_seq(n / 10).len() {
                assert(dec_seq(n)[j] == dec_seq(n / 10)[j]);
            } else {
                assert(dec_seq(n)[j] == digit_char(n % 10));
            }
        }
    }
}

proof fn lemma_val_of_dec(n: nat)
    ensures
        val_of(dec_seq(n)) == n,
    decreases n,
{
    if n < 10 {
        assert(dec_seq(n) =~= seq![digit_char(n)]);
        assert(dec_seq(n).drop_last() =~= Seq::<char>::empty());
        assert(val_of(Seq::<char>::empty()) == 0);
        assert(dec_seq(n).last() == digit_char(n));
        assert(val_of(dec_seq(n)) == val_of(dec_seq(n).drop_last()) * 10 + digit_val(
            dec_seq(n).last(),
        ));
        assert(digit_val(digit_char(n)) == n);
    } else {
        lemma_val_of_dec(n / 10);
        assert(dec_seq(n).drop_last() =~= dec_seq(n / 10));
        assert(dec_seq(n).last() == digit_char(n % 10));
        assert(digit_val(digit_char(n % 10)) == n % 10);
        assert(val_of(dec_seq(n)) == (n / 10) * 10 + n % 10);
    }
}

proof fn lemma_p_num(n: nat, max: nat, rest: Seq<char>)
    requires
        n <= max,
        rest.len() == 0 || !is_digit(rest[0]),
    ensures
        p_num(dec_seq(n) + rest, max) == Some((n, rest)),
{
    let d = dec_seq(n);
    let s = d + rest;
    lemma_dec_seq_digits(n);
    assert forall|j: int| 0 <= j < d.len() implies is_digit(s[j]) by {
        assert(s[j] == d[j]);
    }
    if rest.len() > 0 {
        assert(s[d.len() as int] == rest[0]);
    }
    lemma_lead_digits_eq(s, d.len() as int);
    assert(s.take(d.len() as int) =~= d);
    lemma_val_of_dec(n);
    assert(s.skip(d.len() as int) =~= rest);
}

proof fn lemma_p_bool(b: bool, rest: Seq<char>)
    ensures
        p_bool(jbool(b) + rest) == Some((b, rest)),
{
    reveal_strlit("true");
    reveal_strlit("false");
    if b {
        lemma_p_lit("true"@, rest);
    } else {
        let s = "false"@ + rest;
        assert(s.len() >= 5);
        assert(p_lit(s, "true"@) is None) by {
            if "true"@.len() <= s.len() && s.take("true"@.len() as int) == "true"@ {
                assert(s.take(4)[0] == 'f');
                assert("true"@[0] == 't');
            }
        }
        lemma_p_lit("false"@, rest);
    }
}

proof fn lemma_p_pair(p: (Seq<char>, Seq<char>), rest: Seq<char>)
    ensures
        p_pair(jpair(p) + rest) == Some((p, rest)),
{
    let s = jpair(p) + rest;
    assert(s =~= jstr(p.0) + (seq![':'] + jstr(p.1) + rest));
    lemma_p_string(p.0, seq![':'] + jstr(p.1) + rest);
    lemma_p_char(':', jstr(p.1) + rest);
    assert(seq![':'] + jstr(p.1) + rest =~= seq![':'] + (jstr(p.1) + rest));
    lemma_p_string(p.1, rest);
}

proof fn lemma_jtags_rest_len(ps: Seq<(Seq<char>, Seq<char>)>)
    ensures
        jtags_rest(ps).len() >= ps.len(),
    decreases ps.len(),
{
    if ps.len() > 0 {
        lemma_jtags_rest_len(ps.drop_first());
    }
}

proof fn lemma_p_pairs(pairs: Seq<(Seq<char>, Seq<char>)>, rest: Seq<char>, fuel: nat)
    requires
        pairs.len() >= 1,
        fuel >= pairs.len(),
    ensures
        p_pairs(jtags_body(pairs) + seq!['}'] + rest, fuel) == Some((pairs, rest)),
    decreases pairs.len(),
{
    let p0 = pairs[0];
    let pr = pairs.drop_first();
    let s = jtags_body(pairs) + seq!['}'] + rest;
    if pr.len() == 0 {
        assert(jtags_rest(pr) =~= Seq::<char>::empty());
        assert(jtags_body(pairs) =~= jpair(p0));
        assert(s =~= jpair(p0) + (seq!['}'] + rest));
        lemma_p_pair(p0, seq!['}'] + rest);
        let r = seq!['}'] + rest;
        assert(r[0] == '}');
        assert(r.drop_first() =~= rest);
        assert(seq![p0] =~= pairs);
    } else {
        assert(jtags_body(pairs) == jpair(p0) + jtags_rest(pr));
        assert(jtags_rest(pr) == seq![','] + jpair(pr[0]) + jtags_rest(pr.drop_first()));
        assert(jtags_body(pr) == jpair(pr[0]) + jtags_rest(pr.drop_first()));
        let r = seq![','] + jtags_body(pr) + seq!['}'] + rest;
        assert(s =~= jpair(p0) + r);
        lemma_p_pair(p0, r);
        assert(r[0] == ',');
        assert(r.drop_first() =~= jtags_body(pr) + seq!['}'] + rest);
        lemma_p_pairs(pr, rest, (fuel - 1) as nat);
        assert(seq![p0] + pr =~= pairs);
    }
}

proof fn lemma_p_tags(pairs: Seq<(Seq<char>, Seq<char>)>, rest: Seq<char>)
    ensures
        p_tags(jtags(pairs) + rest) == Some((pairs, rest)),
{
    let s = jtags(pairs) + rest;
    assert(s[0] == '{');
    let r = s.drop_first();
    assert(r =~= jtags_body(pairs) + seq!['}'] + rest);
    if pairs.len() == 0 {
        assert(jtags_body(pairs) =~= Seq::<char>::empty());
        assert(r[0] == '}');
        assert(r.drop_first() =~= rest);
    } else {
        assert(jtags_body(pairs) == jpair(pairs[0]) + jtags_rest(pairs.drop_first()));
        assert(jpair(pairs[0])[0] == '"');
        assert(r[0] == '"');
        assert(r[0] != '}');
        lemma_jtags_rest_len(pairs.drop_first());
        assert(r.len() >= pairs.len());
        lemma_p_pairs(pairs, rest, r.len() as nat);
    }
}

proof fn lemma_parse_head(
    fp: Seq<char>,
    fs: nat,
    dm: nat,
    br: nat,
    s8: Seq<char>,
)
    requires
        fs <= u64::MAX,
        dm <= u64::MAX,
        br <= i64::MAX,
        s8.len() > 0,
        !is_digit(s8[0]),
    ensures
        spec_parse_record(
            "{\"file_path\":"@ + (jstr(fp) + (",\"file_size\":"@ + (dec_seq(fs) + (
            ",\"duration_ms\":"@ + (dec_seq(dm) + (",\"bit_rate\":"@ + (dec_seq(br) + s8))))))),
        ) == spec_parse_record_tail(s8, fp, fs, dm, br),
{
    reveal_strlit(",\"file_size\":");
    reveal_strlit(",\"duration_ms\":");
    reveal_strlit(",\"bit_rate\":");
    let r7 = dec_seq(br) + s8;
    let r6 = ",\"bit_rate\":"@ + r7;
    let r5 = dec_seq(dm) + r6;
    let r4 = ",\"duration_ms\":"@ + r5;
    let r3 = dec_seq(fs) + r4;
    let r2 = ",\"file_size\":"@ + r3;
    let r1 = jstr(fp) + r2;
    lemma_p_lit("{\"file_path\":"@, r1);
    lemma_p_string(fp, r2);
    lemma_p_lit(",\"file_size\":"@, r3);
    assert(r4[0] == ',');
    assert(!is_digit(','));
    lemma_p_num(fs, u64::MAX as nat, r4);
    lemma_p_lit(",\"duration_ms\":"@, r5);
    assert(r6[0] == ',');
    lemma_p_num(dm, u64::MAX as nat, r6);
    lemma_p_lit(",\"bit_rate\":"@, r7);
    lemma_p_num(br, i64::MAX as nat, s8);
}

proof fn lemma_parse_mid(
    s8: Seq<char>,
    fp: Seq<char>,
    fs: nat,
    dm: nat,
    br: nat,
    sr: nat,
    ch: nat,
    cn: Seq<char>,
    cln: Seq<char>,
    s16: Seq<char>,
)
    requires
        sr <= i32::MAX,
        ch <= i32::MAX,
        s8 == ",\"sample_rate\":"@ + (dec_seq(sr) + (",\"channels\":"@ + (dec_seq(ch) + (
        ",\"codec_name\":"@ + (jstr(cn) + (",\"codec_long_name\":"@ + (jstr(cln) + s16))))))),
    ensures
        spec_parse_record_tail(s8, fp, fs, dm, br) == spec_parse_record_tail2(
            s16,
            JsonRecord {
                file_path: fp,
                file_size: fs,
                duration_ms: dm,
                bit_rate: br,
                sample_rate: sr,
                channels: ch,
                codec_name: cn,
                codec_long_name: cln,
                format_name: Seq::<char>::empty(),
                format_long_name: Seq::<char>::empty(),
                has_video: false,
                metadata: Seq::<(Seq<char>, Seq<char>)>::empty(),
                processing_time_ms: 0,
            },
        ),
{
    reveal_strlit(",\"channels\":");
    reveal_strlit(",\"codec_name\":");
    reveal_strlit(",\"codec_long_name\":");
    let r15 = jstr(cln) + s16;
    let r14 = ",\"codec_long_name\":"@ + r15;
    let r13 = jstr(cn) + r14;
    let r12 = ",\"codec_name\":"@ + r13;
    let r11 = dec_seq(ch) + r12;
    let r10 = ",\"channels\":"@ + r11;
    let r9 = dec_seq(sr) + r10;
    lemma_p_lit(",\"sample_rate\":"@, r9);
    assert(r10[0] == ',');
    assert(!is_digit(','));
    lemma_p_num(sr, i32::MAX as nat, r10);
    lemma_p_lit(",\"channels\":"@, r11);
    assert(r12[0] == ',');
    lemma_p_num(ch, i32::MAX as nat, r12);
    lemma_p_lit(",\"codec_name\":"@, r13);
    lemma_p_string(cn, r14);
    lemma_p_lit(",\"codec_long_name\":"@, r15);
    lemma_p_string(cln, s16);
}

proof fn lemma_parse_tail2(
    acc: JsonRecord,
    fname: Seq<char>,
    flname: Seq<char>,
    hv: bool,
    tags: Seq<(Seq<char>, Seq<char>)>,
    ptms: nat,
    s16: Seq<char>,
)
    requires
        keys_unique(tags),
        ptms <= u64::MAX,
        s16 == ",\"format_name\":"@ + (jstr(fname) + (",\"format_long_name\":"@ + (jstr(flname) + (
        ",\"has_video\":"@ + (jbool(hv) + (",\"metadata\":"@ + (jtags(tags) + (
        ",\"processing_time_ms\":"@ + (dec_seq(ptms) + "}"@))))))))),
    ensures
        spec_parse_record_tail2(s16, acc) == Some(
            JsonRecord {
                format_name: fname,
                format_long_name: flname,
                has_video: hv,
                metadata: tags,
                processing_time_ms: ptms,
                ..acc
            },
        ),
{
    reveal_strlit(",\"format_long_name\":");
    reveal_strlit(",\"has_video\":");
    reveal_strlit(",\"metadata\":");
    reveal_strlit(",\"processing_time_ms\":");
    reveal_strlit("}");
    let r27 = Seq::<char>::empty();
    let r26 = "}"@;
    let r25 = dec_seq(ptms) + r26;
    let r24 = ",\"processing_time_ms\":"@ + r25;
    let r23 = jtags(tags) + r24;
    let r22 = ",\"metadata\":"@ + r23;
    let r21 = jbool(hv) + r22;
    let r20 = ",\"has_video\":"@ + r21;
    let r19 = jstr(flname) + r20;
    let r18 = ",\"format_long_name\":"@ + r19;
    let r17 = jstr(fname) + r18;
    lemma_p_lit(",\"format_name\":"@, r17);
    lemma_p_string(fname, r18);
    lemma_p_lit(",\"format_long_name\":"@, r19);
    lemma_p_string(flname, r20);
    lemma_p_lit(",\"has_video\":"@, r21);
    lemma_p_bool(hv, r22);
    lemma_p_lit(",\"metadata\":"@, r23);
    lemma_p_tags(tags, r24);
    lemma_p_lit(",\"processing_time_ms\":"@, r25);
    assert(r26[0] == '}');
    assert(!is_digit('}'));
    lemma_p_num(ptms, u64::MAX as nat, r26);
    assert(r26 =~= seq!['}'] + r27);
    lemma_p_char('}', r27);
    assert(r27.len() == 0);
}

/// Round-trip: parsing the canonical rendering of any well-formed
/// record yields exactly that record's content, field for field.
#[verifier::rlimit(100)]
pub proof fn lemma_record_json_roundtrip(rec: AudioInfo)
    requires
        rec.well_formed(),
    ensures
        spec_parse_record(spec_render_record(rec)) == Some(record_shape(rec)),
{
    reveal_strlit(",\"sample_rate\":");
    reveal_strlit(",\"format_name\":");
    let tags = rec.metadata.view_seq();
    assert(keys_unique(tags));
    let s16 = ",\"format_name\":"@ + (jstr(rec.format_name@) + (",\"format_long_name\":"@ + (jstr(
        rec.format_long_name@,
    ) + (",\"has_video\":"@ + (jbool(rec.has_video) + (",\"metadata\":"@ + (jtags(tags) + (
    ",\"processing_time_ms\":"@ + (dec_seq(rec.processing_time_ms as nat) + "}"@)))))))));
    let s8 = ",\"sample_rate\":"@ + (dec_seq(rec.sample_rate as nat) + (",\"channels\":"@ + (
    dec_seq(rec.channels as nat) + (",\"codec_name\":"@ + (jstr(rec.codec_name@) + (
    ",\"codec_long_name\":"@ + (jstr(rec.codec_long_name@) + s16)))))));
    let s = "{\"file_path\":"@ + (jstr(rec.file_path@) + (",\"file_size\":"@ + (dec_seq(
        rec.file_size as nat,
    ) + (",\"duration_ms\":"@ + (dec_seq(rec.duration_ms as nat) + (",\"bit_rate\":"@ + (dec_seq(
        rec.bit_rate as nat,
    ) + s8)))))));
    assert(spec_render_record(rec) == s);
    assert(s8[0] == ',');
    assert(!is_digit(','));
    lemma_parse_head(rec.file_path@, rec.file_size as nat, rec.duration_ms as nat,
        rec.bit_rate as nat, s8);
    lemma_parse_mid(s8, rec.file_path@, rec.file_size as nat, rec.duration_ms as nat,
        rec.bit_rate as nat, rec.sample_rate as nat, rec.channels as nat, rec.codec_name@,
        rec.codec_long_name@, s16);
    lemma_parse_tail2(
        JsonRecord {
            file_path: rec.file_path@,
            file_size: rec.file_size as nat,
            duration_ms: rec.duration_ms as nat,
            bit_rate: rec.bit_rate as nat,
            sample_rate: rec.sample_rate as nat,
            channels: rec.channels as nat,
            codec_name: rec.codec_name@,
            codec_long_name: rec.codec_long_name@,
            format_name: Seq::<char>::empty(),
            format_long_name: Seq::<char>::empty(),
            has_video: false,
            metadata: Seq::<(Seq<char>, Seq<char>)>::empty(),
            processing_time_ms: 0,
        },
        rec.format_name@,
        rec.format_long_name@,
        rec.has_video,
        tags,
        rec.processing_time_ms as nat,
        s16,
    );
}

} // verus!
