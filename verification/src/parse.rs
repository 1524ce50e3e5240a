//! Parsing of frame lines received over the byte link.
//!
//! Two grammars exist and are selected by static configuration, never
//! auto-detected. The multi-slot grammar scans the line left to right for
//! reading tokens `T:<decimal>/H:<decimal>` or the failure marker `EEE`,
//! each followed by a whitespace byte, with no line-start anchor. The terse
//! single-slot grammar accepts exactly one `T:<decimal> H:<decimal>` token
//! anchored at the start of the line.

use vstd::prelude::*;
use crate::frame::{
    B_COLON, B_DOT, B_E, B_H, B_LF, B_SLASH, B_SP, B_T, B_CR, all_digits, is_decimal, is_digit,
    is_space, RawReading,
};

verus! {

/// The number of consecutive digit bytes at the front of `s`.
pub open spec fn digits_run(s: Seq<u8>) -> nat
    decreases s.len(),
{
    if s.len() > 0 && is_digit(s[0]) {
        1 + digits_run(s.skip(1))
    } else {
        0
    }
}

/// The length of the longest decimal numeral at the front of `s`, greedily
/// matched: digits, then a dot and more digits only when both are present.
/// Zero when no numeral starts here.
pub open spec fn decimal_run(s: Seq<u8>) -> nat {
    let d = digits_run(s);
    if d == 0 {
        0
    } else if d < s.len() && s[d as int] == B_DOT && digits_run(s.skip(d as int + 1)) > 0 {
        d + 1 + digits_run(s.skip(d as int + 1))
    } else {
        d
    }
}

/// A reading token followed by a whitespace byte at the front of `s`:
/// the temperature numeral, the humidity numeral, and the number of bytes
/// consumed, whitespace included.
pub open spec fn reading_match(s: Seq<u8>) -> Option<(Seq<u8>, Seq<u8>, nat)> {
    if s.len() >= 2 && s[0] == B_T && s[1] == B_COLON {
        let dt = decimal_run(s.skip(2));
        if dt > 0 {
            let p = 2 + dt as int;
            if p + 3 <= s.len() && s[p] == B_SLASH && s[p + 1] == B_H && s[p + 2] == B_COLON {
                let dh = decimal_run(s.skip(p + 3));
                if dh > 0 {
                    let q = p + 3 + dh as int;
                    if q < s.len() && is_space(s[q]) {
                        Some(
                            (
                                s.subrange(2, 2 + dt as int),
                                s.subrange(p + 3, p + 3 + dh as int),
                                (q + 1) as nat,
                            ),
                        )
                    } else {
                        None
                    }
                } else {
                    None
                }
            } else {
                None
            }
        } else {
            None
        }
    } else {
        None
    }
}

/// The failure marker followed by a whitespace byte at the front of `s`.
pub open spec fn failure_match(s: Seq<u8>) -> bool {
    s.len() >= 4 && s[0] == B_E && s[1] == B_E && s[2] == B_E && is_space(s[3])
}

/// All slot values found by a left-to-right scan of `s`: at each position a
/// reading token yields its numeral pair, a failure marker yields an absent
/// value, and any other byte is skipped. Matches never overlap.
pub open spec fn scan(s: Seq<u8>) -> Seq<Option<(Seq<u8>, Seq<u8>)>>
    decreases s.len(),
{
    if s.len() == 0 {
        Seq::empty()
    } else if reading_match(s) is Some {
        let (t, h, l) = reading_match(s)->Some_0;
        seq![Some((t, h))] + scan(s.skip(l as int))
    } else if failure_match(s) {
        seq![None] + scan(s.skip(4))
    } else {
        scan(s.skip(1))
    }
}

/// The terse single-slot grammar: `T:<decimal> H:<decimal>` anchored at the
/// start of the line, followed by nothing or by a line break (with or
/// without a carriage return).
pub open spec fn terse_match(s: Seq<u8>) -> Option<(Seq<u8>, Seq<u8>)> {
    if s.len() >= 2 && s[0] == B_T && s[1] == B_COLON {
        let dt = decimal_run(s.skip(2));
        if dt > 0 {
            let p = 2 + dt as int;
            if p + 3 <= s.len() && s[p] == B_SP && s[p + 1] == B_H && s[p + 2] == B_COLON {
                let dh = decimal_run(s.skip(p + 3));
                if dh > 0 {
                    let q = p + 3 + dh as int;
                    if q == s.len() || (s.len() - q == 1 && s[q] == B_LF) || (s.len() - q == 2
                        && s[q] == B_CR && s[q + 1] == B_LF) {
                        Some((s.subrange(2, 2 + dt as int), s.subrange(p + 3, p + 3 + dh as int)))
                    } else {
                        None
                    }
                } else {
                    None
                }
            } else {
                None
            }
        } else {
            None
        }
    } else {
        None
    }
}

/// The value of one exec slot as the spec scan sees it.
pub open spec fn slot_value_of(o: Option<RawReading>) -> Option<(Seq<u8>, Seq<u8>)> {
    match o {
        Some(r) => Some((r.temperature@, r.humidity@)),
        None => None,
    }
}

proof fn lemma_skip_skip(s: Seq<u8>, i: int, j: int)
    requires
        0 <= i,
        0 <= j,
        i + j <= s.len(),
    ensures
        s.skip(i).skip(j) == s.skip(i + j),
{
    assert(s.skip(i).skip(j) =~= s.skip(i + j));
}

/// Count the digit bytes of `s` from position `i` on.
fn digits_run_from(s: &Vec<u8>, i: usize) -> (n: usize)
    requires
        i <= s@.len(),
    ensures
        n == digits_run(s@.skip(i as int)),
        i + n <= s@.len(),
{
    let mut j: usize = i;
    while j < s.len() && s[j] >= 0x30 && s[j] <= 0x39
        invariant
            i <= j <= s@.len(),
            digits_run(s@.skip(i as int)) == (j - i) + digits_run(s@.skip(j as int)),
        decreases s@.len() - j,
    {
        proof {
            lemma_skip_skip(s@, j as int, 1);
            assert(s@.skip(j as int)[0] == s@[j as int]);
        }
        j += 1;
    }
    proof {
        if j < s@.len() {
            assert(s@.skip(j as int)[0] == s@[j as int]);
        }
        assert(digits_run(s@.skip(j as int)) == 0);
    }
    j - i
}

/// Measure the decimal numeral starting at position `i`, zero if none.
fn decimal_run_from(s: &Vec<u8>, i: usize) -> (n: usize)
    requires
        i <= s@.len(),
    ensures
        n == decimal_run(s@.skip(i as int)),
        i + n <= s@.len(),
{
    let n = s.len();
    let d = digits_run_from(s, i);
    if d == 0 {
        return 0;
    }
    let p = i + d;
    if p < s.len() && s[p] == B_DOT {
        let f = digits_run_from(s, p + 1);
        proof {
            lemma_skip_skip(s@, i as int, d as int);
            lemma_skip_skip(s@, i as int, d as int + 1);
            assert(s@.skip(i as int)[d as int] == s@[p as int]);
        }
        if f > 0 {
            d + 1 + f
        } else {
            d
        }
    } else {
        proof {
            if p < s@.len() {
                assert(s@.skip(i as int)[d as int] == s@[p as int]);
            }
        }
        d
    }
}

/// Try to match a reading token (with its trailing whitespace) at `i`;
/// return the numerals and the total matched length.
fn reading_match_at(s: &Vec<u8>, i: usize) -> (r: Option<(RawReading, usize)>)
    requires
        i <= s@.len(),
    ensures
        match r {
            Some((rd, l)) => {
                &&& reading_match(s@.skip(i as int)) == Some(
                    (rd.temperature@, rd.humidity@, l as nat),
                )
                &&& i + l <= s@.len()
                &&& l >= 1
            },
            None => reading_match(s@.skip(i as int)) is None,
        },
{
    let ghost suf = s@.skip(i as int);
    let n = s.len();
    if !(n - i >= 2 && s[i] == B_T && s[i + 1] == B_COLON) {
        proof {
            if suf.len() >= 2 {
                assert(suf[0] == s@[i as int]);
                assert(suf[1] == s@[i as int + 1]);
            }
        }
        return None;
    }
    proof {
        assert(suf[0] == s@[i as int]);
        assert(suf[1] == s@[i as int + 1]);
    }
    let dt = decimal_run_from(s, i + 2);
    proof {
        lemma_skip_skip(s@, i as int, 2);
    }
    if dt == 0 {
        return None;
    }
    let p = i + 2 + dt;
    if !(n - p >= 3 && s[p] == B_SLASH && s[p + 1] == B_H && s[p + 2] == B_COLON) {
        proof {
            if p + 3 <= s@.len() {
                assert(suf[p - i] == s@[p as int]);
                assert(suf[p - i + 1] == s@[p as int + 1]);
                assert(suf[p - i + 2] == s@[p as int + 2]);
            }
        }
        return None;
    }
    proof {
        assert(suf[p - i] == s@[p as int]);
        assert(suf[p - i + 1] == s@[p as int + 1]);
        assert(suf[p - i + 2] == s@[p as int + 2]);
    }
    let dh = decimal_run_from(s, p + 3);
    proof {
        lemma_skip_skip(s@, i as int, p + 3 - i as int);
    }
    if dh == 0 {
        return None;
    }
    let q = p + 3 + dh;
    if !(q < s.len() && (s[q] == 0x20 || s[q] == 0x09 || s[q] == 0x0a || s[q] == 0x0b || s[q]
        == 0x0c || s[q] == 0x0d)) {
        proof {
            if q < s@.len() {
                assert(suf[q - i] == s@[q as int]);
            }
        }
        return None;
    }
    proof {
        assert(suf[q - i] == s@[q as int]);
    }
    let mut t: Vec<u8> = Vec::new();
    let mut j: usize = i + 2;
    while j < p
        invariant
            i + 2 <= j <= p,
            p == i + 2 + dt <= s@.len(),
            t@ == s@.subrange(i as int + 2, j as int),
        decreases p - j,
    {
        t.push(s[j]);
        j += 1;
        assert(s@.subrange(i as int + 2, j as int) =~= s@.subrange(i as int + 2, j - 1).push(
            s@[j - 1],
        ));
    }
    let mut h: Vec<u8> = Vec::new();
    let mut k: usize = p + 3;
    while k < q
        invariant
            p + 3 <= k <= q,
            q == p + 3 + dh <= s@.len(),
            h@ == s@.subrange(p as int + 3, k as int),
        decreases q - k,
    {
        h.push(s[k]);
        k += 1;
        assert(s@.subrange(p as int + 3, k as int) =~= s@.subrange(p as int + 3, k - 1).push(
            s@[k - 1],
        ));
    }
    proof {
        assert(t@ =~= suf.subrange(2, 2 + dt as int));
        assert(h@ =~= suf.subrange(p - i + 3, p - i + 3 + dh as int));
    }
    Some((RawReading { temperature: t, humidity: h }, q + 1 - i))
}

/// Try to match the failure marker (with its trailing whitespace) at `i`.
fn failure_match_at(s: &Vec<u8>, i: usize) -> (r: bool)
    requires
        i <= s@.len(),
    ensures
        r == failure_match(s@.skip(i as int)),
{
    let ghost suf = s@.skip(i as int);
    let r = s.len() - i >= 4 && s[i] == B_E && s[i + 1] == B_E && s[i + 2] == B_E && (s[i + 3]
        == 0x20 || s[i + 3] == 0x09 || s[i + 3] == 0x0a || s[i + 3] == 0x0b || s[i + 3] == 0x0c
        || s[i + 3] == 0x0d);
    proof {
        if suf.len() >= 4 {
            assert(suf[0] == s@[i as int]);
            assert(suf[1] == s@[i as int + 1]);
            assert(suf[2] == s@[i as int + 2]);
            assert(suf[3] == s@[i as int + 3]);
        }
    }
    r
}

/// Which frame grammar a deployment speaks; chosen by static
/// configuration, never auto-detected.
pub enum FrameGrammar {
    MultiSlot,
    TerseSingle,
}

/// The slot values a line yields under a grammar: every scan match for the
/// multi-slot grammar, the single anchored token (or nothing) for the terse
/// one.
pub open spec fn frame_slots(g: FrameGrammar, s: Seq<u8>) -> Seq<Option<(Seq<u8>, Seq<u8>)>> {
    match g {
        FrameGrammar::MultiSlot => scan(s),
        FrameGrammar::TerseSingle => match terse_match(s) {
            Some(v) => seq![Some(v)],
            None => Seq::empty(),
        },
    }
}

/// Parse a line under the terse single-slot grammar.
fn terse_line(s: &Vec<u8>) -> (r: Option<RawReading>)
    ensures
        match r {
            Some(rd) => terse_match(s@) == Some((rd.temperature@, rd.humidity@)),
            None => terse_match(s@) is None,
        },
{
    let n = s.len();
    if !(n >= 2 && s[0] == B_T && s[1] == B_COLON) {
        return None;
    }
    let dt = decimal_run_from(s, 2);
    proof {
        lemma_skip_skip(s@, 0, 2);
        assert(s@.skip(0) =~= s@);
    }
    if dt == 0 {
        return None;
    }
    let p = 2 + dt;
    if !(n - p >= 3 && s[p] == B_SP && s[p + 1] == B_H && s[p + 2] == B_COLON) {
        return None;
    }
    let dh = decimal_run_from(s, p + 3);
    proof {
        lemma_skip_skip(s@, 0, p + 3 as int);
    }
    if dh == 0 {
        return None;
    }
    let q = p + 3 + dh;
    let rem = n - q;
    let tail_ok = rem == 0 || (rem == 1 && s[q] == B_LF) || (rem == 2 && s[q] == B_CR && s[q + 1]
        == B_LF);
    if !tail_ok {
        return None;
    }
    let mut t: Vec<u8> = Vec::new();
    let mut j: usize = 2;
    while j < p
        invariant
            2 <= j <= p,
            p == 2 + dt <= s@.len(),
            t@ == s@.subrange(2, j as int),
        decreases p - j,
    {
        t.push(s[j]);
        j += 1;
        assert(s@.subrange(2, j as int) =~= s@.subrange(2, j - 1).push(s@[j - 1]));
    }
    let mut h: Vec<u8> = Vec::new();
    let mut k: usize = p + 3;
    while k < q
        invariant
            p + 3 <= k <= q,
            q == p + 3 + dh <= s@.len(),
            h@ == s@.subrange(p as int + 3, k as int),
        decreases q - k,
    {
        h.push(s[k]);
        k += 1;
        assert(s@.subrange(p as int + 3, k as int) =~= s@.subrange(p as int + 3, k - 1).push(
            s@[k - 1],
        ));
    }
    Some(RawReading { temperature: t, humidity: h })
}

/// Extract the slot values of one received line under the configured
/// grammar, in positional order.
pub fn parse_line(s: &Vec<u8>, g: &FrameGrammar) -> (r: Vec<Option<RawReading>>)
    ensures
        r@.len() == frame_slots(*g, s@).len(),
        forall|k: int|
            0 <= k < r@.len() ==> slot_value_of(#[trigger] r@[k]) == frame_slots(*g, s@)[k],
{
    match g {
        FrameGrammar::MultiSlot => scan_line(s),
        FrameGrammar::TerseSingle => {
            let mut out: Vec<Option<RawReading>> = Vec::new();
            match terse_line(s) {
                Some(rd) => {
                    out.push(Some(rd));
                },
                None => {},
            }
            out
        },
    }
}

proof fn lemma_digits_run_concat(d: Seq<u8>, rest: Seq<u8>)
    requires
        all_digits(d),
        rest.len() == 0 || !is_digit(rest[0]),
    ensures
        digits_run(d + rest) == d.len(),
    decreases d.len(),
{
    if d.len() == 0 {
        assert(d + rest =~= rest);
    } else {
        assert((d + rest)[0] == d[0]);
        assert((d + rest).skip(1) =~= d.skip(1) + rest);
        lemma_digits_run_concat(d.skip(1), rest);
    }
}

proof fn lemma_decimal_run_concat(v: Seq<u8>, rest: Seq<u8>)
    requires
        is_decimal(v),
        rest.len() >= 1,
        !is_digit(rest[0]),
        rest[0] != B_DOT,
    ensures
        decimal_run(v + rest) == v.len(),
        v.len() > 0,
{
    let s = v + rest;
    if v.len() > 0 && all_digits(v) {
        lemma_digits_run_concat(v, rest);
        assert(s[v.len() as int] == rest[0]);
    } else {
        let k = choose|k: int|
            1 <= k <= v.len() - 2 && v[k] == B_DOT && all_digits(#[trigger] v.subrange(0, k))
                && all_digits(v.subrange(k + 1, v.len() as int));
        let a = v.subrange(0, k);
        let b = v.subrange(k + 1, v.len() as int);
        let tail = seq![B_DOT] + b + rest;
        assert(s =~= a + tail);
        assert(tail[0] == B_DOT);
        lemma_digits_run_concat(a, tail);
        assert(digits_run(s) == k);
        assert(s[k] == v[k]);
        assert(s.skip(k + 1) =~= b + rest);
        lemma_digits_run_concat(b, rest);
        assert(digits_run(s.skip(k + 1)) == b.len());
        assert(b.len() > 0);
        assert(decimal_run(s) == k + 1 + b.len());
    }
}

proof fn lemma_reading_token_match(t: Seq<u8>, h: Seq<u8>, rest: Seq<u8>)
    requires
        is_decimal(t),
        is_decimal(h),
        rest.len() >= 1,
        is_space(rest[0]),
    ensures
        reading_match(seq![B_T, B_COLON] + t + seq![B_SLASH, B_H, B_COLON] + h + rest) == Some(
            (t, h, (t.len() + h.len() + 6) as nat),
        ),
{
    let s = seq![B_T, B_COLON] + t + seq![B_SLASH, B_H, B_COLON] + h + rest;
    assert(s[0] == B_T);
    assert(s[1] == B_COLON);
    assert(s.skip(2) =~= t + (seq![B_SLASH, B_H, B_COLON] + h + rest));
    assert((seq![B_SLASH, B_H, B_COLON] + h + rest)[0] == B_SLASH);
    lemma_decimal_run_concat(t, seq![B_SLASH, B_H, B_COLON] + h + rest);
    let p = 2 + t.len() as int;
    assert(s[p] == B_SLASH);
    assert(s[p + 1] == B_H);
    assert(s[p + 2] == B_COLON);
    assert(s.skip(p + 3) =~= h + rest);
    lemma_decimal_run_concat(h, rest);
    let q = p + 3 + h.len() as int;
    assert(s[q] == rest[0]);
    assert(s.subrange(2, 2 + t.len() as int) =~= t);
    assert(s.subrange(p + 3, p + 3 + h.len() as int) =~= h);
}

proof fn lemma_failure_token_match(rest: Seq<u8>)
    requires
        rest.len() >= 1,
        is_space(rest[0]),
    ensures
        failure_match(seq![B_E, B_E, B_E] + rest),
        reading_match(seq![B_E, B_E, B_E] + rest) is None,
{
    let s = seq![B_E, B_E, B_E] + rest;
    assert(s[0] == B_E);
    assert(s[1] == B_E);
    assert(s[2] == B_E);
    assert(s[3] == rest[0]);
}

proof fn lemma_scan_lf()
    ensures
        scan(seq![B_LF]) == Seq::<Option<(Seq<u8>, Seq<u8>)>>::empty(),
{
    let s = seq![B_LF];
    assert(reading_match(s) is None);
    assert(!failure_match(s));
    assert(s.skip(1) =~= Seq::<u8>::empty());
    assert(scan(s) == scan(Seq::<u8>::empty()));
}

/// For any frame built from well-formed slot outcomes, the multi-slot scan
/// yields exactly one value per slot, in the original positional order: a
/// reading's numeral pair where the slot succeeded, an absent value where
/// it failed.
pub proof fn lemma_frame_round_trip(outs: Seq<crate::frame::SlotOutcome>)
    requires
        outs.len() >= 1,
        forall|i: int| 0 <= i < outs.len() ==> (#[trigger] outs[i]).wf(),
    ensures
        scan(crate::frame::frame_of(outs)).len() == outs.len(),
        forall|i: int|
            0 <= i < outs.len() ==> scan(crate::frame::frame_of(outs))[i] == (
            #[trigger] outs[i]).value(),
    decreases outs.len(),
{
    let s = crate::frame::frame_of(outs);
    let o0 = outs[0];
    let tok = crate::frame::token_of(o0);
    if outs.len() == 1 {
        let rest = seq![B_CR, B_LF];
        assert(s == tok + rest);
        match o0 {
            crate::frame::SlotOutcome::Reading(r) => {
                let t = r.temperature@;
                let h = r.humidity@;
                assert(s =~= seq![B_T, B_COLON] + t + seq![B_SLASH, B_H, B_COLON] + h + rest);
                lemma_reading_token_match(t, h, rest);
                let l = t.len() + h.len() + 6;
                assert(s.skip(l as int) =~= seq![B_LF]);
                lemma_scan_lf();
                assert(scan(s) == seq![Some((t, h))] + scan(seq![B_LF]));
                assert(scan(s) =~= seq![Some((t, h))]);
            },
            crate::frame::SlotOutcome::Failure => {
                assert(s =~= seq![B_E, B_E, B_E] + rest);
                lemma_failure_token_match(rest);
                assert(s.skip(4) =~= seq![B_LF]);
                lemma_scan_lf();
                assert(scan(s) == seq![None::<(Seq<u8>, Seq<u8>)>] + scan(seq![B_LF]));
                assert(scan(s) =~= seq![None::<(Seq<u8>, Seq<u8>)>]);
            },
        }
    } else {
        let tail = outs.skip(1);
        let rest = seq![B_SP] + crate::frame::frame_of(tail);
        assert(s == tok + seq![B_SP] + crate::frame::frame_of(tail));
        assert(s =~= tok + rest);
        assert(rest[0] == B_SP);
        assert(forall|i: int| 0 <= i < tail.len() ==> (#[trigger] tail[i]).wf());
        lemma_frame_round_trip(tail);
        match o0 {
            crate::frame::SlotOutcome::Reading(r) => {
                let t = r.temperature@;
                let h = r.humidity@;
                assert(s =~= seq![B_T, B_COLON] + t + seq![B_SLASH, B_H, B_COLON] + h + rest);
                lemma_reading_token_match(t, h, rest);
                let l = t.len() + h.len() + 6;
                assert(s.skip(l as int) =~= crate::frame::frame_of(tail));
                assert(scan(s) == seq![Some((t, h))] + scan(crate::frame::frame_of(tail)));
            },
            crate::frame::SlotOutcome::Failure => {
                assert(s =~= seq![B_E, B_E, B_E] + rest);
                lemma_failure_token_match(rest);
                assert(s.skip(4) =~= crate::frame::frame_of(tail));
                assert(scan(s) == seq![None::<(Seq<u8>, Seq<u8>)>] + scan(
                    crate::frame::frame_of(tail),
                ));
            },
        }
        assert forall|i: int| 0 <= i < outs.len() implies scan(s)[i] == (
        #[trigger] outs[i]).value() by {
            if i > 0 {
                assert(scan(crate::frame::frame_of(tail))[i - 1] == tail[i - 1].value());
                assert(tail[i - 1] == outs[i]);
            }
        }
    }
}

proof fn lemma_scan_step(
    s: Seq<u8>,
    prev: Seq<Option<RawReading>>,
    suf: Seq<u8>,
    v: Option<(Seq<u8>, Seq<u8>)>,
    cur: Seq<Option<RawReading>>,
    nsuf: Seq<u8>,
)
    requires
        scan(suf) == seq![v] + scan(nsuf),
        prev.len() + scan(suf).len() == scan(s).len(),
        forall|k: int| 0 <= k < prev.len() ==> slot_value_of(#[trigger] prev[k]) == scan(s)[k],
        forall|k: int|
            0 <= k < scan(suf).len() ==> #[trigger] scan(suf)[k] == scan(s)[prev.len() + k],
        cur.len() == prev.len() + 1,
        forall|k: int| 0 <= k < prev.len() ==> #[trigger] cur[k] == prev[k],
        slot_value_of(cur[prev.len() as int]) == v,
    ensures
        cur.len() + scan(nsuf).len() == scan(s).len(),
        forall|k: int| 0 <= k < cur.len() ==> slot_value_of(#[trigger] cur[k]) == scan(s)[k],
        forall|k: int|
            0 <= k < scan(nsuf).len() ==> #[trigger] scan(nsuf)[k] == scan(s)[cur.len() + k],
{
    assert(scan(suf).len() == 1 + scan(nsuf).len());
    assert(scan(suf)[0] == v);
    assert forall|k: int| 0 <= k < cur.len() implies slot_value_of(#[trigger] cur[k]) == scan(s)[k]
    by {
        if k < prev.len() {
            assert(cur[k] == prev[k]);
        } else {
            assert(scan(suf)[0] == scan(s)[prev.len() as int]);
        }
    }
    assert forall|k: int| 0 <= k < scan(nsuf).len() implies #[trigger] scan(nsuf)[k] == scan(s)[
        cur.len() + k
    ] by {
        assert(scan(suf)[k + 1] == scan(s)[prev.len() + k + 1]);
        assert(scan(suf)[k + 1] == (seq![v] + scan(nsuf))[k + 1]);
    }
}

/// Scan a whole line under the multi-slot grammar and return every slot
/// value found, in positional order.
pub fn scan_line(s: &Vec<u8>) -> (r: Vec<Option<RawReading>>)
    ensures
        r@.len() == scan(s@).len(),
        forall|k: int| 0 <= k < r@.len() ==> slot_value_of(#[trigger] r@[k]) == scan(s@)[k],
{
    let mut out: Vec<Option<RawReading>> = Vec::new();
    let mut i: usize = 0;
    proof {
        assert(s@.skip(0) =~= s@);
    }
    while i < s.len()
        invariant
            i <= s@.len(),
            out@.len() + scan(s@.skip(i as int)).len() == scan(s@).len(),
            forall|k: int|
                0 <= k < out@.len() ==> slot_value_of(#[trigger] out@[k]) == scan(s@)[k],
            forall|k: int|
                0 <= k < scan(s@.skip(i as int)).len() ==> scan(s@.skip(i as int))[k] == scan(s@)[
                    out@.len() + k
                ],
        decreases s@.len() - i,
    {
        let ghost suf = s@.skip(i as int);
        let ghost prev = out@;
        match reading_match_at(s, i) {
            Some((rd, l)) => {
                let ghost v = Some((rd.temperature@, rd.humidity@));
                proof {
                    lemma_skip_skip(s@, i as int, l as int);
                    assert(scan(suf) == seq![v] + scan(s@.skip(i as int + l)));
                }
                out.push(Some(rd));
                i += l;
                proof {
                    lemma_scan_step(s@, prev, suf, v, out@, s@.skip(i as int));
                }
            },
            None => {
                if failure_match_at(s, i) {
                    let ghost v = None::<(Seq<u8>, Seq<u8>)>;
                    proof {
                        lemma_skip_skip(s@, i as int, 4);
                        assert(scan(suf) == seq![v] + scan(s@.skip(i as int + 4)));
                    }
                    out.push(None);
                    i += 4;
                    proof {
                        lemma_scan_step(s@, prev, suf, v, out@, s@.skip(i as int));
                    }
                } else {
                    proof {
                        lemma_skip_skip(s@, i as int, 1);
                        assert(suf.len() > 0);
                        assert(scan(suf) == scan(s@.skip(i as int + 1)));
                    }
                    i += 1;
                }
            },
        }
    }
    proof {
        assert(s@.skip(i as int).len() == 0);
        assert(scan(s@.skip(i as int)).len() == 0);
    }
    out
}

} // verus!
