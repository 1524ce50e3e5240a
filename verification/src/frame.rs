//! Wire framing for one sampling cycle.
//!
//! A frame is a single ASCII line carrying one token per sensor slot, in
//! positional order: either a reading token `T:<decimal>/H:<decimal>` or the
//! three-byte failure marker `EEE`. Tokens are joined by a single space and
//! the line ends with a carriage return and a line feed.

use vstd::prelude::*;

verus! {

/// ASCII byte constants used by the frame grammar.
pub const B_T: u8 = 0x54;
pub const B_H: u8 = 0x48;
pub const B_E: u8 = 0x45;
pub const B_COLON: u8 = 0x3a;
pub const B_SLASH: u8 = 0x2f;
pub const B_DOT: u8 = 0x2e;
pub const B_SP: u8 = 0x20;
pub const B_CR: u8 = 0x0d;
pub const B_LF: u8 = 0x0a;

/// An ASCII decimal digit.
pub open spec fn is_digit(b: u8) -> bool {
    0x30 <= b <= 0x39
}

/// A whitespace byte, as the frame grammar accepts after a token:
/// space, tab, line feed, vertical tab, form feed or carriage return.
pub open spec fn is_space(b: u8) -> bool {
    b == 0x20 || b == 0x09 || b == 0x0a || b == 0x0b || b == 0x0c || b == 0x0d
}

/// Every byte of `s` is a digit.
pub open spec fn all_digits(s: Seq<u8>) -> bool {
    forall|i: int| 0 <= i < s.len() ==> is_digit(#[trigger] s[i])
}

/// A non-negative decimal numeral: one or more digits, optionally followed
/// by a dot and one or more digits.
pub open spec fn is_decimal(s: Seq<u8>) -> bool {
    (s.len() > 0 && all_digits(s)) || (exists|k: int|
        1 <= k <= s.len() - 2 && s[k] == B_DOT && all_digits(#[trigger] s.subrange(0, k))
            && all_digits(s.subrange(k + 1, s.len() as int)))
}

/// The outcome of sampling one slot: a reading carries the temperature and
/// humidity numerals exactly as they appear on the wire.
pub struct RawReading {
    pub temperature: Vec<u8>,
    pub humidity: Vec<u8>,
}

/// One slot's outcome within a cycle: a reading, or an explicit failure.
pub enum SlotOutcome {
    Reading(RawReading),
    Failure,
}

impl SlotOutcome {
    /// A well-formed outcome carries syntactically valid numerals.
    pub open spec fn wf(self) -> bool {
        match self {
            SlotOutcome::Reading(r) => is_decimal(r.temperature@) && is_decimal(r.humidity@),
            SlotOutcome::Failure => true,
        }
    }

    /// The value a slot contributes after parsing: the numeral pair of a
    /// reading, or nothing for a failed slot.
    pub open spec fn value(self) -> Option<(Seq<u8>, Seq<u8>)> {
        match self {
            SlotOutcome::Reading(r) => Some((r.temperature@, r.humidity@)),
            SlotOutcome::Failure => None,
        }
    }
}

/// The token text of one outcome.
pub open spec fn token_of(o: SlotOutcome) -> Seq<u8> {
    match o {
        SlotOutcome::Reading(r) => seq![B_T, B_COLON] + r.temperature@ + seq![
            B_SLASH,
            B_H,
            B_COLON,
        ] + r.humidity@,
        SlotOutcome::Failure => seq![B_E, B_E, B_E],
    }
}

/// The frame line for a sequence of outcomes: tokens joined by single
/// spaces, terminated by a carriage return and a line feed.
pub open spec fn frame_of(outs: Seq<SlotOutcome>) -> Seq<u8>
    decreases outs.len(),
{
    if outs.len() == 0 {
        seq![B_CR, B_LF]
    } else if outs.len() == 1 {
        token_of(outs[0]) + seq![B_CR, B_LF]
    } else {
        token_of(outs[0]) + seq![B_SP] + frame_of(outs.skip(1))
    }
}

/// Append the token of one outcome to the line under construction.
fn push_token(line: &mut Vec<u8>, o: &SlotOutcome)
    ensures
        final(line)@ == old(line)@ + token_of(*o),
{
    match o {
        SlotOutcome::Reading(r) => {
            line.push(B_T);
            line.push(B_COLON);
            let mut i: usize = 0;
            while i < r.temperature.len()
                invariant
                    i <= r.temperature.len(),
                    line@ == old(line)@ + seq![B_T, B_COLON] + r.temperature@.subrange(0, i as int),
                decreases r.temperature.len() - i,
            {
                line.push(r.temperature[i]);
                i += 1;
                assert(r.temperature@.subrange(0, i as int) =~= r.temperature@.subrange(
                    0,
                    i - 1,
                ).push(r.temperature@[i - 1]));
            }
            assert(r.temperature@.subrange(0, r.temperature@.len() as int) =~= r.temperature@);
            line.push(B_SLASH);
            line.push(B_H);
            line.push(B_COLON);
            let mut j: usize = 0;
            while j < r.humidity.len()
                invariant
                    j <= r.humidity.len(),
                    line@ == old(line)@ + seq![B_T, B_COLON] + r.temperature@ + seq![
                        B_SLASH,
                        B_H,
                        B_COLON,
                    ] + r.humidity@.subrange(0, j as int),
                decreases r.humidity.len() - j,
            {
                line.push(r.humidity[j]);
                j += 1;
                assert(r.humidity@.subrange(0, j as int) =~= r.humidity@.subrange(0, j - 1).push(
                    r.humidity@[j - 1],
                ));
            }
            assert(r.humidity@.subrange(0, r.humidity@.len() as int) =~= r.humidity@);
            assert(line@ =~= old(line)@ + token_of(*o));
        },
        SlotOutcome::Failure => {
            line.push(B_E);
            line.push(B_E);
            line.push(B_E);
            assert(line@ =~= old(line)@ + token_of(*o));
        },
    }
}

/// Encode one cycle's outcomes as the frame line that goes on the wire.
///
/// A failed slot contributes its failure marker and never suppresses the
/// frame: the line always carries exactly one token per slot.
pub fn encode_frame(outs: &Vec<SlotOutcome>) -> (r: Vec<u8>)
    requires
        outs@.len() > 0,
    ensures
        r@ == frame_of(outs@),
{
    let n = outs.len();
    let mut line: Vec<u8> = Vec::new();
    let mut i: usize = 0;
    proof {
        assert(outs@.skip(0) =~= outs@);
        assert(line@ + frame_of(outs@) =~= frame_of(outs@));
    }
    while i + 1 < n
        invariant
            n == outs@.len(),
            i < n,
            line@ + frame_of(outs@.skip(i as int)) == frame_of(outs@),
        decreases n - i,
    {
        push_token(&mut line, &outs[i]);
        line.push(B_SP);
        proof {
            assert(outs@.skip(i as int).len() >= 2);
            assert(outs@.skip(i as int)[0] == outs@[i as int]);
            assert(outs@.skip(i as int).skip(1) =~= outs@.skip(i as int + 1));
            assert(frame_of(outs@.skip(i as int)) == token_of(outs@[i as int]) + seq![B_SP]
                + frame_of(outs@.skip(i as int + 1)));
            assert(line@ + frame_of(outs@.skip(i as int + 1)) =~= frame_of(outs@));
        }
        i += 1;
    }
    push_token(&mut line, &outs[i]);
    line.push(B_CR);
    line.push(B_LF);
    proof {
        assert(outs@.skip(i as int).len() == 1);
        assert(outs@.skip(i as int)[0] == outs@[i as int]);
        assert(frame_of(outs@.skip(i as int)) == token_of(outs@[i as int]) + seq![B_CR, B_LF]);
        assert(line@ =~= frame_of(outs@));
    }
    line
}

} // verus!
