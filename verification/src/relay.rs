//! The relay agent's cycle: classify one acquisition, align the parsed
//! slots with the configured sensor bindings, and stamp one record per
//! forwardable slot at its own send time.

use vstd::prelude::*;
use crate::parse::{frame_slots, parse_line, slot_value_of, FrameGrammar};
use crate::frame::RawReading;

verus! {

/// What one acquisition attempt produced: the per-slot values of a frame
/// that yielded exactly the configured slot count, or a failure. An I/O
/// error and a malformed frame are the same event: both consume one
/// attempt of the shared acquisition budget.
pub enum AcquisitionEvent {
    Acquired(Vec<Option<RawReading>>),
    Failed,
}

/// Classify one acquisition attempt: no line, or a line whose token count
/// differs from the configured slot count `n`, is a failure; a line with
/// exactly `n` tokens yields its slot values in positional order.
pub fn classify_acquisition(line: Option<Vec<u8>>, g: &FrameGrammar, n: usize) -> (r:
    AcquisitionEvent)
    ensures
        match line {
            None => r is Failed,
            Some(b) => {
                if frame_slots(*g, b@).len() == n {
                    match r {
                        AcquisitionEvent::Acquired(slots) => {
                            &&& slots@.len() == n
                            &&& forall|k: int|
                                0 <= k < n ==> slot_value_of(#[trigger] slots@[k]) == frame_slots(
                                    *g,
                                    b@,
                                )[k]
                        },
                        AcquisitionEvent::Failed => false,
                    }
                } else {
                    r is Failed
                }
            },
        },
{
    match line {
        None => AcquisitionEvent::Failed,
        Some(b) => {
            let slots = parse_line(&b, g);
            if slots.len() == n {
                AcquisitionEvent::Acquired(slots)
            } else {
                AcquisitionEvent::Failed
            }
        },
    }
}

/// One slot's pending delivery: the slot's position, the logical sensor
/// bound to it, and the numerals read from the frame.
pub struct Delivery {
    pub slot: usize,
    pub sensor: String,
    pub temperature: Vec<u8>,
    pub humidity: Vec<u8>,
}

/// The view of one pending delivery.
pub open spec fn delivery_view(d: Delivery) -> (int, Seq<char>, Seq<u8>, Seq<u8>) {
    (d.slot as int, d.sensor@, d.temperature@, d.humidity@)
}

/// The deliveries owed for parsed slots and bindings, counting slots from
/// `base`: exactly the slots that carry both a successful reading and a
/// configured binding, in positional order.
pub open spec fn plan_of(
    rs: Seq<Option<RawReading>>,
    bs: Seq<Option<String>>,
    base: int,
) -> Seq<(int, Seq<char>, Seq<u8>, Seq<u8>)>
    decreases rs.len(),
{
    if rs.len() == 0 || bs.len() == 0 {
        Seq::empty()
    } else {
        let rest = plan_of(rs.skip(1), bs.skip(1), base + 1);
        match (rs[0], bs[0]) {
            (Some(r), Some(sid)) => seq![(base, sid@, r.temperature@, r.humidity@)] + rest,
            _ => rest,
        }
    }
}

/// Align the parsed slots with the configured bindings: one pending
/// delivery for every slot that has both a reading and a binding. A failed
/// slot produces nothing, whatever its binding; an unbound slot is parsed
/// but never forwarded.
pub fn plan_deliveries(readings: &Vec<Option<RawReading>>, bindings: &Vec<Option<String>>) -> (r:
    Vec<Delivery>)
    requires
        readings@.len() == bindings@.len(),
    ensures
        r@.len() == plan_of(readings@, bindings@, 0).len(),
        forall|k: int|
            0 <= k < r@.len() ==> delivery_view(#[trigger] r@[k]) == plan_of(
                readings@,
                bindings@,
                0,
            )[k],
{
    let n = readings.len();
    let mut out: Vec<Delivery> = Vec::new();
    let mut i: usize = 0;
    let ghost whole = plan_of(readings@, bindings@, 0);
    proof {
        assert(readings@.skip(0) =~= readings@);
        assert(bindings@.skip(0) =~= bindings@);
    }
    while i < n
        invariant
            n == readings@.len() == bindings@.len(),
            i <= n,
            whole == plan_of(readings@, bindings@, 0),
            out@.len() + plan_of(readings@.skip(i as int), bindings@.skip(i as int), i as int).len()
                == whole.len(),
            forall|k: int|
                0 <= k < out@.len() ==> delivery_view(#[trigger] out@[k]) == whole[k],
            forall|k: int|
                0 <= k < plan_of(readings@.skip(i as int), bindings@.skip(i as int), i as int).len()
                    ==> #[trigger] plan_of(
                    readings@.skip(i as int),
                    bindings@.skip(i as int),
                    i as int,
                )[k] == whole[out@.len() + k],
        decreases n - i,
    {
        let ghost prevlen = out@.len() as int;
        let ghost rsuf = readings@.skip(i as int);
        let ghost bsuf = bindings@.skip(i as int);
        proof {
            assert(rsuf[0] == readings@[i as int]);
            assert(bsuf[0] == bindings@[i as int]);
            assert(readings@.skip(i as int).skip(1) =~= readings@.skip(i as int + 1));
            assert(bindings@.skip(i as int).skip(1) =~= bindings@.skip(i as int + 1));
        }
        match (&readings[i], &bindings[i]) {
            (Some(r), Some(sid)) => {
                let d = Delivery {
                    slot: i,
                    sensor: sid.clone(),
                    temperature: r.temperature.clone(),
                    humidity: r.humidity.clone(),
                };
                proof {
                    assert(plan_of(rsuf, bsuf, i as int) == seq![
                        (i as int, sid@, r.temperature@, r.humidity@),
                    ] + plan_of(readings@.skip(i as int + 1), bindings@.skip(i as int + 1), i as int + 1));
                    assert(delivery_view(d) == plan_of(rsuf, bsuf, i as int)[0]);
                }
                out.push(d);
                proof {
                    assert(delivery_view(out@[prevlen]) == whole[prevlen]);
                    let nsuf = plan_of(
                        readings@.skip(i as int + 1),
                        bindings@.skip(i as int + 1),
                        i as int + 1,
                    );
                    assert forall|k: int| 0 <= k < nsuf.len() implies #[trigger] nsuf[k] == whole[
                        out@.len() + k
                    ] by {
                        assert(plan_of(rsuf, bsuf, i as int)[k + 1] == whole[prevlen + k + 1]);
                        assert(plan_of(rsuf, bsuf, i as int)[k + 1] == nsuf[k]);
                    }
                }
            },
            _ => {
                proof {
                    assert(plan_of(rsuf, bsuf, i as int) == plan_of(
                        readings@.skip(i as int + 1),
                        bindings@.skip(i as int + 1),
                        i as int + 1,
                    ));
                }
            },
        }
        i += 1;
    }
    proof {
        assert(readings@.skip(i as int).len() == 0);
    }
    out
}

/// A record as delivered to the collector: the bound sensor, the send-time
/// stamp in whole seconds since the Unix epoch, and the numerals read from
/// the frame.
pub struct TelemetryRecord {
    pub sensor: String,
    pub timestamp_secs: i64,
    pub temperature: Vec<u8>,
    pub humidity: Vec<u8>,
}

/// Build the record for one pending delivery, stamped with the clock at
/// the moment of this call: each slot's record carries its own send time,
/// not the read time.
pub fn make_record(d: &Delivery) -> (r: TelemetryRecord)
    ensures
        r.sensor@ == d.sensor@,
        r.temperature@ == d.temperature@,
        r.humidity@ == d.humidity@,
{
    TelemetryRecord {
        sensor: d.sensor.clone(),
        timestamp_secs: crate::clock::now_unix_seconds(),
        temperature: d.temperature.clone(),
        humidity: d.humidity.clone(),
    }
}

} // verus!
