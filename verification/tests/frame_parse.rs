use sensor_relay::frame::{encode_frame, RawReading, SlotOutcome};
use sensor_relay::parse::{parse_line, FrameGrammar};

fn reading(t: &str, h: &str) -> SlotOutcome {
    SlotOutcome::Reading(RawReading {
        temperature: t.as_bytes().to_vec(),
        humidity: h.as_bytes().to_vec(),
    })
}

fn pairs(slots: &[Option<RawReading>]) -> Vec<Option<(String, String)>> {
    slots
        .iter()
        .map(|s| {
            s.as_ref().map(|r| {
                (
                    String::from_utf8(r.temperature.clone()).unwrap(),
                    String::from_utf8(r.humidity.clone()).unwrap(),
                )
            })
        })
        .collect()
}

#[test]
fn encode_two_slots_exact_line() {
    let outs = vec![reading("21.5", "55.2"), SlotOutcome::Failure];
    let line = encode_frame(&outs);
    assert_eq!(line, b"T:21.5/H:55.2 EEE\r\n".to_vec());
}

#[test]
fn encode_single_slot_exact_line() {
    let outs = vec![reading("19", "60.1")];
    let line = encode_frame(&outs);
    assert_eq!(line, b"T:19/H:60.1\r\n".to_vec());
}

#[test]
fn parse_well_formed_frame_yields_pairs_in_order() {
    let line = b"T:21.5/H:55.2 T:20.1/H:50.0 T:19.9/H:60.1 T:18.0/H:40.5\r\n".to_vec();
    let slots = parse_line(&line, &FrameGrammar::MultiSlot);
    assert_eq!(
        pairs(&slots),
        vec![
            Some(("21.5".to_string(), "55.2".to_string())),
            Some(("20.1".to_string(), "50.0".to_string())),
            Some(("19.9".to_string(), "60.1".to_string())),
            Some(("18.0".to_string(), "40.5".to_string())),
        ]
    );
}

#[test]
fn parse_failure_marker_yields_absent_slot() {
    let line = b"T:21.5/H:55.2 EEE T:20.1/H:50.0 T:19.9/H:60.1\r\n".to_vec();
    let slots = parse_line(&line, &FrameGrammar::MultiSlot);
    let p = pairs(&slots);
    assert_eq!(p.len(), 4);
    assert!(p[1].is_none());
    assert_eq!(p[2], Some(("20.1".to_string(), "50.0".to_string())));
}

#[test]
fn parse_round_trips_encoded_frame() {
    let outs = vec![
        reading("21.5", "55.2"),
        SlotOutcome::Failure,
        reading("20", "50"),
        reading("19.9", "60.1"),
    ];
    let line = encode_frame(&outs);
    let slots = parse_line(&line, &FrameGrammar::MultiSlot);
    assert_eq!(
        pairs(&slots),
        vec![
            Some(("21.5".to_string(), "55.2".to_string())),
            None,
            Some(("20".to_string(), "50".to_string())),
            Some(("19.9".to_string(), "60.1".to_string())),
        ]
    );
}

#[test]
fn parse_skips_corrupted_token() {
    // The middle token lost its humidity part: only two slots are found.
    let line = b"T:21.5/H:55.2 T:20.1/H: T:19.9/H:60.1\r\n".to_vec();
    let slots = parse_line(&line, &FrameGrammar::MultiSlot);
    assert_eq!(slots.len(), 2);
}

#[test]
fn parse_needs_trailing_whitespace_on_last_token() {
    // Without the line terminator the last token is not closed by
    // whitespace and is not counted.
    let line = b"T:21.5/H:55.2 T:20.1/H:50.0".to_vec();
    let slots = parse_line(&line, &FrameGrammar::MultiSlot);
    assert_eq!(slots.len(), 1);
}

#[test]
fn parse_multi_slot_has_no_line_start_anchor() {
    let line = b"xx T:21.5/H:55.2\r\n".to_vec();
    let slots = parse_line(&line, &FrameGrammar::MultiSlot);
    assert_eq!(slots.len(), 1);
}

#[test]
fn terse_parses_anchored_single_token() {
    let line = b"T:21.5 H:55.2\r\n".to_vec();
    let slots = parse_line(&line, &FrameGrammar::TerseSingle);
    assert_eq!(
        pairs(&slots),
        vec![Some(("21.5".to_string(), "55.2".to_string()))]
    );
}

#[test]
fn terse_requires_line_start_anchor() {
    let line = b" T:21.5 H:55.2\r\n".to_vec();
    let slots = parse_line(&line, &FrameGrammar::TerseSingle);
    assert_eq!(slots.len(), 0);
}

#[test]
fn terse_rejects_trailing_garbage() {
    let line = b"T:21.5 H:55.2 x\r\n".to_vec();
    let slots = parse_line(&line, &FrameGrammar::TerseSingle);
    assert_eq!(slots.len(), 0);
}

#[test]
fn terse_accepts_bare_line_feed() {
    let line = b"T:3 H:4\n".to_vec();
    let slots = parse_line(&line, &FrameGrammar::TerseSingle);
    assert_eq!(pairs(&slots), vec![Some(("3".to_string(), "4".to_string()))]);
}
