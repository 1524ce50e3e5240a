use sensor_relay::frame::RawReading;
use sensor_relay::parse::FrameGrammar;
use sensor_relay::relay::{classify_acquisition, make_record, plan_deliveries, AcquisitionEvent};
use sensor_relay::retry::{acquisition_policy, delivery_policy, run_retries, should_attempt};

fn raw(t: &str, h: &str) -> RawReading {
    RawReading {
        temperature: t.as_bytes().to_vec(),
        humidity: h.as_bytes().to_vec(),
    }
}

#[test]
fn acquisition_two_failures_then_success() {
    let outcomes = vec![false, false, true, true, true];
    let report = run_retries(&outcomes, &acquisition_policy());
    assert!(report.succeeded);
    assert_eq!(report.attempts, 3);
    assert_eq!(report.sleeps, vec![1, 1]);
}

#[test]
fn acquisition_immediate_success_sleeps_never() {
    let outcomes = vec![true, false, false, false, false];
    let report = run_retries(&outcomes, &acquisition_policy());
    assert!(report.succeeded);
    assert_eq!(report.attempts, 1);
    assert_eq!(report.sleeps, Vec::<u64>::new());
}

#[test]
fn acquisition_exhaustion_is_terminal() {
    let outcomes = vec![false; 5];
    let report = run_retries(&outcomes, &acquisition_policy());
    assert!(!report.succeeded);
    assert_eq!(report.attempts, 5);
    assert_eq!(report.sleeps, vec![1, 1, 1, 1, 1]);
    // The budget is spent: the live loop would not attempt again.
    assert!(!should_attempt(report.attempts, &acquisition_policy()));
}

#[test]
fn delivery_exhaustion_sleeps_linearly() {
    let outcomes = vec![false; 5];
    let report = run_retries(&outcomes, &delivery_policy());
    assert!(!report.succeeded);
    assert_eq!(report.attempts, 5);
    assert_eq!(report.sleeps, vec![0, 1, 2, 3, 4]);
}

#[test]
fn delivery_failure_of_one_slot_leaves_others_untouched() {
    // Two independent slots: the first exhausts its own budget, the
    // second succeeds at once with its own fresh budget.
    let first = run_retries(&vec![false; 5], &delivery_policy());
    let second = run_retries(&vec![true, true, true, true, true], &delivery_policy());
    assert!(!first.succeeded);
    assert_eq!(first.attempts, 5);
    assert!(second.succeeded);
    assert_eq!(second.attempts, 1);
    assert_eq!(second.sleeps, Vec::<u64>::new());
}

#[test]
fn classify_missing_line_as_failure() {
    let ev = classify_acquisition(None, &FrameGrammar::MultiSlot, 4);
    assert!(matches!(ev, AcquisitionEvent::Failed));
}

#[test]
fn classify_wrong_slot_count_as_failure() {
    let line = b"T:21.5/H:55.2 T:20.1/H:50.0 T:19.9/H:60.1\r\n".to_vec();
    let ev = classify_acquisition(Some(line), &FrameGrammar::MultiSlot, 4);
    assert!(matches!(ev, AcquisitionEvent::Failed));
}

#[test]
fn classify_full_frame_as_acquired() {
    let line = b"T:21.5/H:55.2 EEE T:20.1/H:50.0 T:19.9/H:60.1\r\n".to_vec();
    let ev = classify_acquisition(Some(line), &FrameGrammar::MultiSlot, 4);
    match ev {
        AcquisitionEvent::Acquired(slots) => {
            assert_eq!(slots.len(), 4);
            assert!(slots[0].is_some());
            assert!(slots[1].is_none());
        }
        AcquisitionEvent::Failed => panic!("frame with four tokens must be acquired"),
    }
}

#[test]
fn end_to_end_plan_forwards_three_records() {
    let line = b"T:21.5/H:55.2 EEE T:20.1/H:50.0 T:19.9/H:60.1\r\n".to_vec();
    let slots = match classify_acquisition(Some(line), &FrameGrammar::MultiSlot, 4) {
        AcquisitionEvent::Acquired(slots) => slots,
        AcquisitionEvent::Failed => panic!("frame must parse"),
    };
    let bindings = vec![
        Some("a".to_string()),
        None,
        Some("b".to_string()),
        Some("c".to_string()),
    ];
    let plan = plan_deliveries(&slots, &bindings);
    assert_eq!(plan.len(), 3);
    assert_eq!(plan[0].sensor, "a");
    assert_eq!(plan[0].slot, 0);
    assert_eq!(plan[0].temperature, b"21.5".to_vec());
    assert_eq!(plan[1].sensor, "b");
    assert_eq!(plan[1].slot, 2);
    assert_eq!(plan[1].temperature, b"20.1".to_vec());
    assert_eq!(plan[2].sensor, "c");
    assert_eq!(plan[2].slot, 3);
    assert_eq!(plan[2].humidity, b"60.1".to_vec());
}

#[test]
fn failed_slot_produces_no_record_even_when_bound() {
    let slots = vec![None, Some(raw("20.1", "50.0"))];
    let bindings = vec![Some("bound".to_string()), Some("other".to_string())];
    let plan = plan_deliveries(&slots, &bindings);
    assert_eq!(plan.len(), 1);
    assert_eq!(plan[0].sensor, "other");
    assert_eq!(plan[0].slot, 1);
}

#[test]
fn unbound_slot_is_parsed_but_not_forwarded() {
    let slots = vec![Some(raw("21.5", "55.2"))];
    let bindings = vec![None];
    let plan = plan_deliveries(&slots, &bindings);
    assert_eq!(plan.len(), 0);
}

#[test]
fn record_carries_delivery_fields() {
    let slots = vec![Some(raw("21.5", "55.2"))];
    let bindings = vec![Some("a".to_string())];
    let plan = plan_deliveries(&slots, &bindings);
    let rec = make_record(&plan[0]);
    assert_eq!(rec.sensor, "a");
    assert_eq!(rec.temperature, b"21.5".to_vec());
    assert_eq!(rec.humidity, b"55.2".to_vec());
}

#[test]
fn classify_empty_line_as_failure() {
    let ev = classify_acquisition(Some(Vec::new()), &FrameGrammar::MultiSlot, 4);
    assert!(matches!(ev, AcquisitionEvent::Failed));
}
