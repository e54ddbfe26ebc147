use std::collections::HashSet;

use titan::input::{update_button_alias, ActionValue, InputFrame, InputRecording, InputTracker, RecordingHeader};
use titan::replay::RecordedButtons;

const MOVE: u32 = 0;
const INTERACT: u32 = 1;
const JUMP: u32 = 2;

fn mapping(key: u32) -> Option<u32> {
    match key {
        1 | 2 => Some(MOVE),
        3 => Some(JUMP),
        _ => None,
    }
}

#[test]
fn physical_aliases_repeat_release_and_focus_reset() {
    let mut held = HashSet::new();
    {
        let mut update = |key, pressed| update_button_alias(&mut held, key, pressed, mapping);
        assert_eq!(update(1, true), Some((MOVE, true)));
        assert_eq!(update(1, true), Some((MOVE, true)));
        assert_eq!(update(2, true), Some((MOVE, true)));
        assert_eq!(update(3, true), Some((JUMP, true)));
        assert_eq!(update(1, false), Some((MOVE, true)));
        assert_eq!(update(2, false), Some((MOVE, false)));
        assert_eq!(update(9, true), None);
    }
    assert_eq!(held.len(), 1);
    held.clear();
    assert_eq!(update_button_alias(&mut held, 3, false, mapping), Some((JUMP, false)));
    assert!(held.is_empty());
}

#[test]
fn tracker_records_edges_and_analog_values() {
    let mut tracker = InputTracker::new();
    let first = tracker.sample(&[(MOVE, ActionValue::axis(-12_000)), (INTERACT, ActionValue::pressed())]);
    let held = tracker.sample(&[(MOVE, ActionValue::axis(-8_000))]);
    let released = tracker.sample(&[]);

    assert!(first.just_pressed(MOVE));
    assert!(first.just_pressed(INTERACT));
    assert_eq!(first.value(MOVE).raw(), -12_000);
    assert!(!held.just_pressed(MOVE));
    assert!(held.just_released(INTERACT));
    assert!(released.just_released(MOVE));
}

#[test]
fn recording_preserves_interpretation_metadata_and_frames() {
    let header = RecordingHeader::new(16_666_667, 42, 0x1234);
    let mut recording = InputRecording::new(header);
    recording.push(InputTracker::new().sample(&[(MOVE, ActionValue::pressed())]));

    assert_eq!(recording.header(), header);
    assert_eq!(recording.len(), 1);
    assert!(recording.frames()[0].is_active(MOVE));
}

#[test]
fn duplicate_samples_keep_the_final_supplied_value() {
    let mut tracker = InputTracker::new();
    let frame = tracker.sample(&[
        (MOVE, ActionValue::axis(5)),
        (MOVE, ActionValue::released()),
        (JUMP, ActionValue::released()),
        (JUMP, ActionValue::axis(7)),
    ]);
    assert!(!frame.is_active(MOVE));
    assert_eq!(frame.value(MOVE).raw(), 0);
    assert!(!frame.just_pressed(MOVE));
    assert_eq!(frame.value(JUMP).raw(), 7);
    assert!(frame.just_pressed(JUMP));
    assert_eq!(frame.active_actions(), vec![(JUMP, ActionValue::axis(7))]);
    let next = tracker.sample(&[(JUMP, ActionValue::axis(7)), (JUMP, ActionValue::released())]);
    assert!(next.just_released(JUMP));
    assert!(!next.is_active(JUMP));
}

#[test]
fn an_empty_frame_has_no_edges() {
    let frame = InputFrame::new();
    assert_eq!(frame.value(MOVE).raw(), 0);
    assert!(frame.pressed_actions().is_empty());
    assert!(frame.released_actions().is_empty());
    assert!(InputRecording::new(RecordingHeader::new(1, 2, 3)).is_empty());
}

fn schema() -> Vec<(u32, String)> {
    vec![(1, "jump".to_owned()), (2, "interact".to_owned())]
}

fn buttons(active: &[&str], pressed: &[&str], released: &[&str]) -> RecordedButtons {
    let names = |list: &[&str]| list.iter().map(|name| name.to_string()).collect();
    RecordedButtons { active: names(active), pressed: names(pressed), released: names(released) }
}

#[test]
fn independent_consumed_edges_roundtrip_without_inventing_start_press() {
    for frame in [buttons(&["jump"], &[], &[]), buttons(&["jump"], &["jump"], &[]), buttons(&[], &[], &["jump"])] {
        assert_eq!(RecordedButtons::capture(&frame.decode(&schema()).unwrap(), &schema()).unwrap(), frame);
    }
    let mut bad = buttons(&[], &[], &[]);
    bad.pressed.push("jump".into());
    assert!(bad.decode(&schema()).is_err());
    bad.active = vec!["jump".into(), "jump".into()];
    assert!(bad.decode(&schema()).is_err());
    bad.active = vec!["missing".into()];
    assert!(bad.decode(&schema()).is_err());
}

#[test]
fn capture_rejects_analog_unmapped_actions_and_unmapped_releases() {
    let mut tracker = InputTracker::new();
    assert!(RecordedButtons::capture(&tracker.sample(&[(1, ActionValue::axis(12))]), &schema()).is_err());
    assert!(RecordedButtons::capture(&tracker.sample(&[(3, ActionValue::pressed())]), &schema()).is_err());
    assert!(RecordedButtons::capture(&tracker.sample(&[]), &schema()).is_err());
    assert!(buttons(&[], &[], &[])
        .decode(&[(1, "duplicate".to_owned()), (2, "duplicate".to_owned())])
        .is_err());
}

#[test]
fn decode_reports_each_error_message() {
    let schema = schema();
    assert_eq!(
        buttons(&["fly"], &[], &[]).decode(&schema).unwrap_err(),
        "unknown recorded action: fly"
    );
    assert_eq!(buttons(&["jump", "jump"], &[], &[]).decode(&schema).unwrap_err(), "duplicate recorded action");
    assert_eq!(
        buttons(&["jump", "interact", "jump"], &[], &[]).decode(&schema).unwrap_err(),
        "too many actions in recorded frame"
    );
    assert_eq!(
        buttons(&["jump"], &[], &["jump"]).decode(&schema).unwrap_err(),
        "recorded edges conflict with active actions"
    );
    assert_eq!(
        buttons(&[], &[], &[]).decode(&[(1, String::new())]).unwrap_err(),
        "recording action schema must have unique actions and nonempty names"
    );
}

#[test]
fn decoded_frames_hold_pressed_values_and_edges() {
    let frame = buttons(&["interact", "jump"], &["interact"], &[]).decode(&schema()).unwrap();
    assert_eq!(frame.value(1).raw(), i16::MAX);
    assert_eq!(frame.value(2).raw(), i16::MAX);
    assert!(frame.just_pressed(2));
    assert!(!frame.just_pressed(1));
    let captured = RecordedButtons::capture(&frame, &schema()).unwrap();
    assert_eq!(captured, buttons(&["jump", "interact"], &["interact"], &[]));
}

#[test]
fn capture_messages_name_the_rejected_input() {
    let mut tracker = InputTracker::new();
    assert_eq!(
        RecordedButtons::capture(&tracker.sample(&[(1, ActionValue::axis(3))]), &schema()).unwrap_err(),
        "recording requires mapped digital button values"
    );
    tracker.sample(&[(7, ActionValue::pressed())]);
    let mut fresh = InputTracker::new();
    fresh.sample(&[(7, ActionValue::pressed())]);
    assert_eq!(
        RecordedButtons::capture(&fresh.sample(&[]), &schema()).unwrap_err(),
        "recording requires mapped release edges"
    );
}
