use serde_json::Value;
use titan::replay::{Playback, RecordedButtons, RecordingIdentity, SnapshotRecorder, SnapshotRecording};

fn level(number: i64) -> Value {
    let mut map = serde_json::Map::new();
    map.insert("level".to_owned(), Value::from(number));
    Value::Object(map)
}

fn identity() -> RecordingIdentity<'static> {
    RecordingIdentity { game_seed: 42, action_schema: "test-buttons-v1", fixed_step_nanos: 100, max_ticks: 2 }
}

fn empty() -> RecordedButtons {
    RecordedButtons { active: vec![], pressed: vec![], released: vec![] }
}

fn recording() -> SnapshotRecording {
    let mut recorder = SnapshotRecorder::new(level(3), 19, 2);
    recorder.push(empty());
    recorder.push(empty());
    recorder.export(identity(), Value::Null, Some(level(4)), "pixels".into()).unwrap()
}

#[test]
fn playback_never_overshoots_and_verification_only_follows_completion() {
    let mut playback = Playback::new(recording(), level(4));
    assert!(playback.finish(Ok(())).is_err());
    assert_eq!(playback.position(), 0);
    assert!(playback.next_frame().is_some());
    assert_eq!(playback.remaining(), 1);
    assert!(playback.next_frame().is_some());
    assert!(playback.complete());
    assert!(playback.next_frame().is_none());
    assert_eq!(playback.position(), 2);
    playback.finish(Err("pixels differ".into())).unwrap();
    assert_eq!(playback.verified(), Some(false));
    assert_eq!(playback.error(), Some("pixels differ"));
    assert!(playback.finish(Ok(())).is_err());
}

#[test]
fn recorder_keeps_its_prefix_and_first_invalid_reason() {
    let mut recorder = SnapshotRecorder::new(Value::Null, 7, 1);
    recorder.push(empty());
    recorder.push(empty());
    assert_eq!(recorder.len(), 1);
    assert!(recorder.truncated());
    recorder.invalidate("external mutation".into());
    recorder.invalidate("later".into());
    assert_eq!(recorder.invalid_reason(), Some("external mutation"));
    assert!(recorder.export(identity(), Value::Null, None, "x".into()).is_err(), "identity limit must match recorder");
    let matching = RecordingIdentity { max_ticks: 1, ..identity() };
    let invalid = recorder.export(matching, Value::Null, None, "x".into()).unwrap();
    assert!(invalid.check_replayable(matching, false).is_err());
}

#[test]
fn exported_recordings_replay_under_their_identity() {
    let valid = recording();
    assert_eq!(valid.start_host_frame, 19);
    assert_eq!(valid.recorded_ticks, 2);
    assert_eq!(valid.initial_snapshot, Some(level(3)));
    assert!(valid.check_replayable(identity(), false).is_ok());
}

#[test]
fn replay_checks_report_each_problem() {
    let check = |recording: &SnapshotRecording| recording.check_replayable(identity(), false).unwrap_err();
    let mut bad = recording();
    bad.format_version = 3;
    assert_eq!(check(&bad), "unsupported recording header");
    let mut bad = recording();
    bad.game_seed = 43;
    assert_eq!(check(&bad), "unsupported recording header");
    let mut bad = recording();
    bad.initial_snapshot = None;
    assert_eq!(check(&bad), "recording snapshot/version mismatch");
    let mut bad = recording();
    bad.recorded_ticks = 3;
    assert_eq!(check(&bad), "recording frame count exceeds bounds or differs from header");
    let mut bad = recording();
    bad.truncated = true;
    assert_eq!(check(&bad), "recording is truncated or invalidated; exact replay is unavailable");
    let mut legacy = recording();
    legacy.format_version = 1;
    legacy.initial_snapshot = None;
    legacy.final_snapshot = None;
    assert_eq!(check(&legacy), "unsupported recording header");
    assert!(legacy.check_replayable(identity(), true).is_ok());
}
