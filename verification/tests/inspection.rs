use titan::app::{App, AppSystem, Extract, FixedUpdate};
use titan::inspection::{CaptureLimitError, CaptureLimits};
use titan::ecs::builtin::Name;
use titan::ecs::entity::Entity;
use titan::ecs::world::{BuiltinComponent, World};
use titan::inspection::inspector::{
    current_frame, ErrorCode, InspectRequest, InspectResponse, InspectionConfig, Inspector, Operation, RunMode,
};

#[test]
fn default_capture_limits_admit_one_bounded_capture() {
    let limits = CaptureLimits::default();
    assert_eq!(limits.max_outstanding, 1);
    assert_eq!(limits.max_dimension, 2048);
    assert_eq!(limits.max_rgba_bytes, 16 * 1024 * 1024);
    assert_eq!(limits.max_artifact_bytes, 3 * 1024 * 1024);
    assert_eq!(limits.timeout_nanos, 5_000_000_000);
}

#[test]
fn capture_dimensions_must_be_nonzero_and_within_budget() {
    let limits = CaptureLimits::default();
    assert_eq!(limits.validate_dimensions(2048, 2048), Ok(()));
    assert_eq!(limits.validate_dimensions(1, 1), Ok(()));
    assert_eq!(limits.validate_dimensions(0, 1), Err(CaptureLimitError::Dimensions));
    assert_eq!(limits.validate_dimensions(1, 0), Err(CaptureLimitError::Dimensions));
    assert_eq!(limits.validate_dimensions(2049, 1), Err(CaptureLimitError::Dimensions));
    let narrow = CaptureLimits { max_rgba_bytes: 15, ..limits };
    assert_eq!(narrow.validate_dimensions(2, 2), Err(CaptureLimitError::Dimensions));
    assert_eq!(narrow.validate_dimensions(3, 1), Ok(()));
    let huge = CaptureLimits { max_dimension: u32::MAX, max_rgba_bytes: u64::MAX, ..limits };
    assert_eq!(huge.validate_dimensions(u32::MAX, u32::MAX), Err(CaptureLimitError::Dimensions));
    assert_eq!(huge.validate_dimensions(u32::MAX, 1), Ok(()));
    assert_eq!(
        CaptureLimitError::Dimensions.message(),
        "capture dimensions exceed configured limits"
    );
}

#[test]
fn capture_output_must_fit_retention_limits() {
    let limits = CaptureLimits::default();
    assert_eq!(limits.validate_output(3 * 1024 * 1024, 64, 128), Ok(()));
    assert_eq!(
        limits.validate_output(3 * 1024 * 1024 + 1, 3, 8),
        Err(CaptureLimitError::Retention)
    );
    assert_eq!(limits.validate_output(1, 65, 8), Err(CaptureLimitError::Retention));
    assert_eq!(limits.validate_output(1, 3, 129), Err(CaptureLimitError::Retention));
    assert_eq!(
        CaptureLimitError::Retention.message(),
        "capture output exceeds retention limits"
    );
}

const POSITION: u32 = 7;
const VELOCITY: u32 = 8;

struct Advance;

impl AppSystem<i64> for Advance {
    fn run(&mut self, world: &mut World<i64>) {
        world.iter_mut(POSITION, |_, position| position + 1);
    }
}

struct NoSnapshot;

impl Extract<i64> for NoSnapshot {
    fn extract(&self, _world: &World<i64>) -> i64 {
        0
    }
}

type InspectedApp = App<i64, Advance, NoSnapshot>;

fn inspected_app() -> (InspectedApp, Inspector, Entity) {
    let mut app = InspectedApp::new();
    let player = app.world_mut().spawn();
    app.world_mut().insert_name(player, Name::new("player")).unwrap();
    app.world_mut().insert(player, POSITION, 0).unwrap();
    app.add_systems(FixedUpdate, Advance);
    let inspector = Inspector::new(InspectionConfig::controlled("instance-1", "test-game"));
    (app, inspector, player)
}

fn entities(name: Option<&str>, with_components: Vec<u32>, cursor: Option<&str>, limit: u64) -> InspectRequest {
    InspectRequest::Entities {
        name: name.map(str::to_owned),
        with_components,
        cursor: cursor.map(str::to_owned),
        limit,
    }
}

#[test]
fn controlled_stepping_returns_the_exact_observed_frame() {
    let (mut app, mut inspector, player) = inspected_app();
    let response = inspector.execute(&mut app, &InspectRequest::Step { frames: 10 });
    assert_eq!(response, Ok(InspectResponse::Stepped { frames: 10, current_frame: 10 }));
    assert_eq!(current_frame(&app), 10);
    assert_eq!(inspector.state_revision(), 1);
    assert_eq!(app.world().get(player, POSITION), Some(&10));
}

#[test]
fn entity_pages_expose_names_and_opaque_component_types() {
    let (mut app, mut inspector, player) = inspected_app();
    let response = inspector.execute(&mut app, &entities(Some("player"), Vec::new(), None, 100));
    let Ok(InspectResponse::Entities(page)) = response else {
        panic!("expected an entity page")
    };
    assert_eq!(page.entities.len(), 1);
    assert_eq!(page.entities[0].entity, player);
    assert_eq!(page.entities[0].name.as_deref(), Some("player"));
    assert!(page.entities[0].components.contains(&POSITION));
    assert_eq!(page.next_cursor, None);
}

#[test]
fn mutation_requires_explicit_enablement() {
    let (mut app, mut inspector, player) = inspected_app();
    let request = InspectRequest::SetField {
        entity: player,
        component: POSITION,
        field: "x".to_owned(),
        value: 2.into(),
    };
    let error = inspector.execute(&mut app, &request).unwrap_err();
    assert_eq!(error.code, ErrorCode::MutationDisabled);
    assert_eq!(error.message, "runtime mutation was not explicitly enabled");
    assert_eq!(inspector.state_revision(), 0);
}

#[test]
fn enabled_mutation_is_still_read_only() {
    let (mut app, _, player) = inspected_app();
    let mut config = InspectionConfig::controlled("instance-1", "test-game");
    config.mutation_enabled = true;
    let mut inspector = Inspector::new(config);
    let request = InspectRequest::SetField {
        entity: player,
        component: POSITION,
        field: "x".to_owned(),
        value: 2.into(),
    };
    assert_eq!(inspector.execute(&mut app, &request).unwrap_err().code, ErrorCode::ReadOnly);
    let Ok(InspectResponse::Capabilities(capabilities)) = inspector.execute(&mut app, &InspectRequest::Capabilities)
    else {
        panic!("expected capabilities")
    };
    assert_eq!(capabilities.operations, [Operation::Inspect, Operation::Step, Operation::Mutate]);
}

#[test]
fn uncontrolled_runtimes_refuse_stepping_and_report_status() {
    let (mut app, _, _) = inspected_app();
    let mut config = InspectionConfig::controlled("instance-2", "free-running");
    config.controlled = false;
    config.run_mode = RunMode::Browser;
    let mut inspector = Inspector::new(config);
    let error = inspector.execute(&mut app, &InspectRequest::Step { frames: 3 }).unwrap_err();
    assert_eq!(error.code, ErrorCode::NotControlled);
    assert_eq!(current_frame(&app), 0);
    let Ok(InspectResponse::Status(status)) = inspector.execute(&mut app, &InspectRequest::Status) else {
        panic!("expected a status")
    };
    assert_eq!(status.project, "free-running");
    assert_eq!(status.run_mode, RunMode::Browser);
    assert_eq!(status.current_frame, 0);
    assert!(!status.paused);
    let Ok(InspectResponse::Capabilities(capabilities)) = inspector.execute(&mut app, &InspectRequest::Capabilities)
    else {
        panic!("expected capabilities")
    };
    assert_eq!(capabilities.operations, [Operation::Inspect]);
}

#[test]
fn entity_pages_follow_cursors_and_filter_by_components() {
    let (mut app, mut inspector, player) = inspected_app();
    let mut others = Vec::new();
    for value in 0..3 {
        let entity = app.world_mut().spawn();
        app.world_mut().insert(entity, VELOCITY, value).unwrap();
        if value != 1 {
            app.world_mut().insert(entity, POSITION, value).unwrap();
        }
        others.push(entity);
    }
    let Ok(InspectResponse::Entities(first)) = inspector.execute(&mut app, &entities(None, Vec::new(), None, 2)) else {
        panic!("expected a page")
    };
    let ids: Vec<Entity> = first.entities.iter().map(|summary| summary.entity).collect();
    assert_eq!(ids, [player, others[0]]);
    assert_eq!(first.next_cursor.as_deref(), Some("2"));
    let Ok(InspectResponse::Entities(second)) = inspector.execute(&mut app, &entities(None, Vec::new(), Some("2"), 2))
    else {
        panic!("expected a page")
    };
    let ids: Vec<Entity> = second.entities.iter().map(|summary| summary.entity).collect();
    assert_eq!(ids, [others[1], others[2]]);
    assert_eq!(second.next_cursor, None);
    assert_eq!(second.entities[0].components, [VELOCITY]);
    assert_eq!(second.entities[0].name, None);
    assert!(second.entities[0].builtins.is_empty());
    let Ok(InspectResponse::Entities(both)) =
        inspector.execute(&mut app, &entities(None, vec![VELOCITY, POSITION], None, 10))
    else {
        panic!("expected a page")
    };
    let ids: Vec<Entity> = both.entities.iter().map(|summary| summary.entity).collect();
    assert_eq!(ids, [others[0], others[2]]);
    assert_eq!(both.entities[1].components, [POSITION, VELOCITY]);
    let Ok(InspectResponse::Entities(past_end)) = inspector.execute(&mut app, &entities(None, Vec::new(), Some("+9"), 2))
    else {
        panic!("expected a page")
    };
    assert!(past_end.entities.is_empty());
    assert_eq!(past_end.next_cursor, None);
    let Ok(InspectResponse::Entities(empty_limit)) = inspector.execute(&mut app, &entities(None, Vec::new(), Some("1"), 0))
    else {
        panic!("expected a page")
    };
    assert!(empty_limit.entities.is_empty());
    assert_eq!(empty_limit.next_cursor.as_deref(), Some("1"));
}

#[test]
fn invalid_cursors_and_dead_entities_are_refused() {
    let (mut app, mut inspector, player) = inspected_app();
    let error = inspector.execute(&mut app, &entities(None, Vec::new(), Some("next"), 5)).unwrap_err();
    assert_eq!(error.code, ErrorCode::InvalidValue);
    assert_eq!(error.message, "invalid entity page cursor");
    let error = inspector.execute(&mut app, &entities(None, Vec::new(), Some(""), 5)).unwrap_err();
    assert_eq!(error.code, ErrorCode::InvalidValue);
    let Ok(InspectResponse::Entity(details)) = inspector.execute(&mut app, &InspectRequest::Entity { entity: player })
    else {
        panic!("expected entity details")
    };
    assert_eq!(details.name.as_deref(), Some("player"));
    assert_eq!(details.components, [POSITION]);
    assert_eq!(details.builtins, [BuiltinComponent::Name]);
    app.world_mut().despawn(player);
    let error = inspector.execute(&mut app, &InspectRequest::Entity { entity: player }).unwrap_err();
    assert_eq!(error.code, ErrorCode::NotFound);
    assert_eq!(error.message, "entity is not alive");
}

#[test]
fn page_limits_are_capped_at_one_thousand() {
    let (mut app, mut inspector, _) = inspected_app();
    for _ in 0..1000 {
        app.world_mut().spawn();
    }
    let Ok(InspectResponse::Entities(page)) = inspector.execute(&mut app, &entities(None, Vec::new(), None, 5000))
    else {
        panic!("expected a page")
    };
    assert_eq!(page.entities.len(), 1000);
    assert_eq!(page.next_cursor.as_deref(), Some("1000"));
}

#[test]
fn unregistered_operations_are_unsupported_and_commands_are_empty() {
    let (mut app, mut inspector, _) = inspected_app();
    for request in [
        InspectRequest::Capture,
        InspectRequest::Invoke { command: "restart".to_owned(), arguments: serde_json::Value::Null },
        InspectRequest::InjectInput { input: serde_json::Value::Null },
    ] {
        let error = inspector.execute(&mut app, &request).unwrap_err();
        assert_eq!(error.code, ErrorCode::Unsupported);
        assert_eq!(error.message, "this operation has not been registered by the game");
    }
    assert_eq!(
        inspector.execute(&mut app, &InspectRequest::Commands),
        Ok(InspectResponse::Commands { commands: Vec::new() })
    );
}
