use std::sync::{Arc, Mutex};
use std::time::Duration;

use titan::app::{App, AppSystem, ExecutorPolicy, Extract, FixedUpdate, Plugin, ScheduleLabel, Startup};
use titan::ecs::access::{AccessMode, AccessTarget, SystemAccess, SystemContext, SystemError};
use titan::ecs::command::BundleItem;
use titan::ecs::entity::Entity;
use titan::ecs::world::World;
use titan::time::FixedTime;

const POSITION: u32 = 0;
const STARTUP_COUNT: u32 = 1;
const CUSTOM_COUNT: u32 = 2;
const SNAPSHOT: u32 = 3;
const FIRST_OUTPUT: u32 = 4;
const SECOND_OUTPUT: u32 = 5;

#[derive(Clone, Debug, PartialEq)]
enum Data {
    Int(i64),
    Snapshot { tick: u64, positions: Vec<i64> },
}

fn counter(world: &World<Data>, kind: u32) -> i64 {
    match world.resource(kind) {
        Some(Data::Int(value)) => *value,
        _ => panic!("missing counter"),
    }
}

fn bump(world: &mut World<Data>, kind: u32) {
    if let Some(Data::Int(value)) = world.resource_mut(kind) {
        *value += 1;
    }
}

enum Sys {
    CountStartup,
    CountCustom,
    SpawnAt(i64),
    MovePositions,
    DespawnTwice(Entity),
    ReplaceAll(i64),
    Record(i64, Arc<Mutex<Vec<i64>>>),
}

impl AppSystem<Data> for Sys {
    fn run(&mut self, world: &mut World<Data>) {
        match self {
            Sys::CountStartup => bump(world, STARTUP_COUNT),
            Sys::CountCustom => bump(world, CUSTOM_COUNT),
            Sys::SpawnAt(value) => {
                world.commands().spawn_with(vec![BundleItem::Component(POSITION, Data::Int(*value))]);
            }
            Sys::MovePositions => {
                world.iter_mut(POSITION, |_, position| match position {
                    Data::Int(value) => Data::Int(value + 3),
                    other => other.clone(),
                });
            }
            Sys::DespawnTwice(entity) => {
                let mut commands = world.commands();
                commands.despawn(*entity);
                commands.despawn(*entity);
            }
            Sys::ReplaceAll(value) => {
                let previous = world.entities();
                let mut commands = world.commands();
                for entity in previous {
                    commands.despawn(entity);
                }
                commands.spawn_with(vec![BundleItem::Component(POSITION, Data::Int(*value))]);
            }
            Sys::Record(value, order) => order.lock().unwrap().push(*value),
        }
    }
}

enum Ext {
    Snapshot,
    Logged { label: &'static str, value: i64, log: Arc<Mutex<Vec<&'static str>>> },
}

fn positions(world: &World<Data>) -> Vec<i64> {
    world
        .iter(POSITION)
        .into_iter()
        .map(|(_, value)| match value {
            Data::Int(value) => *value,
            _ => panic!("position holds an integer"),
        })
        .collect()
}

impl Extract<Data> for Ext {
    fn extract(&self, world: &World<Data>) -> Data {
        match self {
            Ext::Snapshot => Data::Snapshot {
                tick: world.fixed_time().unwrap().tick(),
                positions: positions(world),
            },
            Ext::Logged { label, value, log } => {
                log.lock().unwrap().push(label);
                Data::Int(*value)
            }
        }
    }
}

type TestApp = App<Data, Sys, Ext>;

#[derive(Clone, Copy)]
struct CustomSchedule;

impl ScheduleLabel for CustomSchedule {
    const LABEL: u32 = 7;
}

fn with_counts() -> TestApp {
    let mut app = TestApp::new();
    app.world_mut().insert_resource(STARTUP_COUNT, Data::Int(0));
    app.world_mut().insert_resource(CUSTOM_COUNT, Data::Int(0));
    app
}

fn tick(app: &TestApp) -> u64 {
    app.world().fixed_time().unwrap().tick()
}

#[test]
fn startup_runs_once_before_other_schedules() {
    let mut app = with_counts();
    app.add_systems(Startup, Sys::CountStartup);
    app.add_systems(CustomSchedule, Sys::CountCustom);

    app.update_schedule(CustomSchedule);
    app.update_schedule(CustomSchedule);
    app.update_schedule(Startup);

    assert_eq!(counter(app.world(), STARTUP_COUNT), 1);
    assert_eq!(counter(app.world(), CUSTOM_COUNT), 2);
}

#[test]
fn fixed_updates_are_deterministic_and_do_not_read_wall_time() {
    fn run() -> (i64, FixedTime) {
        let mut app = TestApp::new();
        app.set_fixed_time(FixedTime::from_duration(Duration::from_millis(20)));
        app.add_systems(Startup, Sys::SpawnAt(0));
        app.add_systems(FixedUpdate, Sys::MovePositions);
        app.advance_fixed(120);

        let position = positions(app.world())[0];
        let time = app.world().fixed_time().unwrap();
        (position, time)
    }

    assert_eq!(run(), run());
    assert_eq!(run().0, 360);
    assert_eq!(run().1.tick(), 120);
    assert_eq!(run().1.delta(), Duration::from_millis(20));
}

struct MovementPlugin;

impl Plugin<Data, Sys, Ext> for MovementPlugin {
    fn build(&self, app: &mut TestApp) {
        app.add_systems(FixedUpdate, Sys::CountCustom);
    }
}

#[test]
fn plugins_configure_the_same_app_api() {
    let mut app = with_counts();
    app.add_plugin(MovementPlugin).advance_fixed(2);

    assert_eq!(counter(app.world(), CUSTOM_COUNT), 2);
}

#[test]
fn structural_commands_apply_at_schedule_boundaries() {
    let mut app = TestApp::new();
    app.add_systems(FixedUpdate, Sys::SpawnAt(10));

    app.advance_fixed(1);

    assert_eq!(app.world().entity_count(), 1);
    assert_eq!(positions(app.world())[0], 10);
    assert!(app.take_deferred_errors().is_empty());
}

#[test]
fn checked_stepping_stops_after_the_first_failed_tick() {
    let mut app = TestApp::new();
    let entity = app.world_mut().spawn();
    app.add_systems(FixedUpdate, Sys::DespawnTwice(entity));

    let errors = app.try_advance_fixed(10).unwrap_err();

    assert_eq!(errors.len(), 1);
    assert_eq!(errors[0].entity(), entity);
    assert_eq!(tick(&app), 1);
    assert!(!app.world().is_alive(entity));
    assert!(app.take_deferred_errors().is_empty());
}

#[test]
fn checked_stepping_reports_startup_and_outstanding_errors_before_ticks() {
    let mut app = TestApp::new();
    let entity = app.world_mut().spawn();
    app.add_systems(Startup, Sys::DespawnTwice(entity));
    assert_eq!(app.try_advance_fixed(2).unwrap_err().len(), 1);
    assert_eq!(tick(&app), 0);
    app.world_mut().commands().despawn(entity);
    app.update();
    assert_eq!(app.try_advance_fixed(2).unwrap_err().len(), 1);
    assert_eq!(tick(&app), 0);
    app.try_advance_fixed(2).unwrap();
    assert_eq!(tick(&app), 2);
}

#[test]
fn explicit_safe_point_applies_commands_and_returns_failures() {
    let mut app = TestApp::new();
    let entity = app.world_mut().commands().spawn_with(vec![BundleItem::Component(POSITION, Data::Int(7))]);
    app.apply_deferred().unwrap();
    assert_eq!(app.world().get(entity, POSITION), Some(&Data::Int(7)));
    {
        let mut commands = app.world_mut().commands();
        commands.despawn(entity);
        commands.despawn(entity);
    }
    assert_eq!(app.apply_deferred().unwrap_err().len(), 1);
    assert!(app.apply_deferred().is_ok());
}

#[test]
fn extraction_observes_completed_ticks_and_applied_deferred_entities() {
    let mut app = TestApp::new();
    app.add_extractor(SNAPSHOT, Ext::Snapshot);
    app.add_systems(Startup, Sys::SpawnAt(1));
    app.add_systems(FixedUpdate, Sys::ReplaceAll(2));
    assert!(app.extracted(SNAPSHOT).is_none());
    app.update_schedule(Startup);
    assert_eq!(app.extracted(SNAPSHOT), Some(&Data::Snapshot { tick: 0, positions: vec![1] }));
    app.advance_fixed(1);
    assert_eq!(app.extracted(SNAPSHOT), Some(&Data::Snapshot { tick: 1, positions: vec![2] }));
    // Snapshots are stored separately from ECS resources.
    assert!(app.world().resource(SNAPSHOT).is_none());
}

#[test]
fn explicit_extraction_and_command_boundaries_do_not_run_systems_or_ticks() {
    let mut app = with_counts();
    app.add_systems(Startup, Sys::CountStartup);
    app.add_systems(FixedUpdate, Sys::CountCustom);
    app.add_extractor(SNAPSHOT, Ext::Snapshot);
    app.refresh_extracted();
    app.apply_deferred().unwrap();
    assert!(app.extracted(SNAPSHOT).is_none());
    assert_eq!(counter(app.world(), STARTUP_COUNT), 0);
    app.update_schedule(Startup);
    app.world_mut().commands().spawn_with(vec![BundleItem::Component(POSITION, Data::Int(7))]);
    app.refresh_extracted();
    assert_eq!(app.extracted(SNAPSHOT), Some(&Data::Snapshot { tick: 0, positions: vec![] }));
    app.apply_deferred().unwrap();
    assert_eq!(app.extracted(SNAPSHOT), Some(&Data::Snapshot { tick: 0, positions: vec![7] }));
    let entity = app.world().entities()[0];
    *app.world_mut().get_mut(entity, POSITION).unwrap() = Data::Int(9);
    app.refresh_extracted();
    assert_eq!(app.extracted(SNAPSHOT), Some(&Data::Snapshot { tick: 0, positions: vec![9] }));
    assert_eq!((counter(app.world(), STARTUP_COUNT), counter(app.world(), CUSTOM_COUNT)), (1, 0));
}

#[test]
fn extraction_order_and_replacement_are_deterministic() {
    fn run() -> Vec<&'static str> {
        let order = Arc::new(Mutex::new(Vec::new()));
        let mut app = TestApp::new();
        app.add_extractor(FIRST_OUTPUT, Ext::Logged { label: "old", value: 1, log: order.clone() });
        app.add_extractor(SECOND_OUTPUT, Ext::Logged { label: "second", value: 2, log: order.clone() });
        app.update_schedule(Startup);
        assert_eq!(app.extracted(FIRST_OUTPUT), Some(&Data::Int(1)));
        app.add_extractor(FIRST_OUTPUT, Ext::Logged { label: "replacement", value: 3, log: order.clone() });
        assert!(app.extracted(FIRST_OUTPUT).is_none());
        app.advance_fixed(2);
        assert_eq!(app.extracted(FIRST_OUTPUT), Some(&Data::Int(3)));
        assert_eq!(app.extracted(SECOND_OUTPUT), Some(&Data::Int(2)));
        let log = order.lock().unwrap().clone();
        log
    }
    let expected = ["old", "second", "replacement", "second", "replacement", "second"];
    assert_eq!(run(), expected);
    assert_eq!(run(), expected);
}

#[test]
fn failed_deferred_operations_still_extract_the_observed_world() {
    let mut app = TestApp::new();
    let entity = app.world_mut().spawn();
    app.world_mut().insert(entity, POSITION, Data::Int(1)).unwrap();
    app.add_extractor(SNAPSHOT, Ext::Snapshot);
    app.add_systems(FixedUpdate, Sys::DespawnTwice(entity));
    assert!(app.try_advance_fixed(3).is_err());
    assert_eq!(app.extracted(SNAPSHOT), Some(&Data::Snapshot { tick: 1, positions: vec![] }));
    app.world_mut().commands().spawn_with(vec![BundleItem::Component(POSITION, Data::Int(5))]);
    app.world_mut().commands().despawn(entity);
    assert!(app.apply_deferred().is_err());
    assert_eq!(app.extracted(SNAPSHOT), Some(&Data::Snapshot { tick: 1, positions: vec![5] }));
}

#[test]
fn new_app_has_a_sixty_hertz_clock_and_no_startup() {
    let app = TestApp::new();
    let clock = app.world().fixed_time().unwrap();
    assert_eq!(clock.tick(), 0);
    assert_eq!(clock.delta_nanos(), 16_666_667);
}

#[test]
fn outstanding_errors_are_returned_before_startup_runs() {
    let mut app = with_counts();
    let entity = app.world_mut().spawn();
    app.world_mut().despawn(entity);
    app.add_systems(Startup, Sys::CountStartup);
    app.world_mut().commands().despawn(entity);
    assert_eq!(app.apply_deferred().unwrap_err().len(), 1);
    app.world_mut().commands().despawn(entity);
    app.update_schedule(CustomSchedule);
    assert_eq!(counter(app.world(), STARTUP_COUNT), 1);
    let errors = app.try_advance_fixed(1).unwrap_err();
    assert_eq!(errors.len(), 1);
    assert_eq!(tick(&app), 0);
    assert!(app.take_deferred_errors().is_empty());
}

#[test]
fn missing_resources_stop_the_schedule_before_callback_and_report_checked_error() {
    const SCALE: u32 = 9;
    let app = TestApp::new();
    let accesses = [SystemAccess::new(AccessTarget::Resource, AccessMode::Read, SCALE)];
    assert!(matches!(
        SystemContext::prepare(app.world(), &accesses),
        Err(SystemError::MissingResource { kind: SCALE })
    ));
    assert_eq!(tick(&app), 0);
}

#[test]
fn execution_policy_is_opt_in_and_one_thread_preserves_order() {
    let mut app = TestApp::new();
    assert_eq!(app.executor_policy(), ExecutorPolicy::Sequential);
    let order = Arc::new(Mutex::new(Vec::new()));
    app.set_executor_policy(ExecutorPolicy::Parallel { max_threads: 1 });
    for value in 0..4 {
        app.add_systems(FixedUpdate, Sys::Record(value, order.clone()));
    }
    app.try_advance_fixed(1).unwrap();
    assert_eq!(*order.lock().unwrap(), [0, 1, 2, 3]);
}

#[test]
fn executor_policy_concurrency_counts_callbacks() {
    assert_eq!(ExecutorPolicy::Sequential.concurrency(), 1);
    assert_eq!(ExecutorPolicy::Parallel { max_threads: 1 }.concurrency(), 1);
    assert_eq!(ExecutorPolicy::Parallel { max_threads: 4 }.concurrency(), 4);
}

#[test]
fn fixed_steps_from_a_frequency_follow_the_f64_reciprocal() {
    assert_eq!(FixedTime::from_hz(60).delta_nanos(), 16_666_667);
    assert_eq!(FixedTime::from_hz(1).delta_nanos(), 1_000_000_000);
    assert_eq!(FixedTime::from_hz(1024).delta_nanos(), 976_562);
    assert_eq!(FixedTime::from_hz(5120).delta_nanos(), 195_313);
    assert_eq!(FixedTime::from_hz(25_600).delta_nanos(), 39_063);
    assert_eq!(FixedTime::from_hz(128_000).delta_nanos(), 7_813);
    assert_eq!(FixedTime::from_hz(60).tick(), 0);
}

#[test]
fn durations_convert_to_and_from_fixed_steps() {
    assert_eq!(FixedTime::from_duration(Duration::from_micros(1500)).delta_nanos(), 1_500_000);
    assert_eq!(FixedTime::from_nanos(7).delta(), Duration::from_nanos(7));
    assert_eq!(FixedTime::try_from_duration(Duration::ZERO), None);
    assert_eq!(FixedTime::try_from_duration(Duration::from_secs(u64::MAX)), None);
    assert_eq!(
        FixedTime::try_from_duration(Duration::from_millis(20)),
        Some(FixedTime::from_nanos(20_000_000))
    );
}
