use titan::factory::explain::recipe;
use titan::factory::game::{
    build_production_fixture, build_transport_fixture, Applied, Diagnostic, Factory, InteractiveInput, Operation,
    PreviewAction,
};
use titan::factory::controls::{key_command, HostCommand, HostKey, ToolbarAction};
use titan::factory::hud::hud_buttons;
use titan::factory::recording::Recording;
use titan::factory::scene::SceneRect;
use titan::factory::{Facing, Item, Kind, Slots, Structure};
use titan::render::image::Color;

fn output(f: &Factory, x: i32, y: i32) -> Option<Item> {
    f.structure_at(x, y).unwrap().slots.output
}

fn machine(f: &Factory, x: i32) -> Structure {
    f.structure_at(x, 3).unwrap()
}

fn reason(f: &Factory, x: i32, y: i32) -> String {
    f.transport_reason(x, y).unwrap().to_string()
}

fn op(f: &mut Factory, operation: Operation) {
    f.apply(operation).unwrap();
    assert!(f.conserved());
}

fn place(f: &mut Factory, kind: Kind, x: i32) {
    f.apply(Operation::Place { kind, x, y: 3, facing: Facing::E }).unwrap();
}

fn step(f: &mut Factory, n: u64) {
    for _ in 0..n {
        f.advance(1);
        assert!(f.conserved());
    }
}

fn route(f: &mut Factory) {
    place(f, Kind::Extractor, 1);
    for x in 2..=9 {
        place(f, if x == 5 { Kind::Processor } else { Kind::Conveyor }, x);
    }
}

fn snapshot(f: &Factory) -> (Vec<Structure>, titan::factory::game::FactoryState) {
    (f.structures.clone(), f.state)
}

fn index(f: &Factory, x: i32, y: i32) -> usize {
    f.structures.iter().position(|s| s.x == x && s.y == y).unwrap()
}

#[test]
fn snapshot_capacity_and_one_hop() {
    let mut app = build_transport_fixture("snapshot").unwrap();
    app.advance(1);
    assert_eq!(
        [output(&app, 2, 2), output(&app, 3, 2), output(&app, 4, 2)],
        [Some(Item::Ore), None, Some(Item::Ore)]
    );
    app.advance(1);
    assert_eq!(
        [output(&app, 2, 2), output(&app, 3, 2), output(&app, 4, 2)],
        [None, Some(Item::Ore), Some(Item::Ore)]
    );
    assert_eq!(reason(&app, 3, 2), "full_destination");
    assert_eq!(reason(&app, 4, 2), "missing_neighbor");
    app.advance(500);
    assert!(app.conserved());
    let mut single = build_transport_fixture("single").unwrap();
    single.advance(1);
    assert_eq!(output(&single, 3, 2), Some(Item::Ore));
    assert_eq!(output(&single, 4, 2), None);
}

#[test]
fn corner_contention_uses_source_y_then_x_not_spawn_order() {
    // Structures are always held in row-then-column order, so no allocation
    // order exists to reverse.
    let mut app = build_transport_fixture("contention").unwrap();
    assert_eq!(reason(&app, 2, 3), "contention");
    app.advance(1);
    assert_eq!(output(&app, 3, 3), Some(Item::Ore));
    assert_eq!(output(&app, 2, 3), Some(Item::Plate));
    assert_eq!(
        app.structure_at(2, 3).unwrap().last_transfer_reason.unwrap().name(),
        "contention"
    );
    app.advance(1);
    assert_eq!(output(&app, 2, 3), Some(Item::Plate));
    app.advance(1);
    assert_eq!(output(&app, 3, 3), Some(Item::Plate));
    assert!(app.conserved());
}

#[test]
fn cycle_jams_and_edited_hole_preserve_every_item() {
    let mut app = build_transport_fixture("cycle_partial").unwrap();
    for (x, y) in [(3, 2), (3, 3), (2, 3), (2, 2)].into_iter().cycle().take(100) {
        app.advance(1);
        assert_eq!(output(&app, x, y), Some(Item::Ore));
        assert!(app.conserved());
    }
    let mut app = build_transport_fixture("cycle_full").unwrap();
    app.advance(100);
    assert_eq!(reason(&app, 2, 2), "full_destination");
    op(&mut app, Operation::Remove { x: 3, y: 2 });
    assert_eq!(app.state.discarded_ore, 1);
    op(&mut app, Operation::Place { kind: Kind::Conveyor, x: 3, y: 2, facing: Facing::S });
    app.advance(1);
    assert_eq!(output(&app, 2, 2), None);
    assert_eq!(output(&app, 3, 2), Some(Item::Ore));
    op(&mut app, Operation::Rotate { x: 3, y: 2 });
    assert_eq!(output(&app, 3, 2), Some(Item::Ore));
    let before = snapshot(&app);
    assert!(app.apply(Operation::Remove { x: 10, y: 3 }).is_err());
    assert_eq!(before, snapshot(&app));
    op(&mut app, Operation::Restart);
    let s = app.state;
    assert_eq!((s.tick, s.seeded, s.discarded_ore), (0, 0, 0));
}

#[test]
fn ports_types_and_reason_precedence() {
    let mut app = build_transport_fixture("ports").unwrap();
    assert_eq!(reason(&app, 2, 0), "mismatched_input_face");
    assert_eq!(reason(&app, 5, 0), "rejected_item_type");
    app.advance(1);
    assert_eq!(app.structure_at(2, 3).unwrap().slots.input, Some(Item::Ore));
    assert_eq!(app.state.delivered, 1);
    // Type rejection precedes occupied destination.
    let e = index(&app, 6, 0);
    app.structures[e].slots.input = Some(Item::Ore);
    app.state.seeded += 1;
    assert_eq!(reason(&app, 5, 0), "rejected_item_type");
    app.structures[e].facing = Facing::N;
    assert_eq!(reason(&app, 5, 0), "mismatched_input_face");
    op(&mut app, Operation::Remove { x: 6, y: 0 });
    assert_eq!(reason(&app, 5, 0), "missing_neighbor");
    let mut app = build_transport_fixture("disconnected").unwrap();
    app.advance(1000);
    assert_eq!(reason(&app, 0, 0), "missing_neighbor");
    assert_eq!(reason(&app, 6, 5), "missing_neighbor");
    assert!(app.conserved());
}

#[test]
fn removal_accounts_all_machine_slots_and_overflow_rejects_atomically() {
    let mut app = Factory::new();
    op(&mut app, Operation::Place { kind: Kind::Processor, x: 4, y: 4, facing: Facing::E });
    let e = index(&app, 4, 4);
    app.structures[e].slots = Slots {
        input: Some(Item::Ore),
        in_process: Some(Item::Ore),
        output: Some(Item::Plate),
    };
    app.state.seeded = 3;
    op(&mut app, Operation::Remove { x: 4, y: 4 });
    let s = app.state;
    assert_eq!((s.discarded_ore, s.discarded_plate), (2, 1));
    let mut app = build_transport_fixture("single").unwrap();
    app.state.discarded_ore = u64::MAX;
    let before = snapshot(&app);
    assert!(app
        .apply(Operation::Remove { x: 2, y: 2 })
        .unwrap_err()
        .contains("COUNTER_OVERFLOW"));
    assert_eq!(before, snapshot(&app));
}

#[test]
fn delivery_limit_freezes_tick_and_restart_resets_epoch() {
    let mut app = build_transport_fixture("ports").unwrap();
    app.state.delivered = 9;
    app.state.seeded += 9;
    app.advance(1);
    assert_eq!(app.state.completion_tick, Some(1));
    app.advance(100);
    assert_eq!(app.state.tick, 1);
    assert!(app
        .apply(Operation::Rotate { x: 2, y: 0 })
        .unwrap_err()
        .contains("COMPLETE"));
    let epoch = app.state.epoch;
    app.restart();
    assert!(app.conserved());
    assert_eq!(app.state.completion_tick, None);
    assert_eq!(app.state.epoch, epoch + 1);
}

#[test]
fn processor_can_receive_and_send_distinct_slots_in_same_snapshot() {
    let mut app = build_transport_fixture("ports").unwrap();
    let e = index(&app, 2, 3);
    app.structures[e].slots.output = Some(Item::Plate);
    app.state.seeded += 1;
    app.apply(Operation::Place { kind: Kind::Conveyor, x: 3, y: 3, facing: Facing::E })
        .unwrap();
    app.advance(1);
    let processor = app.structure_at(2, 3).unwrap();
    assert_eq!(processor.slots.input, Some(Item::Ore));
    assert_eq!(processor.slots.output, None);
    assert_eq!(output(&app, 3, 3), Some(Item::Plate));
    assert!(app.conserved());
}

#[test]
fn same_row_contention_prioritizes_left_source() {
    let mut app = Factory::new();
    for (x, facing, item) in [
        (2, Facing::E, Some(Item::Ore)),
        (4, Facing::W, Some(Item::Plate)),
        (3, Facing::S, None),
    ] {
        app.apply(Operation::Place { kind: Kind::Conveyor, x, y: 2, facing }).unwrap();
        let e = index(&app, x, 2);
        app.structures[e].slots.output = item;
    }
    app.state.seeded = 2;
    app.advance(1);
    assert_eq!(output(&app, 3, 2), Some(Item::Ore));
    assert_eq!(output(&app, 4, 2), Some(Item::Plate));
}

#[test]
fn independent_reference_route_trace_and_completion_freeze() {
    let mut app = Factory::new();
    route(&mut app);
    for tick in 1..=1269u64 {
        step(&mut app, 1);
        let e = machine(&app, 1);
        let p = machine(&app, 5);
        match tick {
            59 => assert_eq!(e.progress, 59),
            60 | 120 => assert_eq!(e.slots.output, Some(Item::Ore)),
            61..=63 => assert_eq!(machine(&app, tick as i32 - 59).slots.output, Some(Item::Ore)),
            64 => assert_eq!((p.remaining, p.slots.in_process), (120, Some(Item::Ore))),
            124 => assert_eq!((p.remaining, p.slots.input), (60, Some(Item::Ore))),
            184 => assert_eq!(
                (p.remaining, p.slots.output, p.slots.in_process),
                (120, Some(Item::Plate), Some(Item::Ore))
            ),
            185..=188 => assert_eq!(machine(&app, tick as i32 - 179).slots.output, Some(Item::Plate)),
            _ => {}
        }
        let expected = if tick < 189 { 0 } else { 1 + (tick - 189) / 120 };
        assert_eq!(app.state.delivered, expected, "tick {tick}");
        if tick == 1268 {
            assert_eq!(p.remaining, 116);
        }
        if tick == 1269 {
            assert_eq!(p.remaining, 116);
            assert_eq!(app.state.completion_tick, Some(tick));
        }
    }
    let before = snapshot(&app);
    step(&mut app, 40);
    assert_eq!(before, snapshot(&app));
    for operation in [
        Operation::Rotate { x: 5, y: 3 },
        Operation::Remove { x: 1, y: 3 },
        Operation::Place { kind: Kind::Conveyor, x: 0, y: 0, facing: Facing::E },
    ] {
        assert!(app.apply(operation).unwrap_err().starts_with("COMPLETE"));
    }
    app.restart();
    route(&mut app);
    step(&mut app, 1269);
    assert_eq!(app.state.completion_tick, Some(1269));
}

#[test]
fn extractor_pauses_and_refills_on_departure_tick() {
    let mut app = build_production_fixture("isolated_extractor").unwrap();
    step(&mut app, 180);
    assert_eq!(machine(&app, 1).progress, 0);
    assert_eq!(app.state.extracted, 1);
    place(&mut app, Kind::Conveyor, 2);
    step(&mut app, 1);
    assert_eq!(machine(&app, 1).progress, 1);
    step(&mut app, 59);
    assert_eq!(machine(&app, 1).slots.output, Some(Item::Ore));
    assert_eq!(app.state.extracted, 2);
}

#[test]
fn processor_starts_without_work_and_retains_blocked_batch_and_backlog() {
    let mut app = build_production_fixture("processor_input").unwrap();
    step(&mut app, 1);
    assert_eq!(machine(&app, 5).remaining, 120);
    step(&mut app, 119);
    assert_eq!(machine(&app, 5).remaining, 1);
    step(&mut app, 1);
    assert_eq!(machine(&app, 5).slots.output, Some(Item::Plate));
    let mut app = build_production_fixture("processor_blocked").unwrap();
    step(&mut app, 121);
    assert_eq!(machine(&app, 5).remaining, 0);
    assert_eq!(machine(&app, 5).slots.in_process, Some(Item::Ore));
    // An independently seeded queued ore behind the finished batch.
    let e = index(&app, 5, 3);
    app.structures[e].slots.input = Some(Item::Ore);
    app.state.seeded += 1;
    place(&mut app, Kind::Conveyor, 6);
    step(&mut app, 1);
    let p = machine(&app, 5);
    assert_eq!(
        (p.remaining, p.slots.input, p.slots.in_process, p.slots.output),
        (120, None, Some(Item::Ore), Some(Item::Plate))
    );
    assert_eq!(machine(&app, 6).slots.output, Some(Item::Plate));
}

#[test]
fn full_machine_rotation_removal_rejected_edits_and_restart() {
    let mut app = build_production_fixture("processor_full").unwrap();
    app.apply(Operation::Rotate { x: 5, y: 3 }).unwrap();
    let p = machine(&app, 5);
    assert_eq!(p.facing, Facing::S);
    assert_eq!(p.slots.items().len(), 3);
    assert_eq!(p.remaining, 0);
    let before = snapshot(&app);
    for operation in [
        Operation::Remove { x: 10, y: 3 },
        Operation::Place { kind: Kind::Conveyor, x: 5, y: 3, facing: Facing::E },
    ] {
        assert!(app.apply(operation).is_err());
        assert_eq!(snapshot(&app), before);
    }
    let result = app.apply(Operation::Remove { x: 5, y: 3 }).unwrap();
    assert_eq!(result, Applied::Removed { x: 5, y: 3, ore: 2, plate: 1 });
    assert!(app.conserved());
    let mut app = build_production_fixture("processor_full").unwrap();
    step(&mut app, 200);
    app.restart();
    assert_eq!(app.structures.len(), 1);
    let s = app.state;
    assert_eq!(
        (s.tick, s.seeded, s.extracted, s.delivered, s.discarded_ore, s.discarded_plate),
        (0, 0, 0, 0, 0, 0)
    );
    assert!(s.production_enabled);
    assert!(s.completion_tick.is_none());
}

#[test]
fn starvation_and_rotation_preserve_work() {
    let mut app = Factory::new();
    place(&mut app, Kind::Processor, 5);
    step(&mut app, 200);
    assert_eq!(machine(&app, 5).remaining, 0);
    assert_eq!(machine(&app, 5).slots.items().len(), 0);
    let mut app = build_production_fixture("processor_input").unwrap();
    step(&mut app, 40);
    app.apply(Operation::Rotate { x: 5, y: 3 }).unwrap();
    assert_eq!(machine(&app, 5).remaining, 81);
    step(&mut app, 81);
    assert_eq!(machine(&app, 5).slots.output, Some(Item::Plate));
    let mut app = build_transport_fixture("ports").unwrap();
    step(&mut app, 200);
    assert_eq!(machine(&app, 2).slots.input, Some(Item::Ore));
    assert_eq!(machine(&app, 1).progress, 0);
    app.restart();
    place(&mut app, Kind::Extractor, 1);
    step(&mut app, 60);
    assert_eq!(machine(&app, 1).slots.output, Some(Item::Ore));
}

#[test]
fn overflow_stops_atomically_and_restart_recovers() {
    let mut app = build_production_fixture("isolated_extractor").unwrap();
    step(&mut app, 59);
    app.state.extracted = u64::MAX;
    app.state.discarded_ore = u64::MAX;
    let error = app.apply(Operation::Advance { ticks: 1 }).unwrap_err();
    assert!(error.contains("COUNTER_OVERFLOW"));
    assert_eq!(machine(&app, 1).progress, 59);
    assert_eq!(machine(&app, 1).slots.output, None);
    assert!(app.conserved());
    assert_eq!(app.state.tick, 59);
    app.advance(20);
    assert_eq!(app.state.tick, 59);
    app.restart();
    assert!(app.state.diagnostic.is_none());
    app.state.tick = u64::MAX;
    app.advance(1);
    assert!(app.state.diagnostic.unwrap().message().contains("game tick"));
    assert_eq!(app.state.diagnostic, Some(Diagnostic::TickOverflow));
}

#[test]
fn construction_rules_reject_without_mutation() {
    let mut app = Factory::new();
    for operation in [
        Operation::Place { kind: Kind::Extractor, x: 0, y: 0, facing: Facing::E },
        Operation::Place { kind: Kind::Conveyor, x: 1, y: 3, facing: Facing::E },
        Operation::Place { kind: Kind::Processor, x: 1, y: 3, facing: Facing::E },
        Operation::Place { kind: Kind::Delivery, x: 0, y: 0, facing: Facing::E },
        Operation::Place { kind: Kind::Conveyor, x: 12, y: 0, facing: Facing::E },
        Operation::Place { kind: Kind::Conveyor, x: -1, y: 0, facing: Facing::E },
        Operation::Place { kind: Kind::Conveyor, x: 0, y: 8, facing: Facing::E },
        Operation::Place { kind: Kind::Conveyor, x: 10, y: 3, facing: Facing::E },
        Operation::Rotate { x: 10, y: 3 },
        Operation::Remove { x: 10, y: 3 },
        Operation::Rotate { x: 0, y: 0 },
        Operation::Remove { x: 0, y: 0 },
        Operation::Select { kind: Some(Kind::Delivery), facing: Some(Facing::S) },
        Operation::Advance { ticks: 36001 },
    ] {
        let before = snapshot(&app);
        assert!(app.apply(operation).is_err(), "{operation:?}");
        assert_eq!(before, snapshot(&app), "{operation:?}");
    }
    assert_eq!(
        app.apply(Operation::Place { kind: Kind::Conveyor, x: -1, y: 0, facing: Facing::E }),
        Err("OUT_OF_BOUNDS: tile (-1,0) must be x=0..11, y=0..7".to_string())
    );
    assert_eq!(
        app.apply(Operation::Place { kind: Kind::Conveyor, x: 10, y: 3, facing: Facing::E }),
        Err("OCCUPIED: tile (10,3) already contains a structure".to_string())
    );
    assert_eq!(
        app.apply(Operation::Remove { x: 0, y: 0 }),
        Err("EMPTY_TILE: tile (0,0) has no structure".to_string())
    );
    assert_eq!(
        app.apply(Operation::Place { kind: Kind::Extractor, x: 0, y: 0, facing: Facing::E }),
        Err("INVALID_TERRAIN: extractors require (1,3); other structures require ground".to_string())
    );
}

#[test]
fn rotation_cycles_facings_and_ports() {
    let mut app = Factory::new();
    for (kind, x, y, inputs) in [(Kind::Extractor, 1, 3, 0), (Kind::Conveyor, 0, 0, 3), (Kind::Processor, 2, 2, 1)] {
        app.apply(Operation::Place { kind, x, y, facing: Facing::E }).unwrap();
        assert!(app
            .apply(Operation::Place { kind, x, y, facing: Facing::E })
            .unwrap_err()
            .starts_with("OCCUPIED"));
        for facing in [Facing::S, Facing::W, Facing::N, Facing::E] {
            assert_eq!(app.apply(Operation::Rotate { x, y }), Ok(Applied::Tile { x, y }));
            let s = app.structure_at(x, y).unwrap();
            assert_eq!(s.facing, facing);
            assert_eq!(s.output(), Some(facing));
            assert_eq!(s.inputs().len(), inputs);
            assert!(!s.inputs().contains(&facing));
        }
        app.apply(Operation::Remove { x, y }).unwrap();
        assert_eq!(app.structure_at(x, y), None);
    }
}

#[test]
fn selection_restart_and_previews() {
    let mut app = Factory::new();
    assert_eq!(
        app.apply(Operation::Select { kind: Some(Kind::Processor), facing: Some(Facing::W) }),
        Ok(Applied::Selected(titan::factory::game::Selection { kind: Kind::Processor, facing: Facing::W }))
    );
    let preview = app.preview(4, 4, "place");
    assert!(preview.valid);
    assert_eq!(preview.label, "Build preview");
    assert_eq!(
        preview.detail,
        "Build Processor at (4,4), facing W. Arrows mark output; blue marks input."
    );
    let preview = app.preview(10, 3, "remove");
    assert!(!preview.valid);
    assert_eq!(preview.detail, "Delivery is fixed; it cannot be rotated or removed.");
    assert_eq!(app.preview(20, 3, "inspect").detail, "Outside the grid.");
    assert_eq!(app.preview(2, 3, "jump").detail, "Choose Build, Inspect, Rotate or Remove.");
    let mut app = build_production_fixture("processor_full").unwrap();
    let preview = app.preview(5, 3, "remove");
    assert_eq!(
        preview.detail,
        "Remove (5,3). Discards 2 ore and 1 plates, including in-process ore."
    );
    assert_eq!((preview.discarded_ore, preview.discarded_plate), (2, 1));
    assert_eq!(app.preview(5, 3, "rotate").detail, "Rotate clockwise to S; items and work are preserved.");
    assert_eq!(app.machine_status(&machine(&app, 5)), "finished_batch_blocked");
    assert_eq!(app.apply(Operation::Restart), Ok(Applied::Restarted));
    assert_eq!(app.structures.len(), 1);
    assert_eq!(app.state.epoch, 2);
    assert_eq!(app.apply(Operation::Advance { ticks: 5 }), Ok(Applied::Advanced { tick: 5 }));
    assert!(build_transport_fixture("nope").is_err());
    assert!(build_production_fixture("nope").is_err());
}

#[test]
fn camera_keys_from_an_earlier_run_are_dropped() {
    let mut app = Factory::new();
    let mut input = InteractiveInput::for_factory(&app);
    input.set_action(&app, "right", true).unwrap();
    app.restart();
    assert_eq!(input.pan(&app), (0, 0));
    input.set_action(&app, "right", true).unwrap();
    assert_eq!(input.pan(&app), (-1, 0));
    app.restart();
    assert_eq!(input.pan(&app), (0, 0));

    let mut app = Factory::new();
    let mut input = InteractiveInput::for_factory(&app);
    input.set_action(&app, "down", true).unwrap();
    app.restart();
    input.set_action(&app, "right", true).unwrap();
    assert_eq!(input.pan(&app), (-1, 0));
    input.set_action(&app, "up", true).unwrap();
    assert_eq!(input.pan(&app), (-1, 1));
    input.cancel_action(&app, "right").unwrap();
    assert_eq!(input.pan(&app), (0, 1));
    assert_eq!(input.set_action(&app, "jump", true), Err("unknown action: jump".to_string()));
    input.clear();
    assert_eq!(input.pan(&app), (0, 0));
}

struct Detail {
    code: String,
    connection_detail: String,
    remedy: String,
    status: String,
}

fn detail(f: &Factory, x: i32, y: i32) -> Detail {
    let (connection, explanation, _) = f.diagnosis(x, y).unwrap();
    Detail {
        code: connection.code,
        connection_detail: connection.detail,
        remedy: connection.remedy,
        status: explanation.status,
    }
}

#[test]
fn queries_previews_and_rendering_are_read_only() {
    let app = build_transport_fixture("contention").unwrap();
    let before = snapshot(&app);
    for action in ["place", "rotate", "remove", "inspect", "unknown"] {
        for _ in 0..5 {
            let _ = app.preview(2, 3, action);
            let _ = detail(&app, 2, 3);
        }
    }
    assert_eq!(snapshot(&app), before);
    assert!(app.conserved());
}

#[test]
fn route_explanations_match_current_plans_and_repairs() {
    for (fixture, x, y, code) in [
        ("disconnected", 0, 0, "disconnected"),
        ("ports", 2, 0, "wrong_facing"),
        ("ports", 5, 0, "wrong_type"),
        ("snapshot", 2, 2, "full"),
        ("contention", 2, 3, "contended"),
    ] {
        let app = build_transport_fixture(fixture).unwrap();
        let d = detail(&app, x, y);
        assert_eq!(d.code, code);
        assert_eq!(d.status, "output_blocked");
        assert!(!d.remedy.is_empty());
    }
    let mut app = build_transport_fixture("ports").unwrap();
    app.apply(Operation::Rotate { x: 3, y: 0 }).unwrap();
    assert_eq!(detail(&app, 2, 0).code, "ready");
    app.advance(1);
    assert!(app.conserved());
}

#[test]
fn contenders_and_winner_do_not_depend_on_allocation_order() {
    // Structures are held in row-then-column order whatever their history.
    let app = build_transport_fixture("contention").unwrap();
    let i = index(&app, 2, 3);
    let connection = app.connection(i, app.transport_reason(2, 3).unwrap());
    assert_eq!(
        connection.contenders,
        vec![titan::factory::game::Tile { x: 3, y: 2 }, titan::factory::game::Tile { x: 2, y: 3 }]
    );
    assert!(detail(&app, 2, 3).connection_detail.contains("Source (3,2) wins"));
    assert_eq!(
        connection.detail,
        "Source (3,2) wins the empty slot at (3,3) this tick (top row first, then leftmost)."
    );
}

#[test]
fn placement_rotation_removal_previews_match_operation_rules() {
    let mut app = Factory::new();
    assert!(!app.preview(1, 3, "place").valid);
    assert!(app.preview(0, 0, "place").valid);
    assert!(!app.preview(10, 3, "rotate").valid);
    assert!(!app.preview(-1, 0, "inspect").valid);
    app.apply(Operation::Select { kind: Some(Kind::Extractor), facing: Some(Facing::N) }).unwrap();
    assert!(app.preview(1, 3, "place").valid);
    assert!(!app.preview(0, 0, "place").valid);
    let app = build_production_fixture("processor_full").unwrap();
    let p = app.preview(5, 3, "remove");
    assert_eq!(p.discarded_ore, 2);
    assert_eq!(p.discarded_plate, 1);
    assert_eq!(app.preview(5, 3, "rotate").facing, Facing::S);
    assert_eq!(titan::factory::explain::inventory(&machine(&app, 5)).len(), 3);
}

#[test]
fn working_starved_and_finished_batch_have_distinct_explanations() {
    let mut app = build_production_fixture("processor_input").unwrap();
    assert_eq!(detail(&app, 5, 3).status, "working");
    app.advance(1);
    assert_eq!(recipe(&machine(&app, 5)).unwrap().elapsed, 0);
    app.advance(60);
    assert_eq!(recipe(&machine(&app, 5)).unwrap().elapsed, 60);
    let mut app = Factory::new();
    app.apply(Operation::Place { kind: Kind::Processor, x: 5, y: 3, facing: Facing::E }).unwrap();
    assert_eq!(detail(&app, 5, 3).status, "starved");
    let i = index(&app, 5, 3);
    let (explanation, inputs) = app.explanation(i, "empty");
    assert_eq!(inputs.len(), 1);
    assert_eq!(inputs[0].detail, "Input W: no source at (4,3). Build an upstream output here.");
    assert_eq!(explanation.remedy, inputs[0].detail);
    let app = build_production_fixture("processor_full").unwrap();
    assert_eq!(detail(&app, 5, 3).status, "output_blocked");
}

#[test]
fn preview_action_accepts_only_pointer_actions() {
    let mut f = Factory::new();
    assert_eq!(f.preview_action, PreviewAction::Place);
    assert_eq!(f.set_preview_action("remove"), Ok(()));
    assert_eq!(f.preview_action, PreviewAction::Remove);
    assert_eq!(
        f.set_preview_action("select"),
        Err("INVALID_POINTER_ACTION: use place, rotate, remove or inspect".to_string())
    );
    assert_eq!(f.preview_action, PreviewAction::Remove);
}

fn rect(x: i64, y: i64, width: i64, height: i64, color: Color) -> SceneRect {
    SceneRect { x, y, width, height, color }
}

#[test]
fn new_factory_scene_is_ground_deposit_and_delivery() {
    let scene = Factory::new().scene();
    assert_eq!(scene.len(), 100);
    assert_eq!(scene[0], rect(1, 1, 30, 30, Color::rgb(38, 51, 60)));
    assert_eq!(scene[95], rect(353, 225, 30, 30, Color::rgb(38, 51, 60)));
    assert_eq!(scene[96], rect(36, 100, 24, 24, Color::rgb(132, 79, 45)));
    assert_eq!(scene[97], rect(326, 102, 20, 20, Color::rgb(67, 186, 131)));
    assert_eq!(scene[98], rect(331, 107, 10, 10, Color::rgb(17, 66, 43)));
    assert_eq!(scene[99], rect(322, 108, 3, 8, Color::rgb(107, 210, 241)));
}

#[test]
fn scene_draws_arrows_items_and_hover() {
    let mut f = Factory::new();
    f.apply(Operation::Place { kind: Kind::Extractor, x: 1, y: 3, facing: Facing::E }).unwrap();
    f.state.hover = Some(titan::factory::game::Tile { x: 0, y: 0 });
    let scene = f.scene();
    // ground, deposit, extractor body, mark and six arrow rects, then delivery, hover
    assert_eq!(scene.len(), 96 + 1 + 8 + 3 + 4);
    assert_eq!(scene[97], rect(38, 102, 20, 20, Color::rgb(230, 157, 53)));
    assert_eq!(scene[98], rect(45, 106, 6, 12, Color::rgb(45, 36, 25)));
    assert_eq!(scene[99], rect(50, 110, 4, 4, Color::rgb(255, 233, 141)));
    assert_eq!(scene[102], rect(56, 110, 4, 4, Color::rgb(255, 233, 141)));
    assert_eq!(scene[103], rect(56, 113, 3, 3, Color::rgb(255, 233, 141)));
    assert_eq!(scene[104], rect(56, 107, 3, 3, Color::rgb(255, 233, 141)));
    assert_eq!(scene[108], rect(0, 0, 32, 2, Color::rgb(255, 255, 255)));
    assert_eq!(scene[111], rect(30, 0, 2, 32, Color::rgb(255, 255, 255)));
}

#[test]
fn keys_ask_for_toolbar_and_pointer_actions_on_fresh_presses() {
    assert_eq!(key_command(HostKey::Escape, true, true), Some(HostCommand::Exit));
    assert_eq!(key_command(HostKey::Digit2, true, false), Some(HostCommand::UiAction(ToolbarAction::Extractor)));
    assert_eq!(key_command(HostKey::Digit2, true, true), None);
    assert_eq!(key_command(HostKey::Digit2, false, false), None);
    assert_eq!(key_command(HostKey::KeyR, true, false), Some(HostCommand::UiAction(ToolbarAction::Restart)));
    assert_eq!(key_command(HostKey::Delete, true, false), Some(HostCommand::Pointer(PreviewAction::Remove)));
    assert_eq!(key_command(HostKey::Tab, true, false), Some(HostCommand::FocusNext));
    assert_eq!(key_command(HostKey::Other, true, false), None);
    assert_eq!(ToolbarAction::Facing.name(), "facing");
}

#[test]
fn hud_marks_the_tool_and_focus_and_reports_the_run() {
    let buttons = hud_buttons(true, ToolbarAction::Extractor, Some(ToolbarAction::Step));
    assert_eq!(buttons.len(), 10);
    assert_eq!(buttons[0].label, "1 BELT");
    assert_eq!(buttons[0].tint, Color::rgb(29, 54, 68));
    assert_eq!(buttons[1].tint, Color::rgb(98, 71, 31));
    assert_eq!(buttons[1].text_color, Color::rgb(251, 204, 99));
    assert_eq!((buttons[7].label, buttons[7].x, buttons[7].y, buttons[7].width), ("RESUME", 12, 66, 88));
    assert_eq!(buttons[8].tint, Color::rgb(40, 98, 112));
    assert_eq!(buttons[8].text_color, Color::rgb(105, 215, 226));
    let f = Factory::new();
    assert_eq!(f.hud_status(false), "FACTORY / PLATES 0 / 10 / RUNNING / TICK 0");
    assert_eq!(f.hud_status(true), "FACTORY / PLATES 0 / 10 / PAUSED / TICK 0");
    assert_eq!(f.hud_tool(ToolbarAction::Remove), "TOOL REMOVE / FACING E");
    assert_eq!(f.hud_discarded(), "DISCARDED 0 ORE / 0 PLATES");
}

#[test]
fn diagnosis_composes_the_transport_reason_connection_and_explanation() {
    let app = build_transport_fixture("contention").unwrap();
    let i = index(&app, 2, 3);
    let connection = app.connection(i, app.transport_reason(2, 3).unwrap());
    let (explanation, inputs) = app.explanation(i, &connection.code);
    assert_eq!(app.diagnosis(2, 3), Some((connection, explanation, inputs)));
    assert_eq!(app.diagnosis(-1, -1), None);
}

#[test]
fn validity_checks_order_grid_counters_and_conservation() {
    let mut f = Factory::new();
    assert!(f.is_valid());
    route(&mut f);
    assert!(f.is_valid());
    let mut swapped = f.clone();
    swapped.structures.swap(0, 1);
    assert!(!swapped.is_valid());
    let mut off_grid = f.clone();
    let last = off_grid.structures.len() - 1;
    off_grid.structures[last].x = 12;
    assert!(!off_grid.is_valid());
    let mut counted = f.clone();
    counted.structures[0].progress = 60;
    assert!(!counted.is_valid());
    let mut leaked = f.clone();
    leaked.state.delivered += 1;
    assert!(!leaked.is_valid());
}

#[test]
fn recordings_keep_the_latest_records_and_count_dropped_ones() {
    let mut log = Recording::new();
    for value in 0..256u32 {
        log.push(value);
    }
    assert_eq!(log.records().len(), 256);
    assert_eq!(log.dropped(), 0);
    log.push(256);
    log.push(257);
    assert_eq!(log.records().len(), 256);
    assert_eq!(log.records()[0], 2);
    assert_eq!(log.records()[255], 257);
    assert_eq!(log.dropped(), 2);
}

#[test]
fn inspection_panel_lists_the_pinned_structure_and_its_connection() {
    let f = build_production_fixture("isolated_extractor").unwrap();
    assert_eq!(
        f.inspection_panel(None),
        "SELECT A TILE\nRight click a machine to pin its live details. Or choose Inspect and click.\n\n"
    );
    assert_eq!(f.inspection_panel(Some((0, 0))), "TILE 0 / 0\nEmpty tile. Choose a build tool.\n");
    let panel = f.inspection_panel(Some((1, 3)));
    let (connection, explanation, _) = f.diagnosis(1, 3).unwrap();
    let s = f.structure_at(1, 3).unwrap();
    let slot = if s.slots.output.is_some() { "output / 1 ore / 1\n" } else { "output / 0 EMPTY / 1\n" };
    let expected = format!(
        "TILE 1 / 3\nextractor / FACING E\nINPUT NONE / OUTPUT E\n{}\n{}\n{}\n{}Deposit to 1 ore / 60 eligible ticks\nPROGRESS {} / 60 TICKS\n\nOUTPUT CONNECTION\n{}\n{}\n{}\n",
        explanation.label, explanation.detail, explanation.remedy, slot, s.progress, connection.label, connection.detail,
        connection.remedy
    );
    assert_eq!(panel, expected);
}
