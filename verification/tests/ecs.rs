use titan::ecs::builtin::{FindNameError, Name};
use titan::ecs::command::{BundleItem, DeferredOperation};
use titan::ecs::entity::Entity;
use titan::ecs::storage::{ComponentStorage, VectorStorageStats};
use titan::ecs::world::{BuiltinComponent, Component, World};
use titan::ui::{UiButton, UiNode};

const HEALTH: u32 = 0;
const DAMAGE: u32 = 1;

fn health_values(world: &World<u32>) -> Vec<u32> {
    world.iter(HEALTH).into_iter().map(|(_, value)| *value).collect()
}

#[test]
fn component_lifecycle() {
    let mut world: World<u32> = World::new();
    let entity = world.spawn();

    assert_eq!(world.insert(entity, HEALTH, 100), Ok(None));
    assert_eq!(world.get(entity, HEALTH), Some(&100));
    assert_eq!(world.insert(entity, HEALTH, 80), Ok(Some(100)));
    assert_eq!(world.remove(entity, HEALTH), Some(80));
    assert_eq!(world.get(entity, HEALTH), None);
}

#[test]
fn despawn_invalidates_the_handle_and_removes_components() {
    let mut world: World<u32> = World::new();
    let old_entity = world.spawn();
    world.insert(old_entity, HEALTH, 100).unwrap();

    assert!(world.despawn(old_entity));
    assert!(!world.is_alive(old_entity));
    assert_eq!(world.get(old_entity, HEALTH), None);
    assert!(!world.despawn(old_entity));

    let new_entity = world.spawn();
    assert_eq!(new_entity.index(), old_entity.index());
    assert_ne!(new_entity.generation(), old_entity.generation());
    assert_eq!(world.insert(old_entity, HEALTH, 5).unwrap_err().entity(), old_entity);
}

#[test]
fn iteration_is_repeatable_for_the_same_operations() {
    let values = || {
        let mut world: World<u32> = World::new();
        let first = world.spawn();
        let second = world.spawn();
        let third = world.spawn();
        world.insert(first, HEALTH, 1).unwrap();
        world.insert(second, HEALTH, 2).unwrap();
        world.insert(third, HEALTH, 3).unwrap();
        world.remove(second, HEALTH);
        health_values(&world)
    };

    assert_eq!(values(), values());
    assert_eq!(values(), vec![1, 3]);
}

#[test]
fn mutable_iteration_updates_components() {
    let mut world: World<u32> = World::new();
    for value in 0..3 {
        let entity = world.spawn();
        world.insert(entity, HEALTH, value).unwrap();
    }

    assert_eq!(world.iter_mut(HEALTH, |_, health| health + 10), 3);

    assert_eq!(health_values(&world), vec![10, 11, 12]);
}

#[test]
fn deferred_commands_are_invisible_until_applied() {
    let mut world: World<u32> = World::new();
    let entity = {
        let mut commands = world.commands();
        commands.spawn_with(vec![BundleItem::Component(HEALTH, 100)])
    };

    assert!(!world.is_alive(entity));
    assert_eq!(world.get(entity, HEALTH), None);
    assert!(world.apply_deferred().is_empty());
    assert!(world.is_alive(entity));
    assert_eq!(world.get(entity, HEALTH), Some(&100));
}

#[test]
fn deferred_failures_are_structured_and_do_not_stop_later_commands() {
    let mut world: World<u32> = World::new();
    let stale = world.spawn();
    world.despawn(stale);
    let valid = {
        let mut commands = world.commands();
        commands.insert(stale, HEALTH, 1);
        commands.spawn_with(vec![BundleItem::Component(HEALTH, 2)])
    };

    let errors = world.apply_deferred();

    assert_eq!(errors.len(), 1);
    assert_eq!(errors[0].entity(), stale);
    assert_eq!(errors[0].operation(), DeferredOperation::Insert);
    assert_eq!(world.get(valid, HEALTH), Some(&2));
}

#[test]
fn two_component_queries_join_and_mutate_matching_entities() {
    let mut world: World<u32> = World::new();
    let complete = world.spawn();
    let incomplete = world.spawn();
    world.insert(complete, HEALTH, 100).unwrap();
    world.insert(complete, DAMAGE, 25).unwrap();
    world.insert(incomplete, HEALTH, 50).unwrap();

    let values: Vec<_> = world
        .iter2(HEALTH, DAMAGE)
        .into_iter()
        .map(|(entity, health, damage)| (entity, *health, *damage))
        .collect();
    assert_eq!(values, vec![(complete, 100, 25)]);

    let visited = world
        .for_each_mut_with(HEALTH, DAMAGE, |_, health, damage| health - damage)
        .unwrap();
    assert_eq!(visited, 1);
    assert_eq!(world.get(complete, HEALTH), Some(&75));
    assert_eq!(world.get(incomplete, HEALTH), Some(&50));
}

#[test]
fn conflicting_query_access_is_rejected_before_iteration() {
    let mut world: World<u32> = World::new();
    let error = world
        .for_each_mut_with(HEALTH, HEALTH, |_, _, _| unreachable!())
        .unwrap_err();

    assert_eq!(error.kind(), HEALTH);
}

#[test]
fn vector_stats_account_for_zero_sized_elements() {
    let values = vec![(); 3];
    let stats = VectorStorageStats::of(&values);
    assert_eq!(stats.len, 3);
    assert_eq!(stats.element_size, 0);
    assert_eq!(stats.capacity_bytes, 0);
}

#[test]
fn removing_an_item_keeps_the_moved_sparse_entry_valid() {
    let first = Entity::new(0, 0);
    let second = Entity::new(1, 0);
    let mut storage = ComponentStorage::new();

    storage.insert(first, 10_u32);
    storage.insert(second, 20_u32);

    assert_eq!(storage.remove(first), Some(10));
    assert_eq!(storage.get(second), Some(&20));
}

#[test]
fn generation_is_part_of_component_identity() {
    let mut storage = ComponentStorage::new();
    storage.insert(Entity::new(4, 1), 10_u32);

    assert_eq!(storage.get(Entity::new(4, 2)), None);
    assert_eq!(storage.remove(Entity::new(4, 2)), None);
}

#[test]
fn names_are_optional_and_ambiguity_is_explicit() {
    let mut world: World<u32> = World::new();
    let unnamed = world.spawn();
    let first = world.spawn();
    world.insert_name(first, Name::new("player")).unwrap();

    assert_eq!(world.find_named("player"), Ok(first));
    assert!(matches!(world.find_named("missing"), Err(FindNameError::NotFound(_))));

    let second = world.spawn();
    world.insert_name(second, Name::new("player")).unwrap();
    assert_eq!(
        world.find_named("player"),
        Err(FindNameError::Ambiguous { name: "player".to_owned(), matches: vec![first, second] })
    );
    assert!(world.is_alive(unnamed));
}

#[test]
fn reserved_entities_become_alive_only_when_activated() {
    let mut world: World<u32> = World::new();
    let reserved = world.reserve_entity();
    assert!(!world.is_alive(reserved));
    assert_eq!(world.entity_count(), 0);
    assert!(world.activate_reserved(reserved));
    assert!(world.is_alive(reserved));
    assert!(!world.activate_reserved(reserved));
    assert_eq!(world.entities(), vec![reserved]);
}

#[test]
fn despawned_handles_stay_dead_after_index_reuse() {
    let mut world: World<u32> = World::new();
    let first = world.spawn();
    world.despawn(first);
    let reused = world.spawn();
    assert_eq!(reused.index(), first.index());
    assert!(!world.is_alive(first));
    assert!(world.is_alive(reused));
    assert_eq!(world.insert(first, HEALTH, 1).unwrap_err().entity(), first);
    assert_eq!(world.get(reused, HEALTH), None);
}

#[test]
fn deferred_despawn_twice_reports_the_second_failure() {
    let mut world: World<u32> = World::new();
    let entity = world.spawn();
    {
        let mut commands = world.commands();
        commands.despawn(entity);
        commands.despawn(entity);
    }
    let errors = world.apply_deferred();
    assert_eq!(errors.len(), 1);
    assert_eq!(errors[0].operation(), DeferredOperation::Despawn);
    assert!(!world.is_alive(entity));
}

#[test]
fn resources_are_keyed_by_kind() {
    let mut world: World<u32> = World::new();
    assert_eq!(world.insert_resource(HEALTH, 7), None);
    assert_eq!(world.insert_resource(HEALTH, 9), Some(7));
    assert_eq!(world.resource(HEALTH), Some(&9));
    assert_eq!(world.resource(DAMAGE), None);
    *world.resource_mut(HEALTH).unwrap() = 11;
    assert_eq!(world.remove_resource(HEALTH), Some(11));
    assert_eq!(world.resource(HEALTH), None);
}

#[test]
fn component_kinds_are_sorted_and_empty_for_dead_handles() {
    let mut world: World<u32> = World::new();
    let entity = world.spawn();
    world.insert(entity, DAMAGE, 3).unwrap();
    world.insert(entity, HEALTH, 4).unwrap();
    assert_eq!(world.component_kinds(entity), vec![HEALTH, DAMAGE]);
    world.despawn(entity);
    assert!(world.component_kinds(entity).is_empty());
}

#[derive(Debug, PartialEq)]
struct Position {
    x: i32,
    y: i32,
}

impl Component for Position {}

#[test]
fn derived_components_expose_basic_metadata() {
    let metadata = Position::metadata();

    assert_eq!(metadata.size, std::mem::size_of::<Position>());
    assert_eq!(metadata.align, std::mem::align_of::<Position>());
}

#[test]
fn queued_spawns_become_alive_when_applied() {
    let mut world: World<u32> = World::new();
    world.spawn();
    let entity = world.commands().spawn();
    assert!(!world.is_alive(entity));
    assert_eq!(world.entity_count(), 1);
    assert!(!world.entities().contains(&entity));
    assert!(world.apply_deferred().is_empty());
    assert!(world.is_alive(entity));
    assert_eq!(world.entity_count(), 2);
    assert!(world.entities().contains(&entity));
}

#[test]
fn queued_bundles_insert_into_live_entities_or_report_the_handle() {
    let mut world: World<u32> = World::new();
    let live = world.spawn();
    let dead = world.spawn();
    world.despawn(dead);
    world.commands().insert_bundle(live, vec![BundleItem::Component(1, 5), BundleItem::Component(1, 6)]);
    assert_eq!(world.get(live, 1), None);
    assert!(world.apply_deferred().is_empty());
    assert_eq!(world.get(live, 1), Some(&6));
    world.commands().insert_bundle(dead, vec![BundleItem::Component(1, 7)]);
    let errors = world.apply_deferred();
    assert_eq!(errors.len(), 1);
    assert_eq!(errors[0].entity(), dead);
    assert_eq!(errors[0].operation(), DeferredOperation::Insert);
    assert_eq!(world.get(dead, 1), None);
}

#[test]
fn builtin_components_are_listed_in_a_fixed_order() {
    let mut world: World<u32> = World::new();
    let entity = world.spawn();
    assert!(world.builtin_components(entity).is_empty());
    world.insert_ui_button(entity, UiButton::enabled()).unwrap();
    world.insert_name(entity, Name::new("button")).unwrap();
    world.insert_ui_node(entity, UiNode::new(0, 0, 4, 4)).unwrap();
    assert_eq!(
        world.builtin_components(entity),
        [BuiltinComponent::Name, BuiltinComponent::UiNode, BuiltinComponent::UiButton]
    );
    assert_eq!(world.component_kinds(entity), Vec::<u32>::new());
    world.despawn(entity);
    assert!(world.builtin_components(entity).is_empty());
}

#[test]
fn commands_through_the_world_queue_on_that_world() {
    let mut world: World<u32> = World::new();
    let target = world.spawn();
    let spawned = world.commands().spawn();
    world.commands().insert(target, 3, 9);
    assert!(!world.is_alive(spawned));
    assert_eq!(world.get(target, 3), None);
    assert!(world.apply_deferred().is_empty());
    assert!(world.is_alive(spawned));
    assert_eq!(world.get(target, 3), Some(&9));
}
