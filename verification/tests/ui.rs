use titan::ecs::command::BundleItem;
use titan::ecs::entity::Entity;
use titan::ecs::world::World;
use titan::render::image::{Color, ImageAssets, RenderFrame};
use titan::render::software::SoftwareRenderer;
use titan::ui::{append_ui, hit_test, BitmapFont, UiButton, UiNode, UiPointer, UiPointerResult, UiText};

fn button(world: &mut World<u32>, node: UiNode) -> Entity {
    world.spawn_with(vec![BundleItem::Node(node), BundleItem::Button(UiButton::enabled())])
}

#[test]
fn text_is_extracted_from_ecs_and_white_masks_preserve_hud_tint() {
    let mut world: World<u32> = World::new();
    let mut assets = ImageAssets::new();
    let font = BitmapFont::tiny(&mut assets);
    world.insert_font(font);
    let tint = Color::rgb(225, 239, 249);
    let label = world.spawn_with(vec![
        BundleItem::Node(UiNode::new(2, 1, 1, 1)),
        BundleItem::Text(UiText::new("H?\nP").with_color(tint)),
    ]);
    // Bounds do not clip glyphs, and entities without both components do not draw.
    world.spawn_with(vec![BundleItem::Text(UiText::new("H"))]);
    let mut hidden = UiNode::new(0, 0, 3, 5);
    hidden.visible = false;
    world.spawn_with(vec![BundleItem::Node(hidden), BundleItem::Text(UiText::new("H"))]);
    let mut frame = RenderFrame::new(12, 14, Color::black());
    append_ui(&world, &mut frame);
    assert_eq!(frame.sprites().len(), 2);
    assert_eq!((frame.sprites()[1].x, frame.sprites()[1].y), (2, 8));
    let image = SoftwareRenderer::render(&frame, &assets).unwrap();
    assert_eq!(image.pixel(2, 1), Some(tint));
    assert_eq!(image.pixel(3, 1), Some(Color::black()));
    assert_eq!(image.pixel(4, 1), Some(tint));
    assert_eq!(image.pixel(3, 3), Some(tint));
    assert_eq!(image.pixel(0, 0), Some(Color::black()));

    world.ui_text_mut(label).unwrap().text = "V".into();
    world.ui_node_mut(label).unwrap().x = 7;
    let mut changed = RenderFrame::new(12, 14, Color::black());
    append_ui(&world, &mut changed);
    let image = SoftwareRenderer::render(&changed, &assets).unwrap();
    assert_eq!(image.pixel(2, 1), Some(Color::black()));
    assert_eq!(image.pixel(7, 1), Some(tint));
    assert_eq!(image.pixel(8, 5), Some(tint));
}

#[test]
fn paint_and_hit_order_agree_after_dense_storage_changes() {
    let mut world: World<u32> = World::new();
    let mut assets = ImageAssets::new();
    world.insert_font(BitmapFont::tiny(&mut assets));
    let removed = button(&mut world, UiNode::new(0, 0, 3, 5));
    let lower = world.spawn_with(vec![
        BundleItem::Node(UiNode::new(0, 0, 3, 5)),
        BundleItem::Text(UiText::new("H").with_color(Color::rgb(255, 0, 0))),
        BundleItem::Button(UiButton::enabled()),
    ]);
    let upper = world.spawn_with(vec![
        BundleItem::Node(UiNode::new(0, 0, 3, 5)),
        BundleItem::Text(UiText::new("H").with_color(Color::rgb(0, 255, 0))),
        BundleItem::Button(UiButton::enabled()),
    ]);
    world.despawn(removed);
    let top_pixel = |world: &World<u32>| {
        let mut frame = RenderFrame::new(3, 5, Color::black());
        append_ui(world, &mut frame);
        SoftwareRenderer::render(&frame, &assets).unwrap().pixel(0, 0)
    };
    assert_eq!(hit_test(&world, 0, 0), Some(upper));
    assert_eq!(top_pixel(&world), Some(Color::rgb(0, 255, 0)));
    world.ui_node_mut(lower).unwrap().order = 1;
    assert_eq!(hit_test(&world, 0, 0), Some(lower));
    assert_eq!(top_pixel(&world), Some(Color::rgb(255, 0, 0)));
    world.ui_node_mut(upper).unwrap().layer = 101;
    assert_eq!(hit_test(&world, 0, 0), Some(upper));
    assert_eq!(top_pixel(&world), Some(Color::rgb(0, 255, 0)));
}

#[test]
fn pointer_activates_once_on_inside_release_and_cancels_outside() {
    let mut world: World<u32> = World::new();
    let target = button(&mut world, UiNode::new(3, 4, 10, 5));
    let mut pointer = UiPointer::new();
    assert_eq!(pointer.update(&world, Some((3, 4)), true), UiPointerResult { consumed: true, activated: None });
    assert!(pointer.update(&world, None, true).consumed);
    assert_eq!(pointer.update(&world, Some((12, 8)), false).activated, Some(target));
    assert_eq!(pointer.update(&world, Some((12, 8)), false).activated, None);
    pointer.update(&world, Some((3, 4)), true);
    assert_eq!(pointer.update(&world, Some((13, 4)), false), UiPointerResult { consumed: true, activated: None });
    assert!(!pointer.update(&world, None, false).consumed);
    // Entering the button during a gesture that began outside cannot activate it.
    pointer.update(&world, None, true);
    assert_eq!(pointer.update(&world, Some((3, 4)), false).activated, None);
    pointer.update(&world, Some((3, 4)), true);
    assert!(pointer.cancel());
    assert!(!pointer.cancel());
    assert_eq!(pointer.update(&world, Some((3, 4)), false).activated, None);
    pointer.update(&world, Some((3, 4)), true);
    assert_eq!(pointer.update(&world, Some((3, 4)), false).activated, Some(target));
}

#[test]
fn disabled_hidden_and_despawned_buttons_cannot_click_through_or_activate() {
    let mut world: World<u32> = World::new();
    let lower = button(&mut world, UiNode::new(0, 0, 10, 10));
    let upper = button(&mut world, UiNode::new(0, 0, 10, 10));
    let mut pointer = UiPointer::new();
    world.ui_button_mut(upper).unwrap().enabled = false;
    assert!(pointer.update(&world, Some((0, 0)), true).consumed);
    world.ui_button_mut(upper).unwrap().enabled = true;
    assert_eq!(pointer.update(&world, Some((0, 0)), false).activated, None);
    pointer.update(&world, Some((0, 0)), true);
    world.ui_node_mut(upper).unwrap().visible = false;
    assert_eq!(hit_test(&world, 0, 0), Some(lower));
    assert_eq!(pointer.update(&world, Some((0, 0)), false), UiPointerResult { consumed: true, activated: None });
    world.ui_node_mut(upper).unwrap().visible = true;
    pointer.update(&world, Some((0, 0)), true);
    world.despawn(upper);
    let replacement = button(&mut world, UiNode::new(0, 0, 10, 10));
    assert_ne!(replacement, upper);
    assert_eq!(pointer.update(&world, Some((0, 0)), false), UiPointerResult { consumed: true, activated: None });
}

#[test]
fn restoring_a_disabled_or_hidden_target_cannot_revive_an_observed_cancellation() {
    let mut world: World<u32> = World::new();
    let target = button(&mut world, UiNode::new(0, 0, 10, 10));
    for disable in [true, false] {
        let mut pointer = UiPointer::new();
        pointer.update(&world, Some((0, 0)), true);
        if disable {
            world.ui_button_mut(target).unwrap().enabled = false;
        } else {
            world.ui_node_mut(target).unwrap().visible = false;
        }
        assert!(pointer.update(&world, None, true).consumed);
        world.ui_button_mut(target).unwrap().enabled = true;
        world.ui_node_mut(target).unwrap().visible = true;
        assert_eq!(pointer.update(&world, Some((0, 0)), false), UiPointerResult { consumed: true, activated: None });
    }
}

#[test]
fn node_bounds_are_half_open_and_hidden_nodes_contain_nothing() {
    let mut node = UiNode::new(-2, 3, 4, 2);
    assert!(node.contains(-2, 3));
    assert!(node.contains(1, 4));
    assert!(!node.contains(2, 4));
    assert!(!node.contains(1, 5));
    node.visible = false;
    assert!(!node.contains(0, 3));
}

#[test]
fn tiny_font_maps_digits_and_letters_to_fresh_images() {
    let mut assets = ImageAssets::new();
    let font = BitmapFont::tiny(&mut assets);
    assert_eq!(assets.len(), 38);
    let zero = font.glyph('0').unwrap();
    let image = assets.get(zero).unwrap();
    assert_eq!((image.width(), image.height()), (3, 5));
    assert_eq!(image.pixel(1, 1), Some(Color::transparent()));
    assert_eq!(image.pixel(0, 1), Some(Color::white()));
    assert_eq!(font.glyph('?'), None);
    assert_eq!(font.advance(), 4);
    assert_eq!(font.line_height(), 7);
}

#[test]
fn no_font_means_no_text_sprites() {
    let mut world: World<u32> = World::new();
    world.spawn_with(vec![BundleItem::Node(UiNode::new(0, 0, 1, 1)), BundleItem::Text(UiText::new("H"))]);
    let mut frame = RenderFrame::new(4, 4, Color::black());
    append_ui(&world, &mut frame);
    assert!(frame.sprites().is_empty());
    assert_eq!(hit_test(&world, 0, 0), None);
}
