use titan::render::image::{
    image_checksum, Color, Image, ImageAssets, ImageId, RenderError, RenderFrame, SpriteDraw,
};
use titan::render::software::SoftwareRenderer;

fn solid(color: Color) -> Image {
    Image::from_fn(1, 1, move |_, _| color).unwrap()
}

#[test]
fn renders_scaled_clipped_tinted_sprites_in_layer_order() {
    let mut assets = ImageAssets::new();
    let red = assets.insert(solid(Color::rgb(255, 0, 0)));
    let white = assets.insert(solid(Color::white()));
    let mut frame = RenderFrame::new(3, 2, Color::black());
    frame.push(SpriteDraw::new(white, 0, 0).with_tint(Color::rgba(0, 0, 255, 128)).with_layer(2));
    frame.push(SpriteDraw::new(red, -1, 0).with_pixel_scale(2).with_layer(1));

    let rendered = SoftwareRenderer::render(&frame, &assets).unwrap();

    assert_eq!(rendered.pixel(0, 0), Some(Color::rgb(127, 0, 128)));
    assert_eq!(rendered.pixel(0, 1), Some(Color::rgb(255, 0, 0)));
    assert_eq!(rendered.pixel(1, 0), Some(Color::black()));
}

#[test]
fn reports_missing_assets() {
    let mut source_assets = ImageAssets::new();
    let missing = source_assets.insert(solid(Color::white()));
    let mut frame = RenderFrame::new(1, 1, Color::black());
    frame.push(SpriteDraw::new(missing, 0, 0));

    let error = SoftwareRenderer::render(&frame, &ImageAssets::new()).unwrap_err();

    assert_eq!(error, RenderError::MissingImage(missing));
}

#[test]
fn equal_layers_draw_by_order_then_insertion() {
    let mut assets = ImageAssets::new();
    let red = assets.insert(solid(Color::rgb(255, 0, 0)));
    let green = assets.insert(solid(Color::rgb(0, 255, 0)));
    let mut frame = RenderFrame::new(1, 1, Color::black());
    frame.push(SpriteDraw::new(red, 0, 0).with_order(1));
    frame.push(SpriteDraw::new(green, 0, 0));
    let rendered = SoftwareRenderer::render(&frame, &assets).unwrap();
    assert_eq!(rendered.pixel(0, 0), Some(Color::rgb(255, 0, 0)));

    let mut tie = RenderFrame::new(1, 1, Color::black());
    tie.push(SpriteDraw::new(red, 0, 0));
    tie.push(SpriteDraw::new(green, 0, 0));
    let rendered = SoftwareRenderer::render(&tie, &assets).unwrap();
    assert_eq!(rendered.pixel(0, 0), Some(Color::rgb(0, 255, 0)));
}

#[test]
fn first_missing_image_in_draw_order_is_reported() {
    let assets = ImageAssets::new();
    let mut frame = RenderFrame::new(1, 1, Color::black());
    frame.push(SpriteDraw::new(ImageId(5), 0, 0).with_layer(3));
    frame.push(SpriteDraw::new(ImageId(9), 0, 0).with_layer(1));
    assert_eq!(SoftwareRenderer::render(&frame, &assets).unwrap_err(), RenderError::MissingImage(ImageId(9)));
}

#[test]
fn oversized_frames_are_rejected() {
    let frame = RenderFrame::new(u32::MAX, u32::MAX, Color::black());
    assert_eq!(SoftwareRenderer::render(&frame, &ImageAssets::new()).unwrap_err(), RenderError::InvalidFrameDimensions);
}

#[test]
fn transparent_tint_leaves_the_clear_color() {
    let mut assets = ImageAssets::new();
    let white = assets.insert(solid(Color::white()));
    let mut frame = RenderFrame::new(2, 1, Color::rgb(10, 20, 30));
    frame.push(SpriteDraw::new(white, 0, 0).with_tint(Color::transparent()));
    let rendered = SoftwareRenderer::render(&frame, &assets).unwrap();
    assert_eq!(rendered.pixel(0, 0), Some(Color::rgb(10, 20, 30)));
    assert_eq!(rendered.pixel(2, 0), None);
}

#[test]
fn image_checksum_is_fnv1a_of_the_pixels() {
    assert_eq!(image_checksum(&solid(Color::white())), 0x994f_7665_3e2a_3951);
    let image = Image::new(1, 1, vec![1, 2, 3, 4]).unwrap();
    assert_eq!(image_checksum(&image), 0xbe7a_5e77_5165_785d);
}
