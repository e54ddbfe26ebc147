use vstd::prelude::*;

use super::image::{
    byte_len, color_at, lemma_pixel_offset, pixel_byte_len, Color, Image, ImageAssets, ImageId,
    RenderError, RenderFrame, SpriteDraw,
};

verus! {

/// `left * right / 255`, rounded to nearest.
pub open spec fn multiply_channel_spec(left: u8, right: u8) -> u8 {
    ((left as int * right as int + 127) / 255) as u8
}

/// Multiplies every channel of `source` by the matching channel of `tint`.
pub open spec fn tint_spec(source: Color, tint: Color) -> Color {
    Color {
        red: multiply_channel_spec(source.red, tint.red),
        green: multiply_channel_spec(source.green, tint.green),
        blue: multiply_channel_spec(source.blue, tint.blue),
        alpha: multiply_channel_spec(source.alpha, tint.alpha),
    }
}

/// One straight-alpha channel of `source` composited over `destination`.
pub open spec fn blend_channel_spec(
    source_channel: u8,
    destination_channel: u8,
    source_alpha: int,
    destination_alpha: int,
) -> u8 {
    let inverse: int = 255 - source_alpha;
    let out: int = source_alpha * 255 + destination_alpha * inverse;
    ((source_channel as int * source_alpha * 255 + destination_channel as int * destination_alpha
        * inverse + out / 2) / out) as u8
}

/// Straight-alpha "source over destination" compositing in integer arithmetic.
pub open spec fn blend_spec(source: Color, destination: Color) -> Color {
    let sa: int = source.alpha as int;
    let da: int = destination.alpha as int;
    let out: int = sa * 255 + da * (255 - sa);
    if out == 0 {
        Color { red: 0, green: 0, blue: 0, alpha: 0 }
    } else {
        Color {
            red: blend_channel_spec(source.red, destination.red, sa, da),
            green: blend_channel_spec(source.green, destination.green, sa, da),
            blue: blend_channel_spec(source.blue, destination.blue, sa, da),
            alpha: ((out + 127) / 255) as u8,
        }
    }
}

/// Channel `c` (0 red, 1 green, 2 blue, 3 alpha) of a color.
pub open spec fn channel(color: Color, c: int) -> u8 {
    if c == 0 {
        color.red
    } else if c == 1 {
        color.green
    } else if c == 2 {
        color.blue
    } else {
        color.alpha
    }
}

/// Byte offset of channel `c` of pixel `(x, y)` in a row-major RGBA buffer.
pub open spec fn byte_index(width: int, x: int, y: int, c: int) -> int {
    (y * width + x) * 4 + c
}

/// Whether a framebuffer pixel lies under a scaled sprite of the given size.
pub open spec fn covers(sprite: SpriteDraw, image_width: u32, image_height: u32, x: int, y: int) -> bool {
    let dx = x - sprite.x;
    let dy = y - sprite.y;
    &&& 0 <= dx < image_width as int * sprite.pixel_scale as int
    &&& 0 <= dy < image_height as int * sprite.pixel_scale as int
}

/// The color a sprite leaves on a covered framebuffer pixel whose previous
/// color is `destination`: its nearest source pixel, tinted, composited over.
pub open spec fn sprite_color(sprite: SpriteDraw, image: Image, x: int, y: int, destination: Color) -> Color {
    let scale = sprite.pixel_scale as int;
    blend_spec(
        tint_spec(image.spec_pixel((x - sprite.x) / scale, (y - sprite.y) / scale), sprite.tint),
        destination,
    )
}

/// `after` is the framebuffer `before` with one sprite drawn on it.
#[verifier::opaque]
pub open spec fn drawn(
    before: Seq<u8>,
    after: Seq<u8>,
    width: u32,
    height: u32,
    image: Image,
    sprite: SpriteDraw,
) -> bool {
    &&& after.len() == before.len()
    &&& forall|x: int, y: int, c: int|
        0 <= x < width && 0 <= y < height && 0 <= c < 4 ==> #[trigger] after[byte_index(
            width as int,
            x,
            y,
            c,
        )] == if covers(sprite, image.spec_width(), image.spec_height(), x, y) {
            channel(
                sprite_color(
                    sprite,
                    image,
                    x,
                    y,
                    color_at(before, byte_index(width as int, x, y, 0)),
                ),
                c,
            )
        } else {
            before[byte_index(width as int, x, y, c)]
        }
}

/// A framebuffer filled with one color.
#[verifier::opaque]
pub open spec fn cleared(pixels: Seq<u8>, width: u32, height: u32, clear: Color) -> bool {
    &&& pixels.len() == byte_len(width, height)
    &&& forall|x: int, y: int, c: int|
        0 <= x < width && 0 <= y < height && 0 <= c < 4 ==> #[trigger] pixels[byte_index(
            width as int,
            x,
            y,
            c,
        )] == channel(clear, c)
}

/// Sort key of a sprite: layer, then order, then insertion position.
pub open spec fn sprite_before(sprites: Seq<SpriteDraw>, i: int, j: int) -> bool {
    ||| sprites[i].layer < sprites[j].layer
    ||| (sprites[i].layer == sprites[j].layer && sprites[i].order < sprites[j].order)
    ||| (sprites[i].layer == sprites[j].layer && sprites[i].order == sprites[j].order && i < j)
}

/// `order` lists every sprite position once, sorted by layer, order and
/// insertion position.
pub open spec fn draw_order(sprites: Seq<SpriteDraw>, order: Seq<int>) -> bool {
    &&& order.len() == sprites.len()
    &&& forall|k: int| 0 <= k < order.len() ==> 0 <= #[trigger] order[k] < sprites.len()
    &&& forall|a: int, b: int|
        0 <= a < b < order.len() ==> sprite_before(sprites, #[trigger] order[a], #[trigger] order[b])
}

/// Stage `k + 1` is stage `k` with sprite `order[k]` drawn, whose image exists.
pub open spec fn stage_drawn(
    frame: RenderFrame,
    assets: ImageAssets,
    order: Seq<int>,
    stages: Seq<Seq<u8>>,
    k: int,
) -> bool {
    let sprites = frame.sprite_seq();
    &&& assets.spec_get(sprites[order[k]].image) is Some
    &&& drawn(
        stages[k],
        stages[k + 1],
        frame.spec_width(),
        frame.spec_height(),
        assets.spec_get(sprites[order[k]].image).unwrap(),
        sprites[order[k]],
    )
}

/// Each stage below `count` is the one before it with sprite `order[k]` drawn.
pub open spec fn stages_drawn(
    frame: RenderFrame,
    assets: ImageAssets,
    order: Seq<int>,
    stages: Seq<Seq<u8>>,
    count: int,
) -> bool {
    forall|k: int| 0 <= k < count ==> #[trigger] stage_drawn(frame, assets, order, stages, k)
}

/// The framebuffers after clearing and after drawing each sprite in `order`.
pub open spec fn render_stages(
    frame: RenderFrame,
    assets: ImageAssets,
    order: Seq<int>,
    stages: Seq<Seq<u8>>,
) -> bool {
    &&& stages.len() == order.len() + 1
    &&& cleared(stages[0], frame.spec_width(), frame.spec_height(), frame.spec_clear())
    &&& stages_drawn(frame, assets, order, stages, order.len() as int)
}

/// Positions of a draw order as integers.
pub open spec fn order_ints(order: Seq<usize>) -> Seq<int> {
    order.map_values(|v: usize| v as int)
}

proof fn lemma_byte_index(width: int, height: int, x: int, y: int, c: int)
    requires
        0 <= x < width,
        0 <= y < height,
        0 <= c < 4,
    ensures
        0 <= byte_index(width, x, y, c) < width * height * 4,
        byte_index(width, x, y, c) / 4 == y * width + x,
        byte_index(width, x, y, c) % 4 == c,
        (y * width + x) / width == y,
        (y * width + x) % width == x,
{
    assert(0 <= y * width + x < width * height) by (nonlinear_arith)
        requires
            0 <= x < width,
            0 <= y < height,
    ;
    vstd::arithmetic::div_mod::lemma_fundamental_div_mod_converse(
        byte_index(width, x, y, c),
        4,
        y * width + x,
        c,
    );
    assert(y * width + x == y * width + x);
    vstd::arithmetic::div_mod::lemma_fundamental_div_mod_converse(
        y * width + x,
        width,
        y,
        x,
    );
}

proof fn lemma_byte_index_injective(width: int, height: int, x1: int, y1: int, c1: int, x2: int, y2: int, c2: int)
    requires
        0 <= x1 < width,
        0 <= y1 < height,
        0 <= c1 < 4,
        0 <= x2 < width,
        0 <= y2 < height,
        0 <= c2 < 4,
        byte_index(width, x1, y1, c1) == byte_index(width, x2, y2, c2),
    ensures
        x1 == x2 && y1 == y2 && c1 == c2,
{
    lemma_byte_index(width, height, x1, y1, c1);
    lemma_byte_index(width, height, x2, y2, c2);
}

fn multiply_channel(left: u8, right: u8) -> (r: u8)
    ensures
        r == multiply_channel_spec(left, right),
{
    assert(left as int * right as int <= 255 * 255) by (nonlinear_arith)
        requires
            left <= 255,
            right <= 255,
    ;
    ((left as u32 * right as u32 + 127) / 255) as u8
}

fn tint(source: Color, factor: Color) -> (r: Color)
    ensures
        r == tint_spec(source, factor),
{
    Color::rgba(
        multiply_channel(source.red, factor.red),
        multiply_channel(source.green, factor.green),
        multiply_channel(source.blue, factor.blue),
        multiply_channel(source.alpha, factor.alpha),
    )
}

fn blend_channel(source_channel: u8, destination_channel: u8, source_alpha: u32, destination_alpha: u32) -> (r: u8)
    requires
        source_alpha <= 255,
        destination_alpha <= 255,
        source_alpha * 255 + destination_alpha * (255 - source_alpha) > 0,
    ensures
        r == blend_channel_spec(source_channel, destination_channel, source_alpha as int, destination_alpha as int),
{
    let inverse = 255 - source_alpha;
    assert(destination_alpha * inverse <= 255 * 255) by (nonlinear_arith)
        requires
            destination_alpha <= 255,
            inverse <= 255,
    ;
    let out = source_alpha * 255 + destination_alpha * inverse;
    assert(source_channel as int * source_alpha as int * 255 + destination_channel as int * destination_alpha as int * inverse as int <= 255 * out as int) by (nonlinear_arith)
        requires
            source_channel <= 255,
            destination_channel <= 255,
            source_alpha <= 255,
            destination_alpha <= 255,
            inverse == 255 - source_alpha,
            out == source_alpha * 255 + destination_alpha * inverse,
    ;
    assert(out <= 255 * 255 * 2) by (nonlinear_arith)
        requires
            source_alpha <= 255,
            destination_alpha <= 255,
            inverse == 255 - source_alpha,
            out == source_alpha * 255 + destination_alpha * inverse,
    ;
    assert(source_channel as int * source_alpha as int <= 255 * 255) by (nonlinear_arith)
        requires
            source_channel <= 255,
            source_alpha <= 255,
    ;
    assert(destination_channel as int * destination_alpha as int <= 255 * 255) by (nonlinear_arith)
        requires
            destination_channel <= 255,
            destination_alpha <= 255,
    ;
    assert(destination_channel as int * destination_alpha as int * inverse as int <= 255 * 255 * 255) by (nonlinear_arith)
        requires
            destination_channel as int * destination_alpha as int <= 255 * 255,
            inverse <= 255,
            destination_channel as int * destination_alpha as int >= 0,
    ;
    let numerator = source_channel as u32 * source_alpha * 255 + destination_channel as u32
        * destination_alpha * inverse;
    assert((numerator as int + out as int / 2) / out as int <= 255) by (nonlinear_arith)
        requires
            numerator <= 255 * out,
            out > 0,
    ;
    ((numerator + out / 2) / out) as u8
}

fn blend(source: Color, destination: Color) -> (r: Color)
    ensures
        r == blend_spec(source, destination),
{
    let source_alpha = source.alpha as u32;
    let destination_alpha = destination.alpha as u32;
    let inverse_source_alpha = 255 - source_alpha;
    assert(destination_alpha * inverse_source_alpha <= 255 * 255) by (nonlinear_arith)
        requires
            destination_alpha <= 255,
            inverse_source_alpha <= 255,
    ;
    let output_alpha_scaled = source_alpha * 255 + destination_alpha * inverse_source_alpha;
    assert(output_alpha_scaled <= 255 * 255) by (nonlinear_arith)
        requires
            destination_alpha <= 255,
            inverse_source_alpha == 255 - source_alpha,
            source_alpha <= 255,
            output_alpha_scaled == source_alpha * 255 + destination_alpha * inverse_source_alpha,
    ;
    if output_alpha_scaled == 0 {
        return Color::transparent();
    }
    assert((output_alpha_scaled as int + 127) / 255 <= 255) by (nonlinear_arith)
        requires
            output_alpha_scaled <= 255 * 255,
    ;
    Color::rgba(
        blend_channel(source.red, destination.red, source_alpha, destination_alpha),
        blend_channel(source.green, destination.green, source_alpha, destination_alpha),
        blend_channel(source.blue, destination.blue, source_alpha, destination_alpha),
        ((output_alpha_scaled + 127) / 255) as u8,
    )
}


/// The first sprite in draw order whose image is missing is `order[m]`.
pub open spec fn first_missing(assets: ImageAssets, sprites: Seq<SpriteDraw>, order: Seq<int>, m: int) -> bool {
    &&& 0 <= m < order.len()
    &&& assets.spec_get(sprites[order[m]].image) is None
    &&& forall|k: int| 0 <= k < m ==> assets.spec_get(sprites[#[trigger] order[k]].image) is Some
}

/// What rendering in `order` produces.
pub open spec fn render_outcome(
    frame: RenderFrame,
    assets: ImageAssets,
    order: Seq<int>,
    r: Result<Image, RenderError>,
) -> bool {
    let sprites = frame.sprite_seq();
    &&& (forall|k: int| 0 <= k < order.len() ==> assets.spec_get(sprites[#[trigger] order[k]].image) is Some)
        ==> exists|stages: Seq<Seq<u8>>| {
        &&& render_stages(frame, assets, order, stages)
        &&& r matches Ok(image)
        &&& image.spec_width() == frame.spec_width()
        &&& image.spec_height() == frame.spec_height()
        &&& image.spec_pixels() == stages.last()
    }
    &&& forall|m: int| first_missing(assets, sprites, order, m) ==> r == Err::<Image, RenderError>(
        RenderError::MissingImage(sprites[order[m]].image),
    )
}

proof fn lemma_sprite_before_order(sprites: Seq<SpriteDraw>)
    ensures
        forall|i: int, j: int, k: int|
            #[trigger] sprite_before(sprites, i, j) && #[trigger] sprite_before(sprites, j, k) ==> sprite_before(sprites, i, k),
        forall|i: int| !#[trigger] sprite_before(sprites, i, i),
        forall|i: int, j: int| i != j ==> #[trigger] sprite_before(sprites, i, j) || sprite_before(sprites, j, i),
{
}

/// Whether sprite `j` is drawn before sprite `i`.
fn draws_before(sprites: &[SpriteDraw], j: usize, i: usize) -> (r: bool)
    requires
        j < i < sprites@.len(),
    ensures
        r == sprite_before(sprites@, j as int, i as int),
{
    let a = sprites[j];
    let b = sprites[i];
    a.layer < b.layer || (a.layer == b.layer && a.order <= b.order)
}

/// Appends sprite `i`, which follows every listed sprite in insertion order,
/// at its place in draw order.
fn insert_in_draw_order(order: &mut Vec<usize>, sprites: &[SpriteDraw], i: usize)
    requires
        i < sprites@.len(),
        old(order)@.len() == i,
        forall|k: int| 0 <= k < old(order)@.len() ==> #[trigger] old(order)@[k] < i,
        forall|a: int, b: int| 0 <= a < b < old(order)@.len() ==> sprite_before(sprites@, #[trigger] old(order)@[a] as int, #[trigger] old(order)@[b] as int),
    ensures
        final(order)@.len() == i + 1,
        forall|k: int| 0 <= k < final(order)@.len() ==> #[trigger] final(order)@[k] <= i,
        forall|a: int, b: int| 0 <= a < b < final(order)@.len() ==> sprite_before(sprites@, #[trigger] final(order)@[a] as int, #[trigger] final(order)@[b] as int),
{
    proof {
        lemma_sprite_before_order(sprites@);
    }
    let mut p: usize = 0;
    while p < order.len() && draws_before(sprites, order[p], i)
        invariant
            p <= order@.len(),
            order@.len() == i,
            i < sprites@.len(),
            forall|k: int| 0 <= k < order@.len() ==> #[trigger] order@[k] < i,
            forall|k: int| 0 <= k < p ==> sprite_before(sprites@, #[trigger] order@[k] as int, i as int),
        decreases order@.len() - p,
    {
        p += 1;
    }
    let ghost pre = order@;
    proof {
        assert forall|k: int| p <= k < pre.len() implies sprite_before(sprites@, i as int, #[trigger] pre[k] as int) by {
            assert(!sprite_before(sprites@, pre[p as int] as int, i as int));
            if k > p {
                assert(sprite_before(sprites@, pre[p as int] as int, pre[k] as int));
                if sprite_before(sprites@, pre[k] as int, i as int) {
                    assert(sprite_before(sprites@, pre[p as int] as int, i as int));
                }
            }
            assert(pre[k] as int != i as int);
        }
    }
    order.insert(p, i);
    proof {
        assert forall|a: int, b: int| 0 <= a < b < order@.len() implies sprite_before(sprites@, #[trigger] order@[a] as int, #[trigger] order@[b] as int) by {
            if b < p {
                assert(order@[a] == pre[a] && order@[b] == pre[b]);
            } else if b == p {
                assert(order@[a] == pre[a]);
            } else if a == p {
                assert(order@[b] == pre[b - 1]);
            } else if a < p {
                assert(order@[a] == pre[a] && order@[b] == pre[b - 1]);
            } else {
                assert(order@[a] == pre[a - 1] && order@[b] == pre[b - 1]);
            }
        }
        assert forall|k: int| 0 <= k < order@.len() implies #[trigger] order@[k] <= i by {
            if k < p {
                assert(order@[k] == pre[k]);
            } else if k > p {
                assert(order@[k] == pre[k - 1]);
            }
        }
    }
}

/// Draws one sprite onto a framebuffer.
fn draw_sprite(target: &mut Vec<u8>, width: u32, height: u32, image: &Image, sprite: &SpriteDraw)
    requires
        old(target)@.len() == byte_len(width, height),
    ensures
        final(target)@.len() == old(target)@.len(),
        drawn(old(target)@, final(target)@, width, height, *image, *sprite),
{
    let ghost before = target@;
    let len = target.len();
    let scale = sprite.pixel_scale as i128;
    let image_width = image.width();
    let image_height = image.height();
    let x_start: i128 = if sprite.x < 0 { 0 } else { sprite.x as i128 };
    let y_start: i128 = if sprite.y < 0 { 0 } else { sprite.y as i128 };
    assert(image_width as int * sprite.pixel_scale as int <= u32::MAX as int * u32::MAX as int) by (nonlinear_arith)
        requires
            image_width <= u32::MAX,
            sprite.pixel_scale <= u32::MAX,
    ;
    assert(image_height as int * sprite.pixel_scale as int <= u32::MAX as int * u32::MAX as int) by (nonlinear_arith)
        requires
            image_height <= u32::MAX,
            sprite.pixel_scale <= u32::MAX,
    ;
    let x_reach = sprite.x as i128 + image_width as i128 * scale;
    let y_reach = sprite.y as i128 + image_height as i128 * scale;
    let x_end: i128 = if x_reach < width as i128 { x_reach } else { width as i128 };
    let y_end: i128 = if y_reach < height as i128 { y_reach } else { height as i128 };
    let mut ty: i128 = y_start;
    while ty < y_end
        invariant
            target@.len() == before.len(),
            before.len() == byte_len(width, height),
            len == before.len(),
            scale == sprite.pixel_scale,
            image_width == image.spec_width(),
            image_height == image.spec_height(),
            x_start == if sprite.x < 0 { 0 } else { sprite.x as int },
            y_start == if sprite.y < 0 { 0 } else { sprite.y as int },
            x_end == if sprite.x + image_width as int * scale < width { sprite.x + image_width as int * scale } else { width as int },
            y_end == if sprite.y + image_height as int * scale < height { sprite.y + image_height as int * scale } else { height as int },
            y_start <= ty,
            ty <= y_end || ty == y_start,
            forall|x: int, y: int, c: int|
                0 <= x < width && 0 <= y < height && 0 <= c < 4 ==> #[trigger] target@[byte_index(width as int, x, y, c)] == if covers(*sprite, image_width, image_height, x, y) && y < ty {
                    channel(sprite_color(*sprite, *image, x, y, color_at(before, byte_index(width as int, x, y, 0))), c)
                } else {
                    before[byte_index(width as int, x, y, c)]
                },
        decreases y_end - ty,
    {
        let mut tx: i128 = x_start;
        while tx < x_end
            invariant
                target@.len() == before.len(),
                before.len() == byte_len(width, height),
                len == before.len(),
                scale == sprite.pixel_scale,
                image_width == image.spec_width(),
                image_height == image.spec_height(),
                x_start == if sprite.x < 0 { 0 } else { sprite.x as int },
                y_start == if sprite.y < 0 { 0 } else { sprite.y as int },
                x_end == if sprite.x + image_width as int * scale < width { sprite.x + image_width as int * scale } else { width as int },
                y_end == if sprite.y + image_height as int * scale < height { sprite.y + image_height as int * scale } else { height as int },
                y_start <= ty < y_end,
                x_start <= tx,
                tx <= x_end || tx == x_start,
                forall|x: int, y: int, c: int|
                    0 <= x < width && 0 <= y < height && 0 <= c < 4 ==> #[trigger] target@[byte_index(width as int, x, y, c)] == if covers(*sprite, image_width, image_height, x, y) && (y < ty || (y == ty && x < tx)) {
                        channel(sprite_color(*sprite, *image, x, y, color_at(before, byte_index(width as int, x, y, 0))), c)
                    } else {
                        before[byte_index(width as int, x, y, c)]
                    },
            decreases x_end - tx,
        {
            let ghost current = target@;
            let dx = tx - sprite.x as i128;
            let dy = ty - sprite.y as i128;
            proof {
                assert(covers(*sprite, image_width, image_height, tx as int, ty as int));
                assert(scale > 0) by (nonlinear_arith)
                    requires
                        0 <= dx < image_width as int * scale,
                        scale >= 0,
                ;
                assert(dx / scale < image_width) by (nonlinear_arith)
                    requires
                        0 <= dx < image_width as int * scale,
                        scale > 0,
                ;
                assert(dy / scale < image_height) by (nonlinear_arith)
                    requires
                        0 <= dy < image_height as int * scale,
                        scale > 0,
                ;
                assert(dx / scale >= 0 && dy / scale >= 0) by (nonlinear_arith)
                    requires
                        dx >= 0,
                        dy >= 0,
                        scale > 0,
                ;
            }
            let source_x = (dx / scale) as u32;
            let source_y = (dy / scale) as u32;
            let source_pixel = match image.pixel(source_x, source_y) {
                Some(color) => color,
                None => Color::transparent(),
            };
            let source = tint(source_pixel, sprite.tint);
            let x = tx as usize;
            let y = ty as usize;
            proof {
                lemma_byte_index(width as int, height as int, x as int, y as int, 0);
                lemma_byte_index(width as int, height as int, x as int, y as int, 3);
                assert(y as int * width as int <= byte_index(width as int, x as int, y as int, 0)) by (nonlinear_arith)
                    requires
                        x >= 0,
                        y as int * width as int >= 0,
                ;
                assert(y as int * width as int >= 0) by (nonlinear_arith)
                    requires
                        y >= 0,
                        width >= 0,
                ;
                assert(byte_len(width, height) == width as int * height as int * 4);
            }
            let offset = (y * width as usize + x) * 4;
            let destination = Color::rgba(target[offset], target[offset + 1], target[offset + 2], target[offset + 3]);
            proof {
                assert(offset as int == byte_index(width as int, x as int, y as int, 0));
                assert(target@[byte_index(width as int, x as int, y as int, 0)] == before[byte_index(width as int, x as int, y as int, 0)]);
                assert(target@[byte_index(width as int, x as int, y as int, 1)] == before[byte_index(width as int, x as int, y as int, 1)]);
                assert(target@[byte_index(width as int, x as int, y as int, 2)] == before[byte_index(width as int, x as int, y as int, 2)]);
                assert(target@[byte_index(width as int, x as int, y as int, 3)] == before[byte_index(width as int, x as int, y as int, 3)]);
                assert(destination == color_at(before, byte_index(width as int, x as int, y as int, 0)));
            }
            let output = blend(source, destination);
            target.set(offset, output.red);
            target.set(offset + 1, output.green);
            target.set(offset + 2, output.blue);
            target.set(offset + 3, output.alpha);
            proof {
                assert(output == sprite_color(*sprite, *image, tx as int, ty as int, destination));
                assert forall|px: int, py: int, c: int|
                    0 <= px < width && 0 <= py < height && 0 <= c < 4 implies #[trigger] target@[byte_index(width as int, px, py, c)] == if covers(*sprite, image_width, image_height, px, py) && (py < ty || (py == ty && px < tx + 1)) {
                        channel(sprite_color(*sprite, *image, px, py, color_at(before, byte_index(width as int, px, py, 0))), c)
                    } else {
                        before[byte_index(width as int, px, py, c)]
                    } by {
                    lemma_byte_index(width as int, height as int, px, py, c);
                    if px == tx && py == ty {
                        assert(byte_index(width as int, px, py, c) == offset as int + c);
                    } else {
                        if byte_index(width as int, px, py, c) >= offset as int && byte_index(width as int, px, py, c) < offset as int + 4 {
                            let c2 = byte_index(width as int, px, py, c) - offset as int;
                            assert(byte_index(width as int, px, py, c) == byte_index(width as int, x as int, y as int, c2));
                            lemma_byte_index_injective(width as int, height as int, px, py, c, x as int, y as int, c2);
                        }
                        assert(target@[byte_index(width as int, px, py, c)] == current[byte_index(width as int, px, py, c)]);
                    }
                }
            }
            tx += 1;
        }
        ty += 1;
    }
    proof {
        reveal(drawn);
        assert forall|x: int, y: int, c: int|
            0 <= x < width && 0 <= y < height && 0 <= c < 4 implies #[trigger] target@[byte_index(width as int, x, y, c)] == if covers(*sprite, image_width, image_height, x, y) {
                channel(sprite_color(*sprite, *image, x, y, color_at(before, byte_index(width as int, x, y, 0))), c)
            } else {
                before[byte_index(width as int, x, y, c)]
            } by {
            if covers(*sprite, image_width, image_height, x, y) {
                assert(y < y_end);
            }
        }
    }
}

/// A framebuffer of `width` by `height` pixels filled with `clear`.
fn cleared_pixels(width: u32, height: u32, byte_count: usize, clear: Color) -> (pixels: Vec<u8>)
    requires
        byte_count == byte_len(width, height),
    ensures
        pixels@.len() == byte_len(width, height),
        cleared(pixels@, width, height, clear),
{
    let pixel_count = byte_count / 4;
    let mut pixels: Vec<u8> = Vec::with_capacity(byte_count);
    let mut p: usize = 0;
    while p < pixel_count
        invariant
            p <= pixel_count,
            pixel_count == byte_count / 4,
            byte_count == byte_len(width, height),
            pixels@.len() == p * 4,
            forall|q: int, c: int| 0 <= q < p && 0 <= c < 4 ==> #[trigger] pixels@[q * 4 + c] == channel(clear, c),
        decreases pixel_count - p,
    {
        let ghost prev = pixels@;
        pixels.push(clear.red);
        pixels.push(clear.green);
        pixels.push(clear.blue);
        pixels.push(clear.alpha);
        proof {
            assert forall|q: int, c: int| 0 <= q < p + 1 && 0 <= c < 4 implies #[trigger] pixels@[q * 4 + c] == channel(clear, c) by {
                if q < p {
                    assert(pixels@[q * 4 + c] == prev[q * 4 + c]);
                }
            }
        }
        p += 1;
    }
    proof {
        assert forall|x: int, y: int, c: int|
            0 <= x < width && 0 <= y < height && 0 <= c < 4 implies #[trigger] pixels@[byte_index(width as int, x, y, c)] == channel(clear, c) by {
            lemma_byte_index(width as int, height as int, x, y, c);
            assert(byte_index(width as int, x, y, c) == (y * width + x) * 4 + c);
            assert(y * width + x < pixel_count);
        }
        assert(pixels@.len() == byte_len(width, height));
        reveal(cleared);
    }
    pixels
}

/// Sprite positions sorted by layer, order and insertion position.
fn sorted_draw_order(sprites: &[SpriteDraw]) -> (order: Vec<usize>)
    ensures
        draw_order(sprites@, order_ints(order@)),
{
    let n = sprites.len();
    let mut order: Vec<usize> = Vec::new();
    let mut i: usize = 0;
    while i < n
        invariant
            i <= n,
            n == sprites@.len(),
            order@.len() == i,
            forall|k: int| 0 <= k < order@.len() ==> #[trigger] order@[k] < i,
            forall|a: int, b: int| 0 <= a < b < order@.len() ==> sprite_before(sprites@, #[trigger] order@[a] as int, #[trigger] order@[b] as int),
        decreases n - i,
    {
        insert_in_draw_order(&mut order, sprites, i);
        i += 1;
    }
    order
}

/// Drawing sprite `order[k]` extends the stages by one.
proof fn lemma_stages_extend(
    frame: RenderFrame,
    assets: ImageAssets,
    order: Seq<int>,
    stages: Seq<Seq<u8>>,
    k: int,
    next: Seq<u8>,
)
    requires
        0 <= k,
        stages.len() == k + 1,
        stages_drawn(frame, assets, order, stages, k),
        stage_drawn(frame, assets, order, stages.push(next), k),
    ensures
        stages_drawn(frame, assets, order, stages.push(next), k + 1),
{
    let longer = stages.push(next);
    assert forall|j: int| 0 <= j < k + 1 implies #[trigger] stage_drawn(frame, assets, order, longer, j) by {
        if j < k {
            assert(stage_drawn(frame, assets, order, stages, j));
            assert(longer[j] == stages[j]);
            assert(longer[j + 1] == stages[j + 1]);
        }
    }
}

/// Every sprite drawn before stage `k` has its image.
proof fn lemma_stages_before_missing(frame: RenderFrame, assets: ImageAssets, order: Seq<int>, stages: Seq<Seq<u8>>, k: int)
    requires
        stages_drawn(frame, assets, order, stages, k),
    ensures
        forall|j: int| 0 <= j < k ==> assets.spec_get(frame.sprite_seq()[#[trigger] order[j]].image) is Some,
{
    assert forall|j: int| 0 <= j < k implies assets.spec_get(frame.sprite_seq()[#[trigger] order[j]].image) is Some by {
        assert(stage_drawn(frame, assets, order, stages, j));
    }
}

/// Draws the sprites of `frame` in `order` onto `pixels`, stopping at the
/// first sprite whose image is missing and returning that image's id.
#[verifier::rlimit(100)]
#[verifier::spinoff_prover]
fn draw_in_order(pixels: &mut Vec<u8>, frame: &RenderFrame, assets: &ImageAssets, order: &Vec<usize>) -> (r: Result<(), ImageId>)
    requires
        assets.wf(),
        old(pixels)@.len() == byte_len(frame.spec_width(), frame.spec_height()),
        draw_order(frame.sprite_seq(), order_ints(order@)),
    ensures
        final(pixels)@.len() == old(pixels)@.len(),
        r is Ok ==> exists|stages: Seq<Seq<u8>>| {
            &&& stages.len() == order@.len() + 1
            &&& stages[0] == old(pixels)@
            &&& stages.last() == final(pixels)@
            &&& #[trigger] stages_drawn(*frame, *assets, order_ints(order@), stages, order@.len() as int)
        },
        r matches Err(id) ==> exists|m: int| #[trigger] first_missing(*assets, frame.sprite_seq(), order_ints(order@), m)
            && id == frame.sprite_seq()[order_ints(order@)[m]].image,
{
    let ghost order_seq = order_ints(order@);
    let ghost start = pixels@;
    let sprites = frame.sprites();
    let width = frame.width();
    let height = frame.height();
    let n = order.len();
    let ghost mut stages: Seq<Seq<u8>> = seq![start];
    let mut k: usize = 0;
    while k < n
        invariant
            k <= n,
            n == order@.len(),
            sprites@ == frame.sprite_seq(),
            order_seq == order_ints(order@),
            draw_order(sprites@, order_seq),
            assets.wf(),
            pixels@.len() == byte_len(width, height),
            width == frame.spec_width(),
            height == frame.spec_height(),
            stages.len() == k + 1,
            stages[0] == start,
            start.len() == pixels@.len(),
            start == old(pixels)@,
            stages.last() == pixels@,
            stages_drawn(*frame, *assets, order_seq, stages, k as int),
        decreases n - k,
    {
        proof {
            assert(order_seq[k as int] == order@[k as int] as int);
            assert(0 <= order_seq[k as int] < sprites@.len());
        }
        let sprite = sprites[order[k]];
        match assets.get(sprite.image) {
            Some(image) => {
                let ghost before = pixels@;
                draw_sprite(pixels, width, height, image, &sprite);
                proof {
                    assert(stages.push(pixels@)[k as int] == before);
                    assert(stages.push(pixels@)[k as int + 1] == pixels@);
                    assert(stage_drawn(*frame, *assets, order_seq, stages.push(pixels@), k as int));
                    lemma_stages_extend(*frame, *assets, order_seq, stages, k as int, pixels@);
                    stages = stages.push(pixels@);
                }
            },
            None => {
                proof {
                    lemma_stages_before_missing(*frame, *assets, order_seq, stages, k as int);
                    assert(first_missing(*assets, sprites@, order_seq, k as int));
                }
                return Err(sprite.image);
            },
        }
        k += 1;
    }
    Ok(())
}

/// Exact CPU reference renderer for tests, headless runs, and diagnostics.
pub struct SoftwareRenderer;

impl SoftwareRenderer {
    /// Renders a frame with deterministic integer pixel operations: the frame is
    /// cleared, then sprites are drawn sorted by layer, order and insertion
    /// position. The first sprite in that order whose image is missing is
    /// reported.
    pub fn render(frame: &RenderFrame, assets: &ImageAssets) -> (r: Result<Image, RenderError>)
        requires
            assets.wf(),
        ensures
            byte_len(frame.spec_width(), frame.spec_height()) > usize::MAX ==> r == Err::<Image, RenderError>(
                RenderError::InvalidFrameDimensions,
            ),
            byte_len(frame.spec_width(), frame.spec_height()) <= usize::MAX ==> exists|order: Seq<int>|
                draw_order(frame.sprite_seq(), order) && render_outcome(*frame, *assets, order, r),
    {
        let width = frame.width();
        let height = frame.height();
        let byte_count = match pixel_byte_len(width, height) {
            Ok(byte_count) => byte_count,
            Err(_) => {
                return Err(RenderError::InvalidFrameDimensions);
            },
        };
        let mut pixels = cleared_pixels(width, height, byte_count, frame.clear_color());
        let ghost stage0 = pixels@;
        let order = sorted_draw_order(frame.sprites());
        let ghost order_seq = order_ints(order@);
        let ghost sprites = frame.sprite_seq();
        match draw_in_order(&mut pixels, frame, assets, &order) {
            Ok(()) => {},
            Err(id) => {
                proof {
                    let m = choose|m: int| #[trigger] first_missing(*assets, sprites, order_seq, m)
                        && id == sprites[order_seq[m]].image;
                    assert forall|m2: int| first_missing(*assets, sprites, order_seq, m2) implies m2 == m by {
                        if m2 < m {
                            assert(assets.spec_get(sprites[order_seq[m2]].image) is Some);
                        } else if m2 > m {
                            assert(assets.spec_get(sprites[order_seq[m]].image) is Some);
                        }
                    }
                    assert(!(forall|k: int| 0 <= k < order_seq.len() ==> assets.spec_get(sprites[#[trigger] order_seq[k]].image) is Some));
                    assert(render_outcome(*frame, *assets, order_seq, Err::<Image, RenderError>(RenderError::MissingImage(id))));
                }
                return Err(RenderError::MissingImage(id));
            },
        }
        let ghost stages = choose|stages: Seq<Seq<u8>>| {
            &&& stages.len() == order@.len() + 1
            &&& stages[0] == stage0
            &&& stages.last() == pixels@
            &&& #[trigger] stages_drawn(*frame, *assets, order_seq, stages, order@.len() as int)
        };
        let image = match Image::new(width, height, pixels) {
            Ok(image) => image,
            Err(_) => {
                return Err(RenderError::InvalidFrameDimensions);
            },
        };
        proof {
            assert(render_stages(*frame, *assets, order_seq, stages));
            assert forall|m: int| !first_missing(*assets, sprites, order_seq, m) by {
                if first_missing(*assets, sprites, order_seq, m) {
                    assert(stage_drawn(*frame, *assets, order_seq, stages, m));
                }
            }
            assert(render_outcome(*frame, *assets, order_seq, Ok::<Image, RenderError>(image)));
        }
        Ok(image)
    }
}

} // verus!
