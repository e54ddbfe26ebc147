//! Entity-based, fixed-pixel UI shared by interactive and headless games.
//!
//! A game spawns [`UiNode`] and [`UiText`] components, updates their ordinary ECS
//! data, and calls [`append_ui`] from its frame extractor. Add [`UiButton`] to
//! make a node consume primary-pointer gestures. There is no implicit layout,
//! wrapping, parenting, focus traversal or clipping.
use vstd::prelude::*;

use vstd::string::StrSliceExecFns;

use crate::ecs::entity::{entity_lt, Entity};
use crate::ecs::storage::ComponentStorage;
use crate::ecs::world::World;
use crate::render::image::{Color, Image, ImageAssets, ImageId, RenderFrame, SpriteDraw};

verus! {

/// Framebuffer-pixel origin and hit rectangle. Text is not clipped to the bounds.
/// Higher `(layer, order, entity)` sorts later in drawing and wins button hits.
#[derive(Clone, Copy, Debug, PartialEq, Eq, Structural)]
pub struct UiNode {
    pub x: i32,
    pub y: i32,
    pub width: u32,
    pub height: u32,
    pub layer: i32,
    pub order: i32,
    pub visible: bool,
}

/// Half-open rectangle membership of a visible node.
pub open spec fn node_contains(node: UiNode, x: int, y: int) -> bool {
    &&& node.visible
    &&& node.x <= x < node.x + node.width
    &&& node.y <= y < node.y + node.height
}

impl UiNode {
    /// Creates a visible node on layer 100, above default-layer world sprites.
    pub fn new(x: i32, y: i32, width: u32, height: u32) -> (n: Self)
        ensures
            n == (UiNode { x, y, width, height, layer: 100, order: 0, visible: true }),
    {
        Self { x, y, width, height, layer: 100, order: 0, visible: true }
    }

    /// Half-open bounds: the right and bottom edges are outside the node.
    pub fn contains(&self, x: i32, y: i32) -> (r: bool)
        ensures
            r == node_contains(*self, x as int, y as int),
    {
        let dx = x as i64 - self.x as i64;
        let dy = y as i64 - self.y as i64;
        self.visible && dx >= 0 && dy >= 0 && dx < self.width as i64 && dy < self.height as i64
    }
}

/// Text using the world's [`BitmapFont`]. Unknown glyphs advance without drawing.
#[derive(Debug, PartialEq, Eq)]
pub struct UiText {
    pub text: String,
    pub color: Color,
}

impl UiText {
    pub fn new(text: &str) -> (r: Self)
        ensures
            r.text@ == text@,
            r.color == (Color { red: 255, green: 255, blue: 255, alpha: 255 }),
    {
        Self { text: text.to_owned(), color: Color::white() }
    }

    pub fn with_color(self, color: Color) -> (r: Self)
        ensures
            r.text == self.text,
            r.color == color,
    {
        Self { text: self.text, color }
    }
}

impl Clone for UiText {
    fn clone(&self) -> (r: Self)
        ensures
            r.text@ == self.text@,
            r.color == self.color,
    {
        UiText { text: self.text.clone(), color: self.color }
    }
}

/// A pointer target. Disabled visible buttons consume input but never activate.
#[derive(Clone, Copy, Debug, PartialEq, Eq, Structural)]
pub struct UiButton {
    pub enabled: bool,
}

impl UiButton {
    /// An enabled button.
    pub fn enabled() -> (r: Self)
        ensures
            r.enabled,
    {
        Self { enabled: true }
    }
}

impl Default for UiButton {
    fn default() -> (r: Self)
        ensures
            r.enabled,
    {
        Self { enabled: true }
    }
}

/// A small image-backed font resource. Glyph images live in an `ImageAssets`.
#[derive(Clone, Debug)]
pub struct BitmapFont {
    glyphs: Vec<(char, ImageId)>,
    advance: u32,
    line_height: u32,
}

/// The glyph of a character in a glyph list: its last entry wins.
pub open spec fn glyph_in(glyphs: Seq<(char, ImageId)>, character: char) -> Option<ImageId>
    decreases glyphs.len(),
{
    if glyphs.len() == 0 {
        None
    } else if glyphs.last().0 == character {
        Some(glyphs.last().1)
    } else {
        glyph_in(glyphs.drop_last(), character)
    }
}

/// Whether column `x` (0 to 2, left to right) of a three-pixel glyph row is set.
pub open spec fn glyph_bit(row: u8, x: u32) -> bool {
    (row >> ((2 - x) as u8)) & 1u8 == 1u8
}

/// The color of pixel `(x, y)` of a white glyph mask.
pub open spec fn mask_color(rows: [u8; 5], x: u32, y: u32) -> Color {
    if glyph_bit(rows[y as int], x) {
        Color { red: 255, green: 255, blue: 255, alpha: 255 }
    } else {
        Color { red: 0, green: 0, blue: 0, alpha: 0 }
    }
}

/// The 3x5 glyph masks of the tiny font, one row of three bits per line.
pub open spec fn tiny_table() -> Seq<(char, [u8; 5])> {
    seq![
        ('0', [7u8, 5, 5, 5, 7]), ('1', [2u8, 6, 2, 2, 7]), ('2', [7u8, 1, 7, 4, 7]),
        ('3', [7u8, 1, 7, 1, 7]), ('4', [5u8, 5, 7, 1, 1]), ('5', [7u8, 4, 7, 1, 7]),
        ('6', [7u8, 4, 7, 5, 7]), ('7', [7u8, 1, 1, 1, 1]), ('8', [7u8, 5, 7, 5, 7]),
        ('9', [7u8, 5, 7, 1, 7]), ('A', [2u8, 5, 7, 5, 5]), ('B', [6u8, 5, 6, 5, 6]),
        ('C', [3u8, 4, 4, 4, 3]), ('D', [6u8, 5, 5, 5, 6]), ('E', [7u8, 4, 6, 4, 7]),
        ('F', [7u8, 4, 6, 4, 4]), ('G', [3u8, 4, 5, 5, 3]), ('H', [5u8, 5, 7, 5, 5]),
        ('I', [7u8, 2, 2, 2, 7]), ('J', [1u8, 1, 1, 5, 2]), ('K', [5u8, 5, 6, 5, 5]),
        ('L', [4u8, 4, 4, 4, 7]), ('M', [5u8, 7, 7, 5, 5]), ('N', [5u8, 7, 7, 7, 5]),
        ('O', [7u8, 5, 5, 5, 7]), ('P', [6u8, 5, 6, 4, 4]), ('Q', [7u8, 5, 5, 7, 1]),
        ('R', [6u8, 5, 6, 5, 5]), ('S', [7u8, 4, 7, 1, 7]), ('T', [7u8, 2, 2, 2, 2]),
        ('U', [5u8, 5, 5, 5, 7]), ('V', [5u8, 5, 5, 5, 2]), ('W', [5u8, 5, 7, 7, 5]),
        ('X', [5u8, 5, 2, 5, 5]), ('Y', [5u8, 5, 2, 2, 2]), ('Z', [7u8, 1, 2, 4, 7]),
        ('.', [0u8, 0, 0, 0, 2]), ('/', [1u8, 1, 2, 4, 4]),
    ]
}

/// The tiny font's glyph table.
fn tiny_glyph_rows() -> (r: Vec<(char, [u8; 5])>)
    ensures
        r@ == tiny_table(),
{
    let r = vec![
        ('0', [7u8, 5, 5, 5, 7]), ('1', [2u8, 6, 2, 2, 7]), ('2', [7u8, 1, 7, 4, 7]),
        ('3', [7u8, 1, 7, 1, 7]), ('4', [5u8, 5, 7, 1, 1]), ('5', [7u8, 4, 7, 1, 7]),
        ('6', [7u8, 4, 7, 5, 7]), ('7', [7u8, 1, 1, 1, 1]), ('8', [7u8, 5, 7, 5, 7]),
        ('9', [7u8, 5, 7, 1, 7]), ('A', [2u8, 5, 7, 5, 5]), ('B', [6u8, 5, 6, 5, 6]),
        ('C', [3u8, 4, 4, 4, 3]), ('D', [6u8, 5, 5, 5, 6]), ('E', [7u8, 4, 6, 4, 7]),
        ('F', [7u8, 4, 6, 4, 4]), ('G', [3u8, 4, 5, 5, 3]), ('H', [5u8, 5, 7, 5, 5]),
        ('I', [7u8, 2, 2, 2, 7]), ('J', [1u8, 1, 1, 5, 2]), ('K', [5u8, 5, 6, 5, 5]),
        ('L', [4u8, 4, 4, 4, 7]), ('M', [5u8, 7, 7, 5, 5]), ('N', [5u8, 7, 7, 7, 5]),
        ('O', [7u8, 5, 5, 5, 7]), ('P', [6u8, 5, 6, 4, 4]), ('Q', [7u8, 5, 5, 7, 1]),
        ('R', [6u8, 5, 6, 5, 5]), ('S', [7u8, 4, 7, 1, 7]), ('T', [7u8, 2, 2, 2, 2]),
        ('U', [5u8, 5, 5, 5, 7]), ('V', [5u8, 5, 5, 5, 2]), ('W', [5u8, 5, 7, 7, 5]),
        ('X', [5u8, 5, 2, 5, 5]), ('Y', [5u8, 5, 2, 2, 2]), ('Z', [7u8, 1, 2, 4, 7]),
        ('.', [0u8, 0, 0, 0, 2]), ('/', [1u8, 1, 2, 4, 4]),
    ];
    assert(r@ =~= tiny_table());
    r
}

/// A 3x5 white mask image of one glyph.
fn glyph_image(rows: [u8; 5]) -> (r: Image)
    ensures
        r.spec_width() == 3,
        r.spec_height() == 5,
        forall|x: u32, y: u32| x < 3 && y < 5 ==> #[trigger] r.spec_pixel(x as int, y as int) == mask_color(rows, x, y),
{
    let mask = |x: u32, y: u32| -> (c: Color)
        requires
            x < 3,
            y < 5,
        ensures
            c == mask_color(rows, x, y),
    {
        if (rows[y as usize] >> ((2 - x) as u8)) & 1u8 == 1u8 {
            Color::white()
        } else {
            Color::transparent()
        }
    };
    proof {
        assert(crate::render::image::byte_len(3, 5) == 60);
    }
    let image = Image::from_fn(3, 5, mask);
    proof {
        assert(image is Ok);
    }
    image.unwrap()
}

impl BitmapFont {
    pub closed spec fn spec_glyphs(&self) -> Seq<(char, ImageId)> {
        self.glyphs@
    }

    pub closed spec fn spec_advance(&self) -> u32 {
        self.advance
    }

    pub closed spec fn spec_line_height(&self) -> u32 {
        self.line_height
    }

    /// The image drawn for a character, if the font has one.
    pub open spec fn spec_glyph(&self, character: char) -> Option<ImageId> {
        glyph_in(self.spec_glyphs(), character)
    }

    /// Glyphs are tinted by `UiText::color`. A character listed twice uses its
    /// last image. Advance and line height must be positive.
    pub fn new(glyphs: Vec<(char, ImageId)>, advance: u32, line_height: u32) -> (r: Self)
        requires
            advance > 0,
            line_height > 0,
        ensures
            r.spec_glyphs() == glyphs@,
            r.spec_advance() == advance,
            r.spec_line_height() == line_height,
    {
        BitmapFont { glyphs, advance, line_height }
    }

    /// Generates reusable 3x5 white glyph masks with a four-pixel character
    /// advance and a seven-pixel line height. Text color is supplied per entity.
    pub fn tiny(assets: &mut ImageAssets) -> (r: Self)
        requires
            old(assets).wf(),
            old(assets).spec_next_id() + tiny_table().len() < u64::MAX,
        ensures
            final(assets).wf(),
            r.spec_advance() == 4,
            r.spec_line_height() == 7,
            r.spec_glyphs().len() == tiny_table().len(),
            forall|i: int| 0 <= i < tiny_table().len() ==> {
                let (character, id) = #[trigger] r.spec_glyphs()[i];
                &&& character == tiny_table()[i].0
                &&& id == ImageId((old(assets).spec_next_id() + i) as u64)
                &&& final(assets).spec_get(id) matches Some(image) && {
                    &&& image.spec_width() == 3
                    &&& image.spec_height() == 5
                    &&& forall|x: u32, y: u32| x < 3 && y < 5 ==> #[trigger] image.spec_pixel(x as int, y as int)
                        == mask_color(tiny_table()[i].1, x, y)
                }
            },
            forall|id: ImageId| old(assets).spec_get(id) is Some ==> #[trigger] final(assets).spec_get(id) == old(assets).spec_get(id),
            final(assets).spec_next_id() == old(assets).spec_next_id() + tiny_table().len(),
    {
        let table = tiny_glyph_rows();
        let mut glyphs: Vec<(char, ImageId)> = Vec::new();
        let ghost start = assets.spec_next_id();
        proof {
            assert forall|id: ImageId| start <= id.0 implies #[trigger] assets.spec_get(id) is None by {
                assets.lemma_fresh(id);
            }
        }
        let mut i: usize = 0;
        while i < table.len()
            invariant
                table@ == tiny_table(),
                i <= table@.len(),
                assets.wf(),
                assets.spec_next_id() == start + i,
                start == old(assets).spec_next_id(),
                start + tiny_table().len() < u64::MAX,
                glyphs@.len() == i,
                forall|k: int| 0 <= k < i ==> {
                    let (character, id) = #[trigger] glyphs@[k];
                    &&& character == tiny_table()[k].0
                    &&& id == ImageId((start + k) as u64)
                    &&& assets.spec_get(id) matches Some(image) && {
                        &&& image.spec_width() == 3
                        &&& image.spec_height() == 5
                        &&& forall|x: u32, y: u32| x < 3 && y < 5 ==> #[trigger] image.spec_pixel(x as int, y as int)
                            == mask_color(tiny_table()[k].1, x, y)
                    }
                },
                forall|id: ImageId| old(assets).spec_get(id) is Some ==> #[trigger] assets.spec_get(id) == old(assets).spec_get(id),
                forall|id: ImageId| #[trigger] old(assets).spec_get(id) is None && assets.spec_get(id) is Some ==> start <= id.0 < start + i,
                forall|id: ImageId| start + i <= id.0 ==> #[trigger] assets.spec_get(id) is None,
            decreases table@.len() - i,
        {
            let (character, rows) = table[i];
            let image = glyph_image(rows);
            let ghost pre = *assets;
            proof {
                if old(assets).spec_get(ImageId((start + i) as u64)) is Some {
                    assert(assets.spec_get(ImageId((start + i) as u64)) is None);
                }
            }
            let id = assets.insert(image);
            glyphs.push((character, id));
            proof {
                assert forall|k: int| 0 <= k < i + 1 implies {
                    let (character, id) = #[trigger] glyphs@[k];
                    &&& character == tiny_table()[k].0
                    &&& id == ImageId((start + k) as u64)
                    &&& assets.spec_get(id) matches Some(image) && {
                        &&& image.spec_width() == 3
                        &&& image.spec_height() == 5
                        &&& forall|x: u32, y: u32| x < 3 && y < 5 ==> #[trigger] image.spec_pixel(x as int, y as int)
                            == mask_color(tiny_table()[k].1, x, y)
                    }
                } by {
                    if k < i {
                        let old_id = glyphs@[k].1;
                        assert(pre.spec_get(old_id) is Some);
                        assert(old_id != id);
                    }
                }
            }
            i += 1;
        }
        BitmapFont { glyphs, advance: 4, line_height: 7 }
    }

    pub fn glyph(&self, character: char) -> (r: Option<ImageId>)
        ensures
            r == self.spec_glyph(character),
    {
        let mut j: usize = self.glyphs.len();
        proof {
            assert(self.glyphs@.take(j as int) =~= self.glyphs@);
        }
        while j > 0
            invariant
                j <= self.glyphs@.len(),
                glyph_in(self.glyphs@, character) == glyph_in(self.glyphs@.take(j as int), character),
            decreases j,
        {
            let (c, id) = self.glyphs[j - 1];
            proof {
                assert(self.glyphs@.take(j as int).drop_last() =~= self.glyphs@.take(j as int - 1));
            }
            if c == character {
                return Some(id);
            }
            j -= 1;
        }
        proof {
            assert(self.glyphs@.take(0) =~= Seq::<(char, ImageId)>::empty());
        }
        None
    }

    pub fn advance(&self) -> (r: u32)
        ensures
            r == self.spec_advance(),
    {
        self.advance
    }

    pub fn line_height(&self) -> (r: u32)
        ensures
            r == self.spec_line_height(),
    {
        self.line_height
    }
}

/// Drawing and hit order of UI nodes: by layer, then order, then entity.
pub open spec fn ui_before(a: UiNode, ae: Entity, b: UiNode, be: Entity) -> bool {
    ||| a.layer < b.layer
    ||| (a.layer == b.layer && a.order < b.order)
    ||| (a.layer == b.layer && a.order == b.order && entity_lt(ae, be))
}

/// The UI order is a strict order.
pub proof fn lemma_ui_before_strict()
    ensures
        forall|a: UiNode, ae: Entity, b: UiNode, be: Entity|
            #[trigger] ui_before(a, ae, b, be) ==> !ui_before(b, be, a, ae),
        forall|a: UiNode, ae: Entity| !#[trigger] ui_before(a, ae, a, ae),
        forall|a: UiNode, ae: Entity, b: UiNode, be: Entity, c: UiNode, ce: Entity|
            #[trigger] ui_before(a, ae, b, be) && #[trigger] ui_before(b, be, c, ce) ==> ui_before(a, ae, c, ce),
{
}

fn ui_precedes(a: &UiNode, ae: Entity, b: &UiNode, be: Entity) -> (r: bool)
    ensures
        r == ui_before(*a, ae, *b, be),
{
    a.layer < b.layer || (a.layer == b.layer && a.order < b.order) || (a.layer == b.layer && a.order
        == b.order && ae.precedes(be))
}

/// A visible button node containing the point.
pub open spec fn is_hit<C>(world: World<C>, e: Entity, x: int, y: int) -> bool {
    &&& world.nodes_view().spec_get(e) matches Some(node) && node_contains(node, x, y)
    &&& world.buttons_view().spec_get(e) is Some
}

/// A hit that is above every other hit.
pub open spec fn is_top_hit<C>(world: World<C>, e: Entity, x: int, y: int) -> bool {
    &&& is_hit(world, e, x, y)
    &&& forall|o: Entity|
        #[trigger] is_hit(world, o, x, y) && o != e ==> ui_before(
            world.nodes_view().spec_get(o).unwrap(),
            o,
            world.nodes_view().spec_get(e).unwrap(),
            e,
        )
}

/// The topmost visible button under a point, including disabled buttons,
/// which block input.
pub open spec fn topmost<C>(world: World<C>, x: int, y: int) -> Option<Entity> {
    if exists|e: Entity| is_top_hit(world, e, x, y) {
        Some(choose|e: Entity| is_top_hit(world, e, x, y))
    } else {
        None
    }
}

/// At most one hit is above every other.
proof fn lemma_top_hit_unique<C>(world: World<C>, e1: Entity, e2: Entity, x: int, y: int)
    requires
        is_top_hit(world, e1, x, y),
        is_top_hit(world, e2, x, y),
    ensures
        e1 == e2,
{
    lemma_ui_before_strict();
    if e1 != e2 {
        assert(is_hit(world, e2, x, y));
        assert(is_hit(world, e1, x, y));
        assert(ui_before(world.nodes_view().spec_get(e2).unwrap(), e2, world.nodes_view().spec_get(e1).unwrap(), e1));
        assert(ui_before(world.nodes_view().spec_get(e1).unwrap(), e1, world.nodes_view().spec_get(e2).unwrap(), e2));
    }
}

/// The topmost visible button under a point, including disabled buttons that
/// block input.
pub fn hit_test<C>(world: &World<C>, x: i32, y: i32) -> (r: Option<Entity>)
    requires
        world.wf(),
    ensures
        r == topmost(*world, x as int, y as int),
        r is None <==> !exists|e: Entity| is_hit(*world, e, x as int, y as int),
{
    let nodes = world.ui_node_storage();
    proof {
        nodes.lemma_view();
        lemma_ui_before_strict();
    }
    let n = nodes.len();
    let mut best: Option<(Entity, UiNode)> = None;
    let mut i: usize = 0;
    while i < n
        invariant
            world.wf(),
            *nodes == world.nodes_view(),
            nodes.wf(),
            n == nodes.entity_seq().len(),
            i <= n,
            forall|d: int|
                0 <= d < nodes.entity_seq().len() ==> nodes.spec_has(#[trigger] nodes.entity_seq()[d])
                    && nodes.spec_position(nodes.entity_seq()[d]) == d,
            forall|e: Entity| #[trigger]
                nodes.spec_has(e) ==> 0 <= nodes.spec_position(e) < nodes.entity_seq().len()
                    && nodes.entity_seq()[nodes.spec_position(e)] == e,
            best is None ==> forall|d: int| 0 <= d < i ==> !is_hit(*world, #[trigger] nodes.entity_seq()[d], x as int, y as int),
            best matches Some((be, bn)) ==> {
                &&& is_hit(*world, be, x as int, y as int)
                &&& world.nodes_view().spec_get(be) == Some(bn)
                &&& nodes.spec_position(be) < i
                &&& forall|d: int| 0 <= d < i && #[trigger] nodes.entity_seq()[d] != be && is_hit(*world, nodes.entity_seq()[d], x as int, y as int)
                    ==> ui_before(world.nodes_view().spec_get(nodes.entity_seq()[d]).unwrap(), nodes.entity_seq()[d], bn, be)
            },
        decreases n - i,
    {
        let e = nodes.entity_at(i);
        let node = *nodes.value_at(i);
        proof {
            assert(nodes.spec_get(e) == Some(node));
        }
        if node.contains(x, y) && world.ui_button(e).is_some() {
            let replace = match best {
                None => true,
                Some((be, bn)) => ui_precedes(&bn, be, &node, e),
            };
            if replace {
                best = Some((e, node));
                proof {
                    assert forall|d: int| 0 <= d < i + 1 && #[trigger] nodes.entity_seq()[d] != e && is_hit(*world, nodes.entity_seq()[d], x as int, y as int)
                        implies ui_before(world.nodes_view().spec_get(nodes.entity_seq()[d]).unwrap(), nodes.entity_seq()[d], node, e) by {
                    }
                }
            } else {
                proof {
                    let (be, bn) = best.unwrap();
                    assert(be != e) by {
                        assert(nodes.spec_position(be) < i);
                    }
                }
            }
        }
        i += 1;
    }
    match best {
        None => {
            proof {
                assert forall|e: Entity| !is_hit(*world, e, x as int, y as int) by {
                    if is_hit(*world, e, x as int, y as int) {
                        assert(nodes.spec_has(e));
                        let d = nodes.spec_position(e);
                        assert(nodes.entity_seq()[d] == e);
                    }
                }
            }
            None
        },
        Some((be, bn)) => {
            proof {
                assert forall|o: Entity| #[trigger] is_hit(*world, o, x as int, y as int) && o != be implies ui_before(
                    world.nodes_view().spec_get(o).unwrap(), o, world.nodes_view().spec_get(be).unwrap(), be) by {
                    assert(nodes.spec_has(o));
                    let d = nodes.spec_position(o);
                    assert(nodes.entity_seq()[d] == o);
                }
                assert(is_top_hit(*world, be, x as int, y as int));
                let c = choose|e: Entity| is_top_hit(*world, e, x as int, y as int);
                lemma_top_hit_unique(*world, c, be, x as int, y as int);
            }
            Some(be)
        },
    }
}

/// Result of a primary-pointer update. Activation occurs once, on release.
#[derive(Clone, Copy, Debug, Default, PartialEq, Eq, Structural)]
pub struct UiPointerResult {
    pub consumed: bool,
    pub activated: Option<Entity>,
}

/// A visible, enabled button node.
pub open spec fn is_live_target<C>(world: World<C>, e: Entity) -> bool {
    &&& world.nodes_view().spec_get(e) matches Some(node) && node.visible
    &&& world.buttons_view().spec_get(e) matches Some(button) && button.enabled
}

/// An enabled button.
pub open spec fn is_enabled<C>(world: World<C>, e: Entity) -> bool {
    world.buttons_view().spec_get(e) matches Some(button) && button.enabled
}

/// What one pointer update does to a gesture state (whether the button was
/// down, the captured button, whether the press landed on UI): the next
/// state and the update's result. A press captures the enabled button under
/// the pointer; a release activates the captured button when it is still a
/// visible, enabled target under the pointer; a captured button that stops
/// being one is let go. The update is consumed when the pointer is over UI
/// or the press in progress landed on UI.
pub open spec fn pointer_step<C>(
    state: (bool, Option<Entity>, bool),
    world: World<C>,
    position: Option<(i32, i32)>,
    pressed: bool,
) -> ((bool, Option<Entity>, bool), UiPointerResult) {
    let (was_pressed, captured, consumed_press) = state;
    let still = match captured {
        Some(e) => if is_live_target(world, e) { Some(e) } else { None },
        None => None,
    };
    let hit = match position {
        Some((x, y)) => topmost(world, x as int, y as int),
        None => None,
    };
    let consumed = hit is Some || consumed_press;
    if pressed && !was_pressed {
        let captured = match hit {
            Some(e) => if is_enabled(world, e) { Some(e) } else { None },
            None => None,
        };
        ((pressed, captured, hit is Some), UiPointerResult { consumed, activated: None })
    } else if !pressed && was_pressed {
        let activated = match still {
            Some(e) => if Some(e) == hit && is_enabled(world, e) { Some(e) } else { None },
            None => None,
        };
        ((pressed, None, false), UiPointerResult { consumed, activated })
    } else {
        ((pressed, still, consumed_press), UiPointerResult { consumed, activated: None })
    }
}

/// A fresh press with the pointer over UI is consumed, and the gesture
/// remembers that it landed on UI; it captures the node under the pointer
/// only when that node is an enabled button, so a disabled button takes the
/// press without ever activating.
pub proof fn law_press_on_ui_is_consumed<C>(
    state: (bool, Option<Entity>, bool),
    world: World<C>,
    x: i32,
    y: i32,
)
    requires
        !state.0,
        topmost(world, x as int, y as int) is Some,
    ensures
        pointer_step(state, world, Some((x, y)), true).1.consumed,
        pointer_step(state, world, Some((x, y)), true).1.activated is None,
        pointer_step(state, world, Some((x, y)), true).0.0,
        pointer_step(state, world, Some((x, y)), true).0.2,
        pointer_step(state, world, Some((x, y)), true).0.1 is Some <==> is_enabled(
            world,
            topmost(world, x as int, y as int)->0,
        ),
{
}

/// A press that landed on UI stays consumed until release: while the
/// button is held, every update is consumed, wherever the pointer is and
/// whatever happens to the UI, and the gesture keeps remembering it.
pub proof fn law_held_press_on_ui_stays_consumed<C>(
    state: (bool, Option<Entity>, bool),
    world: World<C>,
    position: Option<(i32, i32)>,
)
    requires
        state.0,
        state.2,
    ensures
        pointer_step(state, world, position, true).1.consumed,
        pointer_step(state, world, position, true).1.activated is None,
        pointer_step(state, world, position, true).0.0,
        pointer_step(state, world, position, true).0.2,
{
}

/// Presses, then holds the button over the given worlds and positions.
pub open spec fn held_gesture<C>(
    state: (bool, Option<Entity>, bool),
    updates: Seq<(World<C>, Option<(i32, i32)>)>,
) -> (bool, Option<Entity>, bool)
    decreases updates.len(),
{
    if updates.len() == 0 {
        state
    } else {
        pointer_step(held_gesture(state, updates.drop_last()), updates.last().0, updates.last().1, true).0
    }
}

/// After a fresh press over UI, every later update while the button stays
/// down reports the update consumed.
pub proof fn law_ui_press_consumed_until_release<C>(
    state: (bool, Option<Entity>, bool),
    world: World<C>,
    x: i32,
    y: i32,
    updates: Seq<(World<C>, Option<(i32, i32)>)>,
    k: int,
)
    requires
        !state.0,
        topmost(world, x as int, y as int) is Some,
        0 <= k < updates.len(),
    ensures
        pointer_step(
            held_gesture(pointer_step(state, world, Some((x, y)), true).0, updates.take(k)),
            updates[k].0,
            updates[k].1,
            true,
        ).1.consumed,
{
    let pressed = pointer_step(state, world, Some((x, y)), true).0;
    lemma_held_gesture_keeps_press(pressed, updates.take(k));
    law_held_press_on_ui_stays_consumed(held_gesture(pressed, updates.take(k)), updates[k].0, updates[k].1);
}

proof fn lemma_held_gesture_keeps_press<C>(state: (bool, Option<Entity>, bool), updates: Seq<(World<C>, Option<(i32, i32)>)>)
    requires
        state.0,
        state.2,
    ensures
        held_gesture(state, updates).0,
        held_gesture(state, updates).2,
    decreases updates.len(),
{
    if updates.len() > 0 {
        lemma_held_gesture_keeps_press(state, updates.drop_last());
        law_held_press_on_ui_stays_consumed(held_gesture(state, updates.drop_last()), updates.last().0, updates.last().1);
    }
}

/// Single-primary-pointer gesture state, independent of any window API.
/// A press inside UI remains consumed until release even if the target disappears.
/// An update observing a hidden, disabled or removed target cancels activation.
/// Dragging out and releasing cancels activation; a press outside never activates.
#[derive(Clone, Copy, Debug, Default, PartialEq, Eq, Structural)]
pub struct UiPointer {
    pressed: bool,
    captured: Option<Entity>,
    consumed_press: bool,
}

impl UiPointer {
    pub closed spec fn spec_pressed(self) -> bool {
        self.pressed
    }

    pub closed spec fn spec_captured(self) -> Option<Entity> {
        self.captured
    }

    pub closed spec fn spec_consumed_press(self) -> bool {
        self.consumed_press
    }

    /// What one update does: the next pointer state and its result, as
    /// `pointer_step` says.
    pub closed spec fn step<C>(self, world: World<C>, position: Option<(i32, i32)>, pressed: bool) -> (Self, UiPointerResult) {
        let (next, result) = pointer_step((self.pressed, self.captured, self.consumed_press), world, position, pressed);
        (UiPointer { pressed: next.0, captured: next.1, consumed_press: next.2 }, result)
    }

    /// A pointer with no gesture in progress.
    pub fn new() -> (r: Self)
        ensures
            !r.spec_pressed(),
            r.spec_captured() is None,
            !r.spec_consumed_press(),
    {
        UiPointer { pressed: false, captured: None, consumed_press: false }
    }

    fn is_live_target<C>(world: &World<C>, e: Entity) -> (r: bool)
        requires
            world.wf(),
        ensures
            r == is_live_target(*world, e),
    {
        let visible = match world.ui_node(e) {
            Some(node) => node.visible,
            None => false,
        };
        visible && Self::is_enabled(world, e)
    }

    fn is_enabled<C>(world: &World<C>, e: Entity) -> (r: bool)
        requires
            world.wf(),
        ensures
            r == is_enabled(*world, e),
    {
        match world.ui_button(e) {
            Some(button) => button.enabled,
            None => false,
        }
    }

    /// Advances the gesture with the pointer's position, if it is over the
    /// surface, and whether the primary button is down.
    pub fn update<C>(&mut self, world: &World<C>, position: Option<(i32, i32)>, pressed: bool) -> (r: UiPointerResult)
        requires
            world.wf(),
        ensures
            (*final(self), r) == old(self).step(*world, position, pressed),
            ((final(self).spec_pressed(), final(self).spec_captured(), final(self).spec_consumed_press()), r)
                == pointer_step(
                (old(self).spec_pressed(), old(self).spec_captured(), old(self).spec_consumed_press()),
                *world,
                position,
                pressed,
            ),
    {
        // Once an update observes a canceled target, re-enabling or replacing
        // it cannot revive the gesture. Its release is still consumed.
        let still = match self.captured {
            Some(e) => if Self::is_live_target(world, e) { Some(e) } else { None },
            None => None,
        };
        self.captured = still;
        let hit = match position {
            Some((x, y)) => hit_test(world, x, y),
            None => None,
        };
        let mut result = UiPointerResult { consumed: hit.is_some() || self.consumed_press, activated: None };
        if pressed && !self.pressed {
            self.consumed_press = hit.is_some();
            self.captured = match hit {
                Some(e) => if Self::is_enabled(world, e) { Some(e) } else { None },
                None => None,
            };
        } else if !pressed && self.pressed {
            result.activated = match self.captured {
                Some(e) => {
                    let same = match hit {
                        Some(h) => h == e,
                        None => false,
                    };
                    if same && Self::is_enabled(world, e) { Some(e) } else { None }
                },
                None => None,
            };
            self.captured = None;
            self.consumed_press = false;
        }
        self.pressed = pressed;
        result
    }

    /// Discards the active gesture and returns whether its press was consumed.
    /// Hosts must also forget the physical pointer ID and drop orphaned events
    /// from that canceled gesture. A subsequent fresh press works immediately.
    pub fn cancel(&mut self) -> (r: bool)
        ensures
            r == old(self).spec_consumed_press(),
            !final(self).spec_pressed(),
            final(self).spec_captured() is None,
            !final(self).spec_consumed_press(),
    {
        let consumed = self.consumed_press;
        *self = UiPointer::new();
        consumed
    }
}

/// A button activates only on an update that releases a press.
pub proof fn law_activation_only_on_release<C>(
    pointer: UiPointer,
    world: World<C>,
    position: Option<(i32, i32)>,
    pressed: bool,
)
    ensures
        pointer.step(world, position, pressed).1.activated is Some ==> pointer.spec_pressed() && !pressed,
        !pressed ==> !pointer.step(world, position, pressed).0.spec_pressed(),
{
}

/// A pointer whose button is up holds no captured target, and every update
/// keeps it so: a release always ends the gesture.
pub proof fn law_released_pointer_captures_nothing<C>(
    pointer: UiPointer,
    world: World<C>,
    position: Option<(i32, i32)>,
    pressed: bool,
)
    requires
        !pointer.spec_pressed() ==> pointer.spec_captured() is None,
    ensures
        !pointer.step(world, position, pressed).0.spec_pressed() ==> pointer.step(world, position, pressed).0.spec_captured() is None,
{
}

/// An activated button is the enabled topmost button under the released
/// pointer, captured by the press that started the gesture.
pub proof fn law_activation_targets_top_button<C>(
    pointer: UiPointer,
    world: World<C>,
    position: Option<(i32, i32)>,
    pressed: bool,
)
    ensures
        pointer.step(world, position, pressed).1.activated matches Some(e) ==> {
            &&& pointer.spec_captured() == Some(e)
            &&& position matches Some((x, y)) && topmost(world, x as int, y as int) == Some(e)
            &&& is_live_target(world, e)
        },
{
}

/// `v + d`, saturating at the largest `i64`.
pub open spec fn sat_add(v: int, d: int) -> int {
    if v + d > i64::MAX {
        i64::MAX as int
    } else {
        v + d
    }
}

pub open spec fn fits_i32(v: int) -> bool {
    i32::MIN <= v <= i32::MAX
}

/// The sprite of one glyph of a node's text.
pub open spec fn glyph_sprite(image: ImageId, x: int, y: int, node: UiNode, color: Color) -> SpriteDraw {
    SpriteDraw { image, x: x as i32, y: y as i32, layer: node.layer, order: node.order, tint: color, pixel_scale: 1 }
}

/// The glyph sprites of `chars` drawn from pen position `(x, y)`: a newline
/// returns to the node's left edge one line lower, every other character
/// advances the pen, and characters without a glyph or off the `i32` range
/// draw nothing.
pub open spec fn glyph_run(font: BitmapFont, node: UiNode, color: Color, chars: Seq<char>, x: int, y: int) -> Seq<SpriteDraw>
    decreases chars.len(),
{
    if chars.len() == 0 {
        Seq::empty()
    } else if chars[0] == '\n' {
        glyph_run(font, node, color, chars.drop_first(), node.x as int, sat_add(y, font.spec_line_height() as int))
    } else {
        let here = match font.spec_glyph(chars[0]) {
            Some(image) => if fits_i32(x) && fits_i32(y) {
                seq![glyph_sprite(image, x, y, node, color)]
            } else {
                Seq::empty()
            },
            None => Seq::empty(),
        };
        here + glyph_run(font, node, color, chars.drop_first(), sat_add(x, font.spec_advance() as int), y)
    }
}

/// A visible node with text.
pub open spec fn is_drawn_text<C>(world: World<C>, e: Entity) -> bool {
    &&& world.nodes_view().spec_get(e) matches Some(node) && node.visible
    &&& world.texts_view().spec_get(e) is Some
}

/// `entries` lists every visible node with text once, in drawing order.
pub open spec fn ui_draw_list<C>(world: World<C>, entries: Seq<(Entity, UiNode)>) -> bool {
    &&& forall|i: int, j: int| 0 <= i < j < entries.len() ==> ui_before(
        (#[trigger] entries[i]).1,
        entries[i].0,
        (#[trigger] entries[j]).1,
        entries[j].0,
    )
    &&& forall|k: int| 0 <= k < entries.len() ==> is_drawn_text(world, (#[trigger] entries[k]).0)
        && world.nodes_view().spec_get(entries[k].0) == Some(entries[k].1)
    &&& forall|e: Entity| #[trigger] is_drawn_text(world, e) ==> exists|k: int| 0 <= k < entries.len() && (#[trigger] entries[k]).0 == e
}

/// The glyph sprites of the listed nodes' texts, node after node.
pub open spec fn ui_sprites<C>(world: World<C>, font: BitmapFont, entries: Seq<(Entity, UiNode)>) -> Seq<SpriteDraw>
    decreases entries.len(),
{
    if entries.len() == 0 {
        Seq::empty()
    } else {
        let (e, node) = entries.last();
        let text = world.texts_view().spec_get(e).unwrap();
        ui_sprites(world, font, entries.drop_last()) + glyph_run(font, node, text.color, text.text@, node.x as int, node.y as int)
    }
}

fn saturating_add_i64(v: i64, d: u32) -> (r: i64)
    ensures
        r == sat_add(v as int, d as int),
{
    if v > i64::MAX - d as i64 {
        i64::MAX
    } else {
        v + d as i64
    }
}

/// Appends the glyph sprites of one node's text.
fn append_text(frame: &mut RenderFrame, font: &BitmapFont, node: UiNode, text: &UiText)
    ensures
        final(frame).sprite_seq() == old(frame).sprite_seq() + glyph_run(*font, node, text.color, text.text@, node.x as int, node.y as int),
        final(frame).spec_width() == old(frame).spec_width(),
        final(frame).spec_height() == old(frame).spec_height(),
        final(frame).spec_clear() == old(frame).spec_clear(),
{
    let chars = text.text.as_str();
    let len = chars.unicode_len();
    let ghost all = text.text@;
    let ghost base = frame.sprite_seq();
    let mut x: i64 = node.x as i64;
    let mut y: i64 = node.y as i64;
    let mut i: usize = 0;
    proof {
        assert(all.skip(0) =~= all);
    }
    while i < len
        invariant
            chars@ == all,
            len == all.len(),
            i <= len,
            frame.sprite_seq() + glyph_run(*font, node, text.color, all.skip(i as int), x as int, y as int)
                == base + glyph_run(*font, node, text.color, all, node.x as int, node.y as int),
            frame.spec_width() == old(frame).spec_width(),
            frame.spec_height() == old(frame).spec_height(),
            frame.spec_clear() == old(frame).spec_clear(),
        decreases len - i,
    {
        let c = chars.get_char(i);
        let ghost rest = all.skip(i as int);
        let ghost before = frame.sprite_seq();
        proof {
            assert(rest[0] == c);
            assert(rest.drop_first() =~= all.skip(i as int + 1));
        }
        if c == '\n' {
            x = node.x as i64;
            y = saturating_add_i64(y, font.line_height());
        } else {
            match font.glyph(c) {
                Some(image) => {
                    if x >= i32::MIN as i64 && x <= i32::MAX as i64 && y >= i32::MIN as i64 && y <= i32::MAX as i64 {
                        frame.push(
                            SpriteDraw::new(image, x as i32, y as i32).with_layer(node.layer).with_order(
                                node.order,
                            ).with_tint(text.color),
                        );
                        proof {
                            assert(frame.sprite_seq() =~= before + seq![glyph_sprite(image, x as int, y as int, node, text.color)]);
                        }
                    }
                },
                None => {},
            }
            let ghost gx = x;
            x = saturating_add_i64(x, font.advance());
            proof {
                let here = frame.sprite_seq().subrange(before.len() as int, frame.sprite_seq().len() as int);
                assert(frame.sprite_seq() =~= before + here);
                assert(glyph_run(*font, node, text.color, rest, gx as int, y as int) == here + glyph_run(
                    *font, node, text.color, all.skip(i as int + 1), x as int, y as int));
                assert(before + glyph_run(*font, node, text.color, rest, gx as int, y as int) =~= frame.sprite_seq()
                    + glyph_run(*font, node, text.color, all.skip(i as int + 1), x as int, y as int));
            }
        }
        i += 1;
    }
    proof {
        assert(all.skip(len as int) =~= Seq::<char>::empty());
        assert(frame.sprite_seq() + Seq::<SpriteDraw>::empty() =~= frame.sprite_seq());
    }
}

/// Appends renderer-neutral glyph sprites without creating or mutating
/// entities. Without a font there is no text. Missing image assets remain
/// renderer errors. Newlines advance one font line; there is no wrapping or
/// bounds clipping.
pub fn append_ui<C>(world: &World<C>, frame: &mut RenderFrame)
    requires
        world.wf(),
    ensures
        final(frame).spec_width() == old(frame).spec_width(),
        final(frame).spec_height() == old(frame).spec_height(),
        final(frame).spec_clear() == old(frame).spec_clear(),
        world.font_view() is None ==> final(frame).sprite_seq() == old(frame).sprite_seq(),
        world.font_view() matches Some(font) ==> exists|entries: Seq<(Entity, UiNode)>|
            ui_draw_list(*world, entries) && final(frame).sprite_seq() == old(frame).sprite_seq()
                + ui_sprites(*world, font, entries),
{
    let font = match world.font() {
        Some(font) => font,
        None => {
            return;
        },
    };
    let entries = sorted_text_nodes(world);
    let ghost base = frame.sprite_seq();
    let mut k: usize = 0;
    while k < entries.len()
        invariant
            world.wf(),
            world.font_view() == Some(*font),
            ui_draw_list(*world, entries@),
            k <= entries@.len(),
            frame.sprite_seq() == base + ui_sprites(*world, *font, entries@.take(k as int)),
            frame.spec_width() == old(frame).spec_width(),
            frame.spec_height() == old(frame).spec_height(),
            frame.spec_clear() == old(frame).spec_clear(),
        decreases entries@.len() - k,
    {
        let (e, node) = entries[k];
        proof {
            assert(is_drawn_text(*world, entries@[k as int].0));
            assert(entries@.take(k as int + 1).drop_last() =~= entries@.take(k as int));
            assert(entries@.take(k as int + 1).last() == (e, node));
        }
        match world.ui_text(e) {
            Some(text) => {
                append_text(frame, font, node, text);
                proof {
                    assert(frame.sprite_seq() =~= base + ui_sprites(*world, *font, entries@.take(k as int + 1)));
                }
            },
            None => {},
        }
        k += 1;
    }
    proof {
        assert(entries@.take(entries@.len() as int) =~= entries@);
    }
}

/// Every visible node with text, sorted by drawing order.
fn sorted_text_nodes<C>(world: &World<C>) -> (r: Vec<(Entity, UiNode)>)
    requires
        world.wf(),
    ensures
        ui_draw_list(*world, r@),
{
    let nodes = world.ui_node_storage();
    proof {
        nodes.lemma_view();
        lemma_ui_before_strict();
    }
    let n = nodes.len();
    let mut entries: Vec<(Entity, UiNode)> = Vec::new();
    let mut i: usize = 0;
    while i < n
        invariant
            world.wf(),
            *nodes == world.nodes_view(),
            nodes.wf(),
            n == nodes.entity_seq().len(),
            i <= n,
            forall|d: int|
                0 <= d < nodes.entity_seq().len() ==> nodes.spec_has(#[trigger] nodes.entity_seq()[d])
                    && nodes.spec_position(nodes.entity_seq()[d]) == d,
            forall|e: Entity| #[trigger]
                nodes.spec_has(e) ==> 0 <= nodes.spec_position(e) < nodes.entity_seq().len()
                    && nodes.entity_seq()[nodes.spec_position(e)] == e,
            forall|a: int, b: int| 0 <= a < b < entries@.len() ==> ui_before(
                (#[trigger] entries@[a]).1,
                entries@[a].0,
                (#[trigger] entries@[b]).1,
                entries@[b].0,
            ),
            forall|k: int| 0 <= k < entries@.len() ==> is_drawn_text(*world, (#[trigger] entries@[k]).0)
                && world.nodes_view().spec_get(entries@[k].0) == Some(entries@[k].1)
                && nodes.spec_position(entries@[k].0) < i,
            forall|d: int| 0 <= d < i && is_drawn_text(*world, #[trigger] nodes.entity_seq()[d]) ==> exists|k: int|
                0 <= k < entries@.len() && (#[trigger] entries@[k]).0 == nodes.entity_seq()[d],
        decreases n - i,
    {
        let e = nodes.entity_at(i);
        let node = *nodes.value_at(i);
        proof {
            assert(nodes.spec_get(e) == Some(node));
        }
        if node.visible && world.ui_text(e).is_some() {
            let mut p: usize = 0;
            while p < entries.len() && ui_precedes(&entries[p].1, entries[p].0, &node, e)
                invariant
                    p <= entries@.len(),
                    forall|k: int| 0 <= k < p ==> ui_before(entries@[k].1, entries@[k].0, node, e),
                decreases entries@.len() - p,
            {
                p += 1;
            }
            let ghost pre = entries@;
            proof {
                assert forall|k: int| p <= k < pre.len() implies ui_before(node, e, (#[trigger] pre[k]).1, pre[k].0) by {
                    assert(pre[k].0 != e) by {
                        assert(nodes.spec_position(pre[k].0) < i);
                    }
                    assert(!ui_before(pre[p as int].1, pre[p as int].0, node, e));
                    if k > p {
                        assert(ui_before(pre[p as int].1, pre[p as int].0, pre[k].1, pre[k].0));
                    }
                    assert(pre[p as int].0 != e) by {
                        assert(nodes.spec_position(pre[p as int].0) < i);
                    }
                }
            }
            entries.insert(p, (e, node));
            proof {
                assert forall|a: int, b: int| 0 <= a < b < entries@.len() implies ui_before(
                    (#[trigger] entries@[a]).1,
                    entries@[a].0,
                    (#[trigger] entries@[b]).1,
                    entries@[b].0,
                ) by {
                    if b < p {
                        assert(entries@[a] == pre[a] && entries@[b] == pre[b]);
                    } else if b == p {
                        assert(entries@[a] == pre[a]);
                    } else if a == p {
                        assert(entries@[b] == pre[b - 1]);
                    } else if a < p {
                        assert(entries@[a] == pre[a] && entries@[b] == pre[b - 1]);
                    } else {
                        assert(entries@[a] == pre[a - 1] && entries@[b] == pre[b - 1]);
                    }
                }
                assert forall|k: int| 0 <= k < entries@.len() implies is_drawn_text(*world, (#[trigger] entries@[k]).0)
                    && world.nodes_view().spec_get(entries@[k].0) == Some(entries@[k].1)
                    && nodes.spec_position(entries@[k].0) < i + 1 by {
                    if k < p {
                        assert(entries@[k] == pre[k]);
                    } else if k > p {
                        assert(entries@[k] == pre[k - 1]);
                    }
                }
                assert forall|d: int| 0 <= d < i + 1 && is_drawn_text(*world, #[trigger] nodes.entity_seq()[d]) implies exists|k: int|
                    0 <= k < entries@.len() && (#[trigger] entries@[k]).0 == nodes.entity_seq()[d] by {
                    if d == i {
                        assert(entries@[p as int].0 == nodes.entity_seq()[d]);
                    } else {
                        let k = choose|k: int| 0 <= k < pre.len() && (#[trigger] pre[k]).0 == nodes.entity_seq()[d];
                        if k < p {
                            assert(entries@[k] == pre[k]);
                        } else {
                            assert(entries@[k + 1] == pre[k]);
                        }
                    }
                }
            }
        } else {
            proof {
                assert(!is_drawn_text(*world, e));
            }
        }
        i += 1;
    }
    proof {
        assert forall|e: Entity| #[trigger] is_drawn_text(*world, e) implies exists|k: int| 0 <= k < entries@.len() && (#[trigger] entries@[k]).0 == e by {
            assert(nodes.spec_has(e));
            let d = nodes.spec_position(e);
            assert(nodes.entity_seq()[d] == e);
        }
    }
    entries
}

/// The glyphs of the node drawn later come later in the frame, and that
/// node wins a hit test between the two: painting and hit testing agree.
pub proof fn law_paint_and_hit_order_agree<C>(
    world: World<C>,
    entries: Seq<(Entity, UiNode)>,
    upper: Entity,
    lower: Entity,
    x: int,
    y: int,
)
    requires
        ui_draw_list(world, entries),
        is_drawn_text(world, upper),
        is_drawn_text(world, lower),
        is_hit(world, upper, x, y),
        is_hit(world, lower, x, y),
        topmost(world, x, y) == Some(upper),
        upper != lower,
    ensures
        exists|i: int, j: int|
            0 <= i < j < entries.len() && (#[trigger] entries[i]).0 == lower && (#[trigger] entries[j]).0 == upper,
{
    lemma_ui_before_strict();
    let i = choose|k: int| 0 <= k < entries.len() && (#[trigger] entries[k]).0 == lower;
    let j = choose|k: int| 0 <= k < entries.len() && (#[trigger] entries[k]).0 == upper;
    let top = choose|e: Entity| is_top_hit(world, e, x, y);
    assert(is_top_hit(world, upper, x, y));
    assert(ui_before(world.nodes_view().spec_get(lower).unwrap(), lower, world.nodes_view().spec_get(upper).unwrap(), upper));
    if j < i {
        assert(ui_before(entries[j].1, entries[j].0, entries[i].1, entries[i].0));
    }
    assert(i != j);
}

} // verus!
