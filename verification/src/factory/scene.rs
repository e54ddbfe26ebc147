//! What the factory looks like: the filled rectangles of the ground, the
//! deposit, each structure with its marks, input faces and output arrow, the
//! items in their slots, and the hover outline, in world pixels.
//!
//! A host maps these rectangles through its camera onto the screen.
use vstd::prelude::*;

use crate::factory::game::{Factory, FactoryView, Tile};
use crate::factory::{spec_delta, Facing, Item, Kind, Structure};
use crate::render::image::Color;

verus! {

broadcast use vstd::std_specs::vec::group_vec_axioms;

/// A filled rectangle in world pixels, one tile being 32 pixels; y grows
/// downward.
#[derive(Clone, Copy, Debug, PartialEq, Eq, Structural)]
pub struct SceneRect {
    pub x: i64,
    pub y: i64,
    pub width: i64,
    pub height: i64,
    pub color: Color,
}

pub open spec fn opaque(red: u8, green: u8, blue: u8) -> Color {
    Color { red, green, blue, alpha: 255 }
}

pub open spec fn rect(x: int, y: int, width: int, height: int, color: Color) -> SceneRect {
    SceneRect { x: x as i64, y: y as i64, width: width as i64, height: height as i64, color }
}

/// The ground square of grid position `k`, counted row by row.
pub open spec fn ground_tile(k: int) -> SceneRect {
    rect((k % 12) * 32 + 1, (k / 12) * 32 + 1, 30, 30, opaque(38, 51, 60))
}

/// The ground: one square per tile, row by row.
pub open spec fn ground() -> Seq<SceneRect> {
    Seq::new(96, |k: int| ground_tile(k))
}

/// The ore deposit under tile (1, 3).
pub open spec fn deposit_rect() -> SceneRect {
    rect(36, 100, 24, 24, opaque(132, 79, 45))
}

pub open spec fn kind_color(kind: Kind) -> Color {
    match kind {
        Kind::Conveyor => opaque(93, 111, 123),
        Kind::Extractor => opaque(230, 157, 53),
        Kind::Processor => opaque(171, 112, 212),
        Kind::Delivery => opaque(67, 186, 131),
    }
}

/// Center marks that tell the kinds apart without color, for a structure
/// whose tile starts at (`x`, `y`).
pub open spec fn kind_marks(kind: Kind, x: int, y: int) -> Seq<SceneRect> {
    match kind {
        Kind::Extractor => seq![rect(x + 13, y + 10, 6, 12, opaque(45, 36, 25))],
        Kind::Processor => seq![
            rect(x + 10, y + 11, 4, 10, opaque(46, 30, 63)),
            rect(x + 18, y + 11, 4, 10, opaque(46, 30, 63)),
        ],
        Kind::Delivery => seq![rect(x + 11, y + 11, 10, 10, opaque(17, 66, 43))],
        Kind::Conveyor => Seq::empty(),
    }
}

/// The mark of an input face on the tile's edge.
pub open spec fn input_mark(face: Facing, x: int, y: int) -> SceneRect {
    let c = opaque(107, 210, 241);
    match face {
        Facing::N => rect(x + 12, y + 2, 8, 3, c),
        Facing::E => rect(x + 27, y + 12, 3, 8, c),
        Facing::S => rect(x + 12, y + 27, 8, 3, c),
        Facing::W => rect(x + 2, y + 12, 3, 8, c),
    }
}

/// The output arrow: four dots from the center toward `facing`, then the
/// two sides of the head.
pub open spec fn arrow(facing: Facing, x: int, y: int) -> Seq<SceneRect> {
    let dx = spec_delta(facing).0;
    let dy = spec_delta(facing).1;
    let c = opaque(255, 233, 141);
    seq![
        rect(x + 14 + 4 * dx, y + 14 + 4 * dy, 4, 4, c),
        rect(x + 14 + 6 * dx, y + 14 + 6 * dy, 4, 4, c),
        rect(x + 14 + 8 * dx, y + 14 + 8 * dy, 4, 4, c),
        rect(x + 14 + 10 * dx, y + 14 + 10 * dy, 4, 4, c),
        rect(x + 14 + 10 * dx - 3 * dy, y + 14 + 10 * dy + 3 * dx, 3, 3, c),
        rect(x + 14 + 10 * dx + 3 * dy, y + 14 + 10 * dy - 3 * dx, 3, 3, c),
    ]
}

/// One structure: its body, its marks, its input faces in the order N, E,
/// S, W, and its output arrow.
pub open spec fn structure_rects(s: Structure) -> Seq<SceneRect> {
    let x = s.x * 32;
    let y = s.y * 32;
    seq![rect(x + 6, y + 6, 20, 20, kind_color(s.kind))] + kind_marks(s.kind, x, y) + s.input_seq().map_values(
        |f: Facing| input_mark(f, x, y),
    ) + match s.spec_output() {
        Some(f) => arrow(f, x, y),
        None => Seq::empty(),
    }
}

/// Every structure's rectangles, in order.
pub open spec fn structures_rects(ss: Seq<Structure>) -> Seq<SceneRect>
    decreases ss.len(),
{
    if ss.len() == 0 {
        Seq::empty()
    } else {
        structures_rects(ss.drop_last()) + structure_rects(ss.last())
    }
}

pub open spec fn item_color(item: Item) -> Color {
    match item {
        Item::Ore => opaque(255, 125, 52),
        Item::Plate => opaque(213, 236, 255),
    }
}

/// An item centered at (`px`, `py`): a dark outline, then the item.
pub open spec fn item_at(item: Option<Item>, px: int, py: int) -> Seq<SceneRect> {
    match item {
        Some(i) => seq![rect(px - 4, py - 4, 8, 8, opaque(16, 22, 28)), rect(px - 3, py - 3, 6, 6, item_color(i))],
        None => Seq::empty(),
    }
}

/// A structure's items: the input seven pixels behind the center, the item
/// in process at the center, and the output at the center, or seven pixels
/// ahead for a processor.
pub open spec fn item_rects(s: Structure) -> Seq<SceneRect> {
    let dx = spec_delta(s.facing).0;
    let dy = spec_delta(s.facing).1;
    let cx = s.x * 32 + 16;
    let cy = s.y * 32 + 16;
    let ahead: int = if s.kind == Kind::Processor {
        7
    } else {
        0
    };
    item_at(s.slots.input, cx - 7 * dx, cy - 7 * dy) + item_at(s.slots.in_process, cx, cy) + item_at(
        s.slots.output,
        cx + ahead * dx,
        cy + ahead * dy,
    )
}

/// Every structure's items, in order.
pub open spec fn items_rects(ss: Seq<Structure>) -> Seq<SceneRect>
    decreases ss.len(),
{
    if ss.len() == 0 {
        Seq::empty()
    } else {
        items_rects(ss.drop_last()) + item_rects(ss.last())
    }
}

/// The white outline of the hovered tile.
pub open spec fn hover_rects(hover: Option<Tile>) -> Seq<SceneRect> {
    match hover {
        Some(t) => {
            let x = t.x * 32;
            let y = t.y * 32;
            let c = opaque(255, 255, 255);
            seq![rect(x, y, 32, 2, c), rect(x, y + 30, 32, 2, c), rect(x, y, 2, 32, c), rect(x + 30, y, 2, 32, c)]
        },
        None => Seq::empty(),
    }
}

/// The whole scene, back to front: ground, deposit, structures, items, hover.
pub open spec fn scene_rects(v: FactoryView) -> Seq<SceneRect> {
    ground() + seq![deposit_rect()] + structures_rects(v.0) + items_rects(v.0) + hover_rects(v.1.hover)
}

fn fill(x: i64, y: i64, width: i64, height: i64, color: Color) -> (r: SceneRect)
    ensures
        r == rect(x as int, y as int, width as int, height as int, color),
{
    SceneRect { x, y, width, height, color }
}

fn push_marks(r: &mut Vec<SceneRect>, kind: Kind, x: i64, y: i64)
    requires
        -0x1000_0000_0000 <= x <= 0x1000_0000_0000,
        -0x1000_0000_0000 <= y <= 0x1000_0000_0000,
    ensures
        final(r)@ == old(r)@ + kind_marks(kind, x as int, y as int),
{
    let ghost before = r@;
    match kind {
        Kind::Extractor => {
            r.push(fill(x + 13, y + 10, 6, 12, Color::rgb(45, 36, 25)));
        },
        Kind::Processor => {
            r.push(fill(x + 10, y + 11, 4, 10, Color::rgb(46, 30, 63)));
            r.push(fill(x + 18, y + 11, 4, 10, Color::rgb(46, 30, 63)));
        },
        Kind::Delivery => {
            r.push(fill(x + 11, y + 11, 10, 10, Color::rgb(17, 66, 43)));
        },
        Kind::Conveyor => {},
    }
    assert(r@ =~= before + kind_marks(kind, x as int, y as int));
}

fn push_input_mark(r: &mut Vec<SceneRect>, face: Facing, x: i64, y: i64)
    requires
        -0x1000_0000_0000 <= x <= 0x1000_0000_0000,
        -0x1000_0000_0000 <= y <= 0x1000_0000_0000,
    ensures
        final(r)@ == old(r)@.push(input_mark(face, x as int, y as int)),
{
    let c = Color::rgb(107, 210, 241);
    let m = match face {
        Facing::N => fill(x + 12, y + 2, 8, 3, c),
        Facing::E => fill(x + 27, y + 12, 3, 8, c),
        Facing::S => fill(x + 12, y + 27, 8, 3, c),
        Facing::W => fill(x + 2, y + 12, 3, 8, c),
    };
    r.push(m);
}

fn push_arrow(r: &mut Vec<SceneRect>, facing: Facing, x: i64, y: i64)
    requires
        -0x1000_0000_0000 <= x <= 0x1000_0000_0000,
        -0x1000_0000_0000 <= y <= 0x1000_0000_0000,
    ensures
        final(r)@ == old(r)@ + arrow(facing, x as int, y as int),
{
    let ghost before = r@;
    let (ex, ey) = facing.delta();
    let dx = ex as i64;
    let dy = ey as i64;
    let c = Color::rgb(255, 233, 141);
    r.push(fill(x + 14 + 4 * dx, y + 14 + 4 * dy, 4, 4, c));
    r.push(fill(x + 14 + 6 * dx, y + 14 + 6 * dy, 4, 4, c));
    r.push(fill(x + 14 + 8 * dx, y + 14 + 8 * dy, 4, 4, c));
    r.push(fill(x + 14 + 10 * dx, y + 14 + 10 * dy, 4, 4, c));
    r.push(fill(x + 14 + 10 * dx - 3 * dy, y + 14 + 10 * dy + 3 * dx, 3, 3, c));
    r.push(fill(x + 14 + 10 * dx + 3 * dy, y + 14 + 10 * dy - 3 * dx, 3, 3, c));
    assert(r@ =~= before + arrow(facing, x as int, y as int));
}

fn push_structure(r: &mut Vec<SceneRect>, s: &Structure)
    ensures
        final(r)@ == old(r)@ + structure_rects(*s),
{
    let ghost before = r@;
    let x = (s.x as i64) * 32;
    let y = (s.y as i64) * 32;
    let body = match s.kind {
        Kind::Conveyor => Color::rgb(93, 111, 123),
        Kind::Extractor => Color::rgb(230, 157, 53),
        Kind::Processor => Color::rgb(171, 112, 212),
        Kind::Delivery => Color::rgb(67, 186, 131),
    };
    r.push(fill(x + 6, y + 6, 20, 20, body));
    push_marks(r, s.kind, x, y);
    let ghost marked = r@;
    let inputs = s.inputs();
    let ghost mark = |f: Facing| input_mark(f, x as int, y as int);
    let mut j: usize = 0;
    while j < inputs.len()
        invariant
            j <= inputs@.len(),
            inputs@ == s.input_seq(),
            -0x1000_0000_0000 <= x <= 0x1000_0000_0000,
            -0x1000_0000_0000 <= y <= 0x1000_0000_0000,
            mark == (|f: Facing| input_mark(f, x as int, y as int)),
            r@ == marked + inputs@.take(j as int).map_values(mark),
        decreases inputs@.len() - j,
    {
        push_input_mark(r, inputs[j], x, y);
        assert(inputs@.take(j + 1).map_values(mark) =~= inputs@.take(j as int).map_values(mark).push(
            mark(inputs@[j as int]),
        ));
        j += 1;
    }
    assert(inputs@.take(inputs@.len() as int) =~= inputs@);
    match s.output() {
        Some(f) => push_arrow(r, f, x, y),
        None => {},
    }
    assert(r@ =~= before + structure_rects(*s));
}

fn push_item(r: &mut Vec<SceneRect>, item: Option<Item>, px: i64, py: i64)
    requires
        -0x1000_0000_0000 <= px <= 0x1000_0000_0000,
        -0x1000_0000_0000 <= py <= 0x1000_0000_0000,
    ensures
        final(r)@ == old(r)@ + item_at(item, px as int, py as int),
{
    let ghost before = r@;
    match item {
        Some(i) => {
            let c = match i {
                Item::Ore => Color::rgb(255, 125, 52),
                Item::Plate => Color::rgb(213, 236, 255),
            };
            r.push(fill(px - 4, py - 4, 8, 8, Color::rgb(16, 22, 28)));
            r.push(fill(px - 3, py - 3, 6, 6, c));
        },
        None => {},
    }
    assert(r@ =~= before + item_at(item, px as int, py as int));
}

fn push_items(r: &mut Vec<SceneRect>, s: &Structure)
    ensures
        final(r)@ == old(r)@ + item_rects(*s),
{
    let ghost before = r@;
    let (ex, ey) = s.facing.delta();
    let dx = ex as i64;
    let dy = ey as i64;
    let cx = (s.x as i64) * 32 + 16;
    let cy = (s.y as i64) * 32 + 16;
    let ahead: i64 = if s.kind == Kind::Processor {
        7
    } else {
        0
    };
    push_item(r, s.slots.input, cx - 7 * dx, cy - 7 * dy);
    push_item(r, s.slots.in_process, cx, cy);
    assert(ahead * dx == 7 * dx || ahead * dx == 0);
    assert(ahead * dy == 7 * dy || ahead * dy == 0);
    push_item(r, s.slots.output, cx + ahead * dx, cy + ahead * dy);
    assert(r@ =~= before + item_rects(*s));
}

impl Factory {
    /// The scene as rectangles, back to front.
    pub fn scene(&self) -> (r: Vec<SceneRect>)
        ensures
            r@ == scene_rects(self@),
    {
        let mut r: Vec<SceneRect> = Vec::new();
        let mut k: usize = 0;
        while k < 96
            invariant
                k <= 96,
                r@ == ground().take(k as int),
            decreases 96 - k,
        {
            let x = (k % 12) as i64;
            let y = (k / 12) as i64;
            r.push(fill(x * 32 + 1, y * 32 + 1, 30, 30, Color::rgb(38, 51, 60)));
            k += 1;
            assert(r@ =~= ground().take(k as int));
        }
        assert(ground().take(96) =~= ground());
        r.push(fill(36, 100, 24, 24, Color::rgb(132, 79, 45)));
        let ghost base = r@;
        let ss = &self.structures;
        let mut i: usize = 0;
        while i < ss.len()
            invariant
                i <= ss@.len(),
                ss@ == self.structures@,
                r@ == base + structures_rects(ss@.take(i as int)),
            decreases ss@.len() - i,
        {
            push_structure(&mut r, &ss[i]);
            assert(ss@.take(i + 1).drop_last() =~= ss@.take(i as int));
            i += 1;
        }
        assert(ss@.take(ss@.len() as int) =~= ss@);
        let ghost placed = r@;
        let mut i: usize = 0;
        while i < ss.len()
            invariant
                i <= ss@.len(),
                ss@ == self.structures@,
                r@ == placed + items_rects(ss@.take(i as int)),
            decreases ss@.len() - i,
        {
            push_items(&mut r, &ss[i]);
            assert(ss@.take(i + 1).drop_last() =~= ss@.take(i as int));
            i += 1;
        }
        let ghost stocked = r@;
        match self.state.hover {
            Some(t) => {
                let x = (t.x as i64) * 32;
                let y = (t.y as i64) * 32;
                let c = Color::rgb(255, 255, 255);
                r.push(fill(x, y, 32, 2, c));
                r.push(fill(x, y + 30, 32, 2, c));
                r.push(fill(x, y, 2, 32, c));
                r.push(fill(x + 30, y, 2, 32, c));
            },
            None => {},
        }
        assert(r@ =~= stocked + hover_rects(self.state.hover));
        r
    }
}

} // verus!
