//! The sample factory game: construction on a 12 by 8 grid, snapshot
//! transport between neighboring structures, and ore-to-plate production.
pub mod controls;
pub mod explain;
pub mod game;
pub mod hud;
pub mod production;
pub mod recording;
pub mod scene;
pub mod transport;

use vstd::prelude::*;

verus! {

/// Grid columns.
pub const GRID_WIDTH: i32 = 12;

/// Grid rows.
pub const GRID_HEIGHT: i32 = 8;

/// A direction on the grid; north is up.
#[derive(Clone, Copy, Debug, PartialEq, Eq, Structural)]
pub enum Facing {
    N,
    E,
    S,
    W,
}

impl Facing {
    /// The next direction clockwise.
    pub fn clockwise(self) -> (r: Facing)
        ensures
            r == spec_clockwise(self),
    {
        match self {
            Facing::N => Facing::E,
            Facing::E => Facing::S,
            Facing::S => Facing::W,
            Facing::W => Facing::N,
        }
    }

    /// The reverse direction.
    pub fn opposite(self) -> (r: Facing)
        ensures
            r == spec_opposite(self),
    {
        self.clockwise().clockwise()
    }

    /// The step one tile in this direction.
    pub fn delta(self) -> (r: (i32, i32))
        ensures
            (r.0 as int, r.1 as int) == spec_delta(self),
    {
        match self {
            Facing::N => (0, -1),
            Facing::E => (1, 0),
            Facing::S => (0, 1),
            Facing::W => (-1, 0),
        }
    }
}

pub open spec fn spec_clockwise(f: Facing) -> Facing {
    match f {
        Facing::N => Facing::E,
        Facing::E => Facing::S,
        Facing::S => Facing::W,
        Facing::W => Facing::N,
    }
}

pub open spec fn spec_opposite(f: Facing) -> Facing {
    spec_clockwise(spec_clockwise(f))
}

pub open spec fn spec_delta(f: Facing) -> (int, int) {
    match f {
        Facing::N => (0, -1),
        Facing::E => (1, 0),
        Facing::S => (0, 1),
        Facing::W => (-1, 0),
    }
}

/// What a structure is.
#[derive(Clone, Copy, Debug, PartialEq, Eq, Structural)]
pub enum Kind {
    Conveyor,
    Extractor,
    Processor,
    Delivery,
}

/// What moves through the factory.
#[derive(Clone, Copy, Debug, PartialEq, Eq, Structural)]
pub enum Item {
    Ore,
    Plate,
}

/// A structure's three item slots.
#[derive(Clone, Copy, Debug, PartialEq, Eq, Structural)]
pub struct Slots {
    pub input: Option<Item>,
    pub in_process: Option<Item>,
    pub output: Option<Item>,
}

/// One when `slot` holds an item.
pub open spec fn occupied(slot: Option<Item>) -> nat {
    if slot is Some {
        1
    } else {
        0
    }
}

/// One when `slot` holds `item`.
pub open spec fn holds(slot: Option<Item>, item: Item) -> nat {
    if slot == Some(item) {
        1
    } else {
        0
    }
}

impl Slots {
    /// Empty slots.
    pub fn empty() -> (r: Slots)
        ensures
            r == (Slots { input: None, in_process: None, output: None }),
    {
        Slots { input: None, in_process: None, output: None }
    }

    /// The number of items held.
    pub open spec fn count(self) -> nat {
        occupied(self.input) + occupied(self.in_process) + occupied(self.output)
    }

    /// The number of `item`s held.
    pub open spec fn count_of(self, item: Item) -> nat {
        holds(self.input, item) + holds(self.in_process, item) + holds(self.output, item)
    }

    /// The held items, in slot order.
    pub open spec fn item_seq(self) -> Seq<Item> {
        slot_seq(self.input) + slot_seq(self.in_process) + slot_seq(self.output)
    }

    /// The held items: input, in-process, then output.
    pub fn items(self) -> (r: Vec<Item>)
        ensures
            r@ == self.item_seq(),
            r@.len() == self.count(),
    {
        let mut r: Vec<Item> = Vec::new();
        if let Some(item) = self.input {
            r.push(item);
        }
        if let Some(item) = self.in_process {
            r.push(item);
        }
        if let Some(item) = self.output {
            r.push(item);
        }
        proof {
            assert(r@ =~= self.item_seq());
        }
        r
    }

    /// The number of `item`s held.
    pub fn count_items(self, item: Item) -> (r: u64)
        ensures
            r == self.count_of(item),
    {
        let mut n: u64 = 0;
        if self.input == Some(item) {
            n += 1;
        }
        if self.in_process == Some(item) {
            n += 1;
        }
        if self.output == Some(item) {
            n += 1;
        }
        n
    }
}

/// The items a slot holds.
pub open spec fn slot_seq(slot: Option<Item>) -> Seq<Item> {
    match slot {
        Some(i) => seq![i],
        None => Seq::empty(),
    }
}

/// Why an item did or did not leave a structure at a tick boundary.
#[derive(Clone, Copy, Debug, PartialEq, Eq, Structural)]
pub enum Reason {
    /// The structure has no outgoing item.
    EmptySource,
    /// No structure stands on the output tile.
    MissingNeighbor,
    /// The neighbor has no input on the touching face.
    MismatchedInputFace,
    /// The neighbor does not take this item.
    RejectedItemType,
    /// The neighbor's receiving slot is occupied.
    FullDestination,
    /// An earlier source in row-then-column order won the same neighbor.
    Contention,
    /// The item moves at this boundary.
    Ready,
    /// The item moved at the last boundary.
    Transferred,
}

impl Reason {
    /// The reason's name in status reports.
    pub fn name(self) -> (r: &'static str)
        ensures
            r@ == reason_name(self),
    {
        match self {
            Reason::EmptySource => "empty_source",
            Reason::MissingNeighbor => "missing_neighbor",
            Reason::MismatchedInputFace => "mismatched_input_face",
            Reason::RejectedItemType => "rejected_item_type",
            Reason::FullDestination => "full_destination",
            Reason::Contention => "contention",
            Reason::Ready => "ready",
            Reason::Transferred => "transferred",
        }
    }
}

pub open spec fn reason_name(r: Reason) -> Seq<char> {
    match r {
        Reason::EmptySource => "empty_source"@,
        Reason::MissingNeighbor => "missing_neighbor"@,
        Reason::MismatchedInputFace => "mismatched_input_face"@,
        Reason::RejectedItemType => "rejected_item_type"@,
        Reason::FullDestination => "full_destination"@,
        Reason::Contention => "contention"@,
        Reason::Ready => "ready"@,
        Reason::Transferred => "transferred"@,
    }
}

/// A structure on the grid.
#[derive(Clone, Copy, Debug, PartialEq, Eq, Structural)]
pub struct Structure {
    pub x: i32,
    pub y: i32,
    pub kind: Kind,
    pub facing: Facing,
    pub slots: Slots,
    /// Extractor ticks toward the next ore.
    pub progress: u32,
    /// Processor work ticks left on the batch in process.
    pub remaining: u32,
    pub last_transfer_reason: Option<Reason>,
}

/// Whether `(x, y)` is a grid tile.
pub open spec fn in_grid(x: int, y: int) -> bool {
    0 <= x < GRID_WIDTH && 0 <= y < GRID_HEIGHT
}

impl Structure {
    /// A structure with empty slots and no work.
    pub fn new(kind: Kind, x: i32, y: i32, facing: Facing) -> (r: Structure)
        ensures
            r == (Structure {
                x,
                y,
                kind,
                facing,
                slots: Slots { input: None, in_process: None, output: None },
                progress: 0,
                remaining: 0,
                last_transfer_reason: None,
            }),
    {
        Structure {
            x,
            y,
            kind,
            facing,
            slots: Slots::empty(),
            progress: 0,
            remaining: 0,
            last_transfer_reason: None,
        }
    }

    /// Whether the structure takes items entering through `face`: a
    /// conveyor through every face but its output, a processor or delivery
    /// through the face opposite its facing, an extractor through none.
    pub open spec fn accepts(self, face: Facing) -> bool {
        match self.kind {
            Kind::Extractor => false,
            Kind::Conveyor => face != self.facing,
            _ => face == spec_opposite(self.facing),
        }
    }

    /// The accepting faces in the order N, E, S, W.
    pub open spec fn input_seq(self) -> Seq<Facing> {
        self.face_if(Facing::N) + self.face_if(Facing::E) + self.face_if(Facing::S) + self.face_if(Facing::W)
    }

    /// `face` alone if the structure accepts through it, else nothing.
    pub open spec fn face_if(self, face: Facing) -> Seq<Facing> {
        if self.accepts(face) {
            seq![face]
        } else {
            Seq::empty()
        }
    }

    /// Whether the structure takes items entering through `face`.
    pub fn accepts_face(&self, face: Facing) -> (r: bool)
        ensures
            r == self.accepts(face),
    {
        match self.kind {
            Kind::Extractor => false,
            Kind::Conveyor => face != self.facing,
            _ => face == self.facing.opposite(),
        }
    }

    /// The accepting faces, in the order N, E, S, W.
    pub fn inputs(&self) -> (r: Vec<Facing>)
        ensures
            r@ == self.input_seq(),
    {
        let mut r: Vec<Facing> = Vec::new();
        if self.accepts_face(Facing::N) {
            r.push(Facing::N);
        }
        if self.accepts_face(Facing::E) {
            r.push(Facing::E);
        }
        if self.accepts_face(Facing::S) {
            r.push(Facing::S);
        }
        if self.accepts_face(Facing::W) {
            r.push(Facing::W);
        }
        proof {
            assert(r@ =~= self.input_seq());
        }
        r
    }

    /// The output direction: every kind but delivery outputs forward.
    pub open spec fn spec_output(self) -> Option<Facing> {
        if self.kind != Kind::Delivery {
            Some(self.facing)
        } else {
            None
        }
    }

    /// The output direction, if the structure has one.
    pub fn output(&self) -> (r: Option<Facing>)
        ensures
            r == self.spec_output(),
    {
        if self.kind != Kind::Delivery {
            Some(self.facing)
        } else {
            None
        }
    }

    /// The tile the output faces.
    pub open spec fn spec_target(self) -> Option<(int, int)> {
        match self.spec_output() {
            Some(f) => Some((self.x + spec_delta(f).0, self.y + spec_delta(f).1)),
            None => None,
        }
    }

    /// The tile the output faces, for a structure on the grid.
    pub fn target(&self) -> (r: Option<(i32, i32)>)
        requires
            in_grid(self.x as int, self.y as int),
        ensures
            match r {
                Some(t) => self.spec_target() == Some((t.0 as int, t.1 as int)),
                None => self.spec_target() is None,
            },
    {
        match self.output() {
            Some(f) => {
                let (dx, dy) = f.delta();
                Some((self.x + dx, self.y + dy))
            },
            None => None,
        }
    }
}

} // verus!
