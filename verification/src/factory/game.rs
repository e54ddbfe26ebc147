//! The factory's state and its fixed tick: transport on the boundary
//! snapshot, then, unless ten plates are delivered, production. Every item
//! seeded or extracted is held, delivered or discarded.
use vstd::prelude::*;

use crate::factory::production::{counters_valid, produce, produced, EXTRACTION_TICKS, PROCESSING_TICKS};
use crate::factory::transport::{
    all_in_grid, deliveries, lemma_resident_update, plan, planned, resident, slots_after, slots_of,
    transfer,
};
use crate::factory::transport::{at_position, find_at, lemma_at_position, plan_view};
use crate::factory::{holds, in_grid, occupied, spec_clockwise, Facing, Item, Kind, Reason, Slots, Structure, GRID_HEIGHT, GRID_WIDTH};
use crate::text::{decimal, decimal_text, signed_decimal, signed_decimal_text};
use vstd::string::StringExecFns;

verus! {

broadcast use vstd::std_specs::vec::group_vec_axioms;

/// Plates to deliver for a complete run.
pub const DELIVERY_GOAL: u64 = 10;

/// Why the simulation stopped.
#[derive(Clone, Copy, Debug, PartialEq, Eq, Structural)]
pub enum Diagnostic {
    /// The tick counter is exhausted.
    TickOverflow,
    /// The delivered counter would overflow.
    DeliveredOverflow,
    /// The extracted counter would overflow.
    ExtractedOverflow,
}

impl Diagnostic {
    /// The diagnostic as players read it.
    pub fn message(self) -> (r: &'static str)
        ensures
            r@ == diagnostic_message(self),
    {
        match self {
            Diagnostic::TickOverflow => "COUNTER_OVERFLOW: game tick",
            Diagnostic::DeliveredOverflow => "COUNTER_OVERFLOW: delivered",
            Diagnostic::ExtractedOverflow => "COUNTER_OVERFLOW: extracted",
        }
    }
}

pub open spec fn diagnostic_message(d: Diagnostic) -> Seq<char> {
    match d {
        Diagnostic::TickOverflow => "COUNTER_OVERFLOW: game tick"@,
        Diagnostic::DeliveredOverflow => "COUNTER_OVERFLOW: delivered"@,
        Diagnostic::ExtractedOverflow => "COUNTER_OVERFLOW: extracted"@,
    }
}

/// A grid tile.
#[derive(Clone, Copy, Debug, PartialEq, Eq, Structural)]
pub struct Tile {
    pub x: i32,
    pub y: i32,
}

/// What the player builds next.
#[derive(Clone, Copy, Debug, PartialEq, Eq, Structural)]
pub struct Selection {
    pub kind: Kind,
    pub facing: Facing,
}

/// The counters and settings of a run.
#[derive(Clone, Copy, Debug, PartialEq, Eq, Structural)]
pub struct FactoryState {
    pub tick: u64,
    pub production_enabled: bool,
    pub diagnostic: Option<Diagnostic>,
    pub seeded: u64,
    pub extracted: u64,
    pub delivered: u64,
    pub discarded_ore: u64,
    pub discarded_plate: u64,
    pub completion_tick: Option<u64>,
    pub selection: Selection,
    pub hover: Option<Tile>,
    /// Counts runs, so that input held in an earlier run can be dropped.
    pub epoch: u64,
}

/// A factory: its structures in row-then-column order, and its state.
#[derive(Clone, Debug)]
pub struct Factory {
    pub structures: Vec<Structure>,
    pub state: FactoryState,
    /// The pointer action that hover previews show.
    pub preview_action: PreviewAction,
}

/// A factory as values.
pub type FactoryView = (Seq<Structure>, FactoryState);

impl View for Factory {
    type V = FactoryView;

    open spec fn view(&self) -> FactoryView {
        (self.structures@, self.state)
    }
}

/// Whether `a` comes before `b` in row-then-column order.
pub open spec fn precedes(a: Structure, b: Structure) -> bool {
    a.y < b.y || (a.y == b.y && a.x < b.x)
}

/// Structures on the grid, in strict row-then-column order, with work
/// counters in range.
pub open spec fn structures_valid(s: Seq<Structure>) -> bool {
    &&& all_in_grid(s)
    &&& forall|i: int, j: int| 0 <= i < j < s.len() ==> precedes(#[trigger] s[i], #[trigger] s[j])
    &&& forall|i: int| 0 <= i < s.len() ==> counters_valid(#[trigger] s[i])
}

/// Every item seeded or extracted is held, delivered or discarded.
pub open spec fn conserved(v: FactoryView) -> bool {
    v.1.seeded + v.1.extracted == resident(slots_of(v.0)) + v.1.delivered + v.1.discarded_ore
        + v.1.discarded_plate
}

/// A valid factory: ordered valid structures, and every item accounted for.
pub open spec fn factory_valid(v: FactoryView) -> bool {
    structures_valid(v.0) && conserved(v)
}

/// Each structure after transport: its slots once every planned item moved,
/// and why its own item did or did not move.
pub open spec fn moved(s: Seq<Structure>, delivered: u64) -> Seq<Structure> {
    Seq::new(
        s.len(),
        |k: int|
            Structure {
                slots: slots_after(s, delivered, k, s.len() as int),
                last_transfer_reason: Some(
                    match planned(s, delivered, k) {
                        Ok(_) => Reason::Transferred,
                        Err(r) => r,
                    },
                ),
                ..s[k]
            },
    )
}

/// One production step of every structure in order, with the extracted
/// count, or `None` when that count would overflow.
pub open spec fn produce_all(s: Seq<Structure>, extracted: u64) -> Option<(Seq<Structure>, u64)>
    decreases s.len(),
{
    if s.len() == 0 {
        Some((Seq::empty(), extracted))
    } else {
        match produce_all(s.drop_last(), extracted) {
            None => None,
            Some((done, count)) => match produced(s.last(), count) {
                None => None,
                Some((p, next)) => Some((done.push(p), next)),
            },
        }
    }
}

/// The factory stopped by diagnostic `d`, otherwise unchanged.
pub open spec fn stopped(v: FactoryView, d: Diagnostic) -> FactoryView {
    (v.0, FactoryState { diagnostic: Some(d), ..v.1 })
}

/// One fixed tick. A complete or stopped factory is frozen. Otherwise the
/// tick counts, planned items move, and the run completes on the tenth
/// delivered plate; if it does not, production runs when enabled. A counter
/// that would overflow stops the factory and the tick changes nothing else.
pub open spec fn tick_spec(v: FactoryView) -> FactoryView {
    let s = v.0;
    let st = v.1;
    let delivered = st.delivered + deliveries(s, st.delivered, s.len() as int);
    let after = moved(s, st.delivered);
    if st.completion_tick is Some || st.diagnostic is Some {
        v
    } else if st.tick == u64::MAX {
        stopped(v, Diagnostic::TickOverflow)
    } else if delivered > u64::MAX {
        stopped(v, Diagnostic::DeliveredOverflow)
    } else if delivered == DELIVERY_GOAL {
        (
            after,
            FactoryState {
                tick: (st.tick + 1) as u64,
                delivered: delivered as u64,
                completion_tick: Some((st.tick + 1) as u64),
                ..st
            },
        )
    } else if !st.production_enabled {
        (after, FactoryState { tick: (st.tick + 1) as u64, delivered: delivered as u64, ..st })
    } else {
        match produce_all(after, st.extracted) {
            None => stopped(v, Diagnostic::ExtractedOverflow),
            Some((made, extracted)) => (
                made,
                FactoryState {
                    tick: (st.tick + 1) as u64,
                    delivered: delivered as u64,
                    extracted,
                    ..st
                },
            ),
        }
    }
}

/// `n` fixed ticks.
pub open spec fn advance_spec(v: FactoryView, n: nat) -> FactoryView
    decreases n,
{
    if n == 0 {
        v
    } else {
        tick_spec(advance_spec(v, (n - 1) as nat))
    }
}

proof fn lemma_resident_push(slots: Seq<Slots>, v: Slots)
    ensures
        resident(slots.push(v)) == resident(slots) + v.count(),
{
    assert(slots.push(v).drop_last() =~= slots);
}

proof fn lemma_produce_all<C>(s: Seq<Structure>, extracted: u64)
    requires
        forall|i: int| 0 <= i < s.len() ==> counters_valid(#[trigger] s[i]),
    ensures
        produce_all(s, extracted) matches Some((made, count)) ==> {
            &&& made.len() == s.len()
            &&& resident(slots_of(made)) + extracted == resident(slots_of(s)) + count
            &&& forall|i: int| 0 <= i < s.len() ==> counters_valid(#[trigger] made[i])
            &&& forall|i: int| 0 <= i < s.len() ==> (#[trigger] made[i]).x == s[i].x && made[i].y == s[i].y
        },
    decreases s.len(),
{
    if s.len() > 0 {
        let d = s.drop_last();
        assert forall|i: int| 0 <= i < d.len() implies counters_valid(#[trigger] d[i]) by {
            assert(d[i] == s[i]);
        }
        lemma_produce_all::<C>(d, extracted);
        if let Some((done, count)) = produce_all(d, extracted) {
            assert(counters_valid(s[s.len() - 1]));
            if let Some((p, next)) = produced(s.last(), count) {
                lemma_produced(s.last(), count);
                assert(slots_of(done.push(p)) =~= slots_of(done).push(p.slots));
                assert(slots_of(s) =~= slots_of(d).push(s.last().slots));
                lemma_resident_push(slots_of(done), p.slots);
                lemma_resident_push(slots_of(d), s.last().slots);
                let made = done.push(p);
                assert forall|i: int| 0 <= i < s.len() implies counters_valid(#[trigger] made[i]) by {
                    if i < s.len() - 1 {
                        assert(made[i] == done[i]);
                    }
                }
                assert forall|i: int| 0 <= i < s.len() implies (#[trigger] made[i]).x == s[i].x && made[i].y
                    == s[i].y by {
                    if i < s.len() - 1 {
                        assert(made[i] == done[i]);
                        assert(d[i] == s[i]);
                    }
                }
            }
        }
    }
}

proof fn lemma_produced(s: Structure, extracted: u64)
    requires
        counters_valid(s),
    ensures
        produced(s, extracted) matches Some((p, next)) ==> {
            &&& counters_valid(p)
            &&& p.slots.count() + extracted == s.slots.count() + next
            &&& p.x == s.x && p.y == s.y && p.kind == s.kind && p.facing == s.facing
        },
{
}

proof fn lemma_produce_all_stops(s: Seq<Structure>, extracted: u64, k: int)
    requires
        0 <= k <= s.len(),
        produce_all(s.take(k), extracted) is None,
    ensures
        produce_all(s, extracted) is None,
    decreases s.len() - k,
{
    if k < s.len() {
        assert(s.take(k + 1).drop_last() =~= s.take(k));
        lemma_produce_all_stops(s, extracted, k + 1);
    } else {
        assert(s.take(k) =~= s);
    }
}

proof fn lemma_moved_valid(s: Seq<Structure>, delivered: u64)
    requires
        structures_valid(s),
    ensures
        structures_valid(moved(s, delivered)),
        slots_of(moved(s, delivered)) == Seq::new(s.len(), |k: int| slots_after(s, delivered, k, s.len() as int)),
{
    let m = moved(s, delivered);
    assert forall|i: int| 0 <= i < m.len() implies in_grid(#[trigger] m[i].x as int, m[i].y as int) by {
        assert(in_grid(s[i].x as int, s[i].y as int));
    }
    assert forall|i: int, j: int| 0 <= i < j < m.len() implies precedes(#[trigger] m[i], #[trigger] m[j]) by {
        assert(precedes(s[i], s[j]));
    }
    assert forall|i: int| 0 <= i < m.len() implies counters_valid(#[trigger] m[i]) by {
        assert(counters_valid(s[i]));
    }
    assert(slots_of(m) =~= Seq::new(s.len(), |k: int| slots_after(s, delivered, k, s.len() as int)));
}

proof fn lemma_made_valid(after: Seq<Structure>, made: Seq<Structure>, extracted: u64)
    requires
        structures_valid(after),
        produce_all(after, extracted) matches Some((m, _)) && m == made,
    ensures
        structures_valid(made),
{
    lemma_produce_all::<()>(after, extracted);
    assert forall|i: int| 0 <= i < made.len() implies in_grid(#[trigger] made[i].x as int, made[i].y as int) by {
        assert(in_grid(after[i].x as int, after[i].y as int));
    }
    assert forall|i: int, j: int| 0 <= i < j < made.len() implies precedes(#[trigger] made[i], #[trigger] made[j]) by {
        assert(precedes(after[i], after[j]));
    }
}

impl Factory {
    /// One fixed tick, as `tick_spec` states.
    pub fn tick(&mut self)
        requires
            factory_valid(old(self)@),
        ensures
            final(self)@ == tick_spec(old(self)@),
            factory_valid(final(self)@),
            final(self).preview_action == old(self).preview_action,
    {
        let ghost v = self@;
        if self.state.completion_tick.is_some() || self.state.diagnostic.is_some() {
            return;
        }
        let next = match self.state.tick.checked_add(1) {
            Some(t) => t,
            None => {
                self.state.diagnostic = Some(Diagnostic::TickOverflow);
                return;
            },
        };
        let plans = plan(&self.structures, self.state.delivered);
        let (slots, delivered) = match transfer(&self.structures, &plans, self.state.delivered) {
            Some(r) => r,
            None => {
                self.state.diagnostic = Some(Diagnostic::DeliveredOverflow);
                return;
            },
        };
        let ghost m = moved(v.0, v.1.delivered);
        proof {
            lemma_moved_valid(v.0, v.1.delivered);
            assert(slots@ =~= slots_of(m));
        }
        let n = self.structures.len();
        let mut after: Vec<Structure> = Vec::new();
        let mut k: usize = 0;
        while k < n
            invariant
                self.preview_action == old(self).preview_action,
                n == v.0.len(),
                self@ == v,
                k <= n,
                plans@.len() == n,
                slots@.len() == n,
                slots@ == slots_of(m),
                m == moved(v.0, v.1.delivered),
                forall|j: int| 0 <= j < n ==> crate::factory::transport::plan_view(#[trigger] plans@[j])
                    == planned(v.0, v.1.delivered, j),
                after@ == m.take(k as int),
            decreases n - k,
        {
            let mut t = self.structures[k];
            t.slots = slots[k];
            t.last_transfer_reason = Some(
                match plans[k] {
                    Ok(_) => Reason::Transferred,
                    Err(r) => r,
                },
            );
            after.push(t);
            proof {
                assert(slots_of(m)[k as int] == m[k as int].slots);
                assert(after@ =~= m.take(k as int + 1));
            }
            k += 1;
        }
        proof {
            assert(after@ =~= m);
        }
        if delivered == DELIVERY_GOAL {
            self.structures = after;
            self.state.tick = next;
            self.state.delivered = delivered;
            self.state.completion_tick = Some(next);
            return;
        }
        if !self.state.production_enabled {
            self.structures = after;
            self.state.tick = next;
            self.state.delivered = delivered;
            return;
        }
        let mut extracted = self.state.extracted;
        let mut made: Vec<Structure> = Vec::new();
        let mut k: usize = 0;
        while k < n
            invariant
                self.preview_action == old(self).preview_action,
                n == after@.len(),
                k <= n,
                self@ == v,
                v == old(self)@,
                factory_valid(v),
                v.1.completion_tick is None,
                v.1.diagnostic is None,
                v.1.tick < u64::MAX,
                v.1.production_enabled,
                after@ == moved(v.0, v.1.delivered),
                delivered == v.1.delivered + deliveries(v.0, v.1.delivered, v.0.len() as int),
                delivered != DELIVERY_GOAL,
                structures_valid(after@),
                produce_all(after@.take(k as int), v.1.extracted) == Some((made@, extracted)),
            decreases n - k,
        {
            proof {
                assert(after@.take(k as int + 1).drop_last() =~= after@.take(k as int));
                assert(after@.take(k as int + 1).last() == after@[k as int]);
                assert(counters_valid(after@[k as int]));
            }
            match produce(after[k], extracted) {
                None => {
                    proof {
                        lemma_produce_all_stops(after@, v.1.extracted, k as int + 1);
                    }
                    self.state.diagnostic = Some(Diagnostic::ExtractedOverflow);
                    return;
                },
                Some((p, e)) => {
                    made.push(p);
                    extracted = e;
                },
            }
            k += 1;
        }
        proof {
            assert(after@.take(n as int) =~= after@);
            lemma_produce_all::<()>(after@, v.1.extracted);
            lemma_made_valid(after@, made@, v.1.extracted);
        }
        self.structures = made;
        self.state.tick = next;
        self.state.delivered = delivered;
        self.state.extracted = extracted;
    }
}

/// The state a run starts with.
pub open spec fn initial_state(epoch: u64) -> FactoryState {
    FactoryState {
        tick: 0,
        production_enabled: true,
        diagnostic: None,
        seeded: 0,
        extracted: 0,
        delivered: 0,
        discarded_ore: 0,
        discarded_plate: 0,
        completion_tick: None,
        selection: Selection { kind: Kind::Conveyor, facing: Facing::E },
        hover: None,
        epoch,
    }
}

/// The fixed delivery at (10, 3), facing east.
pub open spec fn delivery_structure() -> Structure {
    Structure {
        x: 10,
        y: 3,
        kind: Kind::Delivery,
        facing: Facing::E,
        slots: Slots { input: None, in_process: None, output: None },
        progress: 0,
        remaining: 0,
        last_transfer_reason: None,
    }
}

/// A new run: only the delivery stands, and every counter is zero.
pub open spec fn fresh(epoch: u64) -> FactoryView {
    (seq![delivery_structure()], initial_state(epoch))
}

proof fn lemma_fresh_valid(epoch: u64)
    ensures
        factory_valid(fresh(epoch)),
{
    let s = fresh(epoch).0;
    assert(s.len() == 1 && s[0] == delivery_structure());
    assert(slots_of(s) =~= seq![delivery_structure().slots]);
    assert(slots_of(s).drop_last() =~= Seq::<Slots>::empty());
    assert(resident(slots_of(s).drop_last()) == 0);
    assert(slots_of(s).last() == delivery_structure().slots);
    assert(resident(slots_of(s)) == resident(slots_of(s).drop_last()) + slots_of(s).last().count());
    assert(counters_valid(s[0]));
    assert(in_grid(s[0].x as int, s[0].y as int));
}

impl Factory {
    /// A new game: the delivery on an empty grid, in the first run.
    pub fn new() -> (r: Factory)
        ensures
            r@ == fresh(1),
            factory_valid(r@),
    {
        proof {
            lemma_fresh_valid(1);
        }
        Factory { structures: vec![Factory::delivery()], state: Factory::initial(1), preview_action: PreviewAction::Place }
    }

    fn delivery() -> (r: Structure)
        ensures
            r == delivery_structure(),
    {
        Structure::new(Kind::Delivery, 10, 3, Facing::E)
    }

    fn initial(epoch: u64) -> (r: FactoryState)
        ensures
            r == initial_state(epoch),
    {
        FactoryState {
            tick: 0,
            production_enabled: true,
            diagnostic: None,
            seeded: 0,
            extracted: 0,
            delivered: 0,
            discarded_ore: 0,
            discarded_plate: 0,
            completion_tick: None,
            selection: Selection { kind: Kind::Conveyor, facing: Facing::E },
            hover: None,
            epoch,
        }
    }

    /// Starts a new run: everything is cleared but the run count, which grows.
    pub fn restart(&mut self)
        requires
            old(self).state.epoch < u64::MAX,
        ensures
            final(self)@ == fresh((old(self).state.epoch + 1) as u64),
            factory_valid(final(self)@),
            final(self).preview_action == old(self).preview_action,
    {
        let epoch = self.state.epoch + 1;
        self.structures = vec![Factory::delivery()];
        self.state = Factory::initial(epoch);
        proof {
            lemma_fresh_valid(epoch);
        }
    }

    /// Runs `ticks` fixed ticks.
    pub fn advance(&mut self, ticks: u64)
        requires
            factory_valid(old(self)@),
        ensures
            final(self)@ == advance_spec(old(self)@, ticks as nat),
            factory_valid(final(self)@),
            final(self).preview_action == old(self).preview_action,
    {
        let mut done: u64 = 0;
        while done < ticks
            invariant
                self.preview_action == old(self).preview_action,
                done <= ticks,
                self@ == advance_spec(old(self)@, done as nat),
                factory_valid(self@),
            decreases ticks - done,
        {
            self.tick();
            done += 1;
        }
    }

    /// Whether the factory is valid: its structures on the grid in strict
    /// row-then-column order with work counters in range, and every item
    /// accounted for.
    pub fn is_valid(&self) -> (r: bool)
        ensures
            r == factory_valid(self@),
    {
        let s = &self.structures;
        let mut i: usize = 0;
        while i < s.len()
            invariant
                s@ == self.structures@,
                i <= s@.len(),
                forall|k: int| 0 <= k < i ==> in_grid(#[trigger] s@[k].x as int, s@[k].y as int),
                forall|k: int| 0 <= k < i ==> counters_valid(#[trigger] s@[k]),
                forall|a: int, b: int| 0 <= a < b < i ==> precedes(#[trigger] s@[a], #[trigger] s@[b]),
            decreases s@.len() - i,
        {
            let t = s[i];
            if t.x < 0 || t.x >= GRID_WIDTH || t.y < 0 || t.y >= GRID_HEIGHT {
                proof {
                    assert(!in_grid(s@[i as int].x as int, s@[i as int].y as int));
                }
                return false;
            }
            if t.progress >= EXTRACTION_TICKS || t.remaining > PROCESSING_TICKS {
                proof {
                    assert(!counters_valid(s@[i as int]));
                }
                return false;
            }
            if i > 0 {
                let p = s[i - 1];
                if !(p.y < t.y || (p.y == t.y && p.x < t.x)) {
                    proof {
                        assert(!precedes(s@[i - 1], s@[i as int]));
                    }
                    return false;
                }
                proof {
                    assert forall|a: int, b: int| 0 <= a < b < i + 1 implies precedes(#[trigger] s@[a], #[trigger] s@[b]) by {
                        if b == i && a < i - 1 {
                            assert(precedes(s@[a], s@[i - 1]));
                        }
                    }
                }
            }
            i += 1;
        }
        self.conserved()
    }

    /// Whether every item seeded or extracted is held, delivered or
    /// discarded.
    pub fn conserved(&self) -> (r: bool)
        ensures
            r == conserved(self@),
    {
        let mut held: u128 = 0;
        let mut i: usize = 0;
        while i < self.structures.len()
            invariant
                i <= self.structures@.len(),
                held == resident(slots_of(self.structures@).take(i as int)),
                held <= 3 * i,
            decreases self.structures@.len() - i,
        {
            proof {
                assert(slots_of(self.structures@).take(i as int + 1).drop_last() =~= slots_of(
                    self.structures@,
                ).take(i as int));
            }
            held = held + self.structures[i].slots.items().len() as u128;
            i += 1;
        }
        proof {
            assert(slots_of(self.structures@).take(i as int) =~= slots_of(self.structures@));
        }
        let st = self.state;
        st.seeded as u128 + st.extracted as u128 == held + st.delivered as u128 + st.discarded_ore as u128
            + st.discarded_plate as u128
    }
}

/// A player operation at a safe boundary.
#[derive(Clone, Copy, Debug, PartialEq, Eq, Structural)]
pub enum Operation {
    Place { kind: Kind, x: i32, y: i32, facing: Facing },
    Rotate { x: i32, y: i32 },
    Remove { x: i32, y: i32 },
    Inspect { x: i32, y: i32 },
    Select { kind: Option<Kind>, facing: Option<Facing> },
    Advance { ticks: u32 },
    Restart,
}

/// What an accepted operation reports.
#[derive(Clone, Copy, Debug, PartialEq, Eq, Structural)]
pub enum Applied {
    /// The tile the operation concerns, to be inspected.
    Tile { x: i32, y: i32 },
    /// A removal, with the items it discarded.
    Removed { x: i32, y: i32, ore: u64, plate: u64 },
    /// The new selection.
    Selected(Selection),
    /// The tick reached.
    Advanced { tick: u64 },
    /// A new run began.
    Restarted,
}

/// Ticks one advance operation may run.
pub const ADVANCE_LIMIT: u32 = 36000;

pub open spec fn out_of_bounds_message(x: int, y: int) -> Seq<char> {
    "OUT_OF_BOUNDS: tile ("@ + signed_decimal(x) + ","@ + signed_decimal(y) + ") must be x=0..11, y=0..7"@
}

pub open spec fn occupied_message(x: int, y: int) -> Seq<char> {
    "OCCUPIED: tile ("@ + signed_decimal(x) + ","@ + signed_decimal(y) + ") already contains a structure"@
}

pub open spec fn empty_tile_message(x: int, y: int) -> Seq<char> {
    "EMPTY_TILE: tile ("@ + signed_decimal(x) + ","@ + signed_decimal(y) + ") has no structure"@
}

/// `s` with `t` placed before the structures that follow it in
/// row-then-column order.
pub open spec fn insert_ordered(s: Seq<Structure>, t: Structure) -> Seq<Structure>
    decreases s.len(),
{
    if s.len() == 0 || precedes(s.last(), t) {
        s.push(t)
    } else {
        insert_ordered(s.drop_last(), t).push(s.last())
    }
}

/// Whether the operation builds or edits.
pub open spec fn constructs(op: Operation) -> bool {
    op is Place || op is Rotate || op is Remove || op is Select
}

/// An operation on a factory: the factory afterwards and the report or the
/// complaint. Construction waits for a restart once the run is complete;
/// a stopped run takes only inspection and restart. A rejected operation
/// changes nothing.
pub open spec fn apply_spec(v: FactoryView, op: Operation) -> (FactoryView, Result<Applied, Seq<char>>) {
    let s = v.0;
    let st = v.1;
    if st.completion_tick is Some && constructs(op) {
        (v, Err("COMPLETE: restart before construction"@))
    } else if st.diagnostic is Some && !(op is Inspect || op is Restart) {
        (v, Err(diagnostic_message(st.diagnostic->0)))
    } else {
        match op {
            Operation::Place { kind, x, y, facing } => if !in_grid(x as int, y as int) {
                (v, Err(out_of_bounds_message(x as int, y as int)))
            } else if kind == Kind::Delivery {
                (v, Err("FIXED_DELIVERY: delivery is not player-placeable"@))
            } else if at_position(s, x as int, y as int) is Some {
                (v, Err(occupied_message(x as int, y as int)))
            } else if (kind == Kind::Extractor) != (x == 1 && y == 3) {
                (v, Err("INVALID_TERRAIN: extractors require (1,3); other structures require ground"@))
            } else {
                (
                    (
                        insert_ordered(
                            s,
                            Structure {
                                x,
                                y,
                                kind,
                                facing,
                                slots: Slots { input: None, in_process: None, output: None },
                                progress: 0,
                                remaining: 0,
                                last_transfer_reason: None,
                            },
                        ),
                        st,
                    ),
                    Ok(Applied::Tile { x, y }),
                )
            },
            Operation::Rotate { x, y } => if !in_grid(x as int, y as int) {
                (v, Err(out_of_bounds_message(x as int, y as int)))
            } else {
                match at_position(s, x as int, y as int) {
                    None => (v, Err(empty_tile_message(x as int, y as int))),
                    Some(i) => if s[i].kind == Kind::Delivery {
                        (v, Err("FIXED_DELIVERY: delivery cannot be rotated or removed"@))
                    } else {
                        ((s.update(i, Structure { facing: spec_clockwise(s[i].facing), ..s[i] }), st), Ok(Applied::Tile { x, y }))
                    },
                }
            },
            Operation::Remove { x, y } => if !in_grid(x as int, y as int) {
                (v, Err(out_of_bounds_message(x as int, y as int)))
            } else {
                match at_position(s, x as int, y as int) {
                    None => (v, Err(empty_tile_message(x as int, y as int))),
                    Some(i) => {
                        let ore = s[i].slots.count_of(Item::Ore);
                        let plate = s[i].slots.count_of(Item::Plate);
                        if s[i].kind == Kind::Delivery {
                            (v, Err("FIXED_DELIVERY: delivery cannot be rotated or removed"@))
                        } else if st.discarded_ore + ore > u64::MAX {
                            (v, Err("COUNTER_OVERFLOW: discarded ore"@))
                        } else if st.discarded_plate + plate > u64::MAX {
                            (v, Err("COUNTER_OVERFLOW: discarded plate"@))
                        } else {
                            (
                                (
                                    s.remove(i),
                                    FactoryState {
                                        discarded_ore: (st.discarded_ore + ore) as u64,
                                        discarded_plate: (st.discarded_plate + plate) as u64,
                                        ..st
                                    },
                                ),
                                Ok(Applied::Removed { x, y, ore: ore as u64, plate: plate as u64 }),
                            )
                        }
                    },
                }
            },
            Operation::Inspect { x, y } => if !in_grid(x as int, y as int) {
                (v, Err(out_of_bounds_message(x as int, y as int)))
            } else {
                (v, Ok(Applied::Tile { x, y }))
            },
            Operation::Select { kind, facing } => if kind == Some(Kind::Delivery) {
                (v, Err("FIXED_DELIVERY: choose conveyor, extractor or processor"@))
            } else {
                let selection = Selection {
                    kind: match kind {
                        Some(k) => k,
                        None => st.selection.kind,
                    },
                    facing: match facing {
                        Some(f) => f,
                        None => st.selection.facing,
                    },
                };
                ((s, FactoryState { selection, ..st }), Ok(Applied::Selected(selection)))
            },
            Operation::Advance { ticks } => if ticks > ADVANCE_LIMIT {
                (v, Err("ADVANCE_LIMIT: use at most 36000 ticks per operation"@))
            } else {
                let w = advance_spec(v, ticks as nat);
                match w.1.diagnostic {
                    Some(d) => (w, Err(diagnostic_message(d))),
                    None => (w, Ok(Applied::Advanced { tick: w.1.tick })),
                }
            },
            Operation::Restart => (fresh((st.epoch + 1) as u64), Ok(Applied::Restarted)),
        }
    }
}

/// A report as values.
pub open spec fn applied_view(r: Result<Applied, String>) -> Result<Applied, Seq<char>> {
    match r {
        Ok(a) => Ok(a),
        Err(m) => Err(m@),
    }
}

proof fn lemma_resident_concat(a: Seq<Slots>, b: Seq<Slots>)
    ensures
        resident(a + b) == resident(a) + resident(b),
    decreases b.len(),
{
    if b.len() == 0 {
        assert(a + b =~= a);
    } else {
        lemma_resident_concat(a, b.drop_last());
        assert((a + b).drop_last() =~= a + b.drop_last());
    }
}

proof fn lemma_slots_split(s: Seq<Structure>, k: int)
    requires
        0 <= k < s.len(),
    ensures
        resident(slots_of(s)) == resident(slots_of(s.take(k))) + s[k].slots.count() + resident(
            slots_of(s.skip(k + 1)),
        ),
{
    assert(slots_of(s) =~= slots_of(s.take(k)).push(s[k].slots) + slots_of(s.skip(k + 1)));
    lemma_resident_concat(slots_of(s.take(k)).push(s[k].slots), slots_of(s.skip(k + 1)));
    lemma_resident_push(slots_of(s.take(k)), s[k].slots);
}

/// Where `t` goes among ordered structures: after those that precede it.
pub open spec fn ordered_position(s: Seq<Structure>, t: Structure) -> nat
    decreases s.len(),
{
    if s.len() == 0 || precedes(s.last(), t) {
        s.len()
    } else {
        ordered_position(s.drop_last(), t)
    }
}

proof fn lemma_ordered_position(s: Seq<Structure>, t: Structure)
    requires
        structures_valid(s),
        at_position(s, t.x as int, t.y as int) is None,
    ensures
        ordered_position(s, t) <= s.len(),
        forall|i: int| 0 <= i < ordered_position(s, t) ==> precedes(#[trigger] s[i], t),
        forall|i: int| ordered_position(s, t) <= i < s.len() ==> precedes(t, #[trigger] s[i]),
        insert_ordered(s, t) == s.take(ordered_position(s, t) as int).push(t) + s.skip(ordered_position(s, t) as int),
    decreases s.len(),
{
    lemma_at_position(s, t.x as int, t.y as int);
    if s.len() == 0 {
        assert(s.take(0).push(t) + s.skip(0) =~= s.push(t));
    } else if precedes(s.last(), t) {
        assert forall|i: int| 0 <= i < s.len() implies precedes(#[trigger] s[i], t) by {
            if i < s.len() - 1 {
                assert(precedes(s[i], s[s.len() - 1]));
            }
        }
        assert(s.take(s.len() as int).push(t) + s.skip(s.len() as int) =~= s.push(t));
    } else {
        let d = s.drop_last();
        assert forall|i: int| 0 <= i < d.len() implies in_grid(#[trigger] d[i].x as int, d[i].y as int) by {
            assert(d[i] == s[i]);
        }
        assert forall|i: int, j: int| 0 <= i < j < d.len() implies precedes(#[trigger] d[i], #[trigger] d[j]) by {
            assert(d[i] == s[i] && d[j] == s[j]);
        }
        assert forall|i: int| 0 <= i < d.len() implies counters_valid(#[trigger] d[i]) by {
            assert(d[i] == s[i]);
        }
        lemma_at_position(d, t.x as int, t.y as int);
        if let Some(k) = at_position(d, t.x as int, t.y as int) {
            assert(d[k] == s[k]);
        }
        lemma_ordered_position(d, t);
        let k = ordered_position(d, t) as int;
        assert(!(s[s.len() - 1].x == t.x && s[s.len() - 1].y == t.y));
        assert forall|i: int| 0 <= i < k implies precedes(#[trigger] s[i], t) by {
            assert(d[i] == s[i]);
        }
        assert forall|i: int| k <= i < s.len() implies precedes(t, #[trigger] s[i]) by {
            if i < s.len() - 1 {
                assert(d[i] == s[i]);
            }
        }
        assert((d.take(k).push(t) + d.skip(k)).push(s.last()) =~= s.take(k).push(t) + s.skip(k));
    }
}

proof fn lemma_insert_valid(v: FactoryView, t: Structure)
    requires
        factory_valid(v),
        at_position(v.0, t.x as int, t.y as int) is None,
        in_grid(t.x as int, t.y as int),
        counters_valid(t),
        v.1.seeded + t.slots.count() <= u64::MAX,
    ensures
        factory_valid((insert_ordered(v.0, t), FactoryState { seeded: (v.1.seeded + t.slots.count()) as u64, ..v.1 })),
{
    let s = v.0;
    lemma_ordered_position(s, t);
    let k = ordered_position(s, t) as int;
    let u = insert_ordered(s, t);
    assert forall|i: int| 0 <= i < u.len() implies in_grid(#[trigger] u[i].x as int, u[i].y as int) && counters_valid(u[i]) by {
        if i < k {
            assert(u[i] == s[i]);
        } else if i > k {
            assert(u[i] == s[i - 1]);
        }
    }
    assert forall|i: int, j: int| 0 <= i < j < u.len() implies precedes(#[trigger] u[i], #[trigger] u[j]) by {
        if j < k {
            assert(u[i] == s[i] && u[j] == s[j]);
        } else if j == k {
            assert(u[i] == s[i]);
        } else if i < k {
            assert(u[i] == s[i] && u[j] == s[j - 1]);
        } else if i == k {
            assert(u[j] == s[j - 1]);
        } else {
            assert(u[i] == s[i - 1] && u[j] == s[j - 1]);
        }
    }
    assert(u[k] == t);
    lemma_slots_split(u, k);
    if k < s.len() {
        lemma_slots_split(s, k);
        assert(u.take(k) =~= s.take(k));
        assert(u.skip(k + 1) =~= s.skip(k));
        assert(slots_of(s.skip(k)) =~= seq![s[k].slots] + slots_of(s.skip(k + 1)));
        lemma_resident_concat(seq![s[k].slots], slots_of(s.skip(k + 1)));
        lemma_resident_push(Seq::<Slots>::empty(), s[k].slots);
        assert(seq![s[k].slots] =~= Seq::<Slots>::empty().push(s[k].slots));
    } else {
        assert(u.take(k) =~= s);
        assert(slots_of(u.skip(k + 1)) =~= Seq::<Slots>::empty());
    }
}

proof fn lemma_slot_split(slot: Option<Item>)
    ensures
        occupied(slot) == holds(slot, Item::Ore) + holds(slot, Item::Plate),
{
    match slot {
        Some(Item::Ore) => {},
        Some(Item::Plate) => {},
        None => {},
    }
}

proof fn lemma_count_split(sl: Slots)
    ensures
        sl.count() == sl.count_of(Item::Ore) + sl.count_of(Item::Plate),
{
    lemma_slot_split(sl.input);
    lemma_slot_split(sl.in_process);
    lemma_slot_split(sl.output);
}

proof fn lemma_remove_valid(v: FactoryView, i: int, ore: nat, plate: nat)
    requires
        factory_valid(v),
        0 <= i < v.0.len(),
        ore == v.0[i].slots.count_of(Item::Ore),
        plate == v.0[i].slots.count_of(Item::Plate),
        v.1.discarded_ore + ore <= u64::MAX,
        v.1.discarded_plate + plate <= u64::MAX,
    ensures
        factory_valid(
            (
                v.0.remove(i),
                FactoryState {
                    discarded_ore: (v.1.discarded_ore + ore) as u64,
                    discarded_plate: (v.1.discarded_plate + plate) as u64,
                    ..v.1
                },
            ),
        ),
{
    let s = v.0;
    let u = s.remove(i);
    assert forall|k: int| 0 <= k < u.len() implies in_grid(#[trigger] u[k].x as int, u[k].y as int) && counters_valid(u[k]) by {
        if k < i {
            assert(u[k] == s[k]);
        } else {
            assert(u[k] == s[k + 1]);
        }
    }
    assert forall|a: int, b: int| 0 <= a < b < u.len() implies precedes(#[trigger] u[a], #[trigger] u[b]) by {
        if b < i {
            assert(u[a] == s[a] && u[b] == s[b]);
        } else if a < i {
            assert(u[a] == s[a] && u[b] == s[b + 1]);
        } else {
            assert(u[a] == s[a + 1] && u[b] == s[b + 1]);
        }
    }
    lemma_slots_split(s, i);
    lemma_count_split(s[i].slots);
    assert(u =~= s.take(i) + s.skip(i + 1));
    assert(slots_of(u) =~= slots_of(s.take(i)) + slots_of(s.skip(i + 1)));
    lemma_resident_concat(slots_of(s.take(i)), slots_of(s.skip(i + 1)));
}

proof fn lemma_rotate_valid(v: FactoryView, i: int)
    requires
        factory_valid(v),
        0 <= i < v.0.len(),
    ensures
        factory_valid((v.0.update(i, Structure { facing: spec_clockwise(v.0[i].facing), ..v.0[i] }), v.1)),
{
    let s = v.0;
    let u = s.update(i, Structure { facing: spec_clockwise(s[i].facing), ..s[i] });
    assert forall|k: int| 0 <= k < u.len() implies in_grid(#[trigger] u[k].x as int, u[k].y as int) && counters_valid(u[k]) by {
        assert(in_grid(s[k].x as int, s[k].y as int) && counters_valid(s[k]));
    }
    assert forall|a: int, b: int| 0 <= a < b < u.len() implies precedes(#[trigger] u[a], #[trigger] u[b]) by {
        assert(precedes(s[a], s[b]));
    }
    assert(slots_of(u) =~= slots_of(s));
}

fn tile_text(prefix: &str, x: i32, y: i32, suffix: &str) -> (r: String)
    ensures
        r@ == prefix@ + signed_decimal(x as int) + ","@ + signed_decimal(y as int) + suffix@,
{
    prefix.to_owned().concat(signed_decimal_text(x).as_str()).concat(",").concat(
        signed_decimal_text(y).as_str(),
    ).concat(suffix)
}

fn on_grid(x: i32, y: i32) -> (r: bool)
    ensures
        r == in_grid(x as int, y as int),
{
    0 <= x && x < 12 && 0 <= y && y < 8
}

impl Factory {
    fn place(&mut self, kind: Kind, x: i32, y: i32, facing: Facing) -> (r: Result<Applied, String>)
        requires
            factory_valid(old(self)@),
            old(self).state.completion_tick is None,
            old(self).state.diagnostic is None,
        ensures
            (final(self)@, applied_view(r)) == apply_spec(old(self)@, Operation::Place { kind, x, y, facing }),
            factory_valid(final(self)@),
            final(self).preview_action == old(self).preview_action,
    {
        if !on_grid(x, y) {
            return Err(tile_text("OUT_OF_BOUNDS: tile (", x, y, ") must be x=0..11, y=0..7"));
        }
        if kind == Kind::Delivery {
            return Err("FIXED_DELIVERY: delivery is not player-placeable".to_owned());
        }
        if find_at(&self.structures, x, y).is_some() {
            return Err(tile_text("OCCUPIED: tile (", x, y, ") already contains a structure"));
        }
        if (kind == Kind::Extractor) != (x == 1 && y == 3) {
            return Err(
                "INVALID_TERRAIN: extractors require (1,3); other structures require ground".to_owned(),
            );
        }
        let t = Structure::new(kind, x, y, facing);
        proof {
            lemma_insert_valid(self@, t);
            assert(FactoryState { seeded: (self.state.seeded + t.slots.count()) as u64, ..self.state } == self.state);
        }
        self.insert_structure(t);
        Ok(Applied::Tile { x, y })
    }

    fn rotate_or_remove(&mut self, x: i32, y: i32, remove: bool) -> (r: Result<Applied, String>)
        requires
            factory_valid(old(self)@),
            old(self).state.completion_tick is None,
            old(self).state.diagnostic is None,
        ensures
            (final(self)@, applied_view(r)) == apply_spec(
                old(self)@,
                if remove {
                    Operation::Remove { x, y }
                } else {
                    Operation::Rotate { x, y }
                },
            ),
            factory_valid(final(self)@),
            final(self).preview_action == old(self).preview_action,
    {
        if !on_grid(x, y) {
            return Err(tile_text("OUT_OF_BOUNDS: tile (", x, y, ") must be x=0..11, y=0..7"));
        }
        let i = match find_at(&self.structures, x, y) {
            Some(i) => i,
            None => {
                return Err(tile_text("EMPTY_TILE: tile (", x, y, ") has no structure"));
            },
        };
        proof {
            lemma_at_position(self.structures@, x as int, y as int);
        }
        let ghost v = self@;
        if self.structures[i].kind == Kind::Delivery {
            return Err("FIXED_DELIVERY: delivery cannot be rotated or removed".to_owned());
        }
        if remove {
            let slots = self.structures[i].slots;
            let ore = slots.count_items(Item::Ore);
            let plate = slots.count_items(Item::Plate);
            let discarded_ore = match self.state.discarded_ore.checked_add(ore) {
                Some(c) => c,
                None => {
                    return Err("COUNTER_OVERFLOW: discarded ore".to_owned());
                },
            };
            let discarded_plate = match self.state.discarded_plate.checked_add(plate) {
                Some(c) => c,
                None => {
                    return Err("COUNTER_OVERFLOW: discarded plate".to_owned());
                },
            };
            proof {
                lemma_remove_valid(v, i as int, ore as nat, plate as nat);
            }
            self.state.discarded_ore = discarded_ore;
            self.state.discarded_plate = discarded_plate;
            self.structures.remove(i);
            Ok(Applied::Removed { x, y, ore, plate })
        } else {
            proof {
                lemma_rotate_valid(v, i as int);
            }
            let mut t = self.structures[i];
            t.facing = t.facing.clockwise();
            self.structures.set(i, t);
            Ok(Applied::Tile { x, y })
        }
    }

    /// Applies one player operation at a safe boundary, as `apply_spec`
    /// states; a rejected operation changes nothing.
    pub fn apply(&mut self, op: Operation) -> (r: Result<Applied, String>)
        requires
            factory_valid(old(self)@),
            op is Restart ==> old(self).state.epoch < u64::MAX,
        ensures
            (final(self)@, applied_view(r)) == apply_spec(old(self)@, op),
            factory_valid(final(self)@),
            final(self).preview_action == old(self).preview_action,
    {
        let constructing = match op {
            Operation::Place { .. } | Operation::Rotate { .. } | Operation::Remove { .. } | Operation::Select {
                ..
            } => true,
            _ => false,
        };
        if self.state.completion_tick.is_some() && constructing {
            return Err("COMPLETE: restart before construction".to_owned());
        }
        if let Some(d) = self.state.diagnostic {
            let allowed = match op {
                Operation::Inspect { .. } | Operation::Restart => true,
                _ => false,
            };
            if !allowed {
                return Err(d.message().to_owned());
            }
        }
        match op {
            Operation::Place { kind, x, y, facing } => self.place(kind, x, y, facing),
            Operation::Rotate { x, y } => self.rotate_or_remove(x, y, false),
            Operation::Remove { x, y } => self.rotate_or_remove(x, y, true),
            Operation::Inspect { x, y } => {
                if !on_grid(x, y) {
                    Err(tile_text("OUT_OF_BOUNDS: tile (", x, y, ") must be x=0..11, y=0..7"))
                } else {
                    Ok(Applied::Tile { x, y })
                }
            },
            Operation::Select { kind, facing } => {
                if kind == Some(Kind::Delivery) {
                    return Err("FIXED_DELIVERY: choose conveyor, extractor or processor".to_owned());
                }
                if let Some(k) = kind {
                    self.state.selection.kind = k;
                }
                if let Some(f) = facing {
                    self.state.selection.facing = f;
                }
                proof {
                    assert(slots_of(self.structures@) == slots_of(old(self).structures@));
                }
                Ok(Applied::Selected(self.state.selection))
            },
            Operation::Advance { ticks } => {
                if ticks > ADVANCE_LIMIT {
                    return Err("ADVANCE_LIMIT: use at most 36000 ticks per operation".to_owned());
                }
                self.advance(ticks as u64);
                match self.state.diagnostic {
                    Some(d) => Err(d.message().to_owned()),
                    None => Ok(Applied::Advanced { tick: self.state.tick }),
                }
            },
            Operation::Restart => {
                self.restart();
                Ok(Applied::Restarted)
            },
        }
    }
}

impl Factory {
    /// Places `t` in row-then-column order.
    fn insert_structure(&mut self, t: Structure)
        requires
            structures_valid(old(self).structures@),
            at_position(old(self).structures@, t.x as int, t.y as int) is None,
        ensures
            final(self).structures@ == insert_ordered(old(self).structures@, t),
            final(self).state == old(self).state,
            final(self).preview_action == old(self).preview_action,
    {
        let ghost v = self@;
        proof {
            lemma_ordered_position(v.0, t);
        }
        let n = self.structures.len();
        let mut k: usize = 0;
        while k < n && !(t.y < self.structures[k].y || (t.y == self.structures[k].y && t.x < self.structures[k].x))
            invariant
                self.preview_action == old(self).preview_action,
                n == v.0.len(),
                self@ == v,
                k <= ordered_position(v.0, t),
                ordered_position(v.0, t) <= n,
                forall|i: int| ordered_position(v.0, t) <= i < n ==> precedes(t, #[trigger] v.0[i]),
                forall|i: int| 0 <= i < ordered_position(v.0, t) ==> precedes(#[trigger] v.0[i], t),
            decreases n - k,
        {
            proof {
                if k == ordered_position(v.0, t) && k < n {
                    assert(precedes(t, v.0[k as int]));
                }
            }
            k += 1;
        }
        proof {
            if k < ordered_position(v.0, t) {
                assert(precedes(v.0[k as int], t));
            }
        }
        self.structures.insert(k, t);
        proof {
            assert(self.structures@ =~= insert_ordered(v.0, t));
        }
    }

    /// Adds a structure holding `slots` on a free tile, counting its items as
    /// seeded; a taken tile, an off-grid tile, or a full seeded count leaves
    /// the factory unchanged.
    fn seed(&mut self, kind: Kind, x: i32, y: i32, facing: Facing, slots: Slots)
        requires
            factory_valid(old(self)@),
        ensures
            factory_valid(final(self)@),
            final(self)@ == seeded(old(self)@, seeded_structure(kind, x, y, facing, slots)),
            final(self).state == (FactoryState { seeded: final(self).state.seeded, ..old(self).state }),
            final(self).preview_action == old(self).preview_action,
    {
        reveal(seeded);
        if !on_grid(x, y) || find_at(&self.structures, x, y).is_some() {
            return;
        }
        let mut t = Structure::new(kind, x, y, facing);
        t.slots = slots;
        let count = t.slots.items().len() as u64;
        let seeded = match self.state.seeded.checked_add(count) {
            Some(c) => c,
            None => {
                return;
            },
        };
        proof {
            lemma_insert_valid(self@, t);
        }
        self.insert_structure(t);
        self.state.seeded = seeded;
    }
}

/// A new structure holding `slots`, as fixtures seed it.
pub open spec fn seeded_structure(kind: Kind, x: i32, y: i32, facing: Facing, slots: Slots) -> Structure {
    Structure { x, y, kind, facing, slots, progress: 0, remaining: 0, last_transfer_reason: None }
}

/// The factory after seeding `t`: on a free tile of the grid, with its items
/// counted as seeded, when the count stays in range; otherwise unchanged.
#[verifier::opaque]
pub open spec fn seeded(v: FactoryView, t: Structure) -> FactoryView {
    if in_grid(t.x as int, t.y as int) && at_position(v.0, t.x as int, t.y as int) is None && v.1.seeded
        + t.slots.count() <= u64::MAX {
        (insert_ordered(v.0, t), FactoryState { seeded: (v.1.seeded + t.slots.count()) as u64, ..v.1 })
    } else {
        v
    }
}

/// The names of the transport fixtures.
pub open spec fn transport_fixture_name(n: Seq<char>) -> bool {
    n == "single"@ || n == "snapshot"@ || n == "contention"@ || n == "cycle_partial"@ || n == "cycle_full"@ || n
        == "disconnected"@ || n == "ports"@
}

/// The names of the production fixtures.
pub open spec fn production_fixture_name(n: Seq<char>) -> bool {
    n == "isolated_extractor"@ || n == "extractor_blocked"@ || n == "processor_input"@ || n
        == "processor_blocked"@ || n == "processor_full"@
}

fn is_named(name: &String, word: &str) -> (r: bool)
    ensures
        r == (name@ == word@),
{
    let expected = word.to_owned();
    *name == expected
}

/// A conveyor, processor or extractor as a transport fixture seeds it, with
/// `output` in its output slot.
pub open spec fn fixture_part(kind: Kind, x: i32, y: i32, facing: Facing, output: Option<Item>) -> Structure {
    seeded_structure(kind, x, y, facing, Slots { input: None, in_process: None, output })
}

/// A new game seeded, in order, with the structures that the transport
/// fixture `name` names, before production is disabled.
pub open spec fn transport_fixture_seeding(name: Seq<char>) -> FactoryView {
    let ore = Some(Item::Ore);
    let plate = Some(Item::Plate);
    let none = None::<Item>;
    let v = fresh(1);
    if name == "single"@ || name == "snapshot"@ {
        let second = if name == "snapshot"@ { ore } else { none };
        seeded(
            seeded(seeded(v, fixture_part(Kind::Conveyor, 2, 2, Facing::E, ore)), fixture_part(Kind::Conveyor, 3, 2, Facing::E, second)),
            fixture_part(Kind::Conveyor, 4, 2, Facing::E, none),
        )
    } else if name == "contention"@ {
        seeded(
            seeded(
                seeded(seeded(v, fixture_part(Kind::Conveyor, 3, 2, Facing::S, ore)), fixture_part(Kind::Conveyor, 2, 3, Facing::E, plate)),
                fixture_part(Kind::Conveyor, 3, 3, Facing::E, none),
            ),
            fixture_part(Kind::Conveyor, 4, 3, Facing::E, none),
        )
    } else if name == "cycle_partial"@ || name == "cycle_full"@ {
        let rest = if name == "cycle_full"@ { ore } else { none };
        seeded(
            seeded(
                seeded(seeded(v, fixture_part(Kind::Conveyor, 2, 2, Facing::E, ore)), fixture_part(Kind::Conveyor, 3, 2, Facing::S, rest)),
                fixture_part(Kind::Conveyor, 3, 3, Facing::W, rest),
            ),
            fixture_part(Kind::Conveyor, 2, 3, Facing::N, rest),
        )
    } else if name == "disconnected"@ {
        seeded(seeded(v, fixture_part(Kind::Conveyor, 0, 0, Facing::W, ore)), fixture_part(Kind::Conveyor, 6, 5, Facing::E, plate))
    } else {
        seeded(
            seeded(
                seeded(
                    seeded(
                        seeded(
                            seeded(
                                seeded(v, fixture_part(Kind::Conveyor, 2, 0, Facing::E, ore)),
                                fixture_part(Kind::Conveyor, 3, 0, Facing::W, none),
                            ),
                            fixture_part(Kind::Conveyor, 5, 0, Facing::E, plate),
                        ),
                        fixture_part(Kind::Processor, 6, 0, Facing::E, none),
                    ),
                    fixture_part(Kind::Extractor, 1, 3, Facing::E, ore),
                ),
                fixture_part(Kind::Processor, 2, 3, Facing::E, none),
            ),
            fixture_part(Kind::Conveyor, 9, 3, Facing::E, plate),
        )
    }
}

/// The one machine a production fixture seeds: an extractor on the deposit
/// (1, 3), its output holding ore exactly for `extractor_blocked`; or a
/// processor at (5, 3) with ore in its input, ore in process exactly for
/// `processor_full`, and a plate in its output for `processor_blocked` and
/// `processor_full`. Both face east.
pub open spec fn production_fixture_machine(name: Seq<char>) -> Structure {
    if name == "isolated_extractor"@ || name == "extractor_blocked"@ {
        seeded_structure(
            Kind::Extractor,
            1,
            3,
            Facing::E,
            Slots {
                input: None,
                in_process: None,
                output: if name == "extractor_blocked"@ { Some(Item::Ore) } else { None },
            },
        )
    } else {
        seeded_structure(
            Kind::Processor,
            5,
            3,
            Facing::E,
            Slots {
                input: Some(Item::Ore),
                in_process: if name == "processor_full"@ { Some(Item::Ore) } else { None },
                output: if name == "processor_blocked"@ || name == "processor_full"@ { Some(Item::Plate) } else { None },
            },
        )
    }
}

fn holding(output: Option<Item>) -> (r: Slots)
    ensures
        r == (Slots { input: None, in_process: None, output }),
{
    Slots { input: None, in_process: None, output }
}

/// A seeded transport-only setup, with production disabled.
pub fn build_transport_fixture(name: &str) -> (r: Result<Factory, String>)
    ensures
        r is Ok <==> transport_fixture_name(name@),
        r matches Err(m) ==> m@
            == "UNKNOWN_TRANSPORT_FIXTURE: use single, snapshot, contention, cycle_partial, cycle_full, disconnected or ports"@,
        r matches Ok(f) ==> {
            &&& factory_valid(f@)
            &&& f.state == (FactoryState { seeded: f.state.seeded, production_enabled: false, ..initial_state(1) })
            &&& f@ == (transport_fixture_seeding(name@).0, FactoryState {
                production_enabled: false,
                ..transport_fixture_seeding(name@).1
            })
        },
{
    let n = name.to_owned();
    let mut f = Factory::new();
    let ore = Some(Item::Ore);
    let plate = Some(Item::Plate);
    if is_named(&n, "single") || is_named(&n, "snapshot") {
        let snapshot = is_named(&n, "snapshot");
        f.seed(Kind::Conveyor, 2, 2, Facing::E, holding(ore));
        f.seed(Kind::Conveyor, 3, 2, Facing::E, holding(if snapshot { ore } else { None }));
        f.seed(Kind::Conveyor, 4, 2, Facing::E, holding(None));
    } else if is_named(&n, "contention") {
        f.seed(Kind::Conveyor, 3, 2, Facing::S, holding(ore));
        f.seed(Kind::Conveyor, 2, 3, Facing::E, holding(plate));
        f.seed(Kind::Conveyor, 3, 3, Facing::E, holding(None));
        f.seed(Kind::Conveyor, 4, 3, Facing::E, holding(None));
    } else if is_named(&n, "cycle_partial") || is_named(&n, "cycle_full") {
        let full = is_named(&n, "cycle_full");
        let rest = if full { ore } else { None };
        f.seed(Kind::Conveyor, 2, 2, Facing::E, holding(ore));
        f.seed(Kind::Conveyor, 3, 2, Facing::S, holding(rest));
        f.seed(Kind::Conveyor, 3, 3, Facing::W, holding(rest));
        f.seed(Kind::Conveyor, 2, 3, Facing::N, holding(rest));
    } else if is_named(&n, "disconnected") {
        f.seed(Kind::Conveyor, 0, 0, Facing::W, holding(ore));
        f.seed(Kind::Conveyor, 6, 5, Facing::E, holding(plate));
    } else if is_named(&n, "ports") {
        f.seed(Kind::Conveyor, 2, 0, Facing::E, holding(ore));
        f.seed(Kind::Conveyor, 3, 0, Facing::W, holding(None));
        f.seed(Kind::Conveyor, 5, 0, Facing::E, holding(plate));
        f.seed(Kind::Processor, 6, 0, Facing::E, holding(None));
        f.seed(Kind::Extractor, 1, 3, Facing::E, holding(ore));
        f.seed(Kind::Processor, 2, 3, Facing::E, holding(None));
        f.seed(Kind::Conveyor, 9, 3, Facing::E, holding(plate));
    } else {
        return Err(
            "UNKNOWN_TRANSPORT_FIXTURE: use single, snapshot, contention, cycle_partial, cycle_full, disconnected or ports".to_owned(),
        );
    }
    f.state.production_enabled = false;
    Ok(f)
}

/// A seeded production setup: an extractor on the deposit or a processor
/// at (5, 3), facing east.
pub fn build_production_fixture(name: &str) -> (r: Result<Factory, String>)
    ensures
        r is Ok <==> production_fixture_name(name@),
        r matches Err(m) ==> m@
            == "UNKNOWN_PRODUCTION_FIXTURE: use isolated_extractor, extractor_blocked, processor_input, processor_blocked or processor_full"@,
        r matches Ok(f) ==> {
            &&& factory_valid(f@)
            &&& f.state == (FactoryState { seeded: f.state.seeded, ..initial_state(1) })
            &&& f@ == seeded(fresh(1), production_fixture_machine(name@))
        },
{
    let n = name.to_owned();
    let extractor = is_named(&n, "isolated_extractor") || is_named(&n, "extractor_blocked");
    let processor = is_named(&n, "processor_input") || is_named(&n, "processor_blocked") || is_named(
        &n,
        "processor_full",
    );
    if !extractor && !processor {
        return Err(
            "UNKNOWN_PRODUCTION_FIXTURE: use isolated_extractor, extractor_blocked, processor_input, processor_blocked or processor_full".to_owned(),
        );
    }
    let mut f = Factory::new();
    let blocked = is_named(&n, "processor_blocked") || is_named(&n, "processor_full");
    let slots = if extractor {
        Slots {
            input: None,
            in_process: None,
            output: if is_named(&n, "extractor_blocked") {
                Some(Item::Ore)
            } else {
                None
            },
        }
    } else {
        Slots {
            input: Some(Item::Ore),
            in_process: if is_named(&n, "processor_full") {
                Some(Item::Ore)
            } else {
                None
            },
            output: if blocked {
                Some(Item::Plate)
            } else {
                None
            },
        }
    };
    if extractor {
        f.seed(Kind::Extractor, 1, 3, Facing::E, slots);
    } else {
        f.seed(Kind::Processor, 5, 3, Facing::E, slots);
    }
    Ok(f)
}

/// What a machine is doing, for status displays.
pub open spec fn machine_status_spec(st: FactoryState, s: Structure) -> Seq<char> {
    if st.completion_tick is Some {
        "complete"@
    } else if st.diagnostic is Some {
        "stopped"@
    } else if !st.production_enabled && (s.kind == Kind::Extractor || s.kind == Kind::Processor) {
        "production_disabled"@
    } else {
        match s.kind {
            Kind::Extractor => if s.slots.output is Some {
                "output_blocked"@
            } else {
                "extracting"@
            },
            Kind::Processor => if s.slots.in_process is Some && s.remaining == 0 {
                "finished_batch_blocked"@
            } else if s.slots.in_process is Some {
                "processing"@
            } else if s.slots.output is Some {
                "output_blocked"@
            } else {
                "waiting_for_ore"@
            },
            Kind::Conveyor => "transport"@,
            Kind::Delivery => "receiving"@,
        }
    }
}

/// Why the item of the structure at a tile will or will not move at the next
/// boundary, or that the run is complete.
pub open spec fn transport_reason_spec(v: FactoryView, i: int) -> Seq<char> {
    if v.1.completion_tick is Some {
        "complete"@
    } else {
        match planned(v.0, v.1.delivered, i) {
            Ok(_) => "ready"@,
            Err(r) => crate::factory::reason_name(r),
        }
    }
}

impl Factory {
    /// What machine `s` is doing.
    pub fn machine_status(&self, s: &Structure) -> (r: &'static str)
        ensures
            r@ == machine_status_spec(self.state, *s),
    {
        if self.state.completion_tick.is_some() {
            return "complete";
        }
        if self.state.diagnostic.is_some() {
            return "stopped";
        }
        if !self.state.production_enabled && (s.kind == Kind::Extractor || s.kind == Kind::Processor) {
            return "production_disabled";
        }
        match s.kind {
            Kind::Extractor => if s.slots.output.is_some() {
                "output_blocked"
            } else {
                "extracting"
            },
            Kind::Processor => if s.slots.in_process.is_some() && s.remaining == 0 {
                "finished_batch_blocked"
            } else if s.slots.in_process.is_some() {
                "processing"
            } else if s.slots.output.is_some() {
                "output_blocked"
            } else {
                "waiting_for_ore"
            },
            Kind::Conveyor => "transport",
            Kind::Delivery => "receiving",
        }
    }

    /// The structure on tile `(x, y)`.
    pub fn structure_at(&self, x: i32, y: i32) -> (r: Option<Structure>)
        ensures
            match at_position(self.structures@, x as int, y as int) {
                Some(i) => r == Some(self.structures@[i]),
                None => r is None,
            },
    {
        proof {
            lemma_at_position(self.structures@, x as int, y as int);
        }
        match find_at(&self.structures, x, y) {
            Some(i) => Some(self.structures[i]),
            None => None,
        }
    }

    /// The transport reason of the structure on tile `(x, y)`.
    pub fn transport_reason(&self, x: i32, y: i32) -> (r: Option<&'static str>)
        requires
            factory_valid(self@),
        ensures
            match at_position(self.structures@, x as int, y as int) {
                Some(i) => r matches Some(t) && t@ == transport_reason_spec(self@, i),
                None => r is None,
            },
    {
        proof {
            lemma_at_position(self.structures@, x as int, y as int);
        }
        let i = match find_at(&self.structures, x, y) {
            Some(i) => i,
            None => {
                return None;
            },
        };
        if self.state.completion_tick.is_some() {
            return Some("complete");
        }
        let plans = plan(&self.structures, self.state.delivered);
        match plans[i] {
            Ok(_) => Some("ready"),
            Err(reason) => Some(reason.name()),
        }
    }
}

/// A previewed pointer action.
#[derive(Clone, Copy, Debug, PartialEq, Eq, Structural)]
pub enum PreviewAction {
    Place,
    Rotate,
    Remove,
    Inspect,
}

impl PreviewAction {
    /// The action that `name` selects, if any.
    pub fn named(name: &str) -> (r: Option<PreviewAction>)
        ensures
            r == preview_action(name@),
    {
        let name = name.to_owned();
        if is_named(&name, "place") {
            Some(PreviewAction::Place)
        } else if is_named(&name, "rotate") {
            Some(PreviewAction::Rotate)
        } else if is_named(&name, "remove") {
            Some(PreviewAction::Remove)
        } else if is_named(&name, "inspect") {
            Some(PreviewAction::Inspect)
        } else {
            None
        }
    }
}

impl Factory {
    /// Chooses the pointer action that hover previews show; an unknown name
    /// is refused and changes nothing.
    pub fn set_preview_action(&mut self, action: &str) -> (r: Result<(), String>)
        ensures
            final(self)@ == old(self)@,
            preview_action(action@) matches Some(a) ==> (r is Ok && final(self).preview_action == a),
            preview_action(action@) is None ==> (r matches Err(m) && m@
                == "INVALID_POINTER_ACTION: use place, rotate, remove or inspect"@
                && final(self).preview_action == old(self).preview_action),
    {
        match PreviewAction::named(action) {
            Some(a) => {
                self.preview_action = a;
                Ok(())
            },
            None => Err("INVALID_POINTER_ACTION: use place, rotate, remove or inspect".to_owned()),
        }
    }
}

/// The action a name selects.
pub open spec fn preview_action(name: Seq<char>) -> Option<PreviewAction> {
    if name == "place"@ {
        Some(PreviewAction::Place)
    } else if name == "rotate"@ {
        Some(PreviewAction::Rotate)
    } else if name == "remove"@ {
        Some(PreviewAction::Remove)
    } else if name == "inspect"@ {
        Some(PreviewAction::Inspect)
    } else {
        None
    }
}

/// Why a previewed action at `(x, y)` would be refused.
pub open spec fn preview_error(v: FactoryView, x: int, y: int, action: Option<PreviewAction>) -> Option<Seq<char>> {
    let found = at_position(v.0, x, y);
    if !in_grid(x, y) {
        Some("Outside the grid."@)
    } else if action is None {
        Some("Choose Build, Inspect, Rotate or Remove."@)
    } else if action != Some(PreviewAction::Inspect) && v.1.completion_tick is Some {
        Some("Complete. Restart to build a new factory."@)
    } else if action != Some(PreviewAction::Inspect) && v.1.diagnostic is Some {
        Some("Simulation stopped. Restart to recover."@)
    } else if action == Some(PreviewAction::Place) && found is Some {
        Some("Occupied. Inspect, rotate or remove this structure first."@)
    } else if action == Some(PreviewAction::Place) && (v.1.selection.kind == Kind::Extractor) != (x == 1 && y
        == 3) {
        Some("Extractors require the ore deposit (1,3). Conveyors and processors require ground."@)
    } else if (action == Some(PreviewAction::Rotate) || action == Some(PreviewAction::Remove)) && found is None {
        Some("Empty tile. Choose a structure."@)
    } else if (action == Some(PreviewAction::Rotate) || action == Some(PreviewAction::Remove)) && v.0[found->0].kind
        == Kind::Delivery {
        Some("Delivery is fixed; it cannot be rotated or removed."@)
    } else {
        None
    }
}

/// A preview of a pointer action, as players read it.
#[derive(Clone, Debug, PartialEq, Eq)]
pub struct Preview {
    pub valid: bool,
    pub label: String,
    pub detail: String,
    pub facing: Facing,
    pub discarded_ore: u64,
    pub discarded_plate: u64,
}

/// The name of a kind, as debug output spells it.
pub open spec fn kind_name(k: Kind) -> Seq<char> {
    match k {
        Kind::Conveyor => "Conveyor"@,
        Kind::Extractor => "Extractor"@,
        Kind::Processor => "Processor"@,
        Kind::Delivery => "Delivery"@,
    }
}

/// The name of a facing, as debug output spells it.
pub open spec fn facing_name(f: Facing) -> Seq<char> {
    match f {
        Facing::N => "N"@,
        Facing::E => "E"@,
        Facing::S => "S"@,
        Facing::W => "W"@,
    }
}

fn kind_text(k: Kind) -> (r: &'static str)
    ensures
        r@ == kind_name(k),
{
    match k {
        Kind::Conveyor => "Conveyor",
        Kind::Extractor => "Extractor",
        Kind::Processor => "Processor",
        Kind::Delivery => "Delivery",
    }
}

pub(crate) fn facing_text(f: Facing) -> (r: &'static str)
    ensures
        r@ == facing_name(f),
{
    match f {
        Facing::N => "N",
        Facing::E => "E",
        Facing::S => "S",
        Facing::W => "W",
    }
}

/// What a valid previewed action would do.
pub open spec fn preview_detail(
    v: FactoryView,
    x: int,
    y: int,
    action: PreviewAction,
    facing: Facing,
    ore: nat,
    plate: nat,
) -> Seq<char> {
    let at = "("@ + signed_decimal(x) + ","@ + signed_decimal(y) + ")"@;
    match action {
        PreviewAction::Place => "Build "@ + kind_name(v.1.selection.kind) + " at "@ + at + ", facing "@ + facing_name(facing)
            + ". Arrows mark output; blue marks input."@,
        PreviewAction::Rotate => "Rotate clockwise to "@ + facing_name(facing) + "; items and work are preserved."@,
        PreviewAction::Remove => "Remove "@ + at + ". Discards "@ + decimal(ore) + " ore and "@ + decimal(plate)
            + " plates, including in-process ore."@,
        PreviewAction::Inspect => "Inspect "@ + at + " and pin its live details."@,
    }
}

impl Factory {
    /// Previews the pointer action named `action` at `(x, y)` without
    /// changing anything.
    pub fn preview(&self, x: i32, y: i32, action: &str) -> (r: Preview)
        ensures
            ({
                let v = self@;
                let a = preview_action(action@);
                let found = at_position(v.0, x as int, y as int);
                let facing = if a == Some(PreviewAction::Rotate) && found is Some {
                    spec_clockwise(v.0[found->0].facing)
                } else {
                    v.1.selection.facing
                };
                let ore = if found is Some { v.0[found->0].slots.count_of(Item::Ore) } else { 0 };
                let plate = if found is Some { v.0[found->0].slots.count_of(Item::Plate) } else { 0 };
                &&& r.valid == (preview_error(v, x as int, y as int, a) is None)
                &&& r.facing == facing
                &&& r.discarded_ore == (if a == Some(PreviewAction::Remove) { ore } else { 0 })
                &&& r.discarded_plate == (if a == Some(PreviewAction::Remove) { plate } else { 0 })
                &&& match preview_error(v, x as int, y as int, a) {
                    Some(e) => r.detail@ == e && r.label@ == "Cannot perform action"@,
                    None => r.detail@ == preview_detail(v, x as int, y as int, a->0, facing, ore, plate)
                        && r.label@ == match a->0 {
                        PreviewAction::Place => "Build preview"@,
                        PreviewAction::Rotate => "Rotation preview"@,
                        PreviewAction::Remove => "Removal preview"@,
                        PreviewAction::Inspect => "Inspect tile"@,
                    },
                }
            }),
    {
        proof {
            lemma_at_position(self.structures@, x as int, y as int);
        }
        let a = PreviewAction::named(action);
        let found = match find_at(&self.structures, x, y) {
            Some(i) => Some(self.structures[i]),
            None => None,
        };
        let constructing = a != Some(PreviewAction::Inspect);
        let edits = a == Some(PreviewAction::Rotate) || a == Some(PreviewAction::Remove);
        let error: Option<&'static str> = if !on_grid(x, y) {
            Some("Outside the grid.")
        } else if a.is_none() {
            Some("Choose Build, Inspect, Rotate or Remove.")
        } else if constructing && self.state.completion_tick.is_some() {
            Some("Complete. Restart to build a new factory.")
        } else if constructing && self.state.diagnostic.is_some() {
            Some("Simulation stopped. Restart to recover.")
        } else if a == Some(PreviewAction::Place) && found.is_some() {
            Some("Occupied. Inspect, rotate or remove this structure first.")
        } else if a == Some(PreviewAction::Place) && (self.state.selection.kind == Kind::Extractor) != (x == 1
            && y == 3) {
            Some("Extractors require the ore deposit (1,3). Conveyors and processors require ground.")
        } else if edits && found.is_none() {
            Some("Empty tile. Choose a structure.")
        } else if edits && found.is_some() && found.unwrap().kind == Kind::Delivery {
            Some("Delivery is fixed; it cannot be rotated or removed.")
        } else {
            None
        };
        let facing = match found {
            Some(s) => if a == Some(PreviewAction::Rotate) {
                s.facing.clockwise()
            } else {
                self.state.selection.facing
            },
            None => self.state.selection.facing,
        };
        let (ore, plate) = match found {
            Some(s) => (s.slots.count_items(Item::Ore), s.slots.count_items(Item::Plate)),
            None => (0, 0),
        };
        let removing = a == Some(PreviewAction::Remove);
        match error {
            Some(e) => Preview {
                valid: false,
                label: "Cannot perform action".to_owned(),
                detail: e.to_owned(),
                facing,
                discarded_ore: if removing { ore } else { 0 },
                discarded_plate: if removing { plate } else { 0 },
            },
            None => {
                let at = "(".to_owned().concat(signed_decimal_text(x).as_str()).concat(",").concat(
                    signed_decimal_text(y).as_str(),
                ).concat(")");
                let (label, detail) = match a {
                    Some(PreviewAction::Place) => (
                        "Build preview",
                        "Build ".to_owned().concat(kind_text(self.state.selection.kind)).concat(" at ").concat(
                            at.as_str(),
                        ).concat(", facing ").concat(facing_text(facing)).concat(
                            ". Arrows mark output; blue marks input.",
                        ),
                    ),
                    Some(PreviewAction::Rotate) => (
                        "Rotation preview",
                        "Rotate clockwise to ".to_owned().concat(facing_text(facing)).concat(
                            "; items and work are preserved.",
                        ),
                    ),
                    Some(PreviewAction::Remove) => (
                        "Removal preview",
                        "Remove ".to_owned().concat(at.as_str()).concat(". Discards ").concat(
                            decimal_text(ore).as_str(),
                        ).concat(" ore and ").concat(decimal_text(plate).as_str()).concat(
                            " plates, including in-process ore.",
                        ),
                    ),
                    _ => ("Inspect tile", "Inspect ".to_owned().concat(at.as_str()).concat(" and pin its live details.")),
                };
                Preview {
                    valid: true,
                    label: label.to_owned(),
                    detail,
                    facing,
                    discarded_ore: if removing { ore } else { 0 },
                    discarded_plate: if removing { plate } else { 0 },
                }
            },
        }
    }
}

/// A rejected operation other than an advance leaves the factory unchanged.
pub proof fn law_rejections_preserve_state(v: FactoryView, op: Operation)
    requires
        !(op is Advance),
        apply_spec(v, op).1 is Err,
    ensures
        apply_spec(v, op).0 == v,
{
}

/// A complete run is frozen: ticks change nothing.
pub proof fn law_complete_run_is_frozen(v: FactoryView, n: nat)
    requires
        v.1.completion_tick is Some,
    ensures
        advance_spec(v, n) == v,
    decreases n,
{
    if n > 0 {
        law_complete_run_is_frozen(v, (n - 1) as nat);
    }
}

/// A stopped run is frozen: ticks change nothing.
pub proof fn law_stopped_run_is_frozen(v: FactoryView, n: nat)
    requires
        v.1.diagnostic is Some,
    ensures
        advance_spec(v, n) == v,
    decreases n,
{
    if n > 0 {
        law_stopped_run_is_frozen(v, (n - 1) as nat);
    }
}

/// Camera keys held during a run; keys held in an earlier run are dropped.
#[derive(Clone, Copy, Debug, PartialEq, Eq, Structural)]
pub struct InteractiveInput {
    pub up: bool,
    pub down: bool,
    pub left: bool,
    pub right: bool,
    pub epoch: u64,
}

/// The camera key a name selects.
pub open spec fn key_index(name: Seq<char>) -> Option<int> {
    if name == "up"@ {
        Some(0)
    } else if name == "down"@ {
        Some(1)
    } else if name == "left"@ {
        Some(2)
    } else if name == "right"@ {
        Some(3)
    } else {
        None
    }
}

impl InteractiveInput {
    /// No keys held, bound to the factory's current run.
    pub fn for_factory(factory: &Factory) -> (r: InteractiveInput)
        ensures
            r == (InteractiveInput { up: false, down: false, left: false, right: false, epoch: factory.state.epoch }),
    {
        InteractiveInput { up: false, down: false, left: false, right: false, epoch: factory.state.epoch }
    }

    /// Releases every key.
    pub fn clear(&mut self)
        ensures
            *final(self) == (InteractiveInput { up: false, down: false, left: false, right: false, ..*old(self) }),
    {
        self.up = false;
        self.down = false;
        self.left = false;
        self.right = false;
    }

    fn sync_epoch(&mut self, factory: &Factory)
        ensures
            *final(self) == if old(self).epoch != factory.state.epoch {
                InteractiveInput { up: false, down: false, left: false, right: false, epoch: factory.state.epoch }
            } else {
                *old(self)
            },
    {
        if self.epoch != factory.state.epoch {
            self.clear();
            self.epoch = factory.state.epoch;
        }
    }

    /// Presses or releases the key named `name`, after dropping keys of an
    /// earlier run; an unknown name changes nothing.
    pub fn set_action(&mut self, factory: &Factory, name: &str, pressed: bool) -> (r: Result<(), String>)
        ensures
            key_index(name@) is None ==> (r matches Err(m) && m@ == "unknown action: "@ + name@ && *final(self)
                == *old(self)),
            key_index(name@) matches Some(k) ==> (r is Ok && {
                let base = if old(self).epoch != factory.state.epoch {
                    InteractiveInput { up: false, down: false, left: false, right: false, epoch: factory.state.epoch }
                } else {
                    *old(self)
                };
                *final(self) == if k == 0 {
                    InteractiveInput { up: pressed, ..base }
                } else if k == 1 {
                    InteractiveInput { down: pressed, ..base }
                } else if k == 2 {
                    InteractiveInput { left: pressed, ..base }
                } else {
                    InteractiveInput { right: pressed, ..base }
                }
            }),
    {
        let key = name.to_owned();
        let k: usize = if is_named(&key, "up") {
            0
        } else if is_named(&key, "down") {
            1
        } else if is_named(&key, "left") {
            2
        } else if is_named(&key, "right") {
            3
        } else {
            return Err("unknown action: ".to_owned().concat(name));
        };
        self.sync_epoch(factory);
        if k == 0 {
            self.up = pressed;
        } else if k == 1 {
            self.down = pressed;
        } else if k == 2 {
            self.left = pressed;
        } else {
            self.right = pressed;
        }
        Ok(())
    }

    /// Releases the key named `name`.
    pub fn cancel_action(&mut self, factory: &Factory, name: &str) -> (r: Result<(), String>)
        ensures
            key_index(name@) is None <==> r is Err,
    {
        self.set_action(factory, name, false)
    }

    /// The camera pan of this tick, in steps of four pixels, after dropping
    /// keys of an earlier run: left minus right, up minus down.
    pub fn pan(&mut self, factory: &Factory) -> (r: (i32, i32))
        ensures
            ({
                let base = if old(self).epoch != factory.state.epoch {
                    InteractiveInput { up: false, down: false, left: false, right: false, epoch: factory.state.epoch }
                } else {
                    *old(self)
                };
                &&& *final(self) == base
                &&& r.0 == (if base.left { 1int } else { 0 }) - (if base.right { 1int } else { 0 })
                &&& r.1 == (if base.up { 1int } else { 0 }) - (if base.down { 1int } else { 0 })
            }),
    {
        self.sync_epoch(factory);
        let x: i32 = (if self.left { 1 } else { 0 }) - (if self.right { 1 } else { 0 });
        let y: i32 = (if self.up { 1 } else { 0 }) - (if self.down { 1 } else { 0 });
        (x, y)
    }
}

} // verus!
