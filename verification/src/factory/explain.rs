//! Read-only explanations for players: why a structure's output does or
//! does not connect, and what a machine is waiting for.
use vstd::prelude::*;

use vstd::string::StringExecFns;

use crate::factory::game::{facing_name, facing_text, precedes, Factory, FactoryState, Tile};
use crate::factory::transport::{at_position, find_at, lemma_at_position};
use crate::factory::{in_grid, spec_delta, spec_opposite, Facing, Item, Kind, Structure};
use crate::text::{signed_decimal, signed_decimal_text, spaced};

verus! {

broadcast use vstd::std_specs::vec::group_vec_axioms;

/// A structure's output connection, as players read it.
#[derive(Clone, Debug, PartialEq, Eq)]
pub struct Connection {
    pub code: String,
    pub label: String,
    pub detail: String,
    pub remedy: String,
    pub target: Option<Tile>,
    /// Sources able to feed the same target, in row-then-column order; the
    /// first wins.
    pub contenders: Vec<Tile>,
}

/// The text of a tile, such as `(3,2)`.
pub open spec fn tile_text(x: int, y: int) -> Seq<char> {
    "("@ + signed_decimal(x) + ","@ + signed_decimal(y) + ")"@
}

fn tile_string(x: i32, y: i32) -> (r: String)
    ensures
        r@ == tile_text(x as int, y as int),
{
    "(".to_owned().concat(signed_decimal_text(x).as_str()).concat(",").concat(
        signed_decimal_text(y).as_str(),
    ).concat(")")
}

/// Whether `d` takes the item of `other` through the face `other` outputs
/// into.
pub open spec fn takes_from(d: Structure, other: Structure) -> bool {
    &&& d.accepts(spec_opposite(other.facing))
    &&& !((d.kind == Kind::Processor && other.slots.output != Some(Item::Ore)) || (d.kind == Kind::Delivery
        && other.slots.output != Some(Item::Plate)))
}

/// The connection code of source `s`, whose transport reason is `reason`
/// and whose output faces `destination`.
pub open spec fn connection_code(s: Structure, destination: Option<Structure>, reason: Seq<char>) -> Seq<char> {
    if reason == "complete"@ {
        "complete"@
    } else if s.spec_output() is None {
        "no_output"@
    } else if destination is None {
        "disconnected"@
    } else if !destination->0.accepts(spec_opposite(s.facing)) {
        "wrong_facing"@
    } else if reason == "rejected_item_type"@ {
        "wrong_type"@
    } else if reason == "full_destination"@ {
        "full"@
    } else if reason == "contention"@ {
        "contended"@
    } else if reason == "empty_source"@ {
        "empty"@
    } else {
        "ready"@
    }
}

/// The sources among the first `n` structures that can feed `target`, a
/// tile on which `destination` stands.
pub open spec fn contenders_spec(
    s: Seq<Structure>,
    n: int,
    target: Option<(int, int)>,
    destination: Option<Structure>,
) -> Seq<Tile>
    decreases n,
{
    if n <= 0 {
        Seq::empty()
    } else {
        let before = contenders_spec(s, n - 1, target, destination);
        let other = s[n - 1];
        if other.spec_target() == target && other.slots.output is Some && destination is Some && takes_from(
            destination->0,
            other,
        ) {
            before.push(Tile { x: other.x, y: other.y })
        } else {
            before
        }
    }
}

/// Whether tile `a` comes before tile `b` in row-then-column order.
pub open spec fn tile_precedes(a: Tile, b: Tile) -> bool {
    a.y < b.y || (a.y == b.y && a.x < b.x)
}

/// Contenders are listed in row-then-column order, each the tile of one of
/// the first `n` structures, when the structures are in that order.
pub proof fn law_contenders_in_row_order(
    s: Seq<Structure>,
    n: int,
    target: Option<(int, int)>,
    destination: Option<Structure>,
)
    requires
        0 <= n <= s.len(),
        forall|i: int, j: int| 0 <= i < j < s.len() ==> precedes(#[trigger] s[i], #[trigger] s[j]),
    ensures
        forall|i: int|
            0 <= i < contenders_spec(s, n, target, destination).len() ==> exists|m: int|
                0 <= m < n && #[trigger] contenders_spec(s, n, target, destination)[i] == (Tile { x: s[m].x, y: s[m].y }),
        forall|i: int, j: int|
            0 <= i < j < contenders_spec(s, n, target, destination).len() ==> tile_precedes(
                #[trigger] contenders_spec(s, n, target, destination)[i],
                #[trigger] contenders_spec(s, n, target, destination)[j],
            ),
    decreases n,
{
    if n > 0 {
        law_contenders_in_row_order(s, n - 1, target, destination);
        let before = contenders_spec(s, n - 1, target, destination);
        let cs = contenders_spec(s, n, target, destination);
        let last = Tile { x: s[n - 1].x, y: s[n - 1].y };
        assert forall|i: int| 0 <= i < cs.len() implies exists|m: int|
            0 <= m < n && #[trigger] cs[i] == (Tile { x: s[m].x, y: s[m].y }) by {
            if i < before.len() {
                assert(cs[i] == before[i]);
                let m = choose|m: int| 0 <= m < n - 1 && #[trigger] before[i] == (Tile { x: s[m].x, y: s[m].y });
            } else {
                assert(cs[i] == last);
            }
        }
        assert forall|i: int, j: int| 0 <= i < j < cs.len() implies tile_precedes(
            #[trigger] cs[i],
            #[trigger] cs[j],
        ) by {
            assert(cs[i] == before[i]);
            if j < before.len() {
                assert(cs[j] == before[j]);
            } else {
                assert(cs[j] == last);
                let m = choose|m: int| 0 <= m < n - 1 && #[trigger] before[i] == (Tile { x: s[m].x, y: s[m].y });
                assert(precedes(s[m], s[n - 1]));
            }
        }
    }
}

/// The label, detail and remedy of a connection code, for a target text
/// and the winning contender's text.
pub open spec fn connection_words(code: Seq<char>, target: Seq<char>, winner: Seq<char>) -> (Seq<char>, Seq<char>, Seq<char>) {
    if code == "disconnected"@ {
        (
            "Disconnected"@,
            "Output faces "@ + target + ", which has no receiving structure."@,
            "Build a receiving neighbor or rotate the output toward the route."@,
        )
    } else if code == "wrong_facing"@ {
        (
            "Wrong facing"@,
            "The structure at "@ + target + " has no input on this touching face."@,
            "Rotate the receiver so its blue input faces this output, or reroute the source."@,
        )
    } else if code == "wrong_type"@ {
        (
            "Wrong item type"@,
            "The item cannot enter "@ + target + "; processors accept ore and delivery accepts plates."@,
            "Route ore through a processor before delivery; route plates away from processor inputs."@,
        )
    } else if code == "full"@ {
        (
            "Destination full"@,
            "The receiving slot at "@ + target + " is occupied at this tick boundary."@,
            "Inspect the downstream route and clear its blockage. A slot emptied this tick accepts again next tick."@,
        )
    } else if code == "contended"@ {
        (
            "Contended input"@,
            "Source "@ + winner + " wins the empty slot at "@ + target
                + " this tick (top row first, then leftmost)."@,
            "Wait for a later tick or reroute competing feeds to separate inputs; priority is fixed."@,
        )
    } else if code == "empty"@ {
        (
            "Connected; waiting for item"@,
            "Output connects to "@ + target + "; this source has no outgoing item."@,
            "Check the upstream supply or machine work progress."@,
        )
    } else if code == "complete"@ {
        ("Complete"@, "Ten plates delivered; all simulation is frozen."@, "Restart for a new run."@)
    } else if code == "no_output"@ {
        (
            "Delivery input only"@,
            "Accepts plates from the west; no output or buffer."@,
            "Connect a plate route to the west input."@,
        )
    } else {
        (
            "Ready to transfer"@,
            "The outgoing item can enter "@ + target + " on the next tick."@,
            "Advance a tick or resume."@,
        )
    }
}

fn connection_strings(code: &str, target: &str, winner: &str) -> (r: (String, String, String))
    ensures
        (r.0@, r.1@, r.2@) == connection_words(code@, target@, winner@),
{
    let c = code.to_owned();
    let is = |w: &str| -> (b: bool)
        ensures
            b == (c@ == w@),
        {
            let e = w.to_owned();
            c == e
        };
    if is("disconnected") {
        (
            "Disconnected".to_owned(),
            "Output faces ".to_owned().concat(target).concat(", which has no receiving structure."),
            "Build a receiving neighbor or rotate the output toward the route.".to_owned(),
        )
    } else if is("wrong_facing") {
        (
            "Wrong facing".to_owned(),
            "The structure at ".to_owned().concat(target).concat(" has no input on this touching face."),
            "Rotate the receiver so its blue input faces this output, or reroute the source.".to_owned(),
        )
    } else if is("wrong_type") {
        (
            "Wrong item type".to_owned(),
            "The item cannot enter ".to_owned().concat(target).concat(
                "; processors accept ore and delivery accepts plates.",
            ),
            "Route ore through a processor before delivery; route plates away from processor inputs.".to_owned(),
        )
    } else if is("full") {
        (
            "Destination full".to_owned(),
            "The receiving slot at ".to_owned().concat(target).concat(" is occupied at this tick boundary."),
            "Inspect the downstream route and clear its blockage. A slot emptied this tick accepts again next tick.".to_owned(),
        )
    } else if is("contended") {
        (
            "Contended input".to_owned(),
            "Source ".to_owned().concat(winner).concat(" wins the empty slot at ").concat(target).concat(
                " this tick (top row first, then leftmost).",
            ),
            "Wait for a later tick or reroute competing feeds to separate inputs; priority is fixed.".to_owned(),
        )
    } else if is("empty") {
        (
            "Connected; waiting for item".to_owned(),
            "Output connects to ".to_owned().concat(target).concat("; this source has no outgoing item."),
            "Check the upstream supply or machine work progress.".to_owned(),
        )
    } else if is("complete") {
        (
            "Complete".to_owned(),
            "Ten plates delivered; all simulation is frozen.".to_owned(),
            "Restart for a new run.".to_owned(),
        )
    } else if is("no_output") {
        (
            "Delivery input only".to_owned(),
            "Accepts plates from the west; no output or buffer.".to_owned(),
            "Connect a plate route to the west input.".to_owned(),
        )
    } else {
        (
            "Ready to transfer".to_owned(),
            "The outgoing item can enter ".to_owned().concat(target).concat(" on the next tick."),
            "Advance a tick or resume.".to_owned(),
        )
    }
}

fn same_target(a: Option<(i32, i32)>, b: Option<(i32, i32)>) -> (r: bool)
    ensures
        r == (a == b),
{
    match (a, b) {
        (Some(p), Some(q)) => p.0 == q.0 && p.1 == q.1,
        (None, None) => true,
        _ => false,
    }
}

fn takes(d: &Structure, other: &Structure) -> (r: bool)
    ensures
        r == takes_from(*d, *other),
{
    d.accepts_face(other.facing.opposite()) && !((d.kind == Kind::Processor && other.slots.output != Some(
        Item::Ore,
    )) || (d.kind == Kind::Delivery && other.slots.output != Some(Item::Plate)))
}

/// The target as values.
pub open spec fn target_view(t: Option<(i32, i32)>) -> Option<(int, int)> {
    match t {
        Some(p) => Some((p.0 as int, p.1 as int)),
        None => None,
    }
}

/// The structure standing on the tile `s` outputs into.
pub open spec fn destination_of(all: Seq<Structure>, s: Structure) -> Option<Structure> {
    match s.spec_target() {
        Some(p) => match at_position(all, p.0, p.1) {
            Some(d) => Some(all[d]),
            None => None,
        },
        None => None,
    }
}

impl Factory {
    /// Whether `r` is the connection report of the structure at index `i`
    /// whose transport reason is `reason`.
    pub open spec fn reports_connection(&self, i: int, reason: Seq<char>, r: Connection) -> bool {
        let all = self.structures@;
        let s = all[i];
        let t = s.spec_target();
        let dest = destination_of(all, s);
        let code = connection_code(s, dest, reason);
        let target_text = match t {
            Some(p) => tile_text(p.0, p.1),
            None => "none"@,
        };
        let cs = contenders_spec(all, all.len() as int, t, dest);
        let winner = if cs.len() > 0 {
            tile_text(cs[0].x as int, cs[0].y as int)
        } else {
            "unknown"@
        };
        &&& r.code@ == code
        &&& (r.label@, r.detail@, r.remedy@) == connection_words(code, target_text, winner)
        &&& r.contenders@ == cs
        &&& match t {
            Some(p) => r.target == Some(Tile { x: p.0 as i32, y: p.1 as i32 }),
            None => r.target is None,
        }
    }

    /// Why the output of the structure at index `i`, whose transport reason
    /// is `reason`, does or does not connect.
    pub fn connection(&self, i: usize, reason: &str) -> (r: Connection)
        requires
            i < self.structures@.len(),
            crate::factory::transport::all_in_grid(self.structures@),
        ensures
            self.reports_connection(i as int, reason@, r),
    {
        let all = &self.structures;
        let s = all[i];
        proof {
            assert(in_grid(all@[i as int].x as int, all@[i as int].y as int));
        }
        let target = s.target();
        let destination = match target {
            Some(p) => {
                proof {
                    lemma_at_position(all@, p.0 as int, p.1 as int);
                }
                match find_at(all, p.0, p.1) {
                    Some(d) => Some(all[d]),
                    None => None,
                }
            },
            None => None,
        };
        let r = reason.to_owned();
        let is = |w: &str| -> (b: bool)
            ensures
                b == (r@ == w@),
            {
                let e = w.to_owned();
                r == e
            };
        let code = if is("complete") {
            "complete"
        } else if s.output().is_none() {
            "no_output"
        } else if destination.is_none() {
            "disconnected"
        } else if !destination.unwrap().accepts_face(s.facing.opposite()) {
            "wrong_facing"
        } else if is("rejected_item_type") {
            "wrong_type"
        } else if is("full_destination") {
            "full"
        } else if is("contention") {
            "contended"
        } else if is("empty_source") {
            "empty"
        } else {
            "ready"
        };
        let target_text = match target {
            Some(p) => tile_string(p.0, p.1),
            None => "none".to_owned(),
        };
        let mut contenders: Vec<Tile> = Vec::new();
        let mut j: usize = 0;
        while j < all.len()
            invariant
                j <= all@.len(),
                crate::factory::transport::all_in_grid(all@),
                target_view(target) == s.spec_target(),
                destination == destination_of(all@, s),
                contenders@ == contenders_spec(all@, j as int, s.spec_target(), destination),
            decreases all@.len() - j,
        {
            let other = all[j];
            proof {
                assert(in_grid(all@[j as int].x as int, all@[j as int].y as int));
            }
            let other_target = other.target();
            let feeds = same_target(other_target, target) && other.slots.output.is_some() && match destination {
                Some(d) => takes(&d, &other),
                None => false,
            };
            if feeds {
                contenders.push(Tile { x: other.x, y: other.y });
            }
            proof {
                assert(target_view(other_target) == other.spec_target());
            }
            j += 1;
        }
        let winner = if contenders.len() > 0 {
            tile_string(contenders[0].x, contenders[0].y)
        } else {
            "unknown".to_owned()
        };
        let (label, detail, remedy) = connection_strings(code, target_text.as_str(), winner.as_str());
        Connection {
            code: code.to_owned(),
            label,
            detail,
            remedy,
            target: match target {
                Some(p) => Some(Tile { x: p.0, y: p.1 }),
                None => None,
            },
            contenders,
        }
    }
}

/// A machine's explanation, as players read it.
#[derive(Clone, Debug, PartialEq, Eq)]
pub struct Explanation {
    pub status: String,
    pub label: String,
    pub detail: String,
    pub remedy: String,
}

/// One input face of a machine and where its supply would come from.
#[derive(Clone, Debug, PartialEq, Eq)]
pub struct InputConnection {
    pub face: Facing,
    pub x: i32,
    pub y: i32,
    pub connected: bool,
    pub detail: String,
}

/// Status, label, detail and remedy of structure `s`, whose output
/// connection has code `code`.
pub open spec fn explanation_words(st: FactoryState, s: Structure, code: Seq<char>) -> (Seq<char>, Seq<char>, Seq<char>, Seq<char>) {
    if st.completion_tick is Some {
        ("complete"@, "Complete"@, "Ten plates delivered. Factory frozen."@, "Restart for a new run."@)
    } else if st.diagnostic is Some {
        ("stopped"@, "Stopped"@, "A simulation diagnostic stopped this run."@, "Restart for a new run."@)
    } else if s.kind == Kind::Processor && s.slots.in_process is Some && s.remaining > 0 {
        (
            "working"@,
            "Working"@,
            "Converting one ore into one plate in 120 work ticks."@,
            "Follow the work progress and output connection."@,
        )
    } else if s.slots.output is Some && code != "ready"@ {
        (
            "output_blocked"@,
            "Output blocked"@,
            "The outgoing item cannot transfer at this boundary."@,
            "Read the connection cause below and repair that route."@,
        )
    } else if s.kind == Kind::Extractor {
        (
            "working"@,
            "Working"@,
            "Extracting one ore every 60 eligible ticks."@,
            "Keep the output clear so extraction can continue."@,
        )
    } else if s.kind == Kind::Processor && s.slots.in_process is Some {
        (
            "output_blocked"@,
            "Output blocked"@,
            "Finished ore is waiting for the plate output slot."@,
            "Clear the plate output route to release the finished batch."@,
        )
    } else if s.kind == Kind::Processor && s.slots.input is Some {
        (
            "working"@,
            "Ready to process"@,
            "One ore is queued for a new 120-tick batch."@,
            "Advance a tick or resume."@,
        )
    } else if s.kind == Kind::Processor {
        (
            "starved"@,
            "Starved"@,
            "No ore is available to start a batch."@,
            "Connect ore supply to the blue input opposite the output arrow."@,
        )
    } else if s.slots.output is Some {
        ("working"@, "Working"@, "An item is ready to move."@, "Advance a tick or resume."@)
    } else {
        (
            "starved"@,
            "Waiting for supply"@,
            "No incoming item is available."@,
            "Inspect the upstream route; delivery requires plates."@,
        )
    }
}

/// The tile behind input face `face` of `s`, whether a structure stands
/// there, and whether it outputs into `s`.
pub open spec fn input_source(all: Seq<Structure>, s: Structure, face: Facing) -> (int, int, bool, bool) {
    let x = s.x + spec_delta(face).0;
    let y = s.y + spec_delta(face).1;
    let found = at_position(all, x, y);
    (x, y, found is Some, found is Some && all[found->0].spec_target() == Some((s.x as int, s.y as int)))
}

/// The sentence on one input face.
pub open spec fn input_detail(face: Facing, x: int, y: int, present: bool, connected: bool) -> Seq<char> {
    if !present {
        "Input "@ + facing_name(face) + ": no source at "@ + tile_text(x, y) + ". Build an upstream output here."@
    } else if !connected {
        "Input "@ + facing_name(face) + ": neighbor "@ + tile_text(x, y) + " does not output here. Rotate or reroute it."@
    } else {
        "Input "@ + facing_name(face) + ": connected from "@ + tile_text(x, y) + "; inspect that source for supply."@
    }
}

/// Whether `c` describes input face `face` of `s`.
pub open spec fn describes_input(all: Seq<Structure>, s: Structure, face: Facing, c: InputConnection) -> bool {
    let (x, y, present, connected) = input_source(all, s, face);
    &&& c.face == face
    &&& c.x == x
    &&& c.y == y
    &&& c.connected == connected
    &&& c.detail@ == input_detail(face, x, y, present, connected)
}

fn explanation_strings(st: FactoryState, s: &Structure, code: &str) -> (r: (&'static str, &'static str, &'static str, &'static str))
    ensures
        (r.0@, r.1@, r.2@, r.3@) == explanation_words(st, *s, code@),
{
    let c = code.to_owned();
    let ready = "ready".to_owned();
    let not_ready = !(c == ready);
    if st.completion_tick.is_some() {
        ("complete", "Complete", "Ten plates delivered. Factory frozen.", "Restart for a new run.")
    } else if st.diagnostic.is_some() {
        ("stopped", "Stopped", "A simulation diagnostic stopped this run.", "Restart for a new run.")
    } else if s.kind == Kind::Processor && s.slots.in_process.is_some() && s.remaining > 0 {
        (
            "working",
            "Working",
            "Converting one ore into one plate in 120 work ticks.",
            "Follow the work progress and output connection.",
        )
    } else if s.slots.output.is_some() && not_ready {
        (
            "output_blocked",
            "Output blocked",
            "The outgoing item cannot transfer at this boundary.",
            "Read the connection cause below and repair that route.",
        )
    } else if s.kind == Kind::Extractor {
        (
            "working",
            "Working",
            "Extracting one ore every 60 eligible ticks.",
            "Keep the output clear so extraction can continue.",
        )
    } else if s.kind == Kind::Processor && s.slots.in_process.is_some() {
        (
            "output_blocked",
            "Output blocked",
            "Finished ore is waiting for the plate output slot.",
            "Clear the plate output route to release the finished batch.",
        )
    } else if s.kind == Kind::Processor && s.slots.input.is_some() {
        ("working", "Ready to process", "One ore is queued for a new 120-tick batch.", "Advance a tick or resume.")
    } else if s.kind == Kind::Processor {
        (
            "starved",
            "Starved",
            "No ore is available to start a batch.",
            "Connect ore supply to the blue input opposite the output arrow.",
        )
    } else if s.slots.output.is_some() {
        ("working", "Working", "An item is ready to move.", "Advance a tick or resume.")
    } else {
        (
            "starved",
            "Waiting for supply",
            "No incoming item is available.",
            "Inspect the upstream route; delivery requires plates.",
        )
    }
}

/// The details of `cs`, joined by single spaces.
fn join_details(cs: &Vec<InputConnection>) -> (r: String)
    requires
        cs@.len() > 0,
    ensures
        r@ == spaced(cs@.map_values(|c: InputConnection| c.detail@)),
{
    let ghost ds = cs@.map_values(|c: InputConnection| c.detail@);
    let mut joined = cs[0].detail.clone();
    proof {
        assert(ds.take(1) =~= seq![ds[0]]);
    }
    let mut j: usize = 1;
    while j < cs.len()
        invariant
            1 <= j <= cs@.len(),
            ds == cs@.map_values(|c: InputConnection| c.detail@),
            joined@ == spaced(ds.take(j as int)),
        decreases cs@.len() - j,
    {
        proof {
            assert(ds.take(j as int + 1).drop_last() =~= ds.take(j as int));
            assert(ds.take(j as int + 1).last() == cs@[j as int].detail@);
            reveal_strlit(" ");
        }
        joined.append(" ");
        joined.append(cs[j].detail.as_str());
        proof {
            assert(joined@ =~= spaced(ds.take(j as int)) + seq![' '] + ds[j as int]);
        }
        j += 1;
    }
    proof {
        assert(ds.take(cs@.len() as int) =~= ds);
    }
    joined
}

/// The input faces of `s`, each with its supply tile and sentence.
fn input_connections(all: &Vec<Structure>, s: Structure) -> (r: Vec<InputConnection>)
    requires
        crate::factory::transport::all_in_grid(all@),
        in_grid(s.x as int, s.y as int),
    ensures
        r@.len() == s.input_seq().len(),
        forall|k: int| 0 <= k < r@.len() ==> describes_input(all@, s, s.input_seq()[k], #[trigger] r@[k]),
{
    let faces = s.inputs();
    let mut incoming: Vec<InputConnection> = Vec::new();
    let mut k: usize = 0;
    while k < faces.len()
        invariant
            k <= faces@.len(),
            faces@ == s.input_seq(),
            in_grid(s.x as int, s.y as int),
            crate::factory::transport::all_in_grid(all@),
            incoming@.len() == k,
            forall|j: int| 0 <= j < k ==> describes_input(all@, s, faces@[j], #[trigger] incoming@[j]),
        decreases faces@.len() - k,
    {
        let face = faces[k];
        let (dx, dy) = face.delta();
        let x = s.x + dx;
        let y = s.y + dy;
        proof {
            lemma_at_position(all@, x as int, y as int);
        }
        let found = find_at(all, x, y);
        let present = found.is_some();
        let connected = match found {
            Some(j) => {
                let source = all[j];
                proof {
                    assert(in_grid(all@[j as int].x as int, all@[j as int].y as int));
                }
                same_target(source.target(), Some((s.x, s.y)))
            },
            None => false,
        };
        let at = tile_string(x, y);
        let text = if !present {
            "Input ".to_owned().concat(facing_text(face)).concat(": no source at ").concat(at.as_str()).concat(
                ". Build an upstream output here.",
            )
        } else if !connected {
            "Input ".to_owned().concat(facing_text(face)).concat(": neighbor ").concat(at.as_str()).concat(
                " does not output here. Rotate or reroute it.",
            )
        } else {
            "Input ".to_owned().concat(facing_text(face)).concat(": connected from ").concat(at.as_str()).concat(
                "; inspect that source for supply.",
            )
        };
        incoming.push(InputConnection { face, x, y, connected, detail: text });
        k += 1;
    }
    incoming
}

impl Factory {
    /// Whether `r` is the explanation, with its input connections, of the
    /// structure at index `i` whose connection code is `code`.
    pub open spec fn reports_explanation(&self, i: int, code: Seq<char>, r: (Explanation, Vec<InputConnection>)) -> bool {
        let all = self.structures@;
        let s = all[i];
        let faces = s.input_seq();
        let words = explanation_words(self.state, s, code);
        &&& r.1@.len() == faces.len()
        &&& forall|k: int| 0 <= k < faces.len() ==> describes_input(all, s, faces[k], #[trigger] r.1@[k])
        &&& r.0.status@ == words.0
        &&& r.0.label@ == words.1
        &&& r.0.detail@ == words.2
        &&& r.0.remedy@ == if words.0 == "starved"@ && faces.len() > 0 {
            spaced(r.1@.map_values(|c: InputConnection| c.detail@))
        } else {
            words.3
        }
    }

    /// Explains the machine at index `i`, whose output connection has code
    /// `connection_code`, and describes each of its input faces. A starved
    /// machine with inputs is told, face by face, where supply should come
    /// from.
    pub fn explanation(&self, i: usize, connection_code: &str) -> (r: (Explanation, Vec<InputConnection>))
        requires
            i < self.structures@.len(),
            crate::factory::transport::all_in_grid(self.structures@),
        ensures
            self.reports_explanation(i as int, connection_code@, r),
    {
        let s = self.structures[i];
        proof {
            assert(in_grid(self.structures@[i as int].x as int, self.structures@[i as int].y as int));
        }
        let (status, label, detail, remedy) = explanation_strings(self.state, &s, connection_code);
        let incoming = input_connections(&self.structures, s);
        let starved = status.to_owned() == "starved".to_owned();
        let remedy = if starved && incoming.len() > 0 {
            join_details(&incoming)
        } else {
            remedy.to_owned()
        };
        (
            Explanation {
                status: status.to_owned(),
                label: label.to_owned(),
                detail: detail.to_owned(),
                remedy,
            },
            incoming,
        )
    }

    /// What the structure on tile `(x, y)` reports to an inspecting player:
    /// why its output does or does not connect, given its transport reason,
    /// and the explanation that follows from that connection, with its input
    /// connections; nothing for an empty tile.
    pub fn diagnosis(&self, x: i32, y: i32) -> (r: Option<(Connection, Explanation, Vec<InputConnection>)>)
        requires
            crate::factory::game::factory_valid(self@),
        ensures
            match at_position(self.structures@, x as int, y as int) {
                Some(i) => r matches Some(d) && self.reports_connection(
                    i,
                    crate::factory::game::transport_reason_spec(self@, i),
                    d.0,
                ) && self.reports_explanation(i, d.0.code@, (d.1, d.2)),
                None => r is None,
            },
    {
        proof {
            lemma_at_position(self.structures@, x as int, y as int);
        }
        let i = match find_at(&self.structures, x, y) {
            Some(i) => i,
            None => {
                return None;
            },
        };
        let reason = match self.transport_reason(x, y) {
            Some(reason) => reason,
            None => {
                return None;
            },
        };
        let connection = self.connection(i, reason);
        let (explanation, inputs) = self.explanation(i, connection.code.as_str());
        Some((connection, explanation, inputs))
    }
}

/// One slot a structure can hold, for inventories.
#[derive(Clone, Copy, Debug, PartialEq, Eq, Structural)]
pub enum SlotName {
    Input,
    InProcess,
    Output,
}

/// A slot with room for items: its content and capacity.
#[derive(Clone, Copy, Debug, PartialEq, Eq, Structural)]
pub struct InventoryEntry {
    pub slot: SlotName,
    pub item: Option<Item>,
    pub capacity: u32,
}

/// A machine's recipe and its progress.
#[derive(Clone, Debug, PartialEq, Eq)]
pub struct Recipe {
    pub label: String,
    pub elapsed: u32,
    pub total: u32,
}

/// The slots of `s` with room: a processor's input and batch, and the
/// output of everything but delivery.
pub open spec fn inventory_spec(s: Structure) -> Seq<InventoryEntry> {
    (if s.kind == Kind::Processor {
        seq![
            InventoryEntry { slot: SlotName::Input, item: s.slots.input, capacity: 1 },
            InventoryEntry { slot: SlotName::InProcess, item: s.slots.in_process, capacity: 1 },
        ]
    } else {
        Seq::empty()
    }) + (if s.kind != Kind::Delivery {
        seq![InventoryEntry { slot: SlotName::Output, item: s.slots.output, capacity: 1 }]
    } else {
        Seq::empty()
    })
}

/// The slots of `s` with room, with their contents.
pub fn inventory(s: &Structure) -> (r: Vec<InventoryEntry>)
    ensures
        r@ == inventory_spec(*s),
{
    let mut r: Vec<InventoryEntry> = Vec::new();
    if s.kind == Kind::Processor {
        r.push(InventoryEntry { slot: SlotName::Input, item: s.slots.input, capacity: 1 });
        r.push(InventoryEntry { slot: SlotName::InProcess, item: s.slots.in_process, capacity: 1 });
    }
    if s.kind != Kind::Delivery {
        r.push(InventoryEntry { slot: SlotName::Output, item: s.slots.output, capacity: 1 });
    }
    proof {
        assert(r@ =~= inventory_spec(*s));
    }
    r
}

/// An extractor's or a processor's recipe with its progress: ticks counted
/// toward the next ore, or work done on the batch in process.
pub fn recipe(s: &Structure) -> (r: Option<Recipe>)
    requires
        s.remaining <= 120,
    ensures
        match s.kind {
            Kind::Extractor => r matches Some(p) && p.label@ == "Deposit to 1 ore / 60 eligible ticks"@ && p.elapsed
                == s.progress && p.total == 60,
            Kind::Processor => r matches Some(p) && p.label@ == "1 ore to 1 plate / 120 work ticks"@ && p.elapsed
                == (if s.slots.in_process is Some {
                120 - s.remaining
            } else {
                0
            }) && p.total == 120,
            _ => r is None,
        },
{
    match s.kind {
        Kind::Extractor => Some(
            Recipe { label: "Deposit to 1 ore / 60 eligible ticks".to_owned(), elapsed: s.progress, total: 60 },
        ),
        Kind::Processor => Some(
            Recipe {
                label: "1 ore to 1 plate / 120 work ticks".to_owned(),
                elapsed: if s.slots.in_process.is_some() {
                    120 - s.remaining
                } else {
                    0
                },
                total: 120,
            },
        ),
        _ => None,
    }
}

} // verus!
