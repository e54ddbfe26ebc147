//! The native player's heads-up display: the toolbar buttons with their
//! places and colors, and the status lines drawn around the grid.
use vstd::prelude::*;

use vstd::string::StringExecFns;

use crate::factory::controls::{key_command_spec, HostCommand, HostKey, ToolbarAction};
use crate::factory::explain::{inventory, inventory_spec, recipe, Connection, Explanation, InputConnection, InventoryEntry, SlotName};
use crate::factory::game::{facing_name, facing_text, factory_valid, transport_reason_spec, Factory, PreviewAction};
use crate::factory::transport::{at_position, find_at, lemma_at_position};
use crate::factory::{Facing, Item, Kind, Structure};
use crate::render::image::Color;
use crate::text::{decimal, decimal_text, signed_decimal, signed_decimal_text};

verus! {

/// A toolbar button: its action, label, place, width (height 22), background
/// tint and text color.
#[derive(Clone, Copy, Debug, PartialEq, Eq)]
pub struct HudButton {
    pub action: ToolbarAction,
    pub label: &'static str,
    pub x: i32,
    pub y: i32,
    pub width: u32,
    pub tint: Color,
    pub text_color: Color,
}

pub open spec fn rgb(red: u8, green: u8, blue: u8) -> Color {
    Color { red, green, blue, alpha: 255 }
}

/// The label, place and width of the toolbar's `k`-th button.
pub open spec fn button_place(k: int, paused: bool) -> (ToolbarAction, Seq<char>, i32, i32, u32) {
    if k == 0 {
        (ToolbarAction::Conveyor, "1 BELT"@, 12, 40, 104)
    } else if k == 1 {
        (ToolbarAction::Extractor, "2 EXTRACT"@, 124, 40, 112)
    } else if k == 2 {
        (ToolbarAction::Processor, "3 PROCESS"@, 244, 40, 112)
    } else if k == 3 {
        (ToolbarAction::Inspect, "4 INSPECT"@, 364, 40, 112)
    } else if k == 4 {
        (ToolbarAction::Rotate, "5 ROTATE"@, 484, 40, 104)
    } else if k == 5 {
        (ToolbarAction::Remove, "6 REMOVE"@, 596, 40, 104)
    } else if k == 6 {
        (ToolbarAction::Facing, "Q FACE"@, 708, 40, 80)
    } else if k == 7 {
        (ToolbarAction::Pause, if paused { "RESUME"@ } else { "PAUSE"@ }, 12, 66, 88)
    } else if k == 8 {
        (ToolbarAction::Step, "STEP ."@, 116, 66, 88)
    } else {
        (ToolbarAction::Restart, "RESTART R"@, 220, 66, 120)
    }
}

/// Whether `b` is the toolbar's `k`-th button: the selected tool is dark
/// gold with gold text, the focused button teal, the rest slate, with cyan
/// text.
pub open spec fn is_hud_button(b: HudButton, k: int, paused: bool, tool: ToolbarAction, focused: Option<ToolbarAction>) -> bool {
    let (action, label, x, y, width) = button_place(k, paused);
    &&& b.action == action
    &&& b.label@ == label
    &&& b.x == x
    &&& b.y == y
    &&& b.width == width
    &&& b.tint == if action == tool {
        rgb(98, 71, 31)
    } else if focused == Some(action) {
        rgb(40, 98, 112)
    } else {
        rgb(29, 54, 68)
    }
    &&& b.text_color == if action == tool {
        rgb(251, 204, 99)
    } else {
        rgb(105, 215, 226)
    }
}

fn button(
    action: ToolbarAction,
    label: &'static str,
    x: i32,
    y: i32,
    width: u32,
    tool: ToolbarAction,
    focused: Option<ToolbarAction>,
) -> (r: HudButton)
    ensures
        r.action == action,
        r.label == label,
        r.x == x,
        r.y == y,
        r.width == width,
        r.tint == if action == tool {
            rgb(98, 71, 31)
        } else if focused == Some(action) {
            rgb(40, 98, 112)
        } else {
            rgb(29, 54, 68)
        },
        r.text_color == if action == tool {
            rgb(251, 204, 99)
        } else {
            rgb(105, 215, 226)
        },
{
    let selected = action == tool;
    let is_focused = match focused {
        Some(f) => f == action,
        None => false,
    };
    let tint = if selected {
        Color::rgb(98, 71, 31)
    } else if is_focused {
        Color::rgb(40, 98, 112)
    } else {
        Color::rgb(29, 54, 68)
    };
    let text_color = if selected {
        Color::rgb(251, 204, 99)
    } else {
        Color::rgb(105, 215, 226)
    };
    HudButton { action, label, x, y, width, tint, text_color }
}

/// The toolbar, in order: the six tools, facing, pause or resume, step and
/// restart.
pub fn hud_buttons(paused: bool, tool: ToolbarAction, focused: Option<ToolbarAction>) -> (r: Vec<HudButton>)
    ensures
        r@.len() == 10,
        forall|k: int| 0 <= k < 10 ==> #[trigger] is_hud_button(r@[k], k, paused, tool, focused),
{
    let mut r: Vec<HudButton> = Vec::new();
    r.push(button(ToolbarAction::Conveyor, "1 BELT", 12, 40, 104, tool, focused));
    r.push(button(ToolbarAction::Extractor, "2 EXTRACT", 124, 40, 112, tool, focused));
    r.push(button(ToolbarAction::Processor, "3 PROCESS", 244, 40, 112, tool, focused));
    r.push(button(ToolbarAction::Inspect, "4 INSPECT", 364, 40, 112, tool, focused));
    r.push(button(ToolbarAction::Rotate, "5 ROTATE", 484, 40, 104, tool, focused));
    r.push(button(ToolbarAction::Remove, "6 REMOVE", 596, 40, 104, tool, focused));
    r.push(button(ToolbarAction::Facing, "Q FACE", 708, 40, 80, tool, focused));
    let pause_label = if paused {
        "RESUME"
    } else {
        "PAUSE"
    };
    r.push(button(ToolbarAction::Pause, pause_label, 12, 66, 88, tool, focused));
    r.push(button(ToolbarAction::Step, "STEP .", 116, 66, 88, tool, focused));
    r.push(button(ToolbarAction::Restart, "RESTART R", 220, 66, 120, tool, focused));
    proof {
        reveal_strlit("1 BELT");
        reveal_strlit("2 EXTRACT");
        reveal_strlit("3 PROCESS");
        reveal_strlit("4 INSPECT");
        reveal_strlit("5 ROTATE");
        reveal_strlit("6 REMOVE");
        reveal_strlit("Q FACE");
        reveal_strlit("RESUME");
        reveal_strlit("PAUSE");
        reveal_strlit("STEP .");
        reveal_strlit("RESTART R");
        assert forall|k: int| 0 <= k < 10 implies #[trigger] is_hud_button(r@[k], k, paused, tool, focused) by {}
    }
    r
}

/// A toolbar action's name in capitals.
pub open spec fn toolbar_caps(a: ToolbarAction) -> Seq<char> {
    match a {
        ToolbarAction::Conveyor => "CONVEYOR"@,
        ToolbarAction::Extractor => "EXTRACTOR"@,
        ToolbarAction::Processor => "PROCESSOR"@,
        ToolbarAction::Inspect => "INSPECT"@,
        ToolbarAction::Rotate => "ROTATE"@,
        ToolbarAction::Remove => "REMOVE"@,
        ToolbarAction::Facing => "FACING"@,
        ToolbarAction::Pause => "PAUSE"@,
        ToolbarAction::Step => "STEP"@,
        ToolbarAction::Restart => "RESTART"@,
    }
}

fn caps_text(a: ToolbarAction) -> (r: &'static str)
    ensures
        r@ == toolbar_caps(a),
{
    match a {
        ToolbarAction::Conveyor => "CONVEYOR",
        ToolbarAction::Extractor => "EXTRACTOR",
        ToolbarAction::Processor => "PROCESSOR",
        ToolbarAction::Inspect => "INSPECT",
        ToolbarAction::Rotate => "ROTATE",
        ToolbarAction::Remove => "REMOVE",
        ToolbarAction::Facing => "FACING",
        ToolbarAction::Pause => "PAUSE",
        ToolbarAction::Step => "STEP",
        ToolbarAction::Restart => "RESTART",
    }
}

impl Factory {
    /// The status line above the toolbar: plates delivered of ten, whether
    /// the run is complete, paused or running, and the tick.
    pub fn hud_status(&self, paused: bool) -> (r: String)
        ensures
            r@ == "FACTORY / PLATES "@ + decimal(self.state.delivered as nat) + " / 10 / "@ + (if self.state.completion_tick
                is Some {
                "COMPLETE"@
            } else if paused {
                "PAUSED"@
            } else {
                "RUNNING"@
            }) + " / TICK "@ + decimal(self.state.tick as nat),
    {
        let outcome = if self.state.completion_tick.is_some() {
            "COMPLETE"
        } else if paused {
            "PAUSED"
        } else {
            "RUNNING"
        };
        "FACTORY / PLATES ".to_owned().concat(decimal_text(self.state.delivered).as_str()).concat(" / 10 / ").concat(
            outcome,
        ).concat(" / TICK ").concat(decimal_text(self.state.tick).as_str())
    }

    /// The tool line: the chosen tool and the facing of the selection.
    pub fn hud_tool(&self, tool: ToolbarAction) -> (r: String)
        ensures
            r@ == "TOOL "@ + toolbar_caps(tool) + " / FACING "@ + facing_name(self.state.selection.facing),
    {
        "TOOL ".to_owned().concat(caps_text(tool)).concat(" / FACING ").concat(facing_text(self.state.selection.facing))
    }

    /// The discard line: ore and plates thrown away by removals.
    pub fn hud_discarded(&self) -> (r: String)
        ensures
            r@ == "DISCARDED "@ + decimal(self.state.discarded_ore as nat) + " ORE / "@ + decimal(
                self.state.discarded_plate as nat,
            ) + " PLATES"@,
    {
        "DISCARDED ".to_owned().concat(decimal_text(self.state.discarded_ore).as_str()).concat(" ORE / ").concat(
            decimal_text(self.state.discarded_plate).as_str(),
        ).concat(" PLATES")
    }
}

/// A structure kind as its inspection record spells it.
pub open spec fn kind_key(k: Kind) -> Seq<char> {
    match k {
        Kind::Conveyor => "conveyor"@,
        Kind::Extractor => "extractor"@,
        Kind::Processor => "processor"@,
        Kind::Delivery => "delivery"@,
    }
}

fn kind_key_text(k: Kind) -> (r: &'static str)
    ensures
        r@ == kind_key(k),
{
    match k {
        Kind::Conveyor => "conveyor",
        Kind::Extractor => "extractor",
        Kind::Processor => "processor",
        Kind::Delivery => "delivery",
    }
}

/// A slot as its inspection record spells it.
pub open spec fn slot_key(slot: SlotName) -> Seq<char> {
    match slot {
        SlotName::Input => "input"@,
        SlotName::InProcess => "in_process"@,
        SlotName::Output => "output"@,
    }
}

fn slot_key_text(slot: SlotName) -> (r: &'static str)
    ensures
        r@ == slot_key(slot),
{
    match slot {
        SlotName::Input => "input",
        SlotName::InProcess => "in_process",
        SlotName::Output => "output",
    }
}

/// A slot's content in the panel: the item, or `EMPTY`.
pub open spec fn item_key(item: Option<Item>) -> Seq<char> {
    match item {
        Some(Item::Ore) => "ore"@,
        Some(Item::Plate) => "plate"@,
        None => "EMPTY"@,
    }
}

fn item_key_text(item: Option<Item>) -> (r: &'static str)
    ensures
        r@ == item_key(item),
{
    match item {
        Some(Item::Ore) => "ore",
        Some(Item::Plate) => "plate",
        None => "EMPTY",
    }
}

/// Faces joined by ` / `.
pub open spec fn faces_text(faces: Seq<Facing>) -> Seq<char>
    decreases faces.len(),
{
    if faces.len() == 0 {
        Seq::empty()
    } else if faces.len() == 1 {
        facing_name(faces[0])
    } else {
        faces_text(faces.drop_last()) + " / "@ + facing_name(faces.last())
    }
}

/// One line per slot: its name, how many items it holds, the item or
/// `EMPTY`, and its capacity.
pub open spec fn inventory_lines(entries: Seq<InventoryEntry>) -> Seq<char>
    decreases entries.len(),
{
    if entries.len() == 0 {
        Seq::empty()
    } else {
        let e = entries.last();
        inventory_lines(entries.drop_last()) + slot_key(e.slot) + " / "@ + decimal(
            if e.item is Some {
                1nat
            } else {
                0nat
            },
        ) + " "@ + item_key(e.item) + " / "@ + decimal(e.capacity as nat) + "\n"@
    }
}

/// The recipe lines of a machine: its recipe and its progress.
pub open spec fn recipe_lines(s: Structure) -> Seq<char> {
    match s.kind {
        Kind::Extractor => "Deposit to 1 ore / 60 eligible ticks"@ + "\n"@ + "PROGRESS "@ + decimal(s.progress as nat)
            + " / "@ + decimal(60) + " TICKS\n"@,
        Kind::Processor => "1 ore to 1 plate / 120 work ticks"@ + "\n"@ + "PROGRESS "@ + decimal(
            (if s.slots.in_process is Some {
                120 - s.remaining
            } else {
                0
            }) as nat,
        ) + " / "@ + decimal(120) + " TICKS\n"@,
        _ => Seq::empty(),
    }
}

/// The panel lines of an inspected structure: its kind and facing, its
/// input and output faces, its explanation, its slots, its recipe and
/// progress, and its output connection.
pub open spec fn structure_panel(s: Structure, connection: Connection, explanation: Explanation) -> Seq<char> {
    kind_key(s.kind) + " / FACING "@ + facing_name(s.facing) + "\n"@ + "INPUT "@ + (if s.input_seq().len() == 0 {
        "NONE"@
    } else {
        faces_text(s.input_seq())
    }) + " / OUTPUT "@ + (match s.spec_output() {
        Some(f) => facing_name(f),
        None => "NONE"@,
    }) + "\n"@ + explanation.label@ + "\n"@ + explanation.detail@ + "\n"@ + explanation.remedy@ + "\n"@
        + inventory_lines(inventory_spec(s)) + recipe_lines(s) + "\nOUTPUT CONNECTION\n"@ + connection.label@ + "\n"@
        + connection.detail@ + "\n"@ + connection.remedy@ + "\n"@
}

/// The panel's heading for tile `(x, y)`.
pub open spec fn tile_heading(x: i32, y: i32) -> Seq<char> {
    "TILE "@ + signed_decimal(x as int) + " / "@ + signed_decimal(y as int) + "\n"@
}

fn faces_string(faces: &Vec<Facing>) -> (r: String)
    ensures
        r@ == faces_text(faces@),
{
    let mut r = String::new();
    let mut i: usize = 0;
    while i < faces.len()
        invariant
            i <= faces@.len(),
            r@ == faces_text(faces@.take(i as int)),
        decreases faces@.len() - i,
    {
        proof {
            assert(faces@.take(i as int + 1).drop_last() =~= faces@.take(i as int));
        }
        if i == 0 {
            r = r.concat(facing_text(faces[i]));
            proof {
                assert(r@ =~= faces_text(faces@.take(1)));
            }
        } else {
            r = r.concat(" / ").concat(facing_text(faces[i]));
        }
        i += 1;
    }
    proof {
        assert(faces@.take(faces@.len() as int) =~= faces@);
    }
    r
}

fn inventory_string(entries: &Vec<InventoryEntry>) -> (r: String)
    ensures
        r@ == inventory_lines(entries@),
{
    let mut r = String::new();
    let mut i: usize = 0;
    while i < entries.len()
        invariant
            i <= entries@.len(),
            r@ == inventory_lines(entries@.take(i as int)),
        decreases entries@.len() - i,
    {
        proof {
            assert(entries@.take(i as int + 1).drop_last() =~= entries@.take(i as int));
        }
        let e = entries[i];
        let count: u64 = if e.item.is_some() {
            1
        } else {
            0
        };
        r = r.concat(slot_key_text(e.slot)).concat(" / ").concat(decimal_text(count).as_str()).concat(" ").concat(
            item_key_text(e.item),
        ).concat(" / ").concat(decimal_text(e.capacity as u64).as_str()).concat("\n");
        i += 1;
    }
    proof {
        assert(entries@.take(entries@.len() as int) =~= entries@);
    }
    r
}

fn recipe_text(s: &Structure) -> (r: String)
    requires
        s.remaining <= 120,
    ensures
        r@ == recipe_lines(*s),
{
    match recipe(s) {
        Some(p) => {
            let r = p.label.concat("\n").concat("PROGRESS ").concat(decimal_text(p.elapsed as u64).as_str()).concat(
                " / ",
            ).concat(decimal_text(p.total as u64).as_str()).concat(" TICKS\n");
            proof {
                assert(r@ =~= recipe_lines(*s));
            }
            r
        },
        None => {
            let r = String::new();
            proof {
                assert(r@ =~= recipe_lines(*s));
            }
            r
        },
    }
}

fn ports_text(s: &Structure) -> (r: String)
    ensures
        r@ == kind_key(s.kind) + " / FACING "@ + facing_name(s.facing) + "\n"@ + "INPUT "@ + (if s.input_seq().len()
            == 0 {
            "NONE"@
        } else {
            faces_text(s.input_seq())
        }) + " / OUTPUT "@ + (match s.spec_output() {
            Some(f) => facing_name(f),
            None => "NONE"@,
        }) + "\n"@,
{
    let faces = s.inputs();
    let input_text = if faces.len() == 0 {
        "NONE".to_owned()
    } else {
        faces_string(&faces)
    };
    let output_text = match s.output() {
        Some(f) => facing_text(f),
        None => "NONE",
    };
    kind_key_text(s.kind).to_owned().concat(" / FACING ").concat(facing_text(s.facing)).concat("\n").concat(
        "INPUT ",
    ).concat(input_text.as_str()).concat(" / OUTPUT ").concat(output_text).concat("\n")
}

fn lines_text(a: &String, b: &String, c: &String) -> (r: String)
    ensures
        r@ == a@ + "\n"@ + b@ + "\n"@ + c@ + "\n"@,
{
    a.clone().concat("\n").concat(b.as_str()).concat("\n").concat(c.as_str()).concat("\n")
}

fn structure_panel_text(s: &Structure, connection: &Connection, explanation: &Explanation) -> (r: String)
    requires
        s.remaining <= 120,
    ensures
        r@ == structure_panel(*s, *connection, *explanation),
{
    let ports = ports_text(s);
    let explained = lines_text(&explanation.label, &explanation.detail, &explanation.remedy);
    let slots = inventory_string(&inventory(s));
    let progress = recipe_text(s);
    let connected = lines_text(&connection.label, &connection.detail, &connection.remedy);
    let r = ports.concat(explained.as_str()).concat(slots.as_str()).concat(progress.as_str()).concat(
        "\nOUTPUT CONNECTION\n",
    ).concat(connected.as_str());
    proof {
        assert(r@ =~= structure_panel(*s, *connection, *explanation));
    }
    r
}

impl Factory {
    /// The inspection panel for a pinned tile: a prompt when no tile is
    /// pinned; else the tile's heading, followed by the panel lines of its
    /// structure, as `structure_panel` says, with the connection and
    /// explanation that `diagnosis` reports, or a note that the tile is
    /// empty.
    pub fn inspection_panel(&self, pinned: Option<(i32, i32)>) -> (r: String)
        requires
            factory_valid(self@),
        ensures
            match pinned {
                None => r@ == "SELECT A TILE\nRight click a machine to pin its live details. Or choose Inspect and click.\n\n"@,
                Some((x, y)) => match at_position(self.structures@, x as int, y as int) {
                    None => r@ == tile_heading(x, y) + "Empty tile. Choose a build tool.\n"@,
                    Some(i) => exists|c: Connection, e: Explanation, inputs: Vec<InputConnection>|
                        #![trigger self.reports_connection(i, transport_reason_spec(self@, i), c), self.reports_explanation(i, c.code@, (e, inputs))]
                        self.reports_connection(i, transport_reason_spec(self@, i), c) && self.reports_explanation(
                            i,
                            c.code@,
                            (e, inputs),
                        ) && r@ == tile_heading(x, y) + structure_panel(self.structures@[i], c, e),
                },
            },
    {
        let (x, y) = match pinned {
            None => {
                return "SELECT A TILE\nRight click a machine to pin its live details. Or choose Inspect and click.\n\n".to_owned();
            },
            Some(tile) => tile,
        };
        let heading = "TILE ".to_owned().concat(signed_decimal_text(x).as_str()).concat(" / ").concat(
            signed_decimal_text(y).as_str(),
        ).concat("\n");
        proof {
            lemma_at_position(self.structures@, x as int, y as int);
        }
        let i = match find_at(&self.structures, x, y) {
            Some(i) => i,
            None => {
                return heading.concat("Empty tile. Choose a build tool.\n");
            },
        };
        let (connection, explanation, inputs) = match self.diagnosis(x, y) {
            Some(d) => d,
            None => {
                return heading;
            },
        };
        let s = self.structures[i];
        proof {
            assert(crate::factory::production::counters_valid(self.structures@[i as int]));
        }
        let body = structure_panel_text(&s, &connection, &explanation);
        heading.concat(body.as_str())
    }
}

/// The character a key's cap shows, for the keys that toolbar labels name.
pub open spec fn key_glyph(key: HostKey) -> Option<char> {
    match key {
        HostKey::Digit1 => Some('1'),
        HostKey::Digit2 => Some('2'),
        HostKey::Digit3 => Some('3'),
        HostKey::Digit4 => Some('4'),
        HostKey::Digit5 => Some('5'),
        HostKey::Digit6 => Some('6'),
        HostKey::KeyQ => Some('Q'),
        HostKey::Period => Some('.'),
        HostKey::KeyR => Some('R'),
        _ => None,
    }
}

/// Whether a label shows `glyph` as a word of its own, first or last.
pub open spec fn label_shows(label: Seq<char>, glyph: char) -> bool {
    &&& label.len() >= 2
    &&& (label[0] == glyph && label[1] == ' ') || (label.last() == glyph && label[label.len() - 2] == ' ')
}

/// A toolbar label that names a key is a promise: a fresh press of that
/// key runs the button's action.
pub proof fn law_labelled_keys_run_their_buttons(k: int, key: HostKey)
    requires
        0 <= k < 10,
        key_glyph(key) matches Some(glyph) && label_shows(button_place(k, false).1, glyph),
    ensures
        key_command_spec(key, true, false) == Some(HostCommand::UiAction(button_place(k, false).0)),
{
    reveal_strlit("1 BELT");
    reveal_strlit("2 EXTRACT");
    reveal_strlit("3 PROCESS");
    reveal_strlit("4 INSPECT");
    reveal_strlit("5 ROTATE");
    reveal_strlit("6 REMOVE");
    reveal_strlit("Q FACE");
    reveal_strlit("PAUSE");
    reveal_strlit("STEP .");
    reveal_strlit("RESTART R");
}

/// Every toolbar action has its own key: exactly one key runs it on a fresh
/// press, so no two keys share an action and none is left without one.
pub proof fn law_each_toolbar_action_has_one_key(action: ToolbarAction, a: HostKey, b: HostKey)
    ensures
        exists|key: HostKey| #[trigger] key_command_spec(key, true, false) == Some(HostCommand::UiAction(action)),
        key_command_spec(a, true, false) == Some(HostCommand::UiAction(action)) && key_command_spec(b, true, false)
            == Some(HostCommand::UiAction(action)) ==> a == b,
{
    let key = match action {
        ToolbarAction::Conveyor => HostKey::Digit1,
        ToolbarAction::Extractor => HostKey::Digit2,
        ToolbarAction::Processor => HostKey::Digit3,
        ToolbarAction::Inspect => HostKey::Digit4,
        ToolbarAction::Rotate => HostKey::Digit5,
        ToolbarAction::Remove => HostKey::Digit6,
        ToolbarAction::Facing => HostKey::KeyQ,
        ToolbarAction::Pause => HostKey::Space,
        ToolbarAction::Step => HostKey::Period,
        ToolbarAction::Restart => HostKey::KeyR,
    };
    assert(key_command_spec(key, true, false) == Some(HostCommand::UiAction(action)));
}

/// The keys the player's help line names (`Space pause; period step`, Tab
/// and Enter for the toolbar focus, E rotate, X or Delete remove, Escape to
/// leave) are the only keys with those effects, and pausing and stepping
/// are different keys. Releases and repeats do nothing, except that Escape
/// closes the player on any press.
pub proof fn law_named_keys_are_the_only_ones(key: HostKey)
    ensures
        key_command_spec(key, true, false) == Some(HostCommand::UiAction(ToolbarAction::Pause)) <==> key
            == HostKey::Space,
        key_command_spec(key, true, false) == Some(HostCommand::UiAction(ToolbarAction::Step)) <==> key
            == HostKey::Period,
        key_command_spec(key, true, false) == Some(HostCommand::FocusNext) <==> key == HostKey::Tab,
        key_command_spec(key, true, false) == Some(HostCommand::ActivateFocused) <==> key == HostKey::Enter,
        key_command_spec(key, true, false) == Some(HostCommand::Exit) <==> key == HostKey::Escape,
        key_command_spec(key, true, false) == Some(HostCommand::Pointer(PreviewAction::Rotate)) <==> key
            == HostKey::KeyE,
        key_command_spec(key, true, false) == Some(HostCommand::Pointer(PreviewAction::Remove)) <==> (key
            == HostKey::KeyX || key == HostKey::Delete),
        key_command_spec(HostKey::Space, true, false) != key_command_spec(HostKey::Period, true, false),
        forall|pressed: bool, repeat: bool|
            (!pressed || repeat) && key != HostKey::Escape ==> #[trigger] key_command_spec(key, pressed, repeat) is None,
        forall|repeat: bool| #[trigger] key_command_spec(HostKey::Escape, true, repeat) == Some(HostCommand::Exit),
{
}

} // verus!
