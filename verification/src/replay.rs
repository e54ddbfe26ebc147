//! Recordings of consumed digital input, frame by frame.
//!
//! A frame is stored as the names of its active, pressed and released
//! actions, in the order of the game's action schema. Analog input is
//! rejected.
use vstd::prelude::*;

use vstd::string::StringExecFns;

use crate::input::{ActionValue, InputFrame, InputTracker, lemma_pressed_value, pressed_value, sampled};

verus! {

/// The consumed button state of one tick, by action name.
#[derive(Debug, PartialEq, Eq)]
pub struct RecordedButtons {
    pub active: Vec<String>,
    pub pressed: Vec<String>,
    pub released: Vec<String>,
}

fn copy_names(names: &Vec<String>) -> (r: Vec<String>)
    ensures
        names_view(r@) == names_view(names@),
{
    let mut r: Vec<String> = Vec::new();
    let mut i: usize = 0;
    while i < names.len()
        invariant
            i <= names@.len(),
            r@.len() == i,
            forall|k: int| 0 <= k < i ==> (#[trigger] r@[k])@ == names@[k]@,
        decreases names@.len() - i,
    {
        r.push(names[i].clone());
        i += 1;
    }
    proof {
        assert(names_view(r@) =~= names_view(names@));
    }
    r
}

impl Clone for RecordedButtons {
    fn clone(&self) -> (r: Self)
        ensures
            r.spec_view() == self.spec_view(),
    {
        RecordedButtons {
            active: copy_names(&self.active),
            pressed: copy_names(&self.pressed),
            released: copy_names(&self.released),
        }
    }
}

/// The three name lists of a recorded frame, as character sequences.
pub type ButtonsView = (Seq<Seq<char>>, Seq<Seq<char>>, Seq<Seq<char>>);

/// Actions of a decoded frame: active, just pressed, just released.
pub type EdgesView = (Set<u32>, Set<u32>, Set<u32>);

pub open spec fn names_view(names: Seq<String>) -> Seq<Seq<char>> {
    names.map_values(|name: String| name@)
}

pub open spec fn schema_view(schema: Seq<(u32, String)>) -> Seq<(u32, Seq<char>)> {
    schema.map_values(|entry: (u32, String)| (entry.0, entry.1@))
}

impl RecordedButtons {
    pub open spec fn spec_view(&self) -> ButtonsView {
        (names_view(self.active@), names_view(self.pressed@), names_view(self.released@))
    }
}

/// Every name is nonempty and no action or name occurs twice.
pub open spec fn schema_valid(schema: Seq<(u32, Seq<char>)>) -> bool {
    &&& forall|i: int| 0 <= i < schema.len() ==> (#[trigger] schema[i]).1.len() > 0
    &&& forall|i: int, j: int|
        0 <= i < j < schema.len() ==> (#[trigger] schema[i]).0 != (#[trigger] schema[j]).0
            && schema[i].1 != schema[j].1
}

pub open spec fn schema_has_action(schema: Seq<(u32, Seq<char>)>, action: u32) -> bool {
    exists|i: int| 0 <= i < schema.len() && (#[trigger] schema[i]).0 == action
}

/// The action a name stands for in the schema.
pub open spec fn lookup_name(schema: Seq<(u32, Seq<char>)>, name: Seq<char>) -> Option<u32> {
    if exists|i: int| 0 <= i < schema.len() && (#[trigger] schema[i]).1 == name {
        Some(schema[choose|i: int| 0 <= i < schema.len() && (#[trigger] schema[i]).1 == name].0)
    } else {
        None
    }
}

/// The names of the schema's actions that lie in `actions`, in schema order.
pub open spec fn names_of(schema: Seq<(u32, Seq<char>)>, actions: Set<u32>) -> Seq<Seq<char>>
    decreases schema.len(),
{
    if schema.len() == 0 {
        Seq::empty()
    } else {
        let rest = names_of(schema.drop_last(), actions);
        if actions.contains(schema.last().0) {
            rest.push(schema.last().1)
        } else {
            rest
        }
    }
}

pub open spec fn schema_message() -> Seq<char> {
    "recording action schema must have unique actions and nonempty names"@
}

pub open spec fn digital_message() -> Seq<char> {
    "recording requires mapped digital button values"@
}

pub open spec fn release_message() -> Seq<char> {
    "recording requires mapped release edges"@
}

pub open spec fn too_many_message() -> Seq<char> {
    "too many actions in recorded frame"@
}

pub open spec fn unknown_message(name: Seq<char>) -> Seq<char> {
    "unknown recorded action: "@ + name
}

pub open spec fn duplicate_message() -> Seq<char> {
    "duplicate recorded action"@
}

pub open spec fn conflict_message() -> Seq<char> {
    "recorded edges conflict with active actions"@
}

/// What capturing a frame gives: an error message or the three name lists.
pub open spec fn capture_spec(
    values: Map<u32, ActionValue>,
    pressed: Set<u32>,
    released: Set<u32>,
    schema: Seq<(u32, Seq<char>)>,
) -> Result<ButtonsView, Seq<char>> {
    if !schema_valid(schema) {
        Err(schema_message())
    } else if exists|a: u32| #[trigger] values.contains_key(a) && (values[a].spec_raw() != i16::MAX
        || !schema_has_action(schema, a)) {
        Err(digital_message())
    } else if exists|a: u32| #[trigger] released.contains(a) && !schema_has_action(schema, a) {
        Err(release_message())
    } else {
        Ok((names_of(schema, values.dom()), names_of(schema, pressed), names_of(schema, released)))
    }
}

/// Decoding a list of names one by one: the set of their actions, or the
/// first error.
pub open spec fn decode_list(schema: Seq<(u32, Seq<char>)>, names: Seq<Seq<char>>) -> Result<Set<u32>, Seq<char>>
    decreases names.len(),
{
    if names.len() == 0 {
        Ok(Set::empty())
    } else {
        match decode_list(schema, names.drop_last()) {
            Err(message) => Err(message),
            Ok(actions) => match lookup_name(schema, names.last()) {
                None => Err(unknown_message(names.last())),
                Some(action) => if actions.contains(action) {
                    Err(duplicate_message())
                } else {
                    Ok(actions.insert(action))
                },
            },
        }
    }
}

pub open spec fn decode_names_spec(schema: Seq<(u32, Seq<char>)>, names: Seq<Seq<char>>) -> Result<Set<u32>, Seq<char>> {
    if names.len() > schema.len() {
        Err(too_many_message())
    } else {
        decode_list(schema, names)
    }
}

/// What decoding a recorded frame gives: an error message or its actions.
pub open spec fn decode_spec(buttons: ButtonsView, schema: Seq<(u32, Seq<char>)>) -> Result<EdgesView, Seq<char>> {
    if !schema_valid(schema) {
        Err(schema_message())
    } else {
        match decode_names_spec(schema, buttons.0) {
            Err(message) => Err(message),
            Ok(active) => match decode_names_spec(schema, buttons.1) {
                Err(message) => Err(message),
                Ok(pressed) => match decode_names_spec(schema, buttons.2) {
                    Err(message) => Err(message),
                    Ok(released) => if !pressed.subset_of(active) || !released.disjoint(active) {
                        Err(conflict_message())
                    } else {
                        Ok((active, pressed, released))
                    },
                },
            },
        }
    }
}

/// Checks that every name is nonempty and no action or name occurs twice.
fn validate_schema(schema: &[(u32, String)]) -> (r: Result<(), String>)
    ensures
        r is Ok <==> schema_valid(schema_view(schema@)),
        r matches Err(e) ==> e@ == schema_message(),
{
    let ghost view = schema_view(schema@);
    let mut i: usize = 0;
    while i < schema.len()
        invariant
            i <= schema@.len(),
            view == schema_view(schema@),
            forall|k: int| 0 <= k < i ==> (#[trigger] view[k]).1.len() > 0,
            forall|k: int, j: int| 0 <= k < j < i ==> (#[trigger] view[k]).0 != (#[trigger] view[j]).0
                && view[k].1 != view[j].1,
        decreases schema@.len() - i,
    {
        let bad_name = schema[i].1.as_str().is_empty();
        proof {
            assert(view[i as int] == (schema@[i as int].0, schema@[i as int].1@));
        }
        if bad_name {
            return Err("recording action schema must have unique actions and nonempty names".to_owned());
        }
        let mut j: usize = 0;
        while j < i
            invariant
                i < schema@.len(),
                j <= i,
                view == schema_view(schema@),
                forall|k: int| 0 <= k < j ==> view[k].0 != view[i as int].0 && view[k].1 != view[i as int].1,
            decreases i - j,
        {
            if schema[j].0 == schema[i].0 || schema[j].1 == schema[i].1 {
                proof {
                    assert(view[j as int] == (schema@[j as int].0, schema@[j as int].1@));
                    assert(view[i as int] == (schema@[i as int].0, schema@[i as int].1@));
                    assert(!schema_valid(view));
                }
                return Err("recording action schema must have unique actions and nonempty names".to_owned());
            }
            j += 1;
        }
        i += 1;
    }
    Ok(())
}

fn schema_has(schema: &[(u32, String)], action: u32) -> (r: bool)
    ensures
        r == schema_has_action(schema_view(schema@), action),
{
    let mut i: usize = 0;
    while i < schema.len()
        invariant
            i <= schema@.len(),
            forall|k: int| 0 <= k < i ==> (#[trigger] schema@[k]).0 != action,
        decreases schema@.len() - i,
    {
        if schema[i].0 == action {
            proof {
                assert(schema_view(schema@)[i as int].0 == action);
            }
            return true;
        }
        i += 1;
    }
    proof {
        assert forall|k: int| 0 <= k < schema@.len() implies (#[trigger] schema_view(schema@)[k]).0 != action by {
            assert(schema@[k].0 != action);
        }
    }
    false
}

/// The action named `name`, scanning the schema from the start.
fn find_name(schema: &[(u32, String)], name: &String) -> (r: Option<u32>)
    requires
        schema_valid(schema_view(schema@)),
    ensures
        r == lookup_name(schema_view(schema@), name@),
{
    let ghost view = schema_view(schema@);
    let mut i: usize = 0;
    while i < schema.len()
        invariant
            i <= schema@.len(),
            view == schema_view(schema@),
            forall|k: int| 0 <= k < i ==> (#[trigger] view[k]).1 != name@,
            schema_valid(view),
        decreases schema@.len() - i,
    {
        if schema[i].1 == *name {
            proof {
                assert(view[i as int].1 == name@);
                let c = choose|c: int| 0 <= c < view.len() && (#[trigger] view[c]).1 == name@;
                if c != i {
                    if c < i {
                        assert(view[c].1 != view[i as int].1);
                    } else {
                        assert(view[i as int].1 != view[c].1);
                    }
                }
            }
            return Some(schema[i].0);
        }
        i += 1;
    }
    None
}

/// The names of the schema's actions that the predicate selects.
proof fn lemma_names_of_step(schema: Seq<(u32, Seq<char>)>, actions: Set<u32>, i: int)
    requires
        0 <= i < schema.len(),
    ensures
        names_of(schema.take(i + 1), actions) == if actions.contains(schema[i].0) {
            names_of(schema.take(i), actions).push(schema[i].1)
        } else {
            names_of(schema.take(i), actions)
        },
{
    assert(schema.take(i + 1).drop_last() =~= schema.take(i));
}

/// The actions listed in a sample.
pub open spec fn keys_of(list: Seq<(u32, ActionValue)>) -> Set<u32> {
    Set::new(|a: u32| exists|k: int| 0 <= k < list.len() && (#[trigger] list[k]).0 == a)
}

/// A sample of pressed buttons activates exactly its listed actions.
proof fn lemma_sampled_pressed(list: Seq<(u32, ActionValue)>)
    requires
        forall|k: int| 0 <= k < list.len() ==> (#[trigger] list[k]).1.spec_raw() == i16::MAX,
    ensures
        sampled(list).dom() == keys_of(list),
        forall|a: u32| #[trigger] sampled(list).contains_key(a) ==> sampled(list)[a].spec_raw() == i16::MAX,
    decreases list.len(),
{
    if list.len() > 0 {
        let rest = list.drop_last();
        assert forall|k: int| 0 <= k < rest.len() implies (#[trigger] rest[k]).1.spec_raw() == i16::MAX by {
            assert(rest[k] == list[k]);
        }
        lemma_sampled_pressed(rest);
        assert forall|a: u32| #[trigger] keys_of(list).contains(a) == keys_of(rest).insert(list.last().0).contains(a) by {
            if keys_of(list).contains(a) {
                let k = choose|k: int| 0 <= k < list.len() && (#[trigger] list[k]).0 == a;
                if k < rest.len() {
                    assert(rest[k] == list[k]);
                }
            }
            if keys_of(rest).contains(a) {
                let k = choose|k: int| 0 <= k < rest.len() && (#[trigger] rest[k]).0 == a;
                assert(rest[k] == list[k]);
            }
            if a == list.last().0 {
                assert(list[list.len() - 1].0 == a);
            }
        }
        assert(sampled(list).dom() =~= keys_of(list));
    } else {
        assert(sampled(list).dom() =~= keys_of(list));
    }
}

fn list_contains(actions: &Vec<u32>, action: u32) -> (r: bool)
    ensures
        r == actions@.contains(action),
{
    let mut i: usize = 0;
    while i < actions.len()
        invariant
            i <= actions@.len(),
            forall|j: int| 0 <= j < i ==> actions@[j] != action,
        decreases actions@.len() - i,
    {
        if actions[i] == action {
            return true;
        }
        i += 1;
    }
    false
}

/// Decodes one list of recorded names into actions.
fn decode_names(names: &Vec<String>, schema: &[(u32, String)]) -> (r: Result<Vec<u32>, String>)
    requires
        schema_valid(schema_view(schema@)),
    ensures
        match decode_names_spec(schema_view(schema@), names_view(names@)) {
            Ok(actions) => r matches Ok(v) && v@.to_set() == actions,
            Err(message) => r matches Err(e) && e@ == message,
        },
{
    let ghost sv = schema_view(schema@);
    let ghost nv = names_view(names@);
    if names.len() > schema.len() {
        return Err("too many actions in recorded frame".to_owned());
    }
    let mut actions: Vec<u32> = Vec::new();
    proof {
        assert(sv.len() == schema@.len());
        assert(nv.len() == names@.len());
        assert(nv.take(0) =~= Seq::<Seq<char>>::empty());
        assert(actions@.to_set() =~= Set::<u32>::empty());
    }
    let mut i: usize = 0;
    while i < names.len()
        invariant
            schema_valid(sv),
            sv == schema_view(schema@),
            nv == names_view(names@),
            i <= names@.len(),
            decode_list(sv, nv.take(i as int)) == Ok::<Set<u32>, Seq<char>>(actions@.to_set()),
            sv.len() == schema@.len(),
            nv.len() == names@.len(),
            names@.len() <= schema@.len(),
        decreases names@.len() - i,
    {
        proof {
            assert(nv.take(i as int + 1).drop_last() =~= nv.take(i as int));
            assert(nv.take(i as int + 1).last() == names@[i as int]@);
        }
        match find_name(schema, &names[i]) {
            None => {
                let message = "unknown recorded action: ".to_owned().concat(names[i].as_str());
                proof {
                    assert(decode_list(sv, nv.take(i as int + 1)) == Err::<Set<u32>, Seq<char>>(unknown_message(names@[i as int]@)));
                    lemma_decode_list_error(sv, nv, i as int + 1);
                    assert(nv.take(nv.len() as int) =~= nv);
                }
                return Err(message);
            },
            Some(action) => {
                if list_contains(&actions, action) {
                    proof {
                        assert(actions@.to_set().contains(action));
                        lemma_decode_list_error(sv, nv, i as int + 1);
                        assert(nv.take(nv.len() as int) =~= nv);
                    }
                    return Err("duplicate recorded action".to_owned());
                }
                let ghost old_set = actions@.to_set();
                let ghost old_seq = actions@;
                proof {
                    assert(!old_set.contains(action));
                    assert(decode_list(sv, nv.take(i as int + 1)) == Ok::<Set<u32>, Seq<char>>(old_set.insert(action)));
                }
                actions.push(action);
                proof {
                    assert(actions@.drop_last() =~= old_seq);
                    assert(actions@.to_set() =~= actions@.drop_last().to_set().insert(action)) by {
                        assert forall|x: u32| actions@.to_set().contains(x) implies actions@.drop_last().to_set().insert(action).contains(x) by {
                            let j = choose|j: int| 0 <= j < actions@.len() && actions@[j] == x;
                            if j < actions@.len() - 1 {
                                assert(actions@.drop_last()[j] == x);
                            }
                        }
                        assert forall|x: u32| actions@.drop_last().to_set().insert(action).contains(x) implies actions@.to_set().contains(x) by {
                            if x == action {
                                assert(actions@[actions@.len() - 1] == x);
                            } else {
                                let j = choose|j: int| 0 <= j < actions@.drop_last().len() && actions@.drop_last()[j] == x;
                                assert(actions@[j] == x);
                            }
                        }
                    }
                }
            },
        }
        i += 1;
    }
    proof {
        assert(nv.take(nv.len() as int) =~= nv);
    }
    Ok(actions)
}

/// Once decoding a prefix of the names fails, decoding all of them fails
/// with the same message.
proof fn lemma_decode_list_error(schema: Seq<(u32, Seq<char>)>, names: Seq<Seq<char>>, k: int)
    requires
        0 <= k <= names.len(),
        decode_list(schema, names.take(k)) is Err,
    ensures
        decode_list(schema, names) == decode_list(schema, names.take(k)),
    decreases names.len() - k,
{
    if k < names.len() {
        assert(names.take(k + 1).drop_last() =~= names.take(k));
        lemma_decode_list_error(schema, names, k + 1);
    } else {
        assert(names.take(k) =~= names);
    }
}

/// The actions of the first `k` schema entries.
pub open spec fn schema_actions(schema: Seq<(u32, Seq<char>)>, k: int) -> Set<u32> {
    Set::new(|a: u32| exists|i: int| 0 <= i < k && (#[trigger] schema[i]).0 == a)
}

proof fn lemma_names_of_len(schema: Seq<(u32, Seq<char>)>, actions: Set<u32>)
    ensures
        names_of(schema, actions).len() <= schema.len(),
    decreases schema.len(),
{
    if schema.len() > 0 {
        lemma_names_of_len(schema.drop_last(), actions);
    }
}

/// Decoding the names that a valid schema gives a set of actions recovers
/// those of its actions that the schema's first `k` entries hold.
proof fn lemma_decode_names_of(schema: Seq<(u32, Seq<char>)>, actions: Set<u32>, k: int)
    requires
        schema_valid(schema),
        0 <= k <= schema.len(),
    ensures
        decode_list(schema, names_of(schema.take(k), actions)) == Ok::<Set<u32>, Seq<char>>(
            actions.intersect(schema_actions(schema, k)),
        ),
    decreases k,
{
    if k == 0 {
        assert(schema.take(0) =~= Seq::<(u32, Seq<char>)>::empty());
        assert(actions.intersect(schema_actions(schema, 0)) =~= Set::<u32>::empty());
    } else {
        lemma_decode_names_of(schema, actions, k - 1);
        lemma_names_of_step(schema, actions, k - 1);
        let prev = names_of(schema.take(k - 1), actions);
        let found = actions.intersect(schema_actions(schema, k - 1));
        let entry = schema[k - 1];
        if actions.contains(entry.0) {
            assert(prev.push(entry.1).drop_last() =~= prev);
            assert(lookup_name(schema, entry.1) == Some(entry.0)) by {
                assert(schema[k - 1].1 == entry.1);
                let c = choose|c: int| 0 <= c < schema.len() && (#[trigger] schema[c]).1 == entry.1;
                if c < k - 1 {
                    assert(schema[c].1 != schema[k - 1].1);
                } else if c > k - 1 {
                    assert(schema[k - 1].1 != schema[c].1);
                }
            }
            assert(!found.contains(entry.0)) by {
                if found.contains(entry.0) {
                    let i = choose|i: int| 0 <= i < k - 1 && (#[trigger] schema[i]).0 == entry.0;
                    assert(schema[i].0 != schema[k - 1].0);
                }
            }
            assert(found.insert(entry.0) =~= actions.intersect(schema_actions(schema, k))) by {
                assert forall|a: u32| actions.intersect(schema_actions(schema, k)).contains(a) implies found.insert(entry.0).contains(a) by {
                    let i = choose|i: int| 0 <= i < k && (#[trigger] schema[i]).0 == a;
                    if i < k - 1 {
                        assert(schema_actions(schema, k - 1).contains(a));
                    }
                }
                assert forall|a: u32| found.insert(entry.0).contains(a) implies actions.intersect(schema_actions(schema, k)).contains(a) by {
                    if a == entry.0 {
                        assert(schema[k - 1].0 == a);
                    } else {
                        let i = choose|i: int| 0 <= i < k - 1 && (#[trigger] schema[i]).0 == a;
                    }
                }
            }
        } else {
            assert(found =~= actions.intersect(schema_actions(schema, k))) by {
                assert forall|a: u32| actions.intersect(schema_actions(schema, k)).contains(a) implies found.contains(a) by {
                    let i = choose|i: int| 0 <= i < k && (#[trigger] schema[i]).0 == a;
                    if i < k - 1 {
                        assert(schema_actions(schema, k - 1).contains(a));
                    }
                }
                assert forall|a: u32| found.contains(a) implies actions.intersect(schema_actions(schema, k)).contains(a) by {
                    let i = choose|i: int| 0 <= i < k - 1 && (#[trigger] schema[i]).0 == a;
                }
            }
        }
    }
}

/// Decoding the names of a set of schema actions gives back that set.
proof fn lemma_decode_captured(schema: Seq<(u32, Seq<char>)>, actions: Set<u32>)
    requires
        schema_valid(schema),
        forall|a: u32| #[trigger] actions.contains(a) ==> schema_has_action(schema, a),
    ensures
        decode_names_spec(schema, names_of(schema, actions)) == Ok::<Set<u32>, Seq<char>>(actions),
{
    lemma_decode_names_of(schema, actions, schema.len() as int);
    lemma_names_of_len(schema, actions);
    assert(schema.take(schema.len() as int) =~= schema);
    assert(actions.intersect(schema_actions(schema, schema.len() as int)) =~= actions) by {
        assert forall|a: u32| actions.contains(a) implies schema_actions(schema, schema.len() as int).contains(a) by {
            assert(schema_has_action(schema, a));
            let i = choose|i: int| 0 <= i < schema.len() && (#[trigger] schema[i]).0 == a;
        }
    }
}

/// A frame that capture accepts decodes back to the same active actions,
/// all pressed, and the same press and release edges, provided its edges
/// agree with its active actions (as every frame of an `InputTracker` does).
pub proof fn law_capture_then_decode(
    values: Map<u32, ActionValue>,
    pressed: Set<u32>,
    released: Set<u32>,
    schema: Seq<(u32, Seq<char>)>,
)
    requires
        pressed.subset_of(values.dom()),
        released.disjoint(values.dom()),
        capture_spec(values, pressed, released, schema) is Ok,
    ensures
        capture_spec(values, pressed, released, schema) matches Ok(buttons) && decode_spec(buttons, schema)
            == Ok::<EdgesView, Seq<char>>((values.dom(), pressed, released)),
        forall|a: u32| #[trigger] values.contains_key(a) ==> values[a].spec_raw() == i16::MAX,
{
    assert forall|a: u32| #[trigger] values.dom().contains(a) implies schema_has_action(schema, a) by {
        assert(values.contains_key(a));
    }
    assert forall|a: u32| #[trigger] pressed.contains(a) implies schema_has_action(schema, a) by {
        assert(values.contains_key(a));
    }
    lemma_decode_captured(schema, values.dom());
    lemma_decode_captured(schema, pressed);
    lemma_decode_captured(schema, released);
}

/// Decoding is stable under a capture round trip: a recorded frame that
/// decodes, captured again and decoded, gives the same actions and edges.
pub proof fn law_decode_then_capture(buttons: ButtonsView, schema: Seq<(u32, Seq<char>)>)
    requires
        decode_spec(buttons, schema) is Ok,
    ensures
        decode_spec(buttons, schema) matches Ok(edges) && {
            let values = Map::new(|a: u32| edges.0.contains(a), |a: u32| pressed_value());
            &&& capture_spec(values, edges.1, edges.2, schema) matches Ok(again)
            &&& decode_spec(again, schema) == Ok::<EdgesView, Seq<char>>(edges)
        },
{
    let edges = decode_spec(buttons, schema)->Ok_0;
    let values = Map::new(|a: u32| edges.0.contains(a), |a: u32| pressed_value());
    lemma_pressed_value();
    lemma_decode_actions_in_schema(schema, buttons.0);
    lemma_decode_actions_in_schema(schema, buttons.2);
    assert(values.dom() =~= edges.0);
    assert(!(exists|a: u32| #[trigger] values.contains_key(a) && (values[a].spec_raw() != i16::MAX
        || !schema_has_action(schema, a))));
    law_capture_then_decode(values, edges.1, edges.2, schema);
}

/// Every action that a list of names decodes to is in the schema.
proof fn lemma_decode_actions_in_schema(schema: Seq<(u32, Seq<char>)>, names: Seq<Seq<char>>)
    requires
        decode_names_spec(schema, names) is Ok,
    ensures
        forall|a: u32| #[trigger] (decode_names_spec(schema, names)->Ok_0).contains(a) ==> schema_has_action(schema, a),
{
    lemma_decode_list_in_schema(schema, names);
}

proof fn lemma_decode_list_in_schema(schema: Seq<(u32, Seq<char>)>, names: Seq<Seq<char>>)
    requires
        decode_list(schema, names) is Ok,
    ensures
        forall|a: u32| #[trigger] (decode_list(schema, names)->Ok_0).contains(a) ==> schema_has_action(schema, a),
    decreases names.len(),
{
    if names.len() > 0 {
        lemma_decode_list_in_schema(schema, names.drop_last());
        let name = names.last();
        if exists|i: int| 0 <= i < schema.len() && (#[trigger] schema[i]).1 == name {
            let c = choose|i: int| 0 <= i < schema.len() && (#[trigger] schema[i]).1 == name;
            assert(schema_has_action(schema, schema[c].0));
        }
    }
}

impl RecordedButtons {
    /// Captures the exact consumed edges, including a held start with no press.
    /// The schema must name every action used by this digital input source.
    pub fn capture(input: &InputFrame, schema: &[(u32, String)]) -> (r: Result<Self, String>)
        requires
            input.wf(),
        ensures
            match capture_spec(input.spec_values(), input.spec_pressed(), input.spec_released(), schema_view(schema@)) {
                Ok(view) => r matches Ok(buttons) && buttons.spec_view() == view,
                Err(message) => r matches Err(e) && e@ == message,
            },
    {
        let ghost sv = schema_view(schema@);
        let valid = validate_schema(schema);
        match valid {
            Ok(()) => {},
            Err(e) => {
                return Err(e);
            },
        }
        let active = input.active_actions();
        let mut i: usize = 0;
        while i < active.len()
            invariant
                input.wf(),
                sv == schema_view(schema@),
                i <= active@.len(),
                active@.len() == input.spec_active_order().len(),
                forall|a: u32| #[trigger] input.spec_values().contains_key(a) <==> input.spec_active_order().contains(a),
                forall|k: int| 0 <= k < active@.len() ==> (#[trigger] active@[k]).0 == input.spec_active_order()[k]
                    && active@[k].1 == input.spec_values()[active@[k].0],
                forall|k: int| 0 <= k < i ==> (#[trigger] active@[k]).1.spec_raw() == i16::MAX
                    && schema_has_action(sv, active@[k].0),
                schema_valid(sv),
            decreases active@.len() - i,
        {
            let (action, value) = active[i];
            if value.raw() != i16::MAX || !schema_has(schema, action) {
                proof {
                    assert(active@[i as int].0 == input.spec_active_order()[i as int]);
                    assert(input.spec_active_order().contains(action));
                    assert(input.spec_values().contains_key(action));
                    assert(value == input.spec_values()[action]);
                    assert(schema_valid(sv));
                }
                return Err("recording requires mapped digital button values".to_owned());
            }
            i += 1;
        }
        proof {
            assert forall|a: u32| #[trigger] input.spec_values().contains_key(a) implies input.spec_values()[a].spec_raw() == i16::MAX
                && schema_has_action(sv, a) by {
                let k = choose|k: int| 0 <= k < input.spec_active_order().len() && input.spec_active_order()[k] == a;
                assert(active@[k].0 == a);
            }
        }
        let released = input.released_actions();
        let mut i: usize = 0;
        while i < released.len()
            invariant
                sv == schema_view(schema@),
                i <= released@.len(),
                released@.to_set() == input.spec_released(),
                forall|k: int| 0 <= k < i ==> schema_has_action(sv, #[trigger] released@[k]),
                schema_valid(sv),
                forall|a: u32| #[trigger] input.spec_values().contains_key(a) ==> input.spec_values()[a].spec_raw() == i16::MAX
                    && schema_has_action(sv, a),
            decreases released@.len() - i,
        {
            if !schema_has(schema, released[i]) {
                proof {
                    assert(released@.to_set().contains(released@[i as int]));
                }
                return Err("recording requires mapped release edges".to_owned());
            }
            i += 1;
        }
        proof {
            assert forall|a: u32| #[trigger] input.spec_released().contains(a) implies schema_has_action(sv, a) by {
                let k = choose|k: int| 0 <= k < released@.len() && released@[k] == a;
            }
        }
        let mut active_names: Vec<String> = Vec::new();
        let mut pressed_names: Vec<String> = Vec::new();
        let mut released_names: Vec<String> = Vec::new();
        let mut i: usize = 0;
        while i < schema.len()
            invariant
                input.wf(),
                sv == schema_view(schema@),
                i <= schema@.len(),
                names_view(active_names@) == names_of(sv.take(i as int), input.spec_values().dom()),
                names_view(pressed_names@) == names_of(sv.take(i as int), input.spec_pressed()),
                names_view(released_names@) == names_of(sv.take(i as int), input.spec_released()),
            decreases schema@.len() - i,
        {
            let action = schema[i].0;
            proof {
                lemma_names_of_step(sv, input.spec_values().dom(), i as int);
                lemma_names_of_step(sv, input.spec_pressed(), i as int);
                lemma_names_of_step(sv, input.spec_released(), i as int);
                assert(sv[i as int] == (action, schema@[i as int].1@));
            }
            if input.is_active(action) {
                active_names.push(schema[i].1.clone());
                proof {
                    assert(names_view(active_names@) =~= names_of(sv.take(i as int), input.spec_values().dom()).push(sv[i as int].1));
                }
            }
            if input.just_pressed(action) {
                pressed_names.push(schema[i].1.clone());
                proof {
                    assert(names_view(pressed_names@) =~= names_of(sv.take(i as int), input.spec_pressed()).push(sv[i as int].1));
                }
            }
            if input.just_released(action) {
                released_names.push(schema[i].1.clone());
                proof {
                    assert(names_view(released_names@) =~= names_of(sv.take(i as int), input.spec_released()).push(sv[i as int].1));
                }
            }
            i += 1;
        }
        proof {
            assert(sv.take(sv.len() as int) =~= sv);
        }
        Ok(RecordedButtons { active: active_names, pressed: pressed_names, released: released_names })
    }

    /// Decodes each frame independently. Host samplers may release and repress
    /// between ticks, so adjacent frames need not imply continuous held input.
    #[verifier::loop_isolation(false)]
    pub fn decode(&self, schema: &[(u32, String)]) -> (r: Result<InputFrame, String>)
        ensures
            match decode_spec(self.spec_view(), schema_view(schema@)) {
                Ok((active, pressed, released)) => r matches Ok(frame) && {
                    &&& frame.wf()
                    &&& frame.spec_values().dom() == active
                    &&& forall|a: u32| #[trigger] frame.spec_values().contains_key(a) ==> frame.spec_values()[a].spec_raw() == i16::MAX
                    &&& frame.spec_pressed() == pressed
                    &&& frame.spec_released() == released
                },
                Err(message) => r matches Err(e) && e@ == message,
            },
    {
        match validate_schema(schema) {
            Ok(()) => {},
            Err(e) => {
                return Err(e);
            },
        }
        let active = match decode_names(&self.active, schema) {
            Ok(actions) => actions,
            Err(e) => {
                return Err(e);
            },
        };
        let pressed = match decode_names(&self.pressed, schema) {
            Ok(actions) => actions,
            Err(e) => {
                return Err(e);
            },
        };
        let released = match decode_names(&self.released, schema) {
            Ok(actions) => actions,
            Err(e) => {
                return Err(e);
            },
        };
        let ghost active_set = active@.to_set();
        let ghost pressed_set = pressed@.to_set();
        let ghost released_set = released@.to_set();
        let mut i: usize = 0;
        while i < pressed.len()
            invariant
                i <= pressed@.len(),
                forall|k: int| 0 <= k < i ==> active@.contains(#[trigger] pressed@[k]),
            decreases pressed@.len() - i,
        {
            if !list_contains(&active, pressed[i]) {
                proof {
                    assert(pressed_set.contains(pressed@[i as int]));
                    assert(!pressed_set.subset_of(active_set));
                }
                return Err("recorded edges conflict with active actions".to_owned());
            }
            i += 1;
        }
        let mut i: usize = 0;
        while i < released.len()
            invariant
                i <= released@.len(),
                forall|k: int| 0 <= k < i ==> !active@.contains(#[trigger] released@[k]),
            decreases released@.len() - i,
        {
            if list_contains(&active, released[i]) {
                proof {
                    assert(released_set.contains(released@[i as int]));
                    assert(!released_set.disjoint(active_set));
                }
                return Err("recorded edges conflict with active actions".to_owned());
            }
            i += 1;
        }
        proof {
            assert(pressed_set.subset_of(active_set)) by {
                assert forall|a: u32| pressed_set.contains(a) implies active_set.contains(a) by {
                    let k = choose|k: int| 0 <= k < pressed@.len() && pressed@[k] == a;
                }
            }
            assert(released_set.disjoint(active_set)) by {
                assert forall|a: u32| released_set.contains(a) implies !active_set.contains(a) by {
                    let k = choose|k: int| 0 <= k < released@.len() && released@[k] == a;
                }
            }
        }
        let mut before: Vec<(u32, ActionValue)> = Vec::new();
        let mut now: Vec<(u32, ActionValue)> = Vec::new();
        let mut i: usize = 0;
        while i < active.len()
            invariant
                i <= active@.len(),
                forall|k: int| 0 <= k < before@.len() ==> (#[trigger] before@[k]).1.spec_raw() == i16::MAX,
                forall|k: int| 0 <= k < now@.len() ==> (#[trigger] now@[k]).1.spec_raw() == i16::MAX,
                keys_of(before@) == Set::new(|a: u32| exists|k: int| 0 <= k < i && active@[k] == a && !pressed@.contains(a)),
                keys_of(now@) == Set::new(|a: u32| exists|k: int| 0 <= k < i && active@[k] == a),
            decreases active@.len() - i,
        {
            let a = active[i];
            let ghost b0 = before@;
            let ghost n0 = now@;
            if !list_contains(&pressed, a) {
                before.push((a, ActionValue::pressed()));
            }
            now.push((a, ActionValue::pressed()));
            proof {
                assert forall|x: u32| #[trigger] keys_of(now@).contains(x) == (exists|k: int| 0 <= k < i + 1 && active@[k] == x) by {
                    if keys_of(now@).contains(x) {
                        let k = choose|k: int| 0 <= k < now@.len() && (#[trigger] now@[k]).0 == x;
                        if k < n0.len() {
                            assert(now@[k] == n0[k]);
                            assert(keys_of(n0).contains(x));
                        } else {
                            assert(active@[i as int] == x);
                        }
                    }
                    if exists|k: int| 0 <= k < i + 1 && active@[k] == x {
                        let k = choose|k: int| 0 <= k < i + 1 && active@[k] == x;
                        if k < i {
                            assert(keys_of(n0).contains(x));
                            let m = choose|m: int| 0 <= m < n0.len() && (#[trigger] n0[m]).0 == x;
                            assert(now@[m] == n0[m]);
                        } else {
                            assert(now@[n0.len() as int].0 == x);
                        }
                    }
                }
                assert(keys_of(now@) =~= Set::new(|x: u32| exists|k: int| 0 <= k < i + 1 && active@[k] == x));
                assert forall|x: u32| #[trigger] keys_of(before@).contains(x) == (exists|k: int| 0 <= k < i + 1 && active@[k] == x && !pressed@.contains(x)) by {
                    if keys_of(before@).contains(x) {
                        let k = choose|k: int| 0 <= k < before@.len() && (#[trigger] before@[k]).0 == x;
                        if k < b0.len() {
                            assert(before@[k] == b0[k]);
                            assert(keys_of(b0).contains(x));
                        } else {
                            assert(active@[i as int] == x);
                        }
                    }
                    if exists|k: int| 0 <= k < i + 1 && active@[k] == x && !pressed@.contains(x) {
                        let k = choose|k: int| 0 <= k < i + 1 && active@[k] == x && !pressed@.contains(x);
                        if k < i {
                            assert(keys_of(b0).contains(x));
                            let m = choose|m: int| 0 <= m < b0.len() && (#[trigger] b0[m]).0 == x;
                            assert(before@[m] == b0[m]);
                        } else {
                            assert(before@[b0.len() as int].0 == x);
                        }
                    }
                }
                assert(keys_of(before@) =~= Set::new(|x: u32| exists|k: int| 0 <= k < i + 1 && active@[k] == x && !pressed@.contains(x)));
            }
            i += 1;
        }
        let ghost held_before = keys_of(before@);
        let mut i: usize = 0;
        while i < released.len()
            invariant
                i <= released@.len(),
                forall|k: int| 0 <= k < before@.len() ==> (#[trigger] before@[k]).1.spec_raw() == i16::MAX,
                keys_of(before@) == held_before.union(Set::new(|a: u32| exists|k: int| 0 <= k < i && released@[k] == a)),
            decreases released@.len() - i,
        {
            let a = released[i];
            let ghost b0 = before@;
            before.push((a, ActionValue::pressed()));
            proof {
                assert forall|x: u32| #[trigger] keys_of(before@).contains(x) == (held_before.contains(x) || exists|k: int| 0 <= k < i + 1 && released@[k] == x) by {
                    if keys_of(before@).contains(x) {
                        let k = choose|k: int| 0 <= k < before@.len() && (#[trigger] before@[k]).0 == x;
                        if k < b0.len() {
                            assert(before@[k] == b0[k]);
                            assert(keys_of(b0).contains(x));
                        } else {
                            assert(released@[i as int] == x);
                        }
                    }
                    if held_before.contains(x) || exists|k: int| 0 <= k < i + 1 && released@[k] == x {
                        if held_before.contains(x) || exists|k: int| 0 <= k < i && released@[k] == x {
                            assert(keys_of(b0).contains(x));
                            let m = choose|m: int| 0 <= m < b0.len() && (#[trigger] b0[m]).0 == x;
                            assert(before@[m] == b0[m]);
                        } else {
                            assert(before@[b0.len() as int].0 == x);
                        }
                    }
                }
                assert(keys_of(before@) =~= held_before.union(Set::new(|x: u32| exists|k: int| 0 <= k < i + 1 && released@[k] == x)));
            }
            i += 1;
        }
        let mut tracker = InputTracker::new();
        let _ = tracker.sample(before.as_slice());
        let frame = tracker.sample(now.as_slice());
        proof {
            lemma_sampled_pressed(before@);
            lemma_sampled_pressed(now@);
            let dom_before = sampled(before@).dom();
            let dom_now = sampled(now@).dom();
            assert(dom_now =~= active_set);
            assert(dom_before =~= active_set.difference(pressed_set).union(released_set));
            assert(frame.spec_pressed() =~= pressed_set);
            assert(frame.spec_released() =~= released_set);
        }
        Ok(frame)
    }
}

#[verifier::external_type_specification]
#[verifier::external_body]
pub struct ExJsonValue(serde_json::Value);

/// `serde_json::Value`'s derived `Clone`: an equal value.
pub assume_specification[<serde_json::Value as Clone>::clone](value: &serde_json::Value) -> (r: serde_json::Value)
    ensures
        r == *value,
;

/// What a recording must match to be replayed by a game.
#[derive(Clone, Copy, Debug)]
pub struct RecordingIdentity<'a> {
    pub game_seed: u64,
    pub action_schema: &'a str,
    pub fixed_step_nanos: u64,
    pub max_ticks: usize,
}

/// Portable digital recording envelope. Version 1 has a game-defined
/// canonical origin; version 2 requires both snapshots. The snapshots and the
/// final state are game-owned JSON that the envelope only carries.
#[derive(Clone, Debug)]
pub struct SnapshotRecording {
    pub format_version: u32,
    pub game_seed: u64,
    pub action_schema: String,
    pub fixed_step_nanos: u64,
    pub start_host_frame: u64,
    pub recorded_ticks: usize,
    pub max_ticks: usize,
    pub truncated: bool,
    pub invalid_reason: Option<String>,
    pub frames: Vec<RecordedButtons>,
    pub initial_snapshot: Option<serde_json::Value>,
    pub final_snapshot: Option<serde_json::Value>,
    pub final_state: serde_json::Value,
    pub final_checksum: String,
}

pub open spec fn header_message() -> Seq<char> {
    "unsupported recording header"@
}

pub open spec fn snapshot_message() -> Seq<char> {
    "recording snapshot/version mismatch"@
}

pub open spec fn unavailable_message() -> Seq<char> {
    "recording is truncated or invalidated; exact replay is unavailable"@
}

pub open spec fn frame_count_message() -> Seq<char> {
    "recording frame count exceeds bounds or differs from header"@
}

/// Why a parsed recording cannot be replayed under an identity, if it cannot.
pub open spec fn replay_problem(r: SnapshotRecording, identity: RecordingIdentity, allow_legacy: bool) -> Option<Seq<char>> {
    if !(r.format_version == 2 || allow_legacy && r.format_version == 1) || r.game_seed != identity.game_seed
        || r.action_schema@ != identity.action_schema@ || r.fixed_step_nanos != identity.fixed_step_nanos
        || r.max_ticks != identity.max_ticks {
        Some(header_message())
    } else if (r.format_version == 2) != (r.initial_snapshot is Some && r.final_snapshot is Some) || (
    r.format_version == 1 && (r.initial_snapshot is Some || r.final_snapshot is Some)) {
        Some(snapshot_message())
    } else if r.truncated || r.invalid_reason is Some {
        Some(unavailable_message())
    } else if r.frames@.len() > identity.max_ticks || r.frames@.len() != r.recorded_ticks {
        Some(frame_count_message())
    } else {
        None
    }
}

impl SnapshotRecording {
    /// Checks a parsed recording against the game's identity: the header, the
    /// snapshots its version requires, that it was neither truncated nor
    /// invalidated, and its frame count. Call each frame's `decode` and the
    /// game's validators before installation.
    pub fn check_replayable(&self, identity: RecordingIdentity, allow_legacy: bool) -> (r: Result<(), String>)
        ensures
            match replay_problem(*self, identity, allow_legacy) {
                None => r is Ok,
                Some(message) => r matches Err(e) && e@ == message,
            },
    {
        let schema = identity.action_schema.to_owned();
        let version_ok = self.format_version == 2 || allow_legacy && self.format_version == 1;
        if !version_ok || self.game_seed != identity.game_seed || self.action_schema != schema
            || self.fixed_step_nanos != identity.fixed_step_nanos || self.max_ticks != identity.max_ticks {
            return Err("unsupported recording header".to_owned());
        }
        let both = self.initial_snapshot.is_some() && self.final_snapshot.is_some();
        let either = self.initial_snapshot.is_some() || self.final_snapshot.is_some();
        if (self.format_version == 2) != both || (self.format_version == 1 && either) {
            return Err("recording snapshot/version mismatch".to_owned());
        }
        if self.truncated || self.invalid_reason.is_some() {
            return Err("recording is truncated or invalidated; exact replay is unavailable".to_owned());
        }
        if self.frames.len() > identity.max_ticks || self.frames.len() != self.recorded_ticks {
            return Err("recording frame count exceeds bounds or differs from header".to_owned());
        }
        Ok(())
    }
}

/// A bounded segment beginning at a complete game-owned snapshot.
pub struct SnapshotRecorder {
    pub initial_snapshot: serde_json::Value,
    pub start_host_frame: u64,
    frames: Vec<RecordedButtons>,
    truncated: bool,
    invalid_reason: Option<String>,
    max_ticks: usize,
}

impl SnapshotRecorder {
    pub closed spec fn spec_initial_snapshot(&self) -> serde_json::Value {
        self.initial_snapshot
    }

    pub closed spec fn spec_start_host_frame(&self) -> u64 {
        self.start_host_frame
    }

    pub closed spec fn spec_frames(&self) -> Seq<RecordedButtons> {
        self.frames@
    }

    pub closed spec fn spec_truncated(&self) -> bool {
        self.truncated
    }

    pub closed spec fn spec_invalid_reason(&self) -> Option<Seq<char>> {
        match self.invalid_reason {
            Some(reason) => Some(reason@),
            None => None,
        }
    }

    pub closed spec fn spec_max_ticks(&self) -> usize {
        self.max_ticks
    }

    /// The recorder never holds more frames than its limit.
    pub closed spec fn wf(&self) -> bool {
        self.frames@.len() <= self.max_ticks
    }

    pub fn new(initial_snapshot: serde_json::Value, start_host_frame: u64, max_ticks: usize) -> (r: Self)
        ensures
            r.wf(),
            r.spec_initial_snapshot() == initial_snapshot,
            r.spec_start_host_frame() == start_host_frame,
            r.spec_frames().len() == 0,
            !r.spec_truncated(),
            r.spec_invalid_reason() is None,
            r.spec_max_ticks() == max_ticks,
    {
        SnapshotRecorder {
            initial_snapshot,
            start_host_frame,
            frames: Vec::new(),
            truncated: false,
            invalid_reason: None,
            max_ticks,
        }
    }

    pub fn frames(&self) -> (r: &[RecordedButtons])
        ensures
            r@ == self.spec_frames(),
    {
        self.frames.as_slice()
    }

    pub fn len(&self) -> (r: usize)
        ensures
            r == self.spec_frames().len(),
    {
        self.frames.len()
    }

    pub fn is_empty(&self) -> (r: bool)
        ensures
            r == (self.spec_frames().len() == 0),
    {
        self.frames.len() == 0
    }

    pub fn truncated(&self) -> (r: bool)
        ensures
            r == self.spec_truncated(),
    {
        self.truncated
    }

    pub fn invalid_reason(&self) -> (r: Option<&str>)
        ensures
            match (r, self.spec_invalid_reason()) {
                (Some(text), Some(reason)) => text@ == reason,
                (None, None) => true,
                _ => false,
            },
    {
        match &self.invalid_reason {
            Some(reason) => Some(reason.as_str()),
            None => None,
        }
    }

    /// Keeps the accepted prefix; a frame beyond the limit is dropped and
    /// marks the recording truncated, which invalidates exact replay.
    pub fn push(&mut self, frame: RecordedButtons)
        requires
            old(self).wf(),
        ensures
            final(self).wf(),
            old(self).spec_frames().len() < old(self).spec_max_ticks() ==> final(self).spec_frames()
                == old(self).spec_frames().push(frame) && final(self).spec_truncated() == old(self).spec_truncated(),
            old(self).spec_frames().len() >= old(self).spec_max_ticks() ==> final(self).spec_frames()
                == old(self).spec_frames() && final(self).spec_truncated(),
            final(self).spec_invalid_reason() == old(self).spec_invalid_reason(),
            final(self).spec_max_ticks() == old(self).spec_max_ticks(),
            final(self).spec_initial_snapshot() == old(self).spec_initial_snapshot(),
            final(self).spec_start_host_frame() == old(self).spec_start_host_frame(),
    {
        if self.frames.len() < self.max_ticks {
            self.frames.push(frame);
        } else {
            self.truncated = true;
        }
    }

    /// Records why exact replay is invalid; the first reason is kept.
    pub fn invalidate(&mut self, reason: String)
        requires
            old(self).wf(),
        ensures
            final(self).wf(),
            final(self).spec_invalid_reason() == match old(self).spec_invalid_reason() {
                Some(first) => Some(first),
                None => Some(reason@),
            },
            final(self).spec_frames() == old(self).spec_frames(),
            final(self).spec_truncated() == old(self).spec_truncated(),
            final(self).spec_max_ticks() == old(self).spec_max_ticks(),
            final(self).spec_initial_snapshot() == old(self).spec_initial_snapshot(),
            final(self).spec_start_host_frame() == old(self).spec_start_host_frame(),
    {
        if self.invalid_reason.is_none() {
            self.invalid_reason = Some(reason);
        }
    }

    /// Exports the segment as a version 2 recording under an identity whose
    /// tick limit must be the recorder's.
    pub fn export(&self, identity: RecordingIdentity, final_state: serde_json::Value, final_snapshot: Option<serde_json::Value>, final_checksum: String) -> (r: Result<SnapshotRecording, String>)
        requires
            self.wf(),
        ensures
            identity.max_ticks != self.spec_max_ticks() ==> (r matches Err(e) && e@
                == "recording identity tick limit differs from recorder"@),
            identity.max_ticks == self.spec_max_ticks() ==> (r matches Ok(recording) && {
                &&& recording.format_version == 2
                &&& recording.game_seed == identity.game_seed
                &&& recording.action_schema@ == identity.action_schema@
                &&& recording.fixed_step_nanos == identity.fixed_step_nanos
                &&& recording.start_host_frame == self.spec_start_host_frame()
                &&& recording.recorded_ticks == self.spec_frames().len()
                &&& recording.max_ticks == self.spec_max_ticks()
                &&& recording.truncated == self.spec_truncated()
                &&& match (recording.invalid_reason, self.spec_invalid_reason()) {
                    (Some(text), Some(reason)) => text@ == reason,
                    (None, None) => true,
                    _ => false,
                }
                &&& recording.frames@.len() == self.spec_frames().len()
                &&& forall|i: int| 0 <= i < self.spec_frames().len() ==> (#[trigger] recording.frames@[i]).spec_view()
                    == self.spec_frames()[i].spec_view()
                &&& recording.initial_snapshot == Some(self.spec_initial_snapshot())
                &&& recording.final_snapshot == final_snapshot
                &&& recording.final_state == final_state
                &&& recording.final_checksum@ == final_checksum@
            }),
    {
        if identity.max_ticks != self.max_ticks {
            return Err("recording identity tick limit differs from recorder".to_owned());
        }
        let mut frames: Vec<RecordedButtons> = Vec::new();
        let mut i: usize = 0;
        while i < self.frames.len()
            invariant
                i <= self.frames@.len(),
                frames@.len() == i,
                forall|k: int| 0 <= k < i ==> (#[trigger] frames@[k]).spec_view() == self.frames@[k].spec_view(),
            decreases self.frames@.len() - i,
        {
            frames.push(self.frames[i].clone());
            i += 1;
        }
        let invalid_reason = match &self.invalid_reason {
            Some(reason) => Some(reason.clone()),
            None => None,
        };
        Ok(SnapshotRecording {
            format_version: 2,
            game_seed: identity.game_seed,
            action_schema: identity.action_schema.to_owned(),
            fixed_step_nanos: identity.fixed_step_nanos,
            start_host_frame: self.start_host_frame,
            recorded_ticks: self.frames.len(),
            max_ticks: self.max_ticks,
            truncated: self.truncated,
            invalid_reason,
            frames,
            initial_snapshot: Some(self.initial_snapshot.clone()),
            final_snapshot,
            final_state,
            final_checksum,
        })
    }
}

/// A cursor over a game-validated recording. The end of the recording never
/// yields another input frame. The host owns pause and mutation policy;
/// games verify completion.
pub struct Playback {
    recording: SnapshotRecording,
    expected_snapshot: serde_json::Value,
    position: usize,
    verified: Option<bool>,
    error: Option<String>,
}

impl Playback {
    pub closed spec fn spec_recording(&self) -> SnapshotRecording {
        self.recording
    }

    pub closed spec fn spec_expected_snapshot(&self) -> serde_json::Value {
        self.expected_snapshot
    }

    pub closed spec fn spec_position(&self) -> usize {
        self.position
    }

    pub closed spec fn spec_verified(&self) -> Option<bool> {
        self.verified
    }

    pub closed spec fn spec_error(&self) -> Option<Seq<char>> {
        match self.error {
            Some(message) => Some(message@),
            None => None,
        }
    }

    /// The frames of the recording.
    pub open spec fn spec_total(&self) -> nat {
        self.spec_recording().frames@.len()
    }

    /// The cursor never passes the end of the recording.
    pub closed spec fn wf(&self) -> bool {
        self.position <= self.recording.frames@.len()
    }

    pub fn new(recording: SnapshotRecording, expected_snapshot: serde_json::Value) -> (r: Self)
        ensures
            r.wf(),
            r.spec_recording() == recording,
            r.spec_expected_snapshot() == expected_snapshot,
            r.spec_position() == 0,
            r.spec_verified() is None,
            r.spec_error() is None,
    {
        Playback { recording, expected_snapshot, position: 0, verified: None, error: None }
    }

    pub fn recording(&self) -> (r: &SnapshotRecording)
        ensures
            *r == self.spec_recording(),
    {
        &self.recording
    }

    pub fn expected_snapshot(&self) -> (r: &serde_json::Value)
        ensures
            *r == self.spec_expected_snapshot(),
    {
        &self.expected_snapshot
    }

    pub fn position(&self) -> (r: usize)
        ensures
            r == self.spec_position(),
    {
        self.position
    }

    /// The frames not yet handed out.
    pub fn remaining(&self) -> (r: usize)
        requires
            self.wf(),
        ensures
            r == self.spec_total() - self.spec_position(),
    {
        self.recording.frames.len() - self.position
    }

    pub fn complete(&self) -> (r: bool)
        requires
            self.wf(),
        ensures
            r == (self.spec_position() == self.spec_total()),
    {
        self.remaining() == 0
    }

    pub fn verified(&self) -> (r: Option<bool>)
        ensures
            r == self.spec_verified(),
    {
        self.verified
    }

    /// The game's reason for a failed verification.
    pub fn error(&self) -> (r: Option<&str>)
        ensures
            match (r, self.spec_error()) {
                (Some(text), Some(message)) => text@ == message,
                (None, None) => true,
                _ => false,
            },
    {
        match &self.error {
            Some(message) => Some(message.as_str()),
            None => None,
        }
    }

    /// Hands out the next frame and advances, or nothing at the end.
    pub fn next_frame(&mut self) -> (r: Option<&RecordedButtons>)
        requires
            old(self).wf(),
        ensures
            final(self).wf(),
            old(self).spec_position() < old(self).spec_total() ==> r == Some(&old(self).spec_recording().frames@[old(self).spec_position() as int])
                && final(self).spec_position() == old(self).spec_position() + 1,
            old(self).spec_position() == old(self).spec_total() ==> r is None && final(self).spec_position() == old(self).spec_position(),
            final(self).spec_recording() == old(self).spec_recording(),
            final(self).spec_verified() == old(self).spec_verified(),
            final(self).spec_error() == old(self).spec_error(),
    {
        if self.position < self.recording.frames.len() {
            let position = self.position;
            self.position = position + 1;
            Some(&self.recording.frames[position])
        } else {
            None
        }
    }

    /// Records the game's full-state and pixel comparison, only after the
    /// final tick and only once.
    pub fn finish(&mut self, result: Result<(), String>) -> (r: Result<(), String>)
        requires
            old(self).wf(),
        ensures
            final(self).wf(),
            final(self).spec_position() == old(self).spec_position(),
            final(self).spec_recording() == old(self).spec_recording(),
            old(self).spec_position() != old(self).spec_total() ==> (r matches Err(e) && e@
                == "cannot verify unfinished playback"@) && final(self).spec_verified() == old(self).spec_verified()
                && final(self).spec_error() == old(self).spec_error(),
            old(self).spec_position() == old(self).spec_total() && old(self).spec_verified() is Some ==> (r matches Err(e)
                && e@ == "playback already verified"@) && final(self).spec_verified() == old(self).spec_verified()
                && final(self).spec_error() == old(self).spec_error(),
            old(self).spec_position() == old(self).spec_total() && old(self).spec_verified() is None ==> r is Ok
                && final(self).spec_verified() == Some(result is Ok) && final(self).spec_error() == match result {
                Ok(()) => None,
                Err(message) => Some(message@),
            },
    {
        if !self.complete() {
            return Err("cannot verify unfinished playback".to_owned());
        }
        if self.verified.is_some() {
            return Err("playback already verified".to_owned());
        }
        self.verified = Some(result.is_ok());
        self.error = match result {
            Ok(()) => None,
            Err(message) => Some(message),
        };
        Ok(())
    }
}

} // verus!
