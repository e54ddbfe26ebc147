//! Deterministic logical input frames and recordings.
//!
//! Logical actions are identified by `u32` values that the game assigns.
use vstd::prelude::*;

use std::collections::HashSet;
use vstd::std_specs::iter::IteratorSpec;

verus! {

/// Advances any iterator by one item.
fn advance<I: Iterator>(iter: &mut I) -> (r: Option<I::Item>)
    ensures
        (*final(iter)).obeys_prophetic_iter_laws() == (*old(iter)).obeys_prophetic_iter_laws(),
        (*final(iter)).obeys_prophetic_iter_laws() ==> ((*old(iter)).decrease() is Some <==> (*final(iter)).decrease() is Some),
        (*final(iter)).obeys_prophetic_iter_laws() ==> ({
            if (*old(iter)).remaining().len() > 0 {
                &&& (*final(iter)).remaining() == (*old(iter)).remaining().drop_first()
                &&& r == Some((*old(iter)).remaining()[0])
            } else {
                (*final(iter)).remaining() === (*old(iter)).remaining() && r === None
            }
        }),
        (*final(iter)).obeys_prophetic_iter_laws() && (*old(iter)).remaining().len() > 0 && (*final(iter)).decrease() is Some ==>
            decreases_to!((*old(iter)).decrease()->0 => (*final(iter)).decrease()->0),
{
    iter.next()
}

/// Whether the bindings send button `key` to `action`.
pub open spec fn binds<F: Fn(u32) -> Option<u32>>(action_for_key: F, key: u32, action: u32) -> bool {
    action_for_key.ensures((key,), Some(action))
}

/// Updates a physical button and returns its logical action's combined state.
///
/// The caller owns the bindings and held set; clear the set on focus loss and
/// reset the game's input sampler. Releasing one alias leaves the action pressed
/// while another alias is held. Unmapped buttons are ignored. Bindings must stay
/// stable while buttons are held, which the contract states as the mapping
/// being a function of the button.
pub fn update_button_alias<F: Fn(u32) -> Option<u32>>(
    held: &mut HashSet<u32>,
    key: u32,
    pressed: bool,
    action_for_key: F,
) -> (r: Option<(u32, bool)>)
    requires
        forall|k: u32| action_for_key.requires((k,)),
        forall|k: u32, r1: Option<u32>, r2: Option<u32>|
            action_for_key.ensures((k,), r1) && action_for_key.ensures((k,), r2) ==> r1 == r2,
    ensures
        forall|mapped: Option<u32>| #[trigger] action_for_key.ensures((key,), mapped) ==> match mapped {
            None => r is None && final(held)@ == old(held)@,
            Some(action) => {
                &&& final(held)@ == (if pressed {
                    old(held)@.insert(key)
                } else {
                    old(held)@.remove(key)
                })
                &&& r == Some((
                    action,
                    exists|k: u32| final(held)@.contains(k) && #[trigger] binds(action_for_key, k, action),
                ))
            },
        },
{
    broadcast use vstd::std_specs::hash::group_hash_axioms;
    let action = match action_for_key(key) {
        Some(action) => action,
        None => {
            return None;
        },
    };
    if pressed {
        held.insert(key);
    } else {
        held.remove(&key);
    }
    let mut active = false;
    let ghost keys = held@;
    let ghost mut visited: Set<u32> = Set::empty();
    let mut iter = held.iter();
    loop
        invariant
            keys == held@,
            iter.obeys_prophetic_iter_laws(),
            iter.decrease() is Some,
            iter.remaining().unref().to_set().union(visited) == keys,
            forall|k: u32| action_for_key.requires((k,)),
            forall|k: u32, r1: Option<u32>, r2: Option<u32>|
                action_for_key.ensures((k,), r1) && action_for_key.ensures((k,), r2) ==> r1 == r2,
            active == exists|k: u32| visited.contains(k) && #[trigger] binds(action_for_key, k, action),
        ensures
            visited == keys,
            active == exists|k: u32| visited.contains(k) && #[trigger] binds(action_for_key, k, action),
        decreases iter.decrease()->0,
    {
        let ghost before = iter;
        match advance(&mut iter) {
            Some(k) => {
                let mapped = action_for_key(*k);
                if mapped == Some(action) {
                    active = true;
                }
                proof {
                    let rest = iter.remaining().unref();
                    let all = before.remaining().unref();
                    assert(all.to_set() =~= rest.to_set().insert(*k)) by {
                        assert forall|x: u32| all.to_set().contains(x) implies rest.to_set().insert(*k).contains(x) by {
                            let j = choose|j: int| 0 <= j < all.len() && all[j] == x;
                            if j > 0 {
                                assert(rest[j - 1] == x);
                            }
                        }
                        assert forall|x: u32| rest.to_set().insert(*k).contains(x) implies all.to_set().contains(x) by {
                            if x == *k {
                                assert(all[0] == x);
                            } else {
                                let j = choose|j: int| 0 <= j < rest.len() && rest[j] == x;
                                assert(all[j + 1] == x);
                            }
                        }
                    }
                    let old_visited = visited;
                    visited = visited.insert(*k);
                    assert(rest.to_set().union(visited) =~= keys);
                    if mapped == Some(action) {
                        assert(binds(action_for_key, *k, action));
                        assert(visited.contains(*k));
                    } else {
                        assert forall|x: u32| visited.contains(x) && #[trigger] binds(action_for_key, x, action) implies old_visited.contains(x) by {
                            if x == *k {
                                assert(action_for_key.ensures((*k,), mapped));
                            }
                        }
                    }
                }
            },
            None => {
                proof {
                    assert(before.remaining().unref().to_set() =~= Set::<u32>::empty());
                    assert(visited =~= keys);
                }
                break;
            },
        }
    }
    Some((action, active))
}

/// A deterministic signed action value.
///
/// Buttons use zero or the pressed value (`i16::MAX`). Analog actions can use
/// the complete `i16` range without platform-dependent floating point.
#[derive(Clone, Copy, Debug, Default, PartialEq, Eq, Structural, PartialOrd, Ord, Hash)]
pub struct ActionValue(i16);

impl ActionValue {
    pub closed spec fn spec_raw(self) -> i16 {
        self.0
    }

    /// The value of a released button.
    pub fn released() -> (r: Self)
        ensures
            r.spec_raw() == 0,
    {
        ActionValue(0)
    }

    /// The value of a pressed button.
    pub fn pressed() -> (r: Self)
        ensures
            r.spec_raw() == i16::MAX,
            r == pressed_value(),
    {
        ActionValue(i16::MAX)
    }

    pub fn axis(value: i16) -> (r: Self)
        ensures
            r.spec_raw() == value,
    {
        ActionValue(value)
    }

    pub fn raw(self) -> (r: i16)
        ensures
            r == self.spec_raw(),
    {
        self.0
    }

    pub fn is_active(self) -> (r: bool)
        ensures
            r == (self.spec_raw() != 0),
    {
        self.0 != 0
    }
}

/// The value of a pressed button.
pub closed spec fn pressed_value() -> ActionValue {
    ActionValue(i16::MAX)
}

pub proof fn lemma_pressed_value()
    ensures
        pressed_value().spec_raw() == i16::MAX,
{
}

/// Strictly increasing sequence of action identifiers.
pub open spec fn strictly_increasing(s: Seq<u32>) -> bool {
    forall|i: int, j: int| 0 <= i < j < s.len() ==> s[i] < s[j]
}

/// The position of `action` in a sequence that holds it once.
pub open spec fn position_of(keys: Seq<u32>, action: u32) -> int {
    choose|i: int| 0 <= i < keys.len() && keys[i] == action
}

proof fn lemma_position_of(keys: Seq<u32>, i: int)
    requires
        strictly_increasing(keys),
        0 <= i < keys.len(),
    ensures
        position_of(keys, keys[i]) == i,
{
    let j = position_of(keys, keys[i]);
    assert(0 <= j < keys.len() && keys[j] == keys[i]);
}

/// Action values keyed by action, sorted by action.
#[derive(Debug)]
struct ActionTable {
    keys: Vec<u32>,
    values: Vec<ActionValue>,
}

impl ActionTable {
    spec fn wf(self) -> bool {
        &&& strictly_increasing(self.keys@)
        &&& self.keys@.len() == self.values@.len()
    }

    spec fn view(self) -> Map<u32, ActionValue> {
        Map::new(
            |a: u32| self.keys@.contains(a),
            |a: u32| self.values@[position_of(self.keys@, a)],
        )
    }

    proof fn lemma_view(self, i: int)
        requires
            self.wf(),
            0 <= i < self.keys@.len(),
        ensures
            self.view().contains_key(self.keys@[i]),
            self.view()[self.keys@[i]] == self.values@[i],
    {
        lemma_position_of(self.keys@, i);
    }

    fn new() -> (r: Self)
        ensures
            r.wf(),
            r.keys@.len() == 0,
            r.view() == Map::<u32, ActionValue>::empty(),
    {
        let r = ActionTable { keys: Vec::new(), values: Vec::new() };
        assert(r.view() =~= Map::<u32, ActionValue>::empty());
        r
    }

    /// The first position whose action is not below `action`.
    fn lower_bound(&self, action: u32) -> (p: usize)
        requires
            self.wf(),
        ensures
            p <= self.keys@.len(),
            forall|j: int| 0 <= j < p ==> self.keys@[j] < action,
            p < self.keys@.len() ==> self.keys@[p as int] >= action,
    {
        let mut p: usize = 0;
        while p < self.keys.len() && self.keys[p] < action
            invariant
                p <= self.keys@.len(),
                forall|j: int| 0 <= j < p ==> self.keys@[j] < action,
            decreases self.keys@.len() - p,
        {
            p += 1;
        }
        p
    }

    fn get(&self, action: u32) -> (r: Option<ActionValue>)
        requires
            self.wf(),
        ensures
            r == (if self.view().contains_key(action) {
                Some(self.view()[action])
            } else {
                None::<ActionValue>
            }),
    {
        let p = self.lower_bound(action);
        if p < self.keys.len() && self.keys[p] == action {
            proof {
                self.lemma_view(p as int);
            }
            Some(self.values[p])
        } else {
            proof {
                if self.keys@.contains(action) {
                    let j = choose|j: int| 0 <= j < self.keys@.len() && self.keys@[j] == action;
                    if j >= p {
                        assert(self.keys@[p as int] <= self.keys@[j]);
                    }
                }
            }
            None
        }
    }

    fn contains(&self, action: u32) -> (r: bool)
        requires
            self.wf(),
        ensures
            r == self.view().contains_key(action),
    {
        self.get(action).is_some()
    }

    /// Sets the value of `action`, adding it if absent.
    fn upsert(&mut self, action: u32, value: ActionValue)
        requires
            old(self).wf(),
        ensures
            final(self).wf(),
            final(self).view() == old(self).view().insert(action, value),
    {
        let ghost before = *self;
        let p = self.lower_bound(action);
        if p < self.keys.len() && self.keys[p] == action {
            self.values.set(p, value);
            proof {
                assert(self.keys@ == before.keys@);
                assert(self.keys@[p as int] == action);
                assert(before.keys@.contains(action));
                assert forall|a: u32| #[trigger] self.view().contains_key(a) == before.view().insert(action, value).contains_key(a) by {
                    assert(self.view().contains_key(a) == self.keys@.contains(a));
                    assert(before.view().contains_key(a) == before.keys@.contains(a));
                    assert(self.keys@.contains(a) == before.keys@.contains(a));
                    if a == action {
                        assert(before.keys@.contains(a));
                    }
                }
                assert forall|a: u32| self.view().contains_key(a) implies #[trigger] self.view()[a] == before.view().insert(action, value)[a] by {
                    let j = choose|j: int| 0 <= j < self.keys@.len() && self.keys@[j] == a;
                    self.lemma_view(j);
                    before.lemma_view(j);
                }
                assert(self.view() =~= before.view().insert(action, value));
            }
        } else {
            self.keys.insert(p, action);
            self.values.insert(p, value);
            proof {
                assert forall|i: int, j: int| 0 <= i < j < self.keys@.len() implies self.keys@[i] < self.keys@[j] by {
                    if j < p {
                    } else if j == p {
                    } else if i < p {
                        assert(self.keys@[j] == before.keys@[j - 1]);
                        assert(before.keys@[p as int] >= action);
                        if j - 1 > p {
                            assert(before.keys@[p as int] < before.keys@[j - 1]);
                        }
                    } else if i == p {
                        assert(self.keys@[j] == before.keys@[j - 1]);
                        assert(before.keys@[p as int] >= action);
                        if j - 1 > p {
                            assert(before.keys@[p as int] < before.keys@[j - 1]);
                        }
                    } else {
                        assert(self.keys@[i] == before.keys@[i - 1]);
                        assert(self.keys@[j] == before.keys@[j - 1]);
                    }
                }
                assert(self.keys@[p as int] == action);
                assert forall|a: u32| #[trigger] self.view().contains_key(a) == before.view().insert(action, value).contains_key(a) by {
                    assert(self.view().contains_key(a) == self.keys@.contains(a));
                    assert(before.view().contains_key(a) == before.keys@.contains(a));
                    if a == action {
                        assert(self.keys@.contains(a));
                    }
                    if self.keys@.contains(a) {
                        let j = choose|j: int| 0 <= j < self.keys@.len() && self.keys@[j] == a;
                        if j < p {
                            assert(before.keys@[j] == a);
                        } else if j > p {
                            assert(before.keys@[j - 1] == a);
                        }
                    }
                    if before.keys@.contains(a) {
                        let j = choose|j: int| 0 <= j < before.keys@.len() && before.keys@[j] == a;
                        if j < p {
                            assert(self.keys@[j] == a);
                        } else {
                            assert(self.keys@[j + 1] == a);
                        }
                    }
                }
                assert forall|a: u32| self.view().contains_key(a) implies #[trigger] self.view()[a] == before.view().insert(action, value)[a] by {
                    let j = choose|j: int| 0 <= j < self.keys@.len() && self.keys@[j] == a;
                    self.lemma_view(j);
                    if j < p {
                        before.lemma_view(j);
                    } else if j > p {
                        before.lemma_view(j - 1);
                    }
                }
                assert(self.view() =~= before.view().insert(action, value));
            }
        }
    }

    /// Removes `action`, if present.
    fn remove(&mut self, action: u32)
        requires
            old(self).wf(),
        ensures
            final(self).wf(),
            final(self).view() == old(self).view().remove(action),
    {
        let ghost before = *self;
        let p = self.lower_bound(action);
        if p < self.keys.len() && self.keys[p] == action {
            self.keys.remove(p);
            self.values.remove(p);
            proof {
                assert forall|i: int, j: int| 0 <= i < j < self.keys@.len() implies self.keys@[i] < self.keys@[j] by {
                    if j < p {
                        assert(self.keys@[i] == before.keys@[i]);
                        assert(self.keys@[j] == before.keys@[j]);
                    } else if i < p {
                        assert(self.keys@[i] == before.keys@[i]);
                        assert(self.keys@[j] == before.keys@[j + 1]);
                    } else {
                        assert(self.keys@[i] == before.keys@[i + 1]);
                        assert(self.keys@[j] == before.keys@[j + 1]);
                    }
                }
                assert forall|a: u32| #[trigger] self.view().contains_key(a) == before.view().remove(action).contains_key(a) by {
                    assert(self.view().contains_key(a) == self.keys@.contains(a));
                    assert(before.view().contains_key(a) == before.keys@.contains(a));
                    if self.keys@.contains(a) {
                        let j = choose|j: int| 0 <= j < self.keys@.len() && self.keys@[j] == a;
                        if j < p {
                            assert(before.keys@[j] == a);
                        } else {
                            assert(before.keys@[j + 1] == a);
                            assert(before.keys@[p as int] < before.keys@[j + 1]);
                        }
                    }
                    if before.keys@.contains(a) && a != action {
                        let j = choose|j: int| 0 <= j < before.keys@.len() && before.keys@[j] == a;
                        if j < p {
                            assert(self.keys@[j] == a);
                        } else if j > p {
                            assert(self.keys@[j - 1] == a);
                        }
                    }
                }
                assert forall|a: u32| self.view().contains_key(a) implies #[trigger] self.view()[a] == before.view().remove(action)[a] by {
                    let j = choose|j: int| 0 <= j < self.keys@.len() && self.keys@[j] == a;
                    self.lemma_view(j);
                    if j < p {
                        before.lemma_view(j);
                    } else {
                        before.lemma_view(j + 1);
                    }
                }
                assert(self.view() =~= before.view().remove(action));
            }
        } else {
            proof {
                if before.keys@.contains(action) {
                    let j = choose|j: int| 0 <= j < before.keys@.len() && before.keys@[j] == action;
                    if j > p {
                        assert(before.keys@[p as int] < before.keys@[j]);
                    }
                }
                assert(before.view().remove(action) =~= before.view());
            }
        }
    }

    fn clone_table(&self) -> (r: Self)
        requires
            self.wf(),
        ensures
            r.wf(),
            r.keys@ == self.keys@,
            r.values@ == self.values@,
            r.view() == self.view(),
    {
        let mut keys: Vec<u32> = Vec::new();
        let mut values: Vec<ActionValue> = Vec::new();
        let mut i: usize = 0;
        while i < self.keys.len()
            invariant
                self.wf(),
                i <= self.keys@.len(),
                keys@ == self.keys@.subrange(0, i as int),
                values@ == self.values@.subrange(0, i as int),
            decreases self.keys@.len() - i,
        {
            keys.push(self.keys[i]);
            values.push(self.values[i]);
            i += 1;
        }
        proof {
            assert(keys@ =~= self.keys@);
            assert(values@ =~= self.values@);
        }
        ActionTable { keys, values }
    }
}

/// Logical action state consumed by one fixed simulation tick.
#[derive(Debug)]
pub struct InputFrame {
    values: ActionTable,
    pressed: Vec<u32>,
    released: Vec<u32>,
}

impl InputFrame {
    /// The frame's invariant: actions are sorted, every stored value is active.
    pub closed spec fn wf(self) -> bool {
        &&& self.values.wf()
        &&& forall|i: int| 0 <= i < self.values.values@.len() ==> (#[trigger] self.values.values@[i]).spec_raw() != 0
        &&& strictly_increasing(self.pressed@)
        &&& strictly_increasing(self.released@)
        &&& self.pressed@.to_set().subset_of(self.values.view().dom())
        &&& self.released@.to_set().disjoint(self.values.view().dom())
    }

    /// A frame's edges agree with its active actions: every pressed action is
    /// active and no released action is.
    pub proof fn law_edges_agree_with_active_actions(self)
        requires
            self.wf(),
        ensures
            self.spec_pressed().subset_of(self.spec_values().dom()),
            self.spec_released().disjoint(self.spec_values().dom()),
    {
    }

    /// The active actions and their values.
    pub closed spec fn spec_values(self) -> Map<u32, ActionValue> {
        self.values.view()
    }

    /// The active actions in increasing order.
    pub closed spec fn spec_active_order(self) -> Seq<u32> {
        self.values.keys@
    }

    /// Actions that became active on this frame.
    pub closed spec fn spec_pressed(self) -> Set<u32> {
        self.pressed@.to_set()
    }

    /// Actions that stopped being active on this frame.
    pub closed spec fn spec_released(self) -> Set<u32> {
        self.released@.to_set()
    }

    /// The value of `action`, released when it is not active.
    pub open spec fn spec_value(self, action: u32) -> i16 {
        if self.spec_values().contains_key(action) {
            self.spec_values()[action].spec_raw()
        } else {
            0
        }
    }

    /// A frame with no active action and no edge.
    pub fn new() -> (r: Self)
        ensures
            r.wf(),
            r.spec_values() == Map::<u32, ActionValue>::empty(),
            r.spec_pressed() == Set::<u32>::empty(),
            r.spec_released() == Set::<u32>::empty(),
    {
        let r = InputFrame { values: ActionTable::new(), pressed: Vec::new(), released: Vec::new() };
        proof {
            assert(r.pressed@.to_set() =~= Set::<u32>::empty());
            assert(r.released@.to_set() =~= Set::<u32>::empty());
            assert(r.values.view() =~= Map::<u32, ActionValue>::empty());
        }
        r
    }

    pub fn value(&self, action: u32) -> (r: ActionValue)
        requires
            self.wf(),
        ensures
            r.spec_raw() == self.spec_value(action),
    {
        match self.values.get(action) {
            Some(value) => value,
            None => ActionValue::released(),
        }
    }

    pub fn is_active(&self, action: u32) -> (r: bool)
        requires
            self.wf(),
        ensures
            r == self.spec_values().contains_key(action),
            r == (self.spec_value(action) != 0),
    {
        proof {
            if self.spec_values().contains_key(action) {
                let j = choose|j: int| 0 <= j < self.values.keys@.len() && self.values.keys@[j] == action;
                self.values.lemma_view(j);
            }
        }
        self.values.contains(action)
    }

    pub fn just_pressed(&self, action: u32) -> (r: bool)
        ensures
            r == self.spec_pressed().contains(action),
    {
        contains_action(&self.pressed, action)
    }

    pub fn just_released(&self, action: u32) -> (r: bool)
        ensures
            r == self.spec_released().contains(action),
    {
        contains_action(&self.released, action)
    }

    /// The active actions with their values, in increasing action order.
    pub fn active_actions(&self) -> (r: Vec<(u32, ActionValue)>)
        requires
            self.wf(),
        ensures
            r@.len() == self.spec_active_order().len(),
            strictly_increasing(self.spec_active_order()),
            forall|a: u32| #[trigger] self.spec_values().contains_key(a) <==> self.spec_active_order().contains(a),
            forall|i: int| 0 <= i < r@.len() ==> (#[trigger] r@[i]).0 == self.spec_active_order()[i]
                && r@[i].1 == self.spec_values()[r@[i].0],
    {
        let mut r: Vec<(u32, ActionValue)> = Vec::new();
        let mut i: usize = 0;
        while i < self.values.keys.len()
            invariant
                self.wf(),
                i <= self.values.keys@.len(),
                r@.len() == i,
                forall|j: int| 0 <= j < i ==> (#[trigger] r@[j]).0 == self.values.keys@[j]
                    && r@[j].1 == self.values.values@[j],
            decreases self.values.keys@.len() - i,
        {
            r.push((self.values.keys[i], self.values.values[i]));
            i += 1;
        }
        proof {
            assert forall|j: int| 0 <= j < r@.len() implies (#[trigger] r@[j]).0 == self.spec_active_order()[j]
                && r@[j].1 == self.spec_values()[r@[j].0] by {
                self.values.lemma_view(j);
            }
        }
        r
    }

    /// The actions that became active on this frame, in increasing order.
    pub fn pressed_actions(&self) -> (r: Vec<u32>)
        requires
            self.wf(),
        ensures
            strictly_increasing(r@),
            r@.to_set() == self.spec_pressed(),
    {
        copy_actions(&self.pressed)
    }

    /// The actions that stopped being active on this frame, in increasing order.
    pub fn released_actions(&self) -> (r: Vec<u32>)
        requires
            self.wf(),
        ensures
            strictly_increasing(r@),
            r@.to_set() == self.spec_released(),
    {
        copy_actions(&self.released)
    }
}

fn contains_action(actions: &Vec<u32>, action: u32) -> (r: bool)
    ensures
        r == actions@.to_set().contains(action),
{
    let mut i: usize = 0;
    while i < actions.len()
        invariant
            i <= actions@.len(),
            forall|j: int| 0 <= j < i ==> actions@[j] != action,
        decreases actions@.len() - i,
    {
        if actions[i] == action {
            proof {
                assert(actions@.contains(action));
            }
            return true;
        }
        i += 1;
    }
    false
}

fn copy_actions(actions: &Vec<u32>) -> (r: Vec<u32>)
    ensures
        r@ == actions@,
{
    let mut r: Vec<u32> = Vec::new();
    let mut i: usize = 0;
    while i < actions.len()
        invariant
            i <= actions@.len(),
            r@ == actions@.subrange(0, i as int),
        decreases actions@.len() - i,
    {
        r.push(actions[i]);
        i += 1;
    }
    proof {
        assert(r@ =~= actions@);
    }
    r
}

/// The active actions of a sample: each action takes the last value supplied
/// for it, and is active exactly when that value is not released.
pub open spec fn sampled(values: Seq<(u32, ActionValue)>) -> Map<u32, ActionValue>
    decreases values.len(),
{
    if values.len() == 0 {
        Map::empty()
    } else {
        let rest = sampled(values.drop_last());
        let (action, value) = values.last();
        if value.spec_raw() != 0 {
            rest.insert(action, value)
        } else {
            rest.remove(action)
        }
    }
}

/// Every action a sample leaves active has a value that is not released.
pub proof fn lemma_sampled_active(values: Seq<(u32, ActionValue)>)
    ensures
        forall|a: u32| #[trigger] sampled(values).contains_key(a) ==> sampled(values)[a].spec_raw() != 0,
    decreases values.len(),
{
    if values.len() > 0 {
        let rest = values.drop_last();
        lemma_sampled_active(rest);
        let (action, value) = values.last();
        assert forall|a: u32| #[trigger] sampled(values).contains_key(a) implies sampled(values)[a].spec_raw()
            != 0 by {
            if a != action {
                assert(sampled(rest).contains_key(a));
            }
        }
    }
}

/// Converts sampled logical action values into transition-aware input frames.
#[derive(Debug)]
pub struct InputTracker {
    previous: ActionTable,
}

impl InputTracker {
    pub closed spec fn wf(self) -> bool {
        self.previous.wf()
    }

    /// The active actions of the last sample.
    pub closed spec fn spec_previous(self) -> Map<u32, ActionValue> {
        self.previous.view()
    }

    pub fn new() -> (r: Self)
        ensures
            r.wf(),
            r.spec_previous() == Map::<u32, ActionValue>::empty(),
    {
        InputTracker { previous: ActionTable::new() }
    }

    /// Produces the next frame from the complete set of currently active
    /// actions. Duplicate actions use the final supplied value; an action
    /// whose final value is released is not active.
    pub fn sample(&mut self, values: &[(u32, ActionValue)]) -> (r: InputFrame)
        requires
            old(self).wf(),
        ensures
            final(self).wf(),
            r.wf(),
            r.spec_values() == sampled(values@),
            final(self).spec_previous() == sampled(values@),
            r.spec_pressed() == sampled(values@).dom().difference(old(self).spec_previous().dom()),
            r.spec_released() == old(self).spec_previous().dom().difference(sampled(values@).dom()),
    {
        let mut table = ActionTable::new();
        let mut i: usize = 0;
        while i < values.len()
            invariant
                i <= values@.len(),
                table.wf(),
                table.view() == sampled(values@.subrange(0, i as int)),
            decreases values@.len() - i,
        {
            let (action, value) = values[i];
            if value.is_active() {
                table.upsert(action, value);
            } else {
                table.remove(action);
            }
            proof {
                assert(values@.subrange(0, i as int + 1).drop_last() =~= values@.subrange(0, i as int));
            }
            i += 1;
        }
        proof {
            assert(values@.subrange(0, values@.len() as int) =~= values@);
            lemma_sampled_active(values@);
            assert forall|j: int| 0 <= j < table.values@.len() implies (#[trigger] table.values@[j]).spec_raw() != 0 by {
                table.lemma_view(j);
            }
        }
        let ghost new_map = table.view();
        let ghost old_map = self.previous.view();
        let mut pressed: Vec<u32> = Vec::new();
        let mut k: usize = 0;
        while k < table.keys.len()
            invariant
                table.wf(),
                self.previous.wf(),
                new_map == table.view(),
                old_map == self.previous.view(),
                k <= table.keys@.len(),
                strictly_increasing(pressed@),
                forall|j: int| 0 <= j < pressed@.len() ==> exists|m: int| 0 <= m < k && table.keys@[m] == #[trigger] pressed@[j],
                forall|a: u32| #[trigger] pressed@.contains(a) <==> (exists|m: int| 0 <= m < k && table.keys@[m] == a) && !old_map.contains_key(a),
            decreases table.keys@.len() - k,
        {
            let a = table.keys[k];
            if !self.previous.contains(a) {
                proof {
                    assert forall|j: int| 0 <= j < pressed@.len() implies pressed@[j] < a by {
                        let m = choose|m: int| 0 <= m < k && table.keys@[m] == pressed@[j];
                    }
                }
                let ghost prev = pressed@;
                pressed.push(a);
                proof {
                    assert(pressed@ == prev.push(a));
                    assert forall|j: int| 0 <= j < pressed@.len() implies exists|m: int| 0 <= m < k + 1 && table.keys@[m] == #[trigger] pressed@[j] by {
                        if j < prev.len() {
                            assert(pressed@[j] == prev[j]);
                            let m = choose|m: int| 0 <= m < k && table.keys@[m] == prev[j];
                        } else {
                            assert(table.keys@[k as int] == pressed@[j]);
                        }
                    }
                    assert forall|x: u32| #[trigger] pressed@.contains(x) <==> (exists|m: int| 0 <= m < k + 1 && table.keys@[m] == x) && !old_map.contains_key(x) by {
                        if x == a {
                            assert(pressed@[prev.len() as int] == x);
                        } else {
                            if pressed@.contains(x) {
                                let j = choose|j: int| 0 <= j < pressed@.len() && pressed@[j] == x;
                                assert(j < prev.len());
                                assert(prev[j] == x);
                                assert(prev.contains(x));
                            }
                            if prev.contains(x) {
                                let j = choose|j: int| 0 <= j < prev.len() && prev[j] == x;
                                assert(pressed@[j] == x);
                            }
                            if exists|m: int| 0 <= m < k + 1 && table.keys@[m] == x {
                                let m = choose|m: int| 0 <= m < k + 1 && table.keys@[m] == x;
                                assert(m < k);
                            }
                        }
                    }
                }
            } else {
                proof {
                    assert forall|x: u32| #[trigger] pressed@.contains(x) <==> (exists|m: int| 0 <= m < k + 1 && table.keys@[m] == x) && !old_map.contains_key(x) by {
                        if (exists|m: int| 0 <= m < k + 1 && table.keys@[m] == x) && !old_map.contains_key(x) {
                            let m = choose|m: int| 0 <= m < k + 1 && table.keys@[m] == x;
                            if m == k {
                                assert(x == a);
                            }
                            assert(exists|m: int| 0 <= m < k && table.keys@[m] == x);
                        }
                    }
                    assert forall|j: int| 0 <= j < pressed@.len() implies exists|m: int| 0 <= m < k + 1 && table.keys@[m] == #[trigger] pressed@[j] by {
                        let m = choose|m: int| 0 <= m < k && table.keys@[m] == pressed@[j];
                    }
                }
            }
            k += 1;
        }
        let mut released: Vec<u32> = Vec::new();
        let mut k: usize = 0;
        while k < self.previous.keys.len()
            invariant
                table.wf(),
                self.previous.wf(),
                new_map == table.view(),
                old_map == self.previous.view(),
                k <= self.previous.keys@.len(),
                strictly_increasing(released@),
                forall|j: int| 0 <= j < released@.len() ==> exists|m: int| 0 <= m < k && self.previous.keys@[m] == #[trigger] released@[j],
                forall|a: u32| #[trigger] released@.contains(a) <==> (exists|m: int| 0 <= m < k && self.previous.keys@[m] == a) && !new_map.contains_key(a),
            decreases self.previous.keys@.len() - k,
        {
            let a = self.previous.keys[k];
            if !table.contains(a) {
                proof {
                    assert forall|j: int| 0 <= j < released@.len() implies released@[j] < a by {
                        let m = choose|m: int| 0 <= m < k && self.previous.keys@[m] == released@[j];
                    }
                }
                let ghost prev = released@;
                released.push(a);
                proof {
                    assert(released@ == prev.push(a));
                    assert forall|j: int| 0 <= j < released@.len() implies exists|m: int| 0 <= m < k + 1 && self.previous.keys@[m] == #[trigger] released@[j] by {
                        if j < prev.len() {
                            assert(released@[j] == prev[j]);
                            let m = choose|m: int| 0 <= m < k && self.previous.keys@[m] == prev[j];
                        } else {
                            assert(self.previous.keys@[k as int] == released@[j]);
                        }
                    }
                    assert forall|x: u32| #[trigger] released@.contains(x) <==> (exists|m: int| 0 <= m < k + 1 && self.previous.keys@[m] == x) && !new_map.contains_key(x) by {
                        if x == a {
                            assert(released@[prev.len() as int] == x);
                        } else {
                            if released@.contains(x) {
                                let j = choose|j: int| 0 <= j < released@.len() && released@[j] == x;
                                assert(j < prev.len());
                                assert(prev[j] == x);
                                assert(prev.contains(x));
                            }
                            if prev.contains(x) {
                                let j = choose|j: int| 0 <= j < prev.len() && prev[j] == x;
                                assert(released@[j] == x);
                            }
                            if exists|m: int| 0 <= m < k + 1 && self.previous.keys@[m] == x {
                                let m = choose|m: int| 0 <= m < k + 1 && self.previous.keys@[m] == x;
                                assert(m < k);
                            }
                        }
                    }
                }
            } else {
                proof {
                    assert forall|x: u32| #[trigger] released@.contains(x) <==> (exists|m: int| 0 <= m < k + 1 && self.previous.keys@[m] == x) && !new_map.contains_key(x) by {
                        if (exists|m: int| 0 <= m < k + 1 && self.previous.keys@[m] == x) && !new_map.contains_key(x) {
                            let m = choose|m: int| 0 <= m < k + 1 && self.previous.keys@[m] == x;
                            if m == k {
                                assert(x == a);
                            }
                            assert(exists|m: int| 0 <= m < k && self.previous.keys@[m] == x);
                        }
                    }
                    assert forall|j: int| 0 <= j < released@.len() implies exists|m: int| 0 <= m < k + 1 && self.previous.keys@[m] == #[trigger] released@[j] by {
                        let m = choose|m: int| 0 <= m < k && self.previous.keys@[m] == released@[j];
                    }
                }
            }
            k += 1;
        }
        proof {
            assert(pressed@.to_set() =~= new_map.dom().difference(old_map.dom()));
            assert(released@.to_set() =~= old_map.dom().difference(new_map.dom()));
        }
        self.previous = table.clone_table();
        InputFrame { values: table, pressed, released }
    }
}

/// Metadata required to interpret a deterministic input recording.
#[derive(Clone, Copy, Debug, PartialEq, Eq, Structural)]
pub struct RecordingHeader {
    pub format_version: u32,
    pub fixed_step_nanos: u64,
    pub game_seed: u64,
    pub action_schema_hash: u64,
}

/// The recording format version this library writes.
pub const CURRENT_FORMAT_VERSION: u32 = 1;

impl RecordingHeader {
    pub fn new(fixed_step_nanos: u64, game_seed: u64, action_schema_hash: u64) -> (r: Self)
        ensures
            r == (RecordingHeader {
                format_version: CURRENT_FORMAT_VERSION,
                fixed_step_nanos,
                game_seed,
                action_schema_hash,
            }),
    {
        RecordingHeader {
            format_version: CURRENT_FORMAT_VERSION,
            fixed_step_nanos,
            game_seed,
            action_schema_hash,
        }
    }
}

/// A sequence of logical input frames for exact fixed-tick replay.
#[derive(Debug)]
pub struct InputRecording {
    header: RecordingHeader,
    frames: Vec<InputFrame>,
}

impl InputRecording {
    pub closed spec fn spec_header(self) -> RecordingHeader {
        self.header
    }

    pub closed spec fn spec_frames(self) -> Seq<InputFrame> {
        self.frames@
    }

    pub fn new(header: RecordingHeader) -> (r: Self)
        ensures
            r.spec_header() == header,
            r.spec_frames() == Seq::<InputFrame>::empty(),
    {
        InputRecording { header, frames: Vec::new() }
    }

    pub fn header(&self) -> (r: RecordingHeader)
        ensures
            r == self.spec_header(),
    {
        self.header
    }

    pub fn push(&mut self, frame: InputFrame)
        ensures
            final(self).spec_header() == old(self).spec_header(),
            final(self).spec_frames() == old(self).spec_frames().push(frame),
    {
        self.frames.push(frame);
    }

    pub fn frames(&self) -> (r: &[InputFrame])
        ensures
            r@ == self.spec_frames(),
    {
        self.frames.as_slice()
    }

    pub fn len(&self) -> (r: usize)
        ensures
            r == self.spec_frames().len(),
    {
        self.frames.len()
    }

    pub fn is_empty(&self) -> (r: bool)
        ensures
            r == (self.spec_frames().len() == 0),
    {
        self.frames.len() == 0
    }
}

} // verus!
