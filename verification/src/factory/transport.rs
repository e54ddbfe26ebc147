//! Snapshot transport: every structure's outgoing item is planned against
//! the slots at the tick boundary, and a departing item does not free its
//! slot for others until the next tick. Ties go to the source that comes
//! first in row-then-column order.
use vstd::prelude::*;

use crate::factory::{in_grid, spec_opposite, Item, Kind, Reason, Slots, Structure};

verus! {

broadcast use vstd::std_specs::vec::group_vec_axioms;

/// The first structure standing on tile `(x, y)`.
pub open spec fn at_position(s: Seq<Structure>, x: int, y: int) -> Option<int>
    decreases s.len(),
{
    if s.len() == 0 {
        None
    } else {
        match at_position(s.drop_last(), x, y) {
            Some(i) => Some(i),
            None => if s.last().x == x && s.last().y == y {
                Some(s.len() - 1)
            } else {
                None
            },
        }
    }
}

pub proof fn lemma_at_position(s: Seq<Structure>, x: int, y: int)
    ensures
        match at_position(s, x, y) {
            Some(i) => 0 <= i < s.len() && s[i].x == x && s[i].y == y && forall|j: int|
                0 <= j < i ==> !(#[trigger] s[j].x == x && s[j].y == y),
            None => forall|j: int| 0 <= j < s.len() ==> !(#[trigger] s[j].x == x && s[j].y == y),
        },
    decreases s.len(),
{
    if s.len() > 0 {
        lemma_at_position(s.drop_last(), x, y);
        assert forall|j: int| 0 <= j < s.len() - 1 implies #[trigger] s[j] == s.drop_last()[j] by {}
    }
}

/// Whether the items of every structure are on the grid.
pub open spec fn all_in_grid(s: Seq<Structure>) -> bool {
    forall|i: int| 0 <= i < s.len() ==> in_grid(#[trigger] s[i].x as int, s[i].y as int)
}

/// The index of the first structure on tile `(x, y)`.
pub fn find_at(s: &Vec<Structure>, x: i32, y: i32) -> (r: Option<usize>)
    ensures
        match r {
            Some(i) => at_position(s@, x as int, y as int) == Some(i as int),
            None => at_position(s@, x as int, y as int) is None,
        },
{
    proof {
        lemma_at_position(s@, x as int, y as int);
    }
    let mut i: usize = 0;
    while i < s.len()
        invariant
            i <= s@.len(),
            forall|j: int| 0 <= j < i ==> !(#[trigger] s@[j].x == x && s@[j].y == y),
        decreases s@.len() - i,
    {
        if s[i].x == x && s[i].y == y {
            proof {
                lemma_at_position(s@, x as int, y as int);
                if let Some(k) = at_position(s@, x as int, y as int) {
                    if k < i {
                        assert(!(s@[k].x == x && s@[k].y == y));
                    } else if k > i {
                        assert(!(s@[i as int].x == x && s@[i as int].y == y));
                    }
                } else {
                    assert(!(s@[i as int].x == x && s@[i as int].y == y));
                }
            }
            return Some(i);
        }
        i += 1;
    }
    None
}

/// Whether destination `d` has no room for an incoming item: delivery after
/// ten plates, a processor with a queued input, anything else with an output.
pub open spec fn full(d: Structure, delivered: u64) -> bool {
    match d.kind {
        Kind::Delivery => delivered >= 10,
        Kind::Processor => d.slots.input is Some,
        _ => d.slots.output is Some,
    }
}

/// Whether destination `d` refuses `item`: processors take ore, delivery
/// takes plates.
pub open spec fn rejects(d: Structure, item: Item) -> bool {
    (d.kind == Kind::Processor && item != Item::Ore) || (d.kind == Kind::Delivery && item != Item::Plate)
}

/// Where the outgoing item of source `i` could go, or why it cannot,
/// before contention between sources is settled.
pub open spec fn candidate(s: Seq<Structure>, delivered: u64, i: int) -> Result<int, Reason> {
    let src = s[i];
    match src.slots.output {
        None => Err(Reason::EmptySource),
        Some(item) => match src.spec_target() {
            None => Err(Reason::MissingNeighbor),
            Some(t) => match at_position(s, t.0, t.1) {
                None => Err(Reason::MissingNeighbor),
                Some(d) => if !s[d].accepts(spec_opposite(src.facing)) {
                    Err(Reason::MismatchedInputFace)
                } else if rejects(s[d], item) {
                    Err(Reason::RejectedItemType)
                } else if full(s[d], delivered) {
                    Err(Reason::FullDestination)
                } else {
                    Ok(d)
                },
            },
        },
    }
}

/// The plan for source `i`: its candidate destination, unless an earlier
/// source has the same candidate, which wins it.
pub open spec fn planned(s: Seq<Structure>, delivered: u64, i: int) -> Result<int, Reason> {
    match candidate(s, delivered, i) {
        Err(r) => Err(r),
        Ok(d) => if exists|j: int| 0 <= j < i && #[trigger] candidate(s, delivered, j) == Ok::<int, Reason>(d) {
            Err(Reason::Contention)
        } else {
            Ok(d)
        },
    }
}

/// A plan as values.
pub open spec fn plan_view(p: Result<usize, Reason>) -> Result<int, Reason> {
    match p {
        Ok(d) => Ok(d as int),
        Err(r) => Err(r),
    }
}

/// Where the outgoing item of source `i` could go, or why it cannot.
fn candidate_of(s: &Vec<Structure>, delivered: u64, i: usize) -> (r: Result<usize, Reason>)
    requires
        i < s@.len(),
        all_in_grid(s@),
    ensures
        plan_view(r) == candidate(s@, delivered, i as int),
        r matches Ok(d) ==> d < s@.len(),
{
    let src = s[i];
    proof {
        assert(in_grid(s@[i as int].x as int, s@[i as int].y as int));
    }
    let item = match src.slots.output {
        None => {
            return Err(Reason::EmptySource);
        },
        Some(item) => item,
    };
    let (x, y) = match src.target() {
        None => {
            return Err(Reason::MissingNeighbor);
        },
        Some(t) => t,
    };
    let d = match find_at(s, x, y) {
        None => {
            return Err(Reason::MissingNeighbor);
        },
        Some(d) => d,
    };
    proof {
        lemma_at_position(s@, x as int, y as int);
    }
    let dest = s[d];
    if !dest.accepts_face(src.facing.opposite()) {
        return Err(Reason::MismatchedInputFace);
    }
    if (dest.kind == Kind::Processor && item != Item::Ore) || (dest.kind == Kind::Delivery && item
        != Item::Plate) {
        return Err(Reason::RejectedItemType);
    }
    let is_full = match dest.kind {
        Kind::Delivery => delivered >= 10,
        Kind::Processor => dest.slots.input.is_some(),
        _ => dest.slots.output.is_some(),
    };
    if is_full {
        return Err(Reason::FullDestination);
    }
    Ok(d)
}

/// Plans every source against the snapshot `s`, in order: each gets a
/// destination index or the reason its item stays.
pub fn plan(s: &Vec<Structure>, delivered: u64) -> (r: Vec<Result<usize, Reason>>)
    requires
        all_in_grid(s@),
    ensures
        r@.len() == s@.len(),
        forall|i: int| 0 <= i < s@.len() ==> plan_view(#[trigger] r@[i]) == planned(s@, delivered, i),
        forall|i: int| 0 <= i < s@.len() ==> (#[trigger] r@[i] matches Ok(d) ==> d < s@.len()),
{
    let n = s.len();
    let mut reserved: Vec<bool> = Vec::new();
    while reserved.len() < n
        invariant
            reserved@.len() <= n,
            n == s@.len(),
            forall|d: int| 0 <= d < reserved@.len() ==> !(#[trigger] reserved@[d]),
        decreases n - reserved@.len(),
    {
        reserved.push(false);
    }
    let mut r: Vec<Result<usize, Reason>> = Vec::new();
    let mut i: usize = 0;
    while i < n
        invariant
            n == s@.len(),
            i <= n,
            all_in_grid(s@),
            reserved@.len() == n,
            r@.len() == i,
            forall|k: int| 0 <= k < i ==> plan_view(#[trigger] r@[k]) == planned(s@, delivered, k),
            forall|k: int| 0 <= k < i ==> (#[trigger] r@[k] matches Ok(d) ==> d < n),
            forall|d: int|
                0 <= d < n ==> (#[trigger] reserved@[d] <==> exists|j: int|
                    0 <= j < i && #[trigger] candidate(s@, delivered, j) == Ok::<int, Reason>(d)),
        decreases n - i,
    {
        let c = candidate_of(s, delivered, i);
        match c {
            Err(reason) => {
                r.push(Err(reason));
                proof {
                    assert forall|d: int| 0 <= d < n implies (#[trigger] reserved@[d] <==> exists|j: int|
                        0 <= j < i + 1 && #[trigger] candidate(s@, delivered, j) == Ok::<int, Reason>(d)) by {
                        if reserved@[d] {
                            let j = choose|j: int|
                                0 <= j < i && #[trigger] candidate(s@, delivered, j) == Ok::<int, Reason>(d);
                            assert(0 <= j < i + 1 && candidate(s@, delivered, j) == Ok::<int, Reason>(d));
                        }
                    }
                }
            },
            Ok(d) => {
                if reserved[d] {
                    r.push(Err(Reason::Contention));
                } else {
                    reserved.set(d, true);
                    r.push(Ok(d));
                }
                proof {
                    assert forall|e: int| 0 <= e < n implies (#[trigger] reserved@[e] <==> exists|j: int|
                        0 <= j < i + 1 && #[trigger] candidate(s@, delivered, j) == Ok::<int, Reason>(e)) by {
                        if e == d {
                            assert(candidate(s@, delivered, i as int) == Ok::<int, Reason>(e));
                        } else if exists|j: int|
                            0 <= j < i + 1 && #[trigger] candidate(s@, delivered, j) == Ok::<int, Reason>(e) {
                            let j = choose|j: int|
                                0 <= j < i + 1 && #[trigger] candidate(s@, delivered, j) == Ok::<int, Reason>(e);
                            assert(j != i);
                        }
                    }
                }
            },
        }
        i += 1;
    }
    r
}

/// The first source below `n` whose item enters structure `k`.
pub open spec fn feeder(s: Seq<Structure>, delivered: u64, k: int, n: int) -> Option<int>
    decreases n,
{
    if n <= 0 {
        None
    } else {
        match feeder(s, delivered, k, n - 1) {
            Some(j) => Some(j),
            None => if planned(s, delivered, n - 1) == Ok::<int, Reason>(k) {
                Some(n - 1)
            } else {
                None
            },
        }
    }
}

/// The slots of structure `k` once the first `n` sources have moved their
/// items: a moved item leaves its output, and enters a processor's input,
/// passes into delivery, or fills any other structure's output.
pub open spec fn slots_after(s: Seq<Structure>, delivered: u64, k: int, n: int) -> Slots {
    let old = s[k].slots;
    let fed = feeder(s, delivered, k, n);
    let item = match fed {
        Some(j) => s[j].slots.output,
        None => None,
    };
    Slots {
        input: if fed is Some && s[k].kind == Kind::Processor {
            item
        } else {
            old.input
        },
        in_process: old.in_process,
        output: if k < n && planned(s, delivered, k) is Ok {
            None
        } else if fed is Some && s[k].kind != Kind::Processor && s[k].kind != Kind::Delivery {
            item
        } else {
            old.output
        },
    }
}

/// The number of items the first `n` sources pass into delivery.
pub open spec fn deliveries(s: Seq<Structure>, delivered: u64, n: int) -> nat
    decreases n,
{
    if n <= 0 {
        0
    } else {
        deliveries(s, delivered, n - 1) + match planned(s, delivered, n - 1) {
            Ok(d) => if s[d].kind == Kind::Delivery {
                1nat
            } else {
                0nat
            },
            Err(_) => 0nat,
        }
    }
}

/// The number of items held by all of `slots`.
pub open spec fn resident(slots: Seq<Slots>) -> nat
    decreases slots.len(),
{
    if slots.len() == 0 {
        0
    } else {
        resident(slots.drop_last()) + slots.last().count()
    }
}

/// The slots of every structure.
pub open spec fn slots_of(s: Seq<Structure>) -> Seq<Slots> {
    s.map_values(|t: Structure| t.slots)
}

pub proof fn lemma_resident_update(slots: Seq<Slots>, k: int, v: Slots)
    requires
        0 <= k < slots.len(),
    ensures
        resident(slots.update(k, v)) + slots[k].count() == resident(slots) + v.count(),
    decreases slots.len(),
{
    let u = slots.update(k, v);
    if k == slots.len() - 1 {
        assert(u.drop_last() =~= slots.drop_last());
    } else {
        lemma_resident_update(slots.drop_last(), k, v);
        assert(u.drop_last() =~= slots.drop_last().update(k, v));
    }
}

proof fn lemma_planned_ok(s: Seq<Structure>, delivered: u64, i: int)
    requires
        0 <= i < s.len(),
        planned(s, delivered, i) is Ok,
    ensures
        ({
            let d = planned(s, delivered, i)->Ok_0;
            &&& candidate(s, delivered, i) == Ok::<int, Reason>(d)
            &&& 0 <= d < s.len()
            &&& d != i
            &&& s[i].slots.output is Some
            &&& !full(s[d], delivered)
            &&& !rejects(s[d], s[i].slots.output->0)
        }),
{
    let src = s[i];
    let t = src.spec_target()->0;
    lemma_at_position(s, t.0, t.1);
}

proof fn lemma_planned_unique(s: Seq<Structure>, delivered: u64, j1: int, j2: int, d: int)
    requires
        0 <= j1 < j2 < s.len(),
        planned(s, delivered, j1) == Ok::<int, Reason>(d),
    ensures
        planned(s, delivered, j2) != Ok::<int, Reason>(d),
{
    lemma_planned_ok(s, delivered, j1);
    if planned(s, delivered, j2) == Ok::<int, Reason>(d) {
        assert(candidate(s, delivered, j1) == Ok::<int, Reason>(d));
    }
}

proof fn lemma_feeder(s: Seq<Structure>, delivered: u64, k: int, n: int)
    requires
        0 <= n <= s.len(),
    ensures
        match feeder(s, delivered, k, n) {
            Some(j) => 0 <= j < n && planned(s, delivered, j) == Ok::<int, Reason>(k),
            None => forall|j: int| 0 <= j < n ==> planned(s, delivered, j) != Ok::<int, Reason>(k),
        },
    decreases n,
{
    if n > 0 {
        lemma_feeder(s, delivered, k, n - 1);
    }
}

/// Moves every planned item, in source order: the slots afterwards and the
/// new delivered count, or `None` when that count would overflow.
pub fn transfer(s: &Vec<Structure>, plans: &Vec<Result<usize, Reason>>, delivered: u64) -> (r: Option<(Vec<Slots>, u64)>)
    requires
        plans@.len() == s@.len(),
        forall|i: int| 0 <= i < s@.len() ==> plan_view(#[trigger] plans@[i]) == planned(s@, delivered, i),
    ensures
        match r {
            Some((slots, count)) => {
                &&& slots@.len() == s@.len()
                &&& forall|k: int| 0 <= k < s@.len() ==> #[trigger] slots@[k] == slots_after(s@, delivered, k, s@.len() as int)
                &&& count == delivered + deliveries(s@, delivered, s@.len() as int)
                &&& resident(slots@) + deliveries(s@, delivered, s@.len() as int) == resident(slots_of(s@))
            },
            None => delivered + deliveries(s@, delivered, s@.len() as int) > u64::MAX,
        },
{
    let n = s.len();
    let mut cur: Vec<Slots> = Vec::new();
    let mut k: usize = 0;
    while k < n
        invariant
            n == s@.len(),
            k <= n,
            cur@ == slots_of(s@).take(k as int),
        decreases n - k,
    {
        cur.push(s[k].slots);
        proof {
            assert(cur@ =~= slots_of(s@).take(k as int + 1));
        }
        k += 1;
    }
    proof {
        assert(cur@ =~= slots_of(s@));
        assert forall|j: int| 0 <= j < n implies #[trigger] cur@[j] == slots_after(s@, delivered, j, 0) by {
            assert(feeder(s@, delivered, j, 0) is None);
        }
    }
    let mut count = delivered;
    let mut i: usize = 0;
    while i < n
        invariant
            n == s@.len(),
            i <= n,
            plans@.len() == n,
            forall|j: int| 0 <= j < n ==> plan_view(#[trigger] plans@[j]) == planned(s@, delivered, j),
            cur@.len() == n,
            forall|j: int| 0 <= j < n ==> #[trigger] cur@[j] == slots_after(s@, delivered, j, i as int),
            count == delivered + deliveries(s@, delivered, i as int),
            resident(cur@) + deliveries(s@, delivered, i as int) == resident(slots_of(s@)),
        decreases n - i,
    {
        let ghost before = cur@;
        match plans[i] {
            Err(_) => {
                proof {
                    assert forall|j: int| 0 <= j < n implies #[trigger] cur@[j] == slots_after(
                        s@,
                        delivered,
                        j,
                        i as int + 1,
                    ) by {
                        assert(feeder(s@, delivered, j, i as int + 1) == feeder(s@, delivered, j, i as int));
                    }
                }
            },
            Ok(d) => {
                proof {
                    lemma_planned_ok(s@, delivered, i as int);
                    lemma_feeder(s@, delivered, d as int, i as int);
                    lemma_feeder(s@, delivered, i as int, i as int);
                    assert forall|j: int| 0 <= j < i implies planned(s@, delivered, j) != Ok::<int, Reason>(
                        d as int,
                    ) by {
                        if planned(s@, delivered, j) == Ok::<int, Reason>(d as int) {
                            lemma_planned_unique(s@, delivered, j, i as int, d as int);
                        }
                    }
                    if let Some(j) = feeder(s@, delivered, i as int, i as int) {
                        lemma_planned_ok(s@, delivered, j);
                    }
                    if (d as int) < i {
                        if planned(s@, delivered, d as int) is Ok {
                            lemma_planned_ok(s@, delivered, d as int);
                        }
                    }
                    if planned(s@, delivered, d as int) is Ok {
                        lemma_planned_ok(s@, delivered, d as int);
                    }
                }
                let item = s[i].slots.output;
                let mut source = cur[i];
                source.output = None;
                cur.set(i, source);
                proof {
                    lemma_resident_update(before, i as int, source);
                }
                let ghost middle = cur@;
                match s[d].kind {
                    Kind::Delivery => {
                        count = match count.checked_add(1) {
                            Some(c) => c,
                            None => {
                                proof {
                                    lemma_deliveries_grow(s@, delivered, i as int + 1, n as int);
                                }
                                return None;
                            },
                        };
                    },
                    Kind::Processor => {
                        let mut dest = cur[d];
                        dest.input = item;
                        cur.set(d, dest);
                        proof {
                            lemma_resident_update(middle, d as int, dest);
                        }
                    },
                    _ => {
                        let mut dest = cur[d];
                        dest.output = item;
                        cur.set(d, dest);
                        proof {
                            lemma_resident_update(middle, d as int, dest);
                        }
                    },
                }
                proof {
                    assert forall|j: int| 0 <= j < n implies #[trigger] cur@[j] == slots_after(
                        s@,
                        delivered,
                        j,
                        i as int + 1,
                    ) by {
                        if j != d && j != i {
                            assert(feeder(s@, delivered, j, i as int + 1) == feeder(s@, delivered, j, i as int));
                        }
                    }
                }
            },
        }
        i += 1;
    }
    Some((cur, count))
}

proof fn lemma_deliveries_grow(s: Seq<Structure>, delivered: u64, a: int, b: int)
    requires
        0 <= a <= b,
    ensures
        deliveries(s, delivered, a) <= deliveries(s, delivered, b),
    decreases b - a,
{
    if a < b {
        lemma_deliveries_grow(s, delivered, a, b - 1);
    }
}

/// At most one item enters each structure per tick: of the sources ready
/// for the same destination, only the first in row-then-column order moves.
pub proof fn law_one_source_per_destination(s: Seq<Structure>, delivered: u64, j1: int, j2: int, d: int)
    requires
        0 <= j1 < s.len(),
        0 <= j2 < s.len(),
        planned(s, delivered, j1) == Ok::<int, Reason>(d),
        planned(s, delivered, j2) == Ok::<int, Reason>(d),
    ensures
        j1 == j2,
{
    if j1 < j2 {
        lemma_planned_unique(s, delivered, j1, j2, d);
    } else if j2 < j1 {
        lemma_planned_unique(s, delivered, j2, j1, d);
    }
}

/// A source held back by contention loses to an earlier source in
/// row-then-column order that is ready for the same destination.
pub proof fn law_contention_goes_to_the_earlier_source(s: Seq<Structure>, delivered: u64, i: int)
    requires
        0 <= i < s.len(),
        planned(s, delivered, i) == Err::<int, Reason>(Reason::Contention),
    ensures
        exists|j: int| 0 <= j < i && #[trigger] planned(s, delivered, j) == candidate(s, delivered, i),
{
    let d = candidate(s, delivered, i)->Ok_0;
    let first = choose|j: int| 0 <= j < i && #[trigger] candidate(s, delivered, j) == Ok::<int, Reason>(d);
    lemma_first_candidate(s, delivered, first, d);
}

proof fn lemma_first_candidate(s: Seq<Structure>, delivered: u64, j: int, d: int)
    requires
        0 <= j < s.len(),
        candidate(s, delivered, j) == Ok::<int, Reason>(d),
    ensures
        exists|k: int| 0 <= k <= j && #[trigger] planned(s, delivered, k) == Ok::<int, Reason>(d),
    decreases j,
{
    if exists|k: int| 0 <= k < j && #[trigger] candidate(s, delivered, k) == Ok::<int, Reason>(d) {
        let k = choose|k: int| 0 <= k < j && #[trigger] candidate(s, delivered, k) == Ok::<int, Reason>(d);
        lemma_first_candidate(s, delivered, k, d);
    } else {
        assert(planned(s, delivered, j) == Ok::<int, Reason>(d));
    }
}

} // verus!
