//! An application: a world, its schedules of systems, and extracted snapshots.
//!
//! Schedules are identified by label numbers. `Startup`, `FixedUpdate` and
//! `Update` use 0, 1 and 2; other labels choose their own numbers.
use vstd::prelude::*;

use crate::ecs::command::DeferredCommandError;
use crate::ecs::world::{collect_errors, World};
use crate::time::FixedTime;

verus! {

pub const STARTUP_LABEL: u32 = 0;

pub const FIXED_UPDATE_LABEL: u32 = 1;

pub const UPDATE_LABEL: u32 = 2;

/// Identifies an independently runnable collection of systems.
pub trait ScheduleLabel {
    const LABEL: u32;
}

/// Systems that initialize a game. This schedule runs exactly once.
#[derive(Clone, Copy, Debug, Default)]
pub struct Startup;

impl ScheduleLabel for Startup {
    const LABEL: u32 = STARTUP_LABEL;
}

/// Systems driven by deterministic fixed time.
#[derive(Clone, Copy, Debug, Default)]
pub struct FixedUpdate;

impl ScheduleLabel for FixedUpdate {
    const LABEL: u32 = FIXED_UPDATE_LABEL;
}

/// Systems that update once per runner iteration.
#[derive(Clone, Copy, Debug, Default)]
pub struct Update;

impl ScheduleLabel for Update {
    const LABEL: u32 = UPDATE_LABEL;
}

/// The fixed clock's completed tick count in a world that has a clock.
pub open spec fn clock_tick<C>(world: World<C>) -> u64 {
    world.fixed_time_view().unwrap().spec_tick()
}

/// A world an application can run: well formed and holding its fixed clock.
pub open spec fn runnable<C>(world: World<C>) -> bool {
    world.wf() && world.fixed_time_view() is Some
}

/// A system of a schedule. It may change the world through its API, but
/// keeps the fixed clock, which only the application advances.
pub trait AppSystem<C>: Sized {
    /// Whether one run of this system can take the world from `before` to
    /// `after`, the system itself becoming `next`. A system that states
    /// nothing of its effect keeps this default, which holds of any run.
    open spec fn runs(&self, before: World<C>, next: Self, after: World<C>) -> bool {
        true
    }

    fn run(&mut self, world: &mut World<C>)
        requires
            runnable(*old(world)),
        ensures
            runnable(*final(world)),
            final(world).fixed_time_view() == old(world).fixed_time_view(),
            old(self).runs(*old(world), *final(self), *final(world)),
    ;
}

/// One pass over the registered systems for `label`: `worlds[j]` is the
/// world before entry `j` and `worlds[j + 1]` after it. Entries of other
/// labels change nothing; each entry of `label` runs once, in registration
/// order, its system becoming the one in `after`.
pub open spec fn schedule_pass<C, S: AppSystem<C>>(
    label: u32,
    before: Seq<(u32, S)>,
    after: Seq<(u32, S)>,
    worlds: Seq<World<C>>,
) -> bool {
    &&& after.len() == before.len()
    &&& worlds.len() == before.len() + 1
    &&& forall|j: int| 0 <= j < before.len() ==> (#[trigger] after[j]).0 == before[j].0
    &&& forall|j: int|
        0 <= j < before.len() ==> if (#[trigger] before[j]).0 == label {
            before[j].1.runs(worlds[j], after[j].1, worlds[j + 1])
        } else {
            after[j] == before[j] && worlds[j + 1] == worlds[j]
        }
}

/// The clock of `pre` counts one more tick in `post`; nothing else changes.
pub open spec fn clock_advanced<C>(pre: World<C>, post: World<C>) -> bool {
    &&& post.allocator_view() == pre.allocator_view()
    &&& World::same_components(pre, post)
    &&& World::same_builtins(pre, post)
    &&& post.resource_kind_seq() == pre.resource_kind_seq()
    &&& post.resource_value_seq() == pre.resource_value_seq()
    &&& post.font_view() == pre.font_view()
    &&& post.pending() == pre.pending()
    &&& pre.fixed_time_view() is Some
    &&& post.fixed_time_view() is Some
    &&& post.fixed_time_view().unwrap().spec_tick() == pre.fixed_time_view().unwrap().spec_tick() + 1
    &&& post.fixed_time_view().unwrap().spec_delta_nanos() == pre.fixed_time_view().unwrap().spec_delta_nanos()
}

/// One fixed tick: the fixed-update schedule runs, then the clock counts it.
pub open spec fn fixed_step<C, S: AppSystem<C>>(
    before: Seq<(u32, S)>,
    after: Seq<(u32, S)>,
    pre: World<C>,
    post: World<C>,
) -> bool {
    exists|mid: World<C>|
        #[trigger] schedule_run(FIXED_UPDATE_LABEL, before, after, pre, mid) && clock_advanced(mid, post)
}

/// `n` fixed ticks in a row: `systems[k]` and `worlds[k]` before tick `k`.
pub open spec fn fixed_steps<C, S: AppSystem<C>>(
    n: nat,
    systems: Seq<Seq<(u32, S)>>,
    worlds: Seq<World<C>>,
) -> bool {
    &&& systems.len() == n + 1
    &&& worlds.len() == n + 1
    &&& forall|k: int| 0 <= k < n ==> #[trigger] fixed_step(systems[k], systems[k + 1], worlds[k], worlds[k + 1])
}

/// A schedule run: one pass over its systems from `pre`, then the queued
/// deferred commands applied in order, giving `post`.
pub open spec fn schedule_run<C, S: AppSystem<C>>(
    label: u32,
    before: Seq<(u32, S)>,
    after: Seq<(u32, S)>,
    pre: World<C>,
    post: World<C>,
) -> bool {
    exists|worlds: Seq<World<C>>|
        {
            &&& #[trigger] schedule_pass(label, before, after, worlds)
            &&& worlds[0] == pre
            &&& exists|states: Seq<World<C>>, outcomes: Seq<Option<DeferredCommandError>>|
                World::deferred_run(worlds.last(), post, states, outcomes)
        }
}

/// A schedule run, as `schedule_run` says, whose deferred commands report
/// `errors`: their failures in application order.
pub open spec fn schedule_reports<C, S: AppSystem<C>>(
    label: u32,
    before: Seq<(u32, S)>,
    after: Seq<(u32, S)>,
    pre: World<C>,
    post: World<C>,
    errors: Seq<DeferredCommandError>,
) -> bool {
    exists|worlds: Seq<World<C>>|
        {
            &&& #[trigger] schedule_pass(label, before, after, worlds)
            &&& worlds[0] == pre
            &&& exists|states: Seq<World<C>>, outcomes: Seq<Option<DeferredCommandError>>|
                World::deferred_run(worlds.last(), post, states, outcomes) && errors == collect_errors(outcomes)
        }
}

/// A schedule run that reports its failures is a schedule run.
pub proof fn lemma_reports_run<C, S: AppSystem<C>>(
    label: u32,
    before: Seq<(u32, S)>,
    after: Seq<(u32, S)>,
    pre: World<C>,
    post: World<C>,
    errors: Seq<DeferredCommandError>,
)
    requires
        schedule_reports(label, before, after, pre, post, errors),
    ensures
        schedule_run(label, before, after, pre, post),
{
    let worlds = choose|worlds: Seq<World<C>>|
        {
            &&& #[trigger] schedule_pass(label, before, after, worlds)
            &&& worlds[0] == pre
            &&& exists|states: Seq<World<C>>, outcomes: Seq<Option<DeferredCommandError>>|
                World::deferred_run(worlds.last(), post, states, outcomes) && errors == collect_errors(outcomes)
        };
    assert(schedule_pass(label, before, after, worlds));
}

/// One fixed tick, as `fixed_step` says, whose deferred commands report
/// `errors`.
pub open spec fn fixed_step_reports<C, S: AppSystem<C>>(
    before: Seq<(u32, S)>,
    after: Seq<(u32, S)>,
    pre: World<C>,
    post: World<C>,
    errors: Seq<DeferredCommandError>,
) -> bool {
    exists|mid: World<C>|
        #[trigger] schedule_reports(FIXED_UPDATE_LABEL, before, after, pre, mid, errors) && clock_advanced(mid, post)
}

/// `errors.len()` fixed ticks in a row, tick `k` reporting `errors[k]`.
pub open spec fn fixed_steps_report<C, S: AppSystem<C>>(
    systems: Seq<Seq<(u32, S)>>,
    worlds: Seq<World<C>>,
    errors: Seq<Seq<DeferredCommandError>>,
) -> bool {
    &&& systems.len() == errors.len() + 1
    &&& worlds.len() == errors.len() + 1
    &&& forall|k: int|
        0 <= k < errors.len() ==> #[trigger] fixed_step_reports(systems[k], systems[k + 1], worlds[k], worlds[k + 1], errors[k])
}

/// What a checked advance of `ticks` fixed updates did from systems and a
/// world with no outstanding failures: startup ran first unless it had
/// (`started`), reporting `startup_errors`; then `errors.len()` ticks ran,
/// tick `k` reporting `errors[k]`. Failed startup runs no tick; every tick
/// but the last reported nothing. The advance succeeds exactly when startup
/// and every tick reported nothing and all `ticks` ran; otherwise it returns
/// the failures of startup or of the last tick.
pub open spec fn checked_advance<C, S: AppSystem<C>>(
    ticks: nat,
    started: bool,
    pre_systems: Seq<(u32, S)>,
    pre_world: World<C>,
    post_systems: Seq<(u32, S)>,
    post_world: World<C>,
    r: Result<(), Vec<DeferredCommandError>>,
    systems: Seq<Seq<(u32, S)>>,
    worlds: Seq<World<C>>,
    startup_errors: Seq<DeferredCommandError>,
    errors: Seq<Seq<DeferredCommandError>>,
) -> bool {
    let n = errors.len();
    &&& if started {
        systems[0] == pre_systems && worlds[0] == pre_world && startup_errors.len() == 0
    } else {
        schedule_reports(STARTUP_LABEL, pre_systems, systems[0], pre_world, worlds[0], startup_errors)
    }
    &&& fixed_steps_report(systems, worlds, errors)
    &&& systems.last() == post_systems
    &&& worlds.last() == post_world
    &&& n <= ticks
    &&& startup_errors.len() > 0 ==> n == 0
    &&& forall|k: int| 0 <= k < n - 1 ==> (#[trigger] errors[k]).len() == 0
    &&& match r {
        Ok(()) => startup_errors.len() == 0 && n == ticks && (n == 0 || errors[n - 1].len() == 0),
        Err(e) => if startup_errors.len() > 0 {
            e@ == startup_errors
        } else {
            n > 0 && e@ == errors[n - 1] && e@.len() > 0
        },
    }
}

/// Builds an immutable snapshot value from a shared view of the world.
pub trait Extract<C>: Sized {
    /// Whether this builder can produce `value` from `world`. A builder that
    /// states nothing of its output keeps this default, which holds of any
    /// value.
    open spec fn extracts(&self, world: World<C>, value: C) -> bool {
        true
    }

    fn extract(&self, world: &World<C>) -> (r: C)
        requires
            world.wf(),
        ensures
            self.extracts(*world, r),
    ;
}

/// One registered snapshot builder and its latest output.
pub struct Extractor<C, X> {
    kind: u32,
    builder: X,
    latest: Option<C>,
}

/// Configures an application by installing related resources and systems.
pub trait Plugin<C, S: AppSystem<C>, X: Extract<C>> {
    /// Whether `after` is `before` with this plugin installed. A plugin that
    /// states nothing of its effect keeps this default, which holds of any two
    /// applications.
    open spec fn installs(&self, before: App<C, S, X>, after: App<C, S, X>) -> bool {
        true
    }

    fn build(&self, app: &mut App<C, S, X>)
        requires
            old(app).wf(),
        ensures
            final(app).wf(),
            self.installs(*old(app), *final(app)),
    ;
}

/// How an application executes its systems. Sequential execution is the
/// default. `Parallel` lets compatible systems run concurrently with at most
/// `max_threads` callbacks at once; a limit of one is sequential execution.
/// Callback order under `Parallel` is unspecified, so running each schedule
/// on the calling thread in registration order, as this library does, is one
/// of its executions.
#[derive(Clone, Copy, Debug, PartialEq, Eq, Structural)]
pub enum ExecutorPolicy {
    Sequential,
    Parallel { max_threads: usize },
}

impl ExecutorPolicy {
    /// The number of callbacks the policy lets run at once: one when
    /// sequential, the thread limit (at least one) when parallel.
    pub fn concurrency(self) -> (r: usize)
        ensures
            r == match self {
                ExecutorPolicy::Sequential => 1usize,
                ExecutorPolicy::Parallel { max_threads } => if max_threads == 0 {
                    1usize
                } else {
                    max_threads
                },
            },
    {
        match self {
            ExecutorPolicy::Sequential => 1,
            ExecutorPolicy::Parallel { max_threads } => if max_threads == 0 {
                1
            } else {
                max_threads
            },
        }
    }
}

/// Owns a game world and its schedules independently of any platform runner.
pub struct App<C, S: AppSystem<C>, X: Extract<C>> {
    world: World<C>,
    policy: ExecutorPolicy,
    systems: Vec<(u32, S)>,
    startup_complete: bool,
    deferred_errors: Vec<DeferredCommandError>,
    extractors: Vec<Extractor<C, X>>,
    startup_runs: Ghost<nat>,
}

/// No kind occurs twice.
pub open spec fn unique_kinds(kinds: Seq<u32>) -> bool {
    forall|i: int, j: int| 0 <= i < j < kinds.len() ==> kinds[i] != kinds[j]
}

impl<C, S: AppSystem<C>, X: Extract<C>> App<C, S, X> {
    pub closed spec fn spec_world(&self) -> World<C> {
        self.world
    }

    /// Labels of the registered systems, in registration order.
    pub closed spec fn spec_labels(&self) -> Seq<u32> {
        self.systems@.map_values(|entry: (u32, S)| entry.0)
    }

    pub closed spec fn spec_systems(&self) -> Seq<(u32, S)> {
        self.systems@
    }

    pub closed spec fn spec_startup_complete(&self) -> bool {
        self.startup_complete
    }

    /// The execution policy.
    pub closed spec fn spec_policy(&self) -> ExecutorPolicy {
        self.policy
    }

    /// How many times the startup schedule has run.
    pub closed spec fn spec_startup_runs(&self) -> nat {
        self.startup_runs@
    }

    /// Deferred failures reported by schedules and not yet taken.
    pub closed spec fn spec_errors(&self) -> Seq<DeferredCommandError> {
        self.deferred_errors@
    }

    /// Output kinds of the registered snapshot builders, in registration order.
    pub closed spec fn spec_extractor_kinds(&self) -> Seq<u32> {
        self.extractors@.map_values(|e: Extractor<C, X>| e.kind)
    }

    /// The registered snapshot builders, in registration order.
    pub closed spec fn spec_builders(&self) -> Seq<X> {
        self.extractors@.map_values(|e: Extractor<C, X>| e.builder)
    }

    /// Every registered builder has a snapshot, produced by that builder
    /// from the current world.
    pub open spec fn snapshots_current(&self) -> bool {
        &&& self.spec_builders().len() == self.spec_latest_seq().len()
        &&& forall|i: int|
            0 <= i < self.spec_latest_seq().len() ==> ((#[trigger] self.spec_latest_seq()[i]) matches Some(v)
                && self.spec_builders()[i].extracts(self.spec_world(), v))
    }

    /// Latest snapshots, by position of their builder.
    pub closed spec fn spec_latest_seq(&self) -> Seq<Option<C>> {
        self.extractors@.map_values(|e: Extractor<C, X>| e.latest)
    }

    /// The latest snapshot of a kind, if its builder has run.
    pub open spec fn spec_extracted(&self, kind: u32) -> Option<C> {
        if exists|i: int| 0 <= i < self.spec_extractor_kinds().len() && self.spec_extractor_kinds()[i] == kind {
            self.spec_latest_seq()[choose|i: int|
                0 <= i < self.spec_extractor_kinds().len() && self.spec_extractor_kinds()[i] == kind]
        } else {
            None
        }
    }

    /// The fixed clock's completed tick count.
    pub open spec fn spec_tick(&self) -> u64 {
        clock_tick(self.spec_world())
    }

    pub closed spec fn wf(&self) -> bool {
        &&& runnable(self.world)
        &&& unique_kinds(self.spec_extractor_kinds())
        &&& !self.startup_complete ==> forall|i: int|
            0 <= i < self.spec_latest_seq().len() ==> (#[trigger] self.spec_latest_seq()[i]) is None
        &&& self.startup_runs@ == if self.startup_complete {
            1nat
        } else {
            0nat
        }
    }

    /// A snapshot exists only for a registered kind, and only once startup
    /// has run: extraction boundaries begin after startup.
    pub proof fn law_snapshots_follow_startup(&self, kind: u32)
        requires
            self.wf(),
        ensures
            self.spec_extracted(kind) is Some ==> self.spec_startup_complete() && self.spec_extractor_kinds().contains(
                kind,
            ),
    {
        if self.spec_extracted(kind) is Some {
            let i = choose|i: int|
                0 <= i < self.spec_extractor_kinds().len() && self.spec_extractor_kinds()[i] == kind;
            assert(self.spec_latest_seq()[i] is Some);
        }
    }

    /// When the snapshots are current, the snapshot of a registered kind is
    /// one its own builder produced from the current world.
    pub proof fn law_snapshot_comes_from_its_builder(&self, i: int)
        requires
            self.wf(),
            self.snapshots_current(),
            0 <= i < self.spec_extractor_kinds().len(),
        ensures
            self.spec_extracted(self.spec_extractor_kinds()[i]) matches Some(v) && self.spec_builders()[i].extracts(
                self.spec_world(),
                v,
            ),
    {
        self.lemma_extracted_at(i);
        assert(self.spec_latest_seq()[i] matches Some(v) && self.spec_builders()[i].extracts(self.spec_world(), v));
    }

    /// A well-formed application holds a runnable world: well formed, with
    /// its fixed clock.
    pub proof fn lemma_world_runnable(&self)
        requires
            self.wf(),
        ensures
            runnable(self.spec_world()),
            self.spec_world().wf(),
    {
    }

    /// Startup runs at most once: its run count is one exactly when it has completed.
    pub proof fn law_startup_runs_once(&self)
        requires
            self.wf(),
        ensures
            self.spec_startup_runs() <= 1,
            self.spec_startup_runs() == 1 <==> self.spec_startup_complete(),
            self.spec_world().fixed_time_view() is Some,
    {
    }

    /// Creates an application with a 60 Hz fixed clock.
    pub fn new() -> (r: Self)
        ensures
            r.wf(),
            r.spec_world().fixed_time_view() matches Some(clock) && clock.spec_tick() == 0
                && clock.spec_delta_nanos() == 16_666_667,
            r.spec_world().allocator_view().slots().len() == 0,
            r.spec_systems().len() == 0,
            !r.spec_startup_complete(),
            r.spec_errors().len() == 0,
            r.spec_extractor_kinds().len() == 0,
            r.spec_policy() == ExecutorPolicy::Sequential,
    {
        let mut world = World::new();
        world.insert_fixed_time(FixedTime::default_clock());
        let r = App {
            world,
            policy: ExecutorPolicy::Sequential,
            systems: Vec::new(),
            startup_complete: false,
            deferred_errors: Vec::new(),
            extractors: Vec::new(),
            startup_runs: Ghost(0),
        };
        proof {
            assert(r.spec_extractor_kinds() =~= Seq::<u32>::empty());
        }
        r
    }

    /// The execution policy; sequential unless one was set.
    pub fn executor_policy(&self) -> (r: ExecutorPolicy)
        ensures
            r == self.spec_policy(),
    {
        self.policy
    }

    /// Replaces the execution policy; nothing else changes.
    pub fn set_executor_policy(&mut self, policy: ExecutorPolicy)
        ensures
            final(self).spec_policy() == policy,
            final(self).spec_world() == old(self).spec_world(),
            final(self).spec_systems() == old(self).spec_systems(),
            final(self).spec_labels() == old(self).spec_labels(),
            final(self).spec_startup_complete() == old(self).spec_startup_complete(),
            final(self).spec_startup_runs() == old(self).spec_startup_runs(),
            final(self).spec_errors() == old(self).spec_errors(),
            final(self).spec_extractor_kinds() == old(self).spec_extractor_kinds(),
            final(self).spec_builders() == old(self).spec_builders(),
            final(self).spec_latest_seq() == old(self).spec_latest_seq(),
            old(self).wf() ==> final(self).wf(),
    {
        self.policy = policy;
    }

    /// Returns the application's world.
    pub fn world(&self) -> (r: &World<C>)
        ensures
            *r == self.spec_world(),
            self.wf() ==> runnable(*r),
    {
        &self.world
    }

    /// Returns the application's world for direct setup or testing.
    pub fn world_mut(&mut self) -> (r: &mut World<C>)
        ensures
            *r == old(self).spec_world(),
            final(self).spec_world() == *final(r),
            final(self).spec_systems() == old(self).spec_systems(),
            final(self).spec_startup_complete() == old(self).spec_startup_complete(),
            final(self).spec_startup_runs() == old(self).spec_startup_runs(),
            final(self).spec_errors() == old(self).spec_errors(),
            final(self).spec_extractor_kinds() == old(self).spec_extractor_kinds(),
            final(self).spec_builders() == old(self).spec_builders(),
            final(self).spec_latest_seq() == old(self).spec_latest_seq(),
            old(self).wf() ==> runnable(*r),
            old(self).wf() && runnable(*final(r)) ==> final(self).wf(),
    {
        &mut self.world
    }

    /// Adds a system to a schedule, after the systems already in it.
    pub fn add_systems<L: ScheduleLabel>(&mut self, label: L, system: S) -> (r: &mut Self)
        requires
            old(self).wf(),
        ensures
            r.wf(),
            r.spec_systems() == old(self).spec_systems().push((L::LABEL, system)),
            r.spec_labels() == old(self).spec_labels().push(L::LABEL),
            r.spec_world() == old(self).spec_world(),
            r.spec_startup_complete() == old(self).spec_startup_complete(),
            r.spec_startup_runs() == old(self).spec_startup_runs(),
            r.spec_errors() == old(self).spec_errors(),
            r.spec_extractor_kinds() == old(self).spec_extractor_kinds(),
            r.spec_builders() == old(self).spec_builders(),
            r.spec_latest_seq() == old(self).spec_latest_seq(),
            *final(self) == *final(r),
    {
        let id = L::LABEL;
        self.systems.push((id, system));
        proof {
            assert(self.spec_labels() =~= old(self).spec_labels().push(id));
        }
        self
    }

    /// Registers a snapshot builder for an output kind, outside the
    /// simulation schedules.
    ///
    /// Builders run in registration order after startup, completed fixed
    /// ticks, ordinary schedules and explicit deferred-command safe points.
    /// One builder is kept per kind: registering a kind again replaces its
    /// builder in its earlier position and discards its snapshot. The first
    /// snapshot appears at the next extraction boundary after startup.
    pub fn add_extractor(&mut self, kind: u32, builder: X) -> (r: &mut Self)
        requires
            old(self).wf(),
        ensures
            r.wf(),
            r.spec_extractor_kinds() == if old(self).spec_extractor_kinds().contains(kind) {
                old(self).spec_extractor_kinds()
            } else {
                old(self).spec_extractor_kinds().push(kind)
            },
            r.spec_extracted(kind) is None,
            forall|k: u32| k != kind ==> #[trigger] r.spec_extracted(k) == old(self).spec_extracted(k),
            forall|i: int|
                0 <= i < old(self).spec_extractor_kinds().len() && old(self).spec_extractor_kinds()[i] == kind
                    ==> r.spec_builders() == old(self).spec_builders().update(i, builder),
            !old(self).spec_extractor_kinds().contains(kind) ==> r.spec_builders() == old(self).spec_builders().push(
                builder,
            ),
            r.spec_world() == old(self).spec_world(),
            r.spec_systems() == old(self).spec_systems(),
            r.spec_startup_complete() == old(self).spec_startup_complete(),
            r.spec_startup_runs() == old(self).spec_startup_runs(),
            r.spec_errors() == old(self).spec_errors(),
            *final(self) == *final(r),
    {
        let ghost old_kinds = self.spec_extractor_kinds();
        let ghost old_latest = self.spec_latest_seq();
        let mut i: usize = 0;
        while i < self.extractors.len()
            invariant
                i <= self.extractors@.len(),
                self.extractors@ == old(self).extractors@,
                old_kinds == self.spec_extractor_kinds(),
                forall|j: int| 0 <= j < i ==> old_kinds[j] != kind,
            ensures
                i <= self.extractors@.len(),
                self.extractors@ == old(self).extractors@,
                old_kinds == self.spec_extractor_kinds(),
                forall|j: int| 0 <= j < i ==> old_kinds[j] != kind,
                i < self.extractors@.len() ==> old_kinds[i as int] == kind,
            decreases self.extractors@.len() - i,
        {
            if self.extractors[i].kind == kind {
                break;
            }
            i += 1;
        }
        let registered = Extractor { kind, builder, latest: None };
        if i < self.extractors.len() {
            self.extractors.set(i, registered);
            proof {
                assert(old_kinds[i as int] == kind);
                assert(self.spec_extractor_kinds() =~= old_kinds);
                assert(self.spec_builders() =~= old(self).spec_builders().update(i as int, builder));
                assert forall|j: int| 0 <= j < old_kinds.len() && old_kinds[j] == kind implies j == i by {
                    if j != i {
                        assert(unique_kinds(old_kinds));
                    }
                }
                assert(self.spec_latest_seq() =~= old_latest.update(i as int, None));
                self.lemma_extracted_at(i as int);
                assert forall|k: u32| k != kind implies #[trigger] self.spec_extracted(k) == old(self).spec_extracted(k) by {
                    if exists|j: int| 0 <= j < old_kinds.len() && old_kinds[j] == k {
                        let j = choose|j: int| 0 <= j < old_kinds.len() && old_kinds[j] == k;
                        self.lemma_extracted_at(j);
                        old(self).lemma_extracted_at(j);
                    }
                }
                assert(old_kinds.contains(kind));
            }
        } else {
            self.extractors.push(registered);
            proof {
                assert(self.spec_extractor_kinds() =~= old_kinds.push(kind));
                assert(self.spec_builders() =~= old(self).spec_builders().push(builder));
                assert(self.spec_latest_seq() =~= old_latest.push(None));
                assert(!old_kinds.contains(kind));
                self.lemma_extracted_at(i as int);
                assert forall|k: u32| k != kind implies #[trigger] self.spec_extracted(k) == old(self).spec_extracted(k) by {
                    if exists|j: int| 0 <= j < old_kinds.len() && old_kinds[j] == k {
                        let j = choose|j: int| 0 <= j < old_kinds.len() && old_kinds[j] == k;
                        self.lemma_extracted_at(j);
                        old(self).lemma_extracted_at(j);
                    }
                }
            }
        }
        self
    }

    proof fn lemma_extracted_at(&self, i: int)
        requires
            unique_kinds(self.spec_extractor_kinds()),
            0 <= i < self.spec_extractor_kinds().len(),
        ensures
            self.spec_extracted(self.spec_extractor_kinds()[i]) == self.spec_latest_seq()[i],
    {
        let kinds = self.spec_extractor_kinds();
        let c = choose|j: int| 0 <= j < kinds.len() && kinds[j] == kinds[i];
        assert(0 <= c < kinds.len() && kinds[c] == kinds[i]);
    }

    /// Reads the latest snapshot of a kind without exposing simulation state.
    /// Returns `None` until this kind's builder runs after registration.
    pub fn extracted(&self, kind: u32) -> (r: Option<&C>)
        requires
            self.wf(),
        ensures
            r == match self.spec_extracted(kind) {
                Some(value) => Some(&value),
                None => None::<&C>,
            },
    {
        let mut i: usize = 0;
        while i < self.extractors.len()
            invariant
                self.wf(),
                i <= self.extractors@.len(),
                forall|j: int| 0 <= j < i ==> self.spec_extractor_kinds()[j] != kind,
            decreases self.extractors@.len() - i,
        {
            if self.extractors[i].kind == kind {
                proof {
                    assert(self.spec_extractor_kinds()[i as int] == kind);
                    self.lemma_extracted_at(i as int);
                }
                return match &self.extractors[i].latest {
                    Some(value) => Some(value),
                    None => None,
                };
            }
            i += 1;
        }
        None
    }

    /// Refreshes snapshots from the current world, without running systems,
    /// applying deferred commands, or advancing time. Does nothing before
    /// startup.
    pub fn refresh_extracted(&mut self)
        requires
            old(self).wf(),
        ensures
            final(self).wf(),
            final(self).spec_world() == old(self).spec_world(),
            final(self).spec_systems() == old(self).spec_systems(),
            final(self).spec_startup_complete() == old(self).spec_startup_complete(),
            final(self).spec_startup_runs() == old(self).spec_startup_runs(),
            final(self).spec_errors() == old(self).spec_errors(),
            final(self).spec_extractor_kinds() == old(self).spec_extractor_kinds(),
            final(self).spec_builders() == old(self).spec_builders(),
            !old(self).spec_startup_complete() ==> final(self).spec_latest_seq() == old(self).spec_latest_seq(),
            old(self).spec_startup_complete() ==> final(self).snapshots_current(),
    {
        if !self.startup_complete {
            return;
        }
        let ghost old_kinds = self.spec_extractor_kinds();
        let mut i: usize = 0;
        while i < self.extractors.len()
            invariant
                self.wf(),
                self.startup_complete,
                self.world == old(self).world,
                self.systems == old(self).systems,
                self.startup_runs == old(self).startup_runs,
                self.deferred_errors == old(self).deferred_errors,
                i <= self.extractors@.len(),
                self.spec_extractor_kinds() == old_kinds,
                self.spec_builders() == old(self).spec_builders(),
                forall|j: int| 0 <= j < i ==> ((#[trigger] self.spec_latest_seq()[j]) matches Some(v)
                    && self.spec_builders()[j].extracts(self.spec_world(), v)),
            decreases self.extractors@.len() - i,
        {
            let value = self.extractors[i].builder.extract(&self.world);
            let ghost before = self.extractors@;
            let ghost before_latest = self.spec_latest_seq();
            let mut entry = self.extractors.remove(i);
            entry.latest = Some(value);
            let ghost placed = entry;
            self.extractors.insert(i, entry);
            proof {
                assert(self.extractors@[i as int] == placed);
                assert(self.spec_extractor_kinds() =~= old_kinds);
                assert(self.spec_builders() =~= old(self).spec_builders()) by {
                    assert forall|j: int| 0 <= j < self.extractors@.len() implies self.extractors@[j].builder == before[j].builder by {
                        if j != i {
                            assert(self.extractors@[j] == before[j]);
                        }
                    }
                }
                assert forall|j: int| 0 <= j < i + 1 implies ((#[trigger] self.spec_latest_seq()[j]) matches Some(v)
                    && self.spec_builders()[j].extracts(self.spec_world(), v)) by {
                    if j < i {
                        assert(self.extractors@[j] == before[j]);
                        assert(before_latest[j] == before[j].latest);
                    } else {
                        assert(self.spec_latest_seq()[j] == placed.latest);
                    }
                }
            }
            i += 1;
        }
    }

    /// Applies a plugin to this application.
    pub fn add_plugin<P: Plugin<C, S, X>>(&mut self, plugin: P) -> (r: &mut Self)
        requires
            old(self).wf(),
        ensures
            r.wf(),
            *final(self) == *final(r),
            plugin.installs(*old(self), *r),
    {
        plugin.build(self);
        self
    }

    /// Replaces the deterministic fixed clock.
    pub fn set_fixed_time(&mut self, fixed_time: FixedTime) -> (r: &mut Self)
        requires
            old(self).wf(),
        ensures
            r.wf(),
            r.spec_world().fixed_time_view() == Some(fixed_time),
            r.spec_world().allocator_view() == old(self).spec_world().allocator_view(),
            World::same_components(old(self).spec_world(), r.spec_world()),
            World::same_builtins(old(self).spec_world(), r.spec_world()),
            r.spec_systems() == old(self).spec_systems(),
            r.spec_startup_complete() == old(self).spec_startup_complete(),
            r.spec_startup_runs() == old(self).spec_startup_runs(),
            r.spec_errors() == old(self).spec_errors(),
            r.spec_extractor_kinds() == old(self).spec_extractor_kinds(),
            r.spec_builders() == old(self).spec_builders(),
            r.spec_latest_seq() == old(self).spec_latest_seq(),
            *final(self) == *final(r),
    {
        self.world.insert_fixed_time(fixed_time);
        self
    }

    /// Takes failures produced by deferred commands during prior schedules.
    pub fn take_deferred_errors(&mut self) -> (r: Vec<DeferredCommandError>)
        requires
            old(self).wf(),
        ensures
            final(self).wf(),
            r@ == old(self).spec_errors(),
            final(self).spec_errors().len() == 0,
            final(self).spec_world() == old(self).spec_world(),
            final(self).spec_systems() == old(self).spec_systems(),
            final(self).spec_startup_complete() == old(self).spec_startup_complete(),
            final(self).spec_startup_runs() == old(self).spec_startup_runs(),
            final(self).spec_extractor_kinds() == old(self).spec_extractor_kinds(),
            final(self).spec_builders() == old(self).spec_builders(),
            final(self).spec_latest_seq() == old(self).spec_latest_seq(),
    {
        let mut taken: Vec<DeferredCommandError> = Vec::new();
        std::mem::swap(&mut taken, &mut self.deferred_errors);
        taken
    }

    /// Returns the outstanding failures as an error, consuming them.
    fn check_deferred_errors(&mut self) -> (r: Result<(), Vec<DeferredCommandError>>)
        requires
            old(self).wf(),
        ensures
            final(self).wf(),
            final(self).spec_errors().len() == 0,
            old(self).spec_errors().len() == 0 ==> r is Ok,
            old(self).spec_errors().len() > 0 ==> (r matches Err(e) && e@ == old(self).spec_errors()),
            final(self).spec_world() == old(self).spec_world(),
            final(self).spec_systems() == old(self).spec_systems(),
            final(self).spec_startup_complete() == old(self).spec_startup_complete(),
            final(self).spec_startup_runs() == old(self).spec_startup_runs(),
            final(self).spec_extractor_kinds() == old(self).spec_extractor_kinds(),
            final(self).spec_builders() == old(self).spec_builders(),
            final(self).spec_latest_seq() == old(self).spec_latest_seq(),
    {
        let errors = self.take_deferred_errors();
        if errors.len() == 0 {
            Ok(())
        } else {
            Err(errors)
        }
    }

    /// Appends failures to the outstanding list.
    fn record_errors(&mut self, errors: Vec<DeferredCommandError>)
        requires
            old(self).wf(),
        ensures
            final(self).wf(),
            final(self).spec_errors() == old(self).spec_errors() + errors@,
            final(self).spec_world() == old(self).spec_world(),
            final(self).spec_systems() == old(self).spec_systems(),
            final(self).spec_startup_complete() == old(self).spec_startup_complete(),
            final(self).spec_startup_runs() == old(self).spec_startup_runs(),
            final(self).spec_extractor_kinds() == old(self).spec_extractor_kinds(),
            final(self).spec_builders() == old(self).spec_builders(),
            final(self).spec_latest_seq() == old(self).spec_latest_seq(),
    {
        let mut i: usize = 0;
        while i < errors.len()
            invariant
                self.wf(),
                i <= errors@.len(),
                self.deferred_errors@ == old(self).deferred_errors@ + errors@.subrange(0, i as int),
                self.world == old(self).world,
                self.systems == old(self).systems,
                self.startup_complete == old(self).startup_complete,
                self.startup_runs == old(self).startup_runs,
                self.extractors == old(self).extractors,
            decreases errors@.len() - i,
        {
            self.deferred_errors.push(errors[i]);
            proof {
                assert(self.deferred_errors@ =~= old(self).deferred_errors@ + errors@.subrange(0, i as int + 1));
            }
            i += 1;
        }
        proof {
            assert(errors@.subrange(0, errors@.len() as int) =~= errors@);
        }
    }

    /// Applies queued structural changes at an explicit safe point and
    /// reports all outstanding deferred failures. Successful changes are not
    /// rolled back.
    pub fn apply_deferred(&mut self) -> (r: Result<(), Vec<DeferredCommandError>>)
        requires
            old(self).wf(),
        ensures
            final(self).wf(),
            final(self).spec_errors().len() == 0,
            final(self).spec_world().pending().len() == 0,
            old(self).spec_startup_complete() ==> final(self).snapshots_current(),
            final(self).spec_tick() == old(self).spec_tick(),
            final(self).spec_systems() == old(self).spec_systems(),
            final(self).spec_startup_complete() == old(self).spec_startup_complete(),
            final(self).spec_startup_runs() == old(self).spec_startup_runs(),
            final(self).spec_extractor_kinds() == old(self).spec_extractor_kinds(),
            final(self).spec_builders() == old(self).spec_builders(),
            exists|applied: Seq<DeferredCommandError>| {
                &&& (exists|states: Seq<World<C>>, outcomes: Seq<Option<DeferredCommandError>>|
                    World::deferred_run(old(self).spec_world(), final(self).spec_world(), states, outcomes)
                        && applied == crate::ecs::world::collect_errors(outcomes))
                &&& (old(self).spec_errors() + applied).len() == 0 ==> r is Ok
                &&& (old(self).spec_errors() + applied).len() > 0 ==> (r matches Err(e) && e@ == old(self).spec_errors() + applied)
            },
    {
        let ghost before = self.world;
        let errors = self.world.apply_deferred();
        let ghost applied = errors@;
        let ghost after = self.world;
        self.record_errors(errors);
        self.refresh_extracted();
        let r = self.check_deferred_errors();
        proof {
            assert(self.spec_world() == after);
            assert(old(self).spec_errors() + applied == old(self).spec_errors() + applied);
            let (states, outcomes) = choose|states: Seq<World<C>>, outcomes: Seq<Option<DeferredCommandError>>|
                World::deferred_run(before, after, states, outcomes) && applied == crate::ecs::world::collect_errors(outcomes);
            assert(World::deferred_run(old(self).spec_world(), self.spec_world(), states, outcomes));
        }
        r
    }

    /// Runs the systems of one schedule in registration order, then applies
    /// the deferred commands they queued.
    fn run_schedule(&mut self, label: u32)
        requires
            old(self).wf(),
        ensures
            final(self).wf(),
            final(self).spec_tick() == old(self).spec_tick(),
            final(self).spec_labels() == old(self).spec_labels(),
            final(self).spec_startup_complete() == old(self).spec_startup_complete(),
            final(self).spec_startup_runs() == old(self).spec_startup_runs(),
            final(self).spec_extractor_kinds() == old(self).spec_extractor_kinds(),
            final(self).spec_builders() == old(self).spec_builders(),
            final(self).spec_latest_seq() == old(self).spec_latest_seq(),
            final(self).spec_world().pending().len() == 0,
            final(self).spec_errors().len() >= old(self).spec_errors().len(),
            final(self).spec_errors().subrange(0, old(self).spec_errors().len() as int) == old(self).spec_errors(),
            schedule_run(label, old(self).spec_systems(), final(self).spec_systems(), old(self).spec_world(), final(self).spec_world()),
            schedule_reports(
                label,
                old(self).spec_systems(),
                final(self).spec_systems(),
                old(self).spec_world(),
                final(self).spec_world(),
                final(self).spec_errors().subrange(old(self).spec_errors().len() as int, final(self).spec_errors().len() as int),
            ),
    {
        let ghost clock = self.world.fixed_time_view();
        let ghost labels = self.spec_labels();
        let ghost original = self.systems@;
        let ghost mut worlds: Seq<World<C>> = seq![self.world];
        let mut i: usize = 0;
        while i < self.systems.len()
            invariant
                runnable(self.world),
                self.world.fixed_time_view() == clock,
                i <= self.systems@.len(),
                self.systems@.len() == original.len(),
                self.spec_labels() == labels,
                self.startup_complete == old(self).startup_complete,
                self.startup_runs == old(self).startup_runs,
                self.extractors == old(self).extractors,
                self.deferred_errors == old(self).deferred_errors,
                original == old(self).systems@,
                worlds.len() == i + 1,
                worlds[0] == old(self).world,
                worlds[i as int] == self.world,
                forall|j: int| i <= j < original.len() ==> #[trigger] self.systems@[j] == original[j],
                forall|j: int| 0 <= j < i ==> (#[trigger] self.systems@[j]).0 == original[j].0,
                forall|j: int|
                    0 <= j < i ==> if (#[trigger] original[j]).0 == label {
                        original[j].1.runs(worlds[j], self.systems@[j].1, worlds[j + 1])
                    } else {
                        self.systems@[j] == original[j] && worlds[j + 1] == worlds[j]
                    },
            decreases self.systems@.len() - i,
        {
            let ghost before = self.systems@;
            if self.systems[i].0 == label {
                let ghost w0 = self.world;
                let mut entry = self.systems.remove(i);
                let ghost system = entry.1;
                entry.1.run(&mut self.world);
                self.systems.insert(i, entry);
                proof {
                    assert(self.spec_labels() =~= labels) by {
                        assert forall|j: int| 0 <= j < self.systems@.len() implies self.systems@[j].0 == before[j].0 by {
                            if j != i {
                                assert(self.systems@[j] == before[j]);
                            }
                        }
                    }
                    assert forall|j: int| 0 <= j < self.systems@.len() && j != i implies self.systems@[j] == before[j] by {}
                    worlds = worlds.push(self.world);
                    assert(system == original[i as int].1);
                }
            } else {
                proof {
                    worlds = worlds.push(self.world);
                }
            }
            i += 1;
        }
        proof {
            assert(schedule_pass(label, original, self.systems@, worlds));
        }
        let ghost passed = self.world;
        let errors = self.world.apply_deferred();
        let ghost applied = errors@;
        proof {
            assert(worlds.last() == passed);
        }
        self.record_errors(errors);
        proof {
            assert(self.spec_errors().subrange(old(self).spec_errors().len() as int, self.spec_errors().len() as int)
                =~= applied);
            assert(schedule_pass(label, original, self.systems@, worlds));
        }
    }

    fn run_startup(&mut self)
        requires
            old(self).wf(),
        ensures
            final(self).wf(),
            final(self).spec_startup_complete(),
            final(self).spec_tick() == old(self).spec_tick(),
            final(self).spec_labels() == old(self).spec_labels(),
            final(self).spec_extractor_kinds() == old(self).spec_extractor_kinds(),
            final(self).spec_builders() == old(self).spec_builders(),
            old(self).spec_startup_complete() ==> *final(self) == *old(self),
            !old(self).spec_startup_complete() ==> schedule_run(
                STARTUP_LABEL,
                old(self).spec_systems(),
                final(self).spec_systems(),
                old(self).spec_world(),
                final(self).spec_world(),
            ),
            !old(self).spec_startup_complete() ==> schedule_reports(
                STARTUP_LABEL,
                old(self).spec_systems(),
                final(self).spec_systems(),
                old(self).spec_world(),
                final(self).spec_world(),
                final(self).spec_errors().subrange(old(self).spec_errors().len() as int, final(self).spec_errors().len() as int),
            ),
            !old(self).spec_startup_complete() ==> final(self).snapshots_current(),
            final(self).spec_errors().len() >= old(self).spec_errors().len(),
            final(self).spec_errors().subrange(0, old(self).spec_errors().len() as int) == old(self).spec_errors(),
    {
        if !self.startup_complete {
            self.startup_complete = true;
            proof {
                self.startup_runs = Ghost(1nat);
            }
            self.run_schedule(STARTUP_LABEL);
            self.refresh_extracted();
        }
    }

    /// Runs one schedule.
    ///
    /// Startup runs first when it has not run yet; running `Startup`
    /// explicitly still obeys its run-once guarantee.
    pub fn update_schedule<L: ScheduleLabel>(&mut self, label: L)
        requires
            old(self).wf(),
        ensures
            final(self).wf(),
            final(self).spec_startup_complete(),
            final(self).spec_tick() == old(self).spec_tick(),
            final(self).spec_labels() == old(self).spec_labels(),
            final(self).spec_extractor_kinds() == old(self).spec_extractor_kinds(),
            final(self).spec_builders() == old(self).spec_builders(),
            L::LABEL != STARTUP_LABEL || !old(self).spec_startup_complete() ==> final(self).snapshots_current(),
            L::LABEL == STARTUP_LABEL && old(self).spec_startup_complete() ==> *final(self) == *old(self),
            L::LABEL == STARTUP_LABEL && !old(self).spec_startup_complete() ==> schedule_run(
                STARTUP_LABEL,
                old(self).spec_systems(),
                final(self).spec_systems(),
                old(self).spec_world(),
                final(self).spec_world(),
            ),
            L::LABEL != STARTUP_LABEL && old(self).spec_startup_complete() ==> schedule_run(
                L::LABEL,
                old(self).spec_systems(),
                final(self).spec_systems(),
                old(self).spec_world(),
                final(self).spec_world(),
            ),
            L::LABEL != STARTUP_LABEL && !old(self).spec_startup_complete() ==> exists|
                systems: Seq<(u32, S)>,
                world: World<C>,
            |
                #[trigger] schedule_run(STARTUP_LABEL, old(self).spec_systems(), systems, old(self).spec_world(), world)
                    && schedule_run(L::LABEL, systems, final(self).spec_systems(), world, final(self).spec_world()),
    {
        let id = L::LABEL;
        if id == STARTUP_LABEL {
            self.run_startup();
            return;
        }
        let ghost started = *self;
        self.run_startup();
        let ghost middle = *self;
        self.run_schedule(id);
        self.refresh_extracted();
        proof {
            if !started.spec_startup_complete() {
                assert(schedule_run(STARTUP_LABEL, started.spec_systems(), middle.spec_systems(), started.spec_world(), middle.spec_world()));
            }
        }
    }

    /// Runs one ordinary update after ensuring startup has completed.
    pub fn update(&mut self)
        requires
            old(self).wf(),
        ensures
            final(self).wf(),
            final(self).spec_startup_complete(),
            final(self).spec_tick() == old(self).spec_tick(),
            final(self).spec_labels() == old(self).spec_labels(),
            final(self).spec_extractor_kinds() == old(self).spec_extractor_kinds(),
            final(self).spec_builders() == old(self).spec_builders(),
            final(self).snapshots_current(),
            old(self).spec_startup_complete() ==> schedule_run(
                UPDATE_LABEL,
                old(self).spec_systems(),
                final(self).spec_systems(),
                old(self).spec_world(),
                final(self).spec_world(),
            ),
            !old(self).spec_startup_complete() ==> exists|systems: Seq<(u32, S)>, world: World<C>|
                #[trigger] schedule_run(STARTUP_LABEL, old(self).spec_systems(), systems, old(self).spec_world(), world)
                    && schedule_run(UPDATE_LABEL, systems, final(self).spec_systems(), world, final(self).spec_world()),
    {
        self.update_schedule(Update);
    }

    /// Runs one fixed update and counts it on the clock.
    fn fixed_tick(&mut self)
        requires
            old(self).wf(),
            old(self).spec_tick() < u64::MAX,
        ensures
            final(self).wf(),
            final(self).spec_tick() == old(self).spec_tick() + 1,
            final(self).spec_startup_complete() == old(self).spec_startup_complete(),
            final(self).spec_startup_runs() == old(self).spec_startup_runs(),
            final(self).spec_labels() == old(self).spec_labels(),
            final(self).spec_extractor_kinds() == old(self).spec_extractor_kinds(),
            final(self).spec_builders() == old(self).spec_builders(),
            final(self).spec_errors().len() >= old(self).spec_errors().len(),
            final(self).spec_errors().subrange(0, old(self).spec_errors().len() as int) == old(self).spec_errors(),
            fixed_step(old(self).spec_systems(), final(self).spec_systems(), old(self).spec_world(), final(self).spec_world()),
            fixed_step_reports(
                old(self).spec_systems(),
                final(self).spec_systems(),
                old(self).spec_world(),
                final(self).spec_world(),
                final(self).spec_errors().subrange(old(self).spec_errors().len() as int, final(self).spec_errors().len() as int),
            ),
            old(self).spec_startup_complete() ==> final(self).snapshots_current(),
    {
        let ghost pre = *self;
        self.run_schedule(FIXED_UPDATE_LABEL);
        let ghost mid = *self;
        let mut clock = match self.world.fixed_time() {
            Some(clock) => clock,
            None => {
                return;
            },
        };
        clock.complete_tick();
        self.world.insert_fixed_time(clock);
        self.refresh_extracted();
        proof {
            assert(clock_advanced(mid.spec_world(), self.spec_world()));
            assert(schedule_run(FIXED_UPDATE_LABEL, pre.spec_systems(), mid.spec_systems(), pre.spec_world(), mid.spec_world()));
            assert(self.spec_errors() == mid.spec_errors());
            assert(schedule_reports(
                FIXED_UPDATE_LABEL,
                pre.spec_systems(),
                mid.spec_systems(),
                pre.spec_world(),
                mid.spec_world(),
                self.spec_errors().subrange(pre.spec_errors().len() as int, self.spec_errors().len() as int),
            ));
        }
    }

    /// Advances deterministic simulation by exactly `ticks` fixed updates,
    /// after ensuring startup has completed.
    pub fn advance_fixed(&mut self, ticks: u64)
        requires
            old(self).wf(),
            old(self).spec_tick() + ticks <= u64::MAX,
        ensures
            final(self).wf(),
            final(self).spec_startup_complete(),
            final(self).spec_tick() == old(self).spec_tick() + ticks,
            final(self).spec_labels() == old(self).spec_labels(),
            final(self).spec_extractor_kinds() == old(self).spec_extractor_kinds(),
            final(self).spec_builders() == old(self).spec_builders(),
            old(self).spec_startup_complete() ==> exists|systems: Seq<Seq<(u32, S)>>, worlds: Seq<World<C>>|
                #[trigger] fixed_steps(ticks as nat, systems, worlds) && systems[0] == old(self).spec_systems()
                    && worlds[0] == old(self).spec_world() && systems.last() == final(self).spec_systems()
                    && worlds.last() == final(self).spec_world(),
            !old(self).spec_startup_complete() ==> exists|systems: Seq<Seq<(u32, S)>>, worlds: Seq<World<C>>|
                #[trigger] fixed_steps(ticks as nat, systems, worlds) && schedule_run(
                    STARTUP_LABEL,
                    old(self).spec_systems(),
                    systems[0],
                    old(self).spec_world(),
                    worlds[0],
                ) && systems.last() == final(self).spec_systems() && worlds.last() == final(self).spec_world(),
            ticks > 0 || !old(self).spec_startup_complete() ==> final(self).snapshots_current(),
    {
        let ghost started = *self;
        self.run_startup();
        let ghost mut systems: Seq<Seq<(u32, S)>> = seq![self.spec_systems()];
        let ghost mut worlds: Seq<World<C>> = seq![self.spec_world()];
        let mut done: u64 = 0;
        while done < ticks
            invariant
                self.wf(),
                self.spec_startup_complete(),
                done <= ticks,
                self.spec_tick() == old(self).spec_tick() + done,
                old(self).spec_tick() + ticks <= u64::MAX,
                self.spec_labels() == old(self).spec_labels(),
                self.spec_extractor_kinds() == old(self).spec_extractor_kinds(),
                self.spec_builders() == old(self).spec_builders(),
                fixed_steps(done as nat, systems, worlds),
                started.spec_startup_complete() ==> systems[0] == started.spec_systems() && worlds[0]
                    == started.spec_world(),
                !started.spec_startup_complete() ==> schedule_run(
                    STARTUP_LABEL,
                    started.spec_systems(),
                    systems[0],
                    started.spec_world(),
                    worlds[0],
                ),
                done > 0 || !started.spec_startup_complete() ==> self.snapshots_current(),
                systems.last() == self.spec_systems(),
                worlds.last() == self.spec_world(),
            decreases ticks - done,
        {
            let ghost before = *self;
            self.fixed_tick();
            proof {
                let s2 = systems.push(self.spec_systems());
                let w2 = worlds.push(self.spec_world());
                assert forall|k: int| 0 <= k < done + 1 implies #[trigger] fixed_step(s2[k], s2[k + 1], w2[k], w2[k + 1]) by {
                    if k < done {
                        assert(s2[k] == systems[k] && s2[k + 1] == systems[k + 1]);
                        assert(w2[k] == worlds[k] && w2[k + 1] == worlds[k + 1]);
                        assert(fixed_step(systems[k], systems[k + 1], worlds[k], worlds[k + 1]));
                    } else {
                        assert(s2[k] == before.spec_systems() && w2[k] == before.spec_world());
                    }
                }
                systems = s2;
                worlds = w2;
            }
            done += 1;
        }
    }

    /// Advances fixed ticks, stopping at the first failed schedule boundary.
    ///
    /// Outstanding errors are returned before running startup or any ticks.
    /// A failed fixed update still counts as an executed tick: systems and
    /// successful structural changes are not rolled back. Startup failures
    /// stop execution before the first tick. Errors are consumed by this call.
    pub fn try_advance_fixed(&mut self, ticks: u64) -> (r: Result<(), Vec<DeferredCommandError>>)
        requires
            old(self).wf(),
            old(self).spec_tick() + ticks <= u64::MAX,
        ensures
            final(self).wf(),
            final(self).spec_errors().len() == 0,
            old(self).spec_errors().len() > 0 ==> (r matches Err(e) && e@ == old(self).spec_errors()
                && final(self).spec_world() == old(self).spec_world()
                && final(self).spec_systems() == old(self).spec_systems()
                && final(self).spec_startup_complete() == old(self).spec_startup_complete()),
            old(self).spec_errors().len() == 0 ==> final(self).spec_startup_complete(),
            old(self).spec_errors().len() == 0 ==> exists|
                systems: Seq<Seq<(u32, S)>>,
                worlds: Seq<World<C>>,
                startup_errors: Seq<DeferredCommandError>,
                errors: Seq<Seq<DeferredCommandError>>,
            |
                #[trigger] checked_advance(
                    ticks as nat,
                    old(self).spec_startup_complete(),
                    old(self).spec_systems(),
                    old(self).spec_world(),
                    final(self).spec_systems(),
                    final(self).spec_world(),
                    r,
                    systems,
                    worlds,
                    startup_errors,
                    errors,
                ) && final(self).spec_tick() == old(self).spec_tick() + errors.len(),
            old(self).spec_errors().len() == 0 && old(self).spec_startup_complete() && ticks == 0 ==> r is Ok,
            old(self).spec_tick() <= final(self).spec_tick() <= old(self).spec_tick() + ticks,
            r is Ok ==> final(self).spec_tick() == old(self).spec_tick() + ticks,
            r matches Err(e) ==> e@.len() > 0,
            final(self).spec_labels() == old(self).spec_labels(),
            final(self).spec_extractor_kinds() == old(self).spec_extractor_kinds(),
            final(self).spec_builders() == old(self).spec_builders(),
    {
        match self.check_deferred_errors() {
            Ok(()) => {},
            Err(errors) => {
                return Err(errors);
            },
        }
        self.run_startup();
        let ghost startup_errors = self.spec_errors();
        proof {
            assert(self.spec_errors().subrange(0, self.spec_errors().len() as int) =~= startup_errors);
        }
        let ghost mut systems: Seq<Seq<(u32, S)>> = seq![self.spec_systems()];
        let ghost mut worlds: Seq<World<C>> = seq![self.spec_world()];
        let ghost mut errs: Seq<Seq<DeferredCommandError>> = Seq::empty();
        match self.check_deferred_errors() {
            Ok(()) => {},
            Err(errors) => {
                proof {
                    assert(checked_advance(
                        ticks as nat,
                        old(self).spec_startup_complete(),
                        old(self).spec_systems(),
                        old(self).spec_world(),
                        self.spec_systems(),
                        self.spec_world(),
                        Err(errors),
                        systems,
                        worlds,
                        startup_errors,
                        errs,
                    ));
                }
                return Err(errors);
            },
        }
        let mut done: u64 = 0;
        while done < ticks
            invariant
                self.wf(),
                self.spec_startup_complete(),
                self.spec_errors().len() == 0,
                done <= ticks,
                self.spec_tick() == old(self).spec_tick() + done,
                old(self).spec_tick() + ticks <= u64::MAX,
                self.spec_labels() == old(self).spec_labels(),
                self.spec_extractor_kinds() == old(self).spec_extractor_kinds(),
                self.spec_builders() == old(self).spec_builders(),
                old(self).spec_errors().len() == 0,
                startup_errors.len() == 0,
                errs.len() == done,
                fixed_steps_report(systems, worlds, errs),
                forall|k: int| 0 <= k < errs.len() ==> (#[trigger] errs[k]).len() == 0,
                systems.last() == self.spec_systems(),
                worlds.last() == self.spec_world(),
                old(self).spec_startup_complete() ==> systems[0] == old(self).spec_systems() && worlds[0] == old(
                    self,
                ).spec_world(),
                !old(self).spec_startup_complete() ==> schedule_reports(
                    STARTUP_LABEL,
                    old(self).spec_systems(),
                    systems[0],
                    old(self).spec_world(),
                    worlds[0],
                    startup_errors,
                ),
            decreases ticks - done,
        {
            let ghost before = *self;
            self.fixed_tick();
            let ghost tick_errors = self.spec_errors();
            proof {
                assert(self.spec_errors().subrange(0, self.spec_errors().len() as int) =~= tick_errors);
                let s2 = systems.push(self.spec_systems());
                let w2 = worlds.push(self.spec_world());
                let e2 = errs.push(tick_errors);
                assert forall|k: int| 0 <= k < e2.len() implies #[trigger] fixed_step_reports(
                    s2[k],
                    s2[k + 1],
                    w2[k],
                    w2[k + 1],
                    e2[k],
                ) by {
                    if k < errs.len() {
                        assert(s2[k] == systems[k] && s2[k + 1] == systems[k + 1]);
                        assert(w2[k] == worlds[k] && w2[k + 1] == worlds[k + 1]);
                        assert(e2[k] == errs[k]);
                        assert(fixed_step_reports(systems[k], systems[k + 1], worlds[k], worlds[k + 1], errs[k]));
                    } else {
                        assert(s2[k] == before.spec_systems() && w2[k] == before.spec_world());
                    }
                }
                systems = s2;
                worlds = w2;
                errs = e2;
            }
            done += 1;
            match self.check_deferred_errors() {
                Ok(()) => {},
                Err(errors) => {
                    proof {
                        assert(checked_advance(
                            ticks as nat,
                            old(self).spec_startup_complete(),
                            old(self).spec_systems(),
                            old(self).spec_world(),
                            self.spec_systems(),
                            self.spec_world(),
                            Err(errors),
                            systems,
                            worlds,
                            startup_errors,
                            errs,
                        ));
                    }
                    return Err(errors);
                },
            }
        }
        proof {
            assert(checked_advance(
                ticks as nat,
                old(self).spec_startup_complete(),
                old(self).spec_systems(),
                old(self).spec_world(),
                self.spec_systems(),
                self.spec_world(),
                Ok(()),
                systems,
                worlds,
                startup_errors,
                errs,
            ));
        }
        Ok(())
    }
}

} // verus!
