//! Transport-neutral inspection of an application: typed requests executed
//! at a safe point chosen by the caller, which holds the application
//! exclusively while a request runs.
use vstd::prelude::*;

use crate::app::{App, AppSystem, Extract, fixed_steps};
use crate::ecs::allocator::alive_handles;
use crate::ecs::entity::Entity;
use crate::ecs::world::{builtins_of, strictly_increasing, BuiltinComponent, World};
use crate::text::{chars_of, decimal, decimal_text, parse_unsigned, parse_unsigned_text};

verus! {

/// How the inspected runtime is driven.
#[derive(Clone, Copy, Debug, PartialEq, Eq, Structural)]
pub enum RunMode {
    Headless,
    Browser,
}

/// Runtime settings visible through inspection capabilities.
#[derive(Clone, Debug)]
pub struct InspectionConfig {
    pub instance_id: String,
    pub project: String,
    pub run_mode: RunMode,
    pub controlled: bool,
    pub mutation_enabled: bool,
}

impl InspectionConfig {
    /// A headless runtime whose clock the inspector controls, with mutation
    /// disabled.
    pub fn controlled(instance_id: &str, project: &str) -> (r: Self)
        ensures
            r.instance_id@ == instance_id@,
            r.project@ == project@,
            r.run_mode == RunMode::Headless,
            r.controlled,
            !r.mutation_enabled,
    {
        InspectionConfig {
            instance_id: instance_id.to_owned(),
            project: project.to_owned(),
            run_mode: RunMode::Headless,
            controlled: true,
            mutation_enabled: false,
        }
    }
}

/// An operation a runtime offers to inspectors.
#[derive(Clone, Copy, Debug, PartialEq, Eq, Structural)]
pub enum Operation {
    Inspect,
    Step,
    Mutate,
}

/// What a runtime offers: its run mode, whether mutation is enabled, whether
/// the inspector controls its clock, and the operations that follow.
#[derive(Clone, Debug, PartialEq, Eq)]
pub struct Capabilities {
    pub run_mode: RunMode,
    pub mutation_enabled: bool,
    pub controlled: bool,
    pub operations: Vec<Operation>,
}

/// The runtime's project, run mode, completed fixed ticks and whether it is
/// paused (its clock controlled by the inspector).
#[derive(Clone, Debug, PartialEq, Eq)]
pub struct RuntimeStatus {
    pub project: String,
    pub run_mode: RunMode,
    pub current_frame: u64,
    pub paused: bool,
}

/// A live entity: its handle, its name if it has one, the kinds of its
/// game components in ascending order, and its built-in components.
#[derive(Clone, Debug, PartialEq, Eq)]
pub struct EntitySummary {
    pub entity: Entity,
    pub name: Option<String>,
    pub components: Vec<u32>,
    pub builtins: Vec<BuiltinComponent>,
}

/// One page of matching entities, and the cursor of the next page when
/// matches remain.
#[derive(Clone, Debug, PartialEq, Eq)]
pub struct EntityPage {
    pub entities: Vec<EntitySummary>,
    pub next_cursor: Option<String>,
}

/// A request to a runtime.
pub enum InspectRequest {
    Capabilities,
    Status,
    /// Live entities, in ascending index order, whose name is `name` when
    /// one is given and which carry every kind in `with_components`; a page
    /// starts at the match numbered by `cursor` (zero when absent) and holds
    /// at most `limit` matches, never more than a thousand.
    Entities { name: Option<String>, with_components: Vec<u32>, cursor: Option<String>, limit: u64 },
    Entity { entity: Entity },
    Step { frames: u64 },
    SetField { entity: Entity, component: u32, field: String, value: serde_json::Value },
    Commands,
    Invoke { command: String, arguments: serde_json::Value },
    InjectInput { input: serde_json::Value },
    Capture,
}

/// A successful answer.
#[derive(Clone, Debug, PartialEq, Eq)]
pub enum InspectResponse {
    Capabilities(Capabilities),
    Status(RuntimeStatus),
    Entities(EntityPage),
    Entity(EntitySummary),
    Stepped { frames: u64, current_frame: u64 },
    Commands { commands: Vec<String> },
}

/// Why a request was refused.
#[derive(Clone, Copy, Debug, PartialEq, Eq, Structural)]
pub enum ErrorCode {
    InvalidValue,
    NotFound,
    NotControlled,
    MutationDisabled,
    ReadOnly,
    Unsupported,
}

/// A refused request: its code and a human-readable message.
#[derive(Clone, Debug, PartialEq, Eq)]
pub struct InspectError {
    pub code: ErrorCode,
    pub message: String,
}

fn refusal(code: ErrorCode, message: &str) -> (r: InspectError)
    ensures
        r.code == code,
        r.message@ == message@,
{
    InspectError { code, message: message.to_owned() }
}

/// Executes inspection requests against an application and counts the
/// changes it made to the application's state.
pub struct Inspector {
    config: InspectionConfig,
    state_revision: u64,
}

/// The operations a configuration offers: inspection always, stepping when
/// the clock is controlled, mutation when enabled.
pub open spec fn offered(controlled: bool, mutation_enabled: bool) -> Seq<Operation> {
    seq![Operation::Inspect] + (if controlled {
        seq![Operation::Step]
    } else {
        Seq::empty()
    }) + (if mutation_enabled {
        seq![Operation::Mutate]
    } else {
        Seq::empty()
    })
}

/// The page start a cursor gives: zero without a cursor, else the number it
/// writes, if it fits in `usize`.
pub open spec fn cursor_start(cursor: Option<String>) -> Option<nat> {
    match cursor {
        None => Some(0nat),
        Some(text) => parse_unsigned(text@, usize::MAX as nat),
    }
}

/// Whether a live entity is selected by a name (when given) and required
/// component kinds.
pub open spec fn selects<C>(world: World<C>, e: Entity, name: Option<String>, required: Seq<u32>) -> bool {
    &&& name matches Some(text) ==> world.names_view().spec_get(e) matches Some(n) && n.spec_text() == text@
    &&& forall|i: int| 0 <= i < required.len() ==> world.spec_get(e, #[trigger] required[i]) is Some
}

/// The handles among `handles` that are selected, in order.
pub open spec fn selected<C>(world: World<C>, handles: Seq<Entity>, name: Option<String>, required: Seq<u32>) -> Seq<
    Entity,
>
    decreases handles.len(),
{
    if handles.len() == 0 {
        Seq::empty()
    } else {
        let previous = selected(world, handles.drop_last(), name, required);
        if selects(world, handles.last(), name, required) {
            previous.push(handles.last())
        } else {
            previous
        }
    }
}

/// The live entities a query selects, in ascending index order.
pub open spec fn matches_of<C>(world: World<C>, name: Option<String>, required: Seq<u32>) -> Seq<Entity> {
    selected(world, alive_handles(world.allocator_view().slots()), name, required)
}

/// The smaller of two numbers.
pub open spec fn at_most(a: nat, b: nat) -> nat {
    if a <= b {
        a
    } else {
        b
    }
}

/// Whether a summary describes its entity in a world: its name, its
/// component kinds in ascending order, and its built-in components.
pub open spec fn describes<C>(world: World<C>, s: EntitySummary) -> bool {
    &&& (s.name matches Some(text) ==> world.names_view().spec_get(s.entity) matches Some(n) && n.spec_text() == text@)
    &&& (s.name is None ==> world.names_view().spec_get(s.entity) is None)
    &&& strictly_increasing(s.components@)
    &&& forall|k: u32| #[trigger] s.components@.contains(k) <==> world.spec_get(s.entity, k) is Some
    &&& s.builtins@ == builtins_of(world, s.entity)
}

/// Whether `page` is the page of the matches of a query from `start`, at
/// most `limit` long, with the cursor of the rest when some remain.
pub open spec fn lists_page<C>(
    world: World<C>,
    name: Option<String>,
    required: Seq<u32>,
    start: nat,
    limit: nat,
    page: EntityPage,
) -> bool {
    let found = matches_of(world, name, required);
    let low = at_most(start, found.len());
    let high = at_most(start + limit, found.len());
    &&& page.entities@.len() == high - low
    &&& forall|i: int|
        0 <= i < page.entities@.len() ==> (#[trigger] page.entities@[i]).entity == found[low + i] && describes(
            world,
            page.entities@[i],
        )
    &&& (page.next_cursor matches Some(cursor) ==> high < found.len() && cursor@ == decimal(high))
    &&& (page.next_cursor is None ==> high == found.len())
}


/// Whether every kind in `required` is in `kinds`.
fn carries_all(kinds: &Vec<u32>, required: &Vec<u32>) -> (r: bool)
    ensures
        r == forall|i: int| 0 <= i < required@.len() ==> kinds@.contains(#[trigger] required@[i]),
{
    let mut i: usize = 0;
    while i < required.len()
        invariant
            i <= required@.len(),
            forall|j: int| 0 <= j < i ==> kinds@.contains(#[trigger] required@[j]),
        decreases required@.len() - i,
    {
        let wanted = required[i];
        let mut found = false;
        let mut k: usize = 0;
        while k < kinds.len()
            invariant
                k <= kinds@.len(),
                found <==> exists|m: int| 0 <= m < k && kinds@[m] == wanted,
            decreases kinds@.len() - k,
        {
            if kinds[k] == wanted {
                found = true;
            }
            k += 1;
        }
        if !found {
            proof {
                assert(!kinds@.contains(required@[i as int]));
            }
            return false;
        }
        i += 1;
    }
    true
}

/// Describes a live entity: its name and its component kinds.
fn summary<C>(world: &World<C>, entity: Entity) -> (r: EntitySummary)
    requires
        world.wf(),
        world.spec_is_alive(entity),
    ensures
        r.entity == entity,
        describes(*world, r),
{
    let name = match world.name(entity) {
        Some(n) => Some(n.as_str().to_owned()),
        None => None,
    };
    let components = world.component_kinds(entity);
    let builtins = world.builtin_components(entity);
    EntitySummary { entity, name, components, builtins }
}

/// Whether a live entity is selected by a name and required kinds.
fn query_selects<C>(world: &World<C>, entity: Entity, name: &Option<String>, required: &Vec<u32>) -> (r: bool)
    requires
        world.wf(),
        world.spec_is_alive(entity),
    ensures
        r == selects(*world, entity, *name, required@),
{
    let name_ok = match name {
        None => true,
        Some(text) => match world.name(entity) {
            Some(n) => n.matches(text),
            None => false,
        },
    };
    if !name_ok {
        return false;
    }
    let kinds = world.component_kinds(entity);
    let r = carries_all(&kinds, required);
    proof {
        if r {
            assert forall|i: int| 0 <= i < required@.len() implies world.spec_get(entity, #[trigger] required@[i]) is Some by {
                assert(kinds@.contains(required@[i]));
            }
        } else {
            let i = choose|i: int| 0 <= i < required@.len() && !kinds@.contains(#[trigger] required@[i]);
            assert(world.spec_get(entity, required@[i]) is None);
        }
    }
    r
}

/// The page of live entities selected by a name and required kinds that
/// starts at match `start` and holds at most `limit` of them, with the
/// cursor of the rest when some remain.
pub fn entity_page<C>(world: &World<C>, name: &Option<String>, required: &Vec<u32>, start: usize, limit: usize) -> (r:
    EntityPage)
    requires
        world.wf(),
    ensures
        lists_page(*world, *name, required@, start as nat, limit as nat, r),
{
    let handles = world.entities();
    proof {
        world.law_entities_are_the_live_handles_in_order();
    }
    let ghost all = handles@;
    let mut entities: Vec<EntitySummary> = Vec::new();
    let mut count: usize = 0;
    let mut i: usize = 0;
    while i < handles.len()
        invariant
            world.wf(),
            all == handles@,
            all == alive_handles(world.allocator_view().slots()),
            forall|j: int| 0 <= j < all.len() ==> world.spec_is_alive(#[trigger] all[j]),
            i <= all.len(),
            count <= i,
            count == selected(*world, all.take(i as int), *name, required@).len(),
            entities@.len() == at_most((start + limit) as nat, count as nat) - at_most(start as nat, count as nat),
            forall|j: int|
                0 <= j < entities@.len() ==> (#[trigger] entities@[j]).entity == selected(
                    *world,
                    all.take(i as int),
                    *name,
                    required@,
                )[at_most(start as nat, count as nat) + j] && describes(*world, entities@[j]),
        decreases all.len() - i,
    {
        let entity = handles[i];
        let ghost before = selected(*world, all.take(i as int), *name, required@);
        proof {
            assert(all.take(i as int + 1).drop_last() =~= all.take(i as int));
            assert(all.take(i as int + 1).last() == entity);
        }
        if query_selects(world, entity, name, required) {
            let ghost after = before.push(entity);
            assert(selected(*world, all.take(i as int + 1), *name, required@) == after);
            if count >= start && count - start < limit {
                entities.push(summary(world, entity));
            }
            count += 1;
            proof {
                assert forall|j: int| 0 <= j < entities@.len() implies (#[trigger] entities@[j]).entity == after[at_most(
                    start as nat,
                    count as nat,
                ) + j] && describes(*world, entities@[j]) by {
                    if j < entities@.len() - 1 || !(count - 1 >= start && count - 1 - start < limit) {
                        assert(after[at_most(start as nat, count as nat) + j] == before[at_most(
                            start as nat,
                            (count - 1) as nat,
                        ) + j]);
                    }
                }
            }
        } else {
            assert(selected(*world, all.take(i as int + 1), *name, required@) == before);
        }
        i += 1;
    }
    proof {
        assert(all.take(all.len() as int) =~= all);
    }
    let high: usize = if count <= start {
        count
    } else if count - start > limit {
        start + limit
    } else {
        count
    };
    let next_cursor = if high < count {
        Some(decimal_text(high as u64))
    } else {
        None
    };
    EntityPage { entities, next_cursor }
}

impl Inspector {
    /// The configuration the inspector answers with.
    pub closed spec fn spec_config(&self) -> InspectionConfig {
        self.config
    }

    /// How many state changes the inspector has made, modulo 2^64.
    pub closed spec fn spec_revision(&self) -> u64 {
        self.state_revision
    }

    /// An inspector that has made no change yet.
    pub fn new(config: InspectionConfig) -> (r: Self)
        ensures
            r.spec_config() == config,
            r.spec_revision() == 0,
    {
        Inspector { config, state_revision: 0 }
    }

    /// The configuration.
    pub fn config(&self) -> (r: &InspectionConfig)
        ensures
            *r == self.spec_config(),
    {
        &self.config
    }

    /// The state revision.
    pub fn state_revision(&self) -> (r: u64)
        ensures
            r == self.spec_revision(),
    {
        self.state_revision
    }

    /// What the runtime offers.
    pub fn capabilities(&self) -> (r: Capabilities)
        ensures
            r.run_mode == self.spec_config().run_mode,
            r.mutation_enabled == self.spec_config().mutation_enabled,
            r.controlled == self.spec_config().controlled,
            r.operations@ == offered(self.spec_config().controlled, self.spec_config().mutation_enabled),
    {
        let mut operations: Vec<Operation> = Vec::new();
        operations.push(Operation::Inspect);
        if self.config.controlled {
            operations.push(Operation::Step);
        }
        if self.config.mutation_enabled {
            operations.push(Operation::Mutate);
        }
        proof {
            assert(operations@ =~= offered(self.config.controlled, self.config.mutation_enabled));
        }
        Capabilities {
            run_mode: self.config.run_mode,
            mutation_enabled: self.config.mutation_enabled,
            controlled: self.config.controlled,
            operations,
        }
    }
}

impl Inspector {
    /// Executes one request at a safe point. Only stepping changes the
    /// application (by running exactly `frames` fixed updates) and the
    /// state revision (by one, wrapping); everything else reads.
    pub fn execute<C, S: AppSystem<C>, X: Extract<C>>(&mut self, app: &mut App<C, S, X>, request: &InspectRequest) -> (r:
        Result<InspectResponse, InspectError>)
        requires
            old(app).wf(),
            request matches InspectRequest::Step { frames } ==> (old(self).spec_config().controlled ==> old(
                app,
            ).spec_tick() + *frames <= u64::MAX),
        ensures
            final(self).spec_config() == old(self).spec_config(),
            final(app).wf(),
            request matches InspectRequest::Step { frames } ==> old(self).spec_config().controlled ==> {
                &&& r matches Ok(InspectResponse::Stepped { frames: stepped, current_frame })
                &&& stepped == *frames
                &&& current_frame == final(app).spec_tick()
                &&& final(app).spec_tick() == old(app).spec_tick() + *frames
                &&& final(self).spec_revision() == if old(self).spec_revision() == u64::MAX {
                    0
                } else {
                    old(self).spec_revision() + 1
                }
                &&& final(app).spec_startup_complete()
                &&& final(app).spec_labels() == old(app).spec_labels()
                &&& final(app).spec_extractor_kinds() == old(app).spec_extractor_kinds()
                &&& old(app).spec_startup_complete() ==> exists|systems: Seq<Seq<(u32, S)>>, worlds: Seq<World<C>>|
                    #[trigger] fixed_steps(*frames as nat, systems, worlds) && systems[0] == old(app).spec_systems()
                        && worlds[0] == old(app).spec_world() && systems.last() == final(app).spec_systems()
                        && worlds.last() == final(app).spec_world()
            },
            !(request is Step && old(self).spec_config().controlled) ==> *final(app) == *old(app)
                && final(self).spec_revision() == old(self).spec_revision(),
            request is Capabilities ==> (r matches Ok(InspectResponse::Capabilities(c)) && c.run_mode == old(
                self,
            ).spec_config().run_mode && c.mutation_enabled == old(self).spec_config().mutation_enabled && c.controlled
                == old(self).spec_config().controlled && c.operations@ == offered(
                old(self).spec_config().controlled,
                old(self).spec_config().mutation_enabled,
            )),
            request is Status ==> (r matches Ok(InspectResponse::Status(status)) && status.project@ == old(
                self,
            ).spec_config().project@ && status.run_mode == old(self).spec_config().run_mode && status.current_frame
                == old(app).spec_tick() && status.paused == old(self).spec_config().controlled),
            request matches InspectRequest::Entities { name, with_components, cursor, limit } ==> if cursor_start(
                *cursor,
            ) is Some {
                r matches Ok(InspectResponse::Entities(page)) && lists_page(
                    old(app).spec_world(),
                    *name,
                    with_components@,
                    cursor_start(*cursor)->0,
                    at_most(*limit as nat, 1000),
                    page,
                )
            } else {
                r matches Err(e) && e.code == ErrorCode::InvalidValue && e.message@ == "invalid entity page cursor"@
            },
            request matches InspectRequest::Entity { entity } ==> if old(app).spec_world().spec_is_alive(*entity) {
                r matches Ok(InspectResponse::Entity(s)) && s.entity == *entity && describes(old(app).spec_world(), s)
            } else {
                r matches Err(e) && e.code == ErrorCode::NotFound && e.message@ == "entity is not alive"@
            },
            (request is Step && !old(self).spec_config().controlled) ==> (r matches Err(e) && e.code
                == ErrorCode::NotControlled && e.message@ == "the runtime clock is not controlled by the inspector"@),
            (request is SetField && !old(self).spec_config().mutation_enabled) ==> (r matches Err(e) && e.code
                == ErrorCode::MutationDisabled && e.message@ == "runtime mutation was not explicitly enabled"@),
            (request is SetField && old(self).spec_config().mutation_enabled) ==> (r matches Err(e) && e.code
                == ErrorCode::ReadOnly && e.message@ == "this component does not expose writable reflected fields"@),
            request is Commands ==> (r matches Ok(InspectResponse::Commands { commands }) && commands@.len() == 0),
            (request is Invoke || request is InjectInput || request is Capture) ==> (r matches Err(e) && e.code
                == ErrorCode::Unsupported && e.message@ == "this operation has not been registered by the game"@),
    {
        match request {
            InspectRequest::Capabilities => Ok(InspectResponse::Capabilities(self.capabilities())),
            InspectRequest::Status => Ok(
                InspectResponse::Status(
                    RuntimeStatus {
                        project: self.config.project.clone(),
                        run_mode: self.config.run_mode,
                        current_frame: current_frame(app),
                        paused: self.config.controlled,
                    },
                ),
            ),
            InspectRequest::Entities { name, with_components, cursor, limit } => {
                let start: usize = match cursor {
                    Some(text) => {
                        let chars = chars_of(text.as_str());
                        match parse_unsigned_text(&chars, usize::MAX as u64) {
                            Some(value) => value as usize,
                            None => {
                                return Err(refusal(ErrorCode::InvalidValue, "invalid entity page cursor"));
                            },
                        }
                    },
                    None => 0,
                };
                let capped: u64 = if *limit < 1000 {
                    *limit
                } else {
                    1000
                };
                let page = entity_page(app.world(), name, with_components, start, capped as usize);
                Ok(InspectResponse::Entities(page))
            },
            InspectRequest::Entity { entity } => {
                if !app.world().is_alive(*entity) {
                    return Err(refusal(ErrorCode::NotFound, "entity is not alive"));
                }
                proof {
                    app.lemma_world_runnable();
                }
                Ok(InspectResponse::Entity(summary(app.world(), *entity)))
            },
            InspectRequest::Step { frames } => {
                if !self.config.controlled {
                    return Err(
                        refusal(ErrorCode::NotControlled, "the runtime clock is not controlled by the inspector"),
                    );
                }
                app.advance_fixed(*frames);
                self.state_revision = self.state_revision.wrapping_add(1);
                Ok(InspectResponse::Stepped { frames: *frames, current_frame: current_frame(app) })
            },
            InspectRequest::SetField { .. } => {
                if !self.config.mutation_enabled {
                    Err(refusal(ErrorCode::MutationDisabled, "runtime mutation was not explicitly enabled"))
                } else {
                    Err(refusal(ErrorCode::ReadOnly, "this component does not expose writable reflected fields"))
                }
            },
            InspectRequest::Commands => Ok(InspectResponse::Commands { commands: Vec::new() }),
            InspectRequest::Invoke { .. } | InspectRequest::InjectInput { .. } | InspectRequest::Capture => {
                Err(refusal(ErrorCode::Unsupported, "this operation has not been registered by the game"))
            },
        }
    }
}

/// The completed fixed ticks of an application.
pub fn current_frame<C, S: AppSystem<C>, X: Extract<C>>(app: &App<C, S, X>) -> (r: u64)
    requires
        app.wf(),
    ensures
        r == app.spec_tick(),
{
    match app.world().fixed_time() {
        Some(clock) => clock.tick(),
        None => 0,
    }
}

} // verus!
