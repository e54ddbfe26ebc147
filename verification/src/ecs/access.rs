//! Declared world access of systems and its validation.
//!
//! Components and resources are named by kind numbers, as in the world.
use vstd::prelude::*;

use super::world::World;

verus! {

#[derive(Clone, Copy, Debug, PartialEq, Eq, Structural)]
pub enum AccessMode {
    Read,
    Write,
}

#[derive(Clone, Copy, Debug, PartialEq, Eq, Structural)]
pub enum AccessTarget {
    Component,
    Resource,
    Commands,
    World,
}

/// One declared access of a system: what it reaches, how, and which kind.
#[derive(Clone, Copy, Debug, PartialEq, Eq, Structural)]
pub struct SystemAccess {
    pub target: AccessTarget,
    pub mode: AccessMode,
    pub kind: u32,
}

#[derive(Clone, Copy, Debug, PartialEq, Eq, Structural)]
pub enum SystemError {
    ConflictingAccess { target: AccessTarget, kind: u32 },
    MissingResource { kind: u32 },
}

impl SystemAccess {
    pub fn new(target: AccessTarget, mode: AccessMode, kind: u32) -> (r: Self)
        ensures
            r == (SystemAccess { target, mode, kind }),
    {
        SystemAccess { target, mode, kind }
    }
}

/// Two accesses cannot be held together: one of them takes the whole world,
/// or both reach the same kind of the same target and one of them writes.
pub open spec fn conflicts(a: SystemAccess, b: SystemAccess) -> bool {
    ||| a.target == AccessTarget::World
    ||| b.target == AccessTarget::World
    ||| (a.target == b.target && a.kind == b.kind && (a.mode == AccessMode::Write || b.mode
        == AccessMode::Write))
}

/// The first access, in declaration order, that conflicts with an earlier one.
pub open spec fn first_conflict(accesses: Seq<SystemAccess>, i: int) -> bool {
    &&& 0 <= i < accesses.len()
    &&& exists|j: int| 0 <= j < i && conflicts(accesses[i], #[trigger] accesses[j])
    &&& forall|k: int, j: int| 0 <= j < k < i ==> !conflicts(#[trigger] accesses[k], #[trigger] accesses[j])
}

/// The error naming a conflicting access.
pub open spec fn conflict_error(a: SystemAccess) -> SystemError {
    SystemError::ConflictingAccess { target: a.target, kind: a.kind }
}

fn conflict(a: &SystemAccess, b: &SystemAccess) -> (r: bool)
    ensures
        r == conflicts(*a, *b),
{
    a.target == AccessTarget::World || b.target == AccessTarget::World || (a.target == b.target
        && a.kind == b.kind && (a.mode == AccessMode::Write || b.mode == AccessMode::Write))
}

/// Checks that no two declared accesses conflict. The error names the later
/// access of the first conflicting pair, in declaration order.
pub fn validate(accesses: &[SystemAccess]) -> (r: Result<(), SystemError>)
    ensures
        r is Ok <==> forall|k: int, j: int|
            0 <= j < k < accesses@.len() ==> !conflicts(#[trigger] accesses@[k], #[trigger] accesses@[j]),
        r matches Err(e) ==> exists|i: int| #[trigger] first_conflict(accesses@, i) && e == conflict_error(accesses@[i]),
{
    let mut i: usize = 0;
    while i < accesses.len()
        invariant
            i <= accesses@.len(),
            forall|k: int, j: int| 0 <= j < k < i ==> !conflicts(#[trigger] accesses@[k], #[trigger] accesses@[j]),
        decreases accesses@.len() - i,
    {
        let mut j: usize = 0;
        while j < i
            invariant
                i < accesses@.len(),
                j <= i,
                forall|m: int| 0 <= m < j ==> !conflicts(accesses@[i as int], #[trigger] accesses@[m]),
                forall|k: int, m: int| 0 <= m < k < i ==> !conflicts(#[trigger] accesses@[k], #[trigger] accesses@[m]),
            decreases i - j,
        {
            if conflict(&accesses[i], &accesses[j]) {
                proof {
                    assert(conflicts(accesses@[i as int], accesses@[j as int]));
                    assert(first_conflict(accesses@, i as int));
                }
                return Err(SystemError::ConflictingAccess { target: accesses[i].target, kind: accesses[i].kind });
            }
            j += 1;
        }
        i += 1;
    }
    Ok(())
}

/// The kinds a prepared system may read and write, after validation.
#[derive(Clone, Debug)]
pub struct SystemContext {
    pub reads: Vec<SystemAccess>,
    pub writes: Vec<SystemAccess>,
    pub commands: bool,
}

/// The first declared resource access, in declaration order, whose resource
/// is missing from the world.
pub open spec fn first_missing_resource<C>(world: World<C>, accesses: Seq<SystemAccess>, i: int) -> bool {
    &&& 0 <= i < accesses.len()
    &&& accesses[i].target == AccessTarget::Resource
    &&& world.spec_resource(accesses[i].kind) is None
    &&& forall|k: int| 0 <= k < i && (#[trigger] accesses[k]).target == AccessTarget::Resource ==> world.spec_resource(accesses[k].kind) is Some
}

/// Storage accesses of one mode, in declaration order.
pub open spec fn storage_accesses(accesses: Seq<SystemAccess>, mode: AccessMode) -> Seq<SystemAccess> {
    accesses.filter(|a: SystemAccess| a.mode == mode && (a.target == AccessTarget::Component || a.target == AccessTarget::Resource))
}

/// A context prepared from valid accesses.
pub open spec fn prepared(context: SystemContext, accesses: Seq<SystemAccess>) -> bool {
    &&& context.reads@ == storage_accesses(accesses, AccessMode::Read)
    &&& context.writes@ == storage_accesses(accesses, AccessMode::Write)
    &&& context.commands == exists|i: int| 0 <= i < accesses.len() && (#[trigger] accesses[i]).target == AccessTarget::Commands
}

impl SystemContext {
    /// Validates the declared accesses and checks every required resource
    /// before handing out any access. On success the context lists the
    /// component and resource accesses by mode, and whether commands were
    /// requested.
    #[verifier::loop_isolation(false)]
    pub fn prepare<C>(world: &World<C>, accesses: &[SystemAccess]) -> (r: Result<Self, SystemError>)
        requires
            world.wf(),
        ensures
            match validate_spec(accesses@) {
                Err(()) => (r matches Err(e) && e is ConflictingAccess),
                Ok(()) => {
                    &&& (exists|i: int| first_missing_resource(*world, accesses@, i)) ==> exists|i: int|
                        #[trigger] first_missing_resource(*world, accesses@, i) && r == Err::<Self, SystemError>(
                            SystemError::MissingResource { kind: accesses@[i].kind },
                        )
                    &&& !(exists|i: int| first_missing_resource(*world, accesses@, i)) ==> (r matches Ok(context)
                        && prepared(context, accesses@))
                },
            },
    {
        match validate(accesses) {
            Ok(()) => {},
            Err(e) => {
                return Err(e);
            },
        }
        let mut i: usize = 0;
        while i < accesses.len()
            invariant
                world.wf(),
                i <= accesses@.len(),
                forall|k: int| 0 <= k < i && (#[trigger] accesses@[k]).target == AccessTarget::Resource ==> world.spec_resource(accesses@[k].kind) is Some,
            decreases accesses@.len() - i,
        {
            if accesses[i].target == AccessTarget::Resource && world.resource(accesses[i].kind).is_none() {
                proof {
                    assert(first_missing_resource(*world, accesses@, i as int));
                }
                return Err(SystemError::MissingResource { kind: accesses[i].kind });
            }
            i += 1;
        }
        proof {
            assert forall|m: int| !first_missing_resource(*world, accesses@, m) by {}
        }
        let mut reads: Vec<SystemAccess> = Vec::new();
        let mut writes: Vec<SystemAccess> = Vec::new();
        let mut commands = false;
        let ghost read_pick = |a: SystemAccess| a.mode == AccessMode::Read && (a.target == AccessTarget::Component || a.target == AccessTarget::Resource);
        let ghost write_pick = |a: SystemAccess| a.mode == AccessMode::Write && (a.target == AccessTarget::Component || a.target == AccessTarget::Resource);
        let mut i: usize = 0;
        while i < accesses.len()
            invariant
                i <= accesses@.len(),
                reads@ == accesses@.take(i as int).filter(read_pick),
                writes@ == accesses@.take(i as int).filter(write_pick),
                commands == exists|k: int| 0 <= k < i && (#[trigger] accesses@[k]).target == AccessTarget::Commands,
            decreases accesses@.len() - i,
        {
            let access = accesses[i];
            proof {
                assert(accesses@.take(i as int + 1).drop_last() =~= accesses@.take(i as int));
                assert(accesses@.take(i as int + 1).last() == access);
                accesses@.take(i as int).lemma_filter_push(access, read_pick);
                accesses@.take(i as int).lemma_filter_push(access, write_pick);
                assert(accesses@.take(i as int).push(access) =~= accesses@.take(i as int + 1));
            }
            let reachable = access.target == AccessTarget::Component || access.target == AccessTarget::Resource;
            let ghost before_reads = reads@;
            let ghost before_writes = writes@;
            if reachable && access.mode == AccessMode::Read {
                reads.push(access);
            } else if reachable && access.mode == AccessMode::Write {
                writes.push(access);
            }
            proof {
                if read_pick(access) {
                    assert(reads@ == before_reads.push(access));
                } else {
                    assert(reads@ == before_reads);
                }
                if write_pick(access) {
                    assert(writes@ == before_writes.push(access));
                } else {
                    assert(writes@ == before_writes);
                }
            }
            if access.target == AccessTarget::Commands {
                commands = true;
            }
            i += 1;
        }
        proof {
            assert(accesses@.take(accesses@.len() as int) =~= accesses@);
        }
        Ok(SystemContext { reads, writes, commands })
    }
}

/// Whether validation accepts the accesses.
pub open spec fn validate_spec(accesses: Seq<SystemAccess>) -> Result<(), ()> {
    if forall|k: int, j: int| 0 <= j < k < accesses.len() ==> !conflicts(#[trigger] accesses[k], #[trigger] accesses[j]) {
        Ok(())
    } else {
        Err(())
    }
}

/// How many callbacks an executor policy may run at once.
#[derive(Clone, Copy, Debug, PartialEq, Eq, Structural)]
pub enum ExecutorPolicy {
    Sequential,
    /// Runs compatible systems concurrently, at most `max_threads` at once;
    /// the limit is positive.
    Parallel { max_threads: usize },
}

impl ExecutorPolicy {
    pub fn concurrency(self) -> (r: usize)
        requires
            self matches ExecutorPolicy::Parallel { max_threads } ==> max_threads > 0,
        ensures
            r == match self {
                ExecutorPolicy::Sequential => 1,
                ExecutorPolicy::Parallel { max_threads } => max_threads,
            },
            r > 0,
    {
        match self {
            ExecutorPolicy::Sequential => 1,
            ExecutorPolicy::Parallel { max_threads } => max_threads,
        }
    }
}

} // verus!
