//! The readiness resolver: each tick, every pending entity is re-evaluated
//! against the host's asset and scene-loading state, and the ones whose
//! geometry has become available are promoted out of the pending set in one
//! batch.
//!
//! The host-dependent questions ("is this mesh loaded?", "is this scene
//! instance ready?", "which mesh does its subtree carry first?") arrive as a
//! plain [`GeometryObservation`] per pending entity; the resolver decides.

use vstd::prelude::*;

use crate::registry::promoted;
use crate::registry::PendingSet;

verus! {

/// What the host reports, this tick, about a pending entity's sub-scene.
#[derive(Debug, Clone, Copy, PartialEq, Eq)]
pub enum SceneStatus {
    /// The sub-scene has not been instantiated yet.
    NotInstantiated,
    /// Instantiated, but the instance's subtree is not fully spawned and
    /// loaded yet.
    NotReady,
    /// Fully ready. `first_mesh` is the first mesh handle found in the
    /// instance's spawned subtree, in the host's iteration order, if any
    /// entity of the subtree carries one.
    Ready { first_mesh: Option<u64> },
}

/// What the host reports, this tick, about one pending entity's geometry
/// source.
#[derive(Debug, Clone, Copy, PartialEq, Eq)]
pub enum GeometryObservation {
    /// The entity no longer answers the pixelation query this tick.
    Absent,
    /// The entity carries neither a mesh handle nor a sub-scene handle.
    NoSource,
    /// The entity references a mesh directly; `loaded` is the asset store's
    /// answer to whether that mesh has finished loading.
    DirectMesh { mesh_handle: u64, loaded: bool },
    /// The entity references a sub-scene.
    SubScene { status: SceneStatus },
}

/// Where a resolved geometry handle came from.
#[derive(Debug, Clone, Copy, PartialEq, Eq, Structural)]
pub enum TargetKind {
    Mesh,
    Scene,
}

/// A target whose geometry became available this tick, with the resolved
/// mesh handle and its origin.
#[derive(Debug, Clone, Copy, PartialEq, Eq, Structural)]
pub struct ResolvedTarget {
    pub target_entity: u64,
    pub mesh_handle: u64,
    pub kind: TargetKind,
}

/// A fatal caller-configuration error.
#[derive(Debug, Clone, Copy, PartialEq, Eq, Structural)]
pub enum ErrorKind {
    /// The pixelation marker is present but neither a mesh nor a sub-scene
    /// handle is.
    NoGeometrySource,
    /// A ready sub-scene whose spawned subtree holds no mesh-bearing entity.
    SceneWithoutMesh,
    /// A resolved target whose geometry is absent from the asset store at
    /// build time.
    MissingGeometry,
    /// A resolved target that no longer carries a pixelation request at
    /// build time.
    MissingRequest,
    /// A pixelation request with a zero pixel dimension.
    ZeroDimension,
}

/// A fatal caller-configuration error, with the entity it was found on.
#[derive(Debug, Clone, Copy, PartialEq, Eq, Structural)]
pub struct ConfigError {
    pub entity: u64,
    pub kind: ErrorKind,
}

/// The resolver's verdict on one pending entity for one tick.
#[derive(Debug, Clone, Copy, PartialEq, Eq, Structural)]
pub enum Resolution {
    /// The geometry is available: promote the entity with this handle.
    Promote { mesh_handle: u64, kind: TargetKind },
    /// Not ready yet: leave the entity pending for the next tick.
    Wait,
    /// Caller misuse: abort the tick.
    Fail { error: ErrorKind },
}

/// The verdict a single observation dictates.
pub open spec fn resolution_of(obs: GeometryObservation) -> Resolution {
    match obs {
        GeometryObservation::Absent => Resolution::Wait,
        GeometryObservation::NoSource => Resolution::Fail { error: ErrorKind::NoGeometrySource },
        GeometryObservation::DirectMesh { mesh_handle, loaded } => if loaded {
            Resolution::Promote { mesh_handle, kind: TargetKind::Mesh }
        } else {
            Resolution::Wait
        },
        GeometryObservation::SubScene { status } => match status {
            SceneStatus::NotInstantiated => Resolution::Wait,
            SceneStatus::NotReady => Resolution::Wait,
            SceneStatus::Ready { first_mesh } => match first_mesh {
                Some(m) => Resolution::Promote { mesh_handle: m, kind: TargetKind::Scene },
                None => Resolution::Fail { error: ErrorKind::SceneWithoutMesh },
            },
        },
    }
}

/// Decides one pending entity's verdict for this tick from what the host
/// reports about its geometry source.
pub fn resolve_one(obs: GeometryObservation) -> (r: Resolution)
    ensures
        r == resolution_of(obs),
{
    match obs {
        GeometryObservation::Absent => Resolution::Wait,
        GeometryObservation::NoSource => Resolution::Fail { error: ErrorKind::NoGeometrySource },
        GeometryObservation::DirectMesh { mesh_handle, loaded } => {
            if loaded {
                Resolution::Promote { mesh_handle, kind: TargetKind::Mesh }
            } else {
                Resolution::Wait
            }
        },
        GeometryObservation::SubScene { status } => match status {
            SceneStatus::NotInstantiated => Resolution::Wait,
            SceneStatus::NotReady => Resolution::Wait,
            SceneStatus::Ready { first_mesh } => match first_mesh {
                Some(m) => Resolution::Promote { mesh_handle: m, kind: TargetKind::Scene },
                None => Resolution::Fail { error: ErrorKind::SceneWithoutMesh },
            },
        },
    }
}

/// The entities promoted by a tick, in pending order: those whose
/// observation dictates `Promote`.
pub open spec fn promoted_entities(entities: Seq<u64>, obs: Seq<GeometryObservation>) -> Seq<u64>
    decreases entities.len(),
{
    if entities.len() == 0 {
        Seq::empty()
    } else {
        promoted_entities(entities.drop_last(), obs.drop_last()) + (if resolution_of(
            obs.last(),
        ) is Promote {
            seq![entities.last()]
        } else {
            Seq::<u64>::empty()
        })
    }
}

/// The batch a tick emits, in pending order: one resolved target per
/// promoted entity, carrying the handle and origin its observation dictates.
pub open spec fn resolved_batch(entities: Seq<u64>, obs: Seq<GeometryObservation>) -> Seq<
    ResolvedTarget,
>
    decreases entities.len(),
{
    if entities.len() == 0 {
        Seq::empty()
    } else {
        resolved_batch(entities.drop_last(), obs.drop_last()) + (match resolution_of(obs.last()) {
            Resolution::Promote { mesh_handle, kind } => seq![
                ResolvedTarget { target_entity: entities.last(), mesh_handle, kind },
            ],
            _ => Seq::<ResolvedTarget>::empty(),
        })
    }
}

/// The pending set a tick leaves behind: the promoted entities removed,
/// everything else kept in order.
pub open spec fn remaining_entities(entities: Seq<u64>, obs: Seq<GeometryObservation>) -> Seq<
    u64,
> {
    promoted(entities, promoted_entities(entities, obs))
}

/// The error a tick aborts with: the first pending entity, in pending order,
/// whose observation dictates `Fail`, if any.
pub open spec fn first_error(entities: Seq<u64>, obs: Seq<GeometryObservation>) -> Option<
    ConfigError,
>
    decreases entities.len(),
{
    if entities.len() == 0 {
        None
    } else {
        match resolution_of(obs.first()) {
            Resolution::Fail { error } => Some(ConfigError { entity: entities.first(), kind: error }),
            _ => first_error(entities.drop_first(), obs.drop_first()),
        }
    }
}

/// If no observation before position `i` dictates `Fail` and the one at `i`
/// does, the tick aborts with exactly that entity's error.
proof fn lemma_first_error_at(entities: Seq<u64>, obs: Seq<GeometryObservation>, i: int, k: ErrorKind)
    requires
        entities.len() == obs.len(),
        0 <= i < entities.len(),
        forall|j: int| 0 <= j < i ==> !(resolution_of(obs[j]) is Fail),
        resolution_of(obs[i]) == (Resolution::Fail { error: k }),
    ensures
        first_error(entities, obs) == Some(ConfigError { entity: entities[i], kind: k }),
    decreases i,
{
    if i == 0 {
    } else {
        assert(!(resolution_of(obs[0]) is Fail));
        lemma_first_error_at(entities.drop_first(), obs.drop_first(), i - 1, k);
    }
}

/// If no observation dictates `Fail`, the tick does not abort.
proof fn lemma_no_error(entities: Seq<u64>, obs: Seq<GeometryObservation>)
    requires
        entities.len() == obs.len(),
        forall|j: int| 0 <= j < obs.len() ==> !(resolution_of(obs[j]) is Fail),
    ensures
        first_error(entities, obs) == None::<ConfigError>,
    decreases entities.len(),
{
    if entities.len() == 0 {
    } else {
        assert(!(resolution_of(obs[0]) is Fail));
        lemma_no_error(entities.drop_first(), obs.drop_first());
    }
}

/// The mesh handle an observation resolves to, where its verdict is
/// `Promote`.
pub open spec fn resolved_mesh_of(obs1: GeometryObservation) -> u64 {
    match resolution_of(obs1) {
        Resolution::Promote { mesh_handle, .. } => mesh_handle,
        _ => 0,
    }
}

/// The origin an observation resolves to, where its verdict is `Promote`.
pub open spec fn resolved_kind_of(obs1: GeometryObservation) -> TargetKind {
    match resolution_of(obs1) {
        Resolution::Promote { kind, .. } => kind,
        _ => TargetKind::Mesh,
    }
}

/// A tick promotes exactly the pending entities whose observation dictates
/// `Promote`.
pub proof fn lemma_promoted_entities_contains(
    entities: Seq<u64>,
    obs: Seq<GeometryObservation>,
    e: u64,
)
    requires
        entities.len() == obs.len(),
    ensures
        promoted_entities(entities, obs).contains(e) <==> (exists|j: int|
            0 <= j < entities.len() && entities[j] == e && resolution_of(obs[j]) is Promote),
    decreases entities.len(),
{
    if entities.len() == 0 {
    } else {
        lemma_promoted_entities_contains(entities.drop_last(), obs.drop_last(), e);
        let p = promoted_entities(entities, obs);
        let p0 = promoted_entities(entities.drop_last(), obs.drop_last());
        let tail = if resolution_of(obs.last()) is Promote {
            seq![entities.last()]
        } else {
            Seq::<u64>::empty()
        };
        assert(p == p0 + tail);
        if p.contains(e) {
            let i = choose|i: int| 0 <= i < p.len() && p[i] == e;
            if i < p0.len() {
                assert(p0[i] == e);
                assert(p0.contains(e));
                let j = choose|j: int|
                    0 <= j < entities.drop_last().len() && entities.drop_last()[j] == e
                        && resolution_of(obs.drop_last()[j]) is Promote;
                assert(entities[j] == e && resolution_of(obs[j]) is Promote);
            } else {
                assert(tail[i - p0.len()] == e);
                let last = entities.len() - 1;
                assert(entities[last] == e && resolution_of(obs[last]) is Promote);
            }
        }
        if exists|j: int|
            0 <= j < entities.len() && entities[j] == e && resolution_of(obs[j]) is Promote {
            let j = choose|j: int|
                0 <= j < entities.len() && entities[j] == e && resolution_of(obs[j]) is Promote;
            if j < entities.len() - 1 {
                assert(entities.drop_last()[j] == e && resolution_of(
                    obs.drop_last()[j],
                ) is Promote);
                assert(p0.contains(e));
                let i = choose|i: int| 0 <= i < p0.len() && p0[i] == e;
                assert(p[i] == e);
                assert(p.contains(e));
            } else {
                assert(p[p.len() - 1] == e);
                assert(p.contains(e));
            }
        }
    }
}

/// A tick's batch holds exactly one resolved target per promoted entity,
/// carrying the mesh handle and origin that entity's observation dictates.
pub proof fn lemma_resolved_batch_contains(
    entities: Seq<u64>,
    obs: Seq<GeometryObservation>,
    t: ResolvedTarget,
)
    requires
        entities.len() == obs.len(),
    ensures
        resolved_batch(entities, obs).contains(t) <==> (exists|j: int|
            0 <= j < entities.len() && entities[j] == t.target_entity && resolution_of(obs[j])
                == (Resolution::Promote { mesh_handle: t.mesh_handle, kind: t.kind })),
    decreases entities.len(),
{
    if entities.len() == 0 {
    } else {
        lemma_resolved_batch_contains(entities.drop_last(), obs.drop_last(), t);
        let b = resolved_batch(entities, obs);
        let b0 = resolved_batch(entities.drop_last(), obs.drop_last());
        let tail = match resolution_of(obs.last()) {
            Resolution::Promote { mesh_handle, kind } => seq![
                ResolvedTarget { target_entity: entities.last(), mesh_handle, kind },
            ],
            _ => Seq::<ResolvedTarget>::empty(),
        };
        assert(b == b0 + tail);
        if b.contains(t) {
            let i = choose|i: int| 0 <= i < b.len() && b[i] == t;
            if i < b0.len() {
                assert(b0[i] == t);
                assert(b0.contains(t));
                let j = choose|j: int|
                    0 <= j < entities.drop_last().len() && entities.drop_last()[j]
                        == t.target_entity && resolution_of(obs.drop_last()[j]) == (
                    Resolution::Promote { mesh_handle: t.mesh_handle, kind: t.kind });
                assert(entities[j] == t.target_entity && resolution_of(obs[j]) == (
                Resolution::Promote { mesh_handle: t.mesh_handle, kind: t.kind }));
            } else {
                assert(tail[i - b0.len()] == t);
                let last = entities.len() - 1;
                assert(entities[last] == t.target_entity && resolution_of(obs[last]) == (
                Resolution::Promote { mesh_handle: t.mesh_handle, kind: t.kind }));
            }
        }
        if exists|j: int|
            0 <= j < entities.len() && entities[j] == t.target_entity && resolution_of(obs[j]) == (
            Resolution::Promote { mesh_handle: t.mesh_handle, kind: t.kind }) {
            let j = choose|j: int|
                0 <= j < entities.len() && entities[j] == t.target_entity && resolution_of(obs[j])
                    == (Resolution::Promote { mesh_handle: t.mesh_handle, kind: t.kind });
            if j < entities.len() - 1 {
                assert(entities.drop_last()[j] == t.target_entity && resolution_of(
                    obs.drop_last()[j],
                ) == (Resolution::Promote { mesh_handle: t.mesh_handle, kind: t.kind }));
                assert(b0.contains(t));
                let i = choose|i: int| 0 <= i < b0.len() && b0[i] == t;
                assert(b[i] == t);
                assert(b.contains(t));
            } else {
                assert(b[b.len() - 1] == t);
                assert(b.contains(t));
            }
        }
    }
}

/// Readiness gating for one pending entity: if its observation does not
/// dictate promotion, the entity stays pending and appears in no resolved
/// target of the batch; if it does, the entity leaves the pending set and
/// the batch carries its resolved target, with the dictated handle and
/// origin.
pub proof fn lemma_readiness_gating(entities: Seq<u64>, obs: Seq<GeometryObservation>, i: int)
    requires
        entities.no_duplicates(),
        entities.len() == obs.len(),
        0 <= i < entities.len(),
    ensures
        !(resolution_of(obs[i]) is Promote) ==> remaining_entities(entities, obs).contains(
            entities[i],
        ),
        !(resolution_of(obs[i]) is Promote) ==> forall|j: int|
            0 <= j < resolved_batch(entities, obs).len() ==> resolved_batch(entities, obs)[j].target_entity
                != entities[i],
        resolution_of(obs[i]) is Promote ==> !remaining_entities(entities, obs).contains(
            entities[i],
        ),
        resolution_of(obs[i]) is Promote ==> resolved_batch(entities, obs).contains(
            ResolvedTarget {
                target_entity: entities[i],
                mesh_handle: resolved_mesh_of(obs[i]),
                kind: resolved_kind_of(obs[i]),
            },
        ),
{
    let e = entities[i];
    let pe = promoted_entities(entities, obs);
    lemma_promoted_entities_contains(entities, obs, e);
    crate::registry::lemma_promoted_membership(entities, pe, e);
    if resolution_of(obs[i]) is Promote {
        assert(pe.contains(e));
        let t = ResolvedTarget {
            target_entity: e,
            mesh_handle: resolved_mesh_of(obs[i]),
            kind: resolved_kind_of(obs[i]),
        };
        lemma_resolved_batch_contains(entities, obs, t);
        assert(resolution_of(obs[i]) == (Resolution::Promote {
            mesh_handle: t.mesh_handle,
            kind: t.kind,
        }));
    } else {
        assert(!pe.contains(e)) by {
            if pe.contains(e) {
                let j = choose|j: int|
                    0 <= j < entities.len() && entities[j] == e && resolution_of(
                        obs[j],
                    ) is Promote;
                assert(j == i);
            }
        }
        assert(entities.contains(e)) by {
            assert(entities[i] == e);
        }
        assert forall|j: int| 0 <= j < resolved_batch(entities, obs).len() implies resolved_batch(
            entities,
            obs,
        )[j].target_entity != e by {
            let t = resolved_batch(entities, obs)[j];
            assert(resolved_batch(entities, obs).contains(t));
            lemma_resolved_batch_contains(entities, obs, t);
            if t.target_entity == e {
                let j2 = choose|j2: int|
                    0 <= j2 < entities.len() && entities[j2] == t.target_entity && resolution_of(
                        obs[j2],
                    ) == (Resolution::Promote { mesh_handle: t.mesh_handle, kind: t.kind });
                assert(j2 == i);
            }
        }
    }
}

/// Readiness gating on the direct-mesh path: a pending entity whose mesh the
/// asset store reports unloaded is not promoted this tick and stays pending;
/// one whose mesh is reported loaded is promoted this tick, with exactly
/// that mesh handle and a direct-mesh origin.
pub proof fn lemma_mesh_readiness_gating(
    entities: Seq<u64>,
    obs: Seq<GeometryObservation>,
    i: int,
    m: u64,
    loaded: bool,
)
    requires
        entities.no_duplicates(),
        entities.len() == obs.len(),
        0 <= i < entities.len(),
        obs[i] == (GeometryObservation::DirectMesh { mesh_handle: m, loaded }),
    ensures
        !loaded ==> remaining_entities(entities, obs).contains(entities[i]),
        !loaded ==> forall|j: int|
            0 <= j < resolved_batch(entities, obs).len() ==> resolved_batch(entities, obs)[j].target_entity
                != entities[i],
        loaded ==> !remaining_entities(entities, obs).contains(entities[i]),
        loaded ==> resolved_batch(entities, obs).contains(
            ResolvedTarget { target_entity: entities[i], mesh_handle: m, kind: TargetKind::Mesh },
        ),
{
    lemma_readiness_gating(entities, obs, i);
}

/// Readiness gating on the sub-scene path: a pending entity whose sub-scene
/// is not yet instantiated, or instantiated but not yet ready, is not
/// promoted this tick and stays pending; one whose instance is ready with a
/// first subtree mesh is promoted this tick, with exactly that mesh handle
/// and a sub-scene origin.
pub proof fn lemma_scene_readiness_gating(
    entities: Seq<u64>,
    obs: Seq<GeometryObservation>,
    i: int,
    status: SceneStatus,
)
    requires
        entities.no_duplicates(),
        entities.len() == obs.len(),
        0 <= i < entities.len(),
        obs[i] == (GeometryObservation::SubScene { status }),
    ensures
        status is NotInstantiated || status is NotReady ==> remaining_entities(
            entities,
            obs,
        ).contains(entities[i]) && forall|j: int|
            0 <= j < resolved_batch(entities, obs).len() ==> resolved_batch(entities, obs)[j].target_entity
                != entities[i],
        forall|m: u64|
            status == (SceneStatus::Ready { first_mesh: Some(m) }) ==> !remaining_entities(
                entities,
                obs,
            ).contains(entities[i]) && resolved_batch(entities, obs).contains(
                ResolvedTarget {
                    target_entity: entities[i],
                    mesh_handle: m,
                    kind: TargetKind::Scene,
                },
            ),
{
    lemma_readiness_gating(entities, obs, i);
}

/// At-most-once promotion within a tick: a promoted entity leaves the
/// pending set in the same tick, an entity that is not pending is never
/// promoted, and the pending set never grows.
pub proof fn lemma_at_most_once_promotion(
    entities: Seq<u64>,
    obs: Seq<GeometryObservation>,
    e: u64,
)
    requires
        entities.no_duplicates(),
        entities.len() == obs.len(),
    ensures
        promoted_entities(entities, obs).contains(e) ==> !remaining_entities(
            entities,
            obs,
        ).contains(e),
        !entities.contains(e) ==> !promoted_entities(entities, obs).contains(e),
        remaining_entities(entities, obs).contains(e) ==> entities.contains(e),
{
    lemma_promoted_entities_contains(entities, obs, e);
    crate::registry::lemma_promoted_membership(entities, promoted_entities(entities, obs), e);
    if !entities.contains(e) {
        if promoted_entities(entities, obs).contains(e) {
            let j = choose|j: int|
                0 <= j < entities.len() && entities[j] == e && resolution_of(obs[j]) is Promote;
            assert(entities.contains(e)) by {
                assert(entities[j] == e);
            }
        }
    }
}

/// At-most-once promotion across ticks: once a tick promotes an entity, the
/// tick that runs on the pending set it leaves behind can neither promote
/// that entity again nor find it pending.
pub proof fn lemma_no_repromotion(
    entities: Seq<u64>,
    obs1: Seq<GeometryObservation>,
    obs2: Seq<GeometryObservation>,
    e: u64,
)
    requires
        entities.no_duplicates(),
        entities.len() == obs1.len(),
        obs2.len() == remaining_entities(entities, obs1).len(),
        promoted_entities(entities, obs1).contains(e),
    ensures
        !remaining_entities(entities, obs1).contains(e),
        !promoted_entities(remaining_entities(entities, obs1), obs2).contains(e),
        !remaining_entities(remaining_entities(entities, obs1), obs2).contains(e),
{
    let rem = remaining_entities(entities, obs1);
    lemma_at_most_once_promotion(entities, obs1, e);
    crate::registry::lemma_promoted_no_duplicates(entities, promoted_entities(entities, obs1));
    lemma_at_most_once_promotion(rem, obs2, e);
    if remaining_entities(rem, obs2).contains(e) {
        assert(rem.contains(e));
    }
}

/// One resolver tick over the whole pending set.
///
/// `observations[i]` is what the host reports this tick about the entity at
/// position `i` of the pending set. On success, the promoted entities leave
/// the pending set and the emitted batch carries one resolved target per
/// promoted entity, in pending order; entities that are not ready stay
/// pending, unchanged. On a configuration error (no geometry source, or a
/// ready sub-scene without a mesh), the first offending entity is reported
/// and the pending set is left untouched.
pub fn resolve_ready(pending: &mut PendingSet, observations: &Vec<GeometryObservation>) -> (r:
    Result<Vec<ResolvedTarget>, ConfigError>)
    requires
        old(pending).wf(),
        observations@.len() == old(pending)@.len(),
    ensures
        final(pending).wf(),
        match r {
            Ok(batch) => {
                &&& first_error(old(pending)@, observations@) == None::<ConfigError>
                &&& batch@ == resolved_batch(old(pending)@, observations@)
                &&& final(pending)@ == remaining_entities(old(pending)@, observations@)
            },
            Err(e) => {
                &&& first_error(old(pending)@, observations@) == Some(e)
                &&& final(pending)@ == old(pending)@
            },
        },
{
    let ghost entities = pending@;
    let ghost obs = observations@;
    let n = pending.len();
    let mut batch: Vec<ResolvedTarget> = Vec::new();
    let mut promoted_list: Vec<u64> = Vec::new();
    let mut i: usize = 0;
    while i < n
        invariant
            pending.wf(),
            pending@ == entities,
            obs == observations@,
            obs.len() == entities.len(),
            n == entities.len(),
            0 <= i <= n,
            forall|j: int| 0 <= j < i ==> !(resolution_of(obs[j]) is Fail),
            promoted_list@ == promoted_entities(
                entities.subrange(0, i as int),
                obs.subrange(0, i as int),
            ),
            batch@ == resolved_batch(entities.subrange(0, i as int), obs.subrange(0, i as int)),
        decreases n - i,
    {
        let ghost e_prefix = entities.subrange(0, i as int);
        let ghost o_prefix = obs.subrange(0, i as int);
        let e = pending.entity_at(i);
        let verdict = resolve_one(observations[i]);
        match verdict {
            Resolution::Promote { mesh_handle, kind } => {
                batch.push(ResolvedTarget { target_entity: e, mesh_handle, kind });
                promoted_list.push(e);
            },
            Resolution::Wait => {},
            Resolution::Fail { error } => {
                proof {
                    lemma_first_error_at(entities, obs, i as int, error);
                }
                return Err(ConfigError { entity: e, kind: error });
            },
        }
        proof {
            let e_next = entities.subrange(0, i + 1 as int);
            let o_next = obs.subrange(0, i + 1 as int);
            assert(e_next.drop_last() == e_prefix);
            assert(o_next.drop_last() == o_prefix);
            assert(e_next.last() == entities[i as int]);
            assert(o_next.last() == obs[i as int]);
        }
        i += 1;
    }
    proof {
        assert(entities.subrange(0, n as int) == entities);
        assert(obs.subrange(0, n as int) == obs);
        lemma_no_error(entities, obs);
    }
    pending.promote(&promoted_list);
    Ok(batch)
}

} // verus!
