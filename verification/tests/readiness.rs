use pixelation_core::registry::PendingSet;
use pixelation_core::resolver::resolve_one;
use pixelation_core::resolver::resolve_ready;
use pixelation_core::resolver::ErrorKind;
use pixelation_core::resolver::GeometryObservation;
use pixelation_core::resolver::Resolution;
use pixelation_core::resolver::ResolvedTarget;
use pixelation_core::resolver::SceneStatus;
use pixelation_core::resolver::TargetKind;

#[test]
fn register_twice_keeps_one_entry() {
    let mut pending = PendingSet::new();
    pending.register(7);
    pending.register(7);
    assert_eq!(pending.len(), 1);
    assert!(pending.contains(7));
    assert_eq!(pending.entity_at(0), 7);
}

#[test]
fn register_all_is_idempotent_per_entity() {
    let mut pending = PendingSet::new();
    pending.register_all(&vec![1, 2, 1, 3, 2]);
    assert_eq!(pending.len(), 3);
    assert_eq!(pending.entity_at(0), 1);
    assert_eq!(pending.entity_at(1), 2);
    assert_eq!(pending.entity_at(2), 3);
}

#[test]
fn promote_removes_exactly_the_given() {
    let mut pending = PendingSet::new();
    pending.register_all(&vec![1, 2, 3]);
    // promoting an absent entity is a silent no-op
    pending.promote(&vec![2, 99]);
    assert_eq!(pending.len(), 2);
    assert!(pending.contains(1));
    assert!(!pending.contains(2));
    assert!(pending.contains(3));
}

#[test]
fn unloaded_mesh_is_not_promoted() {
    let mut pending = PendingSet::new();
    pending.register(10);
    let obs = vec![GeometryObservation::DirectMesh { mesh_handle: 4, loaded: false }];
    let batch = resolve_ready(&mut pending, &obs).unwrap();
    assert!(batch.is_empty());
    assert_eq!(pending.len(), 1);
    assert!(pending.contains(10));
}

#[test]
fn loaded_mesh_is_promoted_in_first_loaded_tick() {
    let mut pending = PendingSet::new();
    pending.register(10);
    // tick 1: the store reports the mesh unloaded
    let obs = vec![GeometryObservation::DirectMesh { mesh_handle: 4, loaded: false }];
    let batch = resolve_ready(&mut pending, &obs).unwrap();
    assert!(batch.is_empty());
    // tick 2: the store reports it loaded
    let obs = vec![GeometryObservation::DirectMesh { mesh_handle: 4, loaded: true }];
    let batch = resolve_ready(&mut pending, &obs).unwrap();
    assert_eq!(
        batch,
        vec![ResolvedTarget { target_entity: 10, mesh_handle: 4, kind: TargetKind::Mesh }]
    );
    assert_eq!(pending.len(), 0);
}

#[test]
fn promoted_entity_never_reappears() {
    let mut pending = PendingSet::new();
    pending.register_all(&vec![10, 11]);
    let obs = vec![
        GeometryObservation::DirectMesh { mesh_handle: 4, loaded: true },
        GeometryObservation::DirectMesh { mesh_handle: 5, loaded: false },
    ];
    let batch = resolve_ready(&mut pending, &obs).unwrap();
    assert_eq!(batch.len(), 1);
    assert_eq!(batch[0].target_entity, 10);
    assert!(!pending.contains(10));
    // later ticks run on the remaining set only: 10 cannot be promoted again
    let obs = vec![GeometryObservation::DirectMesh { mesh_handle: 5, loaded: true }];
    let batch = resolve_ready(&mut pending, &obs).unwrap();
    assert_eq!(batch.len(), 1);
    assert_eq!(batch[0].target_entity, 11);
    assert!(!pending.contains(10));
    assert_eq!(pending.len(), 0);
}

#[test]
fn scene_promoted_only_when_ready() {
    let mut pending = PendingSet::new();
    pending.register(20);
    // tick 1: the sub-scene is not instantiated yet
    let obs = vec![GeometryObservation::SubScene { status: SceneStatus::NotInstantiated }];
    let batch = resolve_ready(&mut pending, &obs).unwrap();
    assert!(batch.is_empty());
    assert!(pending.contains(20));
    // tick 2: instantiated, but its subtree is not ready yet
    let obs = vec![GeometryObservation::SubScene { status: SceneStatus::NotReady }];
    let batch = resolve_ready(&mut pending, &obs).unwrap();
    assert!(batch.is_empty());
    assert!(pending.contains(20));
    // tick 3: ready; the first subtree mesh is the resolved handle
    let obs = vec![
        GeometryObservation::SubScene { status: SceneStatus::Ready { first_mesh: Some(5) } },
    ];
    let batch = resolve_ready(&mut pending, &obs).unwrap();
    assert_eq!(
        batch,
        vec![ResolvedTarget { target_entity: 20, mesh_handle: 5, kind: TargetKind::Scene }]
    );
    assert!(!pending.contains(20));
}

#[test]
fn absent_entity_stays_pending() {
    let mut pending = PendingSet::new();
    pending.register(30);
    let obs = vec![GeometryObservation::Absent];
    let batch = resolve_ready(&mut pending, &obs).unwrap();
    assert!(batch.is_empty());
    assert!(pending.contains(30));
}

#[test]
fn no_geometry_source_is_a_config_error() {
    let mut pending = PendingSet::new();
    pending.register_all(&vec![1, 2]);
    let obs = vec![
        GeometryObservation::DirectMesh { mesh_handle: 4, loaded: true },
        GeometryObservation::NoSource,
    ];
    let err = resolve_ready(&mut pending, &obs).unwrap_err();
    assert_eq!(err.entity, 2);
    assert_eq!(err.kind, ErrorKind::NoGeometrySource);
    // the tick aborted: the pending set is untouched
    assert_eq!(pending.len(), 2);
    assert!(pending.contains(1));
    assert!(pending.contains(2));
}

#[test]
fn ready_scene_without_mesh_is_a_config_error() {
    let mut pending = PendingSet::new();
    pending.register(3);
    let obs = vec![
        GeometryObservation::SubScene { status: SceneStatus::Ready { first_mesh: None } },
    ];
    let err = resolve_ready(&mut pending, &obs).unwrap_err();
    assert_eq!(err.entity, 3);
    assert_eq!(err.kind, ErrorKind::SceneWithoutMesh);
    assert!(pending.contains(3));
}

#[test]
fn resolve_one_verdicts() {
    assert_eq!(
        resolve_one(GeometryObservation::DirectMesh { mesh_handle: 8, loaded: true }),
        Resolution::Promote { mesh_handle: 8, kind: TargetKind::Mesh }
    );
    assert_eq!(
        resolve_one(GeometryObservation::DirectMesh { mesh_handle: 8, loaded: false }),
        Resolution::Wait
    );
    assert_eq!(
        resolve_one(GeometryObservation::SubScene { status: SceneStatus::NotInstantiated }),
        Resolution::Wait
    );
    assert_eq!(
        resolve_one(GeometryObservation::SubScene {
            status: SceneStatus::Ready { first_mesh: Some(8) }
        }),
        Resolution::Promote { mesh_handle: 8, kind: TargetKind::Scene }
    );
    assert_eq!(
        resolve_one(GeometryObservation::NoSource),
        Resolution::Fail { error: ErrorKind::NoGeometrySource }
    );
    assert_eq!(resolve_one(GeometryObservation::Absent), Resolution::Wait);
}
