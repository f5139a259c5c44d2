use pixelation_core::builder::build_pipelines;
use pixelation_core::builder::texture_data;
use pixelation_core::builder::BuildInput;
use pixelation_core::builder::PixelationRequest;
use pixelation_core::builder::TextureSpec;
use pixelation_core::builder::BYTES_PER_PIXEL;
use pixelation_core::builder::MAIN_LAYER;
use pixelation_core::builder::PIXELATION_LAYER;
use pixelation_core::order::OrderAllocator;
use pixelation_core::order::MAIN_PASS_ORDER;
use pixelation_core::registry::PendingSet;
use pixelation_core::resolver::resolve_ready;
use pixelation_core::resolver::ErrorKind;
use pixelation_core::resolver::GeometryObservation;
use pixelation_core::resolver::ResolvedTarget;
use pixelation_core::resolver::TargetKind;

fn target(entity: u64, mesh: u64) -> ResolvedTarget {
    ResolvedTarget { target_entity: entity, mesh_handle: mesh, kind: TargetKind::Mesh }
}

fn input(width: u32, height: u32) -> BuildInput {
    BuildInput {
        request: Some(PixelationRequest { horizontal_pixels: width, vertical_pixels: height }),
        geometry_present: true,
    }
}

#[test]
fn orders_strictly_decrease_below_main_pass() {
    let batch = vec![target(1, 10), target(2, 20), target(3, 30)];
    let inputs = vec![input(8, 8), input(8, 8), input(8, 8)];
    let mut orders = OrderAllocator::new();
    let plans = build_pipelines(&batch, &inputs, &mut orders).unwrap();
    let allocated: Vec<i64> = plans.iter().map(|p| p.camera.render_order).collect();
    assert_eq!(allocated, vec![-1, -2, -3]);
    for w in allocated.windows(2) {
        assert!(w[1] < w[0]);
    }
    for o in &allocated {
        assert!(*o < MAIN_PASS_ORDER);
    }
}

#[test]
fn orders_keep_decreasing_across_batches() {
    let mut orders = OrderAllocator::new();
    let plans1 =
        build_pipelines(&vec![target(1, 10), target(2, 20)], &vec![input(8, 8); 2], &mut orders)
            .unwrap();
    let plans2 = build_pipelines(&vec![target(3, 30)], &vec![input(8, 8)], &mut orders).unwrap();
    assert_eq!(plans1[0].camera.render_order, -1);
    assert_eq!(plans1[1].camera.render_order, -2);
    assert_eq!(plans2[0].camera.render_order, -3);
}

#[test]
fn texture_sized_exactly_as_requested() {
    let batch = vec![target(1, 10)];
    let inputs = vec![input(64, 32)];
    let mut orders = OrderAllocator::new();
    let plans = build_pipelines(&batch, &inputs, &mut orders).unwrap();
    assert_eq!(plans[0].texture, TextureSpec { width: 64, height: 32 });
    let data = texture_data(plans[0].texture);
    assert_eq!(data.len(), 64 * 32 * BYTES_PER_PIXEL as usize);
    assert!(data.iter().all(|b| *b == 0));
}

#[test]
fn plan_is_fully_wired_to_the_target() {
    let batch = vec![target(42, 7)];
    let inputs = vec![input(16, 16)];
    let mut orders = OrderAllocator::new();
    let plans = build_pipelines(&batch, &inputs, &mut orders).unwrap();
    let p = &plans[0];
    assert_eq!(p.target_entity, 42);
    assert_eq!(p.mesh_handle, 7);
    assert_eq!(p.camera.target_entity, 42);
    assert_eq!(p.canvas.target_entity, 42);
    assert_eq!(p.camera.visibility_tag, PIXELATION_LAYER);
    assert_eq!(p.target_tag, PIXELATION_LAYER);
    assert_ne!(p.target_tag, MAIN_LAYER);
    assert!(p.camera.clear_transparent);
    assert!(p.canvas.unlit);
    assert!(p.canvas.alpha_blended);
}

#[test]
fn missing_geometry_is_a_config_error() {
    let batch = vec![target(1, 10)];
    let inputs = vec![BuildInput { request: Some(PixelationRequest {
        horizontal_pixels: 8,
        vertical_pixels: 8,
    }), geometry_present: false }];
    let mut orders = OrderAllocator::new();
    let err = build_pipelines(&batch, &inputs, &mut orders).unwrap_err();
    assert_eq!(err.entity, 1);
    assert_eq!(err.kind, ErrorKind::MissingGeometry);
}

#[test]
fn missing_request_is_a_config_error() {
    let batch = vec![target(1, 10)];
    let inputs = vec![BuildInput { request: None, geometry_present: true }];
    let mut orders = OrderAllocator::new();
    let err = build_pipelines(&batch, &inputs, &mut orders).unwrap_err();
    assert_eq!(err.entity, 1);
    assert_eq!(err.kind, ErrorKind::MissingRequest);
}

#[test]
fn zero_dimension_is_a_config_error_and_builds_nothing() {
    let batch = vec![target(1, 10), target(2, 20)];
    let inputs = vec![input(8, 8), input(8, 0)];
    let mut orders = OrderAllocator::new();
    let err = build_pipelines(&batch, &inputs, &mut orders).unwrap_err();
    assert_eq!(err.entity, 2);
    assert_eq!(err.kind, ErrorKind::ZeroDimension);
    // no partial state: the allocator was not advanced, so the next
    // successful build still starts right below the main pass order
    let plans = build_pipelines(&vec![target(1, 10)], &vec![input(8, 8)], &mut orders).unwrap();
    assert_eq!(plans[0].camera.render_order, -1);
}

#[test]
fn end_to_end_direct_mesh_target() {
    // register target T with a 32x32 request and a direct mesh handle M
    let t: u64 = 77;
    let m: u64 = 5;
    let mut pending = PendingSet::new();
    pending.register(t);

    // tick 1: M has not finished loading; T stays pending, nothing is built
    let obs = vec![GeometryObservation::DirectMesh { mesh_handle: m, loaded: false }];
    let batch = resolve_ready(&mut pending, &obs).unwrap();
    assert!(batch.is_empty());
    assert!(pending.contains(t));

    // tick 2: M is loaded; T is promoted and exactly one pipeline is planned
    let obs = vec![GeometryObservation::DirectMesh { mesh_handle: m, loaded: true }];
    let batch = resolve_ready(&mut pending, &obs).unwrap();
    assert_eq!(batch, vec![ResolvedTarget { target_entity: t, mesh_handle: m, kind: TargetKind::Mesh }]);
    assert!(!pending.contains(t));

    let inputs = vec![input(32, 32)];
    let mut orders = OrderAllocator::new();
    let plans = build_pipelines(&batch, &inputs, &mut orders).unwrap();
    assert_eq!(plans.len(), 1);
    let p = &plans[0];
    assert_eq!(p.camera.render_order, -1);
    assert_eq!(p.texture, TextureSpec { width: 32, height: 32 });
    assert_eq!(p.camera.target_entity, t);
    assert_eq!(p.canvas.target_entity, t);
}
