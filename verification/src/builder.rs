//! The pipeline builder: for each newly-ready target it plans the full
//! rendering pipeline — a correctly-sized off-screen texture, a secondary
//! camera with a freshly allocated render order and the pixelation
//! visibility tag, and an on-screen display surface ("canvas") — all
//! three-way linked to the target entity by back-references.
//!
//! The plans are plain data; the host runtime turns each plan into entities,
//! a texture resource and a material. The geometry's floating-point bounding
//! radius and the quad mesh built from it live with the host as well.

use vstd::prelude::*;

use crate::order::OrderAllocator;
use crate::order::MAIN_PASS_ORDER;
use crate::resolver::ConfigError;
use crate::resolver::ErrorKind;
use crate::resolver::ResolvedTarget;

verus! {

/// Visibility tag shared by every pixelation camera and every tagged target
/// subtree, isolating the pixelation passes from the main pass (which uses
/// `MAIN_LAYER`).
pub const PIXELATION_LAYER: u32 = 1;

/// Visibility tag of the main pass.
pub const MAIN_LAYER: u32 = 0;

/// Bytes per pixel of the off-screen texture format (8-bit-per-channel
/// BGRA).
pub const BYTES_PER_PIXEL: u32 = 4;

/// The resolution a caller requested for a target's off-screen render.
#[derive(Debug, Clone, Copy, PartialEq, Eq, Structural)]
pub struct PixelationRequest {
    pub horizontal_pixels: u32,
    pub vertical_pixels: u32,
}

/// What the host reports about one resolved target at build time.
#[derive(Debug, Clone, Copy, PartialEq, Eq)]
pub struct BuildInput {
    /// The target's pixelation request, if it still carries one.
    pub request: Option<PixelationRequest>,
    /// Whether the resolved mesh handle is present in the asset store.
    pub geometry_present: bool,
}

/// Size of the off-screen render texture, in pixels.
#[derive(Debug, Clone, Copy, PartialEq, Eq, Structural)]
pub struct TextureSpec {
    pub width: u32,
    pub height: u32,
}

/// The secondary camera to create for a target: it renders only the
/// pixelation visibility tag into the target's off-screen texture, before
/// the main pass, clearing to fully transparent.
#[derive(Debug, Clone, Copy, PartialEq, Eq, Structural)]
pub struct CameraPlan {
    /// Back-reference to the requesting entity.
    pub target_entity: u64,
    /// Allocated render order; strictly below the main pass order.
    pub render_order: i64,
    /// The camera draws only entities tagged with this.
    pub visibility_tag: u32,
    /// Unrendered pixels are cleared to fully transparent, not opaque.
    pub clear_transparent: bool,
}

/// The display surface to create for a target: a root anchor entity whose
/// child quad shows the off-screen texture in the main scene.
#[derive(Debug, Clone, Copy, PartialEq, Eq, Structural)]
pub struct CanvasPlan {
    /// Back-reference to the requesting entity.
    pub target_entity: u64,
    /// The quad's material shows the pre-rendered image as-is, unaffected by
    /// scene lighting.
    pub unlit: bool,
    /// Transparent texture regions are see-through.
    pub alpha_blended: bool,
}

/// Everything the host must create for one newly-ready target.
#[derive(Debug, Clone, Copy, PartialEq, Eq, Structural)]
pub struct PipelinePlan {
    /// The requesting entity.
    pub target_entity: u64,
    /// The resolved geometry the camera will render.
    pub mesh_handle: u64,
    /// Visibility tag to attach to the target entity itself so the secondary
    /// camera (and only it) renders it.
    pub target_tag: u32,
    /// The off-screen texture the camera renders into and the canvas shows.
    pub texture: TextureSpec,
    pub camera: CameraPlan,
    pub canvas: CanvasPlan,
}

/// The error one target's build input dictates: the geometry must be in the
/// asset store, the request must still be attached, and neither dimension
/// may be zero.
pub open spec fn build_error_of(input: BuildInput) -> Option<ErrorKind> {
    if !input.geometry_present {
        Some(ErrorKind::MissingGeometry)
    } else {
        match input.request {
            None => Some(ErrorKind::MissingRequest),
            Some(req) => if req.horizontal_pixels == 0 || req.vertical_pixels == 0 {
                Some(ErrorKind::ZeroDimension)
            } else {
                None
            },
        }
    }
}

/// The error a build aborts with: the first target, in batch order, whose
/// input dictates one, if any.
pub open spec fn first_build_error(batch: Seq<ResolvedTarget>, inputs: Seq<BuildInput>) -> Option<
    ConfigError,
>
    decreases batch.len(),
{
    if batch.len() == 0 {
        None
    } else {
        match build_error_of(inputs.first()) {
            Some(kind) => Some(ConfigError { entity: batch.first().target_entity, kind }),
            None => first_build_error(batch.drop_first(), inputs.drop_first()),
        }
    }
}

/// A correctly wired plan for one target: camera and canvas back-reference
/// the target, the camera and the target subtree share the pixelation
/// visibility tag (distinct from the main pass's), the texture is sized
/// exactly as requested, the camera clears to transparent and holds the
/// given render order, and the canvas is unlit and alpha-blended.
pub open spec fn plan_wired(
    p: PipelinePlan,
    t: ResolvedTarget,
    req: PixelationRequest,
    order: int,
) -> bool {
    &&& p.target_entity == t.target_entity
    &&& p.mesh_handle == t.mesh_handle
    &&& p.camera.target_entity == t.target_entity
    &&& p.canvas.target_entity == t.target_entity
    &&& p.camera.render_order == order
    &&& p.camera.visibility_tag == PIXELATION_LAYER
    &&& p.target_tag == PIXELATION_LAYER
    &&& p.target_tag != MAIN_LAYER
    &&& p.camera.clear_transparent
    &&& p.texture.width == req.horizontal_pixels
    &&& p.texture.height == req.vertical_pixels
    &&& p.canvas.unlit
    &&& p.canvas.alpha_blended
}

/// Whether a plan is the one its target and build input dictate, given the
/// render order it was allocated.
pub open spec fn planned(t: ResolvedTarget, input: BuildInput, order: int, p: PipelinePlan) -> bool {
    match input.request {
        Some(req) => plan_wired(p, t, req, order),
        None => false,
    }
}

/// Plans the rendering pipeline for every target of a ready batch.
///
/// `inputs[i]` is what the host reports about `batch[i]` at build time. On
/// success one plan per target is returned, in batch order, each wired as
/// `plan_wired` says, with render orders allocated in batch order (the
/// target at position `i` gets the `i`-th freshly allocated order). On a
/// configuration error — missing geometry, missing request, or a
/// zero-dimension request — the first offending target is reported, no plan
/// is returned and the allocator is left untouched, so no partial pipeline
/// state exists.
pub fn build_pipelines(
    batch: &Vec<ResolvedTarget>,
    inputs: &Vec<BuildInput>,
    orders: &mut OrderAllocator,
) -> (r: Result<Vec<PipelinePlan>, ConfigError>)
    requires
        old(orders).wf(),
        inputs@.len() == batch@.len(),
        old(orders).last() - batch@.len() >= i64::MIN,
    ensures
        final(orders).wf(),
        match r {
            Ok(plans) => {
                &&& first_build_error(batch@, inputs@) == None::<ConfigError>
                &&& plans@.len() == batch@.len()
                &&& forall|i: int|
                    0 <= i < batch@.len() ==> planned(
                        batch@[i],
                        inputs@[i],
                        old(orders).last() - 1 - i,
                        plans@[i],
                    )
                &&& final(orders).last() == old(orders).last() - batch@.len()
            },
            Err(e) => {
                &&& first_build_error(batch@, inputs@) == Some(e)
                &&& final(orders).last() == old(orders).last()
            },
        },
{
    let n = batch.len();
    let mut i: usize = 0;
    while i < n
        invariant
            n == batch@.len(),
            inputs@.len() == batch@.len(),
            0 <= i <= n,
            forall|j: int| 0 <= j < i ==> build_error_of(inputs@[j]) == None::<ErrorKind>,
            orders.wf(),
            orders.last() == old(orders).last(),
        decreases n - i,
    {
        let input = inputs[i];
        let fault: Option<ErrorKind> = if !input.geometry_present {
            Some(ErrorKind::MissingGeometry)
        } else {
            match input.request {
                None => Some(ErrorKind::MissingRequest),
                Some(req) => {
                    if req.horizontal_pixels == 0 || req.vertical_pixels == 0 {
                        Some(ErrorKind::ZeroDimension)
                    } else {
                        None
                    }
                },
            }
        };
        match fault {
            Some(kind) => {
                proof {
                    lemma_first_build_error_at(batch@, inputs@, i as int, kind);
                }
                return Err(ConfigError { entity: batch[i].target_entity, kind });
            },
            None => {},
        }
        i += 1;
    }
    proof {
        lemma_no_build_error(batch@, inputs@);
    }
    let ghost start = orders.last();
    let mut plans: Vec<PipelinePlan> = Vec::new();
    let mut k: usize = 0;
    while k < n
        invariant
            n == batch@.len(),
            inputs@.len() == batch@.len(),
            0 <= k <= n,
            forall|j: int| 0 <= j < n ==> build_error_of(inputs@[j]) == None::<ErrorKind>,
            orders.wf(),
            orders.last() == start - k,
            start - n >= i64::MIN,
            plans@.len() == k,
            forall|j: int| 0 <= j < k ==> planned(batch@[j], inputs@[j], start - 1 - j, plans@[j]),
        decreases n - k,
    {
        let t = batch[k];
        let req = match inputs[k].request {
            Some(req) => req,
            None => {
                proof {
                    assert(build_error_of(inputs@[k as int]) != None::<ErrorKind>);
                }
                unreached()
            },
        };
        let render_order = orders.next();
        let plan = PipelinePlan {
            target_entity: t.target_entity,
            mesh_handle: t.mesh_handle,
            target_tag: PIXELATION_LAYER,
            texture: TextureSpec { width: req.horizontal_pixels, height: req.vertical_pixels },
            camera: CameraPlan {
                target_entity: t.target_entity,
                render_order,
                visibility_tag: PIXELATION_LAYER,
                clear_transparent: true,
            },
            canvas: CanvasPlan { target_entity: t.target_entity, unlit: true, alpha_blended: true },
        };
        plans.push(plan);
        k += 1;
    }
    Ok(plans)
}

/// If no input before position `i` dictates an error and the one at `i`
/// does, the build aborts with exactly that target's error.
proof fn lemma_first_build_error_at(
    batch: Seq<ResolvedTarget>,
    inputs: Seq<BuildInput>,
    i: int,
    k: ErrorKind,
)
    requires
        batch.len() == inputs.len(),
        0 <= i < batch.len(),
        forall|j: int| 0 <= j < i ==> build_error_of(inputs[j]) == None::<ErrorKind>,
        build_error_of(inputs[i]) == Some(k),
    ensures
        first_build_error(batch, inputs) == Some(
            ConfigError { entity: batch[i].target_entity, kind: k },
        ),
    decreases i,
{
    if i == 0 {
    } else {
        assert(build_error_of(inputs[0]) == None::<ErrorKind>);
        lemma_first_build_error_at(batch.drop_first(), inputs.drop_first(), i - 1, k);
    }
}

/// If no input dictates an error, the build does not abort.
proof fn lemma_no_build_error(batch: Seq<ResolvedTarget>, inputs: Seq<BuildInput>)
    requires
        batch.len() == inputs.len(),
        forall|j: int| 0 <= j < inputs.len() ==> build_error_of(inputs[j]) == None::<ErrorKind>,
    ensures
        first_build_error(batch, inputs) == None::<ConfigError>,
    decreases batch.len(),
{
    if batch.len() == 0 {
    } else {
        assert(build_error_of(inputs[0]) == None::<ErrorKind>);
        lemma_no_build_error(batch.drop_first(), inputs.drop_first());
    }
}

/// Order monotonicity: within one planned batch, render orders strictly
/// decrease in batch order and all lie strictly below the main pass order,
/// so no two pixelation cameras share an order and every one renders before
/// the main camera.
pub proof fn lemma_order_monotonicity(plans: Seq<PipelinePlan>, start: int, i: int, j: int)
    requires
        start <= MAIN_PASS_ORDER,
        forall|k: int| 0 <= k < plans.len() ==> plans[k].camera.render_order == start - 1 - k,
        0 <= i < j < plans.len(),
    ensures
        plans[j].camera.render_order < plans[i].camera.render_order,
        plans[i].camera.render_order < MAIN_PASS_ORDER,
        plans[j].camera.render_order < MAIN_PASS_ORDER,
{
}

/// Order monotonicity across ticks: every order planned by a later batch
/// lies strictly below every order planned by an earlier one, because the
/// later batch starts where the earlier one left the allocator.
pub proof fn lemma_order_monotonicity_across_batches(
    plans1: Seq<PipelinePlan>,
    start1: int,
    plans2: Seq<PipelinePlan>,
    start2: int,
    i: int,
    j: int,
)
    requires
        start1 <= MAIN_PASS_ORDER,
        forall|k: int| 0 <= k < plans1.len() ==> plans1[k].camera.render_order == start1 - 1 - k,
        start2 == start1 - plans1.len(),
        forall|k: int| 0 <= k < plans2.len() ==> plans2[k].camera.render_order == start2 - 1 - k,
        0 <= i < plans1.len(),
        0 <= j < plans2.len(),
    ensures
        plans2[j].camera.render_order < plans1[i].camera.render_order,
        plans1[i].camera.render_order < MAIN_PASS_ORDER,
        plans2[j].camera.render_order < MAIN_PASS_ORDER,
{
}

/// Backing storage for a fresh off-screen texture: `BYTES_PER_PIXEL` bytes
/// per pixel, all zero, so the texture starts fully transparent black.
pub fn texture_data(spec: TextureSpec) -> (r: Vec<u8>)
    requires
        spec.width * spec.height * BYTES_PER_PIXEL <= usize::MAX,
    ensures
        r@.len() == spec.width * spec.height * BYTES_PER_PIXEL,
        forall|i: int| 0 <= i < r@.len() ==> r@[i] == 0u8,
{
    let total: usize = (spec.width as usize) * (spec.height as usize) * (BYTES_PER_PIXEL as usize);
    let mut data: Vec<u8> = Vec::new();
    let mut i: usize = 0;
    while i < total
        invariant
            0 <= i <= total,
            data@.len() == i,
            forall|j: int| 0 <= j < i ==> data@[j] == 0u8,
        decreases total - i,
    {
        data.push(0u8);
        i += 1;
    }
    data
}

} // verus!
