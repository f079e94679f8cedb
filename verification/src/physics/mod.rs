//! Discrete decisions of the physics pipeline: which narrowphase test a pair of
//! shapes gets, when the GPU path is taken, and how GPU broadphase pairs are routed
//! between the GPU and CPU narrowphase.
use vstd::prelude::*;

pub mod broadphase;
pub mod narrowphase;

verus! {

/// How a rigid body takes part in the simulation.
#[derive(Debug, Clone, Copy, PartialEq, Eq, Hash, Structural)]
pub enum BodyKind {
    Dynamic,
    Static,
    Kinematic,
}

/// The kind of a collider's shape.
#[derive(Debug, Clone, Copy, PartialEq, Eq, Hash, Structural)]
pub enum ShapeKind {
    Sphere,
    Box,
    Capsule,
    Cylinder,
    ConvexHull,
}

/// The narrowphase test a pair of shapes is handed to.
#[derive(Debug, Clone, Copy, PartialEq, Eq, Hash, Structural)]
pub enum CollisionTest {
    /// Closed-form sphere against sphere.
    SphereSphere,
    /// Separating-axis test of two boxes.
    BoxBox,
    /// Box (first) against sphere (second).
    BoxSphere,
    /// Sphere (first) against box (second): the box-sphere test with the shapes
    /// swapped and the contact normal flipped back.
    SphereBox,
    /// General convex shapes: GJK intersection, then EPA penetration.
    GjkEpa,
}

/// The narrowphase dispatch of collision detection between two shapes: the
/// specialised tests where one exists, GJK/EPA otherwise. The chosen test is then
/// run on the shapes' geometry by the caller.
pub fn detect_collision(a: ShapeKind, b: ShapeKind) -> (r: CollisionTest)
    ensures
        r == match (a, b) {
            (ShapeKind::Sphere, ShapeKind::Sphere) => CollisionTest::SphereSphere,
            (ShapeKind::Box, ShapeKind::Box) => CollisionTest::BoxBox,
            (ShapeKind::Box, ShapeKind::Sphere) => CollisionTest::BoxSphere,
            (ShapeKind::Sphere, ShapeKind::Box) => CollisionTest::SphereBox,
            _ => CollisionTest::GjkEpa,
        },
{
    match (a, b) {
        (ShapeKind::Sphere, ShapeKind::Sphere) => CollisionTest::SphereSphere,
        (ShapeKind::Box, ShapeKind::Box) => CollisionTest::BoxBox,
        (ShapeKind::Box, ShapeKind::Sphere) => CollisionTest::BoxSphere,
        (ShapeKind::Sphere, ShapeKind::Box) => CollisionTest::SphereBox,
        _ => CollisionTest::GjkEpa,
    }
}

/// Minimum number of bodies before GPU offload is used.
pub const GPU_BODY_THRESHOLD: usize = 256;

/// Maximum collision pairs the GPU broadphase can output.
pub const MAX_PAIRS: u32 = 65536;

/// Whether GPU offload should be used for `body_count` bodies.
pub fn should_use_gpu(body_count: usize) -> (r: bool)
    ensures
        r == (body_count >= GPU_BODY_THRESHOLD),
{
    body_count >= GPU_BODY_THRESHOLD
}

/// The number of bodies the GPU buffers are sized for: the requested capacity, but
/// at least the GPU threshold.
pub fn gpu_body_capacity(initial_capacity: usize) -> (r: usize)
    ensures
        r == (if initial_capacity < GPU_BODY_THRESHOLD {
            GPU_BODY_THRESHOLD
        } else {
            initial_capacity
        }),
{
    if initial_capacity < GPU_BODY_THRESHOLD {
        GPU_BODY_THRESHOLD
    } else {
        initial_capacity
    }
}

/// Whether `count` per-body records are written to a GPU buffer sized for
/// `max_bodies`: there is something to write and it fits.
pub fn fits_gpu_buffer(count: usize, max_bodies: usize) -> (r: bool)
    ensures
        r == (0 < count && count <= max_bodies),
{
    0 < count && count <= max_bodies
}

/// The shape code the GPU narrowphase reads: `0` for a sphere, `1` for a box, `255`
/// for every other shape and for a body without a collider.
pub fn gpu_shape_code(shape: Option<ShapeKind>) -> (r: u32)
    ensures
        r == match shape {
            Some(ShapeKind::Sphere) => 0u32,
            Some(ShapeKind::Box) => 1u32,
            _ => 255u32,
        },
{
    match shape {
        Some(ShapeKind::Sphere) => 0,
        Some(ShapeKind::Box) => 1,
        _ => 255,
    }
}

/// How one physics step finds its contacts.
#[derive(Debug, Clone, Copy, PartialEq, Eq, Structural)]
pub enum StepPath {
    /// CPU broadphase and narrowphase.
    Cpu,
    /// GPU broadphase feeding the GPU narrowphase directly (every body a sphere).
    GpuDirect,
    /// GPU broadphase read back and split between the GPU and CPU narrowphase.
    GpuMixed,
}

/// The path of a step: the GPU when it is set up and there are enough bodies, the
/// direct GPU path when every body is a sphere.
pub fn step_path(gpu_ready: bool, body_count: usize, all_spheres: bool) -> (r: StepPath)
    ensures
        r == (if gpu_ready && body_count >= GPU_BODY_THRESHOLD {
            if all_spheres {
                StepPath::GpuDirect
            } else {
                StepPath::GpuMixed
            }
        } else {
            StepPath::Cpu
        }),
{
    if gpu_ready && should_use_gpu(body_count) {
        if all_spheres {
            StepPath::GpuDirect
        } else {
            StepPath::GpuMixed
        }
    } else {
        StepPath::Cpu
    }
}

/// A GPU collision pair: indices into the uploaded body list.
#[derive(Debug, Clone, Copy, PartialEq, Eq, Structural)]
pub struct CollisionPair {
    pub entity_a: u32,
    pub entity_b: u32,
}

/// The number of pairs to read back: the counter the GPU wrote (0 when nothing was
/// read), capped at the pair buffer's capacity.
pub fn readback_pair_count(count_data: &Vec<u32>) -> (r: u32)
    ensures
        r == (if count_data@.len() == 0 {
            0
        } else if count_data@[0] < MAX_PAIRS {
            count_data@[0]
        } else {
            MAX_PAIRS
        }),
{
    if count_data.len() == 0 {
        0
    } else if count_data[0] < MAX_PAIRS {
        count_data[0]
    } else {
        MAX_PAIRS
    }
}

/// Pairs the GPU narrowphase handles: sphere-sphere, sphere-box and box-sphere.
/// Box-box and every other shape go to the CPU; so does a body without a collider.
pub open spec fn gpu_compatible(a: Option<ShapeKind>, b: Option<ShapeKind>) -> bool {
    match (a, b) {
        (Some(ShapeKind::Sphere), Some(ShapeKind::Sphere)) => true,
        (Some(ShapeKind::Sphere), Some(ShapeKind::Box)) => true,
        (Some(ShapeKind::Box), Some(ShapeKind::Sphere)) => true,
        _ => false,
    }
}

pub fn is_gpu_compatible(a: Option<ShapeKind>, b: Option<ShapeKind>) -> (r: bool)
    ensures
        r == gpu_compatible(a, b),
{
    match (a, b) {
        (Some(ShapeKind::Sphere), Some(ShapeKind::Sphere)) => true,
        (Some(ShapeKind::Sphere), Some(ShapeKind::Box)) => true,
        (Some(ShapeKind::Box), Some(ShapeKind::Sphere)) => true,
        _ => false,
    }
}

/// The elements of `s` (in order) that satisfy `p`.
pub open spec fn keep<A>(s: Seq<A>, p: spec_fn(A) -> bool) -> Seq<A>
    decreases s.len(),
{
    if s.len() == 0 {
        Seq::empty()
    } else if p(s.last()) {
        keep(s.drop_last(), p).push(s.last())
    } else {
        keep(s.drop_last(), p)
    }
}

/// Both indices of the pair name an uploaded body.
pub open spec fn pair_known(p: CollisionPair, n: int) -> bool {
    (p.entity_a as int) < n && (p.entity_b as int) < n
}

pub open spec fn routes_to_gpu(shapes: Seq<Option<ShapeKind>>) -> spec_fn(CollisionPair) -> bool {
    |p: CollisionPair|
        pair_known(p, shapes.len() as int) && gpu_compatible(
            shapes[p.entity_a as int],
            shapes[p.entity_b as int],
        )
}

pub open spec fn routes_to_cpu(shapes: Seq<Option<ShapeKind>>) -> spec_fn(CollisionPair) -> bool {
    |p: CollisionPair|
        pair_known(p, shapes.len() as int) && !gpu_compatible(
            shapes[p.entity_a as int],
            shapes[p.entity_b as int],
        )
}

/// Each broadphase pair naming uploaded bodies goes to exactly one narrowphase.
pub proof fn lemma_routing_partition(pairs: Seq<CollisionPair>, shapes: Seq<Option<ShapeKind>>)
    ensures
        keep(pairs, routes_to_gpu(shapes)).len() + keep(pairs, routes_to_cpu(shapes)).len() == keep(
            pairs,
            |p: CollisionPair| pair_known(p, shapes.len() as int),
        ).len(),
    decreases pairs.len(),
{
    if pairs.len() > 0 {
        lemma_routing_partition(pairs.drop_last(), shapes);
    }
}

/// Broadphase pairs split between the narrowphases.
#[derive(Debug)]
pub struct NarrowphaseRouting {
    /// Pairs for the GPU narrowphase, in broadphase order.
    pub gpu_pairs: Vec<CollisionPair>,
    /// Pairs for the CPU narrowphase, in broadphase order.
    pub cpu_pairs: Vec<CollisionPair>,
    /// How many of `gpu_pairs` the GPU dispatch processes.
    pub gpu_count: u32,
}

/// Routes broadphase pairs (indices into the uploaded bodies, whose shapes are
/// `shapes`) to the GPU or CPU narrowphase; pairs naming an unknown body are
/// dropped. At most `max_gpu_pairs` GPU pairs are dispatched.
pub fn route_narrowphase_pairs(
    pairs: &Vec<CollisionPair>,
    shapes: &Vec<Option<ShapeKind>>,
    max_gpu_pairs: usize,
) -> (r: NarrowphaseRouting)
    requires
        max_gpu_pairs <= u32::MAX,
    ensures
        r.gpu_pairs@ == keep(pairs@, routes_to_gpu(shapes@)),
        r.cpu_pairs@ == keep(pairs@, routes_to_cpu(shapes@)),
        r.gpu_count == (if r.gpu_pairs@.len() < max_gpu_pairs {
            r.gpu_pairs@.len() as int
        } else {
            max_gpu_pairs as int
        }),
{
    let mut gpu: Vec<CollisionPair> = Vec::new();
    let mut cpu: Vec<CollisionPair> = Vec::new();
    let mut i: usize = 0;
    proof {
        assert(pairs@.take(0) =~= Seq::<CollisionPair>::empty());
    }
    while i < pairs.len()
        invariant
            0 <= i <= pairs@.len(),
            gpu@ == keep(pairs@.take(i as int), routes_to_gpu(shapes@)),
            cpu@ == keep(pairs@.take(i as int), routes_to_cpu(shapes@)),
        decreases pairs@.len() - i,
    {
        proof {
            assert(pairs@.take(i + 1).drop_last() =~= pairs@.take(i as int));
            assert(pairs@.take(i + 1).last() == pairs@[i as int]);
        }
        let p = pairs[i];
        let a = p.entity_a as usize;
        let b = p.entity_b as usize;
        if a < shapes.len() && b < shapes.len() {
            if is_gpu_compatible(shapes[a], shapes[b]) {
                gpu.push(p);
            } else {
                cpu.push(p);
            }
        }
        i += 1;
    }
    proof {
        assert(pairs@.take(i as int) =~= pairs@);
    }
    let count = if gpu.len() < max_gpu_pairs {
        gpu.len() as u32
    } else {
        max_gpu_pairs as u32
    };
    NarrowphaseRouting { gpu_pairs: gpu, cpu_pairs: cpu, gpu_count: count }
}

/// Whether every uploaded body has a sphere collider (the GPU fast path that skips
/// the broadphase read-back).
pub fn all_spheres(shapes: &Vec<Option<ShapeKind>>) -> (r: bool)
    ensures
        r == forall|i: int| 0 <= i < shapes@.len() ==> shapes@[i] == Some(ShapeKind::Sphere),
{
    let mut i: usize = 0;
    while i < shapes.len()
        invariant
            0 <= i <= shapes@.len(),
            forall|j: int| 0 <= j < i ==> shapes@[j] == Some(ShapeKind::Sphere),
        decreases shapes@.len() - i,
    {
        match shapes[i] {
            Some(ShapeKind::Sphere) => {},
            _ => {
                return false;
            },
        }
        i += 1;
    }
    true
}

} // verus!
