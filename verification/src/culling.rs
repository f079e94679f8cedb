//! The verdict of a frustum test on a bounding box, from the per-plane tests.
use vstd::prelude::*;

verus! {

/// Result of a frustum intersection test.
#[derive(Debug, Clone, Copy, PartialEq, Eq, Structural)]
pub enum Intersection {
    /// Completely outside the frustum.
    Outside,
    /// Completely inside the frustum.
    Inside,
    /// Partially inside (intersecting a plane).
    Intersecting,
}

/// The test of a box against one frustum plane: whether the box's vertex furthest
/// along the plane normal is behind the plane, and whether its nearest vertex is.
#[derive(Debug, Clone, Copy, PartialEq, Eq, Structural)]
pub struct PlaneTest {
    pub far_vertex_behind: bool,
    pub near_vertex_behind: bool,
}

/// A box is outside when, for some plane, even its furthest vertex is behind it;
/// otherwise it intersects the frustum when some plane has its nearest vertex
/// behind, and is inside when no plane does.
pub open spec fn verdict(tests: Seq<PlaneTest>) -> Intersection {
    if exists|i: int| 0 <= i < tests.len() && (#[trigger] tests[i]).far_vertex_behind {
        Intersection::Outside
    } else if exists|i: int| 0 <= i < tests.len() && (#[trigger] tests[i]).near_vertex_behind {
        Intersection::Intersecting
    } else {
        Intersection::Inside
    }
}

/// A box whose furthest vertex is behind any one plane, wherever that plane stands
/// in the list, is outside; a box that is not outside is inside exactly when no
/// plane has even its nearest vertex behind, and intersecting otherwise.
pub proof fn lemma_verdict_by_planes(tests: Seq<PlaneTest>, i: int)
    ensures
        0 <= i < tests.len() && tests[i].far_vertex_behind ==> verdict(tests)
            == Intersection::Outside,
        verdict(tests) == Intersection::Outside ==> exists|j: int|
            0 <= j < tests.len() && (#[trigger] tests[j]).far_vertex_behind,
        verdict(tests) == Intersection::Inside <==> forall|j: int|
            0 <= j < tests.len() ==> !(#[trigger] tests[j]).far_vertex_behind
                && !tests[j].near_vertex_behind,
        0 <= i < tests.len() && tests[i].near_vertex_behind ==> verdict(tests)
            != Intersection::Inside,
{
}

/// The verdict does not depend on the order in which the planes are tested.
pub proof fn lemma_verdict_order_free(a: Seq<PlaneTest>, b: Seq<PlaneTest>)
    requires
        a.to_multiset() == b.to_multiset(),
    ensures
        verdict(a) == verdict(b),
{
    assert forall|x: PlaneTest| a.contains(x) <==> b.contains(x) by {
        vstd::seq_lib::to_multiset_contains(a, x);
        vstd::seq_lib::to_multiset_contains(b, x);
    }
    assert((exists|i: int| 0 <= i < a.len() && (#[trigger] a[i]).far_vertex_behind) <==> (exists|
        i: int,
    | 0 <= i < b.len() && (#[trigger] b[i]).far_vertex_behind)) by {
        if exists|i: int| 0 <= i < a.len() && (#[trigger] a[i]).far_vertex_behind {
            let i = choose|i: int| 0 <= i < a.len() && (#[trigger] a[i]).far_vertex_behind;
            assert(a.contains(a[i]));
            let j = choose|j: int| 0 <= j < b.len() && b[j] == a[i];
            assert(b[j].far_vertex_behind);
        }
        if exists|i: int| 0 <= i < b.len() && (#[trigger] b[i]).far_vertex_behind {
            let i = choose|i: int| 0 <= i < b.len() && (#[trigger] b[i]).far_vertex_behind;
            assert(b.contains(b[i]));
            let j = choose|j: int| 0 <= j < a.len() && a[j] == b[i];
            assert(a[j].far_vertex_behind);
        }
    }
    assert((exists|i: int| 0 <= i < a.len() && (#[trigger] a[i]).near_vertex_behind) <==> (exists|
        i: int,
    | 0 <= i < b.len() && (#[trigger] b[i]).near_vertex_behind)) by {
        if exists|i: int| 0 <= i < a.len() && (#[trigger] a[i]).near_vertex_behind {
            let i = choose|i: int| 0 <= i < a.len() && (#[trigger] a[i]).near_vertex_behind;
            assert(a.contains(a[i]));
            let j = choose|j: int| 0 <= j < b.len() && b[j] == a[i];
            assert(b[j].near_vertex_behind);
        }
        if exists|i: int| 0 <= i < b.len() && (#[trigger] b[i]).near_vertex_behind {
            let i = choose|i: int| 0 <= i < b.len() && (#[trigger] b[i]).near_vertex_behind;
            assert(b.contains(b[i]));
            let j = choose|j: int| 0 <= j < a.len() && a[j] == b[i];
            assert(a[j].near_vertex_behind);
        }
    }
}

/// Combines the plane tests, in plane order, into the box's verdict.
pub fn classify(tests: &[PlaneTest]) -> (r: Intersection)
    ensures
        r == verdict(tests@),
{
    let mut result = Intersection::Inside;
    let mut i: usize = 0;
    while i < tests.len()
        invariant
            0 <= i <= tests@.len(),
            forall|j: int| 0 <= j < i ==> !(#[trigger] tests@[j]).far_vertex_behind,
            result == (if exists|j: int| 0 <= j < i && (#[trigger] tests@[j]).near_vertex_behind {
                Intersection::Intersecting
            } else {
                Intersection::Inside
            }),
        decreases tests@.len() - i,
    {
        let t = tests[i];
        if t.far_vertex_behind {
            return Intersection::Outside;
        }
        if t.near_vertex_behind {
            result = Intersection::Intersecting;
        }
        i += 1;
    }
    result
}

} // verus!
