use glam::{Mat4, Vec3, Vec4};
use rein::culling::{classify, Intersection, PlaneTest};

fn t(far: bool, near: bool) -> PlaneTest {
    PlaneTest { far_vertex_behind: far, near_vertex_behind: near }
}

#[test]
fn plane_tests_combine_into_a_verdict() {
    assert_eq!(classify(&[t(false, false); 6]), Intersection::Inside);
    assert_eq!(classify(&[t(false, false), t(false, true), t(false, false)]), Intersection::Intersecting);
    assert_eq!(classify(&[t(false, true), t(true, true), t(false, false)]), Intersection::Outside);
    assert_eq!(classify(&[]), Intersection::Inside);
}

/// The frustum test as the renderer runs it: planes from the matrix columns, the
/// far and near box vertices per plane, the verdict from the library.
fn test_box(vp: Mat4, min: Vec3, max: Vec3) -> Intersection {
    let (c0, c1, c2, c3) = (vp.col(0), vp.col(1), vp.col(2), vp.col(3));
    let planes: Vec<Vec4> = [c3 + c0, c3 - c0, c3 + c1, c3 - c1, c3 + c2, c3 - c2]
        .iter()
        .map(|v| {
            let len = v.truncate().length();
            if len > 0.0 { *v / len } else { *v }
        })
        .collect();
    let tests: Vec<PlaneTest> = planes
        .iter()
        .map(|p| {
            let n = p.truncate();
            let pick = |hi: bool, a: f32, b: f32| if hi { a } else { b };
            let far = Vec3::new(pick(n.x >= 0.0, max.x, min.x), pick(n.y >= 0.0, max.y, min.y), pick(n.z >= 0.0, max.z, min.z));
            let near = Vec3::new(pick(n.x >= 0.0, min.x, max.x), pick(n.y >= 0.0, min.y, max.y), pick(n.z >= 0.0, min.z, max.z));
            PlaneTest {
                far_vertex_behind: n.dot(far) + p.w < 0.0,
                near_vertex_behind: n.dot(near) + p.w < 0.0,
            }
        })
        .collect();
    classify(&tests)
}

#[test]
fn test_aabb_inside_frustum() {
    let vp = glam::camera::rh::proj::directx::orthographic(-10.0, 10.0, -10.0, 10.0, 0.1, 100.0);
    // AABB completely inside
    let inside = test_box(vp, Vec3::new(-5.0, -5.0, -50.0), Vec3::new(5.0, 5.0, -40.0));
    assert!(inside != Intersection::Outside);
    // AABB completely outside
    let outside = test_box(vp, Vec3::new(20.0, 20.0, -50.0), Vec3::new(30.0, 30.0, -40.0));
    assert!(outside == Intersection::Outside);
}
