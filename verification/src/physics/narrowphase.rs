//! Bookkeeping of the EPA polytope expansion: the faces a new support point
//! removes, the horizon edges they leave, and the faces that close the hole. Which
//! faces are degenerate or see the new point is decided by the caller's geometry.
use vstd::prelude::*;

verus! {

/// Edge `e` runs from `b` to `a`: the reverse of the edge `a`-`b`.
pub open spec fn reverses(e: [usize; 2], a: usize, b: usize) -> bool {
    e[0] == b && e[1] == a
}

/// The horizon edge list of the polytope expansion after adding the edge `a`-`b`: a
/// shared edge cancels, so the first stored reverse edge is swap-removed; otherwise
/// the edge is appended.
pub open spec fn with_edge(edges: Seq<[usize; 2]>, a: usize, b: usize) -> Seq<[usize; 2]> {
    if exists|i: int| 0 <= i < edges.len() && reverses(#[trigger] edges[i], a, b) {
        let p = choose|i: int|
            0 <= i < edges.len() && reverses(#[trigger] edges[i], a, b) && forall|j: int|
                0 <= j < i ==> !reverses(#[trigger] edges[j], a, b);
        edges.update(p, edges.last()).drop_last()
    } else {
        edges.push([a, b])
    }
}

proof fn lemma_with_edge_at(edges: Seq<[usize; 2]>, a: usize, b: usize, i: int)
    requires
        0 <= i < edges.len(),
        reverses(edges[i], a, b),
        forall|j: int| 0 <= j < i ==> !reverses(#[trigger] edges[j], a, b),
    ensures
        with_edge(edges, a, b) == edges.update(i, edges.last()).drop_last(),
{
    let p = choose|k: int|
        0 <= k < edges.len() && reverses(#[trigger] edges[k], a, b) && forall|j: int|
            0 <= j < k ==> !reverses(#[trigger] edges[j], a, b);
    assert(0 <= p < edges.len() && reverses(edges[p], a, b));
    if p < i {
        assert(!reverses(edges[p], a, b));
    } else if p > i {
        assert(!reverses(edges[i], a, b));
    }
}

/// Adds an edge to the horizon edge list, cancelling it against its reverse.
pub fn add_edge(edges: &mut Vec<[usize; 2]>, a: usize, b: usize)
    ensures
        final(edges)@ == with_edge(old(edges)@, a, b),
{
    let ghost s = edges@;
    let n = edges.len();
    let mut i: usize = 0;
    while i < n && !(edges[i][0] == b && edges[i][1] == a)
        invariant
            edges@ == s,
            n == s.len(),
            0 <= i <= n,
            forall|j: int| 0 <= j < i ==> !reverses(#[trigger] s[j], a, b),
        decreases n - i,
    {
        i += 1;
    }
    if i < n {
        proof {
            lemma_with_edge_at(s, a, b, i as int);
        }
        edges.swap_remove(i);
    } else {
        edges.push([a, b]);
    }
}

/// An edge added in one direction and then in the other cancels out, when neither
/// direction was in the list before.
pub proof fn lemma_edge_cancels(edges: Seq<[usize; 2]>, a: usize, b: usize)
    requires
        forall|i: int|
            0 <= i < edges.len() ==> !reverses(#[trigger] edges[i], a, b) && !reverses(
                edges[i],
                b,
                a,
            ),
    ensures
        with_edge(with_edge(edges, a, b), b, a) == edges,
{
    let s1 = edges.push([a, b]);
    assert(with_edge(edges, a, b) == s1);
    let n = edges.len() as int;
    assert(reverses(s1[n], b, a));
    let p = choose|i: int|
        0 <= i < s1.len() && reverses(#[trigger] s1[i], b, a) && forall|j: int|
            0 <= j < i ==> !reverses(#[trigger] s1[j], b, a);
    if p < n {
        assert(s1[p] == edges[p]);
    }
    assert(s1.update(n, s1.last()).drop_last() =~= edges);
}


/// What the expansion does with a face of the polytope.
#[derive(Debug, Clone, Copy, PartialEq, Eq, Structural)]
pub enum FaceFate {
    /// Its normal vanishes: it is dropped.
    Degenerate,
    /// It sees the new point: it is dropped and its edges go to the horizon.
    Visible,
    /// It stays.
    Hidden,
}

/// `s` with element `i` replaced by the last one, and the last one dropped
/// (`Vec::swap_remove`).
pub open spec fn swap_removed<A>(s: Seq<A>, i: int) -> Seq<A> {
    s.update(i, s.last()).drop_last()
}

/// The horizon after adding the three edges of face `f`.
pub open spec fn with_face_edges(edges: Seq<[usize; 2]>, f: [usize; 3]) -> Seq<[usize; 2]> {
    with_edge(with_edge(with_edge(edges, f[0], f[1]), f[1], f[2]), f[2], f[0])
}

/// The sweep over the faces (each with its fate) from position `i` on: hidden faces
/// are passed over, the others swap-removed in place, visible ones adding their
/// edges to the horizon. Gives the remaining faces and the horizon.
pub open spec fn sweep(faces: Seq<([usize; 3], FaceFate)>, edges: Seq<[usize; 2]>, i: int) -> (
    Seq<([usize; 3], FaceFate)>,
    Seq<[usize; 2]>,
)
    decreases faces.len() - i,
{
    if i < 0 || i >= faces.len() {
        (faces, edges)
    } else {
        match faces[i].1 {
            FaceFate::Hidden => sweep(faces, edges, i + 1),
            FaceFate::Degenerate => sweep(swap_removed(faces, i), edges, i),
            FaceFate::Visible => sweep(swap_removed(faces, i), with_face_edges(edges, faces[i].0), i),
        }
    }
}

/// Each face with its fate.
pub open spec fn zip_faces(faces: Seq<[usize; 3]>, fates: Seq<FaceFate>) -> Seq<
    ([usize; 3], FaceFate),
> {
    Seq::new(faces.len(), |k: int| (faces[k], fates[k]))
}

/// A face joining a horizon edge to the new point.
pub open spec fn cap_face(e: [usize; 2], new_idx: usize) -> [usize; 3] {
    [e[0], e[1], new_idx]
}

/// The polytope's faces after the expansion: the remaining faces, then one face per
/// horizon edge to the new point `new_idx`.
pub open spec fn expanded(faces: Seq<[usize; 3]>, fates: Seq<FaceFate>, new_idx: usize) -> Seq<
    [usize; 3],
> {
    let (kept, edges) = sweep(zip_faces(faces, fates), seq![], 0);
    kept.map_values(|p: ([usize; 3], FaceFate)| p.0) + edges.map_values(
        |e: [usize; 2]| cap_face(e, new_idx),
    )
}

/// Expands the polytope's faces towards the new point `new_idx`, given each face's
/// fate.
pub fn expand_polytope(faces: &mut Vec<[usize; 3]>, fates: Vec<FaceFate>, new_idx: usize)
    requires
        old(faces)@.len() == fates@.len(),
    ensures
        final(faces)@ == expanded(old(faces)@, fates@, new_idx),
{
    let ghost z0 = zip_faces(faces@, fates@);
    let mut fates = fates;
    let mut edges: Vec<[usize; 2]> = Vec::new();
    let mut i: usize = 0;
    proof {
        assert(edges@ =~= seq![]);
    }
    while i < faces.len()
        invariant
            faces@.len() == fates@.len(),
            0 <= i <= faces@.len(),
            sweep(zip_faces(faces@, fates@), edges@, i as int) == sweep(z0, seq![], 0),
        decreases faces@.len() - i,
    {
        let ghost z = zip_faces(faces@, fates@);
        let face = faces[i];
        proof {
            assert(z[i as int] == (face, fates@[i as int]));
        }
        match fates[i] {
            FaceFate::Hidden => {
                i += 1;
            },
            FaceFate::Degenerate => {
                faces.swap_remove(i);
                fates.swap_remove(i);
                proof {
                    assert(zip_faces(faces@, fates@) =~= swap_removed(z, i as int));
                }
            },
            FaceFate::Visible => {
                add_edge(&mut edges, face[0], face[1]);
                add_edge(&mut edges, face[1], face[2]);
                add_edge(&mut edges, face[2], face[0]);
                faces.swap_remove(i);
                fates.swap_remove(i);
                proof {
                    assert(zip_faces(faces@, fates@) =~= swap_removed(z, i as int));
                }
            },
        }
    }
    let ghost kept = zip_faces(faces@, fates@);
    let ghost horizon = edges@;
    let ghost first = |p: ([usize; 3], FaceFate)| p.0;
    let ghost capf = |e: [usize; 2]| cap_face(e, new_idx);
    proof {
        assert(faces@ =~= kept.map_values(first));
        assert(horizon.take(0).map_values(capf) =~= seq![]);
    }
    let mut k: usize = 0;
    while k < edges.len()
        invariant
            edges@ == horizon,
            0 <= k <= horizon.len(),
            first == (|p: ([usize; 3], FaceFate)| p.0),
            capf == (|e: [usize; 2]| cap_face(e, new_idx)),
            faces@ == kept.map_values(first) + horizon.take(k as int).map_values(capf),
        decreases horizon.len() - k,
    {
        let e = edges[k];
        faces.push([e[0], e[1], new_idx]);
        proof {
            assert(horizon.take(k + 1).map_values(capf) =~= horizon.take(k as int).map_values(
                capf,
            ).push(cap_face(e, new_idx)));
            assert([e[0], e[1], new_idx] =~= cap_face(e, new_idx));
        }
        k += 1;
    }
    proof {
        assert(horizon.take(k as int) =~= horizon);
    }
}

proof fn lemma_swap_removed_multiset<A>(s: Seq<A>, i: int)
    requires
        0 <= i < s.len(),
    ensures
        swap_removed(s, i).to_multiset() =~= s.to_multiset().remove(s[i]),
{
    broadcast use vstd::multiset::group_multiset_axioms;

    let t = s.update(i, s.last());
    vstd::seq_lib::to_multiset_update(s, i, s.last());
    assert(t.last() == s.last());
    assert(t =~= t.drop_last().push(t.last()));
    vstd::seq_lib::to_multiset_build(t.drop_last(), t.last());
    assert(t.drop_last().to_multiset() =~= t.to_multiset().remove(s.last()));
}

/// Once the faces before position `i` are hidden, the sweep keeps exactly the hidden
/// faces, each as often as it occurs, and drops every other face.
pub proof fn lemma_sweep_keeps_hidden(
    faces: Seq<([usize; 3], FaceFate)>,
    edges: Seq<[usize; 2]>,
    i: int,
)
    requires
        0 <= i <= faces.len(),
        forall|k: int| 0 <= k < i ==> (#[trigger] faces[k]).1 == FaceFate::Hidden,
    ensures
        sweep(faces, edges, i).0.to_multiset() =~= faces.to_multiset().filter(
            |p: ([usize; 3], FaceFate)| p.1 == FaceFate::Hidden,
        ),
        forall|k: int|
            0 <= k < sweep(faces, edges, i).0.len() ==> (#[trigger] sweep(faces, edges, i).0[k]).1
                == FaceFate::Hidden,
    decreases faces.len() - i,
{
    broadcast use vstd::multiset::group_multiset_axioms;

    let hidden = |p: ([usize; 3], FaceFate)| p.1 == FaceFate::Hidden;
    if i >= faces.len() {
        assert forall|p: ([usize; 3], FaceFate)| #[trigger]
            faces.to_multiset().count(p) == faces.to_multiset().filter(hidden).count(p) by {
            vstd::seq_lib::to_multiset_contains(faces, p);
            if faces.contains(p) {
                let k = choose|k: int| 0 <= k < faces.len() && faces[k] == p;
                assert(faces[k].1 == FaceFate::Hidden);
            }
        }
    } else {
        match faces[i].1 {
            FaceFate::Hidden => {
                lemma_sweep_keeps_hidden(faces, edges, i + 1);
            },
            _ => {
                let s2 = swap_removed(faces, i);
                let e2 = if faces[i].1 == FaceFate::Visible {
                    with_face_edges(edges, faces[i].0)
                } else {
                    edges
                };
                assert forall|k: int| 0 <= k < i implies (#[trigger] s2[k]).1 == FaceFate::Hidden by {
                    assert(s2[k] == faces[k]);
                }
                lemma_sweep_keeps_hidden(s2, e2, i);
                lemma_swap_removed_multiset(faces, i);
                assert(s2.to_multiset().filter(hidden) =~= faces.to_multiset().filter(hidden));
            },
        }
    }
}

/// The expansion keeps exactly the faces that do not see the new point and are not
/// degenerate.
pub proof fn lemma_expansion_keeps_hidden_faces(faces: Seq<[usize; 3]>, fates: Seq<FaceFate>)
    requires
        faces.len() == fates.len(),
    ensures
        sweep(zip_faces(faces, fates), seq![], 0).0.to_multiset() =~= zip_faces(
            faces,
            fates,
        ).to_multiset().filter(|p: ([usize; 3], FaceFate)| p.1 == FaceFate::Hidden),
{
    lemma_sweep_keeps_hidden(zip_faces(faces, fates), seq![], 0);
}

} // verus!
