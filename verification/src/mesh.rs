//! Index lists of the generated meshes (boxes, UV spheres, cylinders, cones,
//! capsules, terrain grids) and the index bookkeeping of mesh concatenation.
//! Every generator names only vertices the matching vertex layout creates.
use vstd::prelude::*;

verus! {

/// Two triangles over the quad whose first corner is `a`, the next corner along
/// the row `a + 1`, and the corners one row further `a + stride`, `a + stride + 1`.
pub open spec fn grid_quad(a: int, stride: int) -> Seq<int> {
    seq![a, a + stride, a + 1, a + 1, a + stride, a + stride + 1]
}

/// Quads `0 .. cols` of row `row` of a grid with `stride` vertices per row.
pub open spec fn grid_row(row: int, cols: nat, stride: int) -> Seq<int>
    decreases cols,
{
    if cols == 0 {
        Seq::empty()
    } else {
        grid_row(row, (cols - 1) as nat, stride) + grid_quad(row * stride + cols - 1, stride)
    }
}

/// Rows `0 .. rows` of quads of a grid.
pub open spec fn grid_rows(rows: nat, cols: nat, stride: int) -> Seq<int>
    decreases rows,
{
    if rows == 0 {
        Seq::empty()
    } else {
        grid_rows((rows - 1) as nat, cols, stride) + grid_row(rows - 1, cols, stride)
    }
}

proof fn lemma_grid_row_len(row: int, cols: nat, stride: int)
    ensures
        grid_row(row, cols, stride).len() == 6 * cols,
    decreases cols,
{
    if cols > 0 {
        lemma_grid_row_len(row, (cols - 1) as nat, stride);
    }
}

proof fn lemma_grid_rows_len(rows: nat, cols: nat, stride: int)
    ensures
        grid_rows(rows, cols, stride).len() == 6 * rows * cols,
    decreases rows,
{
    if rows > 0 {
        lemma_grid_rows_len((rows - 1) as nat, cols, stride);
        lemma_grid_row_len(rows - 1, cols, stride);
        let pr = (rows - 1) as nat;
        assert(grid_rows(rows, cols, stride) == grid_rows(pr, cols, stride) + grid_row(
            rows - 1,
            cols,
            stride,
        ));
        assert(6 * pr * cols + 6 * cols == 6 * rows * cols) by (nonlinear_arith)
            requires
                pr + 1 == rows,
        ;
    } else {
        assert(6 * rows * cols == 0) by (nonlinear_arith)
            requires
                rows == 0,
        ;
    }
}

proof fn lemma_grid_row_bound(row: int, cols: nat, stride: int)
    requires
        0 <= row,
        cols < stride,
    ensures
        forall|k: int|
            0 <= k < grid_row(row, cols, stride).len() ==> row * stride <= #[trigger] grid_row(
                row,
                cols,
                stride,
            )[k] < (row + 2) * stride,
    decreases cols,
{
    if cols > 0 {
        lemma_grid_row_bound(row, (cols - 1) as nat, stride);
        lemma_grid_row_len(row, (cols - 1) as nat, stride);
        let prev = grid_row(row, (cols - 1) as nat, stride);
        let q = grid_quad(row * stride + cols - 1, stride);
        assert((row + 2) * stride == row * stride + 2 * stride) by (nonlinear_arith);
        assert forall|k: int| 0 <= k < prev.len() + q.len() implies row * stride <= #[trigger] (
        prev + q)[k] < (row + 2) * stride by {
            if k >= prev.len() {
                assert((prev + q)[k] == q[k - prev.len()]);
            }
        }
    }
}

proof fn lemma_grid_rows_bound(rows: nat, cols: nat, stride: int)
    requires
        cols < stride,
    ensures
        forall|k: int|
            0 <= k < grid_rows(rows, cols, stride).len() ==> 0 <= #[trigger] grid_rows(
                rows,
                cols,
                stride,
            )[k] < (rows + 1) * stride,
    decreases rows,
{
    if rows > 0 {
        lemma_grid_rows_bound((rows - 1) as nat, cols, stride);
        lemma_grid_row_bound(rows - 1, cols, stride);
        let prev = grid_rows((rows - 1) as nat, cols, stride);
        let r = grid_row(rows - 1, cols, stride);
        assert((rows - 1) * stride >= 0) by (nonlinear_arith)
            requires
                rows >= 1,
                stride > 0,
        ;
        assert((rows - 1 + 2) * stride == (rows + 1) * stride);
        assert(rows * stride <= (rows + 1) * stride) by (nonlinear_arith)
            requires
                stride > 0,
        ;
        assert forall|k: int| 0 <= k < prev.len() + r.len() implies 0 <= #[trigger] (prev + r)[k]
            < (rows + 1) * stride by {
            if k >= prev.len() {
                assert((prev + r)[k] == r[k - prev.len()]);
            }
        }
    }
}

/// Triangle indices of a `rows` x `cols` grid of quads over a vertex grid with
/// `stride` vertices per row (UV spheres, terrain): quad `(r, c)` starts at vertex
/// `r * stride + c`.
pub fn grid_indices(rows: u32, cols: u32, stride: u32) -> (r: Vec<u32>)
    requires
        cols < stride,
        (rows + 1) * stride <= u32::MAX,
    ensures
        r@.map_values(|i: u32| i as int) == grid_rows(rows as nat, cols as nat, stride as int),
        r@.len() == 6 * rows * cols,
        forall|k: int| 0 <= k < r@.len() ==> (#[trigger] r@[k] as int) < (rows + 1) * stride,
{
    let ghost iv = |i: u32| i as int;
    let mut out: Vec<u32> = Vec::new();
    let mut row: u32 = 0;
    proof {
        assert(out@.map_values(iv) =~= Seq::<int>::empty());
    }
    while row < rows
        invariant
            0 <= row <= rows,
            cols < stride,
            (rows + 1) * stride <= u32::MAX,
            iv == (|i: u32| i as int),
            out@.map_values(iv) == grid_rows(row as nat, cols as nat, stride as int),
        decreases rows - row,
    {
        let mut col: u32 = 0;
        proof {
            assert(grid_rows(row as nat, cols as nat, stride as int) + grid_row(
                row as int,
                0,
                stride as int,
            ) =~= grid_rows(row as nat, cols as nat, stride as int));
        }
        while col < cols
            invariant
                0 <= row < rows,
                0 <= col <= cols,
                cols < stride,
                (rows + 1) * stride <= u32::MAX,
                iv == (|i: u32| i as int),
                out@.map_values(iv) == grid_rows(row as nat, cols as nat, stride as int) + grid_row(
                    row as int,
                    col as nat,
                    stride as int,
                ),
            decreases cols - col,
        {
            proof {
                assert((row + 2) * stride <= (rows + 1) * stride) by (nonlinear_arith)
                    requires
                        row < rows,
                ;
                assert(row * stride + col + stride + 1 <= (row + 2) * stride) by (nonlinear_arith)
                    requires
                        col < cols,
                        cols < stride,
                ;
            }
            let a = row * stride + col;
            let b = a + stride;
            let ghost o = out@;
            out.push(a);
            out.push(b);
            out.push(a + 1);
            out.push(a + 1);
            out.push(b);
            out.push(b + 1);
            proof {
                assert(out@.map_values(iv) =~= o.map_values(iv) + grid_quad(a as int, stride as int));
            }
            col += 1;
        }
        row += 1;
    }
    proof {
        lemma_grid_rows_len(rows as nat, cols as nat, stride as int);
        lemma_grid_rows_bound(rows as nat, cols as nat, stride as int);
        assert forall|k: int| 0 <= k < out@.len() implies (#[trigger] out@[k] as int) < (rows + 1)
            * stride by {
            assert(out@.map_values(iv)[k] == out@[k] as int);
        }
    }
    out
}


/// Quads of `faces` box faces laid out four vertices per face: face `f` uses
/// vertices `4f .. 4f + 4` as two triangles `(0, 1, 2)`, `(0, 2, 3)`.
pub open spec fn face_quads(faces: nat) -> Seq<int>
    decreases faces,
{
    if faces == 0 {
        Seq::empty()
    } else {
        let b = 4 * (faces - 1);
        face_quads((faces - 1) as nat) + seq![b, b + 1, b + 2, b, b + 2, b + 3]
    }
}

proof fn lemma_face_quads(faces: nat)
    ensures
        face_quads(faces).len() == 6 * faces,
        forall|k: int|
            0 <= k < face_quads(faces).len() ==> 0 <= #[trigger] face_quads(faces)[k] < 4 * faces,
    decreases faces,
{
    if faces > 0 {
        lemma_face_quads((faces - 1) as nat);
        let p = face_quads((faces - 1) as nat);
        let b = 4 * (faces - 1);
        let q = seq![b, b + 1, b + 2, b, b + 2, b + 3];
        assert forall|k: int| 0 <= k < p.len() + q.len() implies 0 <= #[trigger] (p + q)[k] < 4
            * faces by {
            if k >= p.len() {
                assert((p + q)[k] == q[k - p.len()]);
            }
        }
    }
}

/// Triangle indices of `faces` quads laid out four vertices each (the box faces).
pub fn quad_face_indices(faces: u32) -> (r: Vec<u32>)
    requires
        4 * faces <= u32::MAX,
    ensures
        r@.map_values(|i: u32| i as int) == face_quads(faces as nat),
        r@.len() == 6 * faces,
        forall|k: int| 0 <= k < r@.len() ==> (#[trigger] r@[k] as int) < 4 * faces,
{
    let ghost iv = |i: u32| i as int;
    let mut out: Vec<u32> = Vec::new();
    let mut f: u32 = 0;
    proof {
        assert(out@.map_values(iv) =~= Seq::<int>::empty());
    }
    while f < faces
        invariant
            0 <= f <= faces,
            4 * faces <= u32::MAX,
            iv == (|i: u32| i as int),
            out@.map_values(iv) == face_quads(f as nat),
        decreases faces - f,
    {
        let b = f * 4;
        let ghost o = out@;
        out.push(b);
        out.push(b + 1);
        out.push(b + 2);
        out.push(b);
        out.push(b + 2);
        out.push(b + 3);
        proof {
            assert(out@.map_values(iv) =~= o.map_values(iv) + seq![
                b as int,
                b + 1,
                b + 2,
                b as int,
                b + 2,
                b + 3,
            ]);
        }
        f += 1;
    }
    proof {
        lemma_face_quads(faces as nat);
        assert forall|k: int| 0 <= k < out@.len() implies (#[trigger] out@[k] as int) < 4 * faces by {
            assert(out@.map_values(iv)[k] == out@[k] as int);
        }
    }
    out
}

/// The side of a cylinder / cone from vertex `base` on: `segments + 1` pairs
/// (bottom, top) around the axis, two triangles per segment.
pub open spec fn side_quads(base: int, segments: nat) -> Seq<int>
    decreases segments,
{
    if segments == 0 {
        Seq::empty()
    } else {
        let a = base + 2 * (segments - 1);
        side_quads(base, (segments - 1) as nat) + seq![a, a + 2, a + 1, a + 1, a + 2, a + 3]
    }
}

proof fn lemma_side_quads(base: int, segments: nat)
    requires
        base >= 0,
    ensures
        side_quads(base, segments).len() == 6 * segments,
        forall|k: int|
            0 <= k < side_quads(base, segments).len() ==> base <= #[trigger] side_quads(
                base,
                segments,
            )[k] < base + 2 * segments + 2,
    decreases segments,
{
    if segments > 0 {
        lemma_side_quads(base, (segments - 1) as nat);
        let p = side_quads(base, (segments - 1) as nat);
        let a = base + 2 * (segments - 1);
        let q = seq![a, a + 2, a + 1, a + 1, a + 2, a + 3];
        assert forall|k: int| 0 <= k < p.len() + q.len() implies base <= #[trigger] (p + q)[k]
            < base + 2 * segments + 2 by {
            if k >= p.len() {
                assert((p + q)[k] == q[k - p.len()]);
            }
        }
    }
}

/// Triangle indices of the side of a cylinder, cone or truncated cone whose
/// `2 * (segments + 1)` side vertices start at `base`.
pub fn side_indices(base: u32, segments: u32) -> (r: Vec<u32>)
    requires
        base + 2 * segments + 2 <= u32::MAX,
    ensures
        r@.map_values(|i: u32| i as int) == side_quads(base as int, segments as nat),
        r@.len() == 6 * segments,
        forall|k: int|
            0 <= k < r@.len() ==> base <= (#[trigger] r@[k] as int) < base + 2 * segments + 2,
{
    let ghost iv = |i: u32| i as int;
    let mut out: Vec<u32> = Vec::new();
    let mut s: u32 = 0;
    proof {
        assert(out@.map_values(iv) =~= Seq::<int>::empty());
    }
    while s < segments
        invariant
            0 <= s <= segments,
            base + 2 * segments + 2 <= u32::MAX,
            iv == (|i: u32| i as int),
            out@.map_values(iv) == side_quads(base as int, s as nat),
        decreases segments - s,
    {
        let a = base + s * 2;
        let ghost o = out@;
        out.push(a);
        out.push(a + 2);
        out.push(a + 1);
        out.push(a + 1);
        out.push(a + 2);
        out.push(a + 3);
        proof {
            assert(out@.map_values(iv) =~= o.map_values(iv) + seq![
                a as int,
                a + 2,
                a + 1,
                a + 1,
                a + 2,
                a + 3,
            ]);
        }
        s += 1;
    }
    proof {
        lemma_side_quads(base as int, segments as nat);
        assert forall|k: int| 0 <= k < out@.len() implies base <= (#[trigger] out@[k] as int) < base
            + 2 * segments + 2 by {
            assert(out@.map_values(iv)[k] == out@[k] as int);
        }
    }
    out
}

/// A cap: the centre vertex `centre` followed by `segments + 1` rim vertices; each
/// triangle is wound counter-clockwise seen from the side the cap faces.
pub open spec fn cap_fan(centre: int, segments: nat, facing_up: bool) -> Seq<int>
    decreases segments,
{
    if segments == 0 {
        Seq::empty()
    } else {
        let a = centre + 1 + (segments - 1);
        cap_fan(centre, (segments - 1) as nat, facing_up) + if facing_up {
            seq![centre, a, a + 1]
        } else {
            seq![centre, a + 1, a]
        }
    }
}

proof fn lemma_cap_fan(centre: int, segments: nat, facing_up: bool)
    requires
        centre >= 0,
    ensures
        cap_fan(centre, segments, facing_up).len() == 3 * segments,
        forall|k: int|
            0 <= k < cap_fan(centre, segments, facing_up).len() ==> centre <= #[trigger] cap_fan(
                centre,
                segments,
                facing_up,
            )[k] < centre + segments + 2,
    decreases segments,
{
    if segments > 0 {
        lemma_cap_fan(centre, (segments - 1) as nat, facing_up);
        let p = cap_fan(centre, (segments - 1) as nat, facing_up);
        let a = centre + 1 + (segments - 1);
        let q = if facing_up {
            seq![centre, a, a + 1]
        } else {
            seq![centre, a + 1, a]
        };
        assert forall|k: int| 0 <= k < p.len() + q.len() implies centre <= #[trigger] (p + q)[k]
            < centre + segments + 2 by {
            if k >= p.len() {
                assert((p + q)[k] == q[k - p.len()]);
            }
        }
    }
}

/// Triangle indices of a flat cap around vertex `centre`.
pub fn cap_indices(centre: u32, segments: u32, facing_up: bool) -> (r: Vec<u32>)
    requires
        centre + segments + 2 <= u32::MAX,
    ensures
        r@.map_values(|i: u32| i as int) == cap_fan(centre as int, segments as nat, facing_up),
        r@.len() == 3 * segments,
        forall|k: int|
            0 <= k < r@.len() ==> centre <= (#[trigger] r@[k] as int) < centre + segments + 2,
{
    let ghost iv = |i: u32| i as int;
    let mut out: Vec<u32> = Vec::new();
    let mut s: u32 = 0;
    proof {
        assert(out@.map_values(iv) =~= Seq::<int>::empty());
    }
    while s < segments
        invariant
            0 <= s <= segments,
            centre + segments + 2 <= u32::MAX,
            iv == (|i: u32| i as int),
            out@.map_values(iv) == cap_fan(centre as int, s as nat, facing_up),
        decreases segments - s,
    {
        let a = centre + 1 + s;
        let ghost o = out@;
        out.push(centre);
        if facing_up {
            out.push(a);
            out.push(a + 1);
            proof {
                assert(out@.map_values(iv) =~= o.map_values(iv) + seq![
                    centre as int,
                    a as int,
                    a + 1,
                ]);
            }
        } else {
            out.push(a + 1);
            out.push(a);
            proof {
                assert(out@.map_values(iv) =~= o.map_values(iv) + seq![
                    centre as int,
                    a + 1,
                    a as int,
                ]);
            }
        }
        s += 1;
    }
    proof {
        lemma_cap_fan(centre as int, segments as nat, facing_up);
        assert forall|k: int| 0 <= k < out@.len() implies centre <= (#[trigger] out@[k] as int)
            < centre + segments + 2 by {
            assert(out@.map_values(iv)[k] == out@[k] as int);
        }
    }
    out
}

/// Indices of a mesh appended after `base` existing vertices.
pub fn rebase_indices(indices: &Vec<u32>, base: u32) -> (r: Vec<u32>)
    requires
        forall|k: int| 0 <= k < indices@.len() ==> indices@[k] + base <= u32::MAX,
    ensures
        r@.len() == indices@.len(),
        forall|k: int| 0 <= k < r@.len() ==> #[trigger] r@[k] == indices@[k] + base,
{
    let mut out: Vec<u32> = Vec::new();
    let mut i: usize = 0;
    while i < indices.len()
        invariant
            0 <= i <= indices@.len(),
            forall|k: int| 0 <= k < indices@.len() ==> indices@[k] + base <= u32::MAX,
            out@.len() == i,
            forall|k: int| 0 <= k < i ==> #[trigger] out@[k] == indices@[k] + base,
        decreases indices@.len() - i,
    {
        out.push(indices[i] + base);
        i += 1;
    }
    out
}

/// The indices below `bound`, in order (dropping triangles' corners past it, as the
/// capsule does when it removes the cylinder caps).
pub fn indices_below(indices: &Vec<u32>, bound: u32) -> (r: Vec<u32>)
    ensures
        r@ == indices@.filter(|i: u32| i < bound),
{
    let mut out: Vec<u32> = Vec::new();
    let mut i: usize = 0;
    proof {
        assert(indices@.take(0) =~= Seq::<u32>::empty());
        reveal_with_fuel(Seq::<_>::filter, 1);
    }
    while i < indices.len()
        invariant
            0 <= i <= indices@.len(),
            out@ == indices@.take(i as int).filter(|i: u32| i < bound),
        decreases indices@.len() - i,
    {
        proof {
            reveal_with_fuel(Seq::<_>::filter, 1);
            assert(indices@.take(i + 1).drop_last() =~= indices@.take(i as int));
        }
        if indices[i] < bound {
            out.push(indices[i]);
        }
        i += 1;
    }
    proof {
        assert(indices@.take(i as int) =~= indices@);
    }
    out
}

/// UV-sphere resolution after clamping: at least 3 segments and 2 rings.
pub fn sphere_resolution(segments: u32, rings: u32) -> (r: (u32, u32))
    ensures
        r.0 == (if segments < 3 { 3 } else { segments }),
        r.1 == (if rings < 2 { 2 } else { rings }),
{
    (if segments < 3 { 3 } else { segments }, if rings < 2 { 2 } else { rings })
}

/// Number of side vertices of a cylinder of `segments` segments (clamped to at least
/// three): a bottom / top pair per rim point, the seam point twice.
pub fn cylinder_side_vertex_count(segments: u32) -> (r: u32)
    requires
        segments < u32::MAX / 2 - 1,
    ensures
        r == 2 * ((if segments < 3 { 3 } else { segments }) + 1),
{
    let s = if segments < 3 { 3 } else { segments };
    (s + 1) * 2
}

} // verus!
