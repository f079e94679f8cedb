//! Bookkeeping of the scene renderer: render options and regions, buffer growth,
//! uniform strides, line / point batching, draw ordering and read-back rows.
use vstd::prelude::*;

use crate::scene::Layer;
use vstd::arithmetic::power2::{lemma2_to64, lemma2_to64_rest, lemma_pow2_strictly_increases, lemma_pow2_unfold, pow2};

verus! {

/// How one render call uses the target.
#[derive(Debug, Clone, Copy, PartialEq, Eq)]
pub struct RenderOptions {
    /// Clear colour and depth to the scene background first. `false` draws over whatever
    /// is already in the target (a second scene composited on top).
    pub clear: bool,
    /// Restrict drawing to a pixel rectangle `[x, y, width, height]` of the target. The
    /// depth buffer inside the rectangle is reset, so the region behaves like a small
    /// independent viewport.
    pub region: Option<[u32; 4]>,
}

impl Default for RenderOptions {
    fn default() -> (r: Self)
        ensures
            r.clear,
            r.region is None,
    {
        RenderOptions { clear: true, region: None }
    }
}

/// The pixel rectangle a render covers: the requested region, or the whole target.
pub fn resolve_region(region: Option<[u32; 4]>, target_width: u32, target_height: u32) -> (r: [u32; 4])
    ensures
        r@ == match region {
            Some(q) => q@,
            None => seq![0u32, 0u32, target_width, target_height],
        },
{
    match region {
        Some(q) => q,
        None => {
            let r = [0, 0, target_width, target_height];
            assert(r@ =~= seq![0u32, 0u32, target_width, target_height]);
            r
        },
    }
}

/// A region's extent along one axis, cut to what remains of the target past the
/// region's origin and kept at least one pixel.
pub open spec fn clamp_extent(len: u32, origin: u32, total: u32) -> int {
    let avail: int = if total >= origin { total - origin } else { 0 };
    let cut: int = if len < avail { len as int } else { avail };
    if cut < 1 { 1 } else { cut }
}

fn clamp_extent_exec(len: u32, origin: u32, total: u32) -> (r: u32)
    ensures
        r == clamp_extent(len, origin, total),
{
    let avail = total.saturating_sub(origin);
    let cut = if len < avail { len } else { avail };
    if cut < 1 { 1 } else { cut }
}

/// The viewport / scissor rectangle for a region of a `target_width` x
/// `target_height` target.
pub fn clamp_region(region: [u32; 4], target_width: u32, target_height: u32) -> (r: [u32; 4])
    ensures
        r[0] == region[0],
        r[1] == region[1],
        r[2] == clamp_extent(region[2], region[0], target_width),
        r[3] == clamp_extent(region[3], region[1], target_height),
{
    let w = clamp_extent_exec(region[2], region[0], target_width);
    let h = clamp_extent_exec(region[3], region[1], target_height);
    [region[0], region[1], w, h]
}

/// Doubling `p` until it reaches `n`.
pub open spec fn double_until(p: nat, n: nat) -> nat
    decreases (if p >= n { 0 } else { n - p }),
{
    if p == 0 || p >= n {
        p
    } else {
        double_until(2 * p, n)
    }
}

/// The smallest power of two that is at least `n` (`1` for `0`).
pub open spec fn next_pow2(n: nat) -> nat {
    double_until(1, n)
}

/// `u64::next_power_of_two`.
pub fn next_power_of_two(n: u64) -> (r: u64)
    requires
        n <= 0x8000_0000_0000_0000,
    ensures
        r == next_pow2(n as nat),
        r >= n,
        exists|k: nat| r == pow2(k),
{
    let mut p: u64 = 1;
    let ghost mut k: nat = 0;
    proof {
        lemma2_to64();
        lemma2_to64_rest();
    }
    while p < n
        invariant
            1 <= p <= 0x8000_0000_0000_0000,
            p == pow2(k),
            k <= 63,
            n <= 0x8000_0000_0000_0000,
            pow2(63) == 0x8000_0000_0000_0000,
            double_until(p as nat, n as nat) == next_pow2(n as nat),
        decreases (if p >= n { 0 } else { n - p }),
    {
        proof {
            if k >= 63 {
                if k > 63 {
                    lemma_pow2_strictly_increases(63, k);
                }
                assert(false);
            }
            lemma_pow2_unfold(k + 1);
            if k + 1 < 63 {
                lemma_pow2_strictly_increases(k + 1, 63);
            }
        }
        p = p * 2;
        proof {
            k = k + 1;
        }
    }
    p
}

/// The capacity a growable GPU buffer is re-created with when `needed` bytes no
/// longer fit in `capacity`: the next power of two of `needed`, but at least double
/// the old capacity. `None` when the bytes fit and the buffer is kept.
pub fn grow_capacity(needed: u64, capacity: u64) -> (r: Option<u64>)
    requires
        needed <= 0x8000_0000_0000_0000,
        capacity <= 0x8000_0000_0000_0000,
    ensures
        r == (if needed > capacity {
            Some(
                if next_pow2(needed as nat) >= 2 * capacity {
                    next_pow2(needed as nat) as u64
                } else {
                    (2 * capacity) as u64
                },
            )
        } else {
            None
        }),
        r matches Some(c) ==> needed <= c && 2 * capacity <= c,
{
    if needed > capacity {
        let p = next_power_of_two(needed);
        let d = capacity * 2;
        Some(if p >= d { p } else { d })
    } else {
        None
    }
}

/// Size of one per-object uniform slot: `size` rounded up to the device's dynamic
/// offset alignment.
pub fn aligned_stride(size: u64, align: u64) -> (r: u64)
    requires
        align > 0,
        size + align <= u64::MAX,
    ensures
        r % align == 0,
        size <= r < size + align,
{
    let q = size / align + if size % align == 0 { 0 } else { 1 };
    proof {
        let sz = size as int;
        let al = align as int;
        let qq = q as int;
        vstd::arithmetic::div_mod::lemma_fundamental_div_mod(sz, al);
        assert(qq * al == al * (sz / al) + (if sz % al == 0 { 0 } else { al })) by (nonlinear_arith)
            requires
                qq == sz / al + (if sz % al == 0 { 0int } else { 1int }),
        ;
        vstd::arithmetic::div_mod::lemma_mod_multiples_basic(qq, al);
        assert(qq * al == al * qq) by (nonlinear_arith);
    }
    q * align
}


// ----- line / point batches -----------------------------------------------------

/// The vertex order in which a line set is drawn as a list of segments: a strip
/// through `n` vertices gives the pairs `(k, k + 1)`; independent segments use the
/// vertices in pairs, dropping an odd last one.
pub open spec fn segment_order(n: int, strip: bool) -> Seq<int> {
    if strip {
        if n >= 2 {
            Seq::new((2 * (n - 1)) as nat, |i: int| i / 2 + i % 2)
        } else {
            Seq::empty()
        }
    } else {
        Seq::new((n - n % 2) as nat, |i: int| i)
    }
}

/// Indices into a line set's `n` vertices, in the order they are drawn.
pub fn segment_vertex_order(n: usize, strip: bool) -> (r: Vec<usize>)
    requires
        2 * n <= usize::MAX,
    ensures
        r@.len() == segment_order(n as int, strip).len(),
        forall|i: int| 0 <= i < r@.len() ==> r@[i] as int == segment_order(n as int, strip)[i],
{
    let mut r: Vec<usize> = Vec::new();
    if strip {
        if n >= 2 {
            let mut k: usize = 0;
            while k + 1 < n
                invariant
                    0 <= k < n,
                    2 * n <= usize::MAX,
                    r@.len() == 2 * k,
                    forall|i: int| 0 <= i < r@.len() ==> r@[i] as int == i / 2 + i % 2,
                decreases n - k,
            {
                r.push(k);
                r.push(k + 1);
                proof {
                    assert forall|i: int| 0 <= i < r@.len() implies r@[i] as int == i / 2 + i % 2 by {
                        if i >= 2 * k {
                            assert(i == 2 * k || i == 2 * k + 1);
                            assert((2 * k) / 2 == k as int && (2 * k) % 2 == 0) by (nonlinear_arith);
                            assert((2 * k + 1) / 2 == k as int && (2 * k + 1) % 2 == 1) by (nonlinear_arith);
                        }
                    }
                }
                k += 1;
            }
        }
    } else {
        let m = n - n % 2;
        let mut i: usize = 0;
        while i < m
            invariant
                0 <= i <= m,
                m == n - n % 2,
                r@.len() == i,
                forall|j: int| 0 <= j < r@.len() ==> r@[j] as int == j,
            decreases m - i,
        {
            r.push(i);
            i += 1;
        }
    }
    r
}

/// One line or point batch as the renderer sees it.
#[derive(Debug, Clone, Copy, PartialEq, Eq)]
pub struct BatchInfo {
    /// Hidden batches are skipped.
    pub visible: bool,
    /// Drawn in the overlay pass (no depth test).
    pub overlay: bool,
    /// Number of vertices (or instances) it contributes.
    pub count: u32,
}

/// Indices `i` of `s` (in order) with `p(s[i])`.
pub open spec fn select<A>(s: Seq<A>, p: spec_fn(A) -> bool) -> Seq<int>
    decreases s.len(),
{
    if s.len() == 0 {
        Seq::empty()
    } else if p(s.last()) {
        select(s.drop_last(), p).push(s.len() - 1)
    } else {
        select(s.drop_last(), p)
    }
}

/// Sum of the counts of the batches at `idx`.
pub open spec fn batch_total(s: Seq<BatchInfo>, idx: Seq<int>) -> int
    decreases idx.len(),
{
    if idx.len() == 0 {
        0
    } else {
        batch_total(s, idx.drop_last()) + s[idx.last()].count
    }
}

/// Whether a batch is drawn in the scene pass (`overlay == false`) or the overlay pass.
pub open spec fn pass_of(overlay: bool) -> spec_fn(BatchInfo) -> bool {
    |b: BatchInfo| b.visible && b.overlay == overlay
}

/// The upload order of batches (visible scene-pass batches, then visible overlay
/// batches, each in their given order) and the vertex range each pass draws.
pub fn batch_order(batches: &Vec<BatchInfo>) -> (r: (Vec<usize>, [(u32, u32); 2]))
    requires
        batch_total(batches@, select(batches@, pass_of(false))) + batch_total(
            batches@,
            select(batches@, pass_of(true)),
        ) <= u32::MAX,
    ensures
        r.0@.map_values(|i: usize| i as int) == select(batches@, pass_of(false)) + select(
            batches@,
            pass_of(true),
        ),
        r.1[0].0 == 0,
        r.1[0].1 == batch_total(batches@, select(batches@, pass_of(false))),
        r.1[1].0 == r.1[0].1,
        r.1[1].1 == batch_total(batches@, select(batches@, pass_of(false))) + batch_total(
            batches@,
            select(batches@, pass_of(true)),
        ),
{
    proof {
        lemma_batch_total_nonneg(batches@, select(batches@, pass_of(false)));
        lemma_batch_total_nonneg(batches@, select(batches@, pass_of(true)));
    }
    let (scene, t0) = select_batches(batches, false);
    let (over, t1) = select_batches(batches, true);
    let mut order = scene;
    let ghost a = order@;
    let ghost b = over@;
    let mut over = over;
    order.append(&mut over);
    proof {
        assert(order@ =~= a + b);
        assert(order@.map_values(|i: usize| i as int) =~= a.map_values(|i: usize| i as int)
            + b.map_values(|i: usize| i as int));
    }
    (order, [(0, t0), (t0, t0 + t1)])
}

proof fn lemma_batch_total_nonneg(s: Seq<BatchInfo>, idx: Seq<int>)
    ensures
        batch_total(s, idx) >= 0,
    decreases idx.len(),
{
    if idx.len() > 0 {
        lemma_batch_total_nonneg(s, idx.drop_last());
    }
}

/// Visible batches of one pass, in order, and their total count.
fn select_batches(batches: &Vec<BatchInfo>, overlay: bool) -> (r: (Vec<usize>, u32))
    requires
        batch_total(batches@, select(batches@, pass_of(overlay))) <= u32::MAX,
    ensures
        r.0@.map_values(|i: usize| i as int) == select(batches@, pass_of(overlay)),
        r.1 == batch_total(batches@, select(batches@, pass_of(overlay))),
{
    let ghost p = pass_of(overlay);
    let mut out: Vec<usize> = Vec::new();
    let mut total: u128 = 0;
    let mut i: usize = 0;
    proof {
        assert(batches@.take(0) =~= Seq::<BatchInfo>::empty());
        assert(out@.map_values(|k: usize| k as int) =~= Seq::<int>::empty());
    }
    while i < batches.len()
        invariant
            0 <= i <= batches@.len(),
            p == pass_of(overlay),
            out@.map_values(|k: usize| k as int) == select(batches@.take(i as int), p),
            total == batch_total(batches@, select(batches@.take(i as int), p)),
            total <= i * 0x1_0000_0000,
        decreases batches@.len() - i,
    {
        proof {
            assert(batches@.take(i + 1).drop_last() =~= batches@.take(i as int));
            assert(batches@.take(i + 1).last() == batches@[i as int]);
        }
        let b = batches[i];
        if b.visible && b.overlay == overlay {
            let ghost o = out@;
            out.push(i);
            total = total + b.count as u128;
            proof {
                let sel = select(batches@.take(i as int), p);
                assert(sel.push(i as int).drop_last() =~= sel);
                assert(out@.map_values(|k: usize| k as int) =~= o.map_values(|k: usize| k as int).push(
                    i as int,
                ));
            }
        }
        i += 1;
    }
    proof {
        assert(batches@.take(i as int) =~= batches@);
    }
    (out, total as u32)
}


// ----- draw order ---------------------------------------------------------------

/// What the renderer needs to know of one visible object to order its draw.
#[derive(Debug, Clone, Copy, PartialEq, Eq)]
pub struct DrawInfo {
    pub layer: Layer,
    /// Its surface has alpha below one.
    pub transparent: bool,
}

pub open spec fn ground_opaque() -> spec_fn(DrawInfo) -> bool {
    |d: DrawInfo| d.layer == Layer::Ground && !d.transparent
}

pub open spec fn scene_opaque() -> spec_fn(DrawInfo) -> bool {
    |d: DrawInfo| d.layer == Layer::Scene && !d.transparent
}

pub open spec fn blended() -> spec_fn(DrawInfo) -> bool {
    |d: DrawInfo| d.layer != Layer::Overlay && d.transparent
}

pub open spec fn overlaid() -> spec_fn(DrawInfo) -> bool {
    |d: DrawInfo| d.layer == Layer::Overlay
}

/// Draws split into the renderer's passes, as indices into the visible objects.
#[derive(Debug)]
pub struct DrawGroups {
    /// Opaque depth-tested draws: the ground layer first, then the scene layer.
    pub opaque: Vec<usize>,
    /// Transparent draws outside the overlay (to be sorted back to front).
    pub blend: Vec<usize>,
    /// Overlay draws, without depth test.
    pub overlay: Vec<usize>,
}

/// Splits draws into passes, each keeping the given order.
pub fn draw_groups(draws: &Vec<DrawInfo>) -> (r: DrawGroups)
    ensures
        r.opaque@.map_values(|i: usize| i as int) == select(draws@, ground_opaque()) + select(
            draws@,
            scene_opaque(),
        ),
        r.blend@.map_values(|i: usize| i as int) == select(draws@, blended()),
        r.overlay@.map_values(|i: usize| i as int) == select(draws@, overlaid()),
{
    let mut ground: Vec<usize> = Vec::new();
    let mut scene: Vec<usize> = Vec::new();
    let mut blend: Vec<usize> = Vec::new();
    let mut overlay: Vec<usize> = Vec::new();
    let ghost iv = |k: usize| k as int;
    let mut i: usize = 0;
    proof {
        assert(draws@.take(0) =~= Seq::<DrawInfo>::empty());
        assert(ground@.map_values(iv) =~= Seq::<int>::empty());
        assert(scene@.map_values(iv) =~= Seq::<int>::empty());
        assert(blend@.map_values(iv) =~= Seq::<int>::empty());
        assert(overlay@.map_values(iv) =~= Seq::<int>::empty());
    }
    while i < draws.len()
        invariant
            0 <= i <= draws@.len(),
            iv == (|k: usize| k as int),
            ground@.map_values(iv) == select(draws@.take(i as int), ground_opaque()),
            scene@.map_values(iv) == select(draws@.take(i as int), scene_opaque()),
            blend@.map_values(iv) == select(draws@.take(i as int), blended()),
            overlay@.map_values(iv) == select(draws@.take(i as int), overlaid()),
        decreases draws@.len() - i,
    {
        proof {
            assert(draws@.take(i + 1).drop_last() =~= draws@.take(i as int));
            assert(draws@.take(i + 1).last() == draws@[i as int]);
        }
        let d = draws[i];
        let ghost (g0, s0, b0, o0) = (ground@, scene@, blend@, overlay@);
        if d.layer == Layer::Overlay {
            overlay.push(i);
            assert(overlay@.map_values(iv) =~= o0.map_values(iv).push(i as int));
        } else if d.transparent {
            blend.push(i);
            assert(blend@.map_values(iv) =~= b0.map_values(iv).push(i as int));
        } else if d.layer == Layer::Ground {
            ground.push(i);
            assert(ground@.map_values(iv) =~= g0.map_values(iv).push(i as int));
        } else {
            scene.push(i);
            assert(scene@.map_values(iv) =~= s0.map_values(iv).push(i as int));
        }
        i += 1;
    }
    proof {
        assert(draws@.take(i as int) =~= draws@);
    }
    let ghost (g1, s1) = (ground@, scene@);
    let mut opaque = ground;
    opaque.append(&mut scene);
    proof {
        assert(opaque@ =~= g1 + s1);
        assert(opaque@.map_values(iv) =~= g1.map_values(iv) + s1.map_values(iv));
    }
    DrawGroups { opaque, blend, overlay }
}

/// Every visible object is drawn in exactly one pass: the four passes' selections
/// together hold each index once.
pub proof fn lemma_draw_passes_partition(draws: Seq<DrawInfo>)
    ensures
        forall|d: DrawInfo|
            (if #[trigger] ground_opaque()(d) { 1int } else { 0 }) + (if scene_opaque()(d) { 1int } else { 0 }) + (
            if blended()(d) { 1int } else { 0 }) + (if overlaid()(d) { 1int } else { 0 }) == 1,
        select(draws, ground_opaque()).len() + select(draws, scene_opaque()).len() + select(
            draws,
            blended(),
        ).len() + select(draws, overlaid()).len() == draws.len(),
    decreases draws.len(),
{
    if draws.len() > 0 {
        lemma_draw_passes_partition(draws.drop_last());
    }
}

/// An index is selected exactly when it names an element satisfying the predicate.
pub proof fn lemma_select_contains<A>(s: Seq<A>, p: spec_fn(A) -> bool, i: int)
    ensures
        select(s, p).contains(i) <==> 0 <= i < s.len() && p(s[i]),
    decreases s.len(),
{
    if s.len() > 0 {
        lemma_select_contains(s.drop_last(), p, i);
        let t = select(s.drop_last(), p);
        if p(s.last()) {
            let u = t.push(s.len() - 1);
            if u.contains(i) {
                let k = choose|k: int| 0 <= k < u.len() && #[trigger] u[k] == i;
                if k < t.len() {
                    assert(t[k] == i);
                }
            }
            if t.contains(i) {
                let k = choose|k: int| 0 <= k < t.len() && #[trigger] t[k] == i;
                assert(u[k] == i);
            }
            if i == s.len() - 1 {
                assert(u[t.len() as int] == i);
            }
        }
    }
}

/// The passes by layer and transparency: the overlay pass holds exactly the
/// Overlay-layer draws, transparent or not; the opaque passes hold exactly the
/// opaque draws of the other layers, the ground layer's among the first and the
/// scene layer's among the second; the blended pass holds exactly the transparent
/// draws of the other layers.
pub proof fn lemma_draw_passes_by_layer(draws: Seq<DrawInfo>, i: int)
    ensures
        select(draws, overlaid()).contains(i) <==> 0 <= i < draws.len() && draws[i].layer
            == Layer::Overlay,
        select(draws, ground_opaque()).contains(i) <==> 0 <= i < draws.len() && draws[i].layer
            == Layer::Ground && !draws[i].transparent,
        select(draws, scene_opaque()).contains(i) <==> 0 <= i < draws.len() && draws[i].layer
            == Layer::Scene && !draws[i].transparent,
        (select(draws, ground_opaque()).contains(i) || select(draws, scene_opaque()).contains(i))
            <==> 0 <= i < draws.len() && draws[i].layer != Layer::Overlay && !draws[i].transparent,
        select(draws, blended()).contains(i) <==> 0 <= i < draws.len() && draws[i].layer
            != Layer::Overlay && draws[i].transparent,
{
    lemma_select_contains(draws, overlaid(), i);
    lemma_select_contains(draws, ground_opaque(), i);
    lemma_select_contains(draws, scene_opaque(), i);
    lemma_select_contains(draws, blended(), i);
}

// ----- read-back ----------------------------------------------------------------

/// Reads the constant `wgpu::COPY_BYTES_PER_ROW_ALIGNMENT`, the alignment wgpu
/// requires of `bytes_per_row` in texture-to-buffer copies; the claim is that it is
/// 256, as wgpu-types defines it.
#[verifier::external_body]
fn copy_bytes_per_row_alignment() -> (r: u32)
    ensures
        r == 256,
{
    wgpu::COPY_BYTES_PER_ROW_ALIGNMENT
}

/// Bytes per row of a read-back buffer for a `width`-pixel RGBA8 row: the
/// unpadded `4 * width`, rounded up to wgpu's row alignment.
pub fn padded_bytes_per_row(width: u32) -> (r: u32)
    requires
        4 * width + 256 <= u32::MAX,
    ensures
        r % 256 == 0,
        4 * width <= r < 4 * width + 256,
{
    let align = copy_bytes_per_row_alignment();
    aligned_stride((width * 4) as u64, align as u64) as u32
}

/// Tightly packed rows from a read-back buffer whose rows are `padded` bytes long
/// and start with `unpadded` bytes of pixels; a trailing partial row is dropped.
pub fn unpad_rows(data: &Vec<u8>, unpadded: usize, padded: usize) -> (r: Vec<u8>)
    requires
        0 < padded,
        unpadded <= padded,
    ensures
        r@.len() == (data@.len() as int / padded as int) * unpadded,
        forall|row: int, col: int|
            0 <= row < data@.len() as int / padded as int && 0 <= col < unpadded ==> #[trigger] r@[row
                * unpadded + col] == data@[row * padded + col],
{
    let n = data.len();
    let rows = n / padded;
    let mut out: Vec<u8> = Vec::new();
    let mut row: usize = 0;
    while row < rows
        invariant
            0 <= row <= rows,
            rows == data@.len() as int / padded as int,
            n == data@.len(),
            0 < padded,
            unpadded <= padded,
            out@.len() == row * unpadded,
            forall|rr: int, c: int|
                0 <= rr < row && 0 <= c < unpadded ==> #[trigger] out@[rr * unpadded + c]
                    == data@[rr * padded + c],
        decreases rows - row,
    {
        proof {
            assert(row * padded + padded <= rows * padded) by (nonlinear_arith)
                requires
                    row < rows,
                    0 < padded,
            ;
            assert(rows * padded <= data@.len()) by (nonlinear_arith)
                requires
                    rows == data@.len() as int / padded as int,
                    0 < padded,
            ;
        }
        let base = row * padded;
        let mut c: usize = 0;
        while c < unpadded
            invariant
                0 <= c <= unpadded,
                unpadded <= padded,
                base == row * padded,
                n == data@.len(),
                base + padded <= n,
                out@.len() == row * unpadded + c,
                forall|rr: int, cc: int|
                    0 <= rr < row && 0 <= cc < unpadded ==> #[trigger] out@[rr * unpadded + cc]
                        == data@[rr * padded + cc],
                forall|cc: int| 0 <= cc < c ==> out@[row * unpadded + cc] == #[trigger] data@[base + cc],
            decreases unpadded - c,
        {
            let ghost o = out@;
            out.push(data[base + c]);
            proof {
                assert forall|rr: int, cc: int|
                    0 <= rr < row && 0 <= cc < unpadded implies #[trigger] out@[rr * unpadded + cc]
                    == data@[rr * padded + cc] by {
                    assert(rr * unpadded + cc < row * unpadded) by (nonlinear_arith)
                        requires
                            rr < row,
                            cc < unpadded,
                    ;
                    assert(out@[rr * unpadded + cc] == o[rr * unpadded + cc]);
                }
            }
            c += 1;
        }
        proof {
            assert forall|rr: int, cc: int|
                0 <= rr < row + 1 && 0 <= cc < unpadded implies #[trigger] out@[rr * unpadded + cc]
                == data@[rr * padded + cc] by {
                if rr == row {
                    assert(out@[row * unpadded + cc] == data@[base + cc]);
                }
            }
            assert((row + 1) * unpadded == row * unpadded + unpadded) by (nonlinear_arith);
        }
        row += 1;
    }
    out
}

} // verus!
