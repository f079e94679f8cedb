use rein::render::{
    aligned_stride, batch_order, clamp_region, draw_groups, grow_capacity, next_power_of_two,
    padded_bytes_per_row, resolve_region, segment_vertex_order, unpad_rows, BatchInfo, DrawInfo,
    RenderOptions,
};
use rein::scene::Layer;

#[test]
fn options_and_regions() {
    let o = RenderOptions::default();
    assert!(o.clear);
    assert_eq!(o.region, None);
    assert_eq!(resolve_region(None, 800, 600), [0, 0, 800, 600]);
    assert_eq!(resolve_region(Some([10, 20, 30, 40]), 800, 600), [10, 20, 30, 40]);
    assert_eq!(clamp_region([700, 500, 300, 300], 800, 600), [700, 500, 100, 100]);
    assert_eq!(clamp_region([900, 0, 10, 0], 800, 600), [900, 0, 1, 1]);
    assert_eq!(clamp_region([0, 0, 50, 60], 800, 600), [0, 0, 50, 60]);
}

#[test]
fn buffer_growth_and_strides() {
    assert_eq!(next_power_of_two(0), 1);
    assert_eq!(next_power_of_two(1), 1);
    assert_eq!(next_power_of_two(5), 8);
    assert_eq!(next_power_of_two(1024), 1024);
    assert_eq!(next_power_of_two(1025), 2048);
    assert_eq!(grow_capacity(100, 128), None);
    assert_eq!(grow_capacity(129, 128), Some(256));
    assert_eq!(grow_capacity(300, 128), Some(512));
    assert_eq!(grow_capacity(130, 100), Some(256));
    assert_eq!(grow_capacity(65, 64), Some(128));
    assert_eq!(grow_capacity(70, 60), Some(128));
    assert_eq!(aligned_stride(80, 256), 256);
    assert_eq!(aligned_stride(256, 256), 256);
    assert_eq!(aligned_stride(257, 256), 512);
    assert_eq!(aligned_stride(0, 64), 0);
}

#[test]
fn line_batches() {
    assert_eq!(segment_vertex_order(3, true), vec![0, 1, 1, 2]);
    assert_eq!(segment_vertex_order(1, true), Vec::<usize>::new());
    assert_eq!(segment_vertex_order(5, false), vec![0, 1, 2, 3]);
    let b = |visible: bool, overlay: bool, count: u32| BatchInfo { visible, overlay, count };
    let (order, ranges) =
        batch_order(&vec![b(true, true, 4), b(true, false, 6), b(false, false, 9), b(true, false, 2)]);
    assert_eq!(order, vec![1, 3, 0]);
    assert_eq!(ranges, [(0, 8), (8, 12)]);
}

#[test]
fn draw_passes_keep_order() {
    let d = |layer: Layer, transparent: bool| DrawInfo { layer, transparent };
    let g = draw_groups(&vec![
        d(Layer::Scene, false),
        d(Layer::Overlay, true),
        d(Layer::Ground, false),
        d(Layer::Scene, true),
        d(Layer::Ground, true),
        d(Layer::Scene, false),
    ]);
    assert_eq!(g.opaque, vec![2, 0, 5]);
    assert_eq!(g.blend, vec![3, 4]);
    assert_eq!(g.overlay, vec![1]);
}

#[test]
fn readback_rows() {
    assert_eq!(padded_bytes_per_row(1), 256);
    assert_eq!(padded_bytes_per_row(64), 256);
    assert_eq!(padded_bytes_per_row(65), 512);
    assert_eq!(padded_bytes_per_row(0), 0);
    let data: Vec<u8> = (0..10u8).collect();
    assert_eq!(unpad_rows(&data, 2, 4), vec![0, 1, 4, 5]);
    assert_eq!(unpad_rows(&data, 3, 3), vec![0, 1, 2, 3, 4, 5, 6, 7, 8]);
}
