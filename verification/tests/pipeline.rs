use ssimulacra2_cuda::demux::{FeedAction, PacketFeeder, MAX_PACKETS};
use ssimulacra2_cuda::launch::{param_probe_step, LaunchConfig, ParamProbe};
use ssimulacra2_cuda::ssimulacra2::{
    half_rect, image_shapes, scale_rects, scale_stream, score_index, DeviceBuffer, NppiRect,
    Ssimulacra2, NUM_IMAGES, NUM_SCORES,
};

fn rect(width: i32, height: i32) -> NppiRect {
    NppiRect { x: 0, y: 0, width, height }
}

#[test]
fn halving_rounds_up() {
    let r = half_rect(NppiRect { x: 3, y: 4, width: 1081, height: 1 });
    assert_eq!((r.x, r.y, r.width, r.height), (3, 4, 541, 1));
    let r = half_rect(rect(0, 2));
    assert_eq!((r.width, r.height), (0, 1));
}

#[test]
fn scale_sizes_of_full_hd() {
    let rects = scale_rects(rect(1920, 1080), rect(1080, 1920));
    let sizes: Vec<(i32, i32)> = rects.iter().map(|(s, _)| (s.width, s.height)).collect();
    assert_eq!(sizes, vec![(1920, 1080), (960, 540), (480, 270), (240, 135), (120, 68), (60, 34)]);
    let sizes_t: Vec<(i32, i32)> = rects.iter().map(|(_, s)| (s.width, s.height)).collect();
    assert_eq!(sizes_t, vec![(1080, 1920), (540, 960), (270, 480), (135, 240), (68, 120), (34, 60)]);
}

#[test]
fn scale_sizes_are_ceil_of_power_of_two_division() {
    for w in [1i32, 2, 3, 7, 33, 100, 1023] {
        let rects = scale_rects(rect(w, w + 1), rect(w + 1, w));
        for (s, (r, rt)) in rects.iter().enumerate() {
            let d = 1i32 << s;
            assert_eq!(r.width, (w + d - 1) / d);
            assert_eq!(r.height, (w + 1 + d - 1) / d);
            assert_eq!(rt.width, (w + 1 + d - 1) / d);
        }
    }
}

#[test]
fn streams_per_scale() {
    assert_eq!(scale_stream(0, 0), 0);
    assert_eq!(scale_stream(2, 3), 15);
    assert_eq!(scale_stream(5, 5), 35);
}

#[test]
fn score_slots() {
    assert_eq!(score_index(0, 0, 0), 0);
    assert_eq!(score_index(1, 2, 3), 51);
    assert_eq!(score_index(2, 5, 5), 107);
}

#[test]
fn score_slots_are_a_bijection() {
    let mut seen = vec![false; NUM_SCORES];
    for c in 0..3 {
        for s in 0..6 {
            for m in 0..6 {
                let i = score_index(c, s, m);
                assert!(!seen[i]);
                seen[i] = true;
            }
        }
    }
    assert!(seen.iter().all(|&b| b));
}

fn instance(width: u32, height: u32, pad: i32) -> Ssimulacra2 {
    let shapes = image_shapes(width, height);
    let buffers: Vec<DeviceBuffer> = shapes
        .iter()
        .enumerate()
        .map(|(i, s)| DeviceBuffer {
            data: 0x10_0000 * (i as u64 + 1),
            line_step: (s.width as usize * s.num_samples * s.sample_bytes) as i32 + pad,
        })
        .collect();
    Ssimulacra2::new(width, height, &buffers)
}

#[test]
fn shapes_of_the_images() {
    let shapes = image_shapes(64, 48);
    assert_eq!(shapes.len(), NUM_IMAGES);
    assert_eq!((shapes[0].width, shapes[0].height, shapes[0].sample_bytes), (64, 48, 1));
    assert_eq!((shapes[1].width, shapes[1].height, shapes[1].sample_bytes), (64, 48, 1));
    assert_eq!((shapes[2].width, shapes[2].height, shapes[2].sample_bytes), (64, 48, 4));
    assert_eq!((shapes[13].width, shapes[13].height, shapes[13].sample_bytes), (64, 48, 4));
    assert_eq!((shapes[14].width, shapes[14].height, shapes[14].sample_bytes), (48, 64, 4));
    assert_eq!((shapes[23].width, shapes[23].height, shapes[23].sample_bytes), (48, 64, 4));
    assert!(shapes.iter().all(|s| s.num_samples == 3));
}

#[test]
fn new_places_buffers() {
    let s = instance(64, 48, 0);
    assert_eq!(s.ref_input.data, 0x10_0000);
    assert_eq!(s.ref_input.line_step, 192);
    assert_eq!(s.tmpt9.data, 0x10_0000 * 24);
    assert_eq!((s.tmpt9.width, s.tmpt9.height), (48, 64));
    assert_eq!(s.tmp0.line_step, 768);
}

#[test]
fn unpadded_memory_is_exactly_270_bytes_per_pixel() {
    assert_eq!(instance(64, 48, 0).mem_usage(), 270 * 64 * 48);
    assert_eq!(instance(1440, 1080, 0).mem_usage(), 270 * 1440 * 1080);
}

#[test]
fn padding_adds_memory() {
    let s = instance(64, 48, 64);
    // 14 images of 48 rows and 10 of 64 rows, each row 64 bytes longer.
    assert_eq!(s.mem_usage(), 270 * 64 * 48 + 64 * (14 * 48 + 10 * 64));
}

#[test]
fn feeder_turns_length_prefix_into_start_code() {
    let mut f = PacketFeeder::new();
    assert_eq!(f.packet(), &vec![0, 0, 0, 1]);
    assert!(matches!(f.on_frame(true, &[0, 0, 0, 3, 0x65, 0x88, 0x84]), FeedAction::Feed));
    assert_eq!(f.packet(), &vec![0, 0, 0, 1, 0x65, 0x88, 0x84]);
    assert!(matches!(f.on_frame(true, &[0, 0, 0, 1, 0x41]), FeedAction::Feed));
    assert_eq!(f.packet(), &vec![0, 0, 0, 1, 0x41]);
    assert_eq!(f.num_packets(), 2);
}

#[test]
fn feeder_skips_other_tracks() {
    let mut f = PacketFeeder::new();
    assert!(matches!(f.on_frame(false, &[1, 2]), FeedAction::Skip));
    assert_eq!(f.num_packets(), 0);
    assert_eq!(f.packet(), &vec![0, 0, 0, 1]);
}

#[test]
fn feeder_stops_after_limit() {
    let mut f = PacketFeeder::new();
    for _ in 0..MAX_PACKETS {
        assert!(matches!(f.on_frame(true, &[0, 0, 0, 0]), FeedAction::Feed));
    }
    assert!(matches!(f.on_frame(true, &[0, 0, 0, 1, 9]), FeedAction::FeedAndStop));
    assert_eq!(f.num_packets(), 1001);
}

#[test]
fn param_probing() {
    assert!(matches!(param_probe_step(0, true), ParamProbe::Next(1)));
    assert!(matches!(param_probe_step(4, false), ParamProbe::Count(4)));
}

#[test]
fn launch_config_holds_dimensions() {
    let c = LaunchConfig { grid_dim: (8, 4, 1), block_dim: (16, 16, 1), shared_mem_bytes: 0 };
    assert_eq!(c.grid_dim.0 * c.block_dim.0, 128);
    assert_eq!(c.shared_mem_bytes, 0);
}
