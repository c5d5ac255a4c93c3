use ssimulacra2_cuda::image::{Image, Transfer};

fn img(width: u32, height: u32, line_step: i32, num_samples: usize, sample_bytes: usize) -> Image {
    Image { width, height, line_step, data: 0x1000, num_samples, sample_bytes }
}

fn t(t: &Transfer) -> (usize, usize, u64) {
    (t.host_start, t.host_end, t.device_addr)
}

#[test]
fn len_is_line_step_times_height() {
    assert_eq!(img(10, 7, 32, 3, 1).len(), 224);
    assert_eq!(img(0, 0, 0, 3, 1).len(), 0);
}

#[test]
fn len_counts_samples_not_bytes() {
    assert_eq!(img(1, 1, 16, 3, 4).len(), 4);
    assert_eq!(img(10, 7, 512, 3, 4).len(), 896);
}

#[test]
fn device_mem_usage_is_pitched_size() {
    assert_eq!(img(10, 7, 512, 3, 4).device_mem_usage(), 3584);
}

#[test]
fn size_converts_dimensions() {
    let s = img(1920, 1080, 5760, 3, 1).size();
    assert_eq!((s.width, s.height), (1920, 1080));
    let s = img(u32::MAX, 1 << 31, 0, 3, 1).size();
    assert_eq!((s.width, s.height), (-1, i32::MIN));
}

#[test]
fn device_ptrs() {
    let mut i = img(4, 4, 16, 1, 1);
    assert_eq!(*i.device_ptr(), 0x1000);
    *i.device_ptr_mut() = 0x2000;
    assert_eq!(i.data, 0x2000);
    assert_eq!((i.width, i.height, i.line_step), (4, 4, 16));
}

#[test]
fn padding_detection() {
    assert!(!img(10, 2, 30, 3, 1).has_padding());
    assert!(img(10, 2, 32, 3, 1).has_padding());
    assert!(!img(10, 2, 120, 3, 4).has_padding());
    assert!(img(10, 2, 512, 3, 4).has_padding());
}

#[test]
fn host_len_counts_samples() {
    assert_eq!(img(10, 2, 32, 3, 4).host_len(), 60);
}

#[test]
fn unpadded_upload_is_one_copy_of_everything() {
    let plan = img(10, 2, 30, 3, 1).copy_from_cpu(60);
    assert_eq!(plan.iter().map(t).collect::<Vec<_>>(), vec![(0, 60, 0x1000)]);
    // Without padding the whole buffer is copied, whatever its length.
    let plan = img(10, 2, 30, 3, 1).copy_from_cpu(7);
    assert_eq!(plan.iter().map(t).collect::<Vec<_>>(), vec![(0, 7, 0x1000)]);
}

#[test]
fn padded_upload_is_one_copy_per_row() {
    let plan = img(10, 3, 32, 3, 1).copy_from_cpu(90);
    assert_eq!(
        plan.iter().map(t).collect::<Vec<_>>(),
        vec![(0, 30, 0x1000), (30, 60, 0x1020), (60, 90, 0x1040)]
    );
}

#[test]
fn padded_upload_plans_every_row_even_for_a_short_buffer() {
    let plan = img(10, 2, 32, 3, 1).copy_from_cpu(40);
    assert_eq!(plan.iter().map(t).collect::<Vec<_>>(), vec![(0, 30, 0x1000), (30, 60, 0x1020)]);
}

#[test]
fn padded_download_is_one_copy_per_row() {
    let plan = img(2, 2, 64, 3, 4).copy_to_cpu();
    assert_eq!(
        plan.iter().map(t).collect::<Vec<_>>(),
        vec![(0, 6, 0x1000), (6, 12, 0x1040)]
    );
}

#[test]
fn unpadded_download_is_one_copy() {
    let plan = img(2, 2, 24, 3, 4).copy_to_cpu();
    assert_eq!(plan.iter().map(t).collect::<Vec<_>>(), vec![(0, 12, 0x1000)]);
}

#[test]
fn empty_image_has_no_rows() {
    assert!(img(0, 0, 16, 3, 1).copy_to_cpu().len() == 0);
}

/// Runs the copies against a byte array standing for device memory.
fn run_up(mem: &mut [u8], plan: &[Transfer], sb: usize, host: &[u8]) {
    for tr in plan {
        let bytes = (tr.host_end - tr.host_start) * sb;
        let dev = tr.device_addr as usize - 0x1000;
        mem[dev..dev + bytes].copy_from_slice(&host[tr.host_start * sb..tr.host_start * sb + bytes]);
    }
}

fn run_down(mem: &[u8], plan: &[Transfer], sb: usize, dst: &mut [u8]) {
    for tr in plan {
        let bytes = (tr.host_end - tr.host_start) * sb;
        let dev = tr.device_addr as usize - 0x1000;
        dst[tr.host_start * sb..tr.host_start * sb + bytes].copy_from_slice(&mem[dev..dev + bytes]);
    }
}

#[test]
fn upload_then_download_gives_back_the_data() {
    for &(w, h, ls, sb) in &[(5u32, 4u32, 64i32, 4usize), (5, 4, 60, 4), (3, 3, 9, 1), (3, 3, 16, 1)] {
        let i = img(w, h, ls, 3, sb);
        let n = i.host_len();
        let host: Vec<u8> = (0..n * sb).map(|k| (k * 7 % 253) as u8).collect();
        let mut mem = vec![0xeeu8; ls as usize * h as usize];
        run_up(&mut mem, &i.copy_from_cpu(n), sb, &host);
        let mut dst = vec![0u8; n * sb];
        run_down(&mem, &i.copy_to_cpu(), sb, &mut dst);
        assert_eq!(dst, host);
    }
}
