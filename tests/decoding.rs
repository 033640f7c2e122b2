use pcl_decoder::{byte_channel_bits, get_memory_width, DecodeFault, PCLDecoder, ONE_BITS};

const STEP: usize = 20;
const OFF_X: usize = 0;
const OFF_Y: usize = 4;
const OFF_Z: usize = 8;
const OFF_RGB: usize = 12;
const OFF_I: usize = 16;

fn record(x: f32, y: f32, z: f32, bgr: [u8; 3], intensity: f32) -> Vec<u8> {
    let mut r = Vec::new();
    r.extend_from_slice(&x.to_le_bytes());
    r.extend_from_slice(&y.to_le_bytes());
    r.extend_from_slice(&z.to_le_bytes());
    r.extend_from_slice(&bgr);
    r.push(0);
    r.extend_from_slice(&intensity.to_le_bytes());
    r
}

fn intensity_level(bits: u32) -> f32 {
    let v = f32::from_bits(bits) / 255.0;
    if v < 360.0 {
        v
    } else {
        360.0
    }
}

fn rainbow_shade(bits: u32) -> (u32, u32, u32) {
    let c = hsl::HSL { h: intensity_level(bits) as f64, s: 1.0, l: 0.5 }.to_rgb();
    ((c.0 as f32).to_bits(), (c.1 as f32).to_bits(), (c.2 as f32).to_bits())
}

fn gray_shade(bits: u32) -> u32 {
    (intensity_level(bits) * (255.0 / 360.0)).to_bits()
}

fn no_rainbow(_: u32) -> (u32, u32, u32) {
    panic!("rainbow shading called")
}

fn no_gray(_: u32) -> u32 {
    panic!("gray shading called")
}

fn decoder_with(records: &[Vec<u8>], points: usize) -> PCLDecoder {
    let mut d = PCLDecoder::with_capacity(STEP * points, 3 * points);
    let bytes: Vec<u8> = records.concat();
    assert_eq!(d.load_records(0, &bytes), Ok(()));
    d
}

fn floats(v: &[u32]) -> Vec<f32> {
    v.iter().map(|b| f32::from_bits(*b)).collect()
}

fn colors_of(d: &PCLDecoder, i: usize) -> Vec<f32> {
    floats(&d.color_memory()[3 * i..3 * i + 3])
}

fn intensity_colors(intensity: f32, rainbow: bool) -> Vec<f32> {
    let mut d = decoder_with(&[record(0.0, 0.0, 0.0, [0, 0, 0], intensity)], 1);
    let r = d.compute(1, STEP, OFF_X, OFF_Y, OFF_Z, OFF_RGB, OFF_I, true, rainbow, rainbow_shade, gray_shade);
    assert_eq!(r, Ok(()));
    colors_of(&d, 0)
}

#[test]
fn positions_round_trip_exactly() {
    let pts = [(1.5f32, -2.25f32, 3.0e-7f32), (f32::MAX, f32::MIN_POSITIVE, -0.0), (0.1, 0.2, 0.3)];
    let recs: Vec<Vec<u8>> = pts.iter().map(|p| record(p.0, p.1, p.2, [0, 0, 0], 0.0)).collect();
    let mut d = decoder_with(&recs, 3);
    let r = d.compute(3, STEP, OFF_X, OFF_Y, OFF_Z, 0, 0, false, false, no_rainbow, no_gray);
    assert_eq!(r, Ok(()));
    for (i, p) in pts.iter().enumerate() {
        let got = &d.position_memory()[3 * i..3 * i + 3];
        assert_eq!(got, &[p.0.to_bits(), p.1.to_bits(), p.2.to_bits()]);
    }
}

#[test]
fn nan_position_keeps_its_bits() {
    let nan = f32::from_bits(0x7FC0_1234);
    let mut d = decoder_with(&[record(nan, 1.0, 2.0, [0, 0, 0], 0.0)], 1);
    assert_eq!(d.compute(1, STEP, OFF_X, OFF_Y, OFF_Z, 0, 0, false, false, no_rainbow, no_gray), Ok(()));
    assert_eq!(d.position_memory()[0], 0x7FC0_1234);
}

#[test]
fn permuted_offsets_pick_their_fields() {
    let mut d = decoder_with(&[record(1.0, 2.0, 3.0, [0, 0, 0], 0.0)], 1);
    assert_eq!(d.compute(1, STEP, OFF_Z, OFF_X, OFF_Y, 0, 0, false, false, no_rainbow, no_gray), Ok(()));
    assert_eq!(floats(&d.position_memory()[0..3]), vec![3.0, 1.0, 2.0]);
}

#[test]
fn without_color_fields_colors_are_kept() {
    let recs = vec![record(1.0, 2.0, 3.0, [255, 0, 255], 0.0), record(4.0, 5.0, 6.0, [0, 255, 0], 0.0)];
    let mut d = decoder_with(&recs, 2);
    assert_eq!(d.compute(2, STEP, OFF_X, OFF_Y, OFF_Z, OFF_RGB, 0, false, false, no_rainbow, no_gray), Ok(()));
    let before = d.color_memory().clone();
    assert_eq!(floats(&before), vec![1.0, 0.0, 1.0, 0.0, 1.0, 0.0]);
    assert_eq!(d.compute(2, STEP, OFF_X, OFF_Y, OFF_Z, 0, 0, true, true, no_rainbow, no_gray), Ok(()));
    assert_eq!(d.color_memory(), &before);
    assert_eq!(floats(&d.position_memory()[..]), vec![1.0, 2.0, 3.0, 4.0, 5.0, 6.0]);
}

#[test]
fn rgb_bytes_are_swapped_and_divided() {
    // bytes in record order: blue, green, red
    let mut d = decoder_with(&[record(0.0, 0.0, 0.0, [30, 20, 10], 0.0)], 1);
    assert_eq!(d.compute(1, STEP, OFF_X, OFF_Y, OFF_Z, OFF_RGB, 0, false, false, no_rainbow, no_gray), Ok(()));
    assert_eq!(colors_of(&d, 0), vec![0.0, 0.0, 0.0]);
}

#[test]
fn rgb_full_channel_lands_in_swapped_slot() {
    let mut d = decoder_with(&[record(0.0, 0.0, 0.0, [255, 0, 0], 0.0)], 1);
    assert_eq!(d.compute(1, STEP, OFF_X, OFF_Y, OFF_Z, OFF_RGB, 0, false, false, no_rainbow, no_gray), Ok(()));
    assert_eq!(colors_of(&d, 0), vec![0.0, 0.0, 1.0]);
}

#[test]
fn byte_channel_is_integer_division() {
    assert_eq!(byte_channel_bits(0), 0);
    assert_eq!(byte_channel_bits(10), 0);
    assert_eq!(byte_channel_bits(254), 0);
    assert_eq!(byte_channel_bits(255), ONE_BITS);
    assert_eq!(f32::from_bits(ONE_BITS), 1.0);
}

#[test]
fn intensity_overrides_rgb() {
    let mut d = decoder_with(&[record(0.0, 0.0, 0.0, [255, 255, 255], 90.0 * 255.0)], 1);
    assert_eq!(d.compute(1, STEP, OFF_X, OFF_Y, OFF_Z, OFF_RGB, OFF_I, true, false, no_rainbow, gray_shade), Ok(()));
    assert_eq!(colors_of(&d, 0), vec![63.75, 63.75, 63.75]);
}

#[test]
fn intensity_ignored_unless_asked() {
    let mut d = decoder_with(&[record(0.0, 0.0, 0.0, [255, 255, 255], 1000.0)], 1);
    assert_eq!(d.compute(1, STEP, OFF_X, OFF_Y, OFF_Z, OFF_RGB, OFF_I, false, true, no_rainbow, no_gray), Ok(()));
    assert_eq!(colors_of(&d, 0), vec![1.0, 1.0, 1.0]);
}

#[test]
fn rainbow_hue_zero_is_red_reversed() {
    assert_eq!(intensity_colors(0.0, true), vec![0.0, 0.0, 255.0]);
}

#[test]
fn rainbow_hue_360_and_above_match() {
    let at_360 = intensity_colors(360.0 * 255.0, true);
    assert_eq!(at_360, vec![0.0, 0.0, 255.0]);
    assert_eq!(intensity_colors(1.0e6, true), at_360);
    assert_eq!(intensity_colors(400.0 * 255.0, true), at_360);
}

#[test]
fn rainbow_hue_120_is_green() {
    assert_eq!(intensity_colors(120.0 * 255.0, true), vec![0.0, 255.0, 0.0]);
}

#[test]
fn rainbow_hue_240_is_blue_first() {
    assert_eq!(intensity_colors(240.0 * 255.0, true), vec![255.0, 0.0, 0.0]);
}

#[test]
fn gray_ramp_values() {
    assert_eq!(intensity_colors(0.0, false), vec![0.0, 0.0, 0.0]);
    let full = 360.0f32 * (255.0 / 360.0);
    assert_eq!(intensity_colors(360.0 * 255.0, false), vec![full, full, full]);
    assert_eq!(intensity_colors(5000.0 * 255.0, false), vec![full, full, full]);
    let c = intensity_colors(180.0 * 255.0, false);
    assert_eq!(c[0], 180.0f32 * (255.0 / 360.0));
    assert_eq!(c[0], c[1]);
    assert_eq!(c[1], c[2]);
}

#[test]
fn gray_ramp_is_monotone() {
    let mut last = f32::NEG_INFINITY;
    let mut v = 0.0f32;
    while v <= 400.0 * 255.0 {
        let c = intensity_colors(v, false);
        assert!(c[0] >= last);
        assert_eq!(c[0], c[1]);
        assert_eq!(c[0], c[2]);
        last = c[0];
        v += 997.0;
    }
}

#[test]
fn compute_twice_gives_same_buffers() {
    let recs = vec![
        record(1.0, 2.0, 3.0, [1, 2, 255], 45.0 * 255.0),
        record(-1.0, -2.0, -3.0, [255, 2, 3], 300.0 * 255.0),
    ];
    let mut d = decoder_with(&recs, 2);
    assert_eq!(d.compute(2, STEP, OFF_X, OFF_Y, OFF_Z, OFF_RGB, OFF_I, true, true, rainbow_shade, gray_shade), Ok(()));
    let pos = d.position_memory().clone();
    let col = d.color_memory().clone();
    let raw = d.copy_memory().clone();
    assert_eq!(d.compute(2, STEP, OFF_X, OFF_Y, OFF_Z, OFF_RGB, OFF_I, true, true, rainbow_shade, gray_shade), Ok(()));
    assert_eq!(d.position_memory(), &pos);
    assert_eq!(d.color_memory(), &col);
    assert_eq!(d.copy_memory(), &raw);
}

#[test]
fn zero_points_change_nothing() {
    let mut d = decoder_with(&[record(1.0, 2.0, 3.0, [255, 255, 255], 1.0)], 1);
    assert_eq!(d.compute(1, STEP, OFF_X, OFF_Y, OFF_Z, OFF_RGB, 0, false, false, no_rainbow, no_gray), Ok(()));
    let pos = d.position_memory().clone();
    let col = d.color_memory().clone();
    let r = d.compute(0, usize::MAX, usize::MAX, usize::MAX, usize::MAX, usize::MAX, usize::MAX, true, true, no_rainbow, no_gray);
    assert_eq!(r, Ok(()));
    assert_eq!(d.position_memory(), &pos);
    assert_eq!(d.color_memory(), &col);
}

#[test]
fn entries_past_the_points_are_kept() {
    let recs = vec![record(1.0, 2.0, 3.0, [0, 0, 0], 0.0), record(4.0, 5.0, 6.0, [0, 0, 0], 0.0)];
    let mut d = decoder_with(&recs, 2);
    assert_eq!(d.compute(2, STEP, OFF_X, OFF_Y, OFF_Z, 0, 0, false, false, no_rainbow, no_gray), Ok(()));
    let bytes = record(7.0, 8.0, 9.0, [0, 0, 0], 0.0);
    assert_eq!(d.load_records(0, &bytes), Ok(()));
    assert_eq!(d.compute(1, STEP, OFF_X, OFF_Y, OFF_Z, 0, 0, false, false, no_rainbow, no_gray), Ok(()));
    assert_eq!(floats(&d.position_memory()[..]), vec![7.0, 8.0, 9.0, 4.0, 5.0, 6.0]);
}

#[test]
fn short_output_is_refused() {
    let mut d = PCLDecoder::with_capacity(100, 5);
    let r = d.compute(2, 8, 0, 0, 0, 0, 0, false, false, no_rainbow, no_gray);
    assert_eq!(r, Err(DecodeFault::OutputTooShort));
    assert_eq!(d.position_memory(), &vec![0u32; 5]);
}

#[test]
fn huge_point_count_is_refused() {
    let mut d = PCLDecoder::with_capacity(100, 6);
    let r = d.compute(usize::MAX, 1, 0, 0, 0, 0, 0, false, false, no_rainbow, no_gray);
    assert_eq!(r, Err(DecodeFault::OutputTooShort));
}

#[test]
fn field_past_records_is_refused() {
    let recs = vec![record(1.0, 2.0, 3.0, [0, 0, 0], 0.0), record(4.0, 5.0, 6.0, [0, 0, 0], 0.0)];
    let mut d = decoder_with(&recs, 2);
    // the intensity word of the second record would end one byte late
    let r = d.compute(2, STEP, OFF_X, OFF_Y, OFF_Z, 0, OFF_I + 1, true, false, no_rainbow, no_gray);
    assert_eq!(r, Err(DecodeFault::RecordsOutOfBounds));
    assert_eq!(d.position_memory(), &vec![0u32; 6]);
    // unread, the same offset is no fault
    let r = d.compute(2, STEP, OFF_X, OFF_Y, OFF_Z, 0, OFF_I + 1, false, false, no_rainbow, no_gray);
    assert_eq!(r, Ok(()));
}

#[test]
fn rgb_past_records_is_refused() {
    let mut d = decoder_with(&[record(1.0, 2.0, 3.0, [0, 0, 0], 0.0)], 1);
    let r = d.compute(1, STEP, OFF_X, OFF_Y, OFF_Z, STEP - 2, 0, false, false, no_rainbow, no_gray);
    assert_eq!(r, Err(DecodeFault::RecordsOutOfBounds));
    let r = d.compute(1, STEP, OFF_X, OFF_Y, OFF_Z, STEP - 3, 0, false, false, no_rainbow, no_gray);
    assert_eq!(r, Ok(()));
}

#[test]
fn overflowing_stride_is_refused() {
    let mut d = PCLDecoder::with_capacity(64, 6);
    let r = d.compute(2, usize::MAX, 0, 4, 8, 0, 0, false, false, no_rainbow, no_gray);
    assert_eq!(r, Err(DecodeFault::RecordsOutOfBounds));
}

#[test]
fn load_records_bounds() {
    let mut d = PCLDecoder::with_capacity(8, 0);
    assert_eq!(d.load_records(6, &[1, 2]), Ok(()));
    assert_eq!(d.copy_memory(), &vec![0, 0, 0, 0, 0, 0, 1, 2]);
    assert_eq!(d.load_records(7, &[3, 4]), Err(DecodeFault::RecordsOutOfBounds));
    assert_eq!(d.load_records(usize::MAX, &[3]), Err(DecodeFault::RecordsOutOfBounds));
    assert_eq!(d.copy_memory(), &vec![0, 0, 0, 0, 0, 0, 1, 2]);
}

#[test]
fn fresh_decoder_is_zeroed() {
    let d = PCLDecoder::with_capacity(10, 9);
    assert_eq!(d.copy_memory(), &vec![0u8; 10]);
    assert_eq!(d.position_memory(), &vec![0u32; 9]);
    assert_eq!(d.color_memory(), &vec![0u32; 9]);
}

#[test]
fn memory_width_value() {
    assert_eq!(get_memory_width(), 160_000_000);
}
