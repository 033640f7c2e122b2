use crate::record::{
    byte_channel_bits, color_decoded, decoded, field_fits, field_fits_in, position_decoded,
    read_u32_le, reads_intensity, records_fit, RecordLayout,
};
use vstd::prelude::*;

verus! {

/// Size in bytes of the record buffer of a decoder made by `PCLDecoder::new`.
pub const MEMORY_WIDTH: usize = 5_000_000 * 32;

/// The record buffer size that `PCLDecoder::new` provisions.
pub fn get_memory_width() -> (r: usize)
    ensures
        r == MEMORY_WIDTH,
{
    MEMORY_WIDTH
}

/// The layout given by a record stride and field offsets.
pub open spec fn layout_of(
    point_step: usize,
    offset_x: usize,
    offset_y: usize,
    offset_z: usize,
    offset_rgb: usize,
    offset_intensity: usize,
) -> RecordLayout {
    RecordLayout { point_step, offset_x, offset_y, offset_z, offset_rgb, offset_intensity }
}

/// Both output buffers hold three entries for each of `n` points.
pub open spec fn outputs_fit(n: int, pos_len: int, col_len: int) -> bool {
    3 * n <= pos_len && 3 * n <= col_len
}

/// Record `i` lies inside the buffer for each field that fits for all `n`.
proof fn lemma_field_in_bounds(n: int, step: int, offset: int, width: int, len: int, i: int)
    requires
        field_fits(n, step, offset, width, len),
        0 <= i < n,
        0 <= step,
    ensures
        i * step + offset + width <= len,
{
    assert(i * step <= (n - 1) * step) by (nonlinear_arith)
        requires
            0 <= i <= n - 1,
            0 <= step,
    ;
}

/// Why a decoding call did nothing.
#[derive(Clone, Copy, Debug, PartialEq, Eq, Structural)]
pub enum DecodeFault {
    /// The position or color buffer holds fewer than three entries per point.
    OutputTooShort,
    /// A field of some record lies past the end of the record buffer.
    RecordsOutOfBounds,
}

/// A record buffer that callers fill, and the position and color buffers
/// that decoding fills from it, three entries per point.
pub struct PCLDecoder {
    copy_memory_buffer: Vec<u8>,
    position_memory_buffer: Vec<u32>,
    color_memory_buffer: Vec<u32>,
}

impl PCLDecoder {
    /// The record bytes.
    pub closed spec fn raw(&self) -> Seq<u8> {
        self.copy_memory_buffer@
    }

    /// The position buffer: `x`, `y`, `z` of each point, as float bits.
    pub closed spec fn positions(&self) -> Seq<u32> {
        self.position_memory_buffer@
    }

    /// The color buffer: three channels of each point, as float bits.
    pub closed spec fn colors(&self) -> Seq<u32> {
        self.color_memory_buffer@
    }

    /// A decoder with a record buffer of `MEMORY_WIDTH` bytes and output
    /// buffers of `MEMORY_WIDTH / 4` entries, all zero.
    pub fn new() -> (r: PCLDecoder)
        ensures
            r.raw() == Seq::new(MEMORY_WIDTH as nat, |i: int| 0u8),
            r.positions() == Seq::new((MEMORY_WIDTH / 4) as nat, |i: int| 0u32),
            r.colors() == Seq::new((MEMORY_WIDTH / 4) as nat, |i: int| 0u32),
    {
        PCLDecoder::with_capacity(MEMORY_WIDTH, MEMORY_WIDTH / 4)
    }

    /// A decoder with a record buffer of `record_bytes` bytes and output
    /// buffers of `output_len` entries each, all zero.
    pub fn with_capacity(record_bytes: usize, output_len: usize) -> (r: PCLDecoder)
        ensures
            r.raw() == Seq::new(record_bytes as nat, |i: int| 0u8),
            r.positions() == Seq::new(output_len as nat, |i: int| 0u32),
            r.colors() == Seq::new(output_len as nat, |i: int| 0u32),
    {
        let copy_memory_buffer: Vec<u8> = vec![0u8; record_bytes];
        let position_memory_buffer: Vec<u32> = vec![0u32; output_len];
        let color_memory_buffer: Vec<u32> = vec![0u32; output_len];
        let r = PCLDecoder { copy_memory_buffer, position_memory_buffer, color_memory_buffer };
        assert(r.raw() =~= Seq::new(record_bytes as nat, |i: int| 0u8));
        assert(r.positions() =~= Seq::new(output_len as nat, |i: int| 0u32));
        assert(r.colors() =~= Seq::new(output_len as nat, |i: int| 0u32));
        r
    }

    /// The record buffer.
    pub fn copy_memory(&self) -> (r: &Vec<u8>)
        ensures
            r@ == self.raw(),
    {
        &self.copy_memory_buffer
    }

    /// The position buffer.
    pub fn position_memory(&self) -> (r: &Vec<u32>)
        ensures
            r@ == self.positions(),
    {
        &self.position_memory_buffer
    }

    /// The color buffer.
    pub fn color_memory(&self) -> (r: &Vec<u32>)
        ensures
            r@ == self.colors(),
    {
        &self.color_memory_buffer
    }

    /// Decodes the first `num_points` records of the record buffer.
    ///
    /// Record `i` starts at byte `i * point_step`. Its `x`, `y`, `z` words,
    /// little-endian at the given offsets, become the position triple of point
    /// `i`. Where the intensity field is present and `use_intensity_channel`
    /// is set, its word decides the color triple, through `rainbow` (hue
    /// channels red, green, blue, stored in reverse) when `use_rainbow` is
    /// set, else through `gray` (one level, stored three times). Otherwise,
    /// where the packed color field is present, its bytes (blue, green, red)
    /// give the triple in reverse, each divided by 255. Otherwise the color
    /// triple is kept. Entries past the first `3 * num_points` are kept.
    ///
    /// Nothing changes, and an error says why, where the output buffers are
    /// too short or a field read would fall past the record buffer.
    pub fn compute<R, G>(
        &mut self,
        num_points: usize,
        point_step: usize,
        offset_x: usize,
        offset_y: usize,
        offset_z: usize,
        offset_rgb: usize,
        offset_intensity: usize,
        use_intensity_channel: bool,
        use_rainbow: bool,
        rainbow: R,
        gray: G,
    ) -> (r: Result<(), DecodeFault>) where R: Fn(u32) -> (u32, u32, u32), G: Fn(u32) -> u32
        requires
            forall|v: u32| rainbow.requires((v,)),
            forall|v: u32| gray.requires((v,)),
        ensures
            final(self).raw() == old(self).raw(),
            r is Ok <==> outputs_fit(
                num_points as int,
                old(self).positions().len() as int,
                old(self).colors().len() as int,
            ) && records_fit(
                num_points as int,
                layout_of(point_step, offset_x, offset_y, offset_z, offset_rgb, offset_intensity),
                use_intensity_channel,
                old(self).raw().len() as int,
            ),
            r == Err::<(), DecodeFault>(DecodeFault::OutputTooShort) <==> !outputs_fit(
                num_points as int,
                old(self).positions().len() as int,
                old(self).colors().len() as int,
            ),
            r == Err::<(), DecodeFault>(DecodeFault::RecordsOutOfBounds) <==> outputs_fit(
                num_points as int,
                old(self).positions().len() as int,
                old(self).colors().len() as int,
            ) && !records_fit(
                num_points as int,
                layout_of(point_step, offset_x, offset_y, offset_z, offset_rgb, offset_intensity),
                use_intensity_channel,
                old(self).raw().len() as int,
            ),
            r is Err ==> final(self).positions() == old(self).positions() && final(self).colors()
                == old(self).colors(),
            r is Ok ==> decoded(
                old(self).raw(),
                old(self).positions(),
                final(self).positions(),
                old(self).colors(),
                final(self).colors(),
                num_points as int,
                layout_of(point_step, offset_x, offset_y, offset_z, offset_rgb, offset_intensity),
                use_intensity_channel,
                use_rainbow,
                |v: u32, c: (u32, u32, u32)| rainbow.ensures((v,), c),
                |v: u32, g: u32| gray.ensures((v,), g),
            ),
    {
        let layout = RecordLayout {
            point_step,
            offset_x,
            offset_y,
            offset_z,
            offset_rgb,
            offset_intensity,
        };
        let pos_len: usize = self.position_memory_buffer.len();
        let col_len: usize = self.color_memory_buffer.len();
        let outputs_ok = match num_points.checked_mul(3) {
            None => false,
            Some(m) => m <= pos_len && m <= col_len,
        };
        if !outputs_ok {
            return Err(DecodeFault::OutputTooShort);
        }
        let len: usize = self.copy_memory_buffer.len();
        let with_intensity = offset_intensity != 0 && use_intensity_channel;
        let records_ok = field_fits_in(num_points, point_step, offset_x, 4, len)
            && field_fits_in(num_points, point_step, offset_y, 4, len)
            && field_fits_in(num_points, point_step, offset_z, 4, len)
            && (offset_rgb == 0 || field_fits_in(num_points, point_step, offset_rgb, 3, len))
            && (!with_intensity || field_fits_in(num_points, point_step, offset_intensity, 4, len));
        if !records_ok {
            return Err(DecodeFault::RecordsOutOfBounds);
        }
        let ghost raw = self.raw();
        let ghost old_pos = self.positions();
        let ghost old_col = self.colors();
        let ghost rainbow_rel = |v: u32, c: (u32, u32, u32)| rainbow.ensures((v,), c);
        let ghost gray_rel = |v: u32, g: u32| gray.ensures((v,), g);
        let mut i: usize = 0;
        while i < num_points
            invariant
                i <= num_points,
                layout == layout_of(
                    point_step,
                    offset_x,
                    offset_y,
                    offset_z,
                    offset_rgb,
                    offset_intensity,
                ),
                with_intensity == reads_intensity(layout, use_intensity_channel),
                3 * num_points <= old_pos.len() == pos_len,
                3 * num_points <= old_col.len() == col_len,
                records_fit(num_points as int, layout, use_intensity_channel, len as int),
                raw.len() == len,
                self.raw() == raw,
                self.positions().len() == old_pos.len(),
                self.colors().len() == old_col.len(),
                forall|v: u32| rainbow.requires((v,)),
                forall|v: u32| gray.requires((v,)),
                rainbow_rel == (|v: u32, c: (u32, u32, u32)| rainbow.ensures((v,), c)),
                gray_rel == (|v: u32, g: u32| gray.ensures((v,), g)),
                forall|k: int|
                    0 <= k < i ==> #[trigger] position_decoded(raw, self.positions(), k, layout),
                forall|k: int|
                    0 <= k < i ==> #[trigger] color_decoded(
                        raw,
                        old_col,
                        self.colors(),
                        k,
                        layout,
                        use_intensity_channel,
                        use_rainbow,
                        rainbow_rel,
                        gray_rel,
                    ),
                forall|j: int|
                    3 * i <= j < old_pos.len() ==> #[trigger] self.positions()[j] == old_pos[j],
                forall|j: int|
                    3 * i <= j < old_col.len() ==> #[trigger] self.colors()[j] == old_col[j],
            decreases num_points - i,
        {
            let ghost (n, step, end) = (num_points as int, point_step as int, len as int);
            proof {
                lemma_field_in_bounds(n, step, offset_x as int, 4, end, i as int);
                lemma_field_in_bounds(n, step, offset_y as int, 4, end, i as int);
                lemma_field_in_bounds(n, step, offset_z as int, 4, end, i as int);
                assert(0 <= i * point_step) by (nonlinear_arith);
            }
            let ghost pos_before = self.positions();
            let ghost col_before = self.colors();
            let stride: usize = i * point_step;
            let x = read_u32_le(self.copy_memory_buffer.as_slice(), stride + offset_x).unwrap();
            let y = read_u32_le(self.copy_memory_buffer.as_slice(), stride + offset_y).unwrap();
            let z = read_u32_le(self.copy_memory_buffer.as_slice(), stride + offset_z).unwrap();
            self.position_memory_buffer.set(3 * i, x);
            self.position_memory_buffer.set(3 * i + 1, y);
            self.position_memory_buffer.set(3 * i + 2, z);
            if with_intensity {
                proof {
                    lemma_field_in_bounds(n, step, offset_intensity as int, 4, end, i as int);
                }
                let at = stride + offset_intensity;
                let v = read_u32_le(self.copy_memory_buffer.as_slice(), at).unwrap();
                if use_rainbow {
                    let c = rainbow(v);
                    self.color_memory_buffer.set(3 * i, c.2);
                    self.color_memory_buffer.set(3 * i + 1, c.1);
                    self.color_memory_buffer.set(3 * i + 2, c.0);
                    proof {
                        let col = self.colors();
                        assert((col[3 * i + 2], col[3 * i + 1], col[3 * i as int]) == c);
                        assert(rainbow_rel(v, c));
                    }
                } else {
                    let g = gray(v);
                    self.color_memory_buffer.set(3 * i, g);
                    self.color_memory_buffer.set(3 * i + 1, g);
                    self.color_memory_buffer.set(3 * i + 2, g);
                    assert(gray_rel(v, g));
                }
            } else if offset_rgb != 0 {
                proof {
                    lemma_field_in_bounds(n, step, offset_rgb as int, 3, end, i as int);
                }
                let at = stride + offset_rgb;
                let red = byte_channel_bits(self.copy_memory_buffer[at + 2]);
                let green = byte_channel_bits(self.copy_memory_buffer[at + 1]);
                let blue = byte_channel_bits(self.copy_memory_buffer[at]);
                self.color_memory_buffer.set(3 * i, red);
                self.color_memory_buffer.set(3 * i + 1, green);
                self.color_memory_buffer.set(3 * i + 2, blue);
            }
            proof {
                let (pos, col) = (self.positions(), self.colors());
                let (uic, ur) = (use_intensity_channel, use_rainbow);
                assert(position_decoded(raw, pos, i as int, layout));
                assert(color_decoded(raw, old_col, col, i as int, layout, uic, ur, rainbow_rel, gray_rel));
                assert forall|k: int| 0 <= k < i implies #[trigger] position_decoded(
                    raw,
                    pos,
                    k,
                    layout,
                ) by {
                    assert(position_decoded(raw, pos_before, k, layout));
                }
                assert forall|k: int| 0 <= k < i implies #[trigger] color_decoded(
                    raw,
                    old_col,
                    col,
                    k,
                    layout,
                    uic,
                    ur,
                    rainbow_rel,
                    gray_rel,
                ) by {
                    assert(color_decoded(raw, old_col, col_before, k, layout, uic, ur, rainbow_rel, gray_rel));
                }
            }
            i = i + 1;
        }
        Ok(())
    }

    /// Copies `bytes` into the record buffer from `start` on, or does nothing
    /// where they would run past its end.
    pub fn load_records(&mut self, start: usize, bytes: &[u8]) -> (r: Result<(), DecodeFault>)
        ensures
            r is Ok <==> start + bytes@.len() <= old(self).raw().len(),
            r is Err ==> r == Err::<(), DecodeFault>(DecodeFault::RecordsOutOfBounds),
            r is Ok ==> final(self).raw() == old(self).raw().subrange(0, start as int) + bytes@
                + old(self).raw().subrange(
                start + bytes@.len(),
                old(self).raw().len() as int,
            ),
            r is Err ==> final(self).raw() == old(self).raw(),
            final(self).positions() == old(self).positions(),
            final(self).colors() == old(self).colors(),
    {
        if start > self.copy_memory_buffer.len() || bytes.len() > self.copy_memory_buffer.len()
            - start {
            return Err(DecodeFault::RecordsOutOfBounds);
        }
        let len: usize = self.copy_memory_buffer.len();
        let mut k: usize = 0;
        while k < bytes.len()
            invariant
                start + bytes@.len() <= old(self).raw().len() == len,
                k <= bytes@.len(),
                self.positions() == old(self).positions(),
                self.colors() == old(self).colors(),
                self.raw().len() == old(self).raw().len(),
                forall|j: int|
                    0 <= j < self.raw().len() ==> #[trigger] self.raw()[j] == if start <= j
                        < start + k {
                        bytes@[j - start]
                    } else {
                        old(self).raw()[j]
                    },
            decreases bytes@.len() - k,
        {
            self.copy_memory_buffer.set(start + k, bytes[k]);
            k = k + 1;
        }
        assert(self.raw() =~= old(self).raw().subrange(0, start as int) + bytes@
            + old(self).raw().subrange(start + bytes@.len(), old(self).raw().len() as int));
        Ok(())
    }
}

} // verus!
