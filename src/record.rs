use scroll::Pread;
use vstd::prelude::*;

verus! {

/// Bit pattern of the single-precision float `1.0`.
pub const ONE_BITS: u32 = 0x3F80_0000;

/// The 32-bit word stored little-endian in the four bytes of `b` at `at`.
pub open spec fn le_u32(b: Seq<u8>, at: int) -> u32 {
    (b[at] as int + 256 * (b[at + 1] as int) + 65536 * (b[at + 2] as int) + 16777216 * (
    b[at + 3] as int)) as u32
}

/// The four little-endian bytes of `w`, least significant first.
pub open spec fn le_bytes(w: u32) -> Seq<u8> {
    seq![(w % 256) as u8, ((w / 256) % 256) as u8, ((w / 65536) % 256) as u8, (w / 16777216) as u8]
}

/// A color byte normalised by integer division by 255 and stored as a float:
/// `0.0` for every byte but 255, which gives `1.0`.
pub open spec fn byte_channel(b: u8) -> u32 {
    if b / 255 == 0 {
        0
    } else {
        ONE_BITS
    }
}

/// Where the fields of one record lie, in bytes from the record's start.
/// An `offset_rgb` or `offset_intensity` of zero means the field is absent.
#[derive(Clone, Copy, Debug, PartialEq, Eq)]
pub struct RecordLayout {
    pub point_step: usize,
    pub offset_x: usize,
    pub offset_y: usize,
    pub offset_z: usize,
    pub offset_rgb: usize,
    pub offset_intensity: usize,
}

/// Relies on scroll's `Pread::pread_with::<u32>` with `scroll::LE` on a byte
/// slice: the four bytes at `offset`, least significant first, and an error
/// when fewer than four bytes remain from `offset`.
#[verifier::external_body]
pub(crate) fn read_u32_le(bytes: &[u8], offset: usize) -> (r: Option<u32>)
    ensures
        offset + 4 <= bytes@.len() ==> r == Some(le_u32(bytes@, offset as int)),
        offset + 4 > bytes@.len() ==> r.is_none(),
{
    bytes.pread_with::<u32>(offset, scroll::LE).ok()
}

/// The float bit pattern of `b / 255` (integer division).
pub fn byte_channel_bits(b: u8) -> (r: u32)
    ensures
        r == byte_channel(b),
{
    if b / 255 == 0 {
        0
    } else {
        ONE_BITS
    }
}

/// Every record among the first `n` holds `width` bytes at `offset` inside a
/// buffer of `len` bytes, records being `step` bytes apart.
pub open spec fn field_fits(n: int, step: int, offset: int, width: int, len: int) -> bool {
    n == 0 || (n - 1) * step + offset + width <= len
}

/// Whether the intensity field is read: it is present and asked for.
pub open spec fn reads_intensity(layout: RecordLayout, use_intensity_channel: bool) -> bool {
    layout.offset_intensity != 0 && use_intensity_channel
}

/// Every field read for the first `n` records lies inside `len` bytes.
pub open spec fn records_fit(n: int, layout: RecordLayout, use_intensity_channel: bool, len: int) -> bool {
    let step = layout.point_step as int;
    &&& field_fits(n, step, layout.offset_x as int, 4, len)
    &&& field_fits(n, step, layout.offset_y as int, 4, len)
    &&& field_fits(n, step, layout.offset_z as int, 4, len)
    &&& layout.offset_rgb != 0 ==> field_fits(n, step, layout.offset_rgb as int, 3, len)
    &&& reads_intensity(layout, use_intensity_channel) ==> field_fits(
        n,
        step,
        layout.offset_intensity as int,
        4,
        len,
    )
}

/// Byte position of record `i`'s field at `offset`.
pub open spec fn field_at(layout: RecordLayout, i: int, offset: usize) -> int {
    i * layout.point_step + offset
}

/// The position triple of point `i` holds the three coordinate words of
/// record `i`.
pub open spec fn position_decoded(raw: Seq<u8>, pos: Seq<u32>, i: int, layout: RecordLayout) -> bool {
    &&& pos[3 * i] == le_u32(raw, field_at(layout, i, layout.offset_x))
    &&& pos[3 * i + 1] == le_u32(raw, field_at(layout, i, layout.offset_y))
    &&& pos[3 * i + 2] == le_u32(raw, field_at(layout, i, layout.offset_z))
}

/// The color triple of point `i` after decoding, given the triple before.
///
/// The intensity field, where it is read, decides the color; otherwise the
/// packed color bytes (stored blue, green, red) do; otherwise the triple is
/// left as it was. `rainbow` relates an intensity word to the red, green and
/// blue channels of its hue, which are stored in reverse order; `gray` relates
/// it to one gray level, stored in all three channels.
pub open spec fn color_decoded(
    raw: Seq<u8>,
    old_col: Seq<u32>,
    col: Seq<u32>,
    i: int,
    layout: RecordLayout,
    use_intensity_channel: bool,
    use_rainbow: bool,
    rainbow: spec_fn(u32, (u32, u32, u32)) -> bool,
    gray: spec_fn(u32, u32) -> bool,
) -> bool {
    if reads_intensity(layout, use_intensity_channel) {
        let v = le_u32(raw, field_at(layout, i, layout.offset_intensity));
        if use_rainbow {
            rainbow(v, (col[3 * i + 2], col[3 * i + 1], col[3 * i]))
        } else {
            gray(v, col[3 * i]) && col[3 * i + 1] == col[3 * i] && col[3 * i + 2] == col[3 * i]
        }
    } else if layout.offset_rgb != 0 {
        let at = field_at(layout, i, layout.offset_rgb);
        &&& col[3 * i] == byte_channel(raw[at + 2])
        &&& col[3 * i + 1] == byte_channel(raw[at + 1])
        &&& col[3 * i + 2] == byte_channel(raw[at])
    } else {
        &&& col[3 * i] == old_col[3 * i]
        &&& col[3 * i + 1] == old_col[3 * i + 1]
        &&& col[3 * i + 2] == old_col[3 * i + 2]
    }
}

/// `pos` and `col` are what decoding the first `n` records of `raw` makes of
/// `old_pos` and `old_col`: each point's triples decoded, every later entry
/// kept.
pub open spec fn decoded(
    raw: Seq<u8>,
    old_pos: Seq<u32>,
    pos: Seq<u32>,
    old_col: Seq<u32>,
    col: Seq<u32>,
    n: int,
    layout: RecordLayout,
    use_intensity_channel: bool,
    use_rainbow: bool,
    rainbow: spec_fn(u32, (u32, u32, u32)) -> bool,
    gray: spec_fn(u32, u32) -> bool,
) -> bool {
    &&& pos.len() == old_pos.len()
    &&& col.len() == old_col.len()
    &&& forall|i: int| 0 <= i < n ==> #[trigger] position_decoded(raw, pos, i, layout)
    &&& forall|i: int|
        0 <= i < n ==> #[trigger] color_decoded(
            raw,
            old_col,
            col,
            i,
            layout,
            use_intensity_channel,
            use_rainbow,
            rainbow,
            gray,
        )
    &&& forall|j: int| 3 * n <= j < pos.len() ==> #[trigger] pos[j] == old_pos[j]
    &&& forall|j: int| 3 * n <= j < col.len() ==> #[trigger] col[j] == old_col[j]
}

/// Whether every record among the first `n` holds `width` bytes at `offset`.
pub(crate) fn field_fits_in(n: usize, step: usize, offset: usize, width: usize, len: usize) -> (r: bool)
    ensures
        r == field_fits(n as int, step as int, offset as int, width as int, len as int),
{
    if n == 0 {
        return true;
    }
    match (n - 1).checked_mul(step) {
        None => {
            assert((n - 1) * step > len) by (nonlinear_arith)
                requires
                    (n - 1) * step > usize::MAX,
                    len <= usize::MAX,
            ;
            false
        },
        Some(last) => match last.checked_add(offset) {
            None => false,
            Some(at) => match at.checked_add(width) {
                None => false,
                Some(end) => end <= len,
            },
        },
    }
}

} // verus!
