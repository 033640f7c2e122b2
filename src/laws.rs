use crate::decoder::outputs_fit;
use crate::record::{
    color_decoded, decoded, field_at, le_bytes, le_u32, position_decoded, reads_intensity,
    records_fit, RecordLayout,
};
use vstd::arithmetic::div_mod::{lemma_div_denominator, lemma_fundamental_div_mod};
use vstd::prelude::*;

verus! {

/// Four little-endian bytes of a word read back as that word.
pub proof fn lemma_le_round_trip(w: u32)
    ensures
        le_u32(le_bytes(w), 0) == w,
{
    let wi = w as int;
    lemma_fundamental_div_mod(wi, 256);
    lemma_fundamental_div_mod(wi / 256, 256);
    lemma_fundamental_div_mod(wi / 65536, 256);
    lemma_div_denominator(wi, 256, 256);
    lemma_div_denominator(wi / 256, 256, 256);
    lemma_div_denominator(wi, 65536, 256);
    assert(wi / 16777216 < 256);
}

/// A position written as little-endian words at a record's `x`, `y` and `z`
/// offsets decodes to exactly that position.
pub proof fn lemma_position_round_trip(
    raw: Seq<u8>,
    old_pos: Seq<u32>,
    pos: Seq<u32>,
    old_col: Seq<u32>,
    col: Seq<u32>,
    n: int,
    layout: RecordLayout,
    use_intensity_channel: bool,
    use_rainbow: bool,
    rainbow: spec_fn(u32, (u32, u32, u32)) -> bool,
    gray: spec_fn(u32, u32) -> bool,
    i: int,
    x: u32,
    y: u32,
    z: u32,
)
    requires
        decoded(
            raw,
            old_pos,
            pos,
            old_col,
            col,
            n,
            layout,
            use_intensity_channel,
            use_rainbow,
            rainbow,
            gray,
        ),
        0 <= i < n,
        field_at(layout, i, layout.offset_x) + 4 <= raw.len(),
        field_at(layout, i, layout.offset_y) + 4 <= raw.len(),
        field_at(layout, i, layout.offset_z) + 4 <= raw.len(),
        word_bytes(raw, field_at(layout, i, layout.offset_x)) == le_bytes(x),
        word_bytes(raw, field_at(layout, i, layout.offset_y)) == le_bytes(y),
        word_bytes(raw, field_at(layout, i, layout.offset_z)) == le_bytes(z),
    ensures
        pos[3 * i] == x,
        pos[3 * i + 1] == y,
        pos[3 * i + 2] == z,
{
    assert(position_decoded(raw, pos, i, layout));
    lemma_le_round_trip(x);
    lemma_le_round_trip(y);
    lemma_le_round_trip(z);
    lemma_le_u32_subrange(raw, field_at(layout, i, layout.offset_x));
    lemma_le_u32_subrange(raw, field_at(layout, i, layout.offset_y));
    lemma_le_u32_subrange(raw, field_at(layout, i, layout.offset_z));
}

/// The four bytes of `raw` at `at`.
pub open spec fn word_bytes(raw: Seq<u8>, at: int) -> Seq<u8> {
    raw.subrange(at, at + 4)
}

proof fn lemma_le_u32_subrange(raw: Seq<u8>, at: int)
    requires
        0 <= at,
        at + 4 <= raw.len(),
    ensures
        le_u32(raw, at) == le_u32(word_bytes(raw, at), 0),
{
}

/// Without a packed color field and without an intensity field, decoding
/// leaves the whole color buffer as it was, while each position triple still
/// holds the little-endian words of its record.
pub proof fn lemma_no_color_fields(
    raw: Seq<u8>,
    old_pos: Seq<u32>,
    pos: Seq<u32>,
    old_col: Seq<u32>,
    col: Seq<u32>,
    n: int,
    layout: RecordLayout,
    use_intensity_channel: bool,
    use_rainbow: bool,
    rainbow: spec_fn(u32, (u32, u32, u32)) -> bool,
    gray: spec_fn(u32, u32) -> bool,
)
    requires
        decoded(
            raw,
            old_pos,
            pos,
            old_col,
            col,
            n,
            layout,
            use_intensity_channel,
            use_rainbow,
            rainbow,
            gray,
        ),
        layout.offset_rgb == 0,
        layout.offset_intensity == 0,
        0 <= n,
    ensures
        col == old_col,
        forall|i: int| 0 <= i < n ==> #[trigger] position_decoded(raw, pos, i, layout),
{
    assert forall|j: int| 0 <= j < col.len() implies col[j] == old_col[j] by {
        if j < 3 * n {
            let i = j / 3;
            assert(color_decoded(raw, old_col, col, i, layout, use_intensity_channel, use_rainbow, rainbow, gray));
        }
    }
    assert(col =~= old_col);
}

/// Decoding no points asks nothing of the buffers or the layout, and changes
/// nothing.
pub proof fn lemma_no_points(
    raw: Seq<u8>,
    old_pos: Seq<u32>,
    pos: Seq<u32>,
    old_col: Seq<u32>,
    col: Seq<u32>,
    layout: RecordLayout,
    use_intensity_channel: bool,
    use_rainbow: bool,
    rainbow: spec_fn(u32, (u32, u32, u32)) -> bool,
    gray: spec_fn(u32, u32) -> bool,
)
    ensures
        outputs_fit(0, old_pos.len() as int, old_col.len() as int),
        records_fit(0, layout, use_intensity_channel, raw.len() as int),
        decoded(raw, old_pos, pos, old_col, col, 0, layout, use_intensity_channel, use_rainbow, rainbow, gray)
            ==> pos == old_pos && col == old_col,
{
    if decoded(raw, old_pos, pos, old_col, col, 0, layout, use_intensity_channel, use_rainbow, rainbow, gray) {
        assert(pos =~= old_pos);
        assert(col =~= old_col);
    }
}

/// Decoding the same records again, with shading that gives one result per
/// intensity word, leaves both buffers as the first decoding made them.
pub proof fn lemma_compute_idempotent(
    raw: Seq<u8>,
    pos0: Seq<u32>,
    pos1: Seq<u32>,
    pos2: Seq<u32>,
    col0: Seq<u32>,
    col1: Seq<u32>,
    col2: Seq<u32>,
    n: int,
    layout: RecordLayout,
    use_intensity_channel: bool,
    use_rainbow: bool,
    rainbow: spec_fn(u32, (u32, u32, u32)) -> bool,
    gray: spec_fn(u32, u32) -> bool,
)
    requires
        decoded(raw, pos0, pos1, col0, col1, n, layout, use_intensity_channel, use_rainbow, rainbow, gray),
        decoded(raw, pos1, pos2, col1, col2, n, layout, use_intensity_channel, use_rainbow, rainbow, gray),
        forall|v: u32, c: (u32, u32, u32), d: (u32, u32, u32)|
            #[trigger] rainbow(v, c) && #[trigger] rainbow(v, d) ==> c == d,
        forall|v: u32, g: u32, h: u32| #[trigger] gray(v, g) && #[trigger] gray(v, h) ==> g == h,
        0 <= n,
    ensures
        pos2 == pos1,
        col2 == col1,
{
    assert forall|j: int| 0 <= j < pos1.len() implies pos2[j] == pos1[j] by {
        if j < 3 * n {
            let i = j / 3;
            assert(position_decoded(raw, pos1, i, layout));
            assert(position_decoded(raw, pos2, i, layout));
        }
    }
    assert forall|j: int| 0 <= j < col1.len() implies col2[j] == col1[j] by {
        if j < 3 * n {
            let i = j / 3;
            assert(color_decoded(raw, col0, col1, i, layout, use_intensity_channel, use_rainbow, rainbow, gray));
            assert(color_decoded(raw, col1, col2, i, layout, use_intensity_channel, use_rainbow, rainbow, gray));
            if reads_intensity(layout, use_intensity_channel) && use_rainbow {
                let v = le_u32(raw, field_at(layout, i, layout.offset_intensity));
                assert(rainbow(v, (col1[3 * i + 2], col1[3 * i + 1], col1[3 * i])));
                assert(rainbow(v, (col2[3 * i + 2], col2[3 * i + 1], col2[3 * i])));
            }
        }
    }
    assert(pos2 =~= pos1);
    assert(col2 =~= col1);
}

} // verus!
