//! The cell encoder: each 2-column by 4-row tile of an RGB raster becomes one
//! Braille-pattern glyph, and each row of tiles one line of text.

use vstd::prelude::*;
use crate::gray::{GrayMethod, gray_spec, to_gray};

verus! {

/// First code point of the Braille-pattern block.
pub const UNICODE_OFFSET: u32 = 0x2800;

/// Dimensions that the tile scan can walk: an even, non-zero width, a height that
/// is a multiple of four, and exactly three bytes for each pixel.
pub open spec fn valid_raster(len: nat, width: nat, height: nat) -> bool {
    &&& width > 0
    &&& width % 2 == 0
    &&& height % 4 == 0
    &&& len == width * height * 3
}

/// Intensity of pixel number `p` (row-major) of an RGB byte sequence.
pub open spec fn pixel_gray(bytes: Seq<u8>, p: int, method: GrayMethod) -> int {
    gray_spec(bytes[3 * p], bytes[3 * p + 1], bytes[3 * p + 2], method)
}

/// Offset, in pixels from a tile's top-left pixel, of the pixel read for dot `o`.
/// Dots 0-2 are the left column's top three rows, dots 3-5 the right column's,
/// dots 6 and 7 the bottom row, left then right.
pub open spec fn dot_offset(width: int, o: int) -> int {
    if o == 0 {
        0
    } else if o == 1 {
        width
    } else if o == 2 {
        2 * width
    } else if o == 3 {
        1
    } else if o == 4 {
        width + 1
    } else if o == 5 {
        2 * width + 1
    } else if o == 6 {
        3 * width
    } else {
        3 * width + 1
    }
}

/// The value of bit `o` of a mask (`2^o` for `o` in `0..=8`).
pub open spec fn dot_bit(o: int) -> int {
    if o <= 0 {
        1
    } else if o == 1 {
        2
    } else if o == 2 {
        4
    } else if o == 3 {
        8
    } else if o == 4 {
        16
    } else if o == 5 {
        32
    } else if o == 6 {
        64
    } else if o == 7 {
        128
    } else {
        256
    }
}

/// Whether the pixel under dot `o` of the tile whose top-left pixel is at row `i`,
/// column `j` counts as ink: its intensity reaches the threshold.
pub open spec fn is_ink(
    bytes: Seq<u8>,
    width: int,
    i: int,
    j: int,
    o: int,
    method: GrayMethod,
    threshold: u8,
) -> bool {
    pixel_gray(bytes, i * width + j + dot_offset(width, o), method) >= threshold
}

/// The bits below `k` of a tile's raw mask: every bit starts set and an ink
/// pixel clears its bit.
pub open spec fn mask_below(
    bytes: Seq<u8>,
    width: int,
    i: int,
    j: int,
    method: GrayMethod,
    threshold: u8,
    k: nat,
) -> int
    decreases k,
{
    if k == 0 {
        0
    } else {
        mask_below(bytes, width, i, j, method, threshold, (k - 1) as nat) + if is_ink(
            bytes,
            width,
            i,
            j,
            k - 1,
            method,
            threshold,
        ) {
            0
        } else {
            dot_bit(k - 1)
        }
    }
}

/// The raw 8-bit mask of a tile, before inversion.
pub open spec fn raw_mask(
    bytes: Seq<u8>,
    width: int,
    i: int,
    j: int,
    method: GrayMethod,
    threshold: u8,
) -> int {
    mask_below(bytes, width, i, j, method, threshold, 8)
}

/// A raw mask after the invert flag (complement of all eight bits) and the
/// spacing rule (without monospace, a blank cell shows one dot instead).
pub open spec fn final_mask(raw: int, invert: bool, monospace: bool) -> int {
    let m = if invert {
        255 - raw
    } else {
        raw
    };
    if !monospace && m == 0 {
        4
    } else {
        m
    }
}

/// The glyph for a final mask.
pub open spec fn glyph(mask: int) -> char {
    (UNICODE_OFFSET + mask) as char
}

/// The glyph of the tile whose top-left pixel is at row `i`, column `j`.
pub open spec fn cell_glyph(
    bytes: Seq<u8>,
    width: int,
    i: int,
    j: int,
    invert: bool,
    method: GrayMethod,
    monospace: bool,
    threshold: u8,
) -> char {
    glyph(final_mask(raw_mask(bytes, width, i, j, method, threshold), invert, monospace))
}

/// Glyph row `r`: one glyph per tile of raster rows `4r..4r+4`, then a newline.
pub open spec fn row_text(
    bytes: Seq<u8>,
    width: int,
    r: int,
    invert: bool,
    method: GrayMethod,
    monospace: bool,
    threshold: u8,
) -> Seq<char> {
    Seq::new(
        (width / 2) as nat,
        |c: int| cell_glyph(bytes, width, 4 * r, 2 * c, invert, method, monospace, threshold),
    ).push('\n')
}

/// The first `rows` glyph rows of the encoding, top to bottom.
pub open spec fn rows_text(
    bytes: Seq<u8>,
    width: int,
    rows: nat,
    invert: bool,
    method: GrayMethod,
    monospace: bool,
    threshold: u8,
) -> Seq<char>
    decreases rows,
{
    if rows == 0 {
        Seq::empty()
    } else {
        rows_text(bytes, width, (rows - 1) as nat, invert, method, monospace, threshold) + row_text(
            bytes,
            width,
            rows - 1,
            invert,
            method,
            monospace,
            threshold,
        )
    }
}

/// The text that encodes a raster of the given width and height.
pub open spec fn encode_spec(
    bytes: Seq<u8>,
    width: int,
    height: int,
    invert: bool,
    method: GrayMethod,
    monospace: bool,
    threshold: u8,
) -> Seq<char> {
    rows_text(bytes, width, (height / 4) as nat, invert, method, monospace, threshold)
}

/// Relies on `char::from_u32`: `Some` exactly for Unicode scalar values, holding
/// the character with that code.
#[verifier::external_body]
fn char_from_code(code: u32) -> (r: Option<char>)
    ensures
        (code < 0xD800 || (0xE000 <= code && code <= 0x10FFFF)) ==> r == Some(code as char),
        !(code < 0xD800 || (0xE000 <= code && code <= 0x10FFFF)) ==> r is None,
{
    char::from_u32(code)
}

/// Relies on `String::from_iter` over `char`s: the string holds the characters in order.
#[verifier::external_body]
fn string_from_chars(chars: Vec<char>) -> (r: String)
    ensures
        r@ == chars@,
{
    String::from_iter(chars)
}

proof fn lemma_pixel_in_bounds(width: int, height: int, i: int, j: int, o: int)
    requires
        width > 0,
        0 <= i,
        i + 4 <= height,
        0 <= j,
        j + 2 <= width,
        0 <= o < 8,
    ensures
        0 <= i * width + j + dot_offset(width, o),
        3 * (i * width + j + dot_offset(width, o)) + 2 < width * height * 3,
{
    let off = dot_offset(width, o);
    assert(0 <= off <= 3 * width + 1);
    assert(i * width + j + off < (i + 4) * width) by (nonlinear_arith)
        requires
            0 <= off <= 3 * width + 1,
            j + 2 <= width,
    ;
    assert((i + 4) * width <= height * width) by (nonlinear_arith)
        requires
            i + 4 <= height,
            width > 0,
    ;
    assert(0 <= i * width) by (nonlinear_arith)
        requires
            0 <= i,
            width > 0,
    ;
}

/// Intensity of pixel number `p` of an RGB byte slice.
fn pixel_at(bytes: &[u8], p: usize, method: GrayMethod) -> (v: u8)
    requires
        3 * p + 2 < bytes@.len(),
    ensures
        v == pixel_gray(bytes@, p as int, method),
{
    let n = bytes.len();
    let k = 3 * p;
    to_gray([bytes[k], bytes[k + 1], bytes[k + 2]], method)
}

/// Final mask of the tile whose top-left pixel is at row `i`, column `j`.
fn tile_mask(
    bytes: &[u8],
    width: usize,
    height: usize,
    i: usize,
    j: usize,
    invert: bool,
    method: GrayMethod,
    monospace: bool,
    threshold: u8,
) -> (m: u8)
    requires
        valid_raster(bytes@.len(), width as nat, height as nat),
        i + 4 <= height,
        j + 2 <= width,
    ensures
        m == final_mask(raw_mask(bytes@, width as int, i as int, j as int, method, threshold), invert, monospace),
{
    let n = bytes.len();
    proof {
        assert(i * width <= height * width) by (nonlinear_arith)
            requires
                i <= height,
        ;
        assert(3 * width + 1 <= height * width * 3) by (nonlinear_arith)
            requires
                width > 0,
                height >= 4,
        ;
    }
    let offsets: [usize; 8] = [
        0,
        width,
        2 * width,
        1,
        width + 1,
        2 * width + 1,
        3 * width,
        3 * width + 1,
    ];
    let bits: [u8; 8] = [1, 2, 4, 8, 16, 32, 64, 128];
    let base = i * width + j;
    let mut mask: u8 = 0;
    let mut o: usize = 0;
    while o < 8
        invariant
            valid_raster(bytes@.len(), width as nat, height as nat),
            i + 4 <= height,
            j + 2 <= width,
            base == i * width + j,
            n == bytes@.len(),
            o <= 8,
            forall|k: int| 0 <= k < 8 ==> offsets[k] == dot_offset(width as int, k),
            forall|k: int| 0 <= k < 8 ==> bits[k] == dot_bit(k),
            mask == mask_below(bytes@, width as int, i as int, j as int, method, threshold, o as nat),
            mask < dot_bit(o as int),
        decreases 8 - o,
    {
        proof {
            lemma_pixel_in_bounds(width as int, height as int, i as int, j as int, o as int);
        }
        let p = base + offsets[o];
        if pixel_at(bytes, p, method) < threshold {
            mask = mask + bits[o];
        }
        o = o + 1;
    }
    if invert {
        mask = 255 - mask;
    }
    if !monospace && mask == 0 {
        mask = 4;
    }
    mask
}

/// The height of a raster of `len` RGB bytes and the given width.
pub open spec fn raster_height(len: nat, width: nat) -> nat {
    len / 3 / width
}

/// The glyph of a final mask, as a character.
fn glyph_char(mask: u8) -> (c: char)
    ensures
        c == glyph(mask as int),
{
    match char_from_code(UNICODE_OFFSET + mask as u32) {
        Some(c) => c,
        None => ' ',
    }
}

/// Encodes an RGB raster (three bytes per pixel, row-major) of the given width as
/// Braille text: one glyph per 2-column by 4-row tile, one line per row of tiles.
pub fn apply(
    bytes: &[u8],
    width: usize,
    invert: bool,
    gray_method: GrayMethod,
    monospace: bool,
    threshold: u8,
) -> (r: String)
    requires
        width > 0,
        valid_raster(bytes@.len(), width as nat, raster_height(bytes@.len(), width as nat)),
    ensures
        r@ == encode_spec(
            bytes@,
            width as int,
            raster_height(bytes@.len(), width as nat) as int,
            invert,
            gray_method,
            monospace,
            threshold,
        ),
{
    let height = bytes.len() / 3 / width;
    let ghost w = width as int;
    let mut out: Vec<char> = Vec::new();
    let mut i: usize = 0;
    while i < height
        invariant
            height == raster_height(bytes@.len(), width as nat),
            valid_raster(bytes@.len(), width as nat, height as nat),
            i % 4 == 0,
            i <= height,
            w == width,
            out@ == rows_text(bytes@, w, (i / 4) as nat, invert, gray_method, monospace, threshold),
        decreases height - i,
    {
        let ghost before = out@;
        let ghost row = |c: int| cell_glyph(bytes@, w, i as int, 2 * c, invert, gray_method, monospace, threshold);
        let mut j: usize = 0;
        while j < width
            invariant
                valid_raster(bytes@.len(), width as nat, height as nat),
                i % 4 == 0,
                i + 4 <= height,
                j % 2 == 0,
                j <= width,
                w == width,
                row == (|c: int| cell_glyph(bytes@, w, i as int, 2 * c, invert, gray_method, monospace, threshold)),
                out@ == before + Seq::new((j / 2) as nat, row),
            decreases width - j,
        {
            let m = tile_mask(bytes, width, height, i, j, invert, gray_method, monospace, threshold);
            out.push(glyph_char(m));
            proof {
                assert(Seq::new(((j + 2) / 2) as nat, row) =~= Seq::new((j / 2) as nat, row).push(row(j as int / 2)));
            }
            j = j + 2;
        }
        out.push('\n');
        proof {
            assert(4 * (i as int / 4) == i);
            assert(Seq::new((width / 2) as nat, row) =~= Seq::new(
                (w / 2) as nat,
                |c: int| cell_glyph(bytes@, w, 4 * (i as int / 4), 2 * c, invert, gray_method, monospace, threshold),
            ));
            assert(out@ =~= rows_text(bytes@, w, ((i + 4) / 4) as nat, invert, gray_method, monospace, threshold));
        }
        i = i + 4;
    }
    string_from_chars(out)
}

/// Character `c` of line `r` of an encoding of a raster of the given width, each
/// line holding `width / 2` glyphs and a newline.
pub open spec fn line_char(text: Seq<char>, width: int, r: int, c: int) -> char {
    text[r * (width / 2 + 1) + c]
}

proof fn lemma_mask_below_bounds(
    bytes: Seq<u8>,
    width: int,
    i: int,
    j: int,
    method: GrayMethod,
    threshold: u8,
    k: nat,
)
    requires
        k <= 8,
    ensures
        0 <= mask_below(bytes, width, i, j, method, threshold, k) < dot_bit(k as int),
    decreases k,
{
    if k > 0 {
        lemma_mask_below_bounds(bytes, width, i, j, method, threshold, (k - 1) as nat);
    }
}

proof fn lemma_glyph_code(m: int)
    requires
        0 <= m <= 255,
    ensures
        glyph(m) as int == UNICODE_OFFSET + m,
{
}

proof fn lemma_rows_text(
    bytes: Seq<u8>,
    width: int,
    rows: nat,
    invert: bool,
    method: GrayMethod,
    monospace: bool,
    threshold: u8,
)
    requires
        width >= 0,
    ensures
        rows_text(bytes, width, rows, invert, method, monospace, threshold).len() == rows * (width / 2 + 1),
        forall|r: int, c: int|
            0 <= r < rows && 0 <= c <= width / 2 ==> #[trigger] line_char(
                rows_text(bytes, width, rows, invert, method, monospace, threshold),
                width,
                r,
                c,
            ) == row_text(bytes, width, r, invert, method, monospace, threshold)[c],
    decreases rows,
{
    let l = width / 2 + 1;
    if rows > 0 {
        let k = (rows - 1) as nat;
        lemma_rows_text(bytes, width, k, invert, method, monospace, threshold);
        let prev = rows_text(bytes, width, k, invert, method, monospace, threshold);
        let text = rows_text(bytes, width, rows, invert, method, monospace, threshold);
        assert(rows * l == k * l + l) by (nonlinear_arith)
            requires
                rows == k + 1,
        ;
        assert forall|r: int, c: int| 0 <= r < rows && 0 <= c <= width / 2 implies #[trigger] line_char(
            text,
            width,
            r,
            c,
        ) == row_text(bytes, width, r, invert, method, monospace, threshold)[c] by {
            if r < k {
                assert(r * l + c < k * l) by (nonlinear_arith)
                    requires
                        r < k,
                        0 <= c < l,
                ;
                assert(0 <= r * l) by (nonlinear_arith)
                    requires
                        0 <= r,
                        l > 0,
                ;
                assert(line_char(prev, width, r, c) == row_text(bytes, width, r, invert, method, monospace, threshold)[c]);
            } else {
                assert(r == k);
            }
        }
    }
}

/// The encoding of a valid raster has `height / 4` lines of `width / 2` glyphs,
/// each line ended by a newline; the glyph in column `c` of line `r` is the one
/// of the tile at pixel row `4r`, column `2c`, and lies in the Braille block.
pub proof fn lemma_encode_shape(
    bytes: Seq<u8>,
    width: int,
    height: int,
    invert: bool,
    method: GrayMethod,
    monospace: bool,
    threshold: u8,
)
    requires
        width > 0,
        height >= 0,
        valid_raster(bytes.len(), width as nat, height as nat),
    ensures
        ({
            let text = encode_spec(bytes, width, height, invert, method, monospace, threshold);
            &&& text.len() == (height / 4) * (width / 2 + 1)
            &&& forall|r: int| 0 <= r < height / 4 ==> #[trigger] line_char(text, width, r, width / 2) == '\n'
            &&& forall|r: int, c: int|
                0 <= r < height / 4 && 0 <= c < width / 2 ==> {
                    &&& #[trigger] line_char(text, width, r, c) == cell_glyph(
                        bytes,
                        width,
                        4 * r,
                        2 * c,
                        invert,
                        method,
                        monospace,
                        threshold,
                    )
                    &&& UNICODE_OFFSET <= line_char(text, width, r, c) as int <= UNICODE_OFFSET + 255
                }
        }),
{
    let text = encode_spec(bytes, width, height, invert, method, monospace, threshold);
    lemma_rows_text(bytes, width, (height / 4) as nat, invert, method, monospace, threshold);
    assert forall|r: int, c: int| 0 <= r < height / 4 && 0 <= c < width / 2 implies UNICODE_OFFSET
        <= #[trigger] line_char(text, width, r, c) as int <= UNICODE_OFFSET + 255 by {
        lemma_mask_below_bounds(bytes, width, 4 * r, 2 * c, method, threshold, 8);
        let raw = raw_mask(bytes, width, 4 * r, 2 * c, method, threshold);
        lemma_glyph_code(final_mask(raw, invert, monospace));
    }
}

/// Whether dot `o` of a tile stays raised in the raw mask: 1 where its pixel is
/// not ink, 0 where it is.
pub open spec fn dot_raised(
    bytes: Seq<u8>,
    width: int,
    i: int,
    j: int,
    o: int,
    method: GrayMethod,
    threshold: u8,
) -> int {
    if is_ink(bytes, width, i, j, o, method, threshold) {
        0
    } else {
        1
    }
}

/// Bit `o` of a mask, as 0 or 1.
pub open spec fn mask_bit(mask: int, o: int) -> int {
    (mask / dot_bit(o)) % 2
}

/// Bit `o` of a tile's raw mask is clear exactly when the pixel under dot `o`
/// counts as ink; in particular a pixel whose intensity equals the threshold
/// counts as ink and clears its bit.
pub proof fn lemma_threshold_inclusive(
    bytes: Seq<u8>,
    width: int,
    i: int,
    j: int,
    o: int,
    method: GrayMethod,
    threshold: u8,
)
    requires
        0 <= o < 8,
    ensures
        mask_bit(raw_mask(bytes, width, i, j, method, threshold), o) == dot_raised(
            bytes,
            width,
            i,
            j,
            o,
            method,
            threshold,
        ),
        pixel_gray(bytes, i * width + j + dot_offset(width, o), method) == threshold ==> mask_bit(
            raw_mask(bytes, width, i, j, method, threshold),
            o,
        ) == 0,
{
    reveal_with_fuel(mask_below, 9);
    let b0 = dot_raised(bytes, width, i, j, 0, method, threshold);
    let b1 = dot_raised(bytes, width, i, j, 1, method, threshold);
    let b2 = dot_raised(bytes, width, i, j, 2, method, threshold);
    let b3 = dot_raised(bytes, width, i, j, 3, method, threshold);
    let b4 = dot_raised(bytes, width, i, j, 4, method, threshold);
    let b5 = dot_raised(bytes, width, i, j, 5, method, threshold);
    let b6 = dot_raised(bytes, width, i, j, 6, method, threshold);
    let b7 = dot_raised(bytes, width, i, j, 7, method, threshold);
    let bo = dot_raised(bytes, width, i, j, o, method, threshold);
    let raw = raw_mask(bytes, width, i, j, method, threshold);
    assert(raw == b0 + 2 * b1 + 4 * b2 + 8 * b3 + 16 * b4 + 32 * b5 + 64 * b6 + 128 * b7);
    assert((raw / dot_bit(o)) % 2 == bo) by (nonlinear_arith)
        requires
            raw == b0 + 2 * b1 + 4 * b2 + 8 * b3 + 16 * b4 + 32 * b5 + 64 * b6 + 128 * b7,
            0 <= b0 <= 1,
            0 <= b1 <= 1,
            0 <= b2 <= 1,
            0 <= b3 <= 1,
            0 <= b4 <= 1,
            0 <= b5 <= 1,
            0 <= b6 <= 1,
            0 <= b7 <= 1,
            (o == 0 && dot_bit(o) == 1 && bo == b0) || (o == 1 && dot_bit(o) == 2 && bo == b1) || (o
                == 2 && dot_bit(o) == 4 && bo == b2) || (o == 3 && dot_bit(o) == 8 && bo == b3) || (o
                == 4 && dot_bit(o) == 16 && bo == b4) || (o == 5 && dot_bit(o) == 32 && bo == b5) || (o
                == 6 && dot_bit(o) == 64 && bo == b6) || (o == 7 && dot_bit(o) == 128 && bo == b7),
    ;
}

/// With monospace spacing, encoding with `invert` complements the mask of every
/// glyph of the encoding without it, cell for cell, and keeps the newlines.
pub proof fn lemma_invert_complements(
    bytes: Seq<u8>,
    width: int,
    height: int,
    method: GrayMethod,
    threshold: u8,
)
    requires
        width > 0,
        height >= 0,
        valid_raster(bytes.len(), width as nat, height as nat),
    ensures
        ({
            let plain = encode_spec(bytes, width, height, false, method, true, threshold);
            let inverted = encode_spec(bytes, width, height, true, method, true, threshold);
            &&& inverted.len() == plain.len()
            &&& forall|r: int|
                0 <= r < height / 4 ==> #[trigger] line_char(inverted, width, r, width / 2) == line_char(
                    plain,
                    width,
                    r,
                    width / 2,
                )
            &&& forall|r: int, c: int|
                0 <= r < height / 4 && 0 <= c < width / 2 ==> line_char(inverted, width, r, c) as int
                    - UNICODE_OFFSET == 255 - (#[trigger] line_char(plain, width, r, c) as int - UNICODE_OFFSET)
        }),
{
    let plain = encode_spec(bytes, width, height, false, method, true, threshold);
    let inverted = encode_spec(bytes, width, height, true, method, true, threshold);
    lemma_encode_shape(bytes, width, height, false, method, true, threshold);
    lemma_encode_shape(bytes, width, height, true, method, true, threshold);
    assert forall|r: int, c: int| 0 <= r < height / 4 && 0 <= c < width / 2 implies line_char(
        inverted,
        width,
        r,
        c,
    ) as int - UNICODE_OFFSET == 255 - (#[trigger] line_char(plain, width, r, c) as int - UNICODE_OFFSET) by {
        lemma_mask_below_bounds(bytes, width, 4 * r, 2 * c, method, threshold, 8);
        let raw = raw_mask(bytes, width, 4 * r, 2 * c, method, threshold);
        lemma_glyph_code(raw);
        lemma_glyph_code(255 - raw);
        assert(line_char(inverted, width, r, c) == glyph(255 - raw));
        assert(line_char(plain, width, r, c) == glyph(raw));
    }
}

/// The pixels that a tile of an in-bounds position reads are pixels of the raster.
proof fn lemma_tile_pixels(width: int, height: int, i: int, j: int)
    requires
        width > 0,
        0 <= i,
        i + 4 <= height,
        0 <= j,
        j + 2 <= width,
    ensures
        forall|o: int|
            0 <= o < 8 ==> 0 <= #[trigger] dot_offset(width, o) + i * width + j < width * height,
{
    assert forall|o: int| 0 <= o < 8 implies 0 <= #[trigger] dot_offset(width, o) + i * width + j < width
        * height by {
        lemma_pixel_in_bounds(width, height, i, j, o);
    }
}

proof fn lemma_mask_all_ink(
    bytes: Seq<u8>,
    width: int,
    i: int,
    j: int,
    method: GrayMethod,
    threshold: u8,
    k: nat,
)
    requires
        k <= 8,
        forall|o: int| 0 <= o < k ==> #[trigger] is_ink(bytes, width, i, j, o, method, threshold),
    ensures
        mask_below(bytes, width, i, j, method, threshold, k) == 0,
    decreases k,
{
    if k > 0 {
        assert(is_ink(bytes, width, i, j, k - 1, method, threshold));
        lemma_mask_all_ink(bytes, width, i, j, method, threshold, (k - 1) as nat);
    }
}

proof fn lemma_mask_no_ink(
    bytes: Seq<u8>,
    width: int,
    i: int,
    j: int,
    method: GrayMethod,
    threshold: u8,
    k: nat,
)
    requires
        k <= 8,
        forall|o: int| 0 <= o < k ==> !#[trigger] is_ink(bytes, width, i, j, o, method, threshold),
    ensures
        mask_below(bytes, width, i, j, method, threshold, k) == dot_bit(k as int) - 1,
    decreases k,
{
    if k > 0 {
        assert(!is_ink(bytes, width, i, j, k - 1, method, threshold));
        lemma_mask_no_ink(bytes, width, i, j, method, threshold, (k - 1) as nat);
    }
}

/// A raster in which every pixel reaches the threshold (white under the usual
/// thresholds) encodes, without `invert`, every cell as the blank glyph U+2800
/// with monospace spacing and as the one-dot glyph U+2804 without it.
pub proof fn lemma_all_ink_blank(
    bytes: Seq<u8>,
    width: int,
    height: int,
    method: GrayMethod,
    monospace: bool,
    threshold: u8,
)
    requires
        width > 0,
        height >= 0,
        valid_raster(bytes.len(), width as nat, height as nat),
        forall|p: int| 0 <= p < width * height ==> #[trigger] pixel_gray(bytes, p, method) >= threshold,
    ensures
        forall|r: int, c: int|
            0 <= r < height / 4 && 0 <= c < width / 2 ==> #[trigger] line_char(
                encode_spec(bytes, width, height, false, method, monospace, threshold),
                width,
                r,
                c,
            ) as int == if monospace {
                UNICODE_OFFSET as int
            } else {
                UNICODE_OFFSET + 4
            },
{
    let text = encode_spec(bytes, width, height, false, method, monospace, threshold);
    lemma_encode_shape(bytes, width, height, false, method, monospace, threshold);
    assert forall|r: int, c: int| 0 <= r < height / 4 && 0 <= c < width / 2 implies #[trigger] line_char(
        text,
        width,
        r,
        c,
    ) as int == if monospace {
        UNICODE_OFFSET as int
    } else {
        UNICODE_OFFSET + 4
    } by {
        assert(4 * r + 4 <= height);
        lemma_tile_pixels(width, height, 4 * r, 2 * c);
        assert forall|o: int| 0 <= o < 8 implies #[trigger] is_ink(bytes, width, 4 * r, 2 * c, o, method, threshold) by {
            assert(0 <= dot_offset(width, o) + (4 * r) * width + 2 * c < width * height);
            assert((4 * r) * width + 2 * c + dot_offset(width, o) == dot_offset(width, o) + (4 * r) * width + 2 * c);
        }
        lemma_mask_all_ink(bytes, width, 4 * r, 2 * c, method, threshold, 8);
        lemma_glyph_code(final_mask(0, false, monospace));
    }
}

/// A raster in which no pixel reaches the threshold encodes, without `invert`,
/// every cell as the full glyph U+28FF, all eight dots raised.
pub proof fn lemma_no_ink_full(
    bytes: Seq<u8>,
    width: int,
    height: int,
    method: GrayMethod,
    monospace: bool,
    threshold: u8,
)
    requires
        width > 0,
        height >= 0,
        valid_raster(bytes.len(), width as nat, height as nat),
        forall|p: int| 0 <= p < width * height ==> #[trigger] pixel_gray(bytes, p, method) < threshold,
    ensures
        forall|r: int, c: int|
            0 <= r < height / 4 && 0 <= c < width / 2 ==> #[trigger] line_char(
                encode_spec(bytes, width, height, false, method, monospace, threshold),
                width,
                r,
                c,
            ) as int == UNICODE_OFFSET + 255,
{
    let text = encode_spec(bytes, width, height, false, method, monospace, threshold);
    lemma_encode_shape(bytes, width, height, false, method, monospace, threshold);
    assert forall|r: int, c: int| 0 <= r < height / 4 && 0 <= c < width / 2 implies #[trigger] line_char(
        text,
        width,
        r,
        c,
    ) as int == UNICODE_OFFSET + 255 by {
        assert(4 * r + 4 <= height);
        lemma_tile_pixels(width, height, 4 * r, 2 * c);
        assert forall|o: int| 0 <= o < 8 implies !#[trigger] is_ink(bytes, width, 4 * r, 2 * c, o, method, threshold) by {
            assert(0 <= dot_offset(width, o) + (4 * r) * width + 2 * c < width * height);
            assert((4 * r) * width + 2 * c + dot_offset(width, o) == dot_offset(width, o) + (4 * r) * width + 2 * c);
        }
        lemma_mask_no_ink(bytes, width, 4 * r, 2 * c, method, threshold, 8);
        lemma_glyph_code(255);
    }
}

} // verus!
