//! Turning a picture into a REXPaint `.xp` image with upper-half blocks:
//! every character cell shows two pixels stacked, the top one as the
//! foreground of glyph 223 and the bottom one as the background.
use vstd::prelude::*;

verus! {

/// CP437 code of the upper half block.
pub const UPPER_HALF: u32 = 223;

/// A picture as rows of RGBA pixels: pixel (x, y) is at `y * width + x`.
pub struct Pixels {
    pub width: u32,
    pub height: u32,
    pub rgba: Vec<(u8, u8, u8, u8)>,
}

impl Pixels {
    /// One pixel per position.
    pub open spec fn wf(&self) -> bool {
        self.rgba@.len() == self.width * self.height
    }
}

/// The colour shown for pixel (x, y): black below row `max_y` or where the
/// pixel is nearly transparent (alpha under 16), else its RGB.
pub open spec fn spec_sample(px: &Pixels, x: int, y: int, max_y: int) -> (u8, u8, u8) {
    if y >= max_y {
        (0, 0, 0)
    } else {
        let p = px.rgba@[y * px.width + x];
        if p.3 < 16 {
            (0, 0, 0)
        } else {
            (p.0, p.1, p.2)
        }
    }
}

/// The colour of pixel (x, y) (see [`spec_sample`]).
pub fn sample(px: &Pixels, x: u32, y: u32, max_y: u32) -> (r: (u8, u8, u8))
    requires
        px.wf(),
        x < px.width,
        y < max_y ==> y < px.height,
    ensures
        r == spec_sample(px, x as int, y as int, max_y as int),
{
    if y >= max_y {
        return (0, 0, 0);
    }
    let n = px.rgba.len();
    proof {
        assert(y * px.width + x < px.width * px.height) by (nonlinear_arith)
            requires
                x < px.width,
                y < px.height,
        ;
        assert(0 <= y * px.width) by (nonlinear_arith);
        assert(y * px.width + x < n);
    }
    let i = y as usize * px.width as usize + x as usize;
    let p = px.rgba[i];
    if p.3 < 16 {
        return (0, 0, 0);
    }
    (p.0, p.1, p.2)
}

/// The four little-endian bytes of `v`.
pub open spec fn le32(v: u32) -> Seq<u8> {
    seq![(v % 256) as u8, ((v / 256) % 256) as u8, ((v / 65536) % 256) as u8, (v / 16777216) as u8]
}

/// The bytes of one cell: the glyph, the top pixel's colour, the bottom
/// pixel's colour.
pub open spec fn xp_cell(px: &Pixels, x: int, y: int) -> Seq<u8> {
    let top = spec_sample(px, x, 2 * y, px.height as int);
    let bottom = spec_sample(px, x, 2 * y + 1, px.height as int);
    le32(UPPER_HALF) + seq![top.0, top.1, top.2, bottom.0, bottom.1, bottom.2]
}

/// The cells `0..n` of column `x`, top down.
pub open spec fn xp_column(px: &Pixels, x: int, n: int) -> Seq<u8>
    decreases n,
{
    if n <= 0 {
        Seq::empty()
    } else {
        xp_column(px, x, n - 1) + xp_cell(px, x, n - 1)
    }
}

/// Number of character rows: two pixel rows per cell, the last one
/// possibly half empty.
pub open spec fn char_rows(px: &Pixels) -> int {
    (px.height as int + 1) / 2
}

/// The columns `0..x`, left to right.
pub open spec fn xp_columns(px: &Pixels, x: int) -> Seq<u8>
    decreases x,
{
    if x <= 0 {
        Seq::empty()
    } else {
        xp_columns(px, x - 1) + xp_column(px, x - 1, char_rows(px))
    }
}

/// The uncompressed `.xp` image: version -1, one layer, the layer's width
/// and height in cells, then the cells column by column.
pub open spec fn xp_raw(px: &Pixels) -> Seq<u8> {
    le32(0xffff_ffff) + le32(1) + le32(px.width) + le32(char_rows(px) as u32) + xp_columns(px, px.width as int)
}

/// Appends the little-endian bytes of `v`.
fn push_le32(out: &mut Vec<u8>, v: u32)
    ensures
        final(out)@ == old(out)@ + le32(v),
{
    out.push((v % 256) as u8);
    out.push(((v / 256) % 256) as u8);
    out.push(((v / 65536) % 256) as u8);
    out.push((v / 16777216) as u8);
    assert(final(out)@ =~= old(out)@ + le32(v));
}

/// The uncompressed `.xp` bytes of a picture (see [`xp_raw`]).
pub fn xp_bytes(px: &Pixels) -> (r: Vec<u8>)
    requires
        px.wf(),
    ensures
        r@ == xp_raw(px),
{
    let char_w = px.width;
    let char_h = px.height / 2 + px.height % 2;
    assert(char_h == char_rows(px));
    let mut raw: Vec<u8> = Vec::new();
    push_le32(&mut raw, 0xffff_ffff);
    push_le32(&mut raw, 1);
    push_le32(&mut raw, char_w);
    push_le32(&mut raw, char_h);
    let ghost header = raw@;
    let mut x: u32 = 0;
    while x < char_w
        invariant
            px.wf(),
            char_w == px.width,
            char_h == char_rows(px),
            x <= char_w,
            raw@ == header + xp_columns(px, x as int),
        decreases char_w - x,
    {
        let ghost before = raw@;
        let mut y: u32 = 0;
        while y < char_h
            invariant
                px.wf(),
                char_w == px.width,
                char_h == char_rows(px),
                x < char_w,
                y <= char_h,
                raw@ == before + xp_column(px, x as int, y as int),
            decreases char_h - y,
        {
            let top = sample(px, x, y * 2, px.height);
            let bottom = sample(px, x, y * 2 + 1, px.height);
            let ghost mid = raw@;
            push_le32(&mut raw, UPPER_HALF);
            raw.push(top.0);
            raw.push(top.1);
            raw.push(top.2);
            raw.push(bottom.0);
            raw.push(bottom.1);
            raw.push(bottom.2);
            assert(raw@ =~= mid + xp_cell(px, x as int, y as int));
            y = y + 1;
        }
        x = x + 1;
    }
    raw
}

/// The gzip stream that flate2's `GzEncoder` writes for `data` at the
/// default compression level.
pub uninterp spec fn gzip_stream(data: Seq<u8>) -> Seq<u8>;

/// The fixed gzip header `GzEncoder::new` writes: magic, deflate, no flags,
/// no time stamp, no level hint, unknown system.
pub open spec fn gzip_header() -> Seq<u8> {
    seq![0x1fu8, 0x8bu8, 8u8, 0u8, 0u8, 0u8, 0u8, 0u8, 0u8, 255u8]
}

/// Compresses `data` with flate2's `GzEncoder` (default level) into memory:
/// `write_all`, then `finish`. Claimed: the call succeeds (the encoder's
/// error paths are errors of the inner writer, which a `Vec` never returns,
/// and deflate misuse, which this one write followed by one finish never
/// commits); the result is [`gzip_stream`] of the data; it begins with the
/// header that `GzBuilder::into_header` builds (see [`gzip_header`]) and ends
/// with the data's length modulo 2^32, little-endian, as `try_finish` writes
/// it. Not claimed: the deflate blocks and the CRC in between.
#[verifier::external_body]
fn gzip(data: &Vec<u8>) -> (r: Option<Vec<u8>>)
    ensures
        r is Some,
        r matches Some(b) ==> {
            &&& b@ == gzip_stream(data@)
            &&& b@.len() >= 18
            &&& b@.subrange(0, 10) == gzip_header()
            &&& b@.subrange(b@.len() - 4, b@.len() as int) == le32((data@.len() % 0x1_0000_0000) as u32)
        },
{
    let mut encoder = flate2::write::GzEncoder::new(Vec::new(), flate2::Compression::default());
    match std::io::Write::write_all(&mut encoder, data) {
        Ok(()) => {},
        Err(_) => return None,
    }
    encoder.finish().ok()
}

/// A picture as a compressed `.xp` file: the gzip stream of [`xp_raw`].
/// Compressing into memory always succeeds.
pub fn encode_xp(px: &Pixels) -> (r: Option<Vec<u8>>)
    requires
        px.wf(),
    ensures
        r is Some,
        r matches Some(b) ==> {
            &&& b@ == gzip_stream(xp_raw(px))
            &&& b@.subrange(0, 10) == gzip_header()
            &&& b@.subrange(b@.len() - 4, b@.len() as int) == le32((xp_raw(px).len() % 0x1_0000_0000) as u32)
        },
{
    let raw = xp_bytes(px);
    gzip(&raw)
}

} // verus!
