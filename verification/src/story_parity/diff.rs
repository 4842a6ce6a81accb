//! Cross-renderer diff and side-by-side composite.
//!
//! Pictures are rows of RGBA8 pixels. The composite sets the first picture on
//! the left, the second on the right, and a black gutter of two pixels between
//! them; whatever a picture does not reach stays transparent.

use crate::text::{cat, cat3, decimal_of};
use vstd::prelude::*;

verus! {

/// Why two pictures could not be compared.
#[derive(Debug, Clone, PartialEq, Eq)]
pub enum DiffError {
    /// The bytes are no PNG, in the decoder's words.
    PngDecode(String),
    /// They are one that cannot be handled here.
    Unsupported(String),
    /// The comparison itself failed, in its own words.
    Compare(String),
}

impl DiffError {
    pub open spec fn told(self) -> Trouble {
        match self {
            DiffError::PngDecode(s) => Trouble::PngDecode(s@),
            DiffError::Unsupported(s) => Trouble::Unsupported(s@),
            DiffError::Compare(s) => Trouble::Compare(s@),
        }
    }
}

/// An error, in the mathematical model.
pub enum Trouble {
    PngDecode(Seq<char>),
    Unsupported(Seq<char>),
    Compare(Seq<char>),
}

// ---------------------------------------------------------------------------
// Pictures
// ---------------------------------------------------------------------------

/// How a decoder hands out samples.
#[derive(Debug, Clone, Copy, PartialEq, Eq, Structural)]
pub enum ColorType {
    Grayscale,
    Rgb,
    Indexed,
    GrayscaleAlpha,
    Rgba,
}

/// One decoded frame.
#[derive(Debug, Clone, PartialEq, Eq)]
pub struct Frame {
    pub color_type: ColorType,
    pub width: u32,
    pub height: u32,
    pub data: Vec<u8>,
}

/// A frame, in the mathematical model.
pub struct FrameModel {
    pub color_type: ColorType,
    pub width: u32,
    pub height: u32,
    pub data: Seq<u8>,
}

impl Frame {
    pub open spec fn model(self) -> FrameModel {
        FrameModel {
            color_type: self.color_type,
            width: self.width,
            height: self.height,
            data: self.data@,
        }
    }
}

/// A picture in RGBA8.
#[derive(Debug, Clone, PartialEq, Eq)]
pub struct Picture {
    pub data: Vec<u8>,
    pub width: u32,
    pub height: u32,
}

/// A picture, in the mathematical model.
pub struct Pixels {
    pub data: Seq<u8>,
    pub width: u32,
    pub height: u32,
}

impl Picture {
    pub open spec fn pixels(self) -> Pixels {
        Pixels { data: self.data@, width: self.width, height: self.height }
    }
}

impl Pixels {
    /// Whether the data holds exactly the rows that the size asks for.
    pub open spec fn complete(self) -> bool {
        self.data.len() == self.width * self.height * 4
    }

    /// The four samples of one pixel.
    pub open spec fn pixel(self, x: int, y: int) -> Seq<u8> {
        pixel(self.data, self.width as int, x, y)
    }
}

/// The four samples of pixel `(x, y)` in rows of `w` pixels.
pub open spec fn pixel(data: Seq<u8>, w: int, x: int, y: int) -> Seq<u8> {
    data.subrange(offset(w, x, y), offset(w, x, y) + 4)
}

/// Where pixel `(x, y)` starts in rows of `w` pixels.
pub open spec fn offset(w: int, x: int, y: int) -> int {
    (y * w + x) * 4
}

// ---------------------------------------------------------------------------
// Decoding and encoding
// ---------------------------------------------------------------------------

/// What the `png` decoder makes of bytes with its default settings: the first
/// frame, or the words it refuses them with.
pub uninterp spec fn png_frame(bytes: Seq<u8>) -> Result<FrameModel, Seq<char>>;

/// What the `png` encoder makes of RGBA8 data of the given size: a file, or the
/// words it refuses it with.
pub uninterp spec fn png_file(data: Seq<u8>, width: u32, height: u32) -> Result<
    Seq<u8>,
    Seq<char>,
>;

/// A decoder's outcome, in the mathematical model.
pub open spec fn frame_told(res: Result<Frame, String>) -> Result<FrameModel, Seq<char>> {
    match res {
        Ok(f) => Ok(f.model()),
        Err(e) => Err(e@),
    }
}

/// An encoder's outcome, in the mathematical model.
pub open spec fn file_told(res: Result<Vec<u8>, String>) -> Result<Seq<u8>, Seq<char>> {
    match res {
        Ok(f) => Ok(f@),
        Err(e) => Err(e@),
    }
}

/// `png::Decoder::read_info` and `png::Reader::next_frame`: the first frame of
/// the file with its colour type, its size and as many bytes as it says it
/// fills, or the decoder's words. How the bytes are decoded is left to the name.
/// It allocates as much as the file says that the frame takes.
#[verifier::external_body]
fn decode_frame(bytes: &Vec<u8>) -> (res: Result<Frame, String>)
    ensures
        frame_told(res) == png_frame(bytes@),
{
    let mut reader = png::Decoder::new(bytes.as_slice()).read_info().map_err(|e| e.to_string())?;
    let mut data = vec![0; reader.output_buffer_size()];
    let info = reader.next_frame(&mut data).map_err(|e| e.to_string())?;
    data.truncate(info.buffer_size());
    let color_type = match info.color_type {
        png::ColorType::Grayscale => ColorType::Grayscale,
        png::ColorType::Rgb => ColorType::Rgb,
        png::ColorType::Indexed => ColorType::Indexed,
        png::ColorType::GrayscaleAlpha => ColorType::GrayscaleAlpha,
        png::ColorType::Rgba => ColorType::Rgba,
    };
    Ok(Frame { color_type, width: info.width, height: info.height, data })
}

/// `png::Encoder` set to eight-bit RGBA: the file it writes for the data, or its
/// words. How the data is packed is left to the name. It multiplies the size out
/// without looking for overflow, so the data must be what the size asks for.
#[verifier::external_body]
fn encode_rgba(data: &Vec<u8>, width: u32, height: u32) -> (res: Result<Vec<u8>, String>)
    requires
        data@.len() == width * height * 4,
    ensures
        file_told(res) == png_file(data@, width, height),
{
    let mut file = Vec::new();
    let mut encoder = png::Encoder::new(&mut file, width, height);
    encoder.set_color(png::ColorType::Rgba);
    encoder.set_depth(png::BitDepth::Eight);
    let mut writer = encoder.write_header().map_err(|e| e.to_string())?;
    writer.write_image_data(data).map_err(|e| e.to_string())?;
    writer.finish().map_err(|e| e.to_string())?;
    Ok(file)
}

// ---------------------------------------------------------------------------
// Sizes
// ---------------------------------------------------------------------------

/// The words for a picture whose bytes cannot be counted.
pub open spec fn too_large(w: u32, h: u32) -> Seq<char> {
    "image of "@ + crate::text::decimal(w as nat) + "x"@ + crate::text::decimal(h as nat)
        + " is too large"@
}

/// Byte length of a `w` by `h` RGBA8 buffer, or an error: the size comes out of
/// a file, and must not wrap.
pub fn rgba_len(w: u32, h: u32) -> (res: Result<usize, DiffError>)
    ensures
        w * h * 4 <= usize::MAX ==> res == Ok::<usize, DiffError>((w * h * 4) as usize),
        w * h * 4 > usize::MAX ==> (res matches Err(e) && e.told() == Trouble::Unsupported(
            too_large(w, h),
        )),
{
    assert(0 <= w * h <= u32::MAX * u32::MAX) by (nonlinear_arith)
        requires
            0 <= w <= u32::MAX,
            0 <= h <= u32::MAX,
    ;
    let len: u128 = w as u128 * h as u128 * 4;
    if len <= usize::MAX as u128 {
        Ok(len as usize)
    } else {
        let mut out: String = cat3("image of ", decimal_of(w as u64).as_str(), "x");
        out.append(decimal_of(h as u64).as_str());
        out.append(" is too large");
        assert(out@ =~= too_large(w, h));
        Err(DiffError::Unsupported(out))
    }
}

/// Byte offset of pixel `(x, y)` in rows of `dw` pixels, where it can be
/// counted.
pub fn px_off(dw: u32, x: u32, y: u32) -> (res: Option<usize>)
    ensures
        crate::text::as_place(res) == (if offset(dw as int, x as int, y as int) <= usize::MAX {
            Some(offset(dw as int, x as int, y as int))
        } else {
            None::<int>
        }),
{
    assert(0 <= y * dw <= u32::MAX * u32::MAX) by (nonlinear_arith)
        requires
            0 <= y <= u32::MAX,
            0 <= dw <= u32::MAX,
    ;
    let at: u128 = (y as u128 * dw as u128 + x as u128) * 4;
    if at <= usize::MAX as u128 {
        Some(at as usize)
    } else {
        None
    }
}

pub open spec fn saturated(a: u32, b: int) -> int {
    if a + b > u32::MAX {
        u32::MAX as int
    } else {
        a + b
    }
}

// ---------------------------------------------------------------------------
// Drawing
// ---------------------------------------------------------------------------

/// `data` with `bytes` laid over it from `at`.
pub open spec fn overlaid(data: Seq<u8>, at: int, bytes: Seq<u8>) -> Seq<u8> {
    Seq::new(
        data.len(),
        |i: int|
            if at <= i < at + bytes.len() {
                bytes[i - at]
            } else {
                data[i]
            },
    )
}

/// A buffer being drawn on, and whether the drawing still goes on.
pub struct Drawing {
    pub data: Seq<u8>,
    pub going: bool,
}

/// The first `rows` rows of `src` copied to `(x, y)`: the copying ends at the
/// first row that either buffer does not hold.
pub open spec fn blitted(
    src: Seq<u8>,
    sw: u32,
    dst: Seq<u8>,
    dw: u32,
    x: u32,
    y: u32,
    rows: nat,
) -> Drawing
    decreases rows,
{
    if rows == 0 {
        Drawing { data: dst, going: true }
    } else {
        let row = rows - 1;
        let now = blitted(src, sw, dst, dw, x, y, row as nat);
        let from = offset(sw as int, 0, row);
        let to = offset(dw as int, x as int, saturated(y, row));
        let len = sw * 4;
        if now.going && from + len <= src.len() && to + len <= dst.len() {
            Drawing {
                data: overlaid(now.data, to, src.subrange(from, from + len)),
                going: true,
            }
        } else {
            Drawing { data: now.data, going: false }
        }
    }
}

/// The first `cols` pixels of a row set to one colour: the painting ends at the
/// first pixel whose place cannot be counted, and passes over those the buffer
/// does not hold.
pub open spec fn row_painted(
    from: Drawing,
    dw: u32,
    x: u32,
    y: int,
    cols: nat,
    rgba: Seq<u8>,
) -> Drawing
    decreases cols,
{
    if cols == 0 {
        from
    } else {
        let now = row_painted(from, dw, x, y, (cols - 1) as nat, rgba);
        let at = offset(dw as int, saturated(x, cols - 1), y);
        if !now.going || at + 4 > usize::MAX {
            Drawing { data: now.data, going: false }
        } else if at + 4 <= now.data.len() {
            Drawing { data: overlaid(now.data, at, rgba), going: true }
        } else {
            now
        }
    }
}

/// The first `rows` rows of a rectangle set to one colour.
pub open spec fn painted(
    dst: Seq<u8>,
    dw: u32,
    x: u32,
    y: u32,
    w: u32,
    rows: nat,
    rgba: Seq<u8>,
) -> Drawing
    decreases rows,
{
    if rows == 0 {
        Drawing { data: dst, going: true }
    } else {
        row_painted(
            painted(dst, dw, x, y, w, (rows - 1) as nat, rgba),
            dw,
            x,
            saturated(y, rows - 1),
            w as nat,
            rgba,
        )
    }
}

fn overlay(dst: &mut Vec<u8>, at: usize, src: &Vec<u8>, from: usize, len: usize)
    requires
        at + len <= old(dst)@.len(),
        from + len <= src@.len(),
    ensures
        final(dst)@ == overlaid(old(dst)@, at as int, src@.subrange(from as int, from + len)),
{
    let have: usize = dst.len();
    let given: usize = src.len();
    assert(at + len <= have && from + len <= given);
    let mut i: usize = 0;
    while i < len
        invariant
            i <= len,
            at + len <= old(dst)@.len() <= usize::MAX,
            from + len <= src@.len() <= usize::MAX,
            dst@ == overlaid(old(dst)@, at as int, src@.subrange(from as int, from + i)),
        decreases len - i,
    {
        dst.set(at + i, src[from + i]);
        i = i + 1;
        assert(dst@ =~= overlaid(old(dst)@, at as int, src@.subrange(from as int, from + i)));
    }
    assert(dst@ =~= overlaid(old(dst)@, at as int, src@.subrange(from as int, from + len)));
}

/// A copy that has ended stays ended.
proof fn lemma_copy_ended(
    src: Seq<u8>,
    sw: u32,
    dst: Seq<u8>,
    dw: u32,
    x: u32,
    y: u32,
    rows: nat,
    more: nat,
)
    requires
        rows <= more,
        !blitted(src, sw, dst, dw, x, y, rows).going,
    ensures
        blitted(src, sw, dst, dw, x, y, more) == blitted(src, sw, dst, dw, x, y, rows),
    decreases more - rows,
{
    if rows < more {
        lemma_copy_ended(src, sw, dst, dw, x, y, rows, (more - 1) as nat);
    }
}

/// Copy `src`, `sh` rows of `sw` pixels, into `dst` at `(x, y)`.
///
/// Rows that would fall outside either buffer are left out: a clipped composite
/// is a far better outcome than a dead run.
pub fn blit(src: &Vec<u8>, sw: u32, sh: u32, dst: &mut Vec<u8>, dw: u32, x: u32, y: u32)
    ensures
        final(dst)@ == blitted(src@, sw, old(dst)@, dw, x, y, sh as nat).data,
        final(dst)@.len() == old(dst)@.len(),
{
    let mut row: u32 = 0;
    while row < sh
        invariant
            row <= sh,
            blitted(src@, sw, old(dst)@, dw, x, y, row as nat).going,
            dst@ == blitted(src@, sw, old(dst)@, dw, x, y, row as nat).data,
            dst@.len() == old(dst)@.len(),
        decreases sh - row,
    {
        let ghost next = blitted(src@, sw, old(dst)@, dw, x, y, (row + 1) as nat);
        let below: u32 = if y > u32::MAX - row {
            u32::MAX
        } else {
            y + row
        };
        let len: u64 = sw as u64 * 4;
        let given: usize = src.len();
        let have: usize = dst.len();
        let from: Option<usize> = px_off(sw, 0, row);
        let to: Option<usize> = px_off(dw, x, below);
        let fits: Option<(usize, usize)> = match (from, to) {
            (Some(f), Some(t)) => if f <= given && len <= (given - f) as u64 && t <= have && len
                <= (have - t) as u64 {
                Some((f, t))
            } else {
                None
            },
            _ => None,
        };
        match fits {
            Some((f, t)) => {
                overlay(dst, t, src, f, len as usize);
            },
            None => {
                proof {
                    assert(!next.going);
                    lemma_copy_ended(
                        src@,
                        sw,
                        old(dst)@,
                        dw,
                        x,
                        y,
                        (row + 1) as nat,
                        sh as nat,
                    );
                }
                return ;
            },
        }
        row = row + 1;
    }
}

proof fn lemma_row_ended(from: Drawing, dw: u32, x: u32, y: int, cols: nat, more: nat, rgba: Seq<u8>)
    requires
        cols <= more,
        !row_painted(from, dw, x, y, cols, rgba).going,
    ensures
        row_painted(from, dw, x, y, more, rgba) == row_painted(from, dw, x, y, cols, rgba),
    decreases more - cols,
{
    if cols < more {
        lemma_row_ended(from, dw, x, y, cols, (more - 1) as nat, rgba);
    }
}

proof fn lemma_painting_ended(
    dst: Seq<u8>,
    dw: u32,
    x: u32,
    y: u32,
    w: u32,
    rows: nat,
    more: nat,
    rgba: Seq<u8>,
)
    requires
        rows <= more,
        !painted(dst, dw, x, y, w, rows, rgba).going,
    ensures
        painted(dst, dw, x, y, w, more, rgba) == painted(dst, dw, x, y, w, rows, rgba),
    decreases more - rows,
{
    if rows < more {
        lemma_painting_ended(dst, dw, x, y, w, rows, (more - 1) as nat, rgba);
        let now = painted(dst, dw, x, y, w, rows, rgba);
        assert(painted(dst, dw, x, y, w, (more - 1) as nat, rgba) == now);
        let below = saturated(y, more - 1);
        assert(row_painted(now, dw, x, below, 0, rgba) == now);
        lemma_row_ended(now, dw, x, below, 0, w as nat, rgba);
    }
}

/// Fill a `w` by `h` rectangle at `(x, y)` with one colour.
pub fn fill_rect(dst: &mut Vec<u8>, dw: u32, x: u32, y: u32, w: u32, h: u32, rgba: [u8; 4])
    ensures
        final(dst)@ == painted(old(dst)@, dw, x, y, w, h as nat, rgba@).data,
        final(dst)@.len() == old(dst)@.len(),
{
    let mut colour: Vec<u8> = Vec::new();
    colour.push(rgba[0]);
    colour.push(rgba[1]);
    colour.push(rgba[2]);
    colour.push(rgba[3]);
    assert(colour@ =~= rgba@);
    assert(colour@.subrange(0, 4) =~= rgba@);
    let mut row: u32 = 0;
    while row < h
        invariant
            row <= h,
            colour@ == rgba@,
            colour@.len() == 4,
            colour@.subrange(0, 4) == rgba@,
            painted(old(dst)@, dw, x, y, w, row as nat, rgba@).going,
            dst@ == painted(old(dst)@, dw, x, y, w, row as nat, rgba@).data,
            dst@.len() == old(dst)@.len(),
        decreases h - row,
    {
        let ghost begun = painted(old(dst)@, dw, x, y, w, row as nat, rgba@);
        let below: u32 = if y > u32::MAX - row {
            u32::MAX
        } else {
            y + row
        };
        let mut col: u32 = 0;
        while col < w
            invariant
                row < h,
                col <= w,
                below == saturated(y, row as int),
                colour@ == rgba@,
                colour@.len() == 4,
                colour@.subrange(0, 4) == rgba@,
                begun == painted(old(dst)@, dw, x, y, w, row as nat, rgba@),
                row_painted(begun, dw, x, below as int, col as nat, rgba@).going,
                dst@ == row_painted(begun, dw, x, below as int, col as nat, rgba@).data,
                dst@.len() == old(dst)@.len(),
            decreases w - col,
        {
            let across: u32 = if x > u32::MAX - col {
                u32::MAX
            } else {
                x + col
            };
            let ghost next = row_painted(begun, dw, x, below as int, (col + 1) as nat, rgba@);
            let at: Option<usize> = match px_off(dw, across, below) {
                Some(off) => if off <= usize::MAX - 4 {
                    Some(off)
                } else {
                    None
                },
                None => None,
            };
            match at {
                Some(off) => {
                    if off <= dst.len() && dst.len() - off >= 4 {
                        overlay(dst, off, &colour, 0, 4);
                    }
                },
                None => {
                    proof {
                        assert(!next.going);
                        lemma_row_ended(
                            begun,
                            dw,
                            x,
                            below as int,
                            (col + 1) as nat,
                            w as nat,
                            rgba@,
                        );
                        lemma_painting_ended(
                            old(dst)@,
                            dw,
                            x,
                            y,
                            w,
                            (row + 1) as nat,
                            h as nat,
                            rgba@,
                        );
                    }
                    return ;
                },
            }
            col = col + 1;
        }
        row = row + 1;
    }
}

// ---------------------------------------------------------------------------
// Colours
// ---------------------------------------------------------------------------

/// The RGBA8 samples that a frame's samples stand for. Samples that do not make
/// up a whole pixel at the end are dropped.
pub open spec fn rgba_samples(color_type: ColorType, data: Seq<u8>) -> Seq<u8> {
    match color_type {
        ColorType::Rgba | ColorType::Indexed => data,
        ColorType::Rgb => Seq::new(
            data.len() / 3 * 4,
            |i: int|
                if i % 4 == 3 {
                    255u8
                } else {
                    data[i / 4 * 3 + i % 4]
                },
        ),
        ColorType::Grayscale => Seq::new(
            data.len() * 4,
            |i: int|
                if i % 4 == 3 {
                    255u8
                } else {
                    data[i / 4]
                },
        ),
        ColorType::GrayscaleAlpha => Seq::new(
            data.len() / 2 * 4,
            |i: int|
                if i % 4 == 3 {
                    data[i / 4 * 2 + 1]
                } else {
                    data[i / 4 * 2]
                },
        ),
    }
}

/// A frame as a picture: RGBA is taken as it is, RGB and grayscale are widened,
/// a palette is refused.
pub open spec fn as_picture(f: FrameModel) -> Result<Pixels, Trouble> {
    if f.color_type == ColorType::Indexed {
        Err(Trouble::Unsupported("unsupported PNG color type Indexed"@))
    } else if f.color_type != ColorType::Rgba && f.width * f.height * 4 > usize::MAX {
        Err(Trouble::Unsupported(too_large(f.width, f.height)))
    } else {
        Ok(
            Pixels {
                data: rgba_samples(f.color_type, f.data),
                width: f.width,
                height: f.height,
            },
        )
    }
}

/// A picture's outcome, in the mathematical model.
pub open spec fn picture_told(res: Result<Picture, DiffError>) -> Result<Pixels, Trouble> {
    match res {
        Ok(p) => Ok(p.pixels()),
        Err(e) => Err(e.told()),
    }
}

fn push_pixel(out: &mut Vec<u8>, r: u8, g: u8, b: u8, a: u8)
    ensures
        final(out)@ == old(out)@ + seq![r, g, b, a],
{
    out.push(r);
    out.push(g);
    out.push(b);
    out.push(a);
    assert(out@ =~= old(out)@ + seq![r, g, b, a]);
}

fn from_rgb(data: &Vec<u8>) -> (out: Vec<u8>)
    ensures
        out@ == rgba_samples(ColorType::Rgb, data@),
{
    let mut out: Vec<u8> = Vec::new();
    let whole: usize = data.len() / 3;
    let mut n: usize = 0;
    while n < whole
        invariant
            n <= whole == data@.len() / 3,
            data@.len() <= usize::MAX,
            out@.len() == n * 4,
            forall|i: int|
                0 <= i < out@.len() ==> #[trigger] out@[i] == (if i % 4 == 3 {
                    255u8
                } else {
                    data@[i / 4 * 3 + i % 4]
                }),
        decreases whole - n,
    {
        push_pixel(&mut out, data[n * 3], data[n * 3 + 1], data[n * 3 + 2], 255);
        n = n + 1;
    }
    assert(out@ =~= rgba_samples(ColorType::Rgb, data@));
    out
}

fn from_grayscale(data: &Vec<u8>) -> (out: Vec<u8>)
    ensures
        out@ == rgba_samples(ColorType::Grayscale, data@),
{
    let mut out: Vec<u8> = Vec::new();
    let mut n: usize = 0;
    while n < data.len()
        invariant
            n <= data@.len(),
            out@.len() == n * 4,
            forall|i: int|
                0 <= i < out@.len() ==> #[trigger] out@[i] == (if i % 4 == 3 {
                    255u8
                } else {
                    data@[i / 4]
                }),
        decreases data@.len() - n,
    {
        push_pixel(&mut out, data[n], data[n], data[n], 255);
        n = n + 1;
    }
    assert(out@ =~= rgba_samples(ColorType::Grayscale, data@));
    out
}

fn from_grayscale_alpha(data: &Vec<u8>) -> (out: Vec<u8>)
    ensures
        out@ == rgba_samples(ColorType::GrayscaleAlpha, data@),
{
    let mut out: Vec<u8> = Vec::new();
    let whole: usize = data.len() / 2;
    let mut n: usize = 0;
    while n < whole
        invariant
            n <= whole == data@.len() / 2,
            data@.len() <= usize::MAX,
            out@.len() == n * 4,
            forall|i: int|
                0 <= i < out@.len() ==> #[trigger] out@[i] == (if i % 4 == 3 {
                    data@[i / 4 * 2 + 1]
                } else {
                    data@[i / 4 * 2]
                }),
        decreases whole - n,
    {
        push_pixel(&mut out, data[n * 2], data[n * 2], data[n * 2], data[n * 2 + 1]);
        n = n + 1;
    }
    assert(out@ =~= rgba_samples(ColorType::GrayscaleAlpha, data@));
    out
}

/// A decoded frame as a picture.
pub fn to_rgba(frame: Frame) -> (res: Result<Picture, DiffError>)
    ensures
        picture_told(res) == as_picture(frame.model()),
{
    let width: u32 = frame.width;
    let height: u32 = frame.height;
    match frame.color_type {
        ColorType::Rgba => Ok(Picture { data: frame.data, width, height }),
        ColorType::Indexed => Err(
            DiffError::Unsupported("unsupported PNG color type Indexed".to_owned()),
        ),
        _ => {
            match rgba_len(width, height) {
                Ok(_) => {},
                Err(e) => {
                    return Err(e);
                },
            }
            let data: Vec<u8> = match frame.color_type {
                ColorType::Rgb => from_rgb(&frame.data),
                ColorType::Grayscale => from_grayscale(&frame.data),
                _ => from_grayscale_alpha(&frame.data),
            };
            Ok(Picture { data, width, height })
        },
    }
}

/// What a file's bytes decode to.
pub open spec fn decoded(bytes: Seq<u8>) -> Result<Pixels, Trouble> {
    match png_frame(bytes) {
        Ok(f) => as_picture(f),
        Err(e) => Err(Trouble::PngDecode(e)),
    }
}

/// Decode a PNG to RGBA8.
pub fn decode_rgba(bytes: &Vec<u8>) -> (res: Result<Picture, DiffError>)
    ensures
        picture_told(res) == decoded(bytes@),
{
    match decode_frame(bytes) {
        Ok(frame) => to_rgba(frame),
        Err(e) => Err(DiffError::PngDecode(e)),
    }
}

// ---------------------------------------------------------------------------
// Side by side
// ---------------------------------------------------------------------------

/// Pixels between the two pictures.
pub const GUTTER: u32 = 2;

/// The words for two pictures too wide to stand beside each other.
pub open spec fn too_wide(aw: u32, bw: u32) -> Seq<char> {
    "composite width overflows: "@ + crate::text::decimal(aw as nat) + "+"@
        + crate::text::decimal(bw as nat)
}

pub open spec fn taller(a: u32, b: u32) -> u32 {
    if a >= b {
        a
    } else {
        b
    }
}

/// A buffer of transparent black.
pub open spec fn blank(len: nat) -> Seq<u8> {
    Seq::new(len, |i: int| 0u8)
}

/// Opaque black.
pub open spec fn black() -> Seq<u8> {
    seq![0u8, 0u8, 0u8, 255u8]
}

/// The samples of the composite.
pub open spec fn composed(a: Pixels, b: Pixels) -> Seq<u8> {
    let w = (a.width + GUTTER + b.width) as u32;
    let h = taller(a.height, b.height);
    let left = blitted(
        a.data,
        a.width,
        blank((w * h * 4) as nat),
        w,
        0,
        0,
        a.height as nat,
    ).data;
    let split = painted(left, w, a.width, 0, GUTTER, h as nat, black()).data;
    blitted(b.data, b.width, split, w, (a.width + GUTTER) as u32, 0, b.height as nat).data
}

/// The composite of two pictures, where its size can be counted.
pub open spec fn side_by_side(a: Pixels, b: Pixels) -> Result<Pixels, Trouble> {
    let w = a.width + GUTTER + b.width;
    let h = taller(a.height, b.height);
    if w > u32::MAX {
        Err(Trouble::Unsupported(too_wide(a.width, b.width)))
    } else if w * h * 4 > usize::MAX {
        Err(Trouble::Unsupported(too_large(w as u32, h)))
    } else {
        Ok(Pixels { data: composed(a, b), width: w as u32, height: h })
    }
}

/// Set two pictures side by side, each at its own width and padded to the
/// taller of the two.
pub fn compose(a: &Picture, b: &Picture) -> (res: Result<Picture, DiffError>)
    ensures
        picture_told(res) == side_by_side(a.pixels(), b.pixels()),
        res matches Ok(p) ==> p.data@.len() == p.width * p.height * 4,
{
    let height: u32 = if a.height >= b.height {
        a.height
    } else {
        b.height
    };
    let wide: u64 = a.width as u64 + GUTTER as u64 + b.width as u64;
    if wide > u32::MAX as u64 {
        let mut out: String = cat3(
            "composite width overflows: ",
            decimal_of(a.width as u64).as_str(),
            "+",
        );
        out.append(decimal_of(b.width as u64).as_str());
        assert(out@ =~= too_wide(a.width, b.width));
        return Err(DiffError::Unsupported(out));
    }
    let width: u32 = wide as u32;
    let len: usize = match rgba_len(width, height) {
        Ok(n) => n,
        Err(e) => {
            return Err(e);
        },
    };
    let mut data: Vec<u8> = vec![0u8; len];
    assert(data@ =~= blank((width * height * 4) as nat));
    blit(&a.data, a.width, a.height, &mut data, width, 0, 0);
    let opaque: [u8; 4] = [0u8, 0u8, 0u8, 255u8];
    assert(opaque@ =~= black());
    fill_rect(&mut data, width, a.width, 0, GUTTER, height, opaque);
    blit(&b.data, b.width, b.height, &mut data, width, a.width + GUTTER, 0);
    Ok(Picture { data, width, height })
}

/// What encoding a picture gives.
pub open spec fn encoded(p: Pixels) -> Result<Seq<u8>, Trouble> {
    match png_file(p.data, p.width, p.height) {
        Ok(file) => Ok(file),
        Err(e) => Err(Trouble::Unsupported("png encode: "@ + e)),
    }
}

/// The composite file of two files, or the first thing that went wrong.
pub open spec fn composite_file(left: Seq<u8>, right: Seq<u8>) -> Result<Seq<u8>, Trouble> {
    match decoded(left) {
        Err(e) => Err(e),
        Ok(a) => match decoded(right) {
            Err(e) => Err(e),
            Ok(b) => match side_by_side(a, b) {
                Err(e) => Err(e),
                Ok(c) => encoded(c),
            },
        },
    }
}

/// A file's outcome, in the mathematical model.
pub open spec fn bytes_told(res: Result<Vec<u8>, DiffError>) -> Result<Seq<u8>, Trouble> {
    match res {
        Ok(f) => Ok(f@),
        Err(e) => Err(e.told()),
    }
}

/// Name the file that was written, or say that it was not.
pub fn file_written(written: Result<Vec<u8>, String>) -> (res: Result<Vec<u8>, DiffError>)
    ensures
        match written {
            Ok(file) => bytes_told(res) == Ok::<Seq<u8>, Trouble>(file@),
            Err(e) => bytes_told(res) == Err::<Seq<u8>, Trouble>(
                Trouble::Unsupported("png encode: "@ + e@),
            ),
        },
{
    match written {
        Ok(file) => Ok(file),
        Err(e) => Err(DiffError::Unsupported(cat("png encode: ", e.as_str()))),
    }
}

/// Decode each PNG and emit the side-by-side composite as a PNG.
pub fn build_side_by_side(left: &Vec<u8>, right: &Vec<u8>) -> (res: Result<Vec<u8>, DiffError>)
    ensures
        bytes_told(res) == composite_file(left@, right@),
{
    let a: Picture = match decode_rgba(left) {
        Ok(p) => p,
        Err(e) => {
            return Err(e);
        },
    };
    let b: Picture = match decode_rgba(right) {
        Ok(p) => p,
        Err(e) => {
            return Err(e);
        },
    };
    let c: Picture = match compose(&a, &b) {
        Ok(p) => p,
        Err(e) => {
            return Err(e);
        },
    };
    let written: Result<Vec<u8>, String> = encode_rgba(&c.data, c.width, c.height);
    file_written(written)
}

// ---------------------------------------------------------------------------
// The report
// ---------------------------------------------------------------------------

/// How a comparison of two pictures came out, with its score.
#[derive(Debug, Clone)]
pub enum Compared<S> {
    /// Within the threshold.
    Within(S),
    /// Above it.
    Above(S),
    /// Not comparable.
    Failed(DiffError),
}

/// What a comparison of two renderers found. The score and the threshold are of
/// whatever type the comparison scores in.
#[derive(Debug, Clone)]
pub struct ParityReport<S> {
    pub story: &'static str,
    pub blitz_png: Vec<u8>,
    pub wry_png: Vec<u8>,
    pub composite_png: Vec<u8>,
    pub dssim_score: S,
    pub threshold: S,
    pub passed: bool,
}

/// Report on two renderings of a story, given how they compared. A score above
/// the threshold is no error: the report says that they did not pass, and
/// carries the composite all the same.
pub fn diff_renderers<S>(
    story: &'static str,
    blitz_png: Vec<u8>,
    wry_png: Vec<u8>,
    threshold: S,
    compared: Compared<S>,
) -> (res: Result<ParityReport<S>, DiffError>)
    ensures
        match compared {
            Compared::Failed(e) => res == Err::<ParityReport<S>, DiffError>(e),
            _ => match composite_file(blitz_png@, wry_png@) {
                Err(e) => res matches Err(f) && f.told() == e,
                Ok(file) => res matches Ok(r) && {
                    &&& r.story == story
                    &&& r.blitz_png == blitz_png
                    &&& r.wry_png == wry_png
                    &&& r.composite_png@ == file
                    &&& r.threshold == threshold
                    &&& r.passed == (compared is Within)
                    &&& match compared {
                        Compared::Within(s) => r.dssim_score == s,
                        Compared::Above(s) => r.dssim_score == s,
                        Compared::Failed(_) => true,
                    }
                },
            },
        },
{
    let (dssim_score, passed): (S, bool) = match compared {
        Compared::Within(s) => (s, true),
        Compared::Above(s) => (s, false),
        Compared::Failed(e) => {
            return Err(e);
        },
    };
    match build_side_by_side(&blitz_png, &wry_png) {
        Ok(composite_png) => Ok(
            ParityReport {
                story,
                blitz_png,
                wry_png,
                composite_png,
                dssim_score,
                threshold,
                passed,
            },
        ),
        Err(e) => Err(e),
    }
}

// ---------------------------------------------------------------------------
// Laws
// ---------------------------------------------------------------------------

/// A pixel of an earlier row ends before the later row begins.
proof fn lemma_rows_apart(w: int, px: int, py: int, row: int)
    requires
        0 <= px < w,
        py < row,
    ensures
        py * w + px + 1 <= row * w,
{
    assert(py * w + w <= row * w) by (nonlinear_arith)
        requires
            py + 1 <= row,
            0 <= w,
    ;
}

proof fn lemma_rows_fit(w: int, h: int, row: int)
    requires
        0 <= row < h,
        0 <= w,
    ensures
        0 <= row * w,
        row * w + w <= w * h,
{
    assert(row * w + w <= w * h) by (nonlinear_arith)
        requires
            row + 1 <= h,
            0 <= w,
    ;
    assert(0 <= row * w) by (nonlinear_arith)
        requires
            0 <= row,
            0 <= w,
    ;
}

/// Laying bytes over whole pixels changes those and no others.
proof fn lemma_overlaid_pixel(data: Seq<u8>, at: int, bytes: Seq<u8>, w: int, px: int, py: int)
    requires
        0 <= at,
        at + bytes.len() <= data.len(),
        0 <= offset(w, px, py),
        offset(w, px, py) + 4 <= data.len(),
    ensures
        overlaid(data, at, bytes).len() == data.len(),
        at <= offset(w, px, py) && offset(w, px, py) + 4 <= at + bytes.len() ==> pixel(
            overlaid(data, at, bytes),
            w,
            px,
            py,
        ) == bytes.subrange(offset(w, px, py) - at, offset(w, px, py) - at + 4),
        offset(w, px, py) + 4 <= at || at + bytes.len() <= offset(w, px, py) ==> pixel(
            overlaid(data, at, bytes),
            w,
            px,
            py,
        ) == pixel(data, w, px, py),
{
    let over = overlaid(data, at, bytes);
    let o = offset(w, px, py);
    if at <= o && o + 4 <= at + bytes.len() {
        assert(pixel(over, w, px, py) =~= bytes.subrange(o - at, o - at + 4));
    }
    if o + 4 <= at || at + bytes.len() <= o {
        assert(pixel(over, w, px, py) =~= pixel(data, w, px, py));
    }
}

/// Copying a whole picture into a wider one that has room for it copies every
/// pixel to its place and touches no other.
pub proof fn law_a_copy_lands_pixel_by_pixel(
    src: Seq<u8>,
    sw: u32,
    sh: u32,
    dst: Seq<u8>,
    dw: u32,
    dh: u32,
    x: u32,
    rows: nat,
)
    requires
        src.len() == sw * sh * 4,
        dst.len() == dw * dh * 4,
        x + sw <= dw,
        rows <= sh <= dh,
    ensures
        ({
            let d = blitted(src, sw, dst, dw, x, 0, rows);
            &&& d.going
            &&& d.data.len() == dst.len()
            &&& forall|px: int, py: int|
                0 <= px < dw && 0 <= py < dh ==> #[trigger] pixel(d.data, dw as int, px, py) == (
                if py < rows && x <= px < x + sw {
                    pixel(src, sw as int, px - x, py)
                } else {
                    pixel(dst, dw as int, px, py)
                })
        }),
    decreases rows,
{
    if rows > 0 {
        let row = rows - 1;
        law_a_copy_lands_pixel_by_pixel(src, sw, sh, dst, dw, dh, x, row as nat);
        let before = blitted(src, sw, dst, dw, x, 0, row as nat);
        let d = blitted(src, sw, dst, dw, x, 0, rows);
        let from = offset(sw as int, 0, row);
        let to = offset(dw as int, x as int, row);
        let len = sw * 4;
        lemma_rows_fit(sw as int, sh as int, row);
        lemma_rows_fit(dw as int, dh as int, row);
        let bytes = src.subrange(from, from + len);
        assert(d.data == overlaid(before.data, to, bytes));
        assert forall|px: int, py: int| 0 <= px < dw && 0 <= py < dh implies #[trigger] pixel(
            d.data,
            dw as int,
            px,
            py,
        ) == (if py < rows && x <= px < x + sw {
            pixel(src, sw as int, px - x, py)
        } else {
            pixel(dst, dw as int, px, py)
        }) by {
            lemma_rows_fit(dw as int, dh as int, py);
            lemma_overlaid_pixel(before.data, to, bytes, dw as int, px, py);
            let was = pixel(before.data, dw as int, px, py);
            if py < row {
                lemma_rows_apart(dw as int, px, py, row);
            } else if py > row {
                lemma_rows_apart(dw as int, dw - 1, row, py);
            } else if x <= px < x + sw {
                let o = offset(dw as int, px, py) - to;
                assert(o == (px - x) * 4);
                assert(bytes.subrange(o, o + 4) =~= pixel(src, sw as int, px - x, py));
            }
        }
    }
}

/// Painting a row of pixels paints those and touches no other.
proof fn lemma_row_painted_pixels(
    from: Drawing,
    dw: u32,
    dh: u32,
    x: u32,
    w: u32,
    row: int,
    cols: nat,
    rgba: Seq<u8>,
)
    requires
        from.going,
        from.data.len() == dw * dh * 4 <= usize::MAX,
        x + w <= dw,
        0 <= row < dh,
        cols <= w,
        rgba.len() == 4,
    ensures
        ({
            let d = row_painted(from, dw, x, row, cols, rgba);
            &&& d.going
            &&& d.data.len() == from.data.len()
            &&& forall|px: int, py: int|
                0 <= px < dw && 0 <= py < dh ==> #[trigger] pixel(d.data, dw as int, px, py) == (
                if py == row && x <= px < x + cols {
                    rgba
                } else {
                    pixel(from.data, dw as int, px, py)
                })
        }),
    decreases cols,
{
    if cols > 0 {
        lemma_row_painted_pixels(from, dw, dh, x, w, row, (cols - 1) as nat, rgba);
        let before = row_painted(from, dw, x, row, (cols - 1) as nat, rgba);
        let d = row_painted(from, dw, x, row, cols, rgba);
        let at = offset(dw as int, x + cols - 1, row);
        lemma_rows_fit(dw as int, dh as int, row);
        assert(at + 4 <= from.data.len());
        assert(d.data == overlaid(before.data, at, rgba));
        assert forall|px: int, py: int| 0 <= px < dw && 0 <= py < dh implies #[trigger] pixel(
            d.data,
            dw as int,
            px,
            py,
        ) == (if py == row && x <= px < x + cols {
            rgba
        } else {
            pixel(from.data, dw as int, px, py)
        }) by {
            lemma_rows_fit(dw as int, dh as int, py);
            lemma_overlaid_pixel(before.data, at, rgba, dw as int, px, py);
            let was = pixel(before.data, dw as int, px, py);
            assert(rgba.subrange(0, 4) =~= rgba);
            if py < row {
                lemma_rows_apart(dw as int, px, py, row);
            } else if py > row {
                lemma_rows_apart(dw as int, x + cols - 1, row, py);
            }
        }
    }
}

/// Painting a rectangle that fits paints its pixels and touches no other.
pub proof fn law_a_rectangle_is_painted_pixel_by_pixel(
    dst: Seq<u8>,
    dw: u32,
    dh: u32,
    x: u32,
    w: u32,
    rows: nat,
    rgba: Seq<u8>,
)
    requires
        dst.len() == dw * dh * 4 <= usize::MAX,
        x + w <= dw,
        rows <= dh,
        rgba.len() == 4,
    ensures
        ({
            let d = painted(dst, dw, x, 0, w, rows, rgba);
            &&& d.going
            &&& d.data.len() == dst.len()
            &&& forall|px: int, py: int|
                0 <= px < dw && 0 <= py < dh ==> #[trigger] pixel(d.data, dw as int, px, py) == (
                if py < rows && x <= px < x + w {
                    rgba
                } else {
                    pixel(dst, dw as int, px, py)
                })
        }),
    decreases rows,
{
    if rows > 0 {
        let row = rows - 1;
        law_a_rectangle_is_painted_pixel_by_pixel(dst, dw, dh, x, w, row as nat, rgba);
        let before = painted(dst, dw, x, 0, w, row as nat, rgba);
        lemma_row_painted_pixels(before, dw, dh, x, w, row, w as nat, rgba);
        let d = painted(dst, dw, x, 0, w, rows, rgba);
        assert forall|px: int, py: int| 0 <= px < dw && 0 <= py < dh implies #[trigger] pixel(
            d.data,
            dw as int,
            px,
            py,
        ) == (if py < rows && x <= px < x + w {
            rgba
        } else {
            pixel(dst, dw as int, px, py)
        }) by {
            let was = pixel(before.data, dw as int, px, py);
        }
    }
}

/// Two complete pictures stand side by side pixel by pixel: the first on the
/// left, black between them, the second on the right, and transparent black
/// below the shorter one.
pub proof fn law_the_composite_shows_both_pictures(a: Pixels, b: Pixels, c: Pixels)
    requires
        a.complete(),
        b.complete(),
        side_by_side(a, b) == Ok::<Pixels, Trouble>(c),
    ensures
        c.width == a.width + GUTTER + b.width,
        c.height == taller(a.height, b.height),
        c.complete(),
        forall|x: int, y: int|
            0 <= x < c.width && 0 <= y < c.height ==> #[trigger] c.pixel(x, y) == (if x < a.width {
                if y < a.height {
                    a.pixel(x, y)
                } else {
                    seq![0u8, 0u8, 0u8, 0u8]
                }
            } else if x < a.width + GUTTER {
                black()
            } else if y < b.height {
                b.pixel(x - a.width - GUTTER, y)
            } else {
                seq![0u8, 0u8, 0u8, 0u8]
            }),
{
    let w = c.width;
    let h = c.height;
    let empty = blank((w * h * 4) as nat);
    let left = blitted(a.data, a.width, empty, w, 0, 0, a.height as nat).data;
    let split = painted(left, w, a.width, 0, GUTTER, h as nat, black()).data;
    assert(0 <= w * h) by (nonlinear_arith)
        requires
            0 <= w,
            0 <= h,
    ;
    law_a_copy_lands_pixel_by_pixel(
        a.data,
        a.width,
        a.height,
        empty,
        w,
        h,
        0,
        a.height as nat,
    );
    law_a_rectangle_is_painted_pixel_by_pixel(left, w, h, a.width, GUTTER, h as nat, black());
    law_a_copy_lands_pixel_by_pixel(
        b.data,
        b.width,
        b.height,
        split,
        w,
        h,
        (a.width + GUTTER) as u32,
        b.height as nat,
    );
    assert forall|x: int, y: int| 0 <= x < c.width && 0 <= y < c.height implies #[trigger] c.pixel(
        x,
        y,
    ) == (if x < a.width {
        if y < a.height {
            a.pixel(x, y)
        } else {
            seq![0u8, 0u8, 0u8, 0u8]
        }
    } else if x < a.width + GUTTER {
        black()
    } else if y < b.height {
        b.pixel(x - a.width - GUTTER, y)
    } else {
        seq![0u8, 0u8, 0u8, 0u8]
    }) by {
        lemma_rows_fit(w as int, h as int, y);
        assert(pixel(empty, w as int, x, y) =~= seq![0u8, 0u8, 0u8, 0u8]);
        let first = pixel(left, w as int, x, y);
        let second = pixel(split, w as int, x, y);
        let third = pixel(c.data, w as int, x, y);
    }
}

/// A picture is read pixel by pixel: of colors without transparency each pixel is opaque,
/// and gray is all three colors alike.
pub proof fn law_pixels_are_read_one_by_one(color_type: ColorType, data: Seq<u8>, p: int)
    requires
        0 <= p,
    ensures
        color_type == ColorType::Rgba ==> rgba_samples(color_type, data) == data,
        color_type == ColorType::Rgb && 3 * p + 3 <= data.len() ==> rgba_samples(
            color_type,
            data,
        ).subrange(4 * p, 4 * p + 4) == seq![
            data[3 * p],
            data[3 * p + 1],
            data[3 * p + 2],
            255u8,
        ],
        color_type == ColorType::Grayscale && p < data.len() ==> rgba_samples(
            color_type,
            data,
        ).subrange(4 * p, 4 * p + 4) == seq![data[p], data[p], data[p], 255u8],
        color_type == ColorType::GrayscaleAlpha && 2 * p + 2 <= data.len() ==> rgba_samples(
            color_type,
            data,
        ).subrange(4 * p, 4 * p + 4) == seq![
            data[2 * p],
            data[2 * p],
            data[2 * p],
            data[2 * p + 1],
        ],
        color_type == ColorType::Rgb ==> rgba_samples(color_type, data).len() == data.len() / 3 * 4,
        color_type == ColorType::Grayscale ==> rgba_samples(color_type, data).len() == data.len() * 4,
        color_type == ColorType::GrayscaleAlpha ==> rgba_samples(color_type, data).len()
            == data.len() / 2 * 4,
{
    if color_type == ColorType::Rgb && 3 * p + 3 <= data.len() {
        lemma_rgb_pixel(data, p);
    }
    if color_type == ColorType::Grayscale && p < data.len() {
        lemma_gray_pixel(data, p);
    }
    if color_type == ColorType::GrayscaleAlpha && 2 * p + 2 <= data.len() {
        lemma_gray_alpha_pixel(data, p);
    }
}

proof fn lemma_rgb_pixel(data: Seq<u8>, p: int)
    requires
        0 <= p,
        3 * p + 3 <= data.len(),
    ensures
        rgba_samples(ColorType::Rgb, data).subrange(4 * p, 4 * p + 4) == seq![
            data[3 * p],
            data[3 * p + 1],
            data[3 * p + 2],
            255u8,
        ],
{
    let out = rgba_samples(ColorType::Rgb, data);
    assert(4 * p + 4 <= out.len());
    assert(out[4 * p] == data[3 * p]);
    assert(out[4 * p + 1] == data[3 * p + 1]);
    assert(out[4 * p + 2] == data[3 * p + 2]);
    assert(out[4 * p + 3] == 255u8);
    assert(out.subrange(4 * p, 4 * p + 4) =~= seq![
        out[4 * p],
        out[4 * p + 1],
        out[4 * p + 2],
        out[4 * p + 3],
    ]);
}

proof fn lemma_gray_pixel(data: Seq<u8>, p: int)
    requires
        0 <= p < data.len(),
    ensures
        rgba_samples(ColorType::Grayscale, data).subrange(4 * p, 4 * p + 4) == seq![
            data[p],
            data[p],
            data[p],
            255u8,
        ],
{
    let out = rgba_samples(ColorType::Grayscale, data);
    assert(4 * p + 4 <= out.len());
    assert(out[4 * p] == data[p]);
    assert(out[4 * p + 1] == data[p]);
    assert(out[4 * p + 2] == data[p]);
    assert(out[4 * p + 3] == 255u8);
    assert(out.subrange(4 * p, 4 * p + 4) =~= seq![
        out[4 * p],
        out[4 * p + 1],
        out[4 * p + 2],
        out[4 * p + 3],
    ]);
}

proof fn lemma_gray_alpha_pixel(data: Seq<u8>, p: int)
    requires
        0 <= p,
        2 * p + 2 <= data.len(),
    ensures
        rgba_samples(ColorType::GrayscaleAlpha, data).subrange(4 * p, 4 * p + 4) == seq![
            data[2 * p],
            data[2 * p],
            data[2 * p],
            data[2 * p + 1],
        ],
{
    let out = rgba_samples(ColorType::GrayscaleAlpha, data);
    assert(4 * p + 4 <= out.len());
    assert(out[4 * p] == data[2 * p]);
    assert(out[4 * p + 1] == data[2 * p]);
    assert(out[4 * p + 2] == data[2 * p]);
    assert(out[4 * p + 3] == data[2 * p + 1]);
    assert(out.subrange(4 * p, 4 * p + 4) =~= seq![
        out[4 * p],
        out[4 * p + 1],
        out[4 * p + 2],
        out[4 * p + 3],
    ]);
}

/// Any picture but one with a palette is taken, at its own size, unless it is too large.
pub proof fn law_only_palettes_are_refused(f: FrameModel)
    ensures
        f.color_type == ColorType::Indexed ==> as_picture(f) is Err,
        f.color_type == ColorType::Rgba ==> as_picture(f) == Ok::<Pixels, Trouble>(
            Pixels { data: f.data, width: f.width, height: f.height },
        ),
        f.color_type != ColorType::Indexed && f.width * f.height * 4 <= usize::MAX ==> as_picture(f)
            is Ok && as_picture(f)->Ok_0.width == f.width && as_picture(f)->Ok_0.height == f.height,
        f.color_type != ColorType::Indexed && f.color_type != ColorType::Rgba && f.width * f.height
            * 4 > usize::MAX ==> as_picture(f) is Err,
{
}

/// Two pictures stand side by side two pixels apart, in a picture as tall as the taller of
/// them; they are refused only where that is too wide or too large.
pub proof fn law_two_pictures_stand_two_pixels_apart(a: Pixels, b: Pixels)
    ensures
        ({
            let width = a.width + 2 + b.width;
            let height = if a.height < b.height {
                b.height
            } else {
                a.height
            };
            &&& side_by_side(a, b) is Ok <==> width <= u32::MAX && width * height * 4 <= usize::MAX
            &&& side_by_side(a, b) is Ok ==> side_by_side(a, b)->Ok_0.width == width && side_by_side(
                a,
                b,
            )->Ok_0.height == height
        }),
{
}

/// A composite is made of both pictures in their order: the trouble of the left one is
/// told first.
pub proof fn law_the_left_picture_is_read_first(left: Seq<u8>, right: Seq<u8>)
    ensures
        decoded(left) is Err ==> composite_file(left, right) == Err::<Seq<u8>, Trouble>(
            decoded(left)->Err_0,
        ),
        decoded(left) is Ok && decoded(right) is Err ==> composite_file(left, right) == Err::<
            Seq<u8>,
            Trouble,
        >(decoded(right)->Err_0),
        png_frame(left) is Err ==> decoded(left) == Err::<Pixels, Trouble>(
            Trouble::PngDecode(png_frame(left)->Err_0),
        ),
{
}

/// Whether a picture shows one picture on the left and another on the right, two black
/// pixels apart, with nothing beneath the shorter one.
pub open spec fn shows_both(c: Pixels, a: Pixels, b: Pixels) -> bool {
    &&& c.width == a.width + 2 + b.width
    &&& a.complete() && b.complete() ==> c.complete() && forall|x: int, y: int|
        0 <= x < c.width && 0 <= y < c.height ==> #[trigger] c.pixel(x, y) == (if x < a.width {
            if y < a.height {
                a.pixel(x, y)
            } else {
                seq![0u8, 0u8, 0u8, 0u8]
            }
        } else if x < a.width + 2 {
            seq![0u8, 0u8, 0u8, 255u8]
        } else if y < b.height {
            b.pixel(x - a.width - 2, y)
        } else {
            seq![0u8, 0u8, 0u8, 0u8]
        })
}

/// A composite file holds the left picture on the left and the right one on the right.
pub proof fn law_a_composite_file_holds_both_pictures(left: Seq<u8>, right: Seq<u8>, file: Seq<u8>)
    requires
        composite_file(left, right) == Ok::<Seq<u8>, Trouble>(file),
    ensures
        decoded(left) is Ok,
        decoded(right) is Ok,
        exists|c: Pixels| #[trigger]
            shows_both(c, decoded(left)->Ok_0, decoded(right)->Ok_0) && png_file(
                c.data,
                c.width,
                c.height,
            ) == Ok::<Seq<u8>, Seq<char>>(file),
{
    let a = decoded(left)->Ok_0;
    let b = decoded(right)->Ok_0;
    let c = side_by_side(a, b)->Ok_0;
    if a.complete() && b.complete() {
        law_the_composite_shows_both_pictures(a, b, c);
    }
    assert(shows_both(c, a, b));
}

} // verus!
