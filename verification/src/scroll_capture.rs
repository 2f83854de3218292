//! Scroll-and-stitch helpers for `screenshot` with `mode=scrolled`: request
//! validation, PNG decode / encode through the `png` crate, and exact crop
//! / vertical stitch of 8-bit RGBA bitmaps.

use vstd::prelude::*;

use crate::protocol::ScreenshotMode;
use crate::screenshot::{
    confine_screenshot_path, confine_spec, png_magic, require_screenshot_path, screenshot_unavailable,
    SCREENSHOT_UNAVAILABLE,
};
use crate::text::{
    chars_of, concat3, decimal, decimal_string, has_tag, has_tag_exec, push_chars, tagged,
    tagged_string, trim, trim_bounds,
};

verus! {

/// Safety cap when the client omits `max_height_px`, and the largest cap a
/// client may ask for.
pub const DEFAULT_MAX_HEIGHT_PX: u32 = 16384;

/// Fail closed rather than stitching an unbounded number of window grabs.
pub const MAX_SCROLL_TILES: u32 = 32;

/// Refuse a stitched PNG bigger than this.
pub const MAX_SCROLLED_PNG_BYTES: usize = 33554432;

/// Stable error prefix when the host cannot resolve or drive `target`.
pub const SCROLL_UNAVAILABLE: &'static str = "scroll_unavailable";

pub fn scroll_unavailable(detail: &str) -> (r: String)
    ensures
        r@ == tagged(SCROLL_UNAVAILABLE@, detail@),
{
    tagged_string(SCROLL_UNAVAILABLE, detail)
}

pub fn is_scroll_unavailable(error: &str) -> (r: bool)
    ensures
        r == has_tag(error@, SCROLL_UNAVAILABLE@),
{
    has_tag_exec(error, SCROLL_UNAVAILABLE)
}

/// Borrowed `screenshot` fields after the request was parsed.
#[derive(Debug, Clone, Copy)]
pub struct ScreenshotSpec<'a> {
    pub path: Option<&'a str>,
    pub mode: ScreenshotMode,
    pub target: Option<&'a str>,
    pub max_height_px: Option<u32>,
}

pub open spec fn opt_view(o: Option<&str>) -> Option<Seq<char>> {
    match o {
        Some(s) => Some(s@),
        None => None,
    }
}

/// The trimmed target if it is non-empty.
pub open spec fn usable_target(t: Option<Seq<char>>) -> Option<Seq<char>> {
    match t {
        Some(s) if trim(s).len() > 0 => Some(trim(s)),
        _ => None,
    }
}

pub open spec fn validate_spec(
    mode: ScreenshotMode,
    target: Option<Seq<char>>,
    max_height_px: Option<u32>,
) -> Result<(), Seq<char>> {
    if mode == ScreenshotMode::Scrolled && usable_target(target) is None {
        Err("screenshot mode=scrolled requires target"@)
    } else {
        match max_height_px {
            Some(h) if h == 0 => Err("max_height_px must be > 0"@),
            Some(h) if h > DEFAULT_MAX_HEIGHT_PX => Err(
                "max_height_px exceeds 16384 (got "@ + decimal(h as nat) + ")"@,
            ),
            _ => Ok(()),
        }
    }
}

fn borrow_opt(o: &Option<String>) -> (r: Option<&str>)
    ensures
        match o {
            Some(s) => r matches Some(t) && t@ == s@,
            None => r is None,
        },
{
    match o {
        Some(s) => Some(s.as_str()),
        None => None,
    }
}

fn usable(o: Option<&str>) -> (r: Option<&str>)
    ensures
        match usable_target(opt_view(o)) {
            Some(t) => r matches Some(q) && q@ == t,
            None => r is None,
        },
{
    match o {
        Some(s) => {
            let v = chars_of(s);
            let (a, b) = trim_bounds(&v);
            if a < b {
                Some(s.substring_char(a, b))
            } else {
                None
            }
        },
        None => None,
    }
}

impl<'a> ScreenshotSpec<'a> {
    pub fn from_op(
        path: &'a Option<String>,
        mode: ScreenshotMode,
        target: &'a Option<String>,
        max_height_px: Option<u32>,
    ) -> (r: Self)
        ensures
            opt_view(r.path) == (match path {
                Some(s) => Some(s@),
                None => None::<Seq<char>>,
            }),
            opt_view(r.target) == (match target {
                Some(s) => Some(s@),
                None => None::<Seq<char>>,
            }),
            r.mode == mode,
            r.max_height_px == max_height_px,
    {
        ScreenshotSpec { path: borrow_opt(path), mode, target: borrow_opt(target), max_height_px }
    }

    /// Protocol checks that do not require a pixel surface.
    pub fn validate_request(&self) -> (r: Result<(), String>)
        ensures
            match r {
                Ok(()) => validate_spec(self.mode, opt_view(self.target), self.max_height_px) is Ok,
                Err(e) => validate_spec(self.mode, opt_view(self.target), self.max_height_px)
                    == Err::<(), Seq<char>>(e@),
            },
    {
        if self.mode.is_scrolled() {
            if usable(self.target).is_none() {
                return Err("screenshot mode=scrolled requires target".to_owned());
            }
        }
        if let Some(h) = self.max_height_px {
            if h == 0 {
                return Err("max_height_px must be > 0".to_owned());
            }
            if h > DEFAULT_MAX_HEIGHT_PX {
                let digits = decimal_string(h as u64);
                return Err(concat3("max_height_px exceeds 16384 (got ", &digits, ")"));
            }
        }
        Ok(())
    }

    pub fn height_cap(&self) -> (r: u32)
        ensures
            r == (match self.max_height_px {
                Some(h) => h,
                None => DEFAULT_MAX_HEIGHT_PX,
            }),
    {
        match self.max_height_px {
            Some(h) => h,
            None => DEFAULT_MAX_HEIGHT_PX,
        }
    }

    pub fn scrolled_target(&self) -> (r: Result<&'a str, String>)
        ensures
            match usable_target(opt_view(self.target)) {
                Some(t) => r matches Ok(q) && q@ == t,
                None => r matches Err(e) && e@ == "screenshot mode=scrolled requires target"@,
            },
    {
        match usable(self.target) {
            Some(t) => Ok(t),
            None => Err("screenshot mode=scrolled requires target".to_owned()),
        }
    }
}

/// Decoded 8-bit RGBA bitmap, rows top to bottom, four bytes per pixel.
#[derive(Debug, Clone, PartialEq, Eq)]
pub struct RgbaImage {
    pub width: u32,
    pub height: u32,
    pub pixels: Vec<u8>,
}

impl RgbaImage {
    /// The buffer holds exactly `width * height` pixels.
    pub open spec fn wf(&self) -> bool {
        self.pixels@.len() == self.width * self.height * 4
    }

    pub open spec fn new_spec(width: u32, height: u32, len: nat) -> Result<(), Seq<char>> {
        let need = width * height * 4;
        if need > usize::MAX {
            Err("rgba image size overflow"@)
        } else if len != need {
            Err(
                "rgba buffer length "@ + decimal(len) + " != "@ + decimal(need as nat) + " ("@
                    + decimal(width as nat) + "x"@ + decimal(height as nat) + ")"@,
            )
        } else {
            Ok(())
        }
    }

    pub fn new(width: u32, height: u32, pixels: Vec<u8>) -> (r: Result<Self, String>)
        ensures
            match r {
                Ok(img) => Self::new_spec(width, height, pixels@.len()) is Ok && img.width == width
                    && img.height == height && img.pixels@ == pixels@ && img.wf(),
                Err(e) => Self::new_spec(width, height, pixels@.len()) == Err::<(), Seq<char>>(
                    e@,
                ),
            },
    {
        let wu: usize = width as usize;
        let hu: usize = height as usize;
        let need: usize = match wu.checked_mul(hu) {
            Some(n) => match n.checked_mul(4) {
                Some(m) => m,
                None => {
                    assert(width * height * 4 > usize::MAX);
                    return Err("rgba image size overflow".to_owned());
                },
            },
            None => {
                assert(width * height * 4 > usize::MAX) by (nonlinear_arith)
                    requires
                        width * height > usize::MAX,
                ;
                return Err("rgba image size overflow".to_owned());
            },
        };
        if pixels.len() != need {
            let a = decimal_string(pixels.len() as u64);
            let b = decimal_string(need as u64);
            let c = decimal_string(width as u64);
            let d = decimal_string(height as u64);
            let mut msg = concat3("rgba buffer length ", &a, " != ");
            push_chars(&mut msg, &b);
            msg.append(" (");
            push_chars(&mut msg, &c);
            msg.append("x");
            push_chars(&mut msg, &d);
            msg.append(")");
            assert(msg@ =~= "rgba buffer length "@ + decimal(pixels@.len()) + " != "@ + decimal(
                need as nat,
            ) + " ("@ + decimal(width as nat) + "x"@ + decimal(height as nat) + ")"@);
            return Err(msg);
        }
        Ok(RgbaImage { width, height, pixels })
    }

    /// Byte offset of pixel `(x, y)`.
    pub fn pixel_index(&self, x: u32, y: u32) -> (r: usize)
        requires
            self.wf(),
            x < self.width,
            y < self.height,
        ensures
            r == (y * self.width + x) * 4,
            r + 4 <= self.pixels@.len(),
    {
        let n = self.pixels.len();
        proof {
            lemma_pixel_index_bound(self.width as int, self.height as int, x as int, y as int);
            assert(y * self.width <= y * self.width + x);
        }
        let row: usize = y as usize * self.width as usize;
        (row + x as usize) * 4
    }
}

proof fn lemma_pixel_index_bound(w: int, h: int, x: int, y: int)
    requires
        0 <= x < w,
        0 <= y < h,
    ensures
        (y * w + x) * 4 + 4 <= w * h * 4,
        y * w + x < w * h,
        0 <= y * w + x,
{
    assert(y * w + x < w * h) by (nonlinear_arith)
        requires
            0 <= x < w,
            0 <= y < h,
    ;
    assert(0 <= y * w) by (nonlinear_arith)
        requires
            0 <= x < w,
            0 <= y < h,
    ;
}

/// Byte `i` of the `[x, y, w, h)` crop of a `src_w`-wide bitmap.
pub open spec fn crop_byte(src: Seq<u8>, src_w: int, x: int, y: int, w: int, i: int) -> u8 {
    src[((y + i / (w * 4)) * src_w + x) * 4 + i % (w * 4)]
}

pub open spec fn crop_error(src: RgbaImage, x: u32, y: u32, w: u32, h: u32) -> Option<Seq<char>> {
    if w == 0 || h == 0 {
        Some("crop size must be > 0"@)
    } else if x + w > src.width || y + h > src.height {
        Some(
            "crop ("@ + decimal(x as nat) + ","@ + decimal(y as nat) + ","@ + decimal(w as nat)
                + ","@ + decimal(h as nat) + ") outside "@ + decimal(src.width as nat) + "x"@
                + decimal(src.height as nat),
        )
    } else {
        None
    }
}

proof fn lemma_crop_row_offsets(sw: int, sh: int, x: int, y: int, w: int, h: int, row: int)
    requires
        0 < w,
        0 < h,
        0 <= x,
        0 <= y,
        x + w <= sw,
        y + h <= sh,
        0 <= row < h,
    ensures
        0 <= ((y + row) * sw + x) * 4,
        ((y + row) * sw + x) * 4 + w * 4 <= sw * sh * 4,
        row * (w * 4) + w * 4 <= h * (w * 4),
        0 <= row * (w * 4),
{
    assert(((y + row) * sw + x) * 4 + w * 4 <= sw * sh * 4) by (nonlinear_arith)
        requires
            0 < w,
            0 <= x,
            x + w <= sw,
            0 <= y + row < sh,
    ;
    assert(0 <= ((y + row) * sw + x) * 4) by (nonlinear_arith)
        requires
            0 <= x,
            0 <= y + row,
            0 < sw,
    ;
    assert(row * (w * 4) + w * 4 <= h * (w * 4)) by (nonlinear_arith)
        requires
            0 <= row < h,
            0 < w,
    ;
    assert(0 <= row * (w * 4)) by (nonlinear_arith)
        requires
            0 <= row,
            0 < w,
    ;
}

proof fn lemma_crop_index(w: int, row: int, col: int)
    requires
        0 < w,
        0 <= row,
        0 <= col < w * 4,
    ensures
        (row * (w * 4) + col) / (w * 4) == row,
        (row * (w * 4) + col) % (w * 4) == col,
{
    assert((row * (w * 4) + col) / (w * 4) == row && (row * (w * 4) + col) % (w * 4) == col)
        by (nonlinear_arith)
        requires
            0 < w,
            0 <= row,
            0 <= col < w * 4,
    ;
}

/// Crop `src` to `[x, y, w, h)` in bitmap pixels.
pub fn crop_rgba(src: &RgbaImage, x: u32, y: u32, w: u32, h: u32) -> (r: Result<RgbaImage, String>)
    requires
        src.wf(),
    ensures
        match r {
            Ok(img) => crop_error(*src, x, y, w, h) is None && img.wf() && img.width == w
                && img.height == h && forall|i: int|
                0 <= i < img.pixels@.len() ==> #[trigger] img.pixels@[i] == crop_byte(
                    src.pixels@,
                    src.width as int,
                    x as int,
                    y as int,
                    w as int,
                    i,
                ),
            Err(e) => crop_error(*src, x, y, w, h) == Some(e@),
        },
{
    if w == 0 || h == 0 {
        return Err("crop size must be > 0".to_owned());
    }
    let right = x.checked_add(w);
    let bottom = y.checked_add(h);
    let outside = match (right, bottom) {
        (Some(rr), Some(bb)) => rr > src.width || bb > src.height,
        _ => true,
    };
    if outside {
        let mut msg = concat3("crop (", &decimal_string(x as u64), ",");
        push_chars(&mut msg, &decimal_string(y as u64));
        msg.append(",");
        push_chars(&mut msg, &decimal_string(w as u64));
        msg.append(",");
        push_chars(&mut msg, &decimal_string(h as u64));
        msg.append(") outside ");
        push_chars(&mut msg, &decimal_string(src.width as u64));
        msg.append("x");
        push_chars(&mut msg, &decimal_string(src.height as u64));
        assert(msg@ =~= "crop ("@ + decimal(x as nat) + ","@ + decimal(y as nat) + ","@ + decimal(
            w as nat,
        ) + ","@ + decimal(h as nat) + ") outside "@ + decimal(src.width as nat) + "x"@ + decimal(
            src.height as nat,
        ));
        return Err(msg);
    }
    let ghost sw = src.width as int;
    let ghost wi = w as int;
    let mut pixels: Vec<u8> = Vec::new();
    let mut row: u32 = 0;
    while row < h
        invariant
            src.wf(),
            0 < w,
            0 < h,
            x + w <= src.width,
            y + h <= src.height,
            sw == src.width,
            wi == w,
            row <= h,
            pixels@.len() == row * (w * 4),
            forall|i: int|
                0 <= i < pixels@.len() ==> #[trigger] pixels@[i] == crop_byte(
                    src.pixels@,
                    sw,
                    x as int,
                    y as int,
                    wi,
                    i,
                ),
        decreases h - row,
    {
        proof {
            lemma_crop_row_offsets(
                sw,
                src.height as int,
                x as int,
                y as int,
                wi,
                h as int,
                row as int,
            );
        }
        let n = src.pixels.len();
        assert((y + row) * src.width <= ((y + row) * sw + x) * 4) by (nonlinear_arith)
            requires
                sw == src.width,
                0 <= x,
                0 <= (y + row) * sw,
        ;
        let line: usize = ((y + row) as usize) * (src.width as usize);
        let start: usize = (line + (x as usize)) * 4;
        let len: usize = (w as usize) * 4;
        let ghost base = pixels@.len() as int;
        let mut k: usize = 0;
        while k < len
            invariant
                src.wf(),
                0 < w,
                len == w * 4,
                wi == w,
                sw == src.width,
                base == row * (w * 4),
                start == ((y + row) * sw + x) * 4,
                start + len <= src.pixels@.len(),
                n == src.pixels@.len(),
                k <= len,
                pixels@.len() == base + k,
                forall|i: int|
                    0 <= i < pixels@.len() ==> #[trigger] pixels@[i] == crop_byte(
                        src.pixels@,
                        sw,
                        x as int,
                        y as int,
                        wi,
                        i,
                    ),
            decreases len - k,
        {
            let byte = src.pixels[start + k];
            proof {
                lemma_crop_index(wi, row as int, k as int);
            }
            pixels.push(byte);
            k += 1;
        }
        row += 1;
        assert(pixels@.len() == row * (w * 4)) by (nonlinear_arith)
            requires
                pixels@.len() == (row - 1) * (w * 4) + w * 4,
        ;
    }
    assert(pixels@.len() == w * h * 4) by (nonlinear_arith)
        requires
            pixels@.len() == h * (w * 4),
    ;
    let plen = pixels.len();
    assert(w * h * 4 <= usize::MAX);
    match RgbaImage::new(w, h, pixels) {
        Ok(img) => Ok(img),
        Err(e) => {
            assert(false);
            Err(e)
        },
    }
}

/// The first problem `stitch_tiles_vertically` reports, scanning tiles from
/// index `i` with `acc` rows already stacked.
pub open spec fn stitch_scan(tiles: Seq<RgbaImage>, width: u32, i: int, acc: int) -> Option<
    Seq<char>,
>
    decreases tiles.len() - i,
{
    if i >= tiles.len() || i < 0 {
        None
    } else if tiles[i].width != width {
        Some(
            "tile "@ + decimal(i as nat) + " width "@ + decimal(tiles[i].width as nat)
                + " != first tile "@ + decimal(width as nat),
        )
    } else if tiles[i].height == 0 {
        Some("tile "@ + decimal(i as nat) + " height must be > 0"@)
    } else if acc + tiles[i].height > u32::MAX {
        Some("stitched height overflow"@)
    } else {
        stitch_scan(tiles, width, i + 1, acc + tiles[i].height)
    }
}

pub open spec fn stitch_error(tiles: Seq<RgbaImage>) -> Option<Seq<char>> {
    if tiles.len() == 0 {
        Some("scrolled screenshot produced no tiles"@)
    } else if tiles[0].width == 0 {
        Some("tile width must be > 0"@)
    } else {
        stitch_scan(tiles, tiles[0].width, 0, 0)
    }
}

/// Total rows of the first `n` tiles.
pub open spec fn total_height(tiles: Seq<RgbaImage>, n: int) -> int
    decreases n,
{
    if n <= 0 {
        0
    } else {
        total_height(tiles, n - 1) + tiles[n - 1].height
    }
}

/// Pixels of the first `n` tiles, top to bottom.
pub open spec fn stacked_pixels(tiles: Seq<RgbaImage>, n: int) -> Seq<u8>
    decreases n,
{
    if n <= 0 {
        Seq::empty()
    } else {
        stacked_pixels(tiles, n - 1) + tiles[n - 1].pixels@
    }
}

/// Concatenate tiles top to bottom. Widths must match; nothing is invented.
pub fn stitch_tiles_vertically(tiles: &[RgbaImage]) -> (r: Result<RgbaImage, String>)
    requires
        forall|i: int| 0 <= i < tiles@.len() ==> (#[trigger] tiles@[i]).wf(),
    ensures
        match r {
            Ok(img) => stitch_error(tiles@) is None && img.wf() && img.width == tiles@[0].width
                && img.height == total_height(tiles@, tiles@.len() as int) && img.pixels@
                == stacked_pixels(tiles@, tiles@.len() as int),
            Err(e) => stitch_error(tiles@) == Some(e@),
        },
{
    if tiles.len() == 0 {
        return Err("scrolled screenshot produced no tiles".to_owned());
    }
    let width = tiles[0].width;
    if width == 0 {
        return Err("tile width must be > 0".to_owned());
    }
    let mut height: u32 = 0;
    let mut i: usize = 0;
    while i < tiles.len()
        invariant
            i <= tiles@.len(),
            width == tiles@[0].width,
            width > 0,
            tiles@.len() > 0,
            height == total_height(tiles@, i as int),
            forall|j: int| 0 <= j < i ==> (#[trigger] tiles@[j]).width == width,
            stitch_scan(tiles@, width, 0, 0) == stitch_scan(tiles@, width, i as int, height as int),
        decreases tiles.len() - i,
    {
        let t = &tiles[i];
        if t.width != width {
            let mut msg = concat3("tile ", &decimal_string(i as u64), " width ");
            push_chars(&mut msg, &decimal_string(t.width as u64));
            msg.append(" != first tile ");
            push_chars(&mut msg, &decimal_string(width as u64));
            assert(msg@ =~= "tile "@ + decimal(i as nat) + " width "@ + decimal(t.width as nat)
                + " != first tile "@ + decimal(width as nat));
            return Err(msg);
        }
        if t.height == 0 {
            return Err(concat3("tile ", &decimal_string(i as u64), " height must be > 0"));
        }
        match height.checked_add(t.height) {
            Some(hh) => {
                height = hh;
            },
            None => {
                return Err("stitched height overflow".to_owned());
            },
        }
        i += 1;
    }
    assert(stitch_scan(tiles@, width, tiles@.len() as int, height as int) is None);
    let mut pixels: Vec<u8> = Vec::new();
    let mut k: usize = 0;
    while k < tiles.len()
        invariant
            k <= tiles@.len(),
            tiles@.len() > 0,
            width == tiles@[0].width,
            forall|j: int| 0 <= j < tiles@.len() ==> (#[trigger] tiles@[j]).width == width,
            forall|i: int| 0 <= i < tiles@.len() ==> (#[trigger] tiles@[i]).wf(),
            pixels@ == stacked_pixels(tiles@, k as int),
            pixels@.len() == width * total_height(tiles@, k as int) * 4,
        decreases tiles.len() - k,
    {
        let t = &tiles[k];
        let ghost before = pixels@;
        let mut b: usize = 0;
        while b < t.pixels.len()
            invariant
                b <= t.pixels@.len(),
                pixels@ == before + t.pixels@.subrange(0, b as int),
            decreases t.pixels.len() - b,
        {
            pixels.push(t.pixels[b]);
            b += 1;
            assert(pixels@ =~= before + t.pixels@.subrange(0, b as int));
        }
        assert(t.pixels@.subrange(0, t.pixels@.len() as int) =~= t.pixels@);
        proof {
            assert(t.pixels@.len() == width * t.height * 4);
            assert(pixels@.len() == width * (total_height(tiles@, k as int) + t.height) * 4)
                by (nonlinear_arith)
                requires
                    pixels@.len() == width * total_height(tiles@, k as int) * 4 + width * t.height
                        * 4,
            ;
        }
        k += 1;
    }
    let plen = pixels.len();
    assert(width * height * 4 <= usize::MAX);
    match RgbaImage::new(width, height, pixels) {
        Ok(img) => Ok(img),
        Err(e) => {
            assert(false);
            Err(e)
        },
    }
}


// ---------------------------------------------------------------------------
// PNG
// ---------------------------------------------------------------------------

/// A `png::ColorType` code (its `repr(u8)` value).
pub open spec fn png_color_code(c: u8) -> bool {
    c == 0 || c == 2 || c == 3 || c == 4 || c == 6
}

/// A `png::BitDepth` code (its `repr(u8)` value).
pub open spec fn png_depth_code(d: u8) -> bool {
    d == 1 || d == 2 || d == 4 || d == 8 || d == 16
}

/// What the `png` crate decodes `bytes` to: width, height, color type
/// code, bit depth code and the frame's bytes, or the error text.
pub uninterp spec fn png_decoded(bytes: Seq<u8>) -> Result<(u32, u32, u8, u8, Seq<u8>), Seq<char>>;

/// What the `png` crate encodes an 8-bit RGBA bitmap to.
pub uninterp spec fn png_encoded(width: u32, height: u32, pixels: Seq<u8>) -> Result<Seq<u8>, Seq<char>>;

pub open spec fn decoded_view(r: Result<(u32, u32, u8, u8, Vec<u8>), String>) -> Result<
    (u32, u32, u8, u8, Seq<u8>),
    Seq<char>,
> {
    match r {
        Ok((w, h, c, d, b)) => Ok((w, h, c, d, b@)),
        Err(e) => Err(e@),
    }
}

pub open spec fn bytes_result_view(r: Result<Vec<u8>, String>) -> Result<Seq<u8>, Seq<char>> {
    match r {
        Ok(b) => Ok(b@),
        Err(e) => Err(e@),
    }
}

/// `png::Decoder` with `EXPAND | STRIP_16`, `read_info`, then `next_frame`
/// into a buffer of `output_buffer_size` bytes cut to the frame's
/// `buffer_size`; errors are `png decode: ..` / `png frame: ..`. Claimed:
/// the result is a function of the bytes, and the codes are `repr(u8)`
/// values of `ColorType` / `BitDepth`. Not claimed: that an image whose
/// frame does not fit in memory is refused rather than aborting.
#[verifier::external_body]
fn png_decode_frame(bytes: &[u8]) -> (r: Result<(u32, u32, u8, u8, Vec<u8>), String>)
    ensures
        decoded_view(r) == png_decoded(bytes@),
        r matches Ok((_, _, c, d, _)) ==> png_color_code(c) && png_depth_code(d),
{
    let mut decoder = png::Decoder::new(std::io::Cursor::new(bytes));
    decoder.set_transformations(png::Transformations::EXPAND | png::Transformations::STRIP_16);
    let mut reader = decoder.read_info().map_err(|err| format!("png decode: {err}"))?;
    let mut buf = vec![0; reader.output_buffer_size()];
    let info = reader.next_frame(&mut buf).map_err(|err| format!("png frame: {err}"))?;
    buf.truncate(info.buffer_size());
    Ok((info.width, info.height, info.color_type as u8, info.bit_depth as u8, buf))
}

/// The 8-byte signature every PNG file starts with.
pub open spec fn png_header_bytes() -> Seq<u8> {
    seq![137u8, 80u8, 78u8, 71u8, 13u8, 10u8, 26u8, 10u8]
}

/// The `png` encoder sizes an 8-bit RGBA image in plain `usize`
/// arithmetic: a row of `width * 4` bytes plus its filter byte, times
/// `height` rows. Outside these bounds that arithmetic overflows.
pub open spec fn png_size_fits(width: u32, height: u32) -> bool {
    &&& width * 4 + 1 <= usize::MAX
    &&& width * 4 * height <= usize::MAX
}

/// `png::Encoder` for an 8-bit RGBA image: `write_header`,
/// `write_image_data`, `finish`; errors are `png encode header: ..`,
/// `png encode: ..`, `png encode finish: ..`. Claimed: the result is a
/// function of the arguments, and encoded bytes start with the PNG
/// signature (`write_header` writes it first into the buffer). Required:
/// the sizes fit ([`png_size_fits`]), else `write_image_data` overflows.
/// Not claimed: that an image too large for memory is refused rather than
/// aborting.
#[verifier::external_body]
fn png_encode_rgba8(width: u32, height: u32, pixels: &[u8]) -> (r: Result<Vec<u8>, String>)
    requires
        png_size_fits(width, height),
    ensures
        bytes_result_view(r) == png_encoded(width, height, pixels@),
        r matches Ok(b) ==> b@.len() >= 8 && b@.subrange(0, 8) == png_header_bytes(),
{
    let mut out = Vec::new();
    let mut encoder = png::Encoder::new(&mut out, width, height);
    encoder.set_color(png::ColorType::Rgba);
    encoder.set_depth(png::BitDepth::Eight);
    let mut writer = encoder.write_header().map_err(|err| format!("png encode header: {err}"))?;
    writer.write_image_data(pixels).map_err(|err| format!("png encode: {err}"))?;
    writer.finish().map_err(|err| format!("png encode finish: {err}"))?;
    Ok(out)
}

/// `{:?}` of a `png::BitDepth`.
pub open spec fn depth_name(d: u8) -> Seq<char> {
    if d == 1 {
        "One"@
    } else if d == 2 {
        "Two"@
    } else if d == 4 {
        "Four"@
    } else if d == 8 {
        "Eight"@
    } else {
        "Sixteen"@
    }
}

/// Bytes per pixel of the 8-bit color types this module converts.
pub open spec fn samples_of(color: u8) -> int {
    if color == 6 {
        4
    } else if color == 2 {
        3
    } else if color == 4 {
        2
    } else {
        1
    }
}

/// The RGBA bytes of pixel `j` of an 8-bit decoded buffer.
pub open spec fn rgba_pixel(color: u8, buf: Seq<u8>, j: int) -> Seq<u8> {
    if color == 6 {
        seq![buf[4 * j], buf[4 * j + 1], buf[4 * j + 2], buf[4 * j + 3]]
    } else if color == 2 {
        seq![buf[3 * j], buf[3 * j + 1], buf[3 * j + 2], 255u8]
    } else if color == 4 {
        seq![buf[2 * j], buf[2 * j], buf[2 * j], buf[2 * j + 1]]
    } else {
        seq![buf[j], buf[j], buf[j], 255u8]
    }
}

/// `img` is the `width` x `height` frame `buf` of color type `color`, read
/// as RGBA.
pub open spec fn is_rgba_of(img: RgbaImage, width: u32, height: u32, color: u8, buf: Seq<u8>) -> bool {
    &&& img.wf()
    &&& img.width == width
    &&& img.height == height
    &&& forall|j: int, k: int|
        0 <= j < width * height && 0 <= k < 4 ==> #[trigger] img.pixels@[4 * j + k] == rgba_pixel(
            color,
            buf,
            j,
        )[k]
}

/// Why a decoded frame cannot be read as RGBA, if it cannot.
pub open spec fn to_rgba_error(width: u32, height: u32, color: u8, depth: u8, len: nat) -> Option<Seq<char>> {
    let n = width * height;
    if depth != 8 {
        Some("unsupported png bit depth "@ + depth_name(depth))
    } else if n * 4 > usize::MAX {
        Some("png size overflow"@)
    } else if color == 3 {
        Some("unsupported png color type Indexed"@)
    } else if len != n * samples_of(color) {
        Some(
            if color == 6 {
                "png rgba size mismatch"@
            } else if color == 2 {
                "png rgb size mismatch"@
            } else if color == 4 {
                "png gray-alpha size mismatch"@
            } else {
                "png gray size mismatch"@
            },
        )
    } else {
        None
    }
}

proof fn lemma_pixel_bytes(j: int, s: int, n: int)
    requires
        0 <= j < n,
        1 <= s <= 4,
    ensures
        s * j + s <= s * n,
        4 * j + 4 <= 4 * n,
        0 <= s * j,
{
    assert(s * j + s <= s * n && 4 * j + 4 <= 4 * n && 0 <= s * j) by (nonlinear_arith)
        requires
            0 <= j < n,
            1 <= s <= 4,
    ;
}

/// Read an 8-bit decoded frame as RGBA: RGBA is kept, RGB gets opaque
/// alpha, gray is spread over the three channels.
pub fn to_rgba(width: u32, height: u32, color: u8, depth: u8, buf: &[u8]) -> (r: Result<RgbaImage, String>)
    requires
        png_color_code(color),
        png_depth_code(depth),
    ensures
        match to_rgba_error(width, height, color, depth, buf@.len()) {
            Some(e) => r matches Err(x) && x@ == e,
            None => r matches Ok(img) && is_rgba_of(img, width, height, color, buf@),
        },
{
    if depth != 8 {
        let name = if depth == 1 {
            "One"
        } else if depth == 2 {
            "Two"
        } else if depth == 4 {
            "Four"
        } else {
            "Sixteen"
        };
        let mut e = "unsupported png bit depth ".to_owned();
        e.append(name);
        return Err(e);
    }
    let wu: usize = width as usize;
    let hu: usize = height as usize;
    let n: usize = match wu.checked_mul(hu) {
        Some(n) => n,
        None => {
            assert(width * height * 4 > usize::MAX) by (nonlinear_arith)
                requires
                    width * height > usize::MAX,
            ;
            return Err("png size overflow".to_owned());
        },
    };
    let total: usize = match n.checked_mul(4) {
        Some(t) => t,
        None => return Err("png size overflow".to_owned()),
    };
    if color == 3 {
        return Err("unsupported png color type Indexed".to_owned());
    }
    let s: usize = if color == 6 {
        4
    } else if color == 2 {
        3
    } else if color == 4 {
        2
    } else {
        1
    };
    assert(n * s <= n * 4) by (nonlinear_arith)
        requires
            s <= 4,
    ;
    let need: usize = n * s;
    if buf.len() != need {
        let msg = if color == 6 {
            "png rgba size mismatch"
        } else if color == 2 {
            "png rgb size mismatch"
        } else if color == 4 {
            "png gray-alpha size mismatch"
        } else {
            "png gray size mismatch"
        };
        return Err(msg.to_owned());
    }
    let mut pixels: Vec<u8> = Vec::new();
    let mut j: usize = 0;
    while j < n
        invariant
            n == width * height,
            total == n * 4,
            s == samples_of(color),
            buf@.len() == n * s,
            j <= n,
            pixels@.len() == 4 * j,
            forall|q: int, k: int| 0 <= q < j && 0 <= k < 4 ==> #[trigger] pixels@[4 * q + k] == rgba_pixel(color, buf@, q)[k],
        decreases n - j,
    {
        proof {
            lemma_pixel_bytes(j as int, s as int, n as int);
        }
        let b: usize = s * j;
        let (p0, p1, p2, p3) = if color == 6 {
            (buf[b], buf[b + 1], buf[b + 2], buf[b + 3])
        } else if color == 2 {
            (buf[b], buf[b + 1], buf[b + 2], 255u8)
        } else if color == 4 {
            (buf[b], buf[b], buf[b], buf[b + 1])
        } else {
            (buf[b], buf[b], buf[b], 255u8)
        };
        let ghost before = pixels@;
        pixels.push(p0);
        pixels.push(p1);
        pixels.push(p2);
        pixels.push(p3);
        proof {
            let px = rgba_pixel(color, buf@, j as int);
            assert(px[0] == p0 && px[1] == p1 && px[2] == p2 && px[3] == p3);
            assert forall|q: int, k: int| 0 <= q < j + 1 && 0 <= k < 4 implies #[trigger] pixels@[4 * q + k] == rgba_pixel(color, buf@, q)[k] by {
                if q < j {
                    assert(4 * q + k < 4 * j);
                    assert(pixels@[4 * q + k] == before[4 * q + k]);
                } else {
                    assert(q == j);
                }
            }
        }
        j += 1;
    }
    assert(pixels@.len() == width * height * 4);
    Ok(RgbaImage { width, height, pixels })
}

/// The PNG signature's first four bytes, `\x89PNG`.
pub open spec fn png_signature(b: Seq<u8>) -> bool {
    b.len() >= 4 && b[0] == 0x89 && b[1] == 0x50 && b[2] == 0x4e && b[3] == 0x47
}

/// How `decode_png_rgba` reads `bytes`.
pub open spec fn decode_png_spec(bytes: Seq<u8>) -> Result<(), Seq<char>> {
    if !png_signature(bytes) {
        Err(tagged(SCREENSHOT_UNAVAILABLE@, "not a PNG"@))
    } else {
        match png_decoded(bytes) {
            Err(e) => Err(e),
            Ok((w, h, c, d, buf)) => match to_rgba_error(w, h, c, d, buf.len()) {
                Some(e) => Err(e),
                None => Ok(()),
            },
        }
    }
}

/// Decode a PNG into 8-bit RGBA: refused unless it starts with the PNG
/// signature; otherwise what the `png` crate decodes, read by [`to_rgba`].
pub fn decode_png_rgba(bytes: &[u8]) -> (r: Result<RgbaImage, String>)
    ensures
        match decode_png_spec(bytes@) {
            Err(e) => r matches Err(x) && x@ == e,
            Ok(()) => r matches Ok(img) && match png_decoded(bytes@) {
                Ok((w, h, c, _, buf)) => is_rgba_of(img, w, h, c, buf),
                Err(_) => false,
            },
        },
{
    if bytes.len() < 4 || bytes[0] != 0x89 || bytes[1] != 0x50 || bytes[2] != 0x4e || bytes[3] != 0x47 {
        return Err(screenshot_unavailable("not a PNG"));
    }
    match png_decode_frame(bytes) {
        Err(e) => Err(e),
        Ok((w, h, c, d, buf)) => to_rgba(w, h, c, d, buf.as_slice()),
    }
}

/// Whether the `png` encoder can size `img` (see [`png_size_fits`]).
pub fn png_size_ok(img: &RgbaImage) -> (r: bool)
    ensures
        r == png_size_fits(img.width, img.height),
{
    let row = (img.width as u128) * 4;
    assert(row * img.height <= 0x4_0000_0000u128 * 0x1_0000_0000u128) by (nonlinear_arith)
        requires
            row <= 0x4_0000_0000u128,
            img.height <= 0x1_0000_0000u128,
    ;
    let total = row * (img.height as u128);
    row + 1 <= usize::MAX as u128 && total <= usize::MAX as u128
}

/// Encode an 8-bit RGBA bitmap as PNG with the `png` crate.
pub fn encode_png_rgba(img: &RgbaImage) -> (r: Result<Vec<u8>, String>)
    requires
        png_size_fits(img.width, img.height),
    ensures
        bytes_result_view(r) == png_encoded(img.width, img.height, img.pixels@),
        r matches Ok(b) ==> b@.len() >= 8 && b@.subrange(0, 8) == png_header_bytes(),
{
    png_encode_rgba8(img.width, img.height, img.pixels.as_slice())
}

/// Bytes that start with the PNG signature, as every successful
/// `encode_png_rgba` result does, pass the PNG check that a host applies to
/// a file read back (`written_png_verdict`) and that `decode_png` applies
/// before decoding.
pub proof fn lemma_encoded_png_is_recognised(b: Seq<u8>)
    requires
        b.len() >= 8,
        b.subrange(0, 8) == png_header_bytes(),
    ensures
        png_magic(b),
        png_signature(b),
{
    assert(b[0] == b.subrange(0, 8)[0]);
    assert(b[1] == b.subrange(0, 8)[1]);
    assert(b[2] == b.subrange(0, 8)[2]);
    assert(b[3] == b.subrange(0, 8)[3]);
}

/// What a windowed host makes of a scrolled screenshot request before it
/// starts scrolling: the protocol checks, a path that must be given and
/// stay under `base`, a target that must be the one scroll view `scroll_id`
/// it can drive; on success the client path (trimmed) and the target.
pub open spec fn scrolled_job_spec(
    path: Option<Seq<char>>,
    target: Option<Seq<char>>,
    max_height_px: Option<u32>,
    base: Seq<char>,
    scroll_id: Seq<char>,
) -> Result<(Seq<char>, Seq<char>), Seq<char>> {
    match validate_spec(ScreenshotMode::Scrolled, target, max_height_px) {
        Err(e) => Err(e),
        Ok(()) => match path {
            Some(p) if trim(p).len() > 0 => match confine_spec(trim(p), base) {
                Err(e) => Err(e),
                Ok(_) => match usable_target(target) {
                    None => Err("screenshot mode=scrolled requires target"@),
                    Some(t) => if t == scroll_id {
                        Ok((trim(p), t))
                    } else {
                        Err(tagged(
                            SCROLL_UNAVAILABLE@,
                            "unknown scroll target `"@ + t + "` (want "@ + scroll_id + ")"@,
                        ))
                    },
                },
            },
            _ => Err("screenshot requires path"@),
        },
    }
}

/// Check a scrolled screenshot request (see [`scrolled_job_spec`]).
pub fn scrolled_job_request(
    path: Option<&str>,
    target: Option<&str>,
    max_height_px: Option<u32>,
    base: &str,
    scroll_id: &str,
) -> (r: Result<(String, String), String>)
    ensures
        match scrolled_job_spec(opt_view(path), opt_view(target), max_height_px, base@, scroll_id@) {
            Ok((p, t)) => r matches Ok((a, b)) && a@ == p && b@ == t,
            Err(e) => r matches Err(x) && x@ == e,
        },
{
    let spec = ScreenshotSpec { path, mode: ScreenshotMode::Scrolled, target, max_height_px };
    match spec.validate_request() {
        Err(e) => return Err(e),
        Ok(()) => {},
    }
    let p = match require_screenshot_path(path) {
        Ok(p) => p,
        Err(e) => return Err(e),
    };
    match confine_screenshot_path(p, base) {
        Err(e) => return Err(e),
        Ok(_) => {},
    }
    let t = match spec.scrolled_target() {
        Ok(t) => t,
        Err(e) => return Err(e),
    };
    if !crate::text::str_eq(t, scroll_id) {
        let mut detail = "unknown scroll target `".to_owned();
        detail.append(t);
        detail.append("` (want ");
        detail.append(scroll_id);
        detail.append(")");
        return Err(scroll_unavailable(detail.as_str()));
    }
    Ok((p.to_owned(), t.to_owned()))
}

/// The answer of a scrolled capture once the scroll offset was put back:
/// the capture's own error comes first; a capture that worked fails only
/// if putting the offset back failed.
pub fn with_restore<T>(run: Result<T, String>, restore: Result<(), String>) -> (r: Result<T, String>)
    ensures
        match run {
            Err(e) => r matches Err(x) && x@ == e@,
            Ok(v) => match restore {
                Ok(()) => r matches Ok(w) && w == v,
                Err(e) => r matches Err(x) && x@ == "restore scroll failed: "@ + e@,
            },
        },
{
    match run {
        Err(e) => Err(e),
        Ok(v) => match restore {
            Ok(()) => Ok(v),
            Err(e) => {
                let mut msg = "restore scroll failed: ".to_owned();
                msg.append(e.as_str());
                Err(msg)
            },
        },
    }
}

/// A stitched PNG may be at most [`MAX_SCROLLED_PNG_BYTES`] long.
pub fn check_scrolled_png_size(len: usize) -> (r: Result<(), String>)
    ensures
        len <= MAX_SCROLLED_PNG_BYTES ==> r is Ok,
        len > MAX_SCROLLED_PNG_BYTES ==> (r matches Err(e) && e@ == "stitched png exceeds "@
            + decimal(MAX_SCROLLED_PNG_BYTES as nat) + " bytes ("@ + decimal(len as nat) + ")"@),
{
    if len > MAX_SCROLLED_PNG_BYTES {
        let mut e = "stitched png exceeds ".to_owned();
        push_chars(&mut e, &decimal_string(MAX_SCROLLED_PNG_BYTES as u64));
        e.append(" bytes (");
        push_chars(&mut e, &decimal_string(len as u64));
        e.append(")");
        return Err(e);
    }
    Ok(())
}

} // verus!
