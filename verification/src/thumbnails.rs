//! Window thumbnails: converting the X server's pixel data to RGBA, encoding
//! it as a PNG data URI, and the caches that keep recent captures.
use vstd::prelude::*;
use crate::idmap::IdMap;
use crate::imaging::{
    RgbaImage, ResizeFilter, resize, resized, encode_png_bytes, png_encoding, data_uri,
    data_uri_of, base64_of,
};
use crate::text::{chars_of, string_of, extend_chars, decimal, decimal_chars};

verus! {

broadcast use vstd::string::group_string_axioms;

/// Captures cost a round trip, a scale and a PNG encode, so a recent one is
/// reused for this long, in milliseconds.
pub const CACHE_TTL_MS: i64 = 1500;

/// Refuse absurd captures before allocating for them.
pub const MAX_DIMENSION: u16 = 8192;

/// A window's contents as the X server returns them in `ZPixmap` format.
pub struct Capture {
    pub width: u16,
    pub height: u16,
    pub depth: u8,
    pub pixels: Vec<u8>,
}

/// Bytes per pixel at a depth: 4 for 24 and 32, 2 for 16, 0 when the depth
/// is not supported.
pub open spec fn depth_bytes(depth: u8) -> int {
    if depth == 24 || depth == 32 {
        4
    } else if depth == 16 {
        2
    } else {
        0
    }
}

/// The length of a scanline: rows are padded to four bytes.
pub open spec fn row_stride(width: int, bpp: int) -> int {
    (width * bpp + 3) / 4 * 4
}

/// The bytes a complete capture needs.
pub open spec fn needed_bytes(c: Capture) -> int {
    row_stride(c.width as int, depth_bytes(c.depth)) * c.height
}

/// The RGBA value of the pixel at column `x`, row `y`.
///
/// 24 and 32 bit pixels are little-endian BGRX, and only depth 32 carries
/// alpha; 16 bit pixels are 5-6-5 and are expanded by dropping the low bits.
pub open spec fn rgba_at(c: Capture, x: int, y: int) -> Seq<u8> {
    let bpp = depth_bytes(c.depth);
    let off = y * row_stride(c.width as int, bpp) + x * bpp;
    let p = c.pixels@;
    if bpp == 4 {
        seq![
            p[off + 2],
            p[off + 1],
            p[off],
            if c.depth == 32 {
                p[off + 3]
            } else {
                255u8
            },
        ]
    } else {
        let v = p[off] + p[off + 1] * 256;
        seq![((v / 2048) % 32 * 8) as u8, ((v / 32) % 64 * 4) as u8, (v % 32 * 8) as u8, 255u8]
    }
}

/// A fixed message as characters.
pub fn message(s: &str) -> (out: String)
    ensures
        out@ == s@,
{
    crate::text::owned(s)
}

proof fn lemma_pixel_bounds(x: int, y: int, w: int, h: int, bpp: int, stride: int)
    requires
        0 <= x < w,
        0 <= y < h,
        0 <= bpp,
        w * bpp <= stride,
    ensures
        y * stride + x * bpp + bpp <= stride * h,
        0 <= y * stride + x * bpp,
{
    assert(x * bpp + bpp <= w * bpp) by (nonlinear_arith)
        requires
            x < w,
            0 <= bpp,
    ;
    assert(y * stride + stride <= stride * h) by (nonlinear_arith)
        requires
            y < h,
            0 <= w * bpp <= stride,
    ;
    assert(0 <= x * bpp) by (nonlinear_arith)
        requires
            0 <= x,
            0 <= bpp,
    ;
    assert(0 <= y * stride) by (nonlinear_arith)
        requires
            0 <= y,
            0 <= w * bpp <= stride,
            0 <= bpp,
    ;
}

proof fn lemma_earlier_pixel(x: int, y: int, col: int, row: int, w: int)
    requires
        0 <= x < w,
        0 <= y,
        0 <= col <= w,
        y < row || (y == row && x < col),
    ensures
        (y * w + x) * 4 + 4 <= (row * w + col) * 4,
        0 <= (y * w + x) * 4,
{
    if y < row {
        assert(y * w + w <= row * w) by (nonlinear_arith)
            requires
                y < row,
                0 <= w,
        ;
    }
    assert(0 <= y * w) by (nonlinear_arith)
        requires
            0 <= y,
            0 <= w,
    ;
}

/// Convert the X server's ZPixmap output into RGBA.
pub fn to_rgba(capture: &Capture) -> (r: Result<RgbaImage, String>)
    ensures
        depth_bytes(capture.depth) == 0 ==> (r matches Err(e) && e@ == "Unsupported window depth "@
            + decimal(capture.depth as nat)),
        depth_bytes(capture.depth) != 0 && needed_bytes(*capture) > usize::MAX ==> (r matches Err(e)
            && e@ == "Window is too large to capture"@),
        depth_bytes(capture.depth) != 0 && needed_bytes(*capture) <= usize::MAX
            && capture.pixels@.len() < needed_bytes(*capture) ==> (r matches Err(e) && e@
            == "Window pixel data is incomplete: "@ + decimal(capture.pixels@.len()) + " of "@
            + decimal(needed_bytes(*capture) as nat) + " bytes"@),
        depth_bytes(capture.depth) != 0 && needed_bytes(*capture) <= capture.pixels@.len()
            ==> r is Ok,
        r matches Ok(image) ==> {
            &&& image.wf()
            &&& image.width == capture.width
            &&& image.height == capture.height
            &&& forall|x: int, y: int|
                0 <= x < capture.width && 0 <= y < capture.height ==> #[trigger] image.pixel(x, y)
                    == rgba_at(*capture, x, y)
        },
{
    let bpp: usize = if capture.depth == 24 || capture.depth == 32 {
        4
    } else if capture.depth == 16 {
        2
    } else {
        let mut e = chars_of("Unsupported window depth ");
        let d = decimal_chars(capture.depth as u64);
        extend_chars(&mut e, &d);
        return Err(string_of(&e));
    };
    let width = capture.width as usize;
    let height = capture.height as usize;
    let stride = (width * bpp + 3) / 4 * 4;
    assert(stride == row_stride(width as int, bpp as int));
    assert(needed_bytes(*capture) == stride * height);
    let available = capture.pixels.len();
    let needed = match stride.checked_mul(height) {
        Some(n) => n,
        None => return Err(message("Window is too large to capture")),
    };
    if capture.pixels.len() < needed {
        let mut e = chars_of("Window pixel data is incomplete: ");
        let a = decimal_chars(capture.pixels.len() as u64);
        extend_chars(&mut e, &a);
        let of = chars_of(" of ");
        extend_chars(&mut e, &of);
        let b = decimal_chars(needed as u64);
        extend_chars(&mut e, &b);
        let bytes = chars_of(" bytes");
        extend_chars(&mut e, &bytes);
        return Err(string_of(&e));
    }
    let ghost c = *capture;
    let mut rgba: Vec<u8> = Vec::new();
    let mut row: usize = 0;
    while row < height
        invariant
            c == *capture,
            bpp as int == depth_bytes(capture.depth),
            bpp == 2 || bpp == 4,
            width == capture.width,
            height == capture.height,
            stride == row_stride(width as int, bpp as int),
            needed == stride * height,
            needed <= capture.pixels@.len(),
            row <= height,
            rgba@.len() == (row * width + 0) * 4,
            forall|x: int, y: int|
                0 <= x < width && 0 <= y < row ==> #[trigger] rgba@.subrange(
                    (y * width + x) * 4,
                    (y * width + x) * 4 + 4,
                ) == rgba_at(c, x, y),
        decreases height - row,
    {
        let mut col: usize = 0;
        while col < width
            invariant
                c == *capture,
                bpp as int == depth_bytes(capture.depth),
            bpp == 2 || bpp == 4,
                width == capture.width,
                height == capture.height,
                stride == row_stride(width as int, bpp as int),
                needed == stride * height,
                needed <= capture.pixels@.len(),
                row < height,
                col <= width,
                rgba@.len() == (row * width + col) * 4,
                forall|x: int, y: int|
                    0 <= x < width && 0 <= y && (y < row || (y == row && x < col))
                        ==> #[trigger] rgba@.subrange((y * width + x) * 4, (y * width + x) * 4 + 4)
                        == rgba_at(c, x, y),
            decreases width - col,
        {
            proof {
                assert(width * bpp <= stride);
                lemma_pixel_bounds(col as int, row as int, width as int, height as int, bpp as int, stride as int);
                assert((row * width + col) * 4 + 4 <= width * height * 4) by (nonlinear_arith)
                    requires
                        col < width,
                        row < height,
                ;
            }
            let row_start = row * stride;
            let offset = row_start + col * bpp;
            let (red, green, blue, alpha) = if bpp == 4 {
                let alpha = if capture.depth == 32 {
                    capture.pixels[offset + 3]
                } else {
                    255u8
                };
                (capture.pixels[offset + 2], capture.pixels[offset + 1], capture.pixels[offset], alpha)
            } else {
                let value: u32 = capture.pixels[offset] as u32 + (capture.pixels[offset + 1] as u32) * 256;
                (
                    ((value / 2048) % 32 * 8) as u8,
                    ((value / 32) % 64 * 4) as u8,
                    (value % 32 * 8) as u8,
                    255u8,
                )
            };
            let ghost before = rgba@;
            rgba.push(red);
            rgba.push(green);
            rgba.push(blue);
            rgba.push(alpha);
            proof {
                let base = (row * width + col) * 4;
                assert(rgba@.subrange(base, base + 4) =~= rgba_at(c, col as int, row as int));
                assert forall|x: int, y: int|
                    0 <= x < width && 0 <= y && (y < row || (y == row && x < col + 1))
                        implies #[trigger] rgba@.subrange((y * width + x) * 4, (y * width + x) * 4 + 4)
                        == rgba_at(c, x, y) by {
                    if y < row || (y == row && x < col) {
                        lemma_earlier_pixel(x, y, col as int, row as int, width as int);
                        assert(rgba@.subrange((y * width + x) * 4, (y * width + x) * 4 + 4) =~= before.subrange(
                            (y * width + x) * 4,
                            (y * width + x) * 4 + 4,
                        ));
                    }
                }
                assert((row * width + (col + 1)) * 4 == (row * width + col) * 4 + 4) by (nonlinear_arith);
            }
            col = col + 1;
        }
        proof {
            assert((row * width + width) * 4 == ((row + 1) * width + 0) * 4) by (nonlinear_arith);
        }
        row = row + 1;
    }
    let image = RgbaImage { width: capture.width as u32, height: capture.height as u32, pixels: rgba };
    proof {
        assert(image.pixels@.len() == image.width * image.height * 4) by (nonlinear_arith)
            requires
                image.pixels@.len() == (height * width + 0) * 4,
                image.width == width,
                image.height == height,
        ;
        assert forall|x: int, y: int|
            0 <= x < capture.width && 0 <= y < capture.height implies #[trigger] image.pixel(x, y)
                == rgba_at(*capture, x, y) by {
            assert(image.pixel(x, y) == image.pixels@.subrange(
                (y * width + x) * 4,
                (y * width + x) * 4 + 4,
            ));
        }
    }
    Ok(image)
}

/// The PNG data URI for an image fitted within `max_width` x `max_height`,
/// or the encoder's error.
pub open spec fn png_uri_of(image: RgbaImage, max_width: u32, max_height: u32) -> Result<
    Seq<char>,
    Seq<char>,
> {
    let fits = image.width <= max_width && image.height <= max_height;
    let (w, h, px) = if fits {
        (image.width, image.height, image.pixels@)
    } else {
        resized(
            image.width,
            image.height,
            image.pixels@,
            if max_width < 1 {
                1
            } else {
                max_width
            },
            if max_height < 1 {
                1
            } else {
                max_height
            },
            ResizeFilter::Triangle,
        )
    };
    match png_encoding(w, h, px) {
        Ok(bytes) => Ok(data_uri_of("image/png"@, base64_of(bytes))),
        Err(e) => Err("Window image could not be encoded: "@ + e),
    }
}

/// Encode an image as a PNG data URI, first scaled down (keeping its aspect
/// ratio) when it exceeds the bounds.
pub fn encode_png(image: &RgbaImage, max_width: u32, max_height: u32) -> (r: Result<String, String>)
    requires
        image.wf(),
    ensures
        match r {
            Ok(uri) => png_uri_of(*image, max_width, max_height) == Ok::<Seq<char>, Seq<char>>(uri@),
            Err(e) => png_uri_of(*image, max_width, max_height) == Err::<Seq<char>, Seq<char>>(e@),
        },
{
    let encoded = if image.width > max_width || image.height > max_height {
        let w = if max_width < 1 {
            1
        } else {
            max_width
        };
        let h = if max_height < 1 {
            1
        } else {
            max_height
        };
        let scaled = resize(image, w, h, ResizeFilter::Triangle);
        encode_png_bytes(&scaled)
    } else {
        encode_png_bytes(image)
    };
    match encoded {
        Ok(bytes) => Ok(data_uri("image/png", &bytes)),
        Err(e) => {
            let mut m = chars_of("Window image could not be encoded: ");
            let detail = chars_of(e.as_str());
            extend_chars(&mut m, &detail);
            Err(string_of(&m))
        },
    }
}

/// The X11 window id a dock item refers to: a nonzero 32-bit value.
pub open spec fn valid_window_id(hwnd: int) -> bool {
    0 < hwnd <= u32::MAX
}

/// The window id behind a dock item's handle, rejecting values that are
/// not a nonzero 32-bit X11 id.
pub fn window_id(hwnd: isize) -> (r: Result<u32, String>)
    ensures
        match r {
            Ok(w) => valid_window_id(hwnd as int) && w as int == hwnd as int,
            Err(e) => !valid_window_id(hwnd as int) && e@ == "Invalid X11 window id"@,
        },
{
    if hwnd <= 0 || hwnd as i128 > 0xffff_ffffi128 {
        Err(message("Invalid X11 window id"))
    } else {
        Ok(hwnd as u32)
    }
}

/// Cached thumbnails by window: the data URI and when it was captured.
pub type ThumbnailCache = IdMap<(String, i64)>;

/// Whether a capture taken at `stamp` is still fresh at `now`.
pub open spec fn fresh(stamp: i64, now: i64) -> bool {
    now - stamp < CACHE_TTL_MS
}

/// A recent capture of `window`, if there is one. A stale entry is dropped.
pub fn cached(cache: &mut ThumbnailCache, window: u32, now: i64) -> (r: Option<String>)
    ensures
        match r {
            Some(image) => {
                &&& old(cache)@.contains_key(window as isize)
                &&& fresh(old(cache)@[window as isize].1, now)
                &&& image@ == old(cache)@[window as isize].0@
                &&& final(cache)@ == old(cache)@
            },
            None => {
                &&& !(old(cache)@.contains_key(window as isize) && fresh(
                    old(cache)@[window as isize].1,
                    now,
                ))
                &&& final(cache)@ == old(cache)@.remove(window as isize)
            },
        },
{
    let key = window as isize;
    let hit = match cache.get(key) {
        Some(entry) => {
            if (now as i128) - (entry.1 as i128) < CACHE_TTL_MS as i128 {
                Some(entry.0.clone())
            } else {
                None
            }
        },
        None => None,
    };
    match hit {
        Some(image) => Some(image),
        None => {
            cache.remove(key);
            None
        },
    }
}

/// Remember a capture of `window` taken at `now`.
pub fn store(cache: &mut ThumbnailCache, window: u32, image: &str, now: i64)
    ensures
        final(cache)@ == old(cache)@.insert(window as isize, (final(cache)@[window as isize].0, now)),
        final(cache)@[window as isize].0@ == image@,
{
    cache.insert(window as isize, (crate::text::owned(image), now));
}

/// Drop cached thumbnails for windows that no longer exist.
pub fn forget_closed(cache: &mut ThumbnailCache, windows: &[u32])
    ensures
        final(cache)@ == old(cache)@.restrict(Set::new(|k: isize| windows@.contains(k as u32))),
{
    cache.retain_windows(windows);
}

/// When each window was last activated, in milliseconds.
pub type FocusTimes = IdMap<i64>;

/// The time `window` was last focused, or 0 when it never was.
pub fn focus_time(times: &FocusTimes, window: u32) -> (t: i64)
    ensures
        t == if times@.contains_key(window as isize) {
            times@[window as isize]
        } else {
            0
        },
{
    match times.get(window as isize) {
        Some(t) => *t,
        None => 0,
    }
}

/// Remember that `active` was focused at `now`, and drop the windows that
/// have closed.
pub fn record_focus(times: &mut FocusTimes, windows: &[u32], active: u32, now: i64)
    ensures
        final(times)@ == if active != 0 {
            old(times)@.restrict(Set::new(|k: isize| windows@.contains(k as u32))).insert(
                active as isize,
                now,
            )
        } else {
            old(times)@.restrict(Set::new(|k: isize| windows@.contains(k as u32)))
        },
{
    times.retain_windows(windows);
    if active != 0 {
        times.insert(active as isize, now);
    }
}

/// An image that holds a capture's pixels converted to RGBA.
pub open spec fn converted(image: RgbaImage, c: Capture) -> bool {
    &&& image.wf()
    &&& image.width == c.width
    &&& image.height == c.height
    &&& forall|x: int, y: int|
        0 <= x < c.width && 0 <= y < c.height ==> #[trigger] image.pixel(x, y) == rgba_at(c, x, y)
}

/// The thumbnail a capture gives: the conversion's error for an
/// unsupported depth, a capture too large to hold or incomplete pixel data;
/// otherwise the encoder's result on the converted image fitted within
/// `max_width` x `max_height`.
pub open spec fn thumbnail_outcome(c: Capture, max_width: u32, max_height: u32, r: Result<Seq<char>, Seq<char>>) -> bool {
    if depth_bytes(c.depth) == 0 {
        r == Err::<Seq<char>, Seq<char>>("Unsupported window depth "@ + decimal(c.depth as nat))
    } else if needed_bytes(c) > usize::MAX {
        r == Err::<Seq<char>, Seq<char>>("Window is too large to capture"@)
    } else if c.pixels@.len() < needed_bytes(c) {
        r == Err::<Seq<char>, Seq<char>>(
            "Window pixel data is incomplete: "@ + decimal(c.pixels@.len()) + " of "@ + decimal(
                needed_bytes(c) as nat,
            ) + " bytes"@,
        )
    } else {
        exists|image: RgbaImage| #[trigger] converted(image, c) && png_uri_of(image, max_width, max_height) == r
    }
}

/// A thumbnail result as text.
pub open spec fn text_result(r: Result<String, String>) -> Result<Seq<char>, Seq<char>> {
    match r {
        Ok(s) => Ok(s@),
        Err(e) => Err(e@),
    }
}

/// The thumbnail of a capture: its pixels converted and encoded.
pub fn thumbnail_of(capture: &Capture, max_width: u32, max_height: u32) -> (r: Result<String, String>)
    ensures
        thumbnail_outcome(*capture, max_width, max_height, text_result(r)),
{
    let image = match to_rgba(capture) {
        Ok(image) => image,
        Err(e) => return Err(e),
    };
    assert(converted(image, *capture));
    let r = encode_png(&image, max_width, max_height);
    assert(png_uri_of(image, max_width, max_height) == text_result(r));
    r
}

/// A capture stored at `stamp` is served for its window exactly while it is
/// fresh, and it is the capture that was stored.
pub proof fn lemma_capture_served_while_fresh(
    m: Map<isize, (String, i64)>,
    window: u32,
    image: String,
    stamp: i64,
    now: i64,
)
    ensures
        ({
            let stored = m.insert(window as isize, (image, stamp));
            &&& stored.contains_key(window as isize)
            &&& stored[window as isize].0 == image
            &&& fresh(stored[window as isize].1, now) == (now - stamp < CACHE_TTL_MS)
        }),
{
}

/// After closed windows are forgotten, every cached thumbnail belongs to a
/// window that still exists, and those keep theirs.
pub proof fn lemma_only_open_windows_stay_cached(m: Map<isize, (String, i64)>, windows: Seq<u32>)
    ensures
        ({
            let kept = m.restrict(Set::new(|k: isize| windows.contains(k as u32)));
            &&& forall|k: isize| #[trigger] kept.contains_key(k) ==> windows.contains(k as u32)
            &&& forall|k: isize| m.contains_key(k) && windows.contains(k as u32) ==> #[trigger] kept.contains_key(k)
                && kept[k] == m[k]
        }),
{
}

/// Capture a window as a PNG data URI, paired with the time it was last
/// focused so the interface can order previews most recent first. A fresh
/// capture is reused; otherwise `read` fetches the window's pixels from the
/// X server, and a successful capture is remembered at `now`.
pub fn capture<F: FnOnce() -> Result<Capture, String>>(
    cache: &mut ThumbnailCache,
    times: &FocusTimes,
    hwnd: isize,
    max_width: u32,
    max_height: u32,
    now: i64,
    read: F,
) -> (r: Result<Option<(String, i64)>, String>)
    requires
        read.requires(()),
    ensures
        !valid_window_id(hwnd as int) ==> (r matches Err(e) && e@ == "Invalid X11 window id"@)
            && final(cache)@ == old(cache)@,
        valid_window_id(hwnd as int) ==> ({
            let w = hwnd as isize;
            let focus = if times@.contains_key(w) {
                times@[w]
            } else {
                0
            };
            &&& r matches Ok(Some((_, f))) ==> f == focus
            &&& !(r matches Ok(None))
            &&& old(cache)@.contains_key(w) && fresh(old(cache)@[w].1, now) ==> (r matches Ok(Some((image, _)))
                && image@ == old(cache)@[w].0@ && final(cache)@ == old(cache)@)
            &&& !(old(cache)@.contains_key(w) && fresh(old(cache)@[w].1, now)) ==> match r {
                Ok(Some((image, _))) => final(cache)@.contains_key(w) && final(cache)@[w].0@ == image@
                    && final(cache)@[w].1 == now && final(cache)@.remove(w) == old(cache)@.remove(w),
                _ => final(cache)@ == old(cache)@.remove(w),
            }
            &&& !(old(cache)@.contains_key(w) && fresh(old(cache)@[w].1, now)) ==> exists|
                out: Result<Capture, String>,
            |
                #[trigger] read.ensures((), out) && match out {
                    Ok(c) => thumbnail_outcome(
                        c,
                        max_width,
                        max_height,
                        match r {
                            Ok(Some((image, _))) => Ok(image@),
                            Ok(None) => Err(Seq::<char>::empty()),
                            Err(e) => Err(e@),
                        },
                    ) && !(r matches Ok(None)),
                    Err(e) => r == Err::<Option<(String, i64)>, String>(e),
                }
        }),
{
    let window = match window_id(hwnd) {
        Ok(w) => w,
        Err(e) => return Err(e),
    };
    let focus = focus_time(times, window);
    if let Some(image) = cached(cache, window, now) {
        return Ok(Some((image, focus)));
    }
    let ghost emptied = cache@;
    let read_result = read();
    let pixels = match read_result {
        Ok(c) => c,
        Err(e) => return Err(e),
    };
    let image = match thumbnail_of(&pixels, max_width, max_height) {
        Ok(uri) => uri,
        Err(e) => return Err(e),
    };
    store(cache, window, image.as_str(), now);
    proof {
        assert(cache@.remove(window as isize) =~= emptied.remove(window as isize));
    }
    Ok(Some((image, focus)))
}

/// Refuse a window before reading its pixels: one with no visible area, or
/// one larger than `MAX_DIMENSION` on a side.
pub fn check_geometry(width: u16, height: u16) -> (r: Result<(), String>)
    ensures
        (width == 0 || height == 0) ==> (r matches Err(e) && e@ == "Window has no visible area"@),
        (width != 0 && height != 0 && (width > MAX_DIMENSION || height > MAX_DIMENSION)) ==> (r matches Err(
            e,
        ) && e@ == "Window is too large to capture"@),
        (width != 0 && height != 0 && width <= MAX_DIMENSION && height <= MAX_DIMENSION) ==> r is Ok,
{
    if width == 0 || height == 0 {
        return Err(message("Window has no visible area"));
    }
    if width > MAX_DIMENSION || height > MAX_DIMENSION {
        return Err(message("Window is too large to capture"));
    }
    Ok(())
}

} // verus!
