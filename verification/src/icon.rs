//! The application icon: the built-in one, a filled blue disc on a
//! transparent square, used for the window and when the tray icon's file
//! cannot be decoded.

use vstd::prelude::*;

verus! {

/// Width and height of the icon, in pixels.
pub const ICON_SIZE: u32 = 32;

/// Whether the pixel at column `x`, row `y` lies in the disc of radius 14
/// centred at (15.5, 15.5). With `dx = x - 15.5` and `dy = y - 15.5`, the test
/// `dx² + dy² ≤ 14²` is, doubled, `(2x - 31)² + (2y - 31)² ≤ 28²`.
pub open spec fn in_disc(x: int, y: int) -> bool {
    (2 * x - 31) * (2 * x - 31) + (2 * y - 31) * (2 * y - 31) <= 784
}

/// The RGBA bytes of the pixel at column `x`, row `y`: opaque blue in the
/// disc, transparent black outside.
pub open spec fn icon_pixel(x: int, y: int) -> Seq<u8> {
    if in_disc(x, y) {
        seq![20u8, 140u8, 220u8, 255u8]
    } else {
        seq![0u8, 0u8, 0u8, 0u8]
    }
}

fn disc_contains(x: u32, y: u32) -> (r: bool)
    requires
        x < ICON_SIZE,
        y < ICON_SIZE,
    ensures
        r == in_disc(x as int, y as int),
{
    let dx: i64 = 2 * (x as i64) - 31;
    let dy: i64 = 2 * (y as i64) - 31;
    assert(dx * dx <= 1089 && dy * dy <= 1089) by (nonlinear_arith)
        requires
            -31 <= dx <= 33,
            -31 <= dy <= 33,
    ;
    assert(dx * dx >= 0 && dy * dy >= 0) by (nonlinear_arith);
    dx * dx + dy * dy <= 784
}

/// The built-in icon's bytes: the pixels row by row, four bytes (RGBA) each.
pub open spec fn icon_rgba_spec() -> Seq<u8> {
    Seq::new(4096, |i: int| icon_pixel((i / 4) % 32, (i / 4) / 32)[i % 4])
}

/// The image formats whose decoders this program carries.
#[derive(Clone, Copy, Debug, PartialEq, Eq, Structural)]
pub enum IconFormat {
    Png,
    Ico,
}

/// The eight bytes that open every PNG file.
pub open spec fn png_signature() -> Seq<u8> {
    seq![0x89u8, 0x50u8, 0x4eu8, 0x47u8, 0x0du8, 0x0au8, 0x1au8, 0x0au8]
}

/// The four bytes that open every ICO file.
pub open spec fn ico_signature() -> Seq<u8> {
    seq![0u8, 0u8, 1u8, 0u8]
}

/// `file` begins with the bytes of `prefix`.
pub open spec fn begins_with(file: Seq<u8>, prefix: Seq<u8>) -> bool {
    prefix.len() <= file.len() && file.subrange(0, prefix.len() as int) == prefix
}

/// The decodable format that the leading bytes of `file` announce: PNG or
/// ICO by their signatures, `None` for anything else.
pub open spec fn sniffed_format(file: Seq<u8>) -> Option<IconFormat> {
    if begins_with(file, png_signature()) {
        Some(IconFormat::Png)
    } else if begins_with(file, ico_signature()) {
        Some(IconFormat::Ico)
    } else {
        None
    }
}

/// `image::guess_format`, which looks the leading bytes up in a fixed table
/// of signatures, the first match winning. PNG's signature is the table's
/// first entry; ICO's `00 00 01 00` can match no entry before it, as all of
/// those begin with a non-zero byte. Every other outcome (another format, or
/// no match) is `None` here.
#[verifier::external_body]
fn guess_icon_format(file: &[u8]) -> (r: Option<IconFormat>)
    ensures
        r == sniffed_format(file@),
{
    match image::guess_format(file) {
        Ok(image::ImageFormat::Png) => Some(IconFormat::Png),
        Ok(image::ImageFormat::Ico) => Some(IconFormat::Ico),
        _ => None,
    }
}

/// The RGBA pixels (row by row), width and height that decoding `file` as
/// an image of the given format gives, `None` when the bytes are not a valid
/// image of that format.
pub uninterp spec fn decoded_rgba(file: Seq<u8>, format: IconFormat) -> Option<(Seq<u8>, u32, u32)>;

/// `image::load_from_memory_with_format`, its result converted to 8-bit RGBA
/// (`to_rgba8`, `dimensions`, `into_raw`). With the format given, decoding
/// goes straight to that format's built-in decoder with the default limits,
/// so the result depends on the bytes and the format alone; it is named
/// `decoded_rgba`.
#[verifier::external_body]
fn decode_rgba(file: &[u8], format: IconFormat) -> (r: Option<(Vec<u8>, u32, u32)>)
    ensures
        match r {
            Some((v, w, h)) => decoded_rgba(file@, format) == Some((v@, w, h)),
            None => decoded_rgba(file@, format) is None,
        },
{
    let format = match format {
        IconFormat::Png => image::ImageFormat::Png,
        IconFormat::Ico => image::ImageFormat::Ico,
    };
    match image::load_from_memory_with_format(file, format) {
        Ok(img) => {
            let rgba = img.to_rgba8();
            let (w, h) = rgba.dimensions();
            Some((rgba.into_raw(), w, h))
        },
        Err(_) => None,
    }
}

/// The built-in icon as pixels, width and height.
pub open spec fn builtin_icon() -> (Seq<u8>, u32, u32) {
    (icon_rgba_spec(), ICON_SIZE, ICON_SIZE)
}

/// The tray icon that an icon file gives: its pixels when its signature
/// names a decodable format and it decodes as that format, else the built-in
/// icon.
pub open spec fn tray_icon_spec(file: Seq<u8>) -> (Seq<u8>, u32, u32) {
    match sniffed_format(file) {
        Some(format) => match decoded_rgba(file, format) {
            Some(decoded) => decoded,
            None => builtin_icon(),
        },
        None => builtin_icon(),
    }
}

/// The tray icon's pixels, width and height: the icon file decoded, or the
/// built-in disc when the file is not a readable PNG or ICO image.
pub fn tray_icon_rgba(file: &[u8]) -> (r: (Vec<u8>, u32, u32))
    ensures
        (r.0@, r.1, r.2) == tray_icon_spec(file@),
{
    let decoded = match guess_icon_format(file) {
        Some(format) => decode_rgba(file, format),
        None => None,
    };
    match decoded {
        Some(d) => d,
        None => (icon_rgba(), ICON_SIZE, ICON_SIZE),
    }
}

/// The icon's pixels, row by row, four bytes (RGBA) per pixel.
pub fn icon_rgba() -> (r: Vec<u8>)
    ensures
        r@ == icon_rgba_spec(),
        r@.len() == ICON_SIZE * ICON_SIZE * 4,
        forall|p: int, k: int|
            0 <= p < ICON_SIZE * ICON_SIZE && 0 <= k < 4 ==> #[trigger] r@[4 * p + k] == icon_pixel(
                p % 32,
                p / 32,
            )[k],
{
    let mut rgba: Vec<u8> = Vec::new();
    let mut y: u32 = 0;
    while y < ICON_SIZE
        invariant
            y <= ICON_SIZE,
            rgba@.len() == 128 * y,
            forall|p: int, k: int|
                0 <= p < 32 * y && 0 <= k < 4 ==> #[trigger] rgba@[4 * p + k] == icon_pixel(
                    p % 32,
                    p / 32,
                )[k],
        decreases ICON_SIZE - y,
    {
        let mut x: u32 = 0;
        while x < ICON_SIZE
            invariant
                y < ICON_SIZE,
                x <= ICON_SIZE,
                rgba@.len() == 128 * y + 4 * x,
                forall|p: int, k: int|
                    0 <= p < 32 * y + x && 0 <= k < 4 ==> #[trigger] rgba@[4 * p + k] == icon_pixel(
                        p % 32,
                        p / 32,
                    )[k],
            decreases ICON_SIZE - x,
        {
            let ghost p0: int = 32 * y + x;
            let ghost before = rgba@;
            let inside = disc_contains(x, y);
            if inside {
                rgba.push(20);
                rgba.push(140);
                rgba.push(220);
                rgba.push(255);
            } else {
                rgba.push(0);
                rgba.push(0);
                rgba.push(0);
                rgba.push(0);
            }
            assert(p0 % 32 == x && p0 / 32 == y);
            assert forall|p: int, k: int| 0 <= p < p0 + 1 && 0 <= k < 4 implies #[trigger] rgba@[4
                * p + k] == icon_pixel(p % 32, p / 32)[k] by {
                if p < p0 {
                    assert(rgba@[4 * p + k] == before[4 * p + k]);
                } else {
                    assert(p == p0);
                }
            }
            x += 1;
        }
        y += 1;
    }
    assert forall|i: int| 0 <= i < 4096 implies rgba@[i] == icon_rgba_spec()[i] by {
        let p = i / 4;
        let k = i % 4;
        assert(i == 4 * p + k);
        assert(rgba@[4 * p + k] == icon_pixel(p % 32, p / 32)[k]);
    }
    assert(rgba@ =~= icon_rgba_spec());
    rgba
}

} // verus!
