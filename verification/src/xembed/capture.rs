//! Icon pixels from what an X server returns: window images, icon properties and icon hints.

use vstd::prelude::*;

verus! {

/// The side of a docked icon window, in pixels.
pub const EMBED_SIZE: u16 = 32;

/// The largest side of an icon that is taken from a window property.
pub const MAX_PROPERTY_SIZE: u32 = 128;

/// An icon: four bytes for each pixel, which are alpha, red, green and blue, row by row.
#[derive(Debug, PartialEq)]
pub struct CapturedIcon {
    pub width: u16,
    pub height: u16,
    pub pixels: Vec<u8>,
}

impl CapturedIcon {
    /// Whether there is anything to draw.
    pub open spec fn has_pixels(self) -> bool {
        self.pixels@.len() > 0
    }
}

/// One pixel of an icon.
pub struct Pixel {
    pub alpha: u8,
    pub red: u8,
    pub green: u8,
    pub blue: u8,
}

/// The bytes of `n` pixels: alpha, red, green and blue of each in turn.
pub open spec fn argb_bytes(n: nat, pixel: spec_fn(int) -> Pixel) -> Seq<u8> {
    Seq::new(
        4 * n,
        |i: int|
            if i % 4 == 0 {
                pixel(i / 4).alpha
            } else if i % 4 == 1 {
                pixel(i / 4).red
            } else if i % 4 == 2 {
                pixel(i / 4).green
            } else {
                pixel(i / 4).blue
            },
    )
}

fn push_pixel(out: &mut Vec<u8>, p: Pixel, Ghost(n): Ghost<nat>, Ghost(f): Ghost<spec_fn(int) -> Pixel>)
    requires
        old(out)@ == argb_bytes(n, f),
        p == f(n as int),
    ensures
        final(out)@ == argb_bytes(n + 1, f),
{
    out.push(p.alpha);
    out.push(p.red);
    out.push(p.green);
    out.push(p.blue);
    proof {
        assert(out@ =~= argb_bytes(n + 1, f));
    }
}

/// The number of pixels of a window image, if there are any and `data` holds all of them.
fn image_pixels(width: u16, height: u16, data: &Vec<u8>) -> (r: Option<usize>)
    ensures
        match r {
            Some(n) => n == width * height && 4 * n <= data@.len(),
            None => 4 * (width * height) > data@.len(),
        },
{
    proof {
        assert(width * height <= 0xFFFF * 0xFFFF) by (nonlinear_arith)
            requires
                width <= 0xFFFF,
                height <= 0xFFFF,
        ;
        assert(width * height >= 0) by (nonlinear_arith)
            requires
                width >= 0,
                height >= 0,
        ;
    }
    let n: u64 = width as u64 * height as u64;
    let len: usize = data.len();
    if (len as u64) < n * 4 {
        None
    } else {
        Some(n as usize)
    }
}

// ---------------------------------------------------------------------------
// Window images
// ---------------------------------------------------------------------------

/// A pixel of a 32-bit window image: blue, green, red and a byte that is alpha or padding.
pub open spec fn image_pixel(data: Seq<u8>, opaque: bool, i: int) -> Pixel {
    Pixel {
        alpha: if opaque {
            255
        } else {
            data[4 * i + 3]
        },
        red: data[4 * i + 2],
        green: data[4 * i + 1],
        blue: data[4 * i],
    }
}

/// Whether a pixel of a window image has a colour other than black.
pub open spec fn coloured(data: Seq<u8>, i: int) -> bool {
    data[4 * i] != 0 || data[4 * i + 1] != 0 || data[4 * i + 2] != 0
}

/// Whether a window image can be taken for an icon: it has pixels, all of them are there, and at
/// least one is not black.
pub open spec fn shows_icon(width: u16, height: u16, data: Seq<u8>) -> bool {
    &&& width > 0
    &&& height > 0
    &&& 4 * (width * height) <= data.len()
    &&& exists|i: int| 0 <= i < width * height && #[trigger] coloured(data, i)
}

/// The icon in the image of a window, which always has pixels. Up to a depth of 24 bits the fourth
/// byte of a pixel is padding, and the icon is opaque.
pub fn capture_icon(width: u16, height: u16, depth: u8, data: &Vec<u8>) -> (r: Option<CapturedIcon>)
    ensures
        r is Some <==> shows_icon(width, height, data@),
        r matches Some(icon) ==> {
            &&& icon.width == width
            &&& icon.height == height
            &&& icon.pixels@ == argb_bytes(
                (width * height) as nat,
                |i: int| image_pixel(data@, depth <= 24, i),
            )
            &&& icon.has_pixels()
        },
{
    if width == 0 || height == 0 {
        return None;
    }
    let n: usize = match image_pixels(width, height, data) {
        Some(n) => n,
        None => {
            return None;
        },
    };
    let len: usize = data.len();
    let mut found = false;
    let mut i: usize = 0;
    while i < n && !found
        invariant
            i <= n,
            4 * n <= data@.len() == len,
            n == width * height,
            found ==> exists|j: int| 0 <= j < n && #[trigger] coloured(data@, j),
            !found ==> forall|j: int| 0 <= j < i ==> !#[trigger] coloured(data@, j),
        decreases n - i,
    {
        if data[4 * i] != 0 || data[4 * i + 1] != 0 || data[4 * i + 2] != 0 {
            proof {
                assert(coloured(data@, i as int));
            }
            found = true;
        }
        i += 1;
    }
    if !found {
        return None;
    }
    let opaque: bool = depth <= 24;
    let ghost f = |i: int| image_pixel(data@, depth <= 24, i);
    let mut pixels: Vec<u8> = Vec::new();
    let mut k: usize = 0;
    proof {
        assert(pixels@ =~= argb_bytes(0, f));
    }
    while k < n
        invariant
            k <= n,
            4 * n <= data@.len() == len,
            opaque == (depth <= 24),
            f == (|i: int| image_pixel(data@, depth <= 24, i)),
            pixels@ == argb_bytes(k as nat, f),
        decreases n - k,
    {
        let p = Pixel {
            alpha: if opaque {
                255
            } else {
                data[4 * k + 3]
            },
            red: data[4 * k + 2],
            green: data[4 * k + 1],
            blue: data[4 * k],
        };
        push_pixel(&mut pixels, p, Ghost(k as nat), Ghost(f));
        k += 1;
    }
    Some(CapturedIcon { width, height, pixels })
}

// ---------------------------------------------------------------------------
// The icon property
// ---------------------------------------------------------------------------

/// An icon in the value of the icon property: its size, and the position of its first pixel.
pub struct PropertyIcon {
    pub width: u32,
    pub height: u32,
    pub start: usize,
}

/// The icons in the value of the icon property from `offset` on. Each is a width, a height and the
/// pixels; the list ends at the first that is not complete.
pub open spec fn property_icons(data: Seq<u32>, offset: int) -> Seq<PropertyIcon>
    decreases data.len() - offset,
{
    if offset < 0 || offset + 2 >= data.len() {
        Seq::empty()
    } else {
        let width = data[offset];
        let height = data[offset + 1];
        let end = offset + 2 + width * height;
        if end > data.len() || width * height < 0 {
            Seq::empty()
        } else {
            seq![PropertyIcon { width, height, start: (offset + 2) as usize }] + property_icons(
                data,
                end,
            )
        }
    }
}

/// How far the larger side of an icon is from the size of a docked icon.
pub open spec fn distance(icon: PropertyIcon) -> int {
    let size = if icon.width > icon.height {
        icon.width as int
    } else {
        icon.height as int
    };
    if size > EMBED_SIZE {
        size - EMBED_SIZE
    } else {
        EMBED_SIZE - size
    }
}

/// Whether an icon is small enough to be taken.
pub open spec fn eligible(icon: PropertyIcon) -> bool {
    icon.width <= MAX_PROPERTY_SIZE && icon.height <= MAX_PROPERTY_SIZE
}

/// Whether `a` is preferred to `b`: it is nearer to the wanted size, or as near and larger in area.
pub open spec fn preferred(a: PropertyIcon, b: PropertyIcon) -> bool {
    ||| distance(a) < distance(b)
    ||| distance(a) == distance(b) && a.width * a.height > b.width * b.height
}

/// Whether icon `k` is the one to take: none is preferred to it, and it is the first such.
pub open spec fn is_chosen(icons: Seq<PropertyIcon>, k: int) -> bool {
    &&& 0 <= k < icons.len()
    &&& eligible(icons[k])
    &&& forall|j: int|
        0 <= j < icons.len() && eligible(#[trigger] icons[j]) ==> !preferred(icons[j], icons[k])
    &&& forall|j: int|
        0 <= j < k && eligible(#[trigger] icons[j]) ==> preferred(icons[k], icons[j])
}

/// A pixel of the icon property, which is a number with alpha in its highest byte.
pub open spec fn property_pixel(p: u32) -> Pixel {
    Pixel {
        alpha: ((p >> 24) & 0xFF) as u8,
        red: ((p >> 16) & 0xFF) as u8,
        green: ((p >> 8) & 0xFF) as u8,
        blue: (p & 0xFF) as u8,
    }
}

/// The icon that the value of the icon property holds in the size nearest to that of a docked icon.
pub fn capture_icon_from_property(data: &Vec<u32>) -> (r: Option<CapturedIcon>)
    ensures
        r is Some <==> exists|k: int| is_chosen(property_icons(data@, 0), k),
        r is Some <==> exists|j: int|
            0 <= j < property_icons(data@, 0).len() && (#[trigger] property_icons(data@, 0)[j]).width
                <= 128 && property_icons(data@, 0)[j].height <= 128,
        r matches Some(icon) ==> exists|k: int|
            {
                let chosen = property_icons(data@, 0)[k];
                &&& #[trigger] is_chosen(property_icons(data@, 0), k)
                &&& icon.width == chosen.width
                &&& icon.height == chosen.height
                &&& icon.pixels@ == argb_bytes(
                    (chosen.width * chosen.height) as nat,
                    |i: int| property_pixel(data@[chosen.start + i]),
                )
            },
{
    let len: usize = data.len();
    let ghost all = property_icons(data@, 0);
    let ghost mut done: Seq<PropertyIcon> = Seq::empty();
    let ghost mut at: int = 0;
    let mut best: Option<PropertyIcon> = None;
    let mut offset: usize = 0;
    proof {
        assert(done + all =~= all);
    }
    while offset < len && len - offset > 2
        invariant
            len == data@.len(),
            offset <= len,
            all == property_icons(data@, 0),
            all == done + property_icons(data@, offset as int),
            match best {
                Some(b) => is_chosen(done, at) && done[at] == b && b.start + b.width * b.height
                    <= len,
                None => forall|j: int| 0 <= j < done.len() ==> !eligible(#[trigger] done[j]),
            },
        ensures
            property_icons(data@, offset as int) =~= Seq::<PropertyIcon>::empty(),
        decreases len - offset,
    {
        let width: u32 = data[offset];
        let height: u32 = data[offset + 1];
        proof {
            assert(0 <= width * height <= 0xFFFF_FFFF * 0xFFFF_FFFF) by (nonlinear_arith)
                requires
                    0 <= width <= 0xFFFF_FFFF,
                    0 <= height <= 0xFFFF_FFFF,
            ;
        }
        let count: u64 = width as u64 * height as u64;
        if count > (len - offset - 2) as u64 {
            break;
        }
        let start: usize = offset + 2;
        let icon = PropertyIcon { width, height, start };
        let ghost rest = property_icons(data@, start + count as int);
        let ghost before = done;
        proof {
            assert(property_icons(data@, offset as int) == seq![icon] + rest);
            done = done.push(icon);
            assert(before + (seq![icon] + rest) =~= done + rest);
        }
        if width <= MAX_PROPERTY_SIZE && height <= MAX_PROPERTY_SIZE {
            let better = match &best {
                None => true,
                Some(b) => is_preferred(&icon, b),
            };
            if better {
                proof {
                    assert forall|j: int|
                        0 <= j < done.len() && eligible(#[trigger] done[j]) implies !preferred(
                        done[j],
                        icon,
                    ) by {
                        if j < before.len() {
                            assert(done[j] == before[j]);
                            if best is Some {
                                assert(!preferred(before[j], before[at]));
                            }
                        }
                    }
                    assert forall|j: int|
                        0 <= j < before.len() && eligible(#[trigger] done[j]) implies preferred(
                        icon,
                        done[j],
                    ) by {
                        assert(done[j] == before[j]);
                        assert(!preferred(before[j], before[at]));
                    }
                    at = before.len() as int;
                }
                best = Some(icon);
            } else {
                proof {
                    assert forall|j: int|
                        0 <= j < done.len() && eligible(#[trigger] done[j]) implies !preferred(
                        done[j],
                        done[at],
                    ) by {
                        if j < before.len() {
                            assert(done[j] == before[j]);
                        }
                    }
                }
            }
        }
        offset = start + count as usize;
    }
    proof {
        assert(all =~= done);
    }
    match best {
        None => {
            proof {
                assert forall|k: int| !is_chosen(all, k) by {
                    if 0 <= k < all.len() {
                        assert(!eligible(done[k]));
                    }
                }
                assert forall|j: int| 0 <= j < all.len() implies !((#[trigger] all[j]).width <= 128
                    && all[j].height <= 128) by {
                    assert(!eligible(done[j]));
                }
            }
            None
        },
        Some(b) => {
            let n: usize = b.width as usize * b.height as usize;
            let ghost f = |i: int| property_pixel(data@[b.start + i]);
            let mut pixels: Vec<u8> = Vec::new();
            let mut k: usize = 0;
            proof {
                assert(pixels@ =~= argb_bytes(0, f));
            }
            while k < n
                invariant
                    k <= n,
                    b.start + n <= data@.len() <= usize::MAX,
                    f == (|i: int| property_pixel(data@[b.start + i])),
                    pixels@ == argb_bytes(k as nat, f),
                decreases n - k,
            {
                let v: u32 = data[b.start + k];
                let p = Pixel {
                    alpha: ((v >> 24) & 0xFF) as u8,
                    red: ((v >> 16) & 0xFF) as u8,
                    green: ((v >> 8) & 0xFF) as u8,
                    blue: (v & 0xFF) as u8,
                };
                push_pixel(&mut pixels, p, Ghost(k as nat), Ghost(f));
                k += 1;
            }
            proof {
                assert(is_chosen(all, at));
                assert(all[at].width <= 128 && all[at].height <= 128);
            }
            Some(CapturedIcon { width: b.width as u16, height: b.height as u16, pixels })
        },
    }
}

fn is_preferred(a: &PropertyIcon, b: &PropertyIcon) -> (r: bool)
    requires
        eligible(*a),
        eligible(*b),
    ensures
        r == preferred(*a, *b),
{
    proof {
        lemma_small_area(a.width, a.height);
        lemma_small_area(b.width, b.height);
    }
    let x: u32 = size_distance(a);
    let y: u32 = size_distance(b);
    x < y || (x == y && a.width * a.height > b.width * b.height)
}

proof fn lemma_small_area(w: u32, h: u32)
    requires
        w <= MAX_PROPERTY_SIZE,
        h <= MAX_PROPERTY_SIZE,
    ensures
        0 <= w * h <= 128 * 128,
{
    assert(0 <= w * h <= 128 * 128) by (nonlinear_arith)
        requires
            0 <= w <= 128,
            0 <= h <= 128,
    ;
}

fn size_distance(icon: &PropertyIcon) -> (r: u32)
    requires
        eligible(*icon),
    ensures
        r == distance(*icon),
{
    let size: u32 = if icon.width > icon.height {
        icon.width
    } else {
        icon.height
    };
    let target: u32 = EMBED_SIZE as u32;
    if size > target {
        size - target
    } else {
        target - size
    }
}

/// There is at most one icon to take.
pub proof fn law_chosen_icon_is_unique(icons: Seq<PropertyIcon>, a: int, b: int)
    requires
        is_chosen(icons, a),
        is_chosen(icons, b),
    ensures
        a == b,
{
    if a < b {
        assert(preferred(icons[b], icons[a]));
    }
    if b < a {
        assert(preferred(icons[a], icons[b]));
    }
}

// ---------------------------------------------------------------------------
// Icon hints
// ---------------------------------------------------------------------------

/// The pixmap and the mask that window manager hints name as a window's icon.
pub struct IconHint {
    pub pixmap: u32,
    /// Zero where there is no mask.
    pub mask: u32,
}

/// The icon that window manager hints name. The hints are nine numbers: the first holds flags, the
/// fourth the pixmap and the eighth the mask; a flag says of each whether it counts.
pub open spec fn hinted_icon(hints: Seq<u32>) -> Option<IconHint> {
    if hints.len() < 9 || hints[0] & 0x4 == 0 || hints[3] == 0 {
        None
    } else {
        Some(
            IconHint {
                pixmap: hints[3],
                mask: if hints[0] & 0x20 != 0 {
                    hints[7]
                } else {
                    0
                },
            },
        )
    }
}

/// The icon that window manager hints name.
pub fn icon_hint(hints: &Vec<u32>) -> (r: Option<IconHint>)
    ensures
        r == hinted_icon(hints@),
{
    if hints.len() < 9 {
        return None;
    }
    let flags: u32 = hints[0];
    if flags & 0x4 == 0 {
        return None;
    }
    let pixmap: u32 = hints[3];
    let mask: u32 = if flags & 0x20 != 0 {
        hints[7]
    } else {
        0
    };
    if pixmap == 0 {
        return None;
    }
    Some(IconHint { pixmap, mask })
}

/// Whether bit `i` of a bitmap is set. A row takes whole bytes, lowest bit first; what `data` lacks
/// is not set.
pub open spec fn bit_set(data: Seq<u8>, width: u16, i: int) -> bool {
    let row = (width + 7) / 8;
    let at = (i / width as int) * row + (i % width as int) / 8;
    at < data.len() && data[at] & (1u8 << ((i % width as int) % 8) as u8) != 0
}

fn test_bit(data: &Vec<u8>, width: u16, i: usize) -> (r: bool)
    requires
        width > 0,
        i < 0xFFFF * 0xFFFF,
    ensures
        r == bit_set(data@, width, i as int),
{
    let w: u64 = width as u64;
    let y: u64 = i as u64 / w;
    let x: u64 = i as u64 % w;
    let row: u64 = (w + 7) / 8;
    proof {
        assert(y <= 0xFFFF * 0xFFFF) by (nonlinear_arith)
            requires
                y == (i as u64) / w,
                i < 0xFFFF * 0xFFFF,
                w > 0,
        ;
        assert(0 <= y * row <= 0xFFFF * 0xFFFF * 8192) by (nonlinear_arith)
            requires
                0 <= y <= 0xFFFF * 0xFFFF,
                0 <= row <= 8192,
        ;
    }
    let at: u64 = y * row + x / 8;
    let shift: u8 = (x % 8) as u8;
    let len: usize = data.len();
    at < len as u64 && data[at as usize] & (1u8 << shift) != 0
}

/// A pixel of an icon from hints.
pub open spec fn hint_pixel(
    width: u16,
    depth: u8,
    data: Seq<u8>,
    mask: Option<Seq<u8>>,
    i: int,
) -> Pixel {
    if depth == 1 {
        let v: u8 = if bit_set(data, width, i) {
            255
        } else {
            0
        };
        Pixel { alpha: 255, red: v, green: v, blue: v }
    } else {
        Pixel {
            alpha: match mask {
                Some(m) => if bit_set(m, width, i) {
                    255
                } else {
                    0
                },
                None => if depth <= 24 {
                    255
                } else {
                    data[4 * i + 3]
                },
            },
            red: data[4 * i + 2],
            green: data[4 * i + 1],
            blue: data[4 * i],
        }
    }
}

/// Whether an icon can be made from a hinted pixmap: it has pixels, and it is a bitmap, or has
/// colours and all of its bytes are there.
pub open spec fn hint_usable(width: u16, height: u16, depth: u8, data: Seq<u8>) -> bool {
    &&& width > 0
    &&& height > 0
    &&& depth == 1 || (depth >= 24 && 4 * (width * height) <= data.len())
}

/// The bytes of a mask, if there is one.
pub open spec fn mask_view(mask: Option<Vec<u8>>) -> Option<Seq<u8>> {
    match mask {
        Some(m) => Some(m@),
        None => None,
    }
}

/// The icon in a hinted pixmap. The mask says which pixels of a colour icon show.
pub fn capture_icon_from_hints(
    width: u16,
    height: u16,
    depth: u8,
    data: &Vec<u8>,
    mask: &Option<Vec<u8>>,
) -> (r: Option<CapturedIcon>)
    ensures
        r is Some <==> hint_usable(width, height, depth, data@),
        r matches Some(icon) ==> {
            &&& icon.width == width
            &&& icon.height == height
            &&& icon.pixels@ == argb_bytes(
                (width * height) as nat,
                |i: int| hint_pixel(width, depth, data@, mask_view(*mask), i),
            )
        },
{
    if width == 0 || height == 0 {
        return None;
    }
    if depth != 1 {
        if depth < 24 {
            return None;
        }
        if image_pixels(width, height, data).is_none() {
            return None;
        }
    }
    proof {
        assert(0 <= width * height <= 0xFFFF * 0xFFFF) by (nonlinear_arith)
            requires
                0 <= width <= 0xFFFF,
                0 <= height <= 0xFFFF,
        ;
    }
    let n: u64 = width as u64 * height as u64;
    let ghost f = |i: int| hint_pixel(width, depth, data@, mask_view(*mask), i);
    let len: usize = data.len();
    let mut pixels: Vec<u8> = Vec::new();
    let mut i: usize = 0;
    proof {
        assert(pixels@ =~= argb_bytes(0, f));
    }
    while (i as u64) < n
        invariant
            i <= n <= 0xFFFF * 0xFFFF,
            width > 0,
            len == data@.len(),
            depth != 1 ==> depth >= 24 && 4 * n <= len,
            f == (|i: int| hint_pixel(width, depth, data@, mask_view(*mask), i)),
            pixels@ == argb_bytes(i as nat, f),
        decreases n - i,
    {
        let p = if depth == 1 {
            let v: u8 = if test_bit(data, width, i) {
                255
            } else {
                0
            };
            Pixel { alpha: 255, red: v, green: v, blue: v }
        } else {
            let alpha: u8 = match mask {
                Some(m) => if test_bit(m, width, i) {
                    255
                } else {
                    0
                },
                None => if depth <= 24 {
                    255
                } else {
                    data[4 * i + 3]
                },
            };
            Pixel { alpha, red: data[4 * i + 2], green: data[4 * i + 1], blue: data[4 * i] }
        };
        push_pixel(&mut pixels, p, Ghost(i as nat), Ghost(f));
        i += 1;
    }
    Some(CapturedIcon { width, height, pixels })
}

// ---------------------------------------------------------------------------
// Sources
// ---------------------------------------------------------------------------

/// Where the icon of a window may come from.
#[derive(Clone, Copy, Debug, PartialEq, Eq, Structural)]
pub enum IconSource {
    /// The image of the window.
    Window,
    /// The pixmap that the hints of the window name.
    Hints,
    /// The icon property of the window.
    Property,
}

/// The sources of an icon after its property or its hints changed, in the order in which they are
/// tried. Hints and property may hold an icon of the toolkit, so the window itself comes first.
pub open spec fn icon_sources() -> Seq<IconSource> {
    seq![IconSource::Window, IconSource::Hints, IconSource::Property]
}

/// The source that is tried after `tried` gave no icon, or at first.
pub fn next_source(tried: Option<IconSource>) -> (r: Option<IconSource>)
    ensures
        match tried {
            None => r == Some(icon_sources()[0]),
            Some(source) => forall|i: int|
                0 <= i < icon_sources().len() && #[trigger] icon_sources()[i] == source ==> r == (
                if i + 1 < icon_sources().len() {
                    Some(icon_sources()[i + 1])
                } else {
                    None
                }),
        },
{
    match tried {
        None => Some(IconSource::Window),
        Some(IconSource::Window) => Some(IconSource::Hints),
        Some(IconSource::Hints) => Some(IconSource::Property),
        Some(IconSource::Property) => None,
    }
}

// ---------------------------------------------------------------------------
// Laws
// ---------------------------------------------------------------------------

/// Each pixel of an icon takes four bytes: alpha, red, green and blue.
pub proof fn law_bytes_of_pixels(n: nat, pixel: spec_fn(int) -> Pixel, k: int)
    requires
        0 <= k < n,
    ensures
        argb_bytes(n, pixel).len() == 4 * n,
        argb_bytes(n, pixel)[4 * k] == pixel(k).alpha,
        argb_bytes(n, pixel)[4 * k + 1] == pixel(k).red,
        argb_bytes(n, pixel)[4 * k + 2] == pixel(k).green,
        argb_bytes(n, pixel)[4 * k + 3] == pixel(k).blue,
{
}

/// A window image holds blue, green and red of each pixel, and then alpha, unless that byte is padding.
pub proof fn law_pixels_of_windows(data: Seq<u8>, opaque: bool, k: int)
    ensures
        image_pixel(data, opaque, k).blue == data[4 * k],
        image_pixel(data, opaque, k).green == data[4 * k + 1],
        image_pixel(data, opaque, k).red == data[4 * k + 2],
        opaque ==> image_pixel(data, opaque, k).alpha == 255,
        !opaque ==> image_pixel(data, opaque, k).alpha == data[4 * k + 3],
{
}

/// A window image is taken for an icon exactly if it has an area, all its bytes are there, and one of
/// its pixels is not black, whatever its alpha.
pub proof fn law_images_that_are_icons(width: u16, height: u16, data: Seq<u8>)
    ensures
        shows_icon(width, height, data) <==> {
            &&& width > 0 && height > 0
            &&& 4 * (width * height) <= data.len()
            &&& exists|b: int|
                0 <= b < 4 * (width * height) && b % 4 != 3 && #[trigger] data[b] != 0
        },
{
    let n = width * height;
    if shows_icon(width, height, data) {
        let i = choose|i: int| 0 <= i < n && #[trigger] coloured(data, i);
        if data[4 * i] != 0 {
            assert(0 <= 4 * i < 4 * n && (4 * i) % 4 != 3);
        } else if data[4 * i + 1] != 0 {
            assert(0 <= 4 * i + 1 < 4 * n && (4 * i + 1) % 4 != 3);
        } else {
            assert(0 <= 4 * i + 2 < 4 * n && (4 * i + 2) % 4 != 3);
        }
    }
    if exists|b: int| 0 <= b < 4 * n && b % 4 != 3 && #[trigger] data[b] != 0 {
        let b = choose|b: int| 0 <= b < 4 * n && b % 4 != 3 && #[trigger] data[b] != 0;
        assert(coloured(data, b / 4));
    }
}

/// The icon property is a list of icons: a width, a height and as many pixels as they make; an icon
/// that is not complete ends the list.
pub proof fn law_icons_of_a_property(data: Seq<u32>, offset: int)
    requires
        0 <= offset,
        data.len() <= usize::MAX,
    ensures
        offset + 2 >= data.len() ==> property_icons(data, offset).len() == 0,
        offset + 2 < data.len() && offset + 2 + data[offset] * data[offset + 1] > data.len()
            ==> property_icons(data, offset).len() == 0,
        offset + 2 < data.len() && offset + 2 + data[offset] * data[offset + 1] <= data.len() ==> {
            let icons = property_icons(data, offset);
            &&& icons.len() > 0
            &&& icons[0].width == data[offset] && icons[0].height == data[offset + 1]
            &&& icons[0].start == offset + 2
            &&& icons.drop_first() == property_icons(
                data,
                offset + 2 + data[offset] * data[offset + 1],
            )
        },
{
    if offset + 2 < data.len() && offset + 2 + data[offset] * data[offset + 1] <= data.len() {
        assert(data[offset] * data[offset + 1] >= 0) by (nonlinear_arith)
            requires
                data[offset] >= 0,
                data[offset + 1] >= 0,
        ;
        assert(property_icons(data, offset).drop_first() =~= property_icons(
            data,
            offset + 2 + data[offset] * data[offset + 1],
        ));
    }
}

/// Of the icons of a property that are no larger than 128 on either side the one is taken whose larger
/// side is nearest to 32; of those the one of the largest area, and of those the first.
pub proof fn law_taken_icon(icons: Seq<PropertyIcon>, k: int, j: int, a: int, b: int)
    requires
        is_chosen(icons, k),
        0 <= j < icons.len(),
        icons[j].width <= 128 && icons[j].height <= 128,
        a >= icons[k].width && a >= icons[k].height && (a == icons[k].width || a == icons[k].height),
        b >= icons[j].width && b >= icons[j].height && (b == icons[j].width || b == icons[j].height),
    ensures
        icons[k].width <= 128 && icons[k].height <= 128,
        a >= 32 && b >= 32 ==> a <= b,
        a <= 32 && b <= 32 ==> a >= b,
        a >= 32 && b <= 32 ==> a - 32 <= 32 - b,
        a <= 32 && b >= 32 ==> 32 - a <= b - 32,
        a == b || a + b == 64 ==> icons[j].width * icons[j].height <= icons[k].width * icons[k].height,
        (a == b || a + b == 64) && icons[j].width * icons[j].height == icons[k].width * icons[k].height
            ==> k <= j,
{
    assert(eligible(icons[j]));
    assert(!preferred(icons[j], icons[k]));
    if j < k {
        assert(preferred(icons[k], icons[j]));
    }
}

/// A pixel of the icon property is a number of four bytes, with alpha in the highest and blue in the
/// lowest.
pub proof fn law_pixels_of_properties(p: u32)
    ensures
        p == 0x100_0000 * property_pixel(p).alpha + 0x1_0000 * property_pixel(p).red + 0x100
            * property_pixel(p).green + property_pixel(p).blue,
{
    let a = (p >> 24) & 0xFF;
    let r = (p >> 16) & 0xFF;
    let g = (p >> 8) & 0xFF;
    let b = p & 0xFF;
    assert(a < 256 && r < 256 && g < 256 && b < 256 && p == 0x100_0000 * a + 0x1_0000 * r + 0x100 * g
        + b) by (bit_vector)
        requires
            a == (p >> 24) & 0xFF,
            r == (p >> 16) & 0xFF,
            g == (p >> 8) & 0xFF,
            b == p & 0xFF,
    ;
}

/// Hints name an icon where there are nine of them, the third flag is set and the pixmap is one; they
/// name its mask only where the sixth flag is set.
pub proof fn law_hints(hints: Seq<u32>)
    ensures
        hinted_icon(hints) is Some <==> hints.len() >= 9 && hints[0] & 4 != 0 && hints[3] != 0,
        hinted_icon(hints) matches Some(hint) ==> hint.pixmap == hints[3] && hint.mask == (if hints[0] & 32
            != 0 {
            hints[7]
        } else {
            0
        }),
{
}

/// The bits of a bitmap stand row by row, each row in whole bytes, and in a byte from the lowest on; a
/// bit that is missing is not set.
pub proof fn law_bits(data: Seq<u8>, width: u16, x: int, y: int)
    requires
        0 <= x < width,
        0 <= y,
    ensures
        ({
            let at = y * ((width + 7) / 8) + x / 8;
            bit_set(data, width, y * width + x) <==> at < data.len() && (data[at] >> ((x % 8) as u8))
                & 1 == 1
        }),
{
    let i = y * width + x;
    assert(i / width as int == y && i % width as int == x) by (nonlinear_arith)
        requires
            i == y * width + x,
            0 <= x < width,
            0 <= y,
    ;
    let at = y * ((width + 7) / 8) + x / 8;
    if at < data.len() {
        let v = data[at];
        let s = (x % 8) as u8;
        assert((v & (1u8 << s) != 0) == ((v >> s) & 1 == 1)) by (bit_vector)
            requires
                s < 8,
        ;
    }
}

/// A bitmap icon is white where a bit is set, and black elsewhere; a colour icon has the colours of its
/// image and shows where the mask has a bit, or without a mask as its own alpha says, if it has any.
pub proof fn law_pixels_of_hints(width: u16, depth: u8, data: Seq<u8>, mask: Option<Seq<u8>>, k: int)
    ensures
        depth == 1 ==> {
            let p = hint_pixel(width, depth, data, mask, k);
            &&& p.alpha == 255
            &&& bit_set(data, width, k) ==> p.red == 255 && p.green == 255 && p.blue == 255
            &&& !bit_set(data, width, k) ==> p.red == 0 && p.green == 0 && p.blue == 0
        },
        depth != 1 ==> {
            let p = hint_pixel(width, depth, data, mask, k);
            &&& p.blue == data[4 * k] && p.green == data[4 * k + 1] && p.red == data[4 * k + 2]
            &&& mask matches Some(m) ==> p.alpha == (if bit_set(m, width, k) {
                255
            } else {
                0int
            })
            &&& mask is None && depth <= 24 ==> p.alpha == 255
            &&& mask is None && depth > 24 ==> p.alpha == data[4 * k + 3]
        },
{
}

/// A hinted pixmap makes an icon exactly if it has an area and is a bitmap, or has colours and all its
/// bytes are there.
pub proof fn law_pixmaps_that_are_icons(width: u16, height: u16, depth: u8, data: Seq<u8>)
    ensures
        hint_usable(width, height, depth, data) <==> width > 0 && height > 0 && (depth == 1 || (depth >= 24
            && 4 * (width * height) <= data.len())),
{
}

/// The window is tried first, then the hints, then the property, and then no more.
pub proof fn law_sources()
    ensures
        icon_sources().len() == 3,
        icon_sources()[0] == IconSource::Window,
        icon_sources()[1] == IconSource::Hints,
        icon_sources()[2] == IconSource::Property,
{
}

} // verus!
