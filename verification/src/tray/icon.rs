//! Icons that tray items send as pixels: which one is taken, and the image file made of it.

use vstd::prelude::*;

use crate::ipc::Pixmap;
use crate::text::{alphanumeric, ascii_alphanumeric, chars_of, has_prefix, is_alphanumeric, join_path, path_join};

verus! {

/// The largest side of an icon that is taken in preference to others.
pub const MAX_ICON_SIZE: i32 = 128;

/// The area of a picture.
pub open spec fn area(p: Pixmap) -> int {
    p.width * p.height
}

/// Whether a picture has an area and is no larger than the preferred size.
pub open spec fn is_capped(p: Pixmap) -> bool {
    0 < p.width <= MAX_ICON_SIZE && 0 < p.height <= MAX_ICON_SIZE
}

/// Whether `k` is the last of the largest pictures with the property `p`.
pub open spec fn last_largest(pixmaps: Seq<Pixmap>, p: spec_fn(Pixmap) -> bool, k: int) -> bool {
    &&& 0 <= k < pixmaps.len()
    &&& p(pixmaps[k])
    &&& forall|j: int|
        0 <= j < pixmaps.len() && p(#[trigger] pixmaps[j]) ==> area(pixmaps[j]) <= area(pixmaps[k])
    &&& forall|j: int|
        k < j < pixmaps.len() && p(#[trigger] pixmaps[j]) ==> area(pixmaps[j]) < area(pixmaps[k])
}

/// Whether `k` is the picture that stands for an item: the last of the largest that are not too
/// large, or where all are too large or empty the last of the largest.
pub open spec fn selected(pixmaps: Seq<Pixmap>, k: int) -> bool {
    if exists|j: int| 0 <= j < pixmaps.len() && is_capped(#[trigger] pixmaps[j]) {
        last_largest(pixmaps, |p: Pixmap| is_capped(p), k)
    } else {
        last_largest(pixmaps, |p: Pixmap| true, k)
    }
}

fn pixmap_area(p: &Pixmap) -> (r: i64)
    ensures
        r == area(*p),
{
    let w: i64 = p.width as i64;
    let h: i64 = p.height as i64;
    proof {
        assert(-0x8000_0000 <= w <= 0x7fff_ffff && -0x8000_0000 <= h <= 0x7fff_ffff);
        assert(-0x4000_0000_0000_0000 <= w * h <= 0x4000_0000_0000_0000) by (nonlinear_arith)
            requires
                -0x8000_0000 <= w <= 0x7fff_ffff,
                -0x8000_0000 <= h <= 0x7fff_ffff,
        ;
    }
    w * h
}

fn largest(pixmaps: &Vec<Pixmap>, capped: bool) -> (r: Option<usize>)
    ensures
        ({
            let p = |q: Pixmap| !capped || is_capped(q);
            match r {
                Some(k) => last_largest(pixmaps@, p, k as int),
                None => forall|j: int| 0 <= j < pixmaps@.len() ==> !p(#[trigger] pixmaps@[j]),
            }
        }),
{
    let mut best: Option<usize> = None;
    let mut best_area: i64 = 0;
    let mut i: usize = 0;
    while i < pixmaps.len()
        invariant
            i <= pixmaps@.len(),
            match best {
                Some(k) => {
                    &&& k < i
                    &&& !capped || is_capped(pixmaps@[k as int])
                    &&& best_area == area(pixmaps@[k as int])
                    &&& forall|j: int|
                        0 <= j < i && (!capped || is_capped(#[trigger] pixmaps@[j])) ==> area(
                            pixmaps@[j],
                        ) <= area(pixmaps@[k as int])
                    &&& forall|j: int|
                        k < j < i && (!capped || is_capped(#[trigger] pixmaps@[j])) ==> area(
                            pixmaps@[j],
                        ) < area(pixmaps@[k as int])
                },
                None => forall|j: int|
                    0 <= j < i ==> !(!capped || is_capped(#[trigger] pixmaps@[j])),
            },
        decreases pixmaps@.len() - i,
    {
        let p = &pixmaps[i];
        let fits = p.width > 0 && p.height > 0 && p.width <= MAX_ICON_SIZE && p.height
            <= MAX_ICON_SIZE;
        if !capped || fits {
            let here: i64 = pixmap_area(p);
            if best.is_none() || here >= best_area {
                best = Some(i);
                best_area = here;
            }
        }
        i += 1;
    }
    best
}

/// The picture that stands for an item.
pub fn select_pixmap(pixmaps: &Vec<Pixmap>) -> (r: Option<usize>)
    ensures
        match r {
            Some(k) => selected(pixmaps@, k as int),
            None => pixmaps@.len() == 0,
        },
{
    match largest(pixmaps, true) {
        Some(k) => {
            proof {
                assert(is_capped(pixmaps@[k as int]));
            }
            Some(k)
        },
        None => {
            let r = largest(pixmaps, false);
            proof {
                if r is None && pixmaps@.len() > 0 {
                    assert(!(|q: Pixmap| true)(pixmaps@[0]));
                }
            }
            r
        },
    }
}

/// At most one picture stands for an item.
pub proof fn law_selected_pixmap_is_unique(pixmaps: Seq<Pixmap>, a: int, b: int)
    requires
        selected(pixmaps, a),
        selected(pixmaps, b),
    ensures
        a == b,
{
}

/// Whether the data of a picture suffice for its size, and the size is not empty.
pub open spec fn is_complete(width: i32, height: i32, data: Seq<u8>) -> bool {
    width > 0 && height > 0 && 4 * (width * height) <= data.len()
}

/// `n` pixels with the channels in the order red, green, blue and alpha, of pixels that hold them in
/// the order alpha, red, green and blue.
pub open spec fn rgba_of(data: Seq<u8>, n: nat) -> Seq<u8> {
    Seq::new(
        4 * n,
        |i: int|
            if i % 4 == 3 {
                data[i - 3]
            } else {
                data[i + 1]
            },
    )
}

/// The channels of a picture in the order of an image file, if the picture is complete.
pub fn pixmap_rgba(width: i32, height: i32, data: &Vec<u8>) -> (r: Option<Vec<u8>>)
    ensures
        match r {
            Some(rgba) => is_complete(width, height, data@) && rgba@ == rgba_of(
                data@,
                (width * height) as nat,
            ),
            None => !is_complete(width, height, data@),
        },
{
    if width <= 0 || height <= 0 {
        return None;
    }
    let w: u64 = width as u64;
    let h: u64 = height as u64;
    proof {
        assert(0 < w * h <= 0x3fff_ffff_ffff_ffff) by (nonlinear_arith)
            requires
                0 < w <= 0x7fff_ffff,
                0 < h <= 0x7fff_ffff,
        ;
    }
    let n: u64 = w * h;
    let len: usize = data.len();
    if (len as u64) < 4 * n {
        return None;
    }
    let mut rgba: Vec<u8> = Vec::new();
    let mut i: u64 = 0;
    while i < n
        invariant
            i <= n,
            len == data@.len(),
            4 * n <= len,
            rgba@ == rgba_of(data@, i as nat),
        decreases n - i,
    {
        let at: usize = (4 * i) as usize;
        rgba.push(data[at + 1]);
        rgba.push(data[at + 2]);
        rgba.push(data[at + 3]);
        rgba.push(data[at]);
        proof {
            assert(rgba@ =~= rgba_of(data@, (i + 1) as nat));
        }
        i += 1;
    }
    Some(rgba)
}

/// Reordering the channels keeps every one of them: alpha, red, green and blue of each pixel can be
/// read back.
pub proof fn law_channels_are_kept(data: Seq<u8>, n: nat, k: int)
    requires
        0 <= k < n,
        4 * n <= data.len(),
    ensures
        rgba_of(data, n).len() == 4 * n,
        rgba_of(data, n)[4 * k + 3] == data[4 * k],
        rgba_of(data, n)[4 * k] == data[4 * k + 1],
        rgba_of(data, n)[4 * k + 1] == data[4 * k + 2],
        rgba_of(data, n)[4 * k + 2] == data[4 * k + 3],
{
}

/// An identifier as the stem of a file name: every character that is neither a letter nor a digit
/// is replaced.
pub open spec fn safe_text(id: Seq<char>) -> Seq<char> {
    Seq::new(
        id.len(),
        |i: int|
            if alphanumeric(id[i]) {
                id[i]
            } else {
                '_'
            },
    )
}

/// An identifier as the stem of a file name. The name stays in its directory, because it holds no
/// separator; of the ASCII characters it keeps the letters and the digits.
pub fn safe_id(id: &str) -> (r: String)
    ensures
        r@ == safe_text(id@),
        !r@.contains('/'),
        forall|i: int|
            0 <= i < id@.len() && id@[i] < '\u{80}' ==> #[trigger] r@[i] == (if ascii_alphanumeric(
                id@[i],
            ) {
                id@[i]
            } else {
                '_'
            }),
{
    let chars = chars_of(id);
    let mut out = String::new();
    let mut i: usize = 0;
    while i < chars.len()
        invariant
            i <= chars@.len(),
            chars@ == id@,
            out@ =~= safe_text(id@).take(i as int),
            forall|j: int| 0 <= j < out@.len() ==> #[trigger] out@[j] != '/',
            forall|j: int|
                0 <= j < i && id@[j] < '\u{80}' ==> #[trigger] out@[j] == (if ascii_alphanumeric(
                    id@[j],
                ) {
                    id@[j]
                } else {
                    '_'
                }),
        decreases chars@.len() - i,
    {
        let c = chars[i];
        if is_alphanumeric(c) {
            out.push(c);
        } else {
            out.push('_');
        }
        i += 1;
    }
    out
}

/// The path of the image file for an identifier.
pub open spec fn icon_file(directory: Seq<char>, id: Seq<char>) -> Seq<char> {
    path_join(directory, safe_text(id) + ".png"@)
}

proof fn lemma_file_in_directory(directory: Seq<char>, id: Seq<char>)
    requires
        !safe_text(id).contains('/'),
    ensures
        directory.is_prefix_of(icon_file(directory, id)),
{
    reveal_strlit(".png");
    let name = safe_text(id) + ".png"@;
    if has_prefix(name, seq!['/']) {
        assert(name.subrange(0, 1)[0] == '/');
        if id.len() > 0 {
            assert(safe_text(id)[0] == '/');
        }
    }
}

/// The image file that `png::Encoder` makes of eight bit channels in the order red, green, blue and
/// alpha, or `None` where it reports an error.
pub uninterp spec fn png_image(width: u32, height: u32, rgba: Seq<u8>) -> Option<Seq<u8>>;

/// Calls `png::Encoder` with the colour type `Rgba` and the bit depth `Eight`, writes the header and
/// the image data, and closes the image. The bytes depend on the size and the channels alone.
#[verifier::external_body]
fn encode_png(width: u32, height: u32, rgba: &Vec<u8>) -> (r: Option<Vec<u8>>)
    requires
        width > 0,
        height > 0,
        rgba@.len() == 4 * (width * height),
    ensures
        match r {
            Some(bytes) => png_image(width, height, rgba@) == Some(bytes@),
            None => png_image(width, height, rgba@) is None,
        },
{
    let mut bytes = Vec::new();
    let mut encoder = png::Encoder::new(&mut bytes, width, height);
    encoder.set_color(png::ColorType::Rgba);
    encoder.set_depth(png::BitDepth::Eight);
    let mut writer = encoder.write_header().ok()?;
    writer.write_image_data(rgba).ok()?;
    drop(writer);
    Some(bytes)
}

/// An image file that is to be written.
#[derive(Debug, PartialEq)]
pub struct IconFile {
    pub path: String,
    pub contents: Vec<u8>,
}

/// The image file for a picture of an item: its place in the icon directory and its contents. The file
/// lies in that directory, because its name holds no separator. There is none where the data of the picture are incomplete or cannot be encoded.
pub fn pixmap_to_file(
    width: i32,
    height: i32,
    data: &Vec<u8>,
    id: &str,
    icon_directory: &str,
) -> (r: Option<IconFile>)
    ensures
        ({
            let image = png_image(
                width as u32,
                height as u32,
                rgba_of(data@, (width * height) as nat),
            );
            match r {
                Some(file) => {
                    &&& is_complete(width, height, data@)
                    &&& image == Some(file.contents@)
                    &&& file.path@ == icon_file(icon_directory@, id@)
                },
                None => is_complete(width, height, data@) ==> image is None,
            }
        }),
        r is Some ==> !safe_text(id@).contains('/'),
        r matches Some(file) ==> icon_directory@.is_prefix_of(file.path@),
{
    let rgba = match pixmap_rgba(width, height, data) {
        Some(rgba) => rgba,
        None => {
            return None;
        },
    };
    proof {
        assert(width * height > 0) by (nonlinear_arith)
            requires
                width > 0,
                height > 0,
        ;
        assert((width as u32) * (height as u32) == width * height);
    }
    let contents = match encode_png(width as u32, height as u32, &rgba) {
        Some(contents) => contents,
        None => {
            return None;
        },
    };
    let mut name = safe_id(id);
    name.append(".png");
    proof {
        lemma_file_in_directory(icon_directory@, id@);
    }
    Some(IconFile { path: join_path(icon_directory, name.as_str()), contents })
}

/// The image file for the pictures that an item offers.
pub fn pixmap_icon(pixmaps: &Vec<Pixmap>, id: &str, icon_directory: &str) -> (r: Option<IconFile>)
    ensures
        match r {
            Some(file) => exists|k: int|
                {
                    let p = pixmaps@[k];
                    &&& #[trigger] selected(pixmaps@, k)
                    &&& is_complete(p.width, p.height, p.data@)
                    &&& png_image(
                        p.width as u32,
                        p.height as u32,
                        rgba_of(p.data@, area(p) as nat),
                    ) == Some(file.contents@)
                    &&& file.path@ == icon_file(icon_directory@, id@)
                },
            None => forall|k: int| #[trigger]
                selected(pixmaps@, k) ==> {
                    let p = pixmaps@[k];
                    is_complete(p.width, p.height, p.data@) ==> png_image(
                        p.width as u32,
                        p.height as u32,
                        rgba_of(p.data@, area(p) as nat),
                    ) is None
                },
        },
        r is Some ==> !safe_text(id@).contains('/'),
        r matches Some(file) ==> icon_directory@.is_prefix_of(file.path@),
{
    match select_pixmap(pixmaps) {
        Some(k) => {
            let p = &pixmaps[k];
            let r = pixmap_to_file(p.width, p.height, &p.data, id, icon_directory);
            proof {
                assert(selected(pixmaps@, k as int));
                assert forall|j: int| #[trigger] selected(pixmaps@, j) implies j == k by {
                    law_selected_pixmap_is_unique(pixmaps@, j, k as int);
                }
            }
            r
        },
        None => None,
    }
}

/// The picture that stands for an item is the largest of those that are at most 128 on either side and
/// not empty, or where there is none the largest of all; of several that large it is the last.
pub proof fn law_picture_that_is_taken(pixmaps: Seq<Pixmap>, k: int, j: int)
    requires
        selected(pixmaps, k),
        0 <= j < pixmaps.len(),
    ensures
        ({
            let fits = 0 < pixmaps[j].width <= 128 && 0 < pixmaps[j].height <= 128;
            let taken_fits = 0 < pixmaps[k].width <= 128 && 0 < pixmaps[k].height <= 128;
            &&& 0 <= k < pixmaps.len()
            &&& fits ==> taken_fits
            &&& fits || !taken_fits ==> pixmaps[j].width * pixmaps[j].height <= pixmaps[k].width
                * pixmaps[k].height
            &&& (fits || !taken_fits) && pixmaps[j].width * pixmaps[j].height == pixmaps[k].width
                * pixmaps[k].height ==> j <= k
        }),
{
    if is_capped(pixmaps[j]) {
        assert(exists|j: int| 0 <= j < pixmaps.len() && is_capped(#[trigger] pixmaps[j]));
    }
    assert(area(pixmaps[j]) == pixmaps[j].width * pixmaps[j].height);
    assert(area(pixmaps[k]) == pixmaps[k].width * pixmaps[k].height);
    if is_capped(pixmaps[k]) {
        let p = |p: Pixmap| is_capped(p);
        assert(p(pixmaps[k]));
        assert(exists|j: int| 0 <= j < pixmaps.len() && is_capped(#[trigger] pixmaps[j]));
        assert(p(pixmaps[j]) == is_capped(pixmaps[j]));
    } else {
        let p = |p: Pixmap| true;
        assert(p(pixmaps[j]));
    }
}

/// A picture is complete exactly if it has an area and four bytes for each of its pixels.
pub proof fn law_complete_pictures(width: i32, height: i32, data: Seq<u8>)
    ensures
        is_complete(width, height, data) <==> width > 0 && height > 0 && 4 * (width * height)
            <= data.len(),
{
}

/// A file name keeps the length of the identifier, every letter and digit in its place, and puts an
/// underscore for anything else.
pub proof fn law_safe_names(id: Seq<char>, i: int)
    requires
        0 <= i < id.len(),
    ensures
        safe_text(id).len() == id.len(),
        alphanumeric(id[i]) ==> safe_text(id)[i] == id[i],
        !alphanumeric(id[i]) ==> safe_text(id)[i] == '_',
        forall|directory: Seq<char>| #[trigger]
            icon_file(directory, id) == path_join(directory, safe_text(id) + ".png"@),
{
}

} // verus!
