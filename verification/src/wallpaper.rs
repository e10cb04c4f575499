//! Choosing a wallpaper image, the short list of recently used ones the
//! gallery offers next to it, and the small JPEG previews the gallery shows.

use vstd::prelude::*;

use crate::config::WallpaperMode;

verus! {

/// What `==` on two `PathBuf`s gives.
pub uninterp spec fn same_path(a: std::path::PathBuf, b: std::path::PathBuf) -> bool;

/// Calls `PartialEq::eq` on two paths, which compares them component by
/// component: a path equals itself, and the comparison is symmetric.
#[verifier::external_body]
fn paths_equal(a: &std::path::PathBuf, b: &std::path::PathBuf) -> (same: bool)
    ensures
        same == same_path(*a, *b),
        same == same_path(*b, *a),
        *a == *b ==> same,
{
    a == b
}

/// `paths` without the entries equal to `path`, in order.
pub open spec fn without_path(paths: Seq<std::path::PathBuf>, path: std::path::PathBuf) -> Seq<std::path::PathBuf>
    decreases paths.len(),
{
    if paths.len() == 0 {
        Seq::empty()
    } else {
        let rest = without_path(paths.drop_last(), path);
        if same_path(paths.last(), path) {
            rest
        } else {
            rest.push(paths.last())
        }
    }
}

/// The recent wallpapers after `path` is chosen while `wallpaper` was set:
/// the previous wallpaper, when it is another image, moves to the front
/// (once); the chosen image leaves the list; at most two remain.
pub open spec fn recents_after(
    wallpaper: Option<std::path::PathBuf>,
    recent: Seq<std::path::PathBuf>,
    path: std::path::PathBuf,
) -> Seq<std::path::PathBuf> {
    let kept = match wallpaper {
        Some(previous) => if !same_path(previous, path) {
            seq![previous] + without_path(recent, previous)
        } else {
            recent
        },
        None => recent,
    };
    let cleaned = without_path(kept, path);
    if cleaned.len() > 2 {
        cleaned.take(2)
    } else {
        cleaned
    }
}

proof fn lemma_without_path(paths: Seq<std::path::PathBuf>, path: std::path::PathBuf)
    ensures
        without_path(paths, path).len() <= paths.len(),
        forall|k: int| 0 <= k < without_path(paths, path).len() ==> !same_path(#[trigger] without_path(paths, path)[k], path),
    decreases paths.len(),
{
    if paths.len() > 0 {
        lemma_without_path(paths.drop_last(), path);
    }
}

proof fn lemma_without_path_prepend(first: std::path::PathBuf, paths: Seq<std::path::PathBuf>, path: std::path::PathBuf)
    ensures
        without_path(seq![first] + paths, path) == if same_path(first, path) {
            without_path(paths, path)
        } else {
            seq![first] + without_path(paths, path)
        },
    decreases paths.len(),
{
    if paths.len() == 0 {
        let single = seq![first] + paths;
        assert(single.drop_last() =~= Seq::<std::path::PathBuf>::empty());
        assert(single.last() == first);
        assert(without_path(single.drop_last(), path) == Seq::<std::path::PathBuf>::empty());
        assert(without_path(paths, path) == Seq::<std::path::PathBuf>::empty());
        assert(Seq::<std::path::PathBuf>::empty().push(first) =~= seq![first] + Seq::<std::path::PathBuf>::empty());
        assert(without_path(seq![first] + paths, path) =~= if same_path(first, path) {
            without_path(paths, path)
        } else {
            seq![first] + without_path(paths, path)
        });
    } else {
        lemma_without_path_prepend(first, paths.drop_last(), path);
        assert((seq![first] + paths).drop_last() =~= seq![first] + paths.drop_last());
        assert((seq![first] + paths).last() == paths.last());
        if !same_path(paths.last(), path) && !same_path(first, path) {
            assert((seq![first] + without_path(paths.drop_last(), path)).push(paths.last()) =~= seq![first] + without_path(
                paths.drop_last(),
                path,
            ).push(paths.last()));
        }
    }
}

/// A copy of `paths` without the entries equal to `path`.
fn other_paths(paths: &Vec<std::path::PathBuf>, path: &std::path::PathBuf) -> (kept: Vec<std::path::PathBuf>)
    ensures
        kept@ == without_path(paths@, *path),
{
    let mut kept: Vec<std::path::PathBuf> = Vec::new();
    let mut k: usize = 0;
    while k < paths.len()
        invariant
            0 <= k <= paths@.len(),
            kept@ == without_path(paths@.take(k as int), *path),
        decreases paths@.len() - k,
    {
        assert(paths@.take(k + 1).drop_last() =~= paths@.take(k as int));
        if !paths_equal(&paths[k], path) {
            kept.push(paths[k].clone());
        }
        k = k + 1;
    }
    assert(paths@.take(k as int) =~= paths@);
    kept
}

/// Makes `path` the wallpaper, shown as an image, and updates the recent
/// wallpapers: the one it replaces goes to the front, `path` itself is not
/// listed, and at most two are kept.
pub fn select_wallpaper(
    wallpaper: &mut Option<std::path::PathBuf>,
    recent: &mut Vec<std::path::PathBuf>,
    mode: &mut WallpaperMode,
    path: std::path::PathBuf,
)
    ensures
        *final(wallpaper) == Some(path),
        *final(mode) == WallpaperMode::Image,
        final(recent)@ == recents_after(*old(wallpaper), old(recent)@, path),
        final(recent)@.len() <= 2,
        forall|k: int| 0 <= k < final(recent)@.len() ==> !same_path(#[trigger] final(recent)@[k], path),
        match *old(wallpaper) {
            Some(previous) => !same_path(previous, path) ==> final(recent)@.len() > 0 && final(recent)@[0] == previous,
            None => true,
        },
{
    let ghost old_recent = recent@;
    let mut kept: Vec<std::path::PathBuf> = recent.clone();
    proof {
        assert(kept@ =~= old_recent);
    }
    match wallpaper.take() {
        Some(previous) => {
            if !paths_equal(&previous, &path) {
                let mut front = other_paths(&kept, &previous);
                front.insert(0, previous);
                assert(front@ =~= seq![previous] + without_path(old_recent, previous));
                kept = front;
            }
        },
        None => {},
    }
    let mut cleaned = other_paths(&kept, &path);
    cleaned.truncate(2);
    proof {
        lemma_without_path(kept@, path);
        match *old(wallpaper) {
            Some(previous) => {
                if !same_path(previous, path) {
                    lemma_without_path_prepend(previous, without_path(old_recent, previous), path);
                }
            },
            None => {},
        }
    }
    *recent = cleaned;
    *wallpaper = Some(path);
    *mode = WallpaperMode::Image;
}

/// The longest side, in pixels, of a gallery preview.
pub const THUMBNAIL_SIZE: u32 = 224;

/// The JPEG quality (1 to 100) the gallery previews are encoded with.
pub const THUMBNAIL_QUALITY: u8 = 82;

/// The JPEG bytes that `image` makes of the picture in `source`, scaled down
/// to fit in a `size` by `size` square, at `quality`; `None` where `source`
/// cannot be decoded or the scaled picture cannot be encoded.
pub uninterp spec fn jpeg_thumbnail(source: Seq<u8>, size: u32, quality: u8) -> Option<Seq<u8>>;

/// Calls `image::load_from_memory` on `source` (which guesses the format from
/// the bytes), `DynamicImage::thumbnail(size, size)` on the picture, and
/// `JpegEncoder::new_with_quality(.., quality).encode_image` into a byte
/// buffer. All three only compute on their arguments, so the outcome is
/// named by `jpeg_thumbnail`. Sizes above `THUMBNAIL_SIZE` are left out: a
/// large one can ask `thumbnail` for a pixel buffer beyond what memory holds.
#[verifier::external_body]
fn encode_thumbnail(source: &[u8], size: u32, quality: u8) -> (jpeg: Option<Vec<u8>>)
    requires
        size <= THUMBNAIL_SIZE,
    ensures
        match jpeg {
            Some(bytes) => jpeg_thumbnail(source@, size, quality) == Some(bytes@),
            None => jpeg_thumbnail(source@, size, quality) is None,
        },
{
    let picture = match image::load_from_memory(source) {
        Ok(picture) => picture,
        Err(_) => return None,
    };
    let scaled = picture.thumbnail(size, size);
    let mut bytes: Vec<u8> = Vec::new();
    match image::codecs::jpeg::JpegEncoder::new_with_quality(&mut bytes, quality).encode_image(&scaled) {
        Ok(()) => Some(bytes),
        Err(_) => None,
    }
}

/// The gallery preview of the image file whose contents are `source`: the
/// picture scaled to fit in a `THUMBNAIL_SIZE` square and encoded as JPEG at
/// `THUMBNAIL_QUALITY`, or `None` where it cannot be decoded or encoded.
pub fn wallpaper_thumbnail(source: &[u8]) -> (jpeg: Option<Vec<u8>>)
    ensures
        match jpeg {
            Some(bytes) => jpeg_thumbnail(source@, THUMBNAIL_SIZE, THUMBNAIL_QUALITY) == Some(bytes@),
            None => jpeg_thumbnail(source@, THUMBNAIL_SIZE, THUMBNAIL_QUALITY) is None,
        },
{
    encode_thumbnail(source, THUMBNAIL_SIZE, THUMBNAIL_QUALITY)
}

} // verus!
