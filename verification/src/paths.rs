//! File-system paths as the library sees them: carried through as opaque
//! `PathBuf` values, and examined only through the standard library's own
//! path parsing.

use vstd::prelude::*;

use crate::text::{lower, lower_chars, chars_of, chars_are};

verus! {

#[verifier::external_type_specification]
#[verifier::external_body]
pub struct PathBufDeclaration(std::path::PathBuf);

/// What `Path::extension` gives for the path spelled by `path`.
pub uninterp spec fn path_extension(path: Seq<char>) -> Option<Seq<char>>;

/// Calls `Path::extension` on the path spelled by `path`: the text after the
/// last `.` of the final component, if it has one that is not a leading dot.
/// The extension of a UTF-8 path is UTF-8, so the conversion back to text
/// always succeeds.
#[verifier::external_body]
fn extension_of(path: &str) -> (extension: Option<String>)
    ensures
        match extension {
            Some(e) => path_extension(path@) == Some(e@),
            None => path_extension(path@) is None,
        },
{
    std::path::Path::new(path).extension().and_then(|e| e.to_str()).map(|e| e.to_owned())
}

/// The extension of `path`, lower-cased in ASCII.
pub open spec fn lower_extension(path: Seq<char>) -> Option<Seq<char>> {
    match path_extension(path) {
        Some(e) => Some(lower(e)),
        None => None,
    }
}

/// Whether `path` names an image the wallpaper gallery shows: a PNG, JPEG
/// or WebP file, whatever the case of its extension.
pub fn is_wallpaper_image(path: &str) -> (image: bool)
    ensures
        image == match lower_extension(path@) {
            Some(e) => e == "png"@ || e == "jpg"@ || e == "jpeg"@ || e == "webp"@,
            None => false,
        },
{
    match extension_of(path) {
        Some(extension) => {
            let chars = chars_of(extension.as_str());
            let lowered = lower_chars(&chars);
            chars_are(&lowered, "png") || chars_are(&lowered, "jpg") || chars_are(&lowered, "jpeg")
                || chars_are(&lowered, "webp")
        },
        None => false,
    }
}

/// Whether `path` names an icon file: PNG, JPEG, WebP or SVG, whatever the
/// case of its extension.
pub fn is_icon_file(path: &str) -> (icon: bool)
    ensures
        icon == match lower_extension(path@) {
            Some(e) => e == "png"@ || e == "jpg"@ || e == "jpeg"@ || e == "webp"@ || e == "svg"@,
            None => false,
        },
{
    match extension_of(path) {
        Some(extension) => {
            let chars = chars_of(extension.as_str());
            let lowered = lower_chars(&chars);
            chars_are(&lowered, "png") || chars_are(&lowered, "jpg") || chars_are(&lowered, "jpeg")
                || chars_are(&lowered, "webp") || chars_are(&lowered, "svg")
        },
        None => false,
    }
}

/// Whether `path` names a `.desktop` launcher (the extension is compared
/// exactly, as the shell does).
pub fn is_launcher_file(path: &str) -> (launcher: bool)
    ensures
        launcher == (path_extension(path@) == Some("desktop"@)),
{
    match extension_of(path) {
        Some(extension) => {
            let chars = chars_of(extension.as_str());
            chars_are(&chars, "desktop")
        },
        None => false,
    }
}

} // verus!
