//! Freedesktop icon themes: the name-to-file index an icon theme walk
//! builds, the order in which inherited themes are walked, and resolving an
//! `Icon=` value against the index.

use vstd::prelude::*;
use vstd::hash_map::StringHashMap;

use crate::accounts::text_lines;
use crate::paths::{is_icon_file, lower_extension};
use crate::text::{
    char_vec_views, chars_are, chars_of, lower, lower_chars, slice_chars, split_chars, split_on,
    starts_with, starts_with_chars, string_from, trim, trim_chars,
};

verus! {

/// Calls `Clone::clone` on a path, which copies it unchanged.
pub assume_specification[ <std::path::PathBuf as Clone>::clone ](path: &std::path::PathBuf) -> (copy: std::path::PathBuf)
    ensures
        copy == *path,
;

/// The path `PathBuf::from` builds from the text `text`.
pub uninterp spec fn path_of(text: Seq<char>) -> std::path::PathBuf;

/// Calls `PathBuf::from` on `text`.
#[verifier::external_body]
fn path_from(text: &str) -> (path: std::path::PathBuf)
    ensures
        path == path_of(text@),
{
    std::path::PathBuf::from(text)
}

/// What `Path::file_stem` gives for the path spelled by `path`.
pub uninterp spec fn path_file_stem(path: Seq<char>) -> Option<Seq<char>>;

/// Calls `Path::file_stem` on the path spelled by `path`: the final
/// component without its extension. The stem of a UTF-8 path is UTF-8, so
/// the conversion back to text always succeeds.
#[verifier::external_body]
fn file_stem_of(path: &str) -> (stem: Option<String>)
    ensures
        match stem {
            Some(s) => path_file_stem(path@) == Some(s@),
            None => path_file_stem(path@) is None,
        },
{
    std::path::Path::new(path).file_stem().and_then(|s| s.to_str()).map(|s| s.to_owned())
}

/// Icon names mapped to the files that provide them. Names are kept
/// lower-cased in ASCII, and each name maps to the first file added for it.
pub struct IconIndex {
    files: StringHashMap<std::path::PathBuf>,
}

/// The icon file named by `path`, indexed under its file stem: `None` when
/// the path is not a PNG, JPEG, WebP or SVG file (in any case) or has no
/// stem.
pub open spec fn icon_file_name(path: Seq<char>) -> Option<Seq<char>> {
    let is_image = match lower_extension(path) {
        Some(e) => e == "png"@ || e == "jpg"@ || e == "jpeg"@ || e == "webp"@ || e == "svg"@,
        None => false,
    };
    if is_image {
        path_file_stem(path)
    } else {
        None
    }
}

/// Every PNG, JPEG, WebP or SVG file, whatever the case of its extension,
/// is an icon file named by its file stem.
pub proof fn every_icon_format_is_indexed(path: Seq<char>, stem: Seq<char>)
    requires
        lower_extension(path) == Some("png"@) || lower_extension(path) == Some("jpg"@)
            || lower_extension(path) == Some("jpeg"@) || lower_extension(path) == Some("webp"@)
            || lower_extension(path) == Some("svg"@),
        path_file_stem(path) == Some(stem),
    ensures
        icon_file_name(path) == Some(stem),
{
}

impl IconIndex {
    /// The names the index knows, and the file each one resolves to.
    pub closed spec fn view(&self) -> Map<Seq<char>, std::path::PathBuf> {
        self.files@
    }

    /// An empty index.
    pub fn new() -> (index: IconIndex)
        ensures
            index.view() == Map::<Seq<char>, std::path::PathBuf>::empty(),
    {
        IconIndex { files: StringHashMap::new() }
    }

    /// Records `path` under the lower-cased `name`, unless that name is
    /// already taken: the first file added for a name wins.
    pub fn add(&mut self, name: &str, path: std::path::PathBuf)
        ensures
            final(self).view() == if old(self).view().contains_key(lower(name@)) {
                old(self).view()
            } else {
                old(self).view().insert(lower(name@), path)
            },
    {
        let chars = chars_of(name);
        let key = string_from(&lower_chars(&chars));
        if !self.files.contains_key(key.as_str()) {
            self.files.insert(key, path);
        }
    }

    /// Records the icon file at `path` (its text) under its lower-cased
    /// file stem, unless the name is taken; anything that is not an icon
    /// file is skipped.
    pub fn add_icon_file(&mut self, path: &str, file: std::path::PathBuf)
        ensures
            final(self).view() == match icon_file_name(path@) {
                Some(stem) => if old(self).view().contains_key(lower(stem)) {
                    old(self).view()
                } else {
                    old(self).view().insert(lower(stem), file)
                },
                None => old(self).view(),
            },
            (lower_extension(path@) == Some("png"@) || lower_extension(path@) == Some("jpg"@)
                || lower_extension(path@) == Some("jpeg"@) || lower_extension(path@) == Some("webp"@)
                || lower_extension(path@) == Some("svg"@)) && path_file_stem(path@) is Some
                && !old(self).view().contains_key(lower(path_file_stem(path@)->0))
                ==> final(self).view() == old(self).view().insert(lower(path_file_stem(path@)->0), file),
    {
        proof {
            if path_file_stem(path@) is Some {
                let stem = path_file_stem(path@)->0;
                if lower_extension(path@) == Some("png"@) || lower_extension(path@) == Some("jpg"@)
                    || lower_extension(path@) == Some("jpeg"@) || lower_extension(path@) == Some("webp"@)
                    || lower_extension(path@) == Some("svg"@) {
                    every_icon_format_is_indexed(path@, stem);
                }
            }
        }
        if is_icon_file(path) {
            match file_stem_of(path) {
                Some(stem) => self.add(stem.as_str(), file),
                None => {},
            }
        }
    }

    /// The file indexed under exactly `name`.
    pub fn get(&self, name: &str) -> (path: Option<&std::path::PathBuf>)
        ensures
            match path {
                Some(p) => self.view().contains_key(name@) && *p == self.view()[name@],
                None => !self.view().contains_key(name@),
            },
    {
        self.files.get(name)
    }

    /// Whether some file is indexed under exactly `name`.
    pub fn contains_key(&self, name: &str) -> (known: bool)
        ensures
            known == self.view().contains_key(name@),
    {
        self.files.contains_key(name)
    }

    /// How many names the index knows.
    pub fn len(&self) -> (count: usize)
        ensures
            count == self.view().dom().len(),
    {
        self.files.len()
    }
}

/// Resolving an `Icon=` value: an existing icon file named by path is used
/// as is; anything else is looked up in the index under its file stem (or,
/// without one, the whole value), lower-cased.
pub open spec fn resolved_icon(icon: Seq<char>, is_file: bool, index: Map<Seq<char>, std::path::PathBuf>) -> Option<std::path::PathBuf> {
    let is_image = match lower_extension(icon) {
        Some(e) => e == "png"@ || e == "jpg"@ || e == "jpeg"@ || e == "webp"@ || e == "svg"@,
        None => false,
    };
    if is_file && is_image {
        Some(path_of(icon))
    } else {
        let needle = lower(match path_file_stem(icon) {
            Some(stem) => stem,
            None => icon,
        });
        if index.contains_key(needle) {
            Some(index[needle])
        } else {
            None
        }
    }
}

/// An `Icon=` value that names an existing PNG, JPEG, WebP or SVG file
/// (extension in any case) resolves to that file, whatever the index holds.
pub proof fn icon_files_resolve_to_themselves(icon: Seq<char>, index: Map<Seq<char>, std::path::PathBuf>)
    requires
        lower_extension(icon) == Some("png"@) || lower_extension(icon) == Some("jpg"@)
            || lower_extension(icon) == Some("jpeg"@) || lower_extension(icon) == Some("webp"@)
            || lower_extension(icon) == Some("svg"@),
    ensures
        resolved_icon(icon, true, index) == Some(path_of(icon)),
{
}

/// An icon file added to an index that lacks its name is what an `Icon=`
/// value with that name (its stem, or the whole value, in any case) then
/// resolves to.
pub proof fn added_icon_files_resolve(
    index: Map<Seq<char>, std::path::PathBuf>,
    path: Seq<char>,
    file: std::path::PathBuf,
    icon: Seq<char>,
)
    requires
        lower_extension(path) == Some("png"@) || lower_extension(path) == Some("jpg"@)
            || lower_extension(path) == Some("jpeg"@) || lower_extension(path) == Some("webp"@)
            || lower_extension(path) == Some("svg"@),
        path_file_stem(path) is Some,
        !index.contains_key(lower(path_file_stem(path)->0)),
        lower(match path_file_stem(icon) {
            Some(stem) => stem,
            None => icon,
        }) == lower(path_file_stem(path)->0),
    ensures
        icon_file_name(path) == path_file_stem(path),
        resolved_icon(icon, false, index.insert(lower(path_file_stem(path)->0), file)) == Some(file),
{
    every_icon_format_is_indexed(path, path_file_stem(path)->0);
}

/// Resolves an `Icon=` value to an icon file; `is_file` tells whether the
/// value names an existing file.
pub fn resolve_icon(icon: &str, is_file: bool, index: &IconIndex) -> (path: Option<std::path::PathBuf>)
    ensures
        path == resolved_icon(icon@, is_file, index.view()),
{
    if is_file && is_icon_file(icon) {
        return Some(path_from(icon));
    }
    let needle = match file_stem_of(icon) {
        Some(stem) => stem,
        None => icon.to_owned(),
    };
    let chars = chars_of(needle.as_str());
    let lowered = lower_chars(&chars);
    let key = string_from(&lowered);
    match index.get(key.as_str()) {
        Some(path) => Some(path.clone()),
        None => None,
    }
}


/// The themes one line of an `index.theme` file names as inherited: after
/// trimming, a line `Inherits=a,b,...` names each trimmed, non-empty item.
pub open spec fn line_inherits(line: Seq<char>) -> Seq<Seq<char>> {
    let text = trim(line);
    if starts_with(text, "Inherits="@) {
        crate::accounts::nonempty_parts(
            split_on(text.subrange(9, text.len() as int), ',').map_values(|item: Seq<char>| trim(item)),
        )
    } else {
        Seq::empty()
    }
}

/// The inherited themes named by `lines`, in order.
pub open spec fn lines_inherits(lines: Seq<Seq<char>>) -> Seq<Seq<char>>
    decreases lines.len(),
{
    if lines.len() == 0 {
        Seq::empty()
    } else {
        lines_inherits(lines.drop_last()) + line_inherits(lines.last())
    }
}

/// The themes an `index.theme` file says its theme inherits from.
pub open spec fn inherited_themes_of(index_theme: Seq<char>) -> Seq<Seq<char>> {
    lines_inherits(text_lines(index_theme))
}

fn push_nonempty_trimmed(out: &mut Vec<String>, items: &Vec<Vec<char>>)
    ensures
        crate::text::string_views(final(out)@) == crate::text::string_views(old(out)@) + crate::accounts::nonempty_parts(
            char_vec_views(items@).map_values(|item: Seq<char>| trim(item)),
        ),
{
    let ghost trimmed = char_vec_views(items@).map_values(|item: Seq<char>| trim(item));
    let ghost start = crate::text::string_views(out@);
    let mut k: usize = 0;
    assert(trimmed.take(0) =~= Seq::<Seq<char>>::empty());
    assert(crate::text::string_views(out@) =~= start + crate::accounts::nonempty_parts(trimmed.take(0)));
    while k < items.len()
        invariant
            0 <= k <= items@.len(),
            trimmed == char_vec_views(items@).map_values(|item: Seq<char>| trim(item)),
            crate::text::string_views(out@) == start + crate::accounts::nonempty_parts(trimmed.take(k as int)),
        decreases items@.len() - k,
    {
        let item = trim_chars(&items[k]);
        assert(trimmed.take(k + 1).drop_last() == trimmed.take(k as int));
        assert(trimmed.take(k + 1).last() == item@);
        if item.len() > 0 {
            let ghost before = out@;
            out.push(string_from(&item));
            assert(crate::text::string_views(out@) =~= crate::text::string_views(before).push(item@));
        }
        k = k + 1;
    }
    assert(trimmed.take(trimmed.len() as int) == trimmed);
}

/// The themes an `index.theme` file inherits from (its `Inherits=` lines),
/// in order.
pub fn inherited_themes(index_theme: &str) -> (themes: Vec<String>)
    ensures
        crate::text::string_views(themes@) == inherited_themes_of(index_theme@),
{
    let lines = crate::accounts::text_lines_of(index_theme);
    let ghost views = char_vec_views(lines@);
    let prefix = chars_of("Inherits=");
    proof {
        reveal_strlit("Inherits=");
    }
    let mut themes: Vec<String> = Vec::new();
    let mut k: usize = 0;
    assert(views.take(0) =~= Seq::<Seq<char>>::empty());
    assert(crate::text::string_views(themes@) =~= Seq::<Seq<char>>::empty());
    while k < lines.len()
        invariant
            0 <= k <= lines@.len(),
            views == char_vec_views(lines@),
            views == text_lines(index_theme@),
            prefix@ == "Inherits="@,
            prefix@.len() == 9,
            crate::text::string_views(themes@) == lines_inherits(views.take(k as int)),
        decreases lines@.len() - k,
    {
        let line = trim_chars(&lines[k]);
        assert(views.take(k + 1).drop_last() == views.take(k as int));
        assert(views.take(k + 1).last() == lines@[k as int]@);
        if starts_with_chars(&line, &prefix) {
            let rest = slice_chars(&line, 9, line.len());
            let items = split_chars(&rest, ',');
            push_nonempty_trimmed(&mut themes, &items);
        } else {
            assert(line_inherits(lines@[k as int]@) =~= Seq::<Seq<char>>::empty());
            assert(crate::text::string_views(themes@) =~= lines_inherits(views.take(k + 1)));
        }
        k = k + 1;
    }
    assert(views.take(views.len() as int) == views);
    themes
}

/// The order in which an icon theme and the themes it inherits are walked:
/// depth first, each theme at most once, the selected theme's whole
/// inheritance before `hicolor`.
pub struct ThemeWalk {
    visited: Vec<String>,
    pending: Vec<String>,
}

impl ThemeWalk {
    /// Themes already handed out.
    pub closed spec fn visited(&self) -> Seq<Seq<char>> {
        crate::text::string_views(self.visited@)
    }

    /// No theme is walked twice.
    #[verifier::type_invariant]
    closed spec fn well_formed(&self) -> bool {
        self.visited().no_duplicates()
    }

    /// Themes still to walk; the last one is next.
    pub closed spec fn pending(&self) -> Seq<Seq<char>> {
        crate::text::string_views(self.pending@)
    }

    /// A walk of `theme`, followed by `hicolor` when `theme` is another theme.
    pub fn new(theme: &str) -> (walk: ThemeWalk)
        ensures
            walk.visited().len() == 0,
            walk.pending() == if theme@ == "hicolor"@ { seq![theme@] } else { seq!["hicolor"@, theme@] },
    {
        let chars = chars_of(theme);
        let mut pending: Vec<String> = Vec::new();
        if !chars_are(&chars, "hicolor") {
            pending.push("hicolor".to_owned());
        }
        pending.push(theme.to_owned());
        let walk = ThemeWalk { visited: Vec::new(), pending };
        assert(walk.visited() =~= Seq::<Seq<char>>::empty());
        assert(walk.pending() =~= if theme@ == "hicolor"@ { seq![theme@] } else { seq!["hicolor"@, theme@] });
        walk
    }

    fn was_visited(&self, theme: &str) -> (seen: bool)
        ensures
            seen == self.visited().contains(theme@),
    {
        let mut k: usize = 0;
        while k < self.visited.len()
            invariant
                0 <= k <= self.visited@.len(),
                forall|m: int| 0 <= m < k ==> self.visited()[m] != theme@,
            decreases self.visited@.len() - k,
        {
            if crate::geo::text_eq(self.visited[k].as_str(), theme) {
                assert(self.visited()[k as int] == theme@);
                return true;
            }
            k = k + 1;
        }
        false
    }

    /// The next theme to walk: the most recently queued theme not walked
    /// yet, which is marked walked; `None` once nothing is left.
    pub fn next_theme(&mut self) -> (theme: Option<String>)
        ensures
            final(self).visited().no_duplicates(),
            match theme {
                Some(t) => {
                    &&& !old(self).visited().contains(t@)
                    &&& final(self).visited() == old(self).visited().push(t@)
                    &&& exists|k: int| 0 <= k < old(self).pending().len() && old(self).pending()[k] == t@
                        && final(self).pending() == old(self).pending().take(k)
                        && forall|m: int| k < m < old(self).pending().len() ==> old(self).visited().contains(
                            #[trigger] old(self).pending()[m],
                        )
                },
                None => final(self).visited() == old(self).visited() && final(self).pending().len() == 0
                    && forall|m: int| 0 <= m < old(self).pending().len() ==> old(self).visited().contains(
                        #[trigger] old(self).pending()[m],
                    ),
            },
    {
        proof {
            use_type_invariant(&*self);
        }
        let ghost initial = self.pending();
        let mut pending: Vec<String> = Vec::new();
        std::mem::swap(&mut pending, &mut self.pending);
        while pending.len() > 0
            invariant
                self.visited() == old(self).visited(),
                self.visited().no_duplicates(),
                initial == old(self).pending(),
                crate::text::string_views(pending@).len() <= initial.len(),
                crate::text::string_views(pending@) == initial.take(pending@.len() as int),
                forall|m: int| pending@.len() <= m < initial.len() ==> self.visited().contains(
                    #[trigger] initial[m],
                ),
            decreases pending@.len(),
        {
            let ghost before_pop = pending@;
            let candidate = pending.pop().unwrap();
            let ghost k = pending@.len() as int;
            assert(candidate == before_pop[k]);
            assert(crate::text::string_views(before_pop)[k] == candidate@);
            assert(initial.take(k + 1)[k] == initial[k]);
            assert(initial[k] == candidate@);
            assert(crate::text::string_views(pending@) =~= initial.take(k));
            if !self.was_visited(candidate.as_str()) {
                let ghost before = self.visited@;
                let mut visited: Vec<String> = Vec::new();
                std::mem::swap(&mut visited, &mut self.visited);
                visited.push(candidate.clone());
                assert(crate::text::string_views(visited@) =~= crate::text::string_views(before).push(candidate@));
                assert(crate::text::string_views(visited@).no_duplicates()) by {
                    let v = crate::text::string_views(visited@);
                    assert forall|i: int, j: int| 0 <= i < v.len() && 0 <= j < v.len() && i != j implies v[i] != v[j] by {
                        if i == v.len() - 1 {
                            assert(old(self).visited()[j] == v[j]);
                        } else if j == v.len() - 1 {
                            assert(old(self).visited()[i] == v[i]);
                        }
                    }
                }
                self.visited = visited;
                self.pending = pending;
                return Some(candidate);
            }
        }
        self.pending = pending;
        None
    }

    /// Queues the themes the walked theme inherits from, so that the first
    /// of them is walked next.
    pub fn found(&mut self, inherits: Vec<String>)
        ensures
            final(self).visited() == old(self).visited(),
            final(self).pending() == old(self).pending() + crate::text::string_views(inherits@).reverse(),
    {
        proof {
            use_type_invariant(&*self);
        }
        let mut k: usize = inherits.len();
        let ghost start = self.pending();
        let ghost items = crate::text::string_views(inherits@);
        let mut pending: Vec<String> = Vec::new();
        std::mem::swap(&mut pending, &mut self.pending);
        assert(items.reverse().take(0) =~= Seq::<Seq<char>>::empty());
        assert(crate::text::string_views(pending@) =~= start + items.reverse().take(0));
        while k > 0
            invariant
                0 <= k <= inherits@.len(),
                items == crate::text::string_views(inherits@),
                crate::text::string_views(pending@) == start + items.reverse().take(inherits@.len() - k),
            decreases k,
        {
            let ghost before = pending@;
            pending.push(inherits[k - 1].clone());
            assert(items.reverse().take(inherits@.len() - k + 1) =~= items.reverse().take(inherits@.len() - k).push(items[k - 1]));
            assert(crate::text::string_views(pending@) =~= crate::text::string_views(before).push(items[k - 1]));
            k = k - 1;
        }
        assert(items.reverse().take(items.len() as int) == items.reverse());
        self.pending = pending;
    }
}

} // verus!
