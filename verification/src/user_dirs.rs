//! Reading well-known folders (pictures, desktop) from an XDG
//! `user-dirs.dirs` file.

use vstd::prelude::*;

use crate::accounts::text_lines;
use crate::text::{
    char_vec_views, chars_of, slice_chars, split_chars, starts_with, starts_with_chars, string_from, trim,
    trim_chars,
};

verus! {

/// The text after `key` on the first line that starts with it; lines are
/// compared after trimming when `trim_lines` is set.
pub open spec fn first_prefixed(lines: Seq<Seq<char>>, key: Seq<char>, trim_lines: bool) -> Option<Seq<char>>
    decreases lines.len(),
{
    if lines.len() == 0 {
        None
    } else {
        let line = if trim_lines { trim(lines[0]) } else { lines[0] };
        if starts_with(line, key) {
            Some(line.subrange(key.len() as int, line.len() as int))
        } else {
            first_prefixed(lines.drop_first(), key, trim_lines)
        }
    }
}

/// `s` without leading and trailing `c` characters (`str::trim_matches`).
pub open spec fn strip_around(s: Seq<char>, c: char) -> Seq<char>
    decreases s.len(),
{
    if s.len() > 0 && s[0] == c {
        strip_around(s.drop_first(), c)
    } else if s.len() > 0 && s.last() == c {
        strip_around(s.drop_last(), c)
    } else {
        s
    }
}

/// Every occurrence of `pattern` in `s`, left to right and without overlap,
/// replaced by `replacement` (`str::replace` with a non-empty pattern).
pub open spec fn replace_all(s: Seq<char>, pattern: Seq<char>, replacement: Seq<char>) -> Seq<char>
    recommends
        pattern.len() > 0,
    decreases s.len(),
{
    if s.len() == 0 || pattern.len() == 0 {
        s
    } else if starts_with(s, pattern) {
        replacement + replace_all(s.subrange(pattern.len() as int, s.len() as int), pattern, replacement)
    } else {
        seq![s[0]] + replace_all(s.drop_first(), pattern, replacement)
    }
}

/// The folder a `user-dirs.dirs` file assigns to `key` (such as
/// `XDG_PICTURES_DIR=`): the rest of the first line starting with it,
/// trimmed, without surrounding quotes, with `$HOME` replaced by `home`.
pub open spec fn user_dir(contents: Seq<char>, key: Seq<char>, trim_lines: bool, home: Seq<char>) -> Option<Seq<char>> {
    match first_prefixed(text_lines(contents), key, trim_lines) {
        Some(value) => Some(replace_all(strip_around(trim(value), '"'), "$HOME"@, home)),
        None => None,
    }
}

proof fn lemma_strip_around_front(s: Seq<char>, c: char, i: int)
    requires
        0 <= i < s.len(),
        s[i] == c,
    ensures
        strip_around(s.subrange(i, s.len() as int), c) == strip_around(s.subrange(i + 1, s.len() as int), c),
{
    assert(s.subrange(i, s.len() as int).drop_first() =~= s.subrange(i + 1, s.len() as int));
}

proof fn lemma_strip_around_back(s: Seq<char>, c: char, j: int)
    requires
        0 < j <= s.len(),
        s.len() == 0 || s[0] != c,
        s[j - 1] == c,
    ensures
        strip_around(s.subrange(0, j), c) == strip_around(s.subrange(0, j - 1), c),
{
    assert(s.subrange(0, j).drop_last() =~= s.subrange(0, j - 1));
}

fn strip_quotes(chars: &[char]) -> (result: Vec<char>)
    ensures
        result@ == strip_around(chars@, '"'),
{
    let n = chars.len();
    let mut start: usize = 0;
    assert(chars@.subrange(0, n as int) =~= chars@);
    while start < n && chars[start] == '"'
        invariant
            0 <= start <= n,
            n == chars@.len(),
            strip_around(chars@, '"') == strip_around(chars@.subrange(start as int, n as int), '"'),
        decreases n - start,
    {
        proof {
            lemma_strip_around_front(chars@, '"', start as int);
        }
        start = start + 1;
    }
    let ghost rest = chars@.subrange(start as int, n as int);
    let mut end: usize = n;
    assert(rest.subrange(0, rest.len() as int) =~= rest);
    while end > start && chars[end - 1] == '"'
        invariant
            start <= end <= n,
            n == chars@.len(),
            rest == chars@.subrange(start as int, n as int),
            rest.len() == 0 || rest[0] != '"',
            strip_around(rest, '"') == strip_around(rest.subrange(0, end - start), '"'),
        decreases end - start,
    {
        proof {
            lemma_strip_around_back(rest, '"', end - start);
        }
        end = end - 1;
    }
    let ghost kept = rest.subrange(0, end - start);
    assert(kept =~= chars@.subrange(start as int, end as int));
    assert(kept.len() == 0 || (kept[0] != '"' && kept.last() != '"'));
    slice_chars(chars, start, end)
}

fn replace_home(chars: &[char], home: &[char]) -> (result: Vec<char>)
    ensures
        result@ == replace_all(chars@, "$HOME"@, home@),
{
    let pattern = chars_of("$HOME");
    let mut out: Vec<char> = Vec::new();
    let mut i: usize = 0;
    let n = chars.len();
    proof {
        reveal_strlit("$HOME");
    }
    assert(chars@.subrange(0, n as int) =~= chars@);
    while i < n
        invariant
            0 <= i <= n,
            n == chars@.len(),
            pattern@ == "$HOME"@,
            pattern@.len() == 5,
            out@ + replace_all(chars@.subrange(i as int, n as int), pattern@, home@) == replace_all(chars@, pattern@, home@),
        decreases n - i,
    {
        let ghost rest = chars@.subrange(i as int, n as int);
        let tail = slice_chars(chars, i, n);
        if starts_with_chars(&tail, &pattern) {
            let mut k: usize = 0;
            let ghost start = out@;
            while k < home.len()
                invariant
                    0 <= k <= home@.len(),
                    out@ == start + home@.take(k as int),
                decreases home@.len() - k,
            {
                out.push(home[k]);
                assert(home@.take(k + 1) == home@.take(k as int).push(home@[k as int]));
                k = k + 1;
            }
            assert(home@.take(home@.len() as int) == home@);
            assert(rest.subrange(5, rest.len() as int) =~= chars@.subrange(i + 5, n as int));
            assert(out@ + replace_all(chars@.subrange(i + 5, n as int), pattern@, home@) =~= start + replace_all(rest, pattern@, home@));
            i = i + 5;
        } else {
            let ghost start = out@;
            out.push(chars[i]);
            assert(rest.drop_first() =~= chars@.subrange(i + 1, n as int));
            assert(out@ + replace_all(chars@.subrange(i + 1, n as int), pattern@, home@) =~= start + replace_all(rest, pattern@, home@));
            i = i + 1;
        }
    }
    assert(out@ + replace_all(chars@.subrange(n as int, n as int), pattern@, home@) == out@ + Seq::<char>::empty());
    assert(out@ =~= out@ + Seq::<char>::empty());
    out
}

fn find_prefixed_line(lines: &Vec<Vec<char>>, key: &[char], trim_lines: bool) -> (value: Option<Vec<char>>)
    ensures
        match value {
            Some(v) => first_prefixed(char_vec_views(lines@), key@, trim_lines) == Some(v@),
            None => first_prefixed(char_vec_views(lines@), key@, trim_lines) is None,
        },
{
    let ghost views = char_vec_views(lines@);
    let mut k: usize = 0;
    assert(views.skip(0) =~= views);
    while k < lines.len()
        invariant
            0 <= k <= lines@.len(),
            views == char_vec_views(lines@),
            first_prefixed(views, key@, trim_lines) == first_prefixed(views.skip(k as int), key@, trim_lines),
        decreases lines@.len() - k,
    {
        let line = if trim_lines { trim_chars(&lines[k]) } else { slice_chars(&lines[k], 0, lines[k].len()) };
        assert(lines@[k as int]@.subrange(0, lines@[k as int]@.len() as int) == lines@[k as int]@);
        assert(views.skip(k as int)[0] == lines@[k as int]@);
        assert(views.skip(k as int).drop_first() =~= views.skip(k + 1));
        if starts_with_chars(&line, key) {
            let value = slice_chars(&line, key.len(), line.len());
            return Some(value);
        }
        k = k + 1;
    }
    None
}

fn user_dir_exec(contents: &str, key: &str, trim_lines: bool, home: Option<&str>) -> (folder: Option<String>)
    ensures
        match home {
            None => folder is None,
            Some(home) => match user_dir(contents@, key@, trim_lines, home@) {
                Some(expected) => folder is Some && folder->0@ == expected,
                None => folder is None,
            },
        },
{
    let lines = crate::accounts::text_lines_of(contents);
    let key_chars = chars_of(key);
    let value = match find_prefixed_line(&lines, &key_chars, trim_lines) {
        Some(value) => value,
        None => return None,
    };
    let home = match home {
        Some(home) => home,
        None => return None,
    };
    let trimmed = trim_chars(&value);
    let unquoted = strip_quotes(&trimmed);
    let home_chars = chars_of(home);
    let expanded = replace_home(&unquoted, &home_chars);
    Some(string_from(&expanded))
}

/// The pictures folder a `user-dirs.dirs` file names (`XDG_PICTURES_DIR=`,
/// lines compared after trimming), or `None` without a home directory.
pub fn pictures_dir_from_user_dirs(contents: &str, home: Option<&str>) -> (folder: Option<String>)
    ensures
        match home {
            None => folder is None,
            Some(home) => match user_dir(contents@, "XDG_PICTURES_DIR="@, true, home@) {
                Some(expected) => folder is Some && folder->0@ == expected,
                None => folder is None,
            },
        },
{
    user_dir_exec(contents, "XDG_PICTURES_DIR=", true, home)
}

/// The desktop folder a `user-dirs.dirs` file names (`XDG_DESKTOP_DIR=` at
/// the very start of a line), or `None` without a home directory.
pub fn desktop_dir_from_user_dirs(contents: &str, home: Option<&str>) -> (folder: Option<String>)
    ensures
        match home {
            None => folder is None,
            Some(home) => match user_dir(contents@, "XDG_DESKTOP_DIR="@, false, home@) {
                Some(expected) => folder is Some && folder->0@ == expected,
                None => folder is None,
            },
        },
{
    user_dir_exec(contents, "XDG_DESKTOP_DIR=", false, home)
}

} // verus!
