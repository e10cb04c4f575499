//! Character-level helpers shared by the parsers: Unicode whitespace
//! trimming, ASCII case folding, substring search and prefix matching, all
//! stated over the character sequences of the strings involved.

use vstd::prelude::*;

verus! {

broadcast use vstd::string::group_string_axioms;

/// Rust's `char::is_whitespace`: the Unicode `White_Space` property.
pub open spec fn is_space(c: char) -> bool {
    let u = c as u32;
    ||| 0x09 <= u <= 0x0d
    ||| u == 0x20
    ||| u == 0x85
    ||| u == 0xa0
    ||| u == 0x1680
    ||| 0x2000 <= u <= 0x200a
    ||| u == 0x2028
    ||| u == 0x2029
    ||| u == 0x202f
    ||| u == 0x205f
    ||| u == 0x3000
}

/// `s` without its leading whitespace (`str::trim_start`).
pub open spec fn trim_start(s: Seq<char>) -> Seq<char>
    decreases s.len(),
{
    if s.len() > 0 && is_space(s[0]) {
        trim_start(s.drop_first())
    } else {
        s
    }
}

/// `s` without its trailing whitespace (`str::trim_end`).
pub open spec fn trim_end(s: Seq<char>) -> Seq<char>
    decreases s.len(),
{
    if s.len() > 0 && is_space(s.last()) {
        trim_end(s.drop_last())
    } else {
        s
    }
}

/// `s` without leading and trailing whitespace (`str::trim`).
pub open spec fn trim(s: Seq<char>) -> Seq<char> {
    trim_end(trim_start(s))
}

/// ASCII lower-casing of one character (`char::to_ascii_lowercase`).
pub open spec fn lower_char(c: char) -> char {
    if 'A' <= c <= 'Z' {
        ((c as u32) + 32) as char
    } else {
        c
    }
}

/// ASCII upper-casing of one character (`char::to_ascii_uppercase`).
pub open spec fn upper_char(c: char) -> char {
    if 'a' <= c <= 'z' {
        ((c as u32) - 32) as char
    } else {
        c
    }
}

/// ASCII lower-casing of a string (`str::to_ascii_lowercase`).
pub open spec fn lower(s: Seq<char>) -> Seq<char> {
    s.map_values(|c: char| lower_char(c))
}

/// `needle` occurs in `haystack` starting at `at`.
pub open spec fn occurs_at(haystack: Seq<char>, needle: Seq<char>, at: int) -> bool {
    0 <= at && at + needle.len() <= haystack.len() && haystack.subrange(at, at + needle.len())
        == needle
}

/// `needle` occurs somewhere in `haystack` (`str::contains`).
pub open spec fn contains_text(haystack: Seq<char>, needle: Seq<char>) -> bool {
    exists|at: int| occurs_at(haystack, needle, at)
}

/// ASCII upper-casing of a string (`str::to_ascii_uppercase`).
pub open spec fn upper(s: Seq<char>) -> Seq<char> {
    s.map_values(|c: char| upper_char(c))
}

/// Lower-casing an upper-cased string gives the lower-cased string.
pub proof fn lemma_lower_of_upper(s: Seq<char>)
    ensures
        lower(upper(s)) == lower(s),
{
    assert forall|i: int| 0 <= i < s.len() implies lower(upper(s))[i] == lower(s)[i] by {
        let c = s[i];
        if 'a' <= c <= 'z' {
            assert(((c as u32) - 32) as char as u32 == (c as u32) - 32);
        }
    }
    assert(lower(upper(s)) =~= lower(s));
}

/// Occurrence is transitive: a text inside a text inside `a` is inside `a`.
pub proof fn lemma_contains_transitive(a: Seq<char>, b: Seq<char>, c: Seq<char>)
    requires
        contains_text(a, b),
        contains_text(b, c),
    ensures
        contains_text(a, c),
{
    let i = choose|i: int| occurs_at(a, b, i);
    let j = choose|j: int| occurs_at(b, c, j);
    assert forall|k: int| 0 <= k < c.len() implies a.subrange(i + j, i + j + c.len())[k] == c[k] by {
        assert(b.subrange(j, j + c.len())[k] == c[k]);
        assert(a.subrange(i, i + b.len())[j + k] == b[j + k]);
    }
    assert(a.subrange(i + j, i + j + c.len()) =~= c);
    assert(occurs_at(a, c, i + j));
}

/// Every text contains itself.
pub proof fn lemma_contains_itself(a: Seq<char>)
    ensures
        contains_text(a, a),
{
    assert(a.subrange(0, a.len() as int) =~= a);
    assert(occurs_at(a, a, 0));
}

/// `s` begins with `prefix` (`str::starts_with`).
pub open spec fn starts_with(s: Seq<char>, prefix: Seq<char>) -> bool {
    prefix.len() <= s.len() && s.subrange(0, prefix.len() as int) == prefix
}

/// `s` ends with `suffix` (`str::ends_with`).
pub open spec fn ends_with(s: Seq<char>, suffix: Seq<char>) -> bool {
    suffix.len() <= s.len() && s.subrange(s.len() - suffix.len(), s.len() as int) == suffix
}

/// Calls `String::push`, which appends the character `c`.
#[verifier::external_body]
fn push_char(text: &mut String, c: char)
    ensures
        final(text)@ == old(text)@.push(c),
{
    text.push(c)
}

/// The string made of `chars`, in order.
pub(crate) fn string_from(chars: &[char]) -> (text: String)
    ensures
        text@ == chars@,
{
    let mut text = String::new();
    let mut i: usize = 0;
    while i < chars.len()
        invariant
            0 <= i <= chars@.len(),
            text@ == chars@.take(i as int),
        decreases chars@.len() - i,
    {
        push_char(&mut text, chars[i]);
        assert(chars@.take(i + 1) =~= chars@.take(i as int).push(chars@[i as int]));
        i = i + 1;
    }
    assert(chars@.take(i as int) =~= chars@);
    text
}

/// The views of a list of strings.
pub open spec fn string_views(strings: Seq<String>) -> Seq<Seq<char>> {
    strings.map_values(|s: String| s@)
}

/// The characters of `text`, in order.
pub fn chars_of(text: &str) -> (chars: Vec<char>)
    ensures
        chars@ == text@,
{
    let mut chars: Vec<char> = Vec::new();
    for c in it: text.chars()
        invariant
            chars@ == it.seq().take(it.index() as int),
    {
        chars.push(c);
    }
    chars
}

/// Whether `c` is Unicode whitespace.
pub fn is_space_char(c: char) -> (space: bool)
    ensures
        space == is_space(c),
{
    let u = c as u32;
    (0x09 <= u && u <= 0x0d) || u == 0x20 || u == 0x85 || u == 0xa0 || u == 0x1680 || (0x2000
        <= u && u <= 0x200a) || u == 0x2028 || u == 0x2029 || u == 0x202f || u == 0x205f || u
        == 0x3000
}

/// ASCII lower-casing of one character.
pub fn lower_char_exec(c: char) -> (lowered: char)
    ensures
        lowered == lower_char(c),
{
    if 'A' <= c && c <= 'Z' {
        let code: u8 = c as u8;
        (code + 32) as char
    } else {
        c
    }
}

/// ASCII upper-casing of one character.
pub fn upper_char_exec(c: char) -> (raised: char)
    ensures
        raised == upper_char(c),
{
    if 'a' <= c && c <= 'z' {
        let code: u8 = c as u8;
        (code - 32) as char
    } else {
        c
    }
}


/// ASCII lower-casing of a character sequence.
pub fn lower_chars(chars: &[char]) -> (lowered: Vec<char>)
    ensures
        lowered@ == lower(chars@),
{
    let mut lowered: Vec<char> = Vec::new();
    let mut i: usize = 0;
    while i < chars.len()
        invariant
            0 <= i <= chars@.len(),
            lowered@ == lower(chars@.take(i as int)),
        decreases chars@.len() - i,
    {
        lowered.push(lower_char_exec(chars[i]));
        assert(lower(chars@.take(i + 1)) == lower(chars@.take(i as int)).push(lower_char(chars@[i as int])));
        i = i + 1;
    }
    assert(chars@.take(chars@.len() as int) == chars@);
    lowered
}

/// Whether `needle` occurs in `haystack` at position `at`.
pub fn occurs_at_exec(haystack: &[char], needle: &[char], at: usize) -> (found: bool)
    ensures
        found == occurs_at(haystack@, needle@, at as int),
{
    if at > haystack.len() || needle.len() > haystack.len() - at {
        return false;
    }
    let hl = haystack.len();
    let mut k: usize = 0;
    while k < needle.len()
        invariant
            0 <= k <= needle@.len(),
            hl == haystack@.len(),
            at + needle@.len() <= haystack@.len(),
            forall|m: int| 0 <= m < k ==> haystack@[at + m] == needle@[m],
        decreases needle@.len() - k,
    {
        assert(at + k < haystack@.len());
        if haystack[at + k] != needle[k] {
            assert(haystack@.subrange(at as int, at + needle@.len())[k as int] != needle@[k as int]);
            return false;
        }
        k = k + 1;
    }
    assert(haystack@.subrange(at as int, at + needle@.len()) =~= needle@);
    true
}

/// Whether `needle` occurs anywhere in `haystack`.
pub fn contains_chars(haystack: &[char], needle: &[char]) -> (found: bool)
    ensures
        found == contains_text(haystack@, needle@),
{
    if needle.len() > haystack.len() {
        return false;
    }
    let last = haystack.len() - needle.len();
    let mut at: usize = 0;
    loop
        invariant
            at <= last,
            last + needle@.len() == haystack@.len(),
            forall|m: int| 0 <= m < at ==> !occurs_at(haystack@, needle@, m),
        ensures
            forall|m: int| 0 <= m <= last ==> !occurs_at(haystack@, needle@, m),
        decreases last - at,
    {
        if occurs_at_exec(haystack, needle, at) {
            return true;
        }
        if at == last {
            break;
        }
        at = at + 1;
    }
    assert forall|m: int| !occurs_at(haystack@, needle@, m) by {
        if 0 <= m <= last {
        }
    }
    false
}

/// Whether `chars` begins with `prefix`.
pub fn starts_with_chars(chars: &[char], prefix: &[char]) -> (found: bool)
    ensures
        found == starts_with(chars@, prefix@),
{
    let found = occurs_at_exec(chars, prefix, 0);
    assert(found == starts_with(chars@, prefix@));
    found
}

/// Whether `chars` ends with `suffix`.
pub fn ends_with_chars(chars: &[char], suffix: &[char]) -> (found: bool)
    ensures
        found == ends_with(chars@, suffix@),
{
    if suffix.len() > chars.len() {
        return false;
    }
    occurs_at_exec(chars, suffix, chars.len() - suffix.len())
}

proof fn lemma_trim_start_skip(s: Seq<char>, i: int)
    requires
        0 <= i < s.len(),
        is_space(s[i]),
    ensures
        trim_start(s.subrange(i, s.len() as int)) == trim_start(s.subrange(i + 1, s.len() as int)),
{
    assert(s.subrange(i, s.len() as int).drop_first() =~= s.subrange(i + 1, s.len() as int));
}

proof fn lemma_trim_end_skip(s: Seq<char>, j: int)
    requires
        0 < j <= s.len(),
        is_space(s[j - 1]),
    ensures
        trim_end(s.subrange(0, j)) == trim_end(s.subrange(0, j - 1)),
{
    assert(s.subrange(0, j).drop_last() =~= s.subrange(0, j - 1));
}

/// The bounds of `chars` once leading and trailing whitespace is removed.
pub fn trim_bounds(chars: &[char]) -> (bounds: (usize, usize))
    ensures
        bounds.0 <= bounds.1 <= chars@.len(),
        chars@.subrange(bounds.0 as int, bounds.1 as int) == trim(chars@),
{
    let n = chars.len();
    let mut start: usize = 0;
    assert(chars@.subrange(0, n as int) =~= chars@);
    while start < n && is_space_char(chars[start])
        invariant
            0 <= start <= n,
            n == chars@.len(),
            trim_start(chars@) == trim_start(chars@.subrange(start as int, n as int)),
        decreases n - start,
    {
        proof {
            lemma_trim_start_skip(chars@, start as int);
        }
        start = start + 1;
    }
    assert(chars@.subrange(0, n as int) =~= chars@);
    let ghost rest = chars@.subrange(start as int, n as int);
    assert(trim_start(chars@) == rest);
    let mut end: usize = n;
    assert(rest.subrange(0, rest.len() as int) =~= rest);
    while end > start && is_space_char(chars[end - 1])
        invariant
            start <= end <= n,
            n == chars@.len(),
            rest == chars@.subrange(start as int, n as int),
            trim_end(rest) == trim_end(rest.subrange(0, end - start)),
        decreases end - start,
    {
        proof {
            lemma_trim_end_skip(rest, end - start);
        }
        end = end - 1;
    }
    assert(rest.subrange(0, end - start) =~= chars@.subrange(start as int, end as int));
    assert(rest.subrange(0, rest.len() as int) =~= rest);
    (start, end)
}

/// `text` without leading and trailing whitespace.
pub fn trimmed(text: &str) -> (result: Vec<char>)
    ensures
        result@ == trim(text@),
{
    let chars = chars_of(text);
    let (start, end) = trim_bounds(&chars);
    slice_chars(&chars, start, end)
}

/// The characters of `chars` in `start..end`.
pub fn slice_chars(chars: &[char], start: usize, end: usize) -> (part: Vec<char>)
    requires
        start <= end <= chars@.len(),
    ensures
        part@ == chars@.subrange(start as int, end as int),
{
    let mut part: Vec<char> = Vec::new();
    let mut i = start;
    while i < end
        invariant
            start <= i <= end <= chars@.len(),
            part@ == chars@.subrange(start as int, i as int),
        decreases end - i,
    {
        part.push(chars[i]);
        assert(chars@.subrange(start as int, i + 1) =~= chars@.subrange(start as int, i as int).push(chars@[i as int]));
        i = i + 1;
    }
    part
}


/// `s` split at every `sep` (`str::split` with a character pattern): the
/// pieces between separators, always at least one.
pub open spec fn split_on(s: Seq<char>, sep: char) -> Seq<Seq<char>>
    decreases s.len(),
{
    if s.len() == 0 {
        seq![Seq::<char>::empty()]
    } else {
        let parts = split_on(s.drop_last(), sep);
        if s.last() == sep {
            parts.push(Seq::<char>::empty())
        } else {
            parts.update(parts.len() - 1, parts.last().push(s.last()))
        }
    }
}

pub proof fn lemma_split_on_nonempty(s: Seq<char>, sep: char)
    ensures
        split_on(s, sep).len() >= 1,
    decreases s.len(),
{
    if s.len() > 0 {
        lemma_split_on_nonempty(s.drop_last(), sep);
    }
}

/// Splitting text that joins `a` and `b` with a separator gives the pieces
/// of `a`, then those of `b`.
pub proof fn lemma_split_on_joined(a: Seq<char>, b: Seq<char>, sep: char)
    ensures
        split_on(a + seq![sep] + b, sep) == split_on(a, sep) + split_on(b, sep),
    decreases b.len(),
{
    let whole = a + seq![sep] + b;
    if b.len() == 0 {
        assert(whole.drop_last() =~= a);
        assert(split_on(a, sep).push(Seq::<char>::empty()) =~= split_on(a, sep) + split_on(b, sep));
    } else {
        lemma_split_on_joined(a, b.drop_last(), sep);
        lemma_split_on_nonempty(b.drop_last(), sep);
        assert(whole.drop_last() =~= a + seq![sep] + b.drop_last());
        assert(whole.last() == b.last());
        let front = split_on(a, sep);
        let back = split_on(b.drop_last(), sep);
        if b.last() == sep {
            assert((front + back).push(Seq::<char>::empty()) =~= front + back.push(Seq::<char>::empty()));
        } else {
            assert((front + back).update((front + back).len() - 1, (front + back).last().push(b.last()))
                =~= front + back.update(back.len() - 1, back.last().push(b.last())));
        }
    }
}

/// Text with no separator in it is a single piece.
pub proof fn lemma_split_on_single(s: Seq<char>, sep: char)
    requires
        !s.contains(sep),
    ensures
        split_on(s, sep) == seq![s],
    decreases s.len(),
{
    if s.len() > 0 {
        assert(!s.drop_last().contains(sep)) by {
            if s.drop_last().contains(sep) {
                let i = choose|i: int| 0 <= i < s.drop_last().len() && s.drop_last()[i] == sep;
                assert(s[i] == sep);
            }
        }
        lemma_split_on_single(s.drop_last(), sep);
        assert(s[s.len() - 1] == s.last());
        assert(s.drop_last().push(s.last()) =~= s);
        assert(seq![s.drop_last()].update(0, s.drop_last().push(s.last())) =~= seq![s]);
    } else {
        assert(s =~= Seq::<char>::empty());
    }
}

/// The views of a list of character vectors.
pub open spec fn char_vec_views(parts: Seq<Vec<char>>) -> Seq<Seq<char>> {
    parts.map_values(|v: Vec<char>| v@)
}

/// Splits `chars` at every `sep`.
pub fn split_chars(chars: &[char], sep: char) -> (parts: Vec<Vec<char>>)
    ensures
        char_vec_views(parts@) == split_on(chars@, sep),
        parts@.len() >= 1,
{
    let mut parts: Vec<Vec<char>> = Vec::new();
    let mut current: Vec<char> = Vec::new();
    let mut i: usize = 0;
    assert(chars@.take(0) =~= Seq::<char>::empty());
    assert(char_vec_views(parts@).push(current@) =~= seq![Seq::<char>::empty()]);
    while i < chars.len()
        invariant
            0 <= i <= chars@.len(),
            char_vec_views(parts@).push(current@) == split_on(chars@.take(i as int), sep),
        decreases chars@.len() - i,
    {
        let c = chars[i];
        assert(chars@.take(i + 1).drop_last() == chars@.take(i as int));
        proof {
            lemma_split_on_nonempty(chars@.take(i as int), sep);
        }
        if c == sep {
            let done = current;
            parts.push(done);
            current = Vec::new();
            assert(char_vec_views(parts@).push(current@) =~= split_on(chars@.take(i as int), sep).push(Seq::<char>::empty()));
        } else {
            let ghost before = current@;
            current.push(c);
            assert(char_vec_views(parts@).push(current@) =~= split_on(chars@.take(i as int), sep).update(
                char_vec_views(parts@).len() as int, before.push(c)));
        }
        i = i + 1;
    }
    assert(chars@.take(chars@.len() as int) == chars@);
    parts.push(current);
    assert(char_vec_views(parts@) =~= split_on(chars@, sep));
    parts
}

/// The position of the first `c` in `s`.
pub open spec fn first_index_of(s: Seq<char>, c: char) -> Option<int>
    decreases s.len(),
{
    if s.len() == 0 {
        None
    } else if s[0] == c {
        Some(0)
    } else {
        match first_index_of(s.drop_first(), c) {
            Some(i) => Some(i + 1),
            None => None,
        }
    }
}

pub proof fn lemma_first_index_of(s: Seq<char>, c: char)
    ensures
        match first_index_of(s, c) {
            Some(i) => 0 <= i < s.len() && s[i] == c && forall|k: int| 0 <= k < i ==> s[k] != c,
            None => forall|k: int| 0 <= k < s.len() ==> s[k] != c,
        },
    decreases s.len(),
{
    if s.len() > 0 {
        lemma_first_index_of(s.drop_first(), c);
        if s[0] != c {
            match first_index_of(s.drop_first(), c) {
                Some(i) => {
                    assert forall|k: int| 0 <= k < i + 1 implies s[k] != c by {
                        if k > 0 {
                            assert(s[k] == s.drop_first()[k - 1]);
                        }
                    }
                },
                None => {
                    assert forall|k: int| 0 <= k < s.len() implies s[k] != c by {
                        if k > 0 {
                            assert(s[k] == s.drop_first()[k - 1]);
                        }
                    }
                },
            }
        }
    }
}

pub proof fn lemma_first_index_of_unique(s: Seq<char>, c: char, i: int)
    requires
        0 <= i < s.len(),
        s[i] == c,
        forall|k: int| 0 <= k < i ==> s[k] != c,
    ensures
        first_index_of(s, c) == Some(i),
{
    lemma_first_index_of(s, c);
    match first_index_of(s, c) {
        Some(j) => {
            if j < i {
            } else if j > i {
            }
        },
        None => {},
    }
}

/// The position of the first `c` in `chars`.
pub fn find_char(chars: &[char], c: char) -> (position: Option<usize>)
    ensures
        match position {
            Some(p) => p < chars@.len() && first_index_of(chars@, c) == Some(p as int),
            None => first_index_of(chars@, c) is None,
        },
{
    let mut i: usize = 0;
    while i < chars.len()
        invariant
            0 <= i <= chars@.len(),
            forall|k: int| 0 <= k < i ==> chars@[k] != c,
        decreases chars@.len() - i,
    {
        if chars[i] == c {
            proof {
                lemma_first_index_of_unique(chars@, c, i as int);
            }
            return Some(i);
        }
        i = i + 1;
    }
    proof {
        lemma_first_index_of(chars@, c);
        if first_index_of(chars@, c) is Some {
            let j = first_index_of(chars@, c)->0;
            assert(chars@[j] == c);
        }
    }
    None
}

/// Whether two character sequences are equal.
pub fn chars_eq(a: &[char], b: &[char]) -> (same: bool)
    ensures
        same == (a@ == b@),
{
    if a.len() != b.len() {
        return false;
    }
    let mut i: usize = 0;
    while i < a.len()
        invariant
            0 <= i <= a@.len(),
            a@.len() == b@.len(),
            forall|k: int| 0 <= k < i ==> a@[k] == b@[k],
        decreases a@.len() - i,
    {
        if a[i] != b[i] {
            assert(a@[i as int] != b@[i as int]);
            return false;
        }
        i = i + 1;
    }
    assert(a@ =~= b@);
    true
}

/// Whether `chars` spells exactly `text`.
pub fn chars_are(chars: &[char], text: &str) -> (same: bool)
    ensures
        same == (chars@ == text@),
{
    let expected = chars_of(text);
    chars_eq(chars, &expected)
}

/// The characters of `chars` with surrounding whitespace removed.
pub fn trim_chars(chars: &[char]) -> (result: Vec<char>)
    ensures
        result@ == trim(chars@),
{
    let (start, end) = trim_bounds(chars);
    slice_chars(chars, start, end)
}

} // verus!
