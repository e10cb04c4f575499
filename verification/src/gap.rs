//! The spacing setting of a dock section (`"10px"`, `"30%"`, `"between"`,
//! `"evenly"`), read as far as it can be without numbers: which form the
//! text takes, and the numeric text inside it.

use vstd::prelude::*;

use crate::text::{chars_of, chars_are, ends_with, lower, lower_chars, slice_chars, string_from, trim, trim_chars};

verus! {

/// The form of a section gap setting.
#[derive(Debug, Clone, PartialEq, Eq)]
pub enum GapSpec {
    /// `justify-content: space-between`.
    Between,
    /// `justify-content: space-evenly`.
    Evenly,
    /// A percentage of the section's length; holds the number before `%`.
    Percent(String),
    /// A fixed length; holds the number before `px`.
    Pixels(String),
    /// Anything else, which falls back to a fixed ten pixels.
    Invalid,
}

/// The view of a gap form: its kind (0 between, 1 evenly, 2 percent,
/// 3 pixels, 4 invalid) and its numeric text.
pub open spec fn gap_view(gap: GapSpec) -> (int, Seq<char>) {
    match gap {
        GapSpec::Between => (0, Seq::empty()),
        GapSpec::Evenly => (1, Seq::empty()),
        GapSpec::Percent(number) => (2, number@),
        GapSpec::Pixels(number) => (3, number@),
        GapSpec::Invalid => (4, Seq::empty()),
    }
}

/// How a gap setting reads: after trimming, the keywords `between` and
/// `evenly` in any ASCII case; then text ending in `%` is a percentage of
/// its trimmed remainder; otherwise text ending in `px` is a length of its
/// trimmed remainder; anything else is invalid.
pub open spec fn gap_form(text: Seq<char>) -> (int, Seq<char>) {
    let t = trim(text);
    if lower(t) == "between"@ {
        (0, Seq::empty())
    } else if lower(t) == "evenly"@ {
        (1, Seq::empty())
    } else if ends_with(t, "%"@) {
        (2, trim(t.subrange(0, t.len() - 1)))
    } else if ends_with(t, "px"@) {
        (3, trim(t.subrange(0, t.len() - 2)))
    } else {
        (4, Seq::empty())
    }
}

/// Reads the form of a section's gap setting (see [`gap_form`]).
pub fn parse_gap_spec(gap: &str) -> (spec: GapSpec)
    ensures
        gap_view(spec) == gap_form(gap@),
{
    let chars = chars_of(gap);
    let trimmed = trim_chars(&chars);
    let lowered = lower_chars(&trimmed);
    if chars_are(&lowered, "between") {
        return GapSpec::Between;
    }
    if chars_are(&lowered, "evenly") {
        return GapSpec::Evenly;
    }
    let percent = chars_of("%");
    let pixels = chars_of("px");
    proof {
        reveal_strlit("%");
        reveal_strlit("px");
    }
    if crate::text::ends_with_chars(&trimmed, &percent) {
        let number = slice_chars(&trimmed, 0, trimmed.len() - 1);
        let number = trim_chars(&number);
        return GapSpec::Percent(string_from(&number));
    }
    if crate::text::ends_with_chars(&trimmed, &pixels) {
        let number = slice_chars(&trimmed, 0, trimmed.len() - 2);
        let number = trim_chars(&number);
        return GapSpec::Pixels(string_from(&number));
    }
    GapSpec::Invalid
}

} // verus!
