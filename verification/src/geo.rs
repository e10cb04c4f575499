//! The country and region catalog behind the profile's location pickers:
//! case-insensitive search and code lookups.

use vstd::prelude::*;

use crate::text::{
    chars_of, contains_chars, contains_text, lemma_contains_itself, lemma_contains_transitive, lemma_lower_of_upper,
    lower, lower_chars, upper,
};

verus! {

/// A country: its ISO code and display name.
#[derive(Debug, Clone)]
pub struct GeoEntry {
    pub code: String,
    pub name: String,
}

/// A first-level region of a country.
#[derive(Debug, Clone)]
pub struct RegionEntry {
    pub code: String,
    pub country: String,
    pub name: String,
}

/// The whole catalog, in its published order.
#[derive(Debug, Clone)]
pub struct GeoCatalog {
    pub countries: Vec<GeoEntry>,
    pub regions: Vec<RegionEntry>,
}

/// An entry matches a search query when the query is empty or occurs in its
/// name or code, ignoring ASCII case.
pub open spec fn matches_query(name: Seq<char>, code: Seq<char>, query: Seq<char>) -> bool {
    ||| query.len() == 0
    ||| contains_text(lower(name), lower(query))
    ||| contains_text(lower(code), lower(query))
}

/// The countries of `entries` that match `query`, in catalog order.
pub open spec fn matching_countries(entries: Seq<GeoEntry>, query: Seq<char>) -> Seq<GeoEntry>
    decreases entries.len(),
{
    if entries.len() == 0 {
        Seq::empty()
    } else {
        let rest = matching_countries(entries.drop_last(), query);
        let last = entries.last();
        if matches_query(last.name@, last.code@, query) {
            rest.push(last)
        } else {
            rest
        }
    }
}

/// The regions of `entries` in `country` that match `query`, in catalog order.
pub open spec fn matching_regions(entries: Seq<RegionEntry>, country: Seq<char>, query: Seq<char>) -> Seq<RegionEntry>
    decreases entries.len(),
{
    if entries.len() == 0 {
        Seq::empty()
    } else {
        let rest = matching_regions(entries.drop_last(), country, query);
        let last = entries.last();
        if last.country@ == country && matches_query(last.name@, last.code@, query) {
            rest.push(last)
        } else {
            rest
        }
    }
}

/// The first country in `entries` whose code is `code`.
pub open spec fn first_country_with_code(entries: Seq<GeoEntry>, code: Seq<char>) -> Option<GeoEntry>
    decreases entries.len(),
{
    if entries.len() == 0 {
        None
    } else if entries[0].code@ == code {
        Some(entries[0])
    } else {
        first_country_with_code(entries.drop_first(), code)
    }
}

/// The first region in `entries` whose code is `code`.
pub open spec fn first_region_with_code(entries: Seq<RegionEntry>, code: Seq<char>) -> Option<RegionEntry>
    decreases entries.len(),
{
    if entries.len() == 0 {
        None
    } else if entries[0].code@ == code {
        Some(entries[0])
    } else {
        first_region_with_code(entries.drop_first(), code)
    }
}

/// An empty search lists every country, in catalog order.
pub proof fn empty_search_lists_every_country(entries: Seq<GeoEntry>)
    ensures
        matching_countries(entries, Seq::empty()) == entries,
    decreases entries.len(),
{
    if entries.len() > 0 {
        empty_search_lists_every_country(entries.drop_last());
        assert(entries.drop_last().push(entries.last()) =~= entries);
    }
}

/// An empty search lists exactly the regions of the chosen country, in
/// catalog order.
pub proof fn empty_search_lists_the_country_regions(entries: Seq<RegionEntry>, country: Seq<char>)
    ensures
        matching_regions(entries, country, Seq::empty()) == entries.filter(|entry: RegionEntry| entry.country@ == country),
    decreases entries.len(),
{
    reveal(Seq::filter);
    if entries.len() > 0 {
        empty_search_lists_the_country_regions(entries.drop_last(), country);
    }
}

/// Searching ignores the ASCII case of the query: two queries that agree
/// once lower-cased find the same countries and the same regions.
pub proof fn search_ignores_query_case(
    countries: Seq<GeoEntry>,
    regions: Seq<RegionEntry>,
    country: Seq<char>,
    query: Seq<char>,
    other: Seq<char>,
)
    requires
        lower(query) == lower(other),
    ensures
        matching_countries(countries, query) == matching_countries(countries, other),
        matching_regions(regions, country, query) == matching_regions(regions, country, other),
    decreases countries.len() + regions.len(),
{
    assert(query.len() == lower(query).len() && other.len() == lower(other).len());
    if countries.len() > 0 {
        search_ignores_query_case(countries.drop_last(), regions, country, query, other);
    }
    if regions.len() > 0 {
        search_ignores_query_case(countries, regions.drop_last(), country, query, other);
    }
}

/// Searching with the upper-cased query finds the same countries and
/// regions: the search ignores ASCII case.
pub proof fn upper_case_query_finds_the_same(
    countries: Seq<GeoEntry>,
    regions: Seq<RegionEntry>,
    country: Seq<char>,
    query: Seq<char>,
)
    ensures
        matching_countries(countries, upper(query)) == matching_countries(countries, query),
        matching_regions(regions, country, upper(query)) == matching_regions(regions, country, query),
{
    lemma_lower_of_upper(query);
    search_ignores_query_case(countries, regions, country, upper(query), query);
}

proof fn lemma_match_narrows(name: Seq<char>, code: Seq<char>, shorter: Seq<char>, longer: Seq<char>)
    requires
        contains_text(lower(longer), lower(shorter)),
        matches_query(name, code, longer),
    ensures
        matches_query(name, code, shorter),
{
    if longer.len() == 0 {
        let at = choose|at: int| crate::text::occurs_at(lower(longer), lower(shorter), at);
        assert(lower(shorter).len() == 0);
        assert(shorter.len() == 0);
    } else if shorter.len() > 0 {
        if contains_text(lower(name), lower(longer)) {
            lemma_contains_transitive(lower(name), lower(longer), lower(shorter));
        } else {
            lemma_contains_transitive(lower(code), lower(longer), lower(shorter));
        }
    }
}

/// A longer query narrows the search: when the longer query contains the
/// shorter one (ignoring ASCII case), its results are exactly the entries
/// among the shorter query's results that it matches, in the same order,
/// so they form a subsequence of them.
pub proof fn longer_query_narrows_the_search(
    countries: Seq<GeoEntry>,
    regions: Seq<RegionEntry>,
    country: Seq<char>,
    shorter: Seq<char>,
    longer: Seq<char>,
)
    requires
        contains_text(lower(longer), lower(shorter)),
    ensures
        matching_countries(countries, longer) == matching_countries(matching_countries(countries, shorter), longer),
        matching_regions(regions, country, longer) == matching_regions(
            matching_regions(regions, country, shorter),
            country,
            longer,
        ),
    decreases countries.len() + regions.len(),
{
    if countries.len() > 0 {
        longer_query_narrows_the_search(countries.drop_last(), regions, country, shorter, longer);
        let last = countries.last();
        let narrowed = matching_countries(countries.drop_last(), shorter);
        if matches_query(last.name@, last.code@, longer) {
            lemma_match_narrows(last.name@, last.code@, shorter, longer);
        }
        if matches_query(last.name@, last.code@, shorter) {
            assert(narrowed.push(last).drop_last() =~= narrowed);
        }
    }
    if regions.len() > 0 {
        longer_query_narrows_the_search(countries, regions.drop_last(), country, shorter, longer);
        let last = regions.last();
        let narrowed = matching_regions(regions.drop_last(), country, shorter);
        if matches_query(last.name@, last.code@, longer) {
            lemma_match_narrows(last.name@, last.code@, shorter, longer);
        }
        if last.country@ == country && matches_query(last.name@, last.code@, shorter) {
            assert(narrowed.push(last).drop_last() =~= narrowed);
        }
    }
}

proof fn lemma_matching_keeps(entries: Seq<GeoEntry>, query: Seq<char>, k: int)
    requires
        0 <= k < entries.len(),
        matches_query(entries[k].name@, entries[k].code@, query),
    ensures
        exists|m: int| 0 <= m < matching_countries(entries, query).len() && matching_countries(entries, query)[m] == entries[k],
    decreases entries.len(),
{
    let found = matching_countries(entries, query);
    if k == entries.len() - 1 {
        assert(found[found.len() - 1] == entries[k]);
    } else {
        assert(entries.drop_last()[k] == entries[k]);
        lemma_matching_keeps(entries.drop_last(), query, k);
        let rest = matching_countries(entries.drop_last(), query);
        let m = choose|m: int| 0 <= m < rest.len() && rest[m] == entries[k];
        assert(found[m] == entries[k]);
    }
}

proof fn lemma_first_country(entries: Seq<GeoEntry>, code: Seq<char>)
    ensures
        (first_country_with_code(entries, code) is Some) == exists|k: int| 0 <= k < entries.len() && (#[trigger] entries[k]).code@ == code,
        match first_country_with_code(entries, code) {
            Some(e) => exists|k: int| 0 <= k < entries.len() && entries[k] == e && e.code@ == code
                && forall|j: int| 0 <= j < k ==> (#[trigger] entries[j]).code@ != code,
            None => true,
        },
    decreases entries.len(),
{
    if entries.len() > 0 {
        lemma_first_country(entries.drop_first(), code);
        let rest = entries.drop_first();
        if entries[0].code@ != code {
            if exists|k: int| 0 <= k < entries.len() && (#[trigger] entries[k]).code@ == code {
                let k = choose|k: int| 0 <= k < entries.len() && (#[trigger] entries[k]).code@ == code;
                assert(rest[k - 1] == entries[k]);
            }
            if exists|k: int| 0 <= k < rest.len() && (#[trigger] rest[k]).code@ == code {
                let k = choose|k: int| 0 <= k < rest.len() && (#[trigger] rest[k]).code@ == code;
                assert(entries[k + 1] == rest[k]);
            }
            match first_country_with_code(rest, code) {
                Some(e) => {
                    let k = choose|k: int| 0 <= k < rest.len() && rest[k] == e && e.code@ == code
                        && forall|j: int| 0 <= j < k ==> (#[trigger] rest[j]).code@ != code;
                    assert(entries[k + 1] == e);
                    assert forall|j: int| 0 <= j < k + 1 implies (#[trigger] entries[j]).code@ != code by {
                        if j > 0 {
                            assert(entries[j] == rest[j - 1]);
                        }
                    }
                },
                None => {},
            }
        } else {
            assert(entries[0].code@ == code);
        }
    }
}

proof fn lemma_first_region(entries: Seq<RegionEntry>, code: Seq<char>)
    ensures
        (first_region_with_code(entries, code) is Some) == exists|k: int| 0 <= k < entries.len() && (#[trigger] entries[k]).code@ == code,
        match first_region_with_code(entries, code) {
            Some(e) => exists|k: int| 0 <= k < entries.len() && entries[k] == e && e.code@ == code
                && forall|j: int| 0 <= j < k ==> (#[trigger] entries[j]).code@ != code,
            None => true,
        },
    decreases entries.len(),
{
    if entries.len() > 0 {
        lemma_first_region(entries.drop_first(), code);
        let rest = entries.drop_first();
        if entries[0].code@ != code {
            if exists|k: int| 0 <= k < entries.len() && (#[trigger] entries[k]).code@ == code {
                let k = choose|k: int| 0 <= k < entries.len() && (#[trigger] entries[k]).code@ == code;
                assert(rest[k - 1] == entries[k]);
            }
            if exists|k: int| 0 <= k < rest.len() && (#[trigger] rest[k]).code@ == code {
                let k = choose|k: int| 0 <= k < rest.len() && (#[trigger] rest[k]).code@ == code;
                assert(entries[k + 1] == rest[k]);
            }
            match first_region_with_code(rest, code) {
                Some(e) => {
                    let k = choose|k: int| 0 <= k < rest.len() && rest[k] == e && e.code@ == code
                        && forall|j: int| 0 <= j < k ==> (#[trigger] rest[j]).code@ != code;
                    assert(entries[k + 1] == e);
                    assert forall|j: int| 0 <= j < k + 1 implies (#[trigger] entries[j]).code@ != code by {
                        if j > 0 {
                            assert(entries[j] == rest[j - 1]);
                        }
                    }
                },
                None => {},
            }
        } else {
            assert(entries[0].code@ == code);
        }
    }
}

/// Codes are looked up exactly, ignoring nothing: a country code is known
/// (and has a name) exactly when some catalog entry has that very code; the
/// name given is that of the first such entry; and searching for a known
/// code lists an entry with that code. The same holds of region codes.
pub proof fn codes_are_looked_up_exactly(countries: Seq<GeoEntry>, regions: Seq<RegionEntry>, code: Seq<char>)
    ensures
        (first_country_with_code(countries, code) is Some) == exists|k: int| 0 <= k < countries.len() && (#[trigger] countries[k]).code@ == code,
        match first_country_with_code(countries, code) {
            Some(e) => exists|k: int| 0 <= k < countries.len() && countries[k] == e && e.code@ == code
                && forall|j: int| 0 <= j < k ==> (#[trigger] countries[j]).code@ != code,
            None => true,
        },
        (first_country_with_code(countries, code) is Some) ==> exists|m: int|
            0 <= m < matching_countries(countries, code).len() && (#[trigger] matching_countries(countries, code)[m]).code@ == code,
        (first_region_with_code(regions, code) is Some) == exists|k: int| 0 <= k < regions.len() && (#[trigger] regions[k]).code@ == code,
        match first_region_with_code(regions, code) {
            Some(e) => exists|k: int| 0 <= k < regions.len() && regions[k] == e && e.code@ == code
                && forall|j: int| 0 <= j < k ==> (#[trigger] regions[j]).code@ != code,
            None => true,
        },
{
    lemma_first_country(countries, code);
    lemma_first_region(regions, code);
    if first_country_with_code(countries, code) is Some {
        let k = choose|k: int| 0 <= k < countries.len() && (#[trigger] countries[k]).code@ == code;
        lemma_contains_itself(lower(code));
        assert(matches_query(countries[k].name@, countries[k].code@, code));
        lemma_matching_keeps(countries, code, k);
        let m = choose|m: int| 0 <= m < matching_countries(countries, code).len() && matching_countries(countries, code)[m] == countries[k];
        assert(matching_countries(countries, code)[m].code@ == code);
    }
}

fn query_matches(name: &str, code: &str, lowered_query: &[char]) -> (found: bool)
    requires
        lowered_query.len() > 0,
    ensures
        found == (contains_text(lower(name@), lowered_query@) || contains_text(lower(code@), lowered_query@)),
{
    let name_chars = chars_of(name);
    let lowered_name = lower_chars(&name_chars);
    if contains_chars(&lowered_name, lowered_query) {
        return true;
    }
    let code_chars = chars_of(code);
    let lowered_code = lower_chars(&code_chars);
    contains_chars(&lowered_code, lowered_query)
}

/// Countries whose name or code contains `query`, ignoring ASCII case; an
/// empty query lists every country.
pub fn countries<'a>(catalog: &'a GeoCatalog, query: &str) -> (found: Vec<&'a GeoEntry>)
    ensures
        found@.map_values(|entry: &GeoEntry| *entry) == matching_countries(catalog.countries@, query@),
{
    let query_chars = chars_of(query);
    let lowered_query = lower_chars(&query_chars);
    let entries = &catalog.countries;
    let mut found: Vec<&'a GeoEntry> = Vec::new();
    let mut i: usize = 0;
    while i < entries.len()
        invariant
            0 <= i <= entries@.len(),
            entries == &catalog.countries,
            lowered_query@ == lower(query@),
            found@.map_values(|entry: &GeoEntry| *entry) == matching_countries(entries@.take(i as int), query@),
        decreases entries@.len() - i,
    {
        let entry = &entries[i];
        let keep = lowered_query.len() == 0 || query_matches(&entry.name, &entry.code, &lowered_query);
        assert(entries@.take(i + 1).drop_last() == entries@.take(i as int));
        if keep {
            found.push(entry);
        }
        assert(found@.map_values(|entry: &GeoEntry| *entry) == matching_countries(entries@.take(i + 1), query@));
        i = i + 1;
    }
    assert(entries@.take(entries@.len() as int) == entries@);
    found
}

/// Regions of `country` whose name or code contains `query`, ignoring ASCII
/// case; an empty query lists every region of the country.
pub fn regions<'a>(catalog: &'a GeoCatalog, country: &str, query: &str) -> (found: Vec<&'a RegionEntry>)
    ensures
        found@.map_values(|entry: &RegionEntry| *entry) == matching_regions(catalog.regions@, country@, query@),
{
    let query_chars = chars_of(query);
    let lowered_query = lower_chars(&query_chars);
    let entries = &catalog.regions;
    let mut found: Vec<&'a RegionEntry> = Vec::new();
    let mut i: usize = 0;
    while i < entries.len()
        invariant
            0 <= i <= entries@.len(),
            entries == &catalog.regions,
            lowered_query@ == lower(query@),
            found@.map_values(|entry: &RegionEntry| *entry) == matching_regions(entries@.take(i as int), country@, query@),
        decreases entries@.len() - i,
    {
        let entry = &entries[i];
        let keep = text_eq(&entry.country, country) && (lowered_query.len() == 0 || query_matches(&entry.name, &entry.code, &lowered_query));
        assert(entries@.take(i + 1).drop_last() == entries@.take(i as int));
        if keep {
            found.push(entry);
        }
        assert(found@.map_values(|entry: &RegionEntry| *entry) == matching_regions(entries@.take(i + 1), country@, query@));
        i = i + 1;
    }
    assert(entries@.take(entries@.len() as int) == entries@);
    found
}

/// Whether two strings hold the same characters.
pub fn text_eq(a: &str, b: &str) -> (same: bool)
    ensures
        same == (a@ == b@),
{
    let a_chars = chars_of(a);
    let b_chars = chars_of(b);
    if a_chars.len() != b_chars.len() {
        return false;
    }
    let mut i: usize = 0;
    while i < a_chars.len()
        invariant
            0 <= i <= a_chars@.len(),
            a_chars@.len() == b_chars@.len(),
            a_chars@ == a@,
            b_chars@ == b@,
            forall|k: int| 0 <= k < i ==> a_chars@[k] == b_chars@[k],
        decreases a_chars@.len() - i,
    {
        if a_chars[i] != b_chars[i] {
            assert(a@[i as int] != b@[i as int]);
            return false;
        }
        i = i + 1;
    }
    assert(a_chars@ =~= b_chars@);
    true
}

fn country_position(catalog: &GeoCatalog, code: &str) -> (position: Option<usize>)
    ensures
        match position {
            Some(p) => p < catalog.countries@.len() && first_country_with_code(catalog.countries@, code@) == Some(catalog.countries@[p as int]),
            None => first_country_with_code(catalog.countries@, code@) is None,
        },
{
    let entries = &catalog.countries;
    let mut i: usize = 0;
    assert(entries@.skip(0) == entries@);
    while i < entries.len()
        invariant
            0 <= i <= entries@.len(),
            entries == &catalog.countries,
            first_country_with_code(entries@, code@) == first_country_with_code(entries@.skip(i as int), code@),
        decreases entries@.len() - i,
    {
        assert(entries@.skip(i as int).drop_first() == entries@.skip(i + 1));
        if text_eq(&entries[i].code, code) {
            return Some(i);
        }
        i = i + 1;
    }
    None
}

fn region_position(catalog: &GeoCatalog, code: &str) -> (position: Option<usize>)
    ensures
        match position {
            Some(p) => p < catalog.regions@.len() && first_region_with_code(catalog.regions@, code@) == Some(catalog.regions@[p as int]),
            None => first_region_with_code(catalog.regions@, code@) is None,
        },
{
    let entries = &catalog.regions;
    let mut i: usize = 0;
    assert(entries@.skip(0) == entries@);
    while i < entries.len()
        invariant
            0 <= i <= entries@.len(),
            entries == &catalog.regions,
            first_region_with_code(entries@, code@) == first_region_with_code(entries@.skip(i as int), code@),
        decreases entries@.len() - i,
    {
        assert(entries@.skip(i as int).drop_first() == entries@.skip(i + 1));
        if text_eq(&entries[i].code, code) {
            return Some(i);
        }
        i = i + 1;
    }
    None
}

/// Whether some country has exactly the code `code`.
pub fn is_country(catalog: &GeoCatalog, code: &str) -> (known: bool)
    ensures
        known == (first_country_with_code(catalog.countries@, code@) is Some),
{
    country_position(catalog, code).is_some()
}

/// Whether some region has exactly the code `code`.
pub fn is_region(catalog: &GeoCatalog, code: &str) -> (known: bool)
    ensures
        known == (first_region_with_code(catalog.regions@, code@) is Some),
{
    region_position(catalog, code).is_some()
}

/// The name of the first country whose code is `code`.
pub fn country_name<'a>(catalog: &'a GeoCatalog, code: &str) -> (name: Option<&'a str>)
    ensures
        match first_country_with_code(catalog.countries@, code@) {
            Some(entry) => name is Some && name->0@ == entry.name@,
            None => name is None,
        },
{
    match country_position(catalog, code) {
        Some(p) => Some(catalog.countries[p].name.as_str()),
        None => None,
    }
}

/// The name of the first region whose code is `code`.
pub fn region_name<'a>(catalog: &'a GeoCatalog, code: &str) -> (name: Option<&'a str>)
    ensures
        match first_region_with_code(catalog.regions@, code@) {
            Some(entry) => name is Some && name->0@ == entry.name@,
            None => name is None,
        },
{
    match region_position(catalog, code) {
        Some(p) => Some(catalog.regions[p].name.as_str()),
        None => None,
    }
}

} // verus!
