//! Dock placement, section layout and island ordering.

use vstd::prelude::*;

use crate::toml_types::{empty_table, table_keys};
use vstd::multiset::Multiset;

verus! {

/// The screen edge a dock is anchored to.
#[derive(Debug, Clone, Copy, PartialEq, Eq, Structural)]
pub enum DockPosition {
    Top,
    Bottom,
    Left,
    Right,
}

impl DockPosition {
    /// Whether a dock at this edge runs vertically (left and right edges).
    pub fn is_vertical(self) -> (vertical: bool)
        ensures
            vertical <==> (self == DockPosition::Left || self == DockPosition::Right),
    {
        match self {
            DockPosition::Left | DockPosition::Right => true,
            _ => false,
        }
    }
}


impl Default for DockPosition {
    /// Docks sit along the bottom edge unless configured otherwise.
    fn default() -> (position: DockPosition)
        ensures
            position == DockPosition::Bottom,
    {
        DockPosition::Bottom
    }
}

/// How a dock's sections are laid out.
#[derive(Debug, Clone, Copy, PartialEq, Eq, Structural)]
pub enum DockDirection {
    Row,
    Column,
}

/// Where a dock's section group sits along its main axis when it does not
/// fill the available space.
#[derive(Debug, Clone, Copy, PartialEq, Eq, Structural)]
pub enum DockAlign {
    Start,
    Center,
    End,
}

impl Default for DockAlign {
    /// Section groups start at the leading edge unless configured otherwise.
    fn default() -> (align: DockAlign)
        ensures
            align == DockAlign::Start,
    {
        DockAlign::Start
    }
}

/// The layout direction a dock uses: the configured one, or else a column
/// for a left/right dock and a row for a top/bottom dock.
pub open spec fn spec_effective_direction(direction: Option<DockDirection>, position: DockPosition) -> DockDirection {
    match direction {
        Some(direction) => direction,
        None => if position == DockPosition::Left || position == DockPosition::Right {
            DockDirection::Column
        } else {
            DockDirection::Row
        },
    }
}

/// The layout direction a dock uses (see [`spec_effective_direction`]).
pub fn effective_direction(direction: Option<DockDirection>, position: DockPosition) -> (effective: DockDirection)
    ensures
        effective == spec_effective_direction(direction, position),
{
    match direction {
        Some(direction) => direction,
        None => if position.is_vertical() {
            DockDirection::Column
        } else {
            DockDirection::Row
        },
    }
}

/// How a dock section's islands hug the dock: the first section hugs the
/// leading edge, the last hugs the trailing edge, anything else (or a lone
/// section) centers within its share of the dock.
#[derive(Debug, Clone, Copy, PartialEq, Eq, Structural)]
pub enum SectionJustify {
    Start,
    Center,
    End,
}

/// The justification of a section from its place in the dock.
pub fn section_justify(is_first: bool, is_last: bool) -> (justify: SectionJustify)
    ensures
        justify == (if is_first && !is_last {
            SectionJustify::Start
        } else if is_last && !is_first {
            SectionJustify::End
        } else {
            SectionJustify::Center
        }),
{
    match (is_first, is_last) {
        (true, true) => SectionJustify::Center,
        (true, false) => SectionJustify::Start,
        (false, true) => SectionJustify::End,
        (false, false) => SectionJustify::Center,
    }
}

/// How an aligned section group sits along the dock.
pub fn dock_justify(align: DockAlign) -> (justify: SectionJustify)
    ensures
        justify == match align {
            DockAlign::Start => SectionJustify::Start,
            DockAlign::Center => SectionJustify::Center,
            DockAlign::End => SectionJustify::End,
        },
{
    match align {
        DockAlign::Start => SectionJustify::Start,
        DockAlign::Center => SectionJustify::Center,
        DockAlign::End => SectionJustify::End,
    }
}

/// Which end of its window a dock's content hugs: the screen edge it is
/// anchored to.
pub fn edge_justify(position: DockPosition) -> (justify: SectionJustify)
    ensures
        justify == (if position == DockPosition::Top || position == DockPosition::Left {
            SectionJustify::End
        } else {
            SectionJustify::Start
        }),
{
    match position {
        DockPosition::Top | DockPosition::Left => SectionJustify::End,
        DockPosition::Bottom | DockPosition::Right => SectionJustify::Start,
    }
}

/// One island placed in a section. `index` orders islands explicitly; when it
/// is absent, or when two entries share an index, the entry's position in the
/// section is used as a stable fallback.
#[derive(Debug, Clone)]
pub struct IslandEntry {
    pub id: String,
    pub index: Option<u32>,
    pub config: toml::map::Map<String, toml::Value>,
}

impl Default for IslandEntry {
    /// An entry with an empty id, no explicit index and no inline config.
    fn default() -> (entry: IslandEntry)
        ensures
            entry.id@.len() == 0,
            entry.index is None,
            table_keys(entry.config) == Set::<Seq<char>>::empty(),
    {
        IslandEntry { id: String::new(), index: None, config: empty_table() }
    }
}

impl IslandEntry {
    /// An entry for island `id` with no explicit index and no inline config.
    pub fn with_id(id: &str) -> (entry: IslandEntry)
        ensures
            entry.id@ == id@,
            entry.index is None,
            table_keys(entry.config) == Set::<Seq<char>>::empty(),
    {
        IslandEntry { id: id.to_owned(), index: None, config: empty_table() }
    }
}

/// The index an entry is sorted by: its explicit `index`, or else its
/// position in the section (as the 32-bit value it is compared as).
pub open spec fn effective_index(entry: IslandEntry, position: int) -> int {
    match entry.index {
        Some(index) => index as int,
        None => (position as u32) as int,
    }
}

/// Island `a` renders before island `b`: a smaller effective index, or the
/// same effective index and an earlier position.
pub open spec fn island_before(islands: Seq<IslandEntry>, a: int, b: int) -> bool {
    let ka = effective_index(islands[a], a);
    let kb = effective_index(islands[b], b);
    ka < kb || (ka == kb && a < b)
}

/// `order` lists every position of `islands` exactly once, in render order.
pub open spec fn is_island_order(islands: Seq<IslandEntry>, order: Seq<int>) -> bool {
    &&& order.len() == islands.len()
    &&& forall|k: int| 0 <= k < order.len() ==> 0 <= #[trigger] order[k] < islands.len()
    &&& forall|i: int| 0 <= i < islands.len() ==> #[trigger] order.contains(i)
    &&& forall|k: int, l: int|
        0 <= k < l < order.len() ==> island_before(islands, #[trigger] order[k], #[trigger] order[l])
}

proof fn lemma_orders_agree_below(islands: Seq<IslandEntry>, o1: Seq<int>, o2: Seq<int>, k: int)
    requires
        is_island_order(islands, o1),
        is_island_order(islands, o2),
        0 <= k <= o1.len(),
    ensures
        forall|m: int| 0 <= m < k ==> #[trigger] o1[m] == o2[m],
    decreases k,
{
    if k > 0 {
        lemma_orders_agree_below(islands, o1, o2, k - 1);
        let j = k - 1;
        let a = o1[j];
        let b = o2[j];
        if a != b {
            assert(o2.contains(a));
            let m = choose|m: int| 0 <= m < o2.len() && o2[m] == a;
            assert(o1.contains(b));
            let m2 = choose|m: int| 0 <= m < o1.len() && o1[m] == b;
            if m < j {
                assert(o1[m] == o2[m]);
                assert(island_before(islands, o1[m], o1[j]));
            } else if m2 < j {
                assert(o1[m2] == o2[m2]);
                assert(island_before(islands, o2[m2], o2[j]));
            } else {
                assert(m > j && m2 > j);
                assert(island_before(islands, o2[j], o2[m]));
                assert(island_before(islands, o1[j], o1[m2]));
            }
        }
    }
}

/// The render order is determined by the entries alone: any two orders that
/// list every island once, sorted by effective index with ties broken by
/// position, are the same order.
pub proof fn island_order_is_unique(islands: Seq<IslandEntry>, o1: Seq<int>, o2: Seq<int>)
    requires
        is_island_order(islands, o1),
        is_island_order(islands, o2),
    ensures
        o1 == o2,
{
    lemma_orders_agree_below(islands, o1, o2, o1.len() as int);
    assert(o1 =~= o2);
}

/// Computes the render order of `islands` as positions into it.
fn island_positions(islands: &[IslandEntry]) -> (order: Vec<usize>)
    ensures
        is_island_order(islands@, order@.map_values(|p: usize| p as int)),
{
    let mut order: Vec<usize> = Vec::new();
    let n = islands.len();
    let mut i: usize = 0;
    while i < n
        invariant
            0 <= i <= n,
            n == islands@.len(),
            order@.len() == i,
            forall|k: int| 0 <= k < order@.len() ==> #[trigger] order@[k] < i,
            forall|j: int| 0 <= j < i ==> #[trigger] order@.contains(j as usize),
            forall|k: int, l: int|
                0 <= k < l < order@.len() ==> island_before(
                    islands@,
                    #[trigger] order@[k] as int,
                    #[trigger] order@[l] as int,
                ),
        decreases n - i,
    {
        let key_i: u32 = match islands[i].index {
            Some(index) => index,
            None => #[verifier::truncate] (i as u32),
        };
        // Find the first slot whose island must render after island `i`.
        let mut slot: usize = 0;
        while slot < order.len()
            invariant
                0 <= slot <= order@.len(),
                order@.len() == i,
                i < n,
                n == islands@.len(),
                key_i as int == effective_index(islands@[i as int], i as int),
                forall|k: int| 0 <= k < order@.len() ==> #[trigger] order@[k] < i,
                forall|k: int| 0 <= k < slot ==> island_before(islands@, #[trigger] order@[k] as int, i as int),
            ensures
                0 <= slot <= order@.len(),
                forall|k: int| 0 <= k < slot ==> island_before(islands@, #[trigger] order@[k] as int, i as int),
                slot < order@.len() ==> island_before(islands@, i as int, order@[slot as int] as int),
            decreases order@.len() - slot,
        {
            let p = order[slot];
            let key_p: u32 = match islands[p].index {
                Some(index) => index,
                None => #[verifier::truncate] (p as u32),
            };
            if key_i < key_p {
                break;
            }
            slot = slot + 1;
        }
        proof {
            assert forall|k: int| slot <= k < order@.len() implies island_before(
                islands@,
                i as int,
                #[trigger] order@[k] as int,
            ) by {
                if slot < order@.len() {
                    // the loop stopped at `slot` because island `i` sorts first there
                    assert(island_before(islands@, i as int, order@[slot as int] as int));
                    if k > slot {
                        assert(island_before(islands@, order@[slot as int] as int, order@[k] as int));
                    }
                }
            }
        }
        let ghost before = order@;
        order.insert(slot, i);
        proof {
            assert forall|j: int| 0 <= j < i + 1 implies #[trigger] order@.contains(j as usize) by {
                if j < i {
                    assert(before.contains(j as usize));
                    let w = choose|w: int| 0 <= w < before.len() && before[w] == j as usize;
                    if w < slot {
                        assert(order@[w] == j as usize);
                    } else {
                        assert(order@[w + 1] == j as usize);
                    }
                } else {
                    assert(order@[slot as int] == i);
                }
            }
        }
        i = i + 1;
    }
    let ghost view = order@.map_values(|p: usize| p as int);
    assert forall|j: int| 0 <= j < islands@.len() implies #[trigger] view.contains(j) by {
        assert(order@.contains(j as usize));
        let w = choose|w: int| 0 <= w < order@.len() && order@[w] == j as usize;
        assert(view[w] == j);
    }
    order
}

/// Resolves the render order of `islands`: by explicit `index` where present,
/// by position otherwise, with ties kept in their initial order.
pub fn ordered_islands(islands: &[IslandEntry]) -> (ordered: Vec<&IslandEntry>)
    ensures
        exists|order: Seq<int>|
            is_island_order(islands@, order) && ordered@ == order.map_values(
                |p: int| &islands@[p],
            ),
{
    let order = island_positions(islands);
    let ghost positions = order@.map_values(|p: usize| p as int);
    let mut ordered: Vec<&IslandEntry> = Vec::new();
    let mut k: usize = 0;
    while k < order.len()
        invariant
            0 <= k <= order@.len(),
            is_island_order(islands@, positions),
            positions == order@.map_values(|p: usize| p as int),
            ordered@.len() == k,
            forall|m: int| 0 <= m < k ==> #[trigger] ordered@[m] == islands@[positions[m]],
        decreases order@.len() - k,
    {
        assert(order@[k as int] as int == positions[k as int]);
        ordered.push(&islands[order[k]]);
        k = k + 1;
    }
    assert(ordered@ == positions.map_values(|p: int| &islands@[p]));
    ordered
}


/// A layout region within a dock: whether it is shown, the spacing between
/// its islands (`"10px"`, `"30%"`, `"between"` or `"evenly"`), and the
/// islands placed in it.
#[derive(Debug, Clone)]
pub struct SectionConfig {
    pub enabled: bool,
    pub gap: String,
    pub islands: Vec<IslandEntry>,
}

/// The spacing a section gets when none is configured.
pub fn default_gap() -> (gap: String)
    ensures
        gap@ == "10px"@,
{
    "10px".to_owned()
}

impl Default for SectionConfig {
    /// An enabled, empty section with the default gap.
    fn default() -> (section: SectionConfig)
        ensures
            section.enabled,
            section.gap@ == "10px"@,
            section.islands@.len() == 0,
    {
        SectionConfig { enabled: true, gap: default_gap(), islands: Vec::new() }
    }
}

/// The ids of a section's islands, in configured order.
pub open spec fn island_ids(islands: Seq<IslandEntry>) -> Seq<Seq<char>> {
    islands.map_values(|entry: IslandEntry| entry.id@)
}

/// The island lists of a dock's sections.
pub open spec fn island_lists(sections: Seq<SectionConfig>) -> Seq<Seq<IslandEntry>> {
    sections.map_values(|section: SectionConfig| section.islands@)
}

/// What a section holds besides its islands.
pub open spec fn section_settings(sections: Seq<SectionConfig>) -> Seq<(bool, Seq<char>)> {
    sections.map_values(|section: SectionConfig| (section.enabled, section.gap@))
}

fn section_with_ids(ids: Vec<&str>) -> (section: SectionConfig)
    ensures
        section.enabled,
        section.gap@ == "10px"@,
        island_ids(section.islands@) == ids@.map_values(|id: &str| id@),
{
    let mut islands: Vec<IslandEntry> = Vec::new();
    let mut i: usize = 0;
    while i < ids.len()
        invariant
            0 <= i <= ids@.len(),
            island_ids(islands@) == ids@.take(i as int).map_values(|id: &str| id@),
        decreases ids@.len() - i,
    {
        let entry = IslandEntry::with_id(ids[i]);
        assert(entry.id@ == ids@[i as int]@);
        let ghost before = islands@;
        islands.push(entry);
        assert(island_ids(islands@) =~= island_ids(before).push(ids@[i as int]@));
        assert(ids@.take(i + 1).map_values(|id: &str| id@) =~= ids@.take(i as int).map_values(|id: &str| id@).push(ids@[i as int]@));
        assert(island_ids(islands@) =~= ids@.take(i + 1).map_values(|id: &str| id@));
        i = i + 1;
    }
    assert(ids@.take(ids@.len() as int) == ids@);
    SectionConfig { enabled: true, gap: default_gap(), islands }
}

/// The three sections a new dock starts with: logo, weather and now-playing;
/// the app launcher; the control center and clock.
pub fn default_sections() -> (sections: Vec<SectionConfig>)
    ensures
        sections@.len() == 3,
        forall|k: int| 0 <= k < 3 ==> (#[trigger] sections@[k]).enabled && sections@[k].gap@ == "10px"@,
        island_ids(sections@[0].islands@) == seq!["logo"@, "weather"@, "current_playing"@],
        island_ids(sections@[1].islands@) == seq!["app_launcher"@],
        island_ids(sections@[2].islands@) == seq!["control_center"@, "clock"@],
{
    let first = section_with_ids(vec!["logo", "weather", "current_playing"]);
    let second = section_with_ids(vec!["app_launcher"]);
    let third = section_with_ids(vec!["control_center", "clock"]);
    let sections = vec![first, second, third];
    sections
}

/// Moving the island at `(section, island)` one step towards the start of
/// the dock: within its section it swaps with its predecessor; the first
/// island of a section moves to the end of the previous section.
pub open spec fn moved_up(lists: Seq<Seq<IslandEntry>>, section: int, island: int) -> Seq<Seq<IslandEntry>> {
    if island == 0 {
        if section == 0 || island >= lists[section].len() {
            lists
        } else {
            lists.update(section, lists[section].drop_first()).update(
                section - 1,
                lists[section - 1].push(lists[section][0]),
            )
        }
    } else if island < lists[section].len() {
        lists.update(
            section,
            lists[section].update(island - 1, lists[section][island]).update(island, lists[section][island - 1]),
        )
    } else {
        lists
    }
}

/// Moving the island at `(section, island)` one step towards the end of the
/// dock: within its section it swaps with its successor; the last island of
/// a section moves to the front of the next section.
pub open spec fn moved_down(lists: Seq<Seq<IslandEntry>>, section: int, island: int) -> Seq<Seq<IslandEntry>> {
    if section >= lists.len() {
        lists
    } else {
        let last = if lists[section].len() == 0 { 0 } else { lists[section].len() - 1 };
        if island != last {
            if island + 1 < lists[section].len() {
                lists.update(
                    section,
                    lists[section].update(island, lists[section][island + 1]).update(island + 1, lists[section][island]),
                )
            } else {
                lists
            }
        } else if section + 1 >= lists.len() {
            lists
        } else {
            lists.update(section, lists[section].remove(island)).update(
                section + 1,
                seq![lists[section][island]] + lists[section + 1],
            )
        }
    }
}

/// Moving an island up within its section and then moving it back down
/// restores the section.
pub proof fn move_up_then_down_within_section(lists: Seq<Seq<IslandEntry>>, section: int, island: int)
    requires
        0 <= section < lists.len(),
        0 < island < lists[section].len(),
    ensures
        moved_down(moved_up(lists, section, island), section, island - 1) == lists,
{
    let up = moved_up(lists, section, island);
    assert(up[section].len() == lists[section].len());
    assert(moved_down(up, section, island - 1)[section] =~= lists[section]);
    assert(moved_down(up, section, island - 1) =~= lists);
}

/// Moving the first island of a section up into the previous section and
/// then moving it back down restores both sections.
pub proof fn move_up_then_down_across_sections(lists: Seq<Seq<IslandEntry>>, section: int)
    requires
        0 < section < lists.len(),
        lists[section].len() > 0,
    ensures
        moved_down(moved_up(lists, section, 0), section - 1, lists[section - 1].len() as int) == lists,
{
    let up = moved_up(lists, section, 0);
    let moved = lists[section][0];
    assert(up[section - 1] == lists[section - 1].push(moved));
    assert(up[section - 1].remove(lists[section - 1].len() as int) =~= lists[section - 1]);
    assert(seq![moved] + lists[section].drop_first() =~= lists[section]);
    assert(moved_down(up, section - 1, lists[section - 1].len() as int) =~= lists);
}

/// Moving an island down within its section and then moving it back up
/// restores the section.
pub proof fn move_down_then_up_within_section(lists: Seq<Seq<IslandEntry>>, section: int, island: int)
    requires
        0 <= section < lists.len(),
        0 <= island,
        island + 1 < lists[section].len(),
    ensures
        moved_up(moved_down(lists, section, island), section, island + 1) == lists,
{
    let down = moved_down(lists, section, island);
    assert(down[section].len() == lists[section].len());
    assert(moved_up(down, section, island + 1)[section] =~= lists[section]);
    assert(moved_up(down, section, island + 1) =~= lists);
}

/// Moving the last island of a section down into the next section and then
/// moving it back up restores both sections.
pub proof fn move_down_then_up_across_sections(lists: Seq<Seq<IslandEntry>>, section: int)
    requires
        0 <= section,
        section + 1 < lists.len(),
        lists[section].len() > 0,
    ensures
        moved_up(moved_down(lists, section, lists[section].len() - 1), section + 1, 0) == lists,
{
    let last = lists[section].len() - 1;
    let down = moved_down(lists, section, last);
    let moved = lists[section][last];
    assert(down[section + 1] == seq![moved] + lists[section + 1]);
    assert(down[section + 1].drop_first() =~= lists[section + 1]);
    assert(down[section].push(moved) =~= lists[section]);
    assert(moved_up(down, section + 1, 0) =~= lists);
}

/// Every island placed in `lists`, counted with multiplicity.
pub open spec fn placed_islands(lists: Seq<Seq<IslandEntry>>) -> Multiset<IslandEntry>
    decreases lists.len(),
{
    if lists.len() == 0 {
        Multiset::empty()
    } else {
        placed_islands(lists.drop_last()).add(lists.last().to_multiset())
    }
}

proof fn lemma_placed_update(lists: Seq<Seq<IslandEntry>>, i: int, list: Seq<IslandEntry>)
    requires
        0 <= i < lists.len(),
    ensures
        placed_islands(lists.update(i, list)).add(lists[i].to_multiset()) == placed_islands(lists).add(list.to_multiset()),
    decreases lists.len(),
{
    broadcast use vstd::multiset::group_multiset_axioms;

    let updated = lists.update(i, list);
    assert(placed_islands(updated) == placed_islands(updated.drop_last()).add(updated.last().to_multiset()));
    assert(placed_islands(lists) == placed_islands(lists.drop_last()).add(lists.last().to_multiset()));
    if i == lists.len() - 1 {
        assert(updated.drop_last() =~= lists.drop_last());
        assert(updated.last() == list);
        assert(placed_islands(updated).add(lists[i].to_multiset()) =~= placed_islands(lists).add(list.to_multiset()));
    } else {
        assert(updated.drop_last() =~= lists.drop_last().update(i, list));
        assert(updated.last() == lists.last());
        assert(lists.drop_last()[i] == lists[i]);
        lemma_placed_update(lists.drop_last(), i, list);
        let before_l = placed_islands(lists.drop_last().update(i, list)).add(lists[i].to_multiset());
        let before_r = placed_islands(lists.drop_last()).add(list.to_multiset());
        assert forall|x: IslandEntry| #[trigger] placed_islands(updated).add(lists[i].to_multiset()).count(x)
            == placed_islands(lists).add(list.to_multiset()).count(x) by {
            assert(before_l.count(x) == before_r.count(x));
        }
        assert(placed_islands(updated).add(lists[i].to_multiset()) =~= placed_islands(lists).add(list.to_multiset()));
    }
}

proof fn lemma_swap_keeps_multiset(list: Seq<IslandEntry>, a: int, b: int)
    requires
        0 <= a < list.len(),
        0 <= b < list.len(),
        a != b,
    ensures
        list.update(a, list[b]).update(b, list[a]).to_multiset() == list.to_multiset(),
{
    broadcast use vstd::multiset::group_multiset_axioms;
    broadcast use vstd::seq_lib::to_multiset_update;
    broadcast use vstd::seq_lib::to_multiset_contains;

    let once = list.update(a, list[b]);
    assert(once[b] == list[b]);
    assert(once.to_multiset() == list.to_multiset().insert(list[b]).remove(list[a]));
    assert(once.update(b, list[a]).to_multiset() == once.to_multiset().insert(list[a]).remove(list[b]));
    assert(list.to_multiset().contains(list[a]));
    assert(once.update(b, list[a]).to_multiset() =~= list.to_multiset());
}

/// Moving an island up never loses one or adds one: the same islands stay
/// placed, each as many times as before.
pub proof fn moving_up_keeps_every_island(lists: Seq<Seq<IslandEntry>>, section: int, island: int)
    requires
        0 <= section < lists.len(),
        0 <= island,
    ensures
        placed_islands(moved_up(lists, section, island)) == placed_islands(lists),
{
    broadcast use vstd::multiset::group_multiset_axioms;
    broadcast use vstd::seq_lib::to_multiset_remove;
    broadcast use vstd::seq_lib::to_multiset_insert;
    broadcast use vstd::seq_lib::to_multiset_contains;

    if island == 0 {
        if section > 0 && 0 < lists[section].len() {
            let moved = lists[section][0];
            let shorter = lists[section].drop_first();
            let longer = lists[section - 1].push(moved);
            let step = lists.update(section, shorter);
            lemma_placed_update(lists, section, shorter);
            lemma_placed_update(step, section - 1, longer);
            assert(step[section - 1] == lists[section - 1]);
            assert(shorter =~= lists[section].remove(0));
            assert(longer =~= lists[section - 1].insert(lists[section - 1].len() as int, moved));
            assert(shorter.to_multiset() == lists[section].to_multiset().remove(moved));
            assert(longer.to_multiset() == lists[section - 1].to_multiset().insert(moved));
            assert(lists[section].to_multiset().contains(moved));
            let done = step.update(section - 1, longer);
            assert(done == moved_up(lists, section, island));
            assert forall|x: IslandEntry| #[trigger] placed_islands(done).count(x) == placed_islands(lists).count(x) by {
                assert(placed_islands(step).add(lists[section].to_multiset()).count(x) == placed_islands(lists).add(
                    shorter.to_multiset(),
                ).count(x));
                assert(placed_islands(done).add(step[section - 1].to_multiset()).count(x) == placed_islands(step).add(
                    longer.to_multiset(),
                ).count(x));
            }
            assert(placed_islands(done) =~= placed_islands(lists));
        }
    } else if island < lists[section].len() {
        let swapped = lists[section].update(island - 1, lists[section][island]).update(island, lists[section][island - 1]);
        lemma_swap_keeps_multiset(lists[section], island - 1, island);
        lemma_placed_update(lists, section, swapped);
        let done = lists.update(section, swapped);
        assert(done == moved_up(lists, section, island));
        assert forall|x: IslandEntry| #[trigger] placed_islands(done).count(x) == placed_islands(lists).count(x) by {
            assert(placed_islands(done).add(lists[section].to_multiset()).count(x) == placed_islands(lists).add(
                swapped.to_multiset(),
            ).count(x));
        }
        assert(placed_islands(done) =~= placed_islands(lists));
    }
}

/// Moving an island down never loses one or adds one: the same islands
/// stay placed, each as many times as before.
pub proof fn moving_down_keeps_every_island(lists: Seq<Seq<IslandEntry>>, section: int, island: int)
    requires
        0 <= section < lists.len(),
        0 <= island,
        !(section + 1 < lists.len() && island == 0 && lists[section].len() == 0),
    ensures
        placed_islands(moved_down(lists, section, island)) == placed_islands(lists),
{
    broadcast use vstd::multiset::group_multiset_axioms;
    broadcast use vstd::seq_lib::to_multiset_remove;
    broadcast use vstd::seq_lib::to_multiset_insert;
    broadcast use vstd::seq_lib::to_multiset_contains;

    let last = if lists[section].len() == 0 { 0 } else { lists[section].len() - 1 };
    if island != last {
        if island + 1 < lists[section].len() {
            let swapped = lists[section].update(island, lists[section][island + 1]).update(island + 1, lists[section][island]);
            lemma_swap_keeps_multiset(lists[section], island, island + 1);
            lemma_placed_update(lists, section, swapped);
            let done = lists.update(section, swapped);
            assert(done == moved_down(lists, section, island));
            assert forall|x: IslandEntry| #[trigger] placed_islands(done).count(x) == placed_islands(lists).count(x) by {
                assert(placed_islands(done).add(lists[section].to_multiset()).count(x) == placed_islands(lists).add(
                    swapped.to_multiset(),
                ).count(x));
            }
            assert(placed_islands(done) =~= placed_islands(lists));
        }
    } else if section + 1 < lists.len() && island < lists[section].len() {
        let moved = lists[section][island];
        let shorter = lists[section].remove(island);
        let longer = seq![moved] + lists[section + 1];
        let step = lists.update(section, shorter);
        lemma_placed_update(lists, section, shorter);
        lemma_placed_update(step, section + 1, longer);
        assert(step[section + 1] == lists[section + 1]);
        assert(longer =~= lists[section + 1].insert(0, moved));
        assert(shorter.to_multiset() == lists[section].to_multiset().remove(moved));
        assert(longer.to_multiset() == lists[section + 1].to_multiset().insert(moved));
        assert(lists[section].to_multiset().contains(moved));
        let done = step.update(section + 1, longer);
        assert(done == moved_down(lists, section, island));
        assert forall|x: IslandEntry| #[trigger] placed_islands(done).count(x) == placed_islands(lists).count(x) by {
            assert(placed_islands(step).add(lists[section].to_multiset()).count(x) == placed_islands(lists).add(
                shorter.to_multiset(),
            ).count(x));
            assert(placed_islands(done).add(step[section + 1].to_multiset()).count(x) == placed_islands(step).add(
                longer.to_multiset(),
            ).count(x));
        }
        assert(placed_islands(done) =~= placed_islands(lists));
    }
}

fn take_section(sections: &mut Vec<SectionConfig>, index: usize) -> (section: SectionConfig)
    requires
        index < old(sections)@.len(),
    ensures
        section == old(sections)@[index as int],
        final(sections)@ == old(sections)@.remove(index as int),
{
    sections.remove(index)
}

/// Moves the island at `island_index` of section `section_index` one step
/// towards the start of the dock (see [`moved_up`]).
pub fn move_island_up(sections: &mut Vec<SectionConfig>, section_index: usize, island_index: usize)
    requires
        (section_index == 0 && island_index == 0) || section_index < old(sections)@.len(),
    ensures
        section_settings(final(sections)@) == section_settings(old(sections)@),
        island_lists(final(sections)@) == moved_up(island_lists(old(sections)@), section_index as int, island_index as int),
{
    let ghost lists = island_lists(sections@);
    if island_index == 0 {
        if section_index == 0 || island_index >= sections[section_index].islands.len() {
            return;
        }
        let mut current = take_section(sections, section_index);
        let entry = current.islands.remove(0);
        sections.insert(section_index, current);
        let mut previous = take_section(sections, section_index - 1);
        previous.islands.push(entry);
        sections.insert(section_index - 1, previous);
        assert(section_settings(sections@) =~= section_settings(old(sections)@));
        assert(island_lists(sections@) =~= moved_up(lists, section_index as int, island_index as int));
    } else if island_index < sections[section_index].islands.len() {
        let mut current = take_section(sections, section_index);
        let entry = current.islands.remove(island_index);
        current.islands.insert(island_index - 1, entry);
        sections.insert(section_index, current);
        assert(section_settings(sections@) =~= section_settings(old(sections)@));
        assert(island_lists(sections@)[section_index as int] =~= moved_up(lists, section_index as int, island_index as int)[section_index as int]);
        assert(island_lists(sections@) =~= moved_up(lists, section_index as int, island_index as int));
    }
}

/// Moves the island at `island_index` of section `section_index` one step
/// towards the end of the dock (see [`moved_down`]).
pub fn move_island_down(sections: &mut Vec<SectionConfig>, section_index: usize, island_index: usize)
    requires
        !(section_index + 1 < old(sections)@.len() && island_index == 0
            && old(sections)@[section_index as int].islands@.len() == 0),
    ensures
        section_settings(final(sections)@) == section_settings(old(sections)@),
        island_lists(final(sections)@) == moved_down(island_lists(old(sections)@), section_index as int, island_index as int),
{
    let ghost lists = island_lists(sections@);
    if section_index >= sections.len() {
        return;
    }
    let count = sections[section_index].islands.len();
    let last = if count == 0 { 0 } else { count - 1 };
    if island_index != last {
        if count > 0 && island_index < count - 1 {
            let mut current = take_section(sections, section_index);
            let entry = current.islands.remove(island_index);
            current.islands.insert(island_index + 1, entry);
            sections.insert(section_index, current);
            assert(section_settings(sections@) =~= section_settings(old(sections)@));
            assert(island_lists(sections@)[section_index as int] =~= moved_down(lists, section_index as int, island_index as int)[section_index as int]);
            assert(island_lists(sections@) =~= moved_down(lists, section_index as int, island_index as int));
        }
        return;
    }
    if section_index + 1 >= sections.len() {
        return;
    }
    let mut current = take_section(sections, section_index);
    let entry = current.islands.remove(island_index);
    sections.insert(section_index, current);
    let mut next = take_section(sections, section_index + 1);
    next.islands.insert(0, entry);
    sections.insert(section_index + 1, next);
    assert(section_settings(sections@) =~= section_settings(old(sections)@));
    assert(island_lists(sections@)[section_index as int + 1] =~= moved_down(lists, section_index as int, island_index as int)[section_index as int + 1]);
    assert(island_lists(sections@) =~= moved_down(lists, section_index as int, island_index as int));
}


/// The island-bearing part of a dock: whether it is shown, and its sections.
#[derive(Debug, Clone)]
pub struct DockLayout {
    pub enabled: bool,
    pub sections: Vec<SectionConfig>,
}

impl DockLayout {
    /// A new dock: enabled, with the three default sections.
    pub fn standard() -> (dock: DockLayout)
        ensures
            dock.enabled,
            dock.sections@.len() == 3,
            forall|k: int| 0 <= k < 3 ==> (#[trigger] dock.sections@[k]).enabled && dock.sections@[k].gap@ == "10px"@,
            island_ids(dock.sections@[0].islands@) == seq!["logo"@, "weather"@, "current_playing"@],
            island_ids(dock.sections@[1].islands@) == seq!["app_launcher"@],
            island_ids(dock.sections@[2].islands@) == seq!["control_center"@, "clock"@],
    {
        DockLayout { enabled: true, sections: default_sections() }
    }
}

/// The thickness of a horizontal dock's window, in pixels.
pub const DOCK_HEIGHT: u32 = 44;

/// The thickness of a vertical dock's window, in pixels.
pub const DOCK_WIDTH: u32 = 52;

/// The size a dock's window is created with, as (width, height): its
/// thickness across the screen edge and 800 pixels along it.
pub fn dock_window_size(position: DockPosition) -> (size: (u32, u32))
    ensures
        size == if position == DockPosition::Left || position == DockPosition::Right {
            (DOCK_WIDTH, 800u32)
        } else {
            (800u32, DOCK_HEIGHT)
        },
{
    if position.is_vertical() {
        (DOCK_WIDTH, 800)
    } else {
        (800, DOCK_HEIGHT)
    }
}

/// The positions of the enabled docks of `docks`, in order.
pub open spec fn enabled_positions(docks: Seq<DockLayout>) -> Seq<int>
    decreases docks.len(),
{
    if docks.len() == 0 {
        Seq::empty()
    } else {
        let rest = enabled_positions(docks.drop_last());
        if docks.last().enabled {
            rest.push(docks.len() - 1)
        } else {
            rest
        }
    }
}

/// The docks that get a window: the enabled ones, in order, by position in
/// `docks`. The first of them is the primary dock, which hosts the panels.
pub fn shown_docks(docks: &Vec<DockLayout>) -> (shown: Vec<usize>)
    ensures
        shown@.map_values(|p: usize| p as int) == enabled_positions(docks@),
{
    let mut shown: Vec<usize> = Vec::new();
    let mut d: usize = 0;
    while d < docks.len()
        invariant
            0 <= d <= docks@.len(),
            shown@.map_values(|p: usize| p as int) == enabled_positions(docks@.take(d as int)),
        decreases docks@.len() - d,
    {
        assert(docks@.take(d + 1).drop_last() =~= docks@.take(d as int));
        assert(docks@.take(d + 1).last() == docks@[d as int]);
        if docks[d].enabled {
            let ghost before = shown@;
            shown.push(d);
            assert(shown@.map_values(|p: usize| p as int) =~= before.map_values(|p: usize| p as int).push(d as int));
        }
        d = d + 1;
    }
    assert(docks@.take(d as int) =~= docks@);
    shown
}

/// Island `id` is placed in some section of some dock.
pub open spec fn island_listed_in(docks: Seq<DockLayout>, id: Seq<char>) -> bool {
    exists|d: int, s: int, k: int|
        0 <= d < docks.len() && 0 <= s < docks[d].sections@.len() && 0 <= k < docks[d].sections@[s].islands@.len()
            && (#[trigger] docks[d].sections@[s].islands@[k]).id@ == id
}

/// Island `id` is placed in an enabled section of an enabled dock, so it is
/// actually rendered.
pub open spec fn island_shown_in(docks: Seq<DockLayout>, id: Seq<char>) -> bool {
    exists|d: int, s: int, k: int|
        0 <= d < docks.len() && docks[d].enabled && 0 <= s < docks[d].sections@.len()
            && docks[d].sections@[s].enabled && 0 <= k < docks[d].sections@[s].islands@.len()
            && (#[trigger] docks[d].sections@[s].islands@[k]).id@ == id
}

fn section_has(section: &SectionConfig, id: &str) -> (found: bool)
    ensures
        found == exists|k: int| 0 <= k < section.islands@.len() && (#[trigger] section.islands@[k]).id@ == id@,
{
    let mut k: usize = 0;
    while k < section.islands.len()
        invariant
            0 <= k <= section.islands@.len(),
            forall|m: int| 0 <= m < k ==> (#[trigger] section.islands@[m]).id@ != id@,
        decreases section.islands@.len() - k,
    {
        if crate::geo::text_eq(section.islands[k].id.as_str(), id) {
            return true;
        }
        k = k + 1;
    }
    false
}

fn find_island(docks: &Vec<DockLayout>, id: &str, shown_only: bool) -> (found: bool)
    ensures
        found == (if shown_only { island_shown_in(docks@, id@) } else { island_listed_in(docks@, id@) }),
{
    let mut d: usize = 0;
    while d < docks.len()
        invariant
            0 <= d <= docks@.len(),
            forall|e: int, s: int, k: int|
                0 <= e < d && (!shown_only || docks@[e].enabled) && 0 <= s < docks@[e].sections@.len()
                    && (!shown_only || docks@[e].sections@[s].enabled) && 0 <= k < docks@[e].sections@[s].islands@.len()
                    ==> (#[trigger] docks@[e].sections@[s].islands@[k]).id@ != id@,
        decreases docks@.len() - d,
    {
        let dock = &docks[d];
        if !shown_only || dock.enabled {
            let mut s: usize = 0;
            while s < dock.sections.len()
                invariant
                    0 <= s <= dock.sections@.len(),
                    dock == docks@[d as int],
                    d < docks@.len(),
                    !shown_only || dock.enabled,
                    forall|e: int, t: int, k: int|
                        0 <= e < d && (!shown_only || docks@[e].enabled) && 0 <= t < docks@[e].sections@.len()
                            && (!shown_only || docks@[e].sections@[t].enabled) && 0 <= k < docks@[e].sections@[t].islands@.len()
                            ==> (#[trigger] docks@[e].sections@[t].islands@[k]).id@ != id@,
                    forall|t: int, k: int|
                        0 <= t < s && (!shown_only || dock.sections@[t].enabled) && 0 <= k < dock.sections@[t].islands@.len()
                            ==> (#[trigger] dock.sections@[t].islands@[k]).id@ != id@,
                decreases dock.sections@.len() - s,
            {
                let section = &dock.sections[s];
                if !shown_only || section.enabled {
                    if section_has(section, id) {
                        return true;
                    }
                }
                s = s + 1;
            }
        }
        d = d + 1;
    }
    false
}

/// Whether island `id` is rendered by some enabled section of some enabled
/// dock; islands of a hidden dock or section do not count.
pub fn island_present(docks: &Vec<DockLayout>, id: &str) -> (present: bool)
    ensures
        present == island_shown_in(docks@, id@),
{
    find_island(docks, id, true)
}

/// Whether island `id` is placed anywhere in the docks, shown or not.
pub fn island_listed(docks: &Vec<DockLayout>, id: &str) -> (listed: bool)
    ensures
        listed == island_listed_in(docks@, id@),
{
    find_island(docks, id, false)
}


/// The ids of every island placed in `sections`, section by section.
pub open spec fn section_island_ids(sections: Seq<SectionConfig>) -> Seq<Seq<char>> {
    sections.map_values(|section: SectionConfig| island_ids(section.islands@)).flatten()
}

/// The ids of every island placed in `docks`, dock by dock and section by
/// section, shown or not.
pub open spec fn dock_island_ids(docks: Seq<DockLayout>) -> Seq<Seq<char>> {
    docks.map_values(|dock: DockLayout| section_island_ids(dock.sections@)).flatten()
}

/// The entries of `ids` that `known` does not hold, in order, repeats kept.
pub open spec fn unknown_ids(ids: Seq<Seq<char>>, known: Seq<Seq<char>>) -> Seq<Seq<char>>
    decreases ids.len(),
{
    if ids.len() == 0 {
        Seq::empty()
    } else {
        let rest = unknown_ids(ids.drop_last(), known);
        if known.contains(ids.last()) {
            rest
        } else {
            rest.push(ids.last())
        }
    }
}

/// Whether `known` holds the text `id`.
pub fn is_known_id(known: &Vec<String>, id: &str) -> (found: bool)
    ensures
        found == crate::text::string_views(known@).contains(id@),
{
    let ghost views = crate::text::string_views(known@);
    let mut k: usize = 0;
    while k < known.len()
        invariant
            0 <= k <= known@.len(),
            views == crate::text::string_views(known@),
            forall|m: int| 0 <= m < k ==> views[m] != id@,
        decreases known@.len() - k,
    {
        if crate::geo::text_eq(known[k].as_str(), id) {
            assert(views[k as int] == id@);
            return true;
        }
        k = k + 1;
    }
    false
}

fn collect_island_ids(docks: &Vec<DockLayout>) -> (ids: Vec<String>)
    ensures
        crate::text::string_views(ids@) == dock_island_ids(docks@),
{
    let mut ids: Vec<String> = Vec::new();
    let mut d: usize = 0;
    while d < docks.len()
        invariant
            0 <= d <= docks@.len(),
            crate::text::string_views(ids@) == dock_island_ids(docks@.take(d as int)),
        decreases docks@.len() - d,
    {
        let dock = &docks[d];
        let ghost base = crate::text::string_views(ids@);
        let mut s: usize = 0;
        while s < dock.sections.len()
            invariant
                0 <= s <= dock.sections@.len(),
                crate::text::string_views(ids@) == base + section_island_ids(dock.sections@.take(s as int)),
            decreases dock.sections@.len() - s,
        {
            let section = &dock.sections[s];
            let ghost middle = crate::text::string_views(ids@);
            let mut k: usize = 0;
            while k < section.islands.len()
                invariant
                    0 <= k <= section.islands@.len(),
                    crate::text::string_views(ids@) == middle + island_ids(section.islands@.take(k as int)),
                decreases section.islands@.len() - k,
            {
                let ghost before = ids@;
                ids.push(section.islands[k].id.clone());
                proof {
                    assert(section.islands@.take(k + 1) =~= section.islands@.take(k as int).push(section.islands@[k as int]));
                    assert(island_ids(section.islands@.take(k + 1)) =~= island_ids(section.islands@.take(k as int)).push(section.islands@[k as int].id@));
                    assert(crate::text::string_views(ids@) =~= crate::text::string_views(before).push(section.islands@[k as int].id@));
                    assert(crate::text::string_views(ids@) =~= middle + island_ids(section.islands@.take(k + 1)));
                }
                k = k + 1;
            }
            proof {
                let f = |section: SectionConfig| island_ids(section.islands@);
                assert(section.islands@.take(k as int) =~= section.islands@);
                assert(dock.sections@.take(s + 1).map_values(f) =~= dock.sections@.take(s as int).map_values(f).push(f(dock.sections@[s as int])));
                dock.sections@.take(s as int).map_values(f).lemma_flatten_push(f(dock.sections@[s as int]));
                assert(crate::text::string_views(ids@) =~= base + section_island_ids(dock.sections@.take(s + 1)));
            }
            s = s + 1;
        }
        proof {
            let g = |dock: DockLayout| section_island_ids(dock.sections@);
            assert(dock.sections@.take(s as int) =~= dock.sections@);
            assert(docks@.take(d + 1).map_values(g) =~= docks@.take(d as int).map_values(g).push(g(docks@[d as int])));
            docks@.take(d as int).map_values(g).lemma_flatten_push(g(docks@[d as int]));
            assert(crate::text::string_views(ids@) =~= dock_island_ids(docks@.take(d + 1)));
        }
        d = d + 1;
    }
    assert(docks@.take(d as int) =~= docks@);
    ids
}

/// The ids placed in `docks`, in every dock and section, that `known` does
/// not hold: the islands no plugin provides. An id placed twice is reported
/// twice.
pub fn unknown_island_ids(docks: &Vec<DockLayout>, known: &Vec<String>) -> (unknown: Vec<String>)
    ensures
        crate::text::string_views(unknown@) == unknown_ids(dock_island_ids(docks@), crate::text::string_views(known@)),
{
    let ids = collect_island_ids(docks);
    let ghost all = crate::text::string_views(ids@);
    let ghost names = crate::text::string_views(known@);
    let mut unknown: Vec<String> = Vec::new();
    let mut i: usize = 0;
    while i < ids.len()
        invariant
            0 <= i <= ids@.len(),
            all == crate::text::string_views(ids@),
            names == crate::text::string_views(known@),
            crate::text::string_views(unknown@) == unknown_ids(all.take(i as int), names),
        decreases ids@.len() - i,
    {
        assert(all.take(i + 1).drop_last() =~= all.take(i as int));
        assert(all.take(i + 1).last() == ids@[i as int]@);
        if !is_known_id(known, ids[i].as_str()) {
            let ghost before = unknown@;
            unknown.push(ids[i].clone());
            assert(crate::text::string_views(unknown@) =~= crate::text::string_views(before).push(ids@[i as int]@));
        }
        i = i + 1;
    }
    assert(all.take(i as int) =~= all);
    unknown
}

/// The islands of a section that render, in render order: those whose id
/// `known` holds. An id placed twice renders twice; an unknown id is skipped.
pub fn resolved_islands<'a>(islands: &'a [IslandEntry], known: &Vec<String>) -> (resolved: Vec<&'a IslandEntry>)
    ensures
        exists|order: Seq<int>|
            is_island_order(islands@, order) && resolved@ == order.map_values(|p: int| &islands@[p]).filter(
                |entry: &IslandEntry| crate::text::string_views(known@).contains(entry.id@),
            ),
{
    let ordered = ordered_islands(islands);
    let ghost order = choose|order: Seq<int>|
        is_island_order(islands@, order) && ordered@ == order.map_values(|p: int| &islands@[p]);
    let ghost keep = |entry: &IslandEntry| crate::text::string_views(known@).contains(entry.id@);
    let mut resolved: Vec<&IslandEntry> = Vec::new();
    let mut k: usize = 0;
    while k < ordered.len()
        invariant
            0 <= k <= ordered@.len(),
            resolved@ == ordered@.take(k as int).filter(keep),
            keep == (|entry: &IslandEntry| crate::text::string_views(known@).contains(entry.id@)),
        decreases ordered@.len() - k,
    {
        let entry = ordered[k];
        proof {
            assert(ordered@.take(k + 1) =~= ordered@.take(k as int).push(entry));
            ordered@.take(k as int).lemma_filter_push(entry, keep);
        }
        if is_known_id(known, entry.id.as_str()) {
            resolved.push(entry);
        }
        k = k + 1;
    }
    assert(ordered@.take(k as int) =~= ordered@);
    resolved
}

/// `islands` without the entries for island `id`.
pub open spec fn without_island(islands: Seq<IslandEntry>, id: Seq<char>) -> Seq<IslandEntry>
    decreases islands.len(),
{
    if islands.len() == 0 {
        Seq::empty()
    } else {
        let rest = without_island(islands.drop_last(), id);
        if islands.last().id@ == id {
            rest
        } else {
            rest.push(islands.last())
        }
    }
}

fn remove_island_entries(islands: &mut Vec<IslandEntry>, id: &str)
    ensures
        final(islands)@ == without_island(old(islands)@, id@),
{
    let mut kept: Vec<IslandEntry> = Vec::new();
    let ghost initial = islands@;
    let ghost mut k: int = 0;
    assert(initial.take(0) =~= Seq::<IslandEntry>::empty());
    while islands.len() > 0
        invariant
            0 <= k <= initial.len(),
            k + islands@.len() == initial.len(),
            islands@ == initial.skip(k),
            kept@ == without_island(initial.take(k), id@),
        decreases islands@.len(),
    {
        let entry = islands.remove(0);
        assert(entry == initial[k]);
        assert(initial.take(k + 1).drop_last() == initial.take(k));
        assert(initial.take(k + 1).last() == initial[k]);
        if !crate::geo::text_eq(entry.id.as_str(), id) {
            kept.push(entry);
        }
        assert(islands@ =~= initial.skip(k + 1));
        proof {
            k = k + 1;
        }
    }
    assert(initial.take(initial.len() as int) == initial);
    *islands = kept;
}


/// The island lists of every dock, with the entries for `id` removed.
pub open spec fn docks_without_island(docks: Seq<DockLayout>, id: Seq<char>) -> Seq<Seq<Seq<IslandEntry>>> {
    docks.map_values(
        |dock: DockLayout| island_lists(dock.sections@).map_values(|list: Seq<IslandEntry>| without_island(list, id)),
    )
}

/// The island lists of every dock.
pub open spec fn dock_island_lists(docks: Seq<DockLayout>) -> Seq<Seq<Seq<IslandEntry>>> {
    docks.map_values(|dock: DockLayout| island_lists(dock.sections@))
}

/// Whether each dock is shown, and its sections' settings.
pub open spec fn dock_settings(docks: Seq<DockLayout>) -> Seq<(bool, Seq<(bool, Seq<char>)>)> {
    docks.map_values(|dock: DockLayout| (dock.enabled, section_settings(dock.sections@)))
}

/// A freshly placed entry for island `id`.
pub open spec fn is_new_entry(entry: IslandEntry, id: Seq<char>) -> bool {
    entry.id@ == id && entry.index is None && table_keys(entry.config) == Set::<Seq<char>>::empty()
}

fn strip_island_from_dock(dock: &mut DockLayout, id: &str)
    ensures
        final(dock).enabled == old(dock).enabled,
        section_settings(final(dock).sections@) == section_settings(old(dock).sections@),
        island_lists(final(dock).sections@) == island_lists(old(dock).sections@).map_values(
            |list: Seq<IslandEntry>| without_island(list, id@),
        ),
{
    let ghost initial = dock.sections@;
    let mut s: usize = 0;
    while s < dock.sections.len()
        invariant
            0 <= s <= dock.sections@.len(),
            dock.sections@.len() == initial.len(),
            dock.enabled == old(dock).enabled,
            initial == old(dock).sections@,
            section_settings(dock.sections@) == section_settings(initial),
            forall|t: int| 0 <= t < s ==> (#[trigger] dock.sections@[t]).islands@ == without_island(initial[t].islands@, id@),
            forall|t: int| s <= t < initial.len() ==> (#[trigger] dock.sections@[t]) == initial[t],
        decreases initial.len() - s,
    {
        let mut section = take_section(&mut dock.sections, s);
        remove_island_entries(&mut section.islands, id);
        dock.sections.insert(s, section);
        assert(section_settings(dock.sections@) =~= section_settings(initial));
        s = s + 1;
    }
    assert(island_lists(dock.sections@) =~= island_lists(initial).map_values(
        |list: Seq<IslandEntry>| without_island(list, id@),
    ));
}

proof fn lemma_without_island_drops(islands: Seq<IslandEntry>, id: Seq<char>)
    ensures
        forall|k: int| 0 <= k < without_island(islands, id).len() ==> (#[trigger] without_island(islands, id)[k]).id@ != id,
    decreases islands.len(),
{
    if islands.len() > 0 {
        lemma_without_island_drops(islands.drop_last(), id);
    }
}

proof fn lemma_stripped_docks_lack_island(docks: Seq<DockLayout>, initial: Seq<DockLayout>, id: Seq<char>)
    requires
        dock_island_lists(docks) == docks_without_island(initial, id),
    ensures
        !island_listed_in(docks, id),
{
    if island_listed_in(docks, id) {
        let (d, s, k) = choose|d: int, s: int, k: int|
            0 <= d < docks.len() && 0 <= s < docks[d].sections@.len() && 0 <= k < docks[d].sections@[s].islands@.len()
                && (#[trigger] docks[d].sections@[s].islands@[k]).id@ == id;
        assert(dock_island_lists(docks).len() == docks.len());
        assert(docks_without_island(initial, id).len() == initial.len());
        assert(dock_island_lists(docks)[d] == island_lists(docks[d].sections@));
        assert(docks_without_island(initial, id)[d] == island_lists(initial[d].sections@).map_values(
            |list: Seq<IslandEntry>| without_island(list, id),
        ));
        assert(dock_island_lists(docks)[d].len() == docks[d].sections@.len());
        assert(docks_without_island(initial, id)[d].len() == initial[d].sections@.len());
        assert(dock_island_lists(docks)[d][s] == docks[d].sections@[s].islands@);
        assert(docks_without_island(initial, id)[d][s] == without_island(initial[d].sections@[s].islands@, id));
        lemma_without_island_drops(initial[d].sections@[s].islands@, id);
    }
}

/// Turns island `id` off when it is placed anywhere (removing every entry
/// for it), or on otherwise, appending it to the first section of the first
/// dock and creating that dock or section first when there is none.
pub fn toggle_island(docks: &mut Vec<DockLayout>, id: &str)
    ensures
        island_listed_in(final(docks)@, id@) == !island_listed_in(old(docks)@, id@),
        island_listed_in(old(docks)@, id@) ==> {
            &&& dock_settings(final(docks)@) == dock_settings(old(docks)@)
            &&& dock_island_lists(final(docks)@) == docks_without_island(old(docks)@, id@)
        },
        !island_listed_in(old(docks)@, id@) ==> final(docks)@.len() == if old(docks)@.len() == 0 {
            1
        } else {
            old(docks)@.len()
        },
        !island_listed_in(old(docks)@, id@) ==> forall|d: int|
            1 <= d < old(docks)@.len() ==> #[trigger] final(docks)@[d] == old(docks)@[d],
        !island_listed_in(old(docks)@, id@) ==> final(docks)@[0].sections@.len() >= 1
            && final(docks)@[0].sections@[0].islands@.len() >= 1
            && is_new_entry(final(docks)@[0].sections@[0].islands@.last(), id@),
        !island_listed_in(old(docks)@, id@) && old(docks)@.len() == 0 ==> {
            &&& final(docks)@[0].enabled
            &&& final(docks)@[0].sections@.len() == 3
            &&& forall|k: int| 0 <= k < 3 ==> (#[trigger] final(docks)@[0].sections@[k]).enabled
                && final(docks)@[0].sections@[k].gap@ == "10px"@
            &&& island_ids(final(docks)@[0].sections@[0].islands@) == seq![
                "logo"@,
                "weather"@,
                "current_playing"@,
                id@,
            ]
            &&& island_ids(final(docks)@[0].sections@[1].islands@) == seq!["app_launcher"@]
            &&& island_ids(final(docks)@[0].sections@[2].islands@) == seq!["control_center"@, "clock"@]
        },
        !island_listed_in(old(docks)@, id@) && old(docks)@.len() > 0 && old(docks)@[0].sections@.len() == 0 ==> {
            &&& final(docks)@[0].enabled == old(docks)@[0].enabled
            &&& final(docks)@[0].sections@.len() == 1
            &&& final(docks)@[0].sections@[0].enabled
            &&& final(docks)@[0].sections@[0].gap@ == "10px"@
            &&& final(docks)@[0].sections@[0].islands@.len() == 1
        },
        !island_listed_in(old(docks)@, id@) && old(docks)@.len() > 0 && old(docks)@[0].sections@.len() > 0 ==> {
            &&& final(docks)@[0].enabled == old(docks)@[0].enabled
            &&& section_settings(final(docks)@[0].sections@) == section_settings(old(docks)@[0].sections@)
            &&& island_lists(final(docks)@[0].sections@) == island_lists(old(docks)@[0].sections@).update(
                0,
                old(docks)@[0].sections@[0].islands@.push(final(docks)@[0].sections@[0].islands@.last()),
            )
        },
{
    if island_listed(docks, id) {
        let ghost initial = docks@;
        let mut d: usize = 0;
        while d < docks.len()
            invariant
                0 <= d <= docks@.len(),
                docks@.len() == initial.len(),
                dock_settings(docks@) == dock_settings(initial),
                forall|e: int| 0 <= e < d ==> island_lists((#[trigger] docks@[e]).sections@) == island_lists(
                    initial[e].sections@,
                ).map_values(|list: Seq<IslandEntry>| without_island(list, id@)),
                forall|e: int| d <= e < initial.len() ==> (#[trigger] docks@[e]) == initial[e],
            decreases initial.len() - d,
        {
            let mut dock = docks.remove(d);
            strip_island_from_dock(&mut dock, id);
            docks.insert(d, dock);
            assert(dock_settings(docks@) =~= dock_settings(initial));
            d = d + 1;
        }
        assert(dock_island_lists(docks@) =~= docks_without_island(initial, id@));
        proof {
            lemma_stripped_docks_lack_island(docks@, initial, id@);
        }
        return;
    }
    if docks.len() == 0 {
        docks.push(DockLayout::standard());
    }
    let ghost base = docks@;
    let mut first = docks.remove(0);
    if first.sections.len() == 0 {
        first.sections.push(SectionConfig::default());
    }
    let ghost sections_before = first.sections@;
    let mut section = take_section(&mut first.sections, 0);
    let ghost islands_before = section.islands@;
    let ghost section_before = section;
    let entry = IslandEntry::with_id(id);
    section.islands.push(entry);
    assert(section.enabled == section_before.enabled && section.gap == section_before.gap);
    assert(section.islands@ == islands_before.push(entry));
    assert(island_ids(section.islands@) =~= island_ids(islands_before).push(id@));
    first.sections.insert(0, section);
    assert(first.sections@ =~= sections_before.update(0, section));
    docks.insert(0, first);
    assert(docks@ =~= base.update(0, first));
    proof {
        let last = docks@[0].sections@[0].islands@.len() - 1;
        assert(docks@[0].sections@[0].islands@[last].id@ == id@);
        if old(docks)@.len() == 0 {
            assert(island_ids(islands_before) =~= seq!["logo"@, "weather"@, "current_playing"@]);
            assert(island_ids(docks@[0].sections@[0].islands@) =~= seq!["logo"@, "weather"@, "current_playing"@, id@]);
            assert(docks@[0].sections@[1] == sections_before[1]);
            assert(docks@[0].sections@[2] == sections_before[2]);
            assert(base[0].sections@[0].enabled && base[0].sections@[0].gap@ == "10px"@);
            assert(docks@[0].sections@[0].enabled && docks@[0].sections@[0].gap@ == "10px"@);
            assert forall|k: int| 0 <= k < 3 implies (#[trigger] docks@[0].sections@[k]).enabled
                && docks@[0].sections@[k].gap@ == "10px"@ by {
                if k > 0 {
                    assert(docks@[0].sections@[k] == sections_before[k]);
                }
            }
        }
        if old(docks)@.len() > 0 && old(docks)@[0].sections@.len() > 0 {
            assert(section_settings(docks@[0].sections@) =~= section_settings(old(docks)@[0].sections@));
            assert(island_lists(docks@[0].sections@) =~= island_lists(old(docks)@[0].sections@).update(
                0,
                old(docks)@[0].sections@[0].islands@.push(docks@[0].sections@[0].islands@.last()),
            ));
        }
    }
}


proof fn lemma_without_absent_island(islands: Seq<IslandEntry>, id: Seq<char>)
    requires
        forall|k: int| 0 <= k < islands.len() ==> (#[trigger] islands[k]).id@ != id,
    ensures
        without_island(islands, id) == islands,
    decreases islands.len(),
{
    if islands.len() > 0 {
        lemma_without_absent_island(islands.drop_last(), id);
        assert(islands.drop_last().push(islands.last()) =~= islands);
    }
}

/// Toggling an island that is placed nowhere and then toggling it again
/// leaves every section's islands as they were: the entry the first toggle
/// appends to the first section is exactly what the second toggle removes.
pub proof fn toggle_twice_restores_islands(docks: Seq<DockLayout>, added: IslandEntry, id: Seq<char>)
    requires
        !island_listed_in(docks, id),
        docks.len() > 0,
        docks[0].sections@.len() > 0,
        added.id@ == id,
    ensures
        ({
            let lists = dock_island_lists(docks);
            let toggled_on = lists.update(0, lists[0].update(0, lists[0][0].push(added)));
            toggled_on.map_values(
                |dock: Seq<Seq<IslandEntry>>| dock.map_values(|list: Seq<IslandEntry>| without_island(list, id)),
            ) == lists
        }),
{
    let lists = dock_island_lists(docks);
    let toggled_on = lists.update(0, lists[0].update(0, lists[0][0].push(added)));
    let removed = toggled_on.map_values(
        |dock: Seq<Seq<IslandEntry>>| dock.map_values(|list: Seq<IslandEntry>| without_island(list, id)),
    );
    assert forall|d: int| 0 <= d < lists.len() implies #[trigger] removed[d] == lists[d] by {
        assert forall|s: int| 0 <= s < lists[d].len() implies #[trigger] removed[d][s] == lists[d][s] by {
            let list = lists[d][s];
            assert(list == docks[d].sections@[s].islands@);
            assert forall|k: int| 0 <= k < list.len() implies (#[trigger] list[k]).id@ != id by {
                if list[k].id@ == id {
                    assert(docks[d].sections@[s].islands@[k].id@ == id);
                    assert(island_listed_in(docks, id));
                }
            }
            lemma_without_absent_island(list, id);
            if d == 0 && s == 0 {
                assert(list.push(added).drop_last() =~= list);
            }
        }
        assert(removed[d] =~= lists[d]);
    }
    assert(removed =~= lists);
}


/// Inserts an empty section before position `at` (at the end when `at` is
/// past the last section).
pub fn insert_section(sections: &mut Vec<SectionConfig>, at: usize)
    ensures
        ({
            let p = if at < old(sections)@.len() { at as int } else { old(sections)@.len() as int };
            &&& final(sections)@ == old(sections)@.insert(p, final(sections)@[p])
            &&& final(sections)@[p].enabled
            &&& final(sections)@[p].gap@ == "10px"@
            &&& final(sections)@[p].islands@.len() == 0
        }),
{
    let p = if at < sections.len() { at } else { sections.len() };
    sections.insert(p, SectionConfig::default());
}

/// Removes section `index` and its islands, when it exists.
pub fn remove_section(sections: &mut Vec<SectionConfig>, index: usize)
    ensures
        final(sections)@ == if index < old(sections)@.len() {
            old(sections)@.remove(index as int)
        } else {
            old(sections)@
        },
{
    if index < sections.len() {
        sections.remove(index);
    }
}

/// Exchanges section `index` with the one after it.
pub fn swap_with_next_section(sections: &mut Vec<SectionConfig>, index: usize)
    requires
        index + 1 < old(sections)@.len(),
    ensures
        final(sections)@ == old(sections)@.update(index as int, old(sections)@[index + 1]).update(
            index + 1,
            old(sections)@[index as int],
        ),
{
    let count = sections.len();
    assert(index + 1 < count);
    let section = sections.remove(index);
    sections.insert(index + 1, section);
    assert(sections@ =~= old(sections)@.update(index as int, old(sections)@[index + 1]).update(
        index + 1,
        old(sections)@[index as int],
    ));
}

/// Appends a fresh entry for island `id` to section `section_index`, when
/// that section exists.
pub fn add_island(sections: &mut Vec<SectionConfig>, section_index: usize, id: &str)
    ensures
        section_settings(final(sections)@) == section_settings(old(sections)@),
        section_index >= old(sections)@.len() ==> island_lists(final(sections)@) == island_lists(old(sections)@),
        section_index < old(sections)@.len() ==> {
            let added = final(sections)@[section_index as int].islands@.last();
            &&& is_new_entry(added, id@)
            &&& island_lists(final(sections)@) == island_lists(old(sections)@).update(
                section_index as int,
                old(sections)@[section_index as int].islands@.push(added),
            )
        },
{
    if section_index < sections.len() {
        let mut section = take_section(sections, section_index);
        section.islands.push(IslandEntry::with_id(id));
        sections.insert(section_index, section);
        assert(section_settings(sections@) =~= section_settings(old(sections)@));
        assert(island_lists(sections@) =~= island_lists(old(sections)@).update(
            section_index as int,
            old(sections)@[section_index as int].islands@.push(sections@[section_index as int].islands@.last()),
        ));
    }
}

/// Removes the island at `island_index` of section `section_index`, when
/// both exist.
pub fn remove_island(sections: &mut Vec<SectionConfig>, section_index: usize, island_index: usize)
    ensures
        section_settings(final(sections)@) == section_settings(old(sections)@),
        island_lists(final(sections)@) == if section_index < old(sections)@.len()
            && island_index < old(sections)@[section_index as int].islands@.len() {
            island_lists(old(sections)@).update(
                section_index as int,
                old(sections)@[section_index as int].islands@.remove(island_index as int),
            )
        } else {
            island_lists(old(sections)@)
        },
{
    if section_index < sections.len() {
        if island_index < sections[section_index].islands.len() {
            let mut section = take_section(sections, section_index);
            section.islands.remove(island_index);
            sections.insert(section_index, section);
            assert(section_settings(sections@) =~= section_settings(old(sections)@));
            assert(island_lists(sections@) =~= island_lists(old(sections)@).update(
                section_index as int,
                old(sections)@[section_index as int].islands@.remove(island_index as int),
            ));
        }
    }
}

} // verus!
