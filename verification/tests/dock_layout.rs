use coconut::dock::{dock_window_size, shown_docks, DOCK_HEIGHT, DOCK_WIDTH};
use coconut::dock::{
    add_island, default_sections, dock_justify, edge_justify, effective_direction, insert_section,
    island_listed, island_present, move_island_down, move_island_up, ordered_islands, remove_island,
    remove_section, resolved_islands, section_justify, swap_with_next_section, toggle_island,
    unknown_island_ids, DockAlign, DockDirection, DockLayout, DockPosition, IslandEntry, SectionConfig,
    SectionJustify,
};

fn entry(id: &str, index: Option<u32>) -> IslandEntry {
    let mut entry = IslandEntry::with_id(id);
    entry.index = index;
    entry
}

fn section_with(ids: &[&str]) -> SectionConfig {
    let mut section = SectionConfig::default();
    for id in ids {
        section.islands.push(IslandEntry::with_id(id));
    }
    section
}

fn ids(section: &SectionConfig) -> Vec<&str> {
    section.islands.iter().map(|island| island.id.as_str()).collect()
}

fn dock_with(sections: Vec<SectionConfig>) -> DockLayout {
    DockLayout { enabled: true, sections }
}

fn strings(items: &[&str]) -> Vec<String> {
    items.iter().map(|item| item.to_string()).collect()
}

#[test]
fn section_justify_hugs_the_dock_edges() {
    assert_eq!(section_justify(true, false), SectionJustify::Start);
    assert_eq!(section_justify(false, true), SectionJustify::End);
    assert_eq!(section_justify(false, false), SectionJustify::Center);
    assert_eq!(section_justify(true, true), SectionJustify::Center);
}

#[test]
fn ordered_islands_falls_back_to_array_position() {
    let islands = vec![entry("a", None), entry("b", Some(0)), entry("c", None)];
    let ids: Vec<&str> = ordered_islands(&islands)
        .into_iter()
        .map(|entry| entry.id.as_str())
        .collect();
    assert_eq!(ids, vec!["a", "b", "c"]);
}

#[test]
fn ordered_islands_duplicate_index_falls_back_to_position() {
    let islands = vec![entry("first", Some(5)), entry("second", Some(5))];
    let ids: Vec<&str> = ordered_islands(&islands)
        .into_iter()
        .map(|entry| entry.id.as_str())
        .collect();
    assert_eq!(ids, vec!["first", "second"]);
}

#[test]
fn explicit_indices_reorder_islands() {
    let islands = vec![entry("late", Some(7)), entry("early", Some(1)), entry("plain", None)];
    let ids: Vec<&str> = ordered_islands(&islands)
        .into_iter()
        .map(|entry| entry.id.as_str())
        .collect();
    assert_eq!(ids, vec!["early", "plain", "late"]);
}

#[test]
fn default_dock_matches_legacy_three_section_layout() {
    let dock = DockLayout::standard();
    assert_eq!(DockPosition::default(), DockPosition::Bottom);
    assert_eq!(dock.sections.len(), 3);
    assert_eq!(ids(&dock.sections[0]), vec!["logo", "weather", "current_playing"]);
    assert_eq!(ids(&dock.sections[1]), vec!["app_launcher"]);
    assert_eq!(ids(&dock.sections[2]), vec!["control_center", "clock"]);
}

#[test]
fn default_sections_are_enabled_with_ten_pixel_gaps() {
    for section in default_sections() {
        assert!(section.enabled);
        assert_eq!(section.gap, "10px");
    }
}

#[test]
fn section_resolution_skips_unknown_but_allows_repeated_ids() {
    let known = strings(&["a", "b"]);
    let islands = vec![
        IslandEntry::with_id("a"),
        IslandEntry::with_id("unknown"),
        IslandEntry::with_id("a"),
    ];
    let resolved = resolved_islands(&islands, &known);
    assert_eq!(resolved.len(), 2);
    assert!(resolved.iter().all(|entry| entry.id == "a"));
}

#[test]
fn warn_unknown_islands_is_a_no_op_for_known_ids() {
    let known = strings(&["alpha", "beta"]);
    let docks = vec![dock_with(vec![section_with(&["alpha", "beta"])])];
    assert!(unknown_island_ids(&docks, &known).is_empty());
}

#[test]
fn warn_unknown_islands_flags_an_unregistered_id() {
    let known = strings(&["alpha"]);
    let docks = vec![dock_with(vec![section_with(&["alpha", "not_a_real_island"])])];
    assert_eq!(unknown_island_ids(&docks, &known), vec!["not_a_real_island".to_string()]);
}

#[test]
fn unknown_islands_are_reported_across_docks_in_order() {
    let known = strings(&["clock"]);
    let docks = vec![
        dock_with(vec![section_with(&["x", "clock"]), section_with(&["y"])]),
        DockLayout { enabled: false, sections: vec![section_with(&["x"])] },
    ];
    assert_eq!(
        unknown_island_ids(&docks, &known),
        vec!["x".to_string(), "y".to_string(), "x".to_string()]
    );
}

#[test]
fn vertical_docks_default_to_columns() {
    assert!(DockPosition::Left.is_vertical());
    assert!(DockPosition::Right.is_vertical());
    assert!(!DockPosition::Top.is_vertical());
    assert_eq!(effective_direction(None, DockPosition::Left), DockDirection::Column);
    assert_eq!(effective_direction(None, DockPosition::Bottom), DockDirection::Row);
    assert_eq!(effective_direction(Some(DockDirection::Row), DockPosition::Right), DockDirection::Row);
}

#[test]
fn docks_hug_their_screen_edge() {
    assert_eq!(edge_justify(DockPosition::Top), SectionJustify::End);
    assert_eq!(edge_justify(DockPosition::Left), SectionJustify::End);
    assert_eq!(edge_justify(DockPosition::Bottom), SectionJustify::Start);
    assert_eq!(edge_justify(DockPosition::Right), SectionJustify::Start);
    assert_eq!(dock_justify(DockAlign::default()), SectionJustify::Start);
    assert_eq!(dock_justify(DockAlign::Center), SectionJustify::Center);
    assert_eq!(dock_justify(DockAlign::End), SectionJustify::End);
}

#[test]
fn moving_an_island_up_within_a_section_swaps_it() {
    let mut sections = vec![section_with(&["a", "b", "c"])];
    move_island_up(&mut sections, 0, 2);
    assert_eq!(ids(&sections[0]), vec!["a", "c", "b"]);
    move_island_down(&mut sections, 0, 1);
    assert_eq!(ids(&sections[0]), vec!["a", "b", "c"]);
}

#[test]
fn moving_the_first_island_up_crosses_into_the_previous_section() {
    let mut sections = vec![section_with(&["a"]), section_with(&["b", "c"])];
    move_island_up(&mut sections, 1, 0);
    assert_eq!(ids(&sections[0]), vec!["a", "b"]);
    assert_eq!(ids(&sections[1]), vec!["c"]);
    move_island_down(&mut sections, 0, 1);
    assert_eq!(ids(&sections[0]), vec!["a"]);
    assert_eq!(ids(&sections[1]), vec!["b", "c"]);
}

#[test]
fn moving_past_the_dock_ends_changes_nothing() {
    let mut sections = vec![section_with(&["a", "b"])];
    move_island_up(&mut sections, 0, 0);
    assert_eq!(ids(&sections[0]), vec!["a", "b"]);
    move_island_down(&mut sections, 0, 1);
    assert_eq!(ids(&sections[0]), vec!["a", "b"]);
}

#[test]
fn hidden_docks_and_sections_do_not_show_islands() {
    let mut hidden_section = section_with(&["weather"]);
    hidden_section.enabled = false;
    let docks = vec![dock_with(vec![hidden_section, section_with(&["clock"])])];
    assert!(!island_present(&docks, "weather"));
    assert!(island_listed(&docks, "weather"));
    assert!(island_present(&docks, "clock"));
    let hidden_dock = vec![DockLayout { enabled: false, sections: vec![section_with(&["clock"])] }];
    assert!(!island_present(&hidden_dock, "clock"));
    assert!(island_listed(&hidden_dock, "clock"));
}

#[test]
fn toggling_an_island_twice_restores_the_docks() {
    let mut docks = vec![DockLayout::standard()];
    toggle_island(&mut docks, "clock");
    assert!(!island_listed(&docks, "clock"));
    toggle_island(&mut docks, "clock");
    assert!(island_listed(&docks, "clock"));
    assert_eq!(ids(&docks[0].sections[0]), vec!["logo", "weather", "current_playing", "clock"]);
    toggle_island(&mut docks, "clock");
    assert_eq!(ids(&docks[0].sections[0]), vec!["logo", "weather", "current_playing"]);
    assert_eq!(ids(&docks[0].sections[2]), vec!["control_center"]);
}

#[test]
fn toggling_an_island_on_without_docks_creates_one() {
    let mut docks: Vec<DockLayout> = Vec::new();
    toggle_island(&mut docks, "weather");
    assert!(island_listed(&docks, "weather"));
}

#[test]
fn section_editing_inserts_removes_and_swaps() {
    let mut sections = vec![section_with(&["a"]), section_with(&["b"])];
    insert_section(&mut sections, 1);
    assert_eq!(sections.len(), 3);
    assert!(sections[1].islands.is_empty());
    swap_with_next_section(&mut sections, 0);
    assert!(sections[0].islands.is_empty());
    assert_eq!(ids(&sections[1]), vec!["a"]);
    remove_section(&mut sections, 0);
    assert_eq!(sections.len(), 2);
    add_island(&mut sections, 1, "c");
    assert_eq!(ids(&sections[1]), vec!["b", "c"]);
    remove_island(&mut sections, 1, 0);
    assert_eq!(ids(&sections[1]), vec!["c"]);
    assert!(sections[1].islands[0].config.is_empty());
    assert!(sections[1].islands[0].index.is_none());
}

#[test]
fn only_enabled_docks_get_windows_sized_by_their_edge() {
    let docks = vec![
        DockLayout { enabled: false, sections: Vec::new() },
        DockLayout::standard(),
        DockLayout { enabled: true, sections: Vec::new() },
    ];
    assert_eq!(shown_docks(&docks), vec![1, 2]);
    assert!(shown_docks(&Vec::new()).is_empty());
    assert_eq!(dock_window_size(DockPosition::Left), (DOCK_WIDTH, 800));
    assert_eq!(dock_window_size(DockPosition::Bottom), (800, DOCK_HEIGHT));
    assert_eq!((DOCK_WIDTH, DOCK_HEIGHT), (52, 44));
}
