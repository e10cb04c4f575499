use coconut::icon_theme::{inherited_themes, resolve_icon, IconIndex, ThemeWalk};
use coconut::order::{label_order, sorted_unique, text_less};
use std::path::PathBuf;

#[test]
fn the_first_file_added_for_a_name_wins() {
    let mut index = IconIndex::new();
    index.add("Firefox", PathBuf::from("/a/firefox.png"));
    index.add("firefox", PathBuf::from("/b/firefox.svg"));
    assert_eq!(index.len(), 1);
    assert_eq!(index.get("firefox"), Some(&PathBuf::from("/a/firefox.png")));
    assert!(index.get("Firefox").is_none());
    assert!(index.contains_key("firefox"));
}

#[test]
fn icon_values_resolve_through_the_index_by_stem() {
    let mut index = IconIndex::new();
    index.add("editor", PathBuf::from("/icons/editor.png"));
    assert_eq!(resolve_icon("Editor", false, &index), Some(PathBuf::from("/icons/editor.png")));
    assert_eq!(resolve_icon("/opt/app/editor.svg", false, &index), Some(PathBuf::from("/icons/editor.png")));
    assert_eq!(resolve_icon("/opt/app/editor.svg", true, &index), Some(PathBuf::from("/opt/app/editor.svg")));
    assert_eq!(resolve_icon("missing", false, &index), None);
    assert_eq!(resolve_icon("/opt/app/editor.txt", true, &index), Some(PathBuf::from("/icons/editor.png")));
    assert_eq!(resolve_icon("/opt/app/other.txt", true, &index), None);
}

#[test]
fn index_theme_files_list_inherited_themes() {
    assert_eq!(inherited_themes("[Icon Theme]\nName=Mine\nInherits=breeze, ,hicolor\n"), vec!["breeze", "hicolor"]);
    assert_eq!(inherited_themes("  Inherits=a\nInherits=b,c\n"), vec!["a", "b", "c"]);
    assert!(inherited_themes("Name=Plain\n").is_empty());
}

#[test]
fn selected_theme_inherits_before_hicolor() {
    let mut walk = ThemeWalk::new("selected");
    let mut index = IconIndex::new();
    assert_eq!(walk.next_theme(), Some("selected".to_owned()));
    walk.found(inherited_themes("Inherits=parent\n"));
    assert_eq!(walk.next_theme(), Some("parent".to_owned()));
    index.add("shared", PathBuf::from("icons/parent/48x48/apps/shared.png"));
    walk.found(Vec::new());
    assert_eq!(walk.next_theme(), Some("hicolor".to_owned()));
    index.add("shared", PathBuf::from("icons/hicolor/48x48/apps/shared.png"));
    index.add("fallback", PathBuf::from("icons/hicolor/48x48/apps/fallback.png"));
    walk.found(Vec::new());
    assert_eq!(walk.next_theme(), None);
    assert_eq!(index.get("shared"), Some(&PathBuf::from("icons/parent/48x48/apps/shared.png")));
    assert_eq!(index.get("fallback"), Some(&PathBuf::from("icons/hicolor/48x48/apps/fallback.png")));
}

#[test]
fn theme_walks_visit_each_theme_once_depth_first() {
    let mut walk = ThemeWalk::new("a");
    assert_eq!(walk.next_theme(), Some("a".to_owned()));
    walk.found(vec!["b".to_owned(), "c".to_owned()]);
    assert_eq!(walk.next_theme(), Some("b".to_owned()));
    walk.found(vec!["a".to_owned(), "d".to_owned()]);
    assert_eq!(walk.next_theme(), Some("d".to_owned()));
    walk.found(vec!["hicolor".to_owned()]);
    assert_eq!(walk.next_theme(), Some("hicolor".to_owned()));
    assert_eq!(walk.next_theme(), Some("c".to_owned()));
    assert_eq!(walk.next_theme(), None);
    let mut only = ThemeWalk::new("hicolor");
    assert_eq!(only.next_theme(), Some("hicolor".to_owned()));
    assert_eq!(only.next_theme(), None);
}

#[test]
fn text_order_is_by_code_point_then_length() {
    let a: Vec<char> = "abc".chars().collect();
    let b: Vec<char> = "abd".chars().collect();
    let prefix: Vec<char> = "ab".chars().collect();
    let upper: Vec<char> = "Z".chars().collect();
    assert!(text_less(&a, &b));
    assert!(!text_less(&b, &a));
    assert!(text_less(&prefix, &a));
    assert!(!text_less(&a, &a));
    assert!(text_less(&upper, &a));
}

#[test]
fn desktop_labels_sort_ignoring_case_and_keep_ties_in_place() {
    let labels: Vec<String> = ["beta", "Alpha", "alpha", "Gamma"].iter().map(|s| s.to_string()).collect();
    assert_eq!(label_order(&labels), vec![1, 2, 0, 3]);
    assert!(label_order(&Vec::new()).is_empty());
}

#[test]
fn pack_names_come_out_sorted_without_duplicates() {
    let names: Vec<String> = ["breeze", "Adwaita", "breeze", "hicolor", "Adwaita"].iter().map(|s| s.to_string()).collect();
    assert_eq!(sorted_unique(names), vec!["Adwaita", "breeze", "hicolor"]);
    assert!(sorted_unique(Vec::new()).is_empty());
}

#[test]
fn icon_files_are_indexed_by_lower_cased_stem() {
    let mut index = IconIndex::new();
    index.add_icon_file("Firefox.SVG", PathBuf::from("/a/Firefox.SVG"));
    index.add_icon_file("readme.txt", PathBuf::from("/a/readme.txt"));
    index.add_icon_file("firefox.png", PathBuf::from("/b/firefox.png"));
    assert_eq!(index.len(), 1);
    assert_eq!(index.get("firefox"), Some(&PathBuf::from("/a/Firefox.SVG")));
    assert!(!index.contains_key("readme"));
}
