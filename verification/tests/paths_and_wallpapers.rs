use coconut::config::WallpaperMode;
use coconut::launcher::{desktop_item_kind, DesktopItemKind};
use coconut::paths::{is_icon_file, is_launcher_file, is_wallpaper_image};
use coconut::wallpaper::select_wallpaper;
use std::path::PathBuf;

#[test]
fn wallpaper_image_extensions_are_case_insensitive() {
    assert!(is_wallpaper_image("beach.PNG"));
    assert!(is_wallpaper_image("beach.jpeg"));
    assert!(!is_wallpaper_image("beach.gif"));
    assert!(!is_wallpaper_image("beach"));
}

#[test]
fn wallpaper_images_include_jpg_and_webp_only_by_extension() {
    assert!(is_wallpaper_image("/home/user/Pictures/sky.JPG"));
    assert!(is_wallpaper_image("dunes.webp"));
    assert!(!is_wallpaper_image("icon.svg"));
    assert!(!is_wallpaper_image(".png"));
}

#[test]
fn icon_files_also_accept_svg() {
    assert!(is_icon_file("firefox.svg"));
    assert!(is_icon_file("firefox.Png"));
    assert!(!is_icon_file("firefox"));
    assert!(!is_icon_file("notes.txt"));
}

#[test]
fn launcher_files_need_the_exact_desktop_extension() {
    assert!(is_launcher_file("/home/user/Desktop/editor.desktop"));
    assert!(!is_launcher_file("editor.DESKTOP"));
    assert!(!is_launcher_file("editor"));
}

#[test]
fn desktop_items_are_classified_by_name_and_kind() {
    assert_eq!(desktop_item_kind(".hidden", true), None);
    assert_eq!(desktop_item_kind(".config.desktop", false), None);
    assert_eq!(desktop_item_kind("Projects", true), Some(DesktopItemKind::Folder));
    assert_eq!(desktop_item_kind("editor.desktop", false), Some(DesktopItemKind::Launcher));
    assert_eq!(desktop_item_kind("notes.txt", false), Some(DesktopItemKind::File));
}

#[test]
fn choosing_a_wallpaper_moves_the_previous_one_to_the_front() {
    let mut wallpaper = Some(PathBuf::from("/pics/a.png"));
    let mut recent = vec![PathBuf::from("/pics/b.png"), PathBuf::from("/pics/c.png")];
    let mut mode = WallpaperMode::SolidColor;
    select_wallpaper(&mut wallpaper, &mut recent, &mut mode, PathBuf::from("/pics/d.png"));
    assert_eq!(wallpaper, Some(PathBuf::from("/pics/d.png")));
    assert_eq!(mode, WallpaperMode::Image);
    assert_eq!(recent, vec![PathBuf::from("/pics/a.png"), PathBuf::from("/pics/b.png")]);
}

#[test]
fn choosing_a_recent_wallpaper_removes_it_from_the_recents() {
    let mut wallpaper = Some(PathBuf::from("/pics/a.png"));
    let mut recent = vec![PathBuf::from("/pics/b.png"), PathBuf::from("/pics/a.png")];
    let mut mode = WallpaperMode::Image;
    select_wallpaper(&mut wallpaper, &mut recent, &mut mode, PathBuf::from("/pics/b.png"));
    assert_eq!(wallpaper, Some(PathBuf::from("/pics/b.png")));
    assert_eq!(recent, vec![PathBuf::from("/pics/a.png")]);
}

#[test]
fn choosing_the_current_wallpaper_again_keeps_the_recents() {
    let mut wallpaper = Some(PathBuf::from("/pics/a.png"));
    let mut recent = vec![PathBuf::from("/pics/b.png")];
    let mut mode = WallpaperMode::SolidColor;
    select_wallpaper(&mut wallpaper, &mut recent, &mut mode, PathBuf::from("/pics/a.png"));
    assert_eq!(recent, vec![PathBuf::from("/pics/b.png")]);
    assert_eq!(mode, WallpaperMode::Image);
}

#[test]
fn the_first_wallpaper_starts_an_empty_history() {
    let mut wallpaper = None;
    let mut recent = Vec::new();
    let mut mode = WallpaperMode::SolidColor;
    select_wallpaper(&mut wallpaper, &mut recent, &mut mode, PathBuf::from("/pics/a.png"));
    assert_eq!(wallpaper, Some(PathBuf::from("/pics/a.png")));
    assert!(recent.is_empty());
}
