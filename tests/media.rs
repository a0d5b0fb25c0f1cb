use papdieo::media::{
    alternatives, is_supported_media, is_video_file, list_wallpapers, media_kind, needs_redraw,
    pick_next_wallpaper, pick_random_wallpaper, MediaKind, PickError,
};

fn strings(items: &[&str]) -> Vec<String> {
    items.iter().map(|s| s.to_string()).collect()
}

#[test]
fn supported_extensions_ignore_case() {
    assert!(is_supported_media("/walls/a.png"));
    assert!(is_supported_media("/walls/a.JPG"));
    assert!(is_supported_media("/walls/a.JpEg"));
    assert!(is_supported_media("/walls/a.webp"));
    assert!(is_supported_media("/walls/clip.MP4"));
    assert!(is_supported_media("/walls/clip.mkv"));
    assert!(is_supported_media("/walls/clip.webm"));
    assert!(is_supported_media("/walls/clip.mov"));
    assert!(is_supported_media("/walls/clip.avi"));
}

#[test]
fn unsupported_names_are_rejected() {
    assert!(!is_supported_media("/walls/notes.txt"));
    assert!(!is_supported_media("/walls/.png"));
    assert!(!is_supported_media("/walls/png"));
    assert!(!is_supported_media("/walls.png/readme"));
    assert!(!is_supported_media("/walls/a.png.bak"));
    assert!(!is_supported_media(""));
}

#[test]
fn media_kinds() {
    assert_eq!(media_kind("a.gif"), None);
    assert_eq!(media_kind("x/y.Jpg"), Some(MediaKind::Image));
    assert_eq!(media_kind("x/y.AVI"), Some(MediaKind::Video));
    assert!(is_video_file("/v/loop.webm"));
    assert!(!is_video_file("/v/still.webp"));
    assert!(!is_video_file("/v/noext"));
}

#[test]
fn listing_filters_and_sorts() {
    let files = strings(&["/w/c.png", "/w/readme.md", "/w/a.mp4", "/w/b.JPG", "/w/a.mp4"]);
    let listed = list_wallpapers(&files).unwrap();
    assert_eq!(listed, strings(&["/w/a.mp4", "/w/b.JPG", "/w/c.png"]));
}

#[test]
fn listing_sorts_bytewise() {
    let files = strings(&["/w/b.png", "/w/B.png", "/w/a.png", "/w/\u{e9}.png"]);
    let listed = list_wallpapers(&files).unwrap();
    assert_eq!(listed, strings(&["/w/B.png", "/w/a.png", "/w/b.png", "/w/\u{e9}.png"]));
}

#[test]
fn listing_without_media_fails() {
    assert_eq!(list_wallpapers(&strings(&["/w/a.txt"])), Err(PickError::NoWallpapers));
    assert_eq!(list_wallpapers(&Vec::new()), Err(PickError::NoWallpapers));
}

#[test]
fn next_pick_goes_round_robin() {
    let images = strings(&["/w/a.png", "/w/b.png", "/w/c.png"]);
    let mut last: Option<String> = None;
    let mut seen = Vec::new();
    for _ in 0..4 {
        let pick = pick_next_wallpaper(&images, last.as_deref()).unwrap();
        seen.push(pick.clone());
        last = Some(pick);
    }
    assert_eq!(seen, strings(&["/w/a.png", "/w/b.png", "/w/c.png", "/w/a.png"]));
}

#[test]
fn next_pick_trims_saved_state_and_restarts_on_unknown() {
    let images = strings(&["/w/a.png", "/w/b.png"]);
    assert_eq!(pick_next_wallpaper(&images, Some("/w/a.png\n")).unwrap(), "/w/b.png");
    assert_eq!(pick_next_wallpaper(&images, Some("/w/gone.png")).unwrap(), "/w/a.png");
    assert_eq!(pick_next_wallpaper(&Vec::new(), None), Err(PickError::NoWallpapers));
}

#[test]
fn random_pick_never_repeats_on_two_files() {
    let images = strings(&["/w/a.png", "/w/b.png"]);
    let mut last = pick_random_wallpaper(&images, None).unwrap();
    for _ in 0..1000 {
        let next = pick_random_wallpaper(&images, Some(&format!("{}\n", last))).unwrap();
        assert_ne!(next, last);
        assert!(images.contains(&next));
        last = next;
    }
}

#[test]
fn random_pick_with_one_file_repeats_it() {
    let images = strings(&["/w/only.png"]);
    assert_eq!(pick_random_wallpaper(&images, Some("/w/only.png")).unwrap(), "/w/only.png");
    assert_eq!(pick_random_wallpaper(&Vec::new(), None), Err(PickError::NoWallpapers));
}

#[test]
fn random_pick_stays_among_candidates() {
    let images = strings(&["/w/a.png", "/w/b.png", "/w/c.png"]);
    for _ in 0..100 {
        let p = pick_random_wallpaper(&images, Some("/w/b.png")).unwrap();
        assert!(p == "/w/a.png" || p == "/w/c.png");
    }
}

#[test]
fn redraw_and_alternatives() {
    let images = strings(&["/w/a.png", "/w/b.png", "/w/c.png"]);
    assert!(needs_redraw(&images, "/w/b.png", "/w/b.png"));
    assert!(!needs_redraw(&images, "/w/b.png", "/w/a.png"));
    assert!(!needs_redraw(&strings(&["/w/b.png"]), "/w/b.png", "/w/b.png"));
    assert_eq!(alternatives(&images, "/w/b.png"), strings(&["/w/a.png", "/w/c.png"]));
}

#[test]
fn saved_path_with_spaces_is_taken_as_written() {
    let images = strings(&["/w/a.png", "/w/b.png ", "/w/c.png"]);
    assert_eq!(pick_next_wallpaper(&images, Some("/w/b.png ")).unwrap(), "/w/c.png");
    assert_eq!(pick_next_wallpaper(&images, Some("/w/a.png\n")).unwrap(), "/w/b.png ");
    let pair = strings(&["/w/a ", "/w/b"]);
    let mut last = "/w/a ".to_string();
    for _ in 0..100 {
        let next = pick_random_wallpaper(&pair, Some(&last)).unwrap();
        assert_ne!(next, last);
        last = next;
    }
}

#[test]
fn saved_text_trims_unicode_white_space() {
    let images = strings(&["/w/a.png", "/w/b.png"]);
    assert_eq!(pick_next_wallpaper(&images, Some("\u{3000}/w/a.png\t\r\n")).unwrap(), "/w/b.png");
    assert_eq!(pick_next_wallpaper(&images, Some("\u{200b}/w/a.png")).unwrap(), "/w/a.png");
}

#[test]
fn trailing_separators_and_dot_components_are_ignored() {
    assert!(is_supported_media("a.png/"));
    assert!(is_supported_media("a.png//"));
    assert!(is_supported_media("a.png/."));
    assert!(is_supported_media("/w/a.png/./"));
    assert!(is_video_file("/w/clip.MP4/"));
    assert!(!is_supported_media("a.png/.."));
    assert!(!is_supported_media("."));
    assert!(!is_supported_media("/"));
    assert!(!is_supported_media("/w/.png/"));
}
