use boop::assets::assets_under;
use boop::paths::{highest_missing_dir, resolve};
use boop::platform::wide;

#[test]
fn wide_is_nul_terminated_utf16() {
    assert_eq!(wide(""), vec![0]);
    assert_eq!(wide("Ab"), vec![0x41, 0x62, 0]);
    assert_eq!(wide("é€"), vec![0xE9, 0x20AC, 0]);
    assert_eq!(wide("😀"), vec![0xD83D, 0xDE00, 0]);
    let text = "boop 😀 ü";
    let mut expected: Vec<u16> = text.encode_utf16().collect();
    expected.push(0);
    assert_eq!(wide(text), expected);
}

#[test]
fn assets_under_filters_by_prefix() {
    let names = vec![
        "icons/play.svg".to_string(),
        "fonts/Nunito.ttf".to_string(),
        "icons/pause.svg".to_string(),
    ];
    assert_eq!(assets_under(&names, "icons/"), vec!["icons/play.svg".to_string(), "icons/pause.svg".to_string()]);
    assert_eq!(assets_under(&names, ""), names);
    assert!(assets_under(&names, "sounds").is_empty());
}

#[test]
fn resolve_keeps_absolute_and_joins_relative() {
    assert_eq!(resolve("/base", "/abs/x"), "/abs/x");
    assert_eq!(resolve("/base", "rel/x"), "/base/rel/x");
}

#[test]
fn highest_missing_dir_climbs_to_the_first_present_parent() {
    let present = |p: &str| p == "/games" || p == "/";
    assert_eq!(highest_missing_dir("/games/a/b", present), Some("/games/a".to_string()));
    assert_eq!(highest_missing_dir("/games", present), None);
    let nothing = |_: &str| false;
    assert_eq!(highest_missing_dir("a/b", nothing), Some("a".to_string()));
    assert_eq!(highest_missing_dir("/x", nothing), Some("/".to_string()));
}

#[test]
fn highest_missing_dir_stops_below_existing_dirs() {
    let present = |p: &str| p == "/" || p == "/a";
    assert_eq!(highest_missing_dir("/a/b/c", present), Some("/a/b".to_string()));
    let only_root = |p: &str| p == "/";
    assert_eq!(highest_missing_dir("x/y", only_root), Some("x".to_string()));
}
