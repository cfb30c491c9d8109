use boop::config::{AppEntry, Config};
use boop::hub::{
    find_app, format_runtime, initial, list_contents, matching_apps, on_search_key, search_display,
    should_redraw, status_line,
    toggle, update_notice, IconName, ListContents, Toggle,
};

fn app(id: &str, name: &str) -> AppEntry {
    AppEntry {
        id: id.to_string(),
        name: name.to_string(),
        exe: format!("{id}/{id}.exe"),
        cwd: None,
        args: Vec::new(),
    }
}

#[test]
fn backspace_and_escape_edit_the_search() {
    let mut q = String::from("abc");
    on_search_key(&mut q, "backspace", None);
    assert_eq!(q, "ab");
    on_search_key(&mut q, "x", Some("x"));
    assert_eq!(q, "abx");
    on_search_key(&mut q, "backspace", None);
    assert_eq!(q, "ab");
    on_search_key(&mut q, "escape", None);
    assert_eq!(q, "");
    on_search_key(&mut q, "backspace", None);
    assert_eq!(q, "");
}

#[test]
fn control_text_and_keys_without_text_are_ignored() {
    let mut q = String::from("a");
    on_search_key(&mut q, "tab", Some("\t"));
    assert_eq!(q, "a");
    on_search_key(&mut q, "shift", None);
    assert_eq!(q, "a");
    on_search_key(&mut q, "space", Some(" "));
    assert_eq!(q, "a ");
    on_search_key(&mut q, "ü", Some("ü"));
    assert_eq!(q, "a ü");
}

#[test]
fn runtime_formats() {
    assert_eq!(format_runtime(0), "0:00");
    assert_eq!(format_runtime(59), "0:59");
    assert_eq!(format_runtime(61), "1:01");
    assert_eq!(format_runtime(3599), "59:59");
    assert_eq!(format_runtime(3600), "1:00:00");
    assert_eq!(format_runtime(3 * 3600 + 7 * 60 + 5), "3:07:05");
    assert_eq!(format_runtime(100 * 3600), "100:00:00");
}

#[test]
fn status_line_prefers_error_then_uptime() {
    assert_eq!(status_line(Some("boom"), Some(5)), "! boom");
    assert_eq!(status_line(None, Some(65)), "Uptime  1:05");
    assert_eq!(status_line(None, None), "Idle");
}

#[test]
fn search_matches_lowercased_names() {
    let apps = vec![app("a", "Genshin Impact"), app("b", "Honkai"), app("c", "IMPACT Zero")];
    assert_eq!(matching_apps(&apps, "  impact "), vec![0, 2]);
    assert_eq!(matching_apps(&apps, ""), vec![0, 1, 2]);
    assert_eq!(matching_apps(&apps, "   "), vec![0, 1, 2]);
    assert_eq!(matching_apps(&apps, "zzz"), Vec::<usize>::new());
}

#[test]
fn list_contents_messages() {
    let none: Vec<AppEntry> = Vec::new();
    match list_contents(&none, "x") {
        ListContents::Message(m) => assert_eq!(m, "No apps yet. Add them in config.toml."),
        _ => panic!("expected a message"),
    }
    let apps = vec![app("a", "Alpha")];
    match list_contents(&apps, "zz") {
        ListContents::Message(m) => assert_eq!(m, "No apps match 'zz'"),
        _ => panic!("expected a message"),
    }
    match list_contents(&apps, "ALP") {
        ListContents::Rows(rows) => assert_eq!(rows, vec![0]),
        _ => panic!("expected rows"),
    }
}

#[test]
fn find_app_takes_the_first_match() {
    let apps = vec![app("a", "A"), app("b", "B"), app("b", "B2")];
    assert_eq!(find_app(&apps, "b"), Some(1));
    assert_eq!(find_app(&apps, "c"), None);
}

#[test]
fn badge_letter() {
    assert_eq!(initial("genshin"), 'G');
    assert_eq!(initial("Zenless"), 'Z');
    assert_eq!(initial("ärger"), 'ä');
    assert_eq!(initial("9lives"), '9');
    assert_eq!(initial(""), '?');
}

#[test]
fn toggle_stops_the_running_app_and_launches_others() {
    let config = Config::new("/games".to_string(), 15, vec![app("a", "A")], Vec::new());
    let entry = &config.apps()[0];
    assert!(matches!(toggle(&config, entry, Some("a")), Toggle::Stop));
    match toggle(&config, entry, Some("b")) {
        Toggle::Launch { exe, cwd } => {
            assert_eq!(exe, "/games/a/a.exe");
            assert_eq!(cwd, Some("/games/a".to_string()));
        }
        Toggle::Stop => panic!("expected a launch"),
    }
    assert!(matches!(toggle(&config, entry, None), Toggle::Launch { .. }));
}

#[test]
fn icons_and_notice() {
    assert_eq!(IconName::Play.path(), "icons/play.svg");
    assert_eq!(IconName::Pause.path(), "icons/pause.svg");
    assert_eq!(IconName::Search.path(), "icons/search.svg");
    assert_eq!(IconName::for_button(true), IconName::Pause);
    assert_eq!(IconName::for_button(false), IconName::Play);
    assert_eq!(update_notice("1.2.0"), "Update available: v1.2.0");
}

#[test]
fn redraw_and_search_box() {
    assert!(!should_redraw(false, false, false));
    assert!(should_redraw(true, false, false));
    assert!(should_redraw(false, true, false));
    assert!(should_redraw(false, false, true));
    assert_eq!(search_display(""), ("Search".to_string(), true));
    assert_eq!(search_display("gen"), ("gen".to_string(), false));
}
