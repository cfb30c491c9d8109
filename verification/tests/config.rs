use boop::config::{
    AppEntry, Config, ConfigError, ReadError, config_path, default_apps_dir, default_apps_path,
    default_quest_minutes, strip_bom, touches_config, DEFAULT_QUEST_MINUTES,
};
use boop::lenient::{lenient_toml, parse_lenient};

/// Reads a configuration the way the application's serde types do: every
/// top-level key optional, with the library's defaults.
fn parse_config(text: &str) -> Result<Config, toml::de::Error> {
    let table: toml::Table = toml::from_str(text)?;
    let apps_dir = match table.get("apps_dir").and_then(|v| v.as_str()) {
        Some(dir) => dir.to_string(),
        None => default_apps_dir(),
    };
    let quest_minutes = match table.get("quest_minutes").and_then(|v| v.as_integer()) {
        Some(minutes) => minutes as u32,
        None => default_quest_minutes(),
    };
    let mut apps = Vec::new();
    if let Some(list) = table.get("apps").and_then(|v| v.as_array()) {
        for item in list {
            let entry = item.as_table().expect("app entries are tables");
            let text_of = |key: &str| entry.get(key).and_then(|v| v.as_str()).map(|s| s.to_string());
            apps.push(AppEntry {
                id: text_of("id").unwrap_or_default(),
                name: text_of("name").unwrap_or_default(),
                exe: text_of("exe").unwrap_or_default(),
                cwd: text_of("cwd"),
                args: Vec::new(),
            });
        }
    }
    Ok(Config::new(apps_dir, quest_minutes, apps, Vec::new()))
}

fn app(id: &str, name: &str) -> AppEntry {
    AppEntry {
        id: id.to_string(),
        name: name.to_string(),
        exe: format!("{id}.exe"),
        cwd: None,
        args: Vec::new(),
    }
}

#[test]
fn rescues_backslash_windows_path() {
    // the exact entry that failed for the user: backslashes in a basic string.
    let raw = "[[apps]]\nid = \"dna\"\nname = \"DNA\"\nexe = \"Duet Night Abyss\\EM-Win64-Shipping.exe\"\n";
    let config = parse_lenient(raw, parse_config).expect("lenient fallback should rescue the path");
    assert_eq!(config.apps[0].exe, r"Duet Night Abyss\EM-Win64-Shipping.exe");
}

#[test]
fn leaves_forward_slash_config_intact() {
    let raw = "[[apps]]\nid = \"x\"\nname = \"X\"\nexe = \"Win64/wwm.exe\"\n";
    let config = parse_lenient(raw, parse_config).expect("valid config parses strictly");
    assert_eq!(config.apps[0].exe, "Win64/wwm.exe");
}

#[test]
fn quest_minutes_defaults_when_omitted() {
    let config = parse_config("apps = []").unwrap();
    assert_eq!(config.quest_minutes, DEFAULT_QUEST_MINUTES);
}

#[test]
fn validate_rejects_zero_quest_minutes() {
    let config = parse_config("quest_minutes = 0\napps = []").unwrap();
    assert!(config.validate().is_err());
}

#[test]
fn defaults_are_apps_and_fifteen_minutes() {
    assert_eq!(default_apps_dir(), "apps");
    assert_eq!(default_quest_minutes(), 15);
}

#[test]
fn validate_accepts_unique_ids() {
    let config = Config::new("apps".to_string(), 30, vec![app("a", "A"), app("b", "B")], Vec::new());
    assert!(config.validate().is_ok());
}

#[test]
fn validate_reports_zero_minutes_before_bad_ids() {
    let config = Config::new("apps".to_string(), 0, vec![app(" ", "Blank")], Vec::new());
    assert!(matches!(config.validate(), Err(ConfigError::ZeroQuestMinutes)));
}

#[test]
fn validate_rejects_blank_id_naming_the_app() {
    let config = Config::new(
        "apps".to_string(),
        15,
        vec![app("a", "A"), app(" \t", "Blank One"), app("a", "Again")],
        Vec::new(),
    );
    match config.validate() {
        Err(ConfigError::EmptyId { name }) => assert_eq!(name, "Blank One"),
        _ => panic!("expected an empty id error"),
    }
}

#[test]
fn validate_rejects_duplicate_id() {
    let config = Config::new(
        "apps".to_string(),
        15,
        vec![app("a", "A"), app("b", "B"), app("a", "A again")],
        Vec::new(),
    );
    match config.validate() {
        Err(ConfigError::DuplicateId { id }) => assert_eq!(id, "a"),
        _ => panic!("expected a duplicate id error"),
    }
}

#[test]
fn validate_treats_no_break_space_id_as_blank() {
    let config = Config::new("apps".to_string(), 15, vec![app("\u{A0}\n", "Odd")], Vec::new());
    assert!(matches!(config.validate(), Err(ConfigError::EmptyId { .. })));
}

#[test]
fn read_strips_bom_records_root_and_validates() {
    let raw = "\u{feff}quest_minutes = 20\n[[apps]]\nid = \"x\"\nname = \"X\"\nexe = \"C:\\Games\\x.exe\"\n";
    let config = Config::read("/opt/boop", raw, parse_config).expect("reads");
    assert_eq!(config.root(), "/opt/boop");
    assert_eq!(config.quest_minutes, 20);
    assert_eq!(config.apps()[0].exe, "C:\\Games\\x.exe");
}

#[test]
fn read_reports_parse_error_of_strict_attempt() {
    let r = Config::read("/r", "apps = [", parse_config);
    assert!(matches!(r, Err(ReadError::Parse(_))));
}

#[test]
fn read_reports_invalid_config() {
    let r = Config::read("/r", "quest_minutes = 0", parse_config);
    assert!(matches!(r, Err(ReadError::Invalid(ConfigError::ZeroQuestMinutes))));
}

#[test]
fn strip_bom_drops_only_a_leading_mark() {
    assert_eq!(strip_bom("\u{feff}a"), "a");
    assert_eq!(strip_bom("a\u{feff}"), "a\u{feff}");
    assert_eq!(strip_bom(""), "");
}

#[test]
fn resolve_exe_joins_relative_paths() {
    let config = Config::read("/opt/boop", "[[apps]]\nid = \"x\"\nname = \"X\"\nexe = \"games/x\"\n", parse_config).unwrap();
    let entry = &config.apps()[0];
    assert_eq!(config.apps_dir_abs(), "/opt/boop/apps");
    assert_eq!(config.resolve_exe(entry), "/opt/boop/apps/games/x");
    assert_eq!(config.resolve_cwd(entry), Some("/opt/boop/apps/games".to_string()));
}

#[test]
fn resolve_exe_keeps_absolute_paths() {
    let config = Config::read(
        "/opt/boop",
        "[[apps]]\nid = \"x\"\nname = \"X\"\nexe = \"/usr/bin/x\"\ncwd = \"work\"\n",
        parse_config,
    )
    .unwrap();
    let entry = &config.apps()[0];
    assert_eq!(config.resolve_exe(entry), "/usr/bin/x");
    assert_eq!(config.resolve_cwd(entry), Some("/opt/boop/apps/work".to_string()));
}

#[test]
fn config_file_lives_in_the_root() {
    assert_eq!(config_path("/opt/boop"), "/opt/boop/config.toml");
    assert_eq!(default_apps_path("/opt/boop"), "/opt/boop/apps");
}

#[test]
fn touches_config_looks_at_the_file_name() {
    assert!(touches_config(&["/a/b.txt".to_string(), "/opt/boop/config.toml".to_string()]));
    assert!(!touches_config(&["/opt/boop/config.toml.bak".to_string()]));
    assert!(!touches_config(&[]));
}

#[test]
fn lenient_toml_is_stable_on_repaired_text() {
    let once = lenient_toml("exe = \"C:\\Games\\x.exe\" # \\E\nb = '''\\q'''\n");
    assert_eq!(once, "exe = \"C:\\\\Games\\\\x.exe\" # \\E\nb = '''\\q'''\n");
    assert_eq!(lenient_toml(&once), once);
}

#[test]
fn blank_ids_follow_char_is_whitespace() {
    for c in (0u32..=0x10FFFF).filter_map(char::from_u32) {
        let config = Config::new("apps".to_string(), 15, vec![app(&c.to_string(), "N")], Vec::new());
        let blank = matches!(config.validate(), Err(ConfigError::EmptyId { .. }));
        assert_eq!(blank, c.is_whitespace(), "char {:#x}", c as u32);
    }
}

#[test]
fn error_messages() {
    assert_eq!(ConfigError::ZeroQuestMinutes.message(), "quest_minutes must be at least 1");
    assert_eq!(
        ConfigError::EmptyId { name: "Foo".to_string() }.message(),
        "app 'Foo' has an empty id; every entry needs a unique id"
    );
    assert_eq!(
        ConfigError::DuplicateId { id: "x".to_string() }.message(),
        "duplicate app id 'x'; ids must be unique"
    );
}

#[test]
fn absolute_apps_dir_is_kept() {
    let config = Config::read("/opt/boop", "apps_dir = \"/srv/games\"", parse_config).unwrap();
    assert_eq!(config.apps_dir_abs(), "/srv/games");
}

#[test]
fn one_byte_order_mark_is_ignored() {
    let text = "quest_minutes = 9\n[[apps]]\nid = \"x\"\nname = \"X\"\nexe = \"x.exe\"\n";
    let marked = format!("\u{feff}{text}");
    let a = Config::read("/r", &marked, parse_config).unwrap();
    let b = Config::read("/r", text, parse_config).unwrap();
    assert_eq!(a.quest_minutes, b.quest_minutes);
    assert_eq!(a.apps()[0].exe, b.apps()[0].exe);
    assert_eq!(strip_bom(&format!("\u{feff}\u{feff}{text}")), marked);
}
