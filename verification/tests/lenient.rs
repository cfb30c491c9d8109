use boop::lenient::lenient_toml;

#[test]
fn preserves_valid_escapes_and_literal_strings() {
    // \t is a valid escape; single-quoted strings are literal -- both untouched.
    let input = "a = \"tab\\there\"\nb = 'C:\\raw\\path'\n";
    assert_eq!(lenient_toml(input), input);
}

#[test]
fn doubles_only_invalid_escapes() {
    assert_eq!(lenient_toml("\"a\\Eb\""), "\"a\\\\Eb\"");
}

#[test]
fn backslash_free_text_is_unchanged() {
    let input = "[[apps]]\nid = \"x\" # comment\nname = 'y'\n";
    assert_eq!(lenient_toml(input), input);
}

#[test]
fn escaped_quote_does_not_close_the_string() {
    assert_eq!(lenient_toml("\"a\\\"\\Z\""), "\"a\\\"\\\\Z\"");
}

#[test]
fn trailing_backslash_is_doubled() {
    assert_eq!(lenient_toml("\"abc\\"), "\"abc\\\\");
}

#[test]
fn multiline_strings_and_comments_are_verbatim() {
    let input = "a = \"\"\"x\\Ey\"\"\"\n# c:\\dir\nb = '''\\E'''";
    assert_eq!(lenient_toml(input), input);
}

#[test]
fn repair_only_inserts_backslashes() {
    let input = "a = \"C:\\Games\\Zed\\q.exe\"\nb = \"\\t\\x\" # \\y\n";
    let output = lenient_toml(input);
    assert_eq!(output, "a = \"C:\\\\Games\\\\Zed\\\\q.exe\"\nb = \"\\t\\\\x\" # \\y\n");
    let strip = |s: &str| s.chars().filter(|c| *c != '\\').collect::<String>();
    assert_eq!(strip(&output), strip(input));
}
