use rustify::settings::{
    parse_env, parse_toml, read_theme, write_lastfm_session_key, write_lastfm_settings,
    write_theme, SettingsMap,
};

#[test]
fn parse_env_reads_pairs() {
    let m = parse_env("A=1\n# comment\n\n  B = two  \nnot a pair\nA=3\nC=x=y\n");
    assert_eq!(m.get("A"), Some("3".to_string()));
    assert_eq!(m.get("B"), Some("two".to_string()));
    assert_eq!(m.get("C"), Some("x=y".to_string()));
    assert_eq!(m.get("not a pair"), None);
    assert_eq!(m.render(false), "A=3\nB=two\nC=x=y\n");
}

#[test]
fn parse_env_empty_text() {
    let m = parse_env("");
    assert_eq!(m.render(false), "");
}

#[test]
fn parse_env_windows_line_ends() {
    let m = parse_env("A=1\r\nB=2\r\n");
    assert_eq!(m.get("A"), Some("1".to_string()));
    assert_eq!(m.get("B"), Some("2".to_string()));
}

#[test]
fn parse_toml_strips_quotes_and_stops_at_section() {
    let m = parse_toml("# settings\ntheme = \"Tokyo Night\"\nvolume = 3\n[extra]\ntheme = \"Nord\"\n");
    assert_eq!(m.get("theme"), Some("Tokyo Night".to_string()));
    assert_eq!(m.get("volume"), Some("3".to_string()));
    assert_eq!(m.render(true), "theme = \"Tokyo Night\"\nvolume = \"3\"\n");
}

#[test]
fn parse_toml_keeps_inner_blanks() {
    let m = parse_toml("k = \"  spaced \"\n");
    assert_eq!(m.get("k"), Some("  spaced ".to_string()));
}

#[test]
fn read_theme_finds_value() {
    assert_eq!(read_theme("theme = \"Ayu Dark\"\n"), Some("Ayu Dark".to_string()));
    assert_eq!(read_theme("other = \"x\"\n"), None);
    assert_eq!(read_theme(""), None);
}

#[test]
fn write_theme_keeps_other_keys_sorted() {
    let written = write_theme("zeta = \"1\"\nalpha = \"2\"\n", "Catppuccin Latte");
    assert_eq!(written, "alpha = \"2\"\ntheme = \"Catppuccin Latte\"\nzeta = \"1\"\n");
    assert_eq!(read_theme(&written), Some("Catppuccin Latte".to_string()));
}

#[test]
fn law_theme_write_then_read() {
    for config in ["", "theme = \"Nord\"\n", "[x]\n", "a = b\ntheme=old\n"] {
        let written = write_theme(config, "Tokyo Night");
        assert_eq!(read_theme(&written), Some("Tokyo Night".to_string()));
    }
}

#[test]
fn write_lastfm_settings_sets_three_keys() {
    let written = write_lastfm_settings("DISCORD_CLIENT_ID=42\nLASTFM_API_KEY=old\n", "key", "secret", "me");
    assert_eq!(
        written,
        "DISCORD_CLIENT_ID=42\nLASTFM_API_KEY=key\nLASTFM_API_SECRET=secret\nLASTFM_USERNAME=me\n"
    );
    let back = parse_env(&written);
    assert_eq!(back.get("LASTFM_API_KEY"), Some("key".to_string()));
    assert_eq!(back.get("LASTFM_API_SECRET"), Some("secret".to_string()));
    assert_eq!(back.get("LASTFM_USERNAME"), Some("me".to_string()));
    assert_eq!(back.get("DISCORD_CLIENT_ID"), Some("42".to_string()));
}

#[test]
fn write_session_key_keeps_the_rest() {
    let written = write_lastfm_session_key("LASTFM_USERNAME=me\n", "sk123");
    assert_eq!(written, "LASTFM_SESSION_KEY=sk123\nLASTFM_USERNAME=me\n");
    assert_eq!(parse_env(&written).get("LASTFM_SESSION_KEY"), Some("sk123".to_string()));
}

#[test]
fn law_read_write_read_env() {
    let text = "b = 2\n#x\na=1\n=empty key\n";
    let first = parse_env(text);
    let written = first.render(false);
    let second = parse_env(&written);
    assert_eq!(second.render(false), written);
    assert_eq!(second.get(""), Some("empty key".to_string()));
}

#[test]
fn law_read_write_read_toml() {
    let text = "= \"v\"\nname = a\"b\n";
    let first = parse_toml(text);
    let written = first.render(true);
    assert_eq!(parse_toml(&written).render(true), written);
    assert_eq!(parse_toml(&written).get(""), Some("v".to_string()));
}

#[test]
fn settings_map_insert_replaces() {
    let mut m = SettingsMap::new();
    m.insert("b".to_string(), "1".to_string());
    m.insert("a".to_string(), "2".to_string());
    m.insert("b".to_string(), "3".to_string());
    assert_eq!(m.get("b"), Some("3".to_string()));
    assert_eq!(m.render(false), "a=2\nb=3\n");
}

#[test]
fn law_toml_stops_at_section_values() {
    let a = "theme = \"Nord\"\nvolume = 3";
    let full = format!("{}\n{}\n{}", a, "  [first]", "theme = \"Ayu Dark\"\n[second]\nextra = \"1\"\n");
    assert_eq!(parse_toml(&full).render(true), parse_toml(a).render(true));
    assert_eq!(parse_toml(&full).get("extra"), None);
}
