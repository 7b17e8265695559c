use memo::config::{
    config_location, effective_auto_sync, expand_path, parse_config, unquote, ConfigError,
    ConfigLocation, PathSetting,
};

#[test]
fn unquote_removes_one_matching_pair() {
    assert_eq!(unquote("\"~/til\""), "~/til");
    assert_eq!(unquote("'x'"), "x");
    assert_eq!(unquote("\"\""), "");
    assert_eq!(unquote("\"x'"), "\"x'");
    assert_eq!(unquote("\""), "\"");
    assert_eq!(unquote("plain"), "plain");
    assert_eq!(unquote("\"\"x\"\""), "\"x\"");
}

#[test]
fn expand_path_reads_home_forms() {
    assert!(matches!(expand_path("~", true), Ok(PathSetting::Home)));
    match expand_path("~/til", true) {
        Ok(PathSetting::UnderHome(rest)) => assert_eq!(rest, "til"),
        _ => panic!("expected a path below home"),
    }
    match expand_path("/srv/notes", false) {
        Ok(PathSetting::Plain(p)) => assert_eq!(p, "/srv/notes"),
        _ => panic!("expected a plain path"),
    }
    match expand_path("~user/x", true) {
        Ok(PathSetting::Plain(p)) => assert_eq!(p, "~user/x"),
        _ => panic!("expected a plain path"),
    }
    assert!(matches!(expand_path("~", false), Err(ConfigError::HomeNotSet)));
    assert!(matches!(expand_path("~/til", false), Err(ConfigError::HomeNotSet)));
}

#[test]
fn config_file_with_all_keys() {
    let text = "# memo\nrepo = \"~/til\"  # notes\n\nremote = 'git@example.com:me/til.git'\nenvironment = gpu003\nauto_sync = no\n";
    let config = parse_config(text, true).unwrap();
    match config.repo {
        PathSetting::UnderHome(rest) => assert_eq!(rest, "til"),
        _ => panic!("expected a path below home"),
    }
    assert_eq!(config.remote.as_deref(), Some("git@example.com:me/til.git"));
    assert_eq!(config.environment.as_deref(), Some("gpu003"));
    assert!(!config.auto_sync);
}

#[test]
fn metadata_script_is_a_key() {
    let config = parse_config("repo = \"/r\"\nmetadata_script = \"~/.config/memo/metadata.sh\"\n", true).unwrap();
    match config.repo {
        PathSetting::Plain(p) => assert_eq!(p, "/r"),
        _ => panic!("expected a plain path"),
    }
    match config.metadata_script {
        Some(PathSetting::UnderHome(rest)) => assert_eq!(rest, ".config/memo/metadata.sh"),
        _ => panic!("expected a script below home"),
    }
    assert!(config.auto_sync);
    assert!(matches!(parse_config("repo = /r\nmetadata_script = ~/m.sh\n", false), Err(ConfigError::HomeNotSet)));
    assert!(parse_config("repo = /r\n", true).unwrap().metadata_script.is_none());
}

#[test]
fn config_defaults_and_later_lines_win() {
    let config = parse_config("repo=/a\r\nrepo = /b\n", false).unwrap();
    match config.repo {
        PathSetting::Plain(p) => assert_eq!(p, "/b"),
        _ => panic!("expected a plain path"),
    }
    assert!(config.remote.is_none());
    assert!(config.environment.is_none());
    assert!(config.auto_sync);
}

#[test]
fn config_auto_sync_words() {
    for (word, on) in [("true", true), ("1", true), ("yes", true), ("false", false), ("0", false), ("no", false)] {
        let text = format!("repo = /r\nauto_sync = {word}\n");
        assert_eq!(parse_config(&text, false).unwrap().auto_sync, on);
    }
}

#[test]
fn config_errors() {
    assert!(matches!(parse_config("repo = /r\njust words\n", true), Err(ConfigError::InvalidLine(2))));
    assert!(matches!(parse_config("repo = /r\n\nauto_sync = maybe", true), Err(ConfigError::InvalidAutoSync(3))));
    match parse_config("repo = /r\n colour = blue \n", true) {
        Err(ConfigError::UnknownKey(key)) => assert_eq!(key, "colour"),
        _ => panic!("expected an unknown key"),
    }
    assert!(matches!(parse_config("# nothing\n", true), Err(ConfigError::MissingRepo)));
    assert!(matches!(parse_config("", true), Err(ConfigError::MissingRepo)));
    assert!(matches!(parse_config("repo = ~/til\nbad line\n", false), Err(ConfigError::HomeNotSet)));
    assert!(matches!(parse_config("bad line\nrepo = ~/til\n", false), Err(ConfigError::InvalidLine(1))));
}

#[test]
fn comment_only_lines_leave_settings_unchanged() {
    let with = parse_config("#x = y\nrepo = /r\n   # also a comment\n", true).unwrap();
    assert!(with.auto_sync);
    assert!(with.remote.is_none());
}

#[test]
fn auto_sync_override() {
    assert!(effective_auto_sync(false, Some("1")));
    assert!(effective_auto_sync(false, Some("yes")));
    assert!(!effective_auto_sync(true, Some("0")));
    assert!(!effective_auto_sync(true, Some("on")));
    assert!(effective_auto_sync(true, None));
    assert!(!effective_auto_sync(false, None));
}

#[test]
fn config_location_order() {
    assert_eq!(config_location(true, true, true), ConfigLocation::Explicit);
    assert_eq!(config_location(false, true, true), ConfigLocation::XdgConfigHome);
    assert_eq!(config_location(false, false, true), ConfigLocation::HomeConfig);
    assert_eq!(config_location(false, false, false), ConfigLocation::WorkingDir);
}
