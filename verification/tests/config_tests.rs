use red::config::{Config, LogRotateConfig};
use red::text::{str_eq, trim};
use red::toml_doc::{lookup, parse_document, render_document, TomlValue};

fn default_canonical() -> String {
    Config::default().to_canonical_string()
}

#[test]
fn test_fresh_config_creation() {
    let cfg = Config::default();
    assert_eq!(cfg.red.token, "placeholder_token");
    assert_eq!(cfg.red.shards, 1);
    let contents = default_canonical();
    assert!(contents.contains("placeholder_token"));
}

#[test]
fn default_canonical_text_is_exact() {
    let expected = "[red]\ntoken = \"placeholder_token\"\nshards = 1\n\n[logging]\nlog_level = \"info\"\ndirectory = \"logs\"\nextra_logs = true\n\n[logrotate]\nfrequency = \"7d\"\nrotation_time = \"00:00\"\n\n[debug]\nenable_debug = false\ndebug_server_id = \"000000000000000000\"\n\n";
    assert_eq!(default_canonical(), expected);
}

#[test]
fn test_extra_top_level_removal() {
    let text = format!("{}\n[extra_section]\nk = \"should_remove\"\n", default_canonical());
    let outcome = Config::load_from_text(&text);
    assert_eq!(outcome.config.red.token, "placeholder_token");
    assert_eq!(outcome.config.red.shards, 1);
    assert!(!outcome.canonical.contains("extra_section"));
    assert!(!outcome.canonical.contains("should_remove"));
}

#[test]
fn test_missing_field_addition() {
    let text = "[red]\nshards = 4\n";
    let outcome = Config::load_from_text(text);
    assert_eq!(outcome.config.red.token, "placeholder_token");
    assert_eq!(outcome.config.red.shards, 4);
    assert!(outcome.canonical.contains("placeholder_token"));
}

#[test]
fn test_invalid_field_type_correction() {
    let text = "[red]\ntoken = \"x\"\nshards = \"invalid_type\"\n";
    let outcome = Config::load_from_text(text);
    assert_eq!(outcome.config.red.shards, 1);
    assert!(outcome.canonical.contains("shards = 1"));
}

#[test]
fn unknown_key_removal() {
    let text = "[red]\ntoken=\"x\"\nshards=2\nbogus=3\n[weird]\nk=1\n";
    let outcome = Config::load_from_text(text);
    assert_eq!(outcome.config.red.token, "x");
    assert_eq!(outcome.config.red.shards, 2);
    assert!(!outcome.canonical.contains("bogus"));
    assert!(!outcome.canonical.contains("weird"));
    let expected = "[red]\ntoken = \"x\"\nshards = 2\n\n[logging]\nlog_level = \"info\"\ndirectory = \"logs\"\nextra_logs = true\n\n[logrotate]\nfrequency = \"7d\"\nrotation_time = \"00:00\"\n\n[debug]\nenable_debug = false\ndebug_server_id = \"000000000000000000\"\n\n";
    assert_eq!(outcome.canonical, expected);
}

#[test]
fn bad_rotation_time_repair() {
    let text = "[logrotate]\nrotation_time = \"25:61\"\n";
    let outcome = Config::load_from_text(text);
    assert_eq!(outcome.config.logrotate.rotation_time, "00:00");
    assert_eq!(outcome.warnings.len(), 1);
    assert!(outcome.warnings[0].contains("rotation_time"));
    assert!(outcome.warnings[0].contains("25:61"));
    assert!(outcome.canonical.contains("rotation_time = \"00:00\""));
}

#[test]
fn bad_fields_each_warn_and_reset() {
    let text = "[logging]\nlog_level = \"loud\"\n[logrotate]\nfrequency = \"sometimes\"\n[debug]\ndebug_server_id = \"abc\"\n";
    let outcome = Config::load_from_text(text);
    assert_eq!(outcome.config.logging.log_level, "info");
    assert_eq!(outcome.config.logrotate.frequency, "7d");
    assert_eq!(outcome.config.debug.debug_server_id, "000000000000000000");
    assert_eq!(outcome.warnings.len(), 3);
    assert!(outcome.warnings[0].contains("log_level"));
    assert!(outcome.warnings[0].contains("loud"));
    assert!(outcome.warnings[1].contains("frequency"));
    assert!(outcome.warnings[2].contains("debug_server_id"));
}

#[test]
fn malformed_document_warns_and_defaults() {
    let text = "this is not a config at all";
    let outcome = Config::load_from_text(text);
    assert_eq!(outcome.config.red.token, "placeholder_token");
    assert_eq!(outcome.warnings.len(), 1);
    assert!(outcome.warnings[0].contains("Failed to parse"));
    assert_eq!(outcome.canonical, default_canonical());
}

#[test]
fn valid_values_are_preserved() {
    let text = "[red]\ntoken = \"real\"\nshards = 3\n\n[logging]\nlog_level = \"DEBUG\"\ndirectory = \"mylogs\"\nextra_logs = false\n\n[logrotate]\nfrequency = \"14d\"\nrotation_time = \"03:30\"\n\n[debug]\nenable_debug = true\ndebug_server_id = \"42\"\n";
    let outcome = Config::load_from_text(text);
    assert_eq!(outcome.config.red.token, "real");
    assert_eq!(outcome.config.red.shards, 3);
    assert_eq!(outcome.config.logging.log_level, "DEBUG");
    assert_eq!(outcome.config.logging.directory, "mylogs");
    assert!(!outcome.config.logging.extra_logs);
    assert_eq!(outcome.config.logrotate.frequency, "14d");
    assert_eq!(outcome.config.logrotate.rotation_time, "03:30");
    assert!(outcome.config.debug.enable_debug);
    assert_eq!(outcome.config.debug.debug_server_id, "42");
    assert_eq!(outcome.warnings.len(), 0);
}

#[test]
fn round_trip_default() {
    let outcome = Config::load_from_text(&default_canonical());
    assert_eq!(outcome.config.red.token, "placeholder_token");
    assert_eq!(outcome.config.red.shards, 1);
    assert_eq!(outcome.config.logging.log_level, "info");
    assert_eq!(outcome.config.logging.directory, "logs");
    assert!(outcome.config.logging.extra_logs);
    assert_eq!(outcome.config.logrotate.frequency, "7d");
    assert_eq!(outcome.config.logrotate.rotation_time, "00:00");
    assert!(!outcome.config.debug.enable_debug);
    assert_eq!(outcome.config.debug.debug_server_id, "000000000000000000");
    assert_eq!(outcome.warnings.len(), 0);
    assert_eq!(outcome.canonical, default_canonical());
}

#[test]
fn second_load_is_byte_identical() {
    let texts = [
        "[red]\ntoken=\"x\"\nshards=2\nbogus=3\n[weird]\nk=1\n",
        "garbage",
        "",
        "[logrotate]\nrotation_time = \"25:61\"\nfrequency = \"99d\"\n",
        "token = \"top level\"\n[red]\nshards = -4\n",
    ];
    for text in texts {
        let first = Config::load_from_text(text);
        let second = Config::load_from_text(&first.canonical);
        assert_eq!(second.canonical, first.canonical);
        assert_eq!(second.warnings.len(), 0);
    }
}

#[test]
fn config_new_takes_token_and_shards() {
    let cfg = Config::new("real".to_string(), 5);
    assert_eq!(cfg.red.token, "real");
    assert_eq!(cfg.red.shards, 5);
    assert_eq!(cfg.logging.log_level, "info");
    let reloaded = Config::load_from_text(&cfg.to_canonical_string());
    assert_eq!(reloaded.config.red.token, "real");
    assert_eq!(reloaded.config.red.shards, 5);
}

#[test]
fn parse_frequency_forms() {
    let mk = |f: &str| LogRotateConfig {
        frequency: f.to_string(),
        rotation_time: "00:00".to_string(),
    };
    assert_eq!(mk("7d").parse_frequency(), 7);
    assert_eq!(mk(" 14d ").parse_frequency(), 14);
    assert_eq!(mk("5").parse_frequency(), 5);
    assert_eq!(mk("5h").parse_frequency(), 7);
    assert_eq!(mk("abc").parse_frequency(), 7);
    assert_eq!(mk("").parse_frequency(), 7);
    assert_eq!(mk("d").parse_frequency(), 7);
    assert_eq!(mk("99999999999999999999d").parse_frequency(), 7);
}

#[test]
fn parse_frequency_is_never_zero() {
    let mk = |f: &str| LogRotateConfig {
        frequency: f.to_string(),
        rotation_time: "00:00".to_string(),
    };
    assert_eq!(mk("0d").parse_frequency(), 7);
    assert_eq!(mk("0").parse_frequency(), 7);
    assert_eq!(mk("00d").parse_frequency(), 7);
    assert_eq!(mk("1d").parse_frequency(), 1);
    assert_eq!(mk("01d").parse_frequency(), 1);
}

#[test]
fn validators_accept_and_reject() {
    assert!(red::config::is_valid_frequency("7d"));
    assert!(red::config::is_valid_frequency("12h"));
    assert!(red::config::is_valid_frequency("30m"));
    assert!(!red::config::is_valid_frequency("7"));
    assert!(!red::config::is_valid_frequency("d"));
    assert!(!red::config::is_valid_frequency("7x"));
    assert!(red::config::is_valid_rotation_time("00:00"));
    assert!(red::config::is_valid_rotation_time("23:59"));
    assert!(!red::config::is_valid_rotation_time("24:00"));
    assert!(!red::config::is_valid_rotation_time("00:60"));
    assert!(!red::config::is_valid_rotation_time("25:61"));
    assert!(!red::config::is_valid_rotation_time("0:00"));
    assert!(!red::config::is_valid_rotation_time("+1:00"));
    assert!(red::config::is_valid_numeric("000000000000000000"));
    assert!(red::config::is_valid_numeric("42"));
    assert!(!red::config::is_valid_numeric(""));
    assert!(!red::config::is_valid_numeric("4a"));
    assert!(red::config::is_valid_log_level("INFO"));
    assert!(red::config::is_valid_log_level("trace"));
    assert!(red::config::is_valid_log_level("Warn"));
    assert!(!red::config::is_valid_log_level("loud"));
}

#[test]
fn negative_shards_take_default() {
    let outcome = Config::load_from_text("[red]\nshards = -2\n");
    assert_eq!(outcome.config.red.shards, 1);
}

#[test]
fn warning_message_is_exact() {
    let outcome = Config::load_from_text("[logrotate]\nrotation_time = \"25:61\"\n");
    assert_eq!(
        outcome.warnings[0],
        "Invalid 'rotation_time' '25:61'. Resetting to default '00:00'."
    );
}

#[test]
fn check_field_resets_only_invalid_values() {
    let mut field = "15d".to_string();
    let w = red::config::check_field(&mut field, "7d", "frequency", red::config::FieldValidator::Frequency);
    assert!(w.is_none());
    assert_eq!(field, "15d");
    let mut field = "soon".to_string();
    let w = red::config::check_field(&mut field, "7d", "frequency", red::config::FieldValidator::Frequency);
    assert_eq!(w.unwrap(), "Invalid 'frequency' 'soon'. Resetting to default '7d'.");
    assert_eq!(field, "7d");
}

#[test]
fn validate_mut_repairs_in_place() {
    let mut cfg = Config::default();
    cfg.logging.log_level = "noisy".to_string();
    cfg.debug.debug_server_id = "not a number".to_string();
    let warnings = cfg.validate_mut();
    assert_eq!(cfg.logging.log_level, "info");
    assert_eq!(cfg.debug.debug_server_id, "000000000000000000");
    assert_eq!(warnings.len(), 2);
    let warnings2 = cfg.validate_mut();
    assert_eq!(warnings2.len(), 0);
}

#[test]
fn document_parse_and_lookup() {
    let doc = parse_document("# a comment\n[red]\ntoken = \"abc\"\nshards = 2\nfast = true\n").unwrap();
    match lookup(&doc, "red", "token") {
        Some(TomlValue::S(s)) => assert_eq!(s, "abc"),
        _ => panic!("token not found"),
    }
    match lookup(&doc, "red", "shards") {
        Some(TomlValue::I(i)) => assert_eq!(*i, 2),
        _ => panic!("shards not found"),
    }
    match lookup(&doc, "red", "fast") {
        Some(TomlValue::B(b)) => assert!(*b),
        _ => panic!("fast not found"),
    }
    assert!(lookup(&doc, "red", "missing").is_none());
    assert!(lookup(&doc, "blue", "token").is_none());
    assert!(parse_document("[unterminated\n").is_none());
    assert!(parse_document("key_without_value\n").is_none());
    assert!(parse_document("[red]\ntoken = \"unclosed\n").is_none());
}

#[test]
fn negative_integers_parse_in_documents() {
    let doc = parse_document("[s]\na = -42\n").unwrap();
    match lookup(&doc, "s", "a") {
        Some(TomlValue::I(i)) => assert_eq!(*i, -42),
        _ => panic!("a not found"),
    }
    assert_eq!(render_document(&doc), "[s]\na = -42\n\n");
}

#[test]
fn text_helpers() {
    assert_eq!(trim("  a b \t"), "a b");
    assert_eq!(trim(""), "");
    assert_eq!(trim(" \r\n".trim_end_matches('\n')), "");
    assert!(str_eq("abc", "abc"));
    assert!(!str_eq("abc", "abd"));
    assert!(!str_eq("abc", "ab"));
}
