use gim::codec::{parse_document, render_document};
use gim::directory::{config_dir, config_dir_in, config_file_in, get_config_file};
use gim::document::{default_document, lookup_value, set_value, ConfigError, Document};
use gim::store::{bootstrap_content, default_config_text, path_message};
use gim::value::{find_key, value_eq, ConfigValue};

fn text(s: &str) -> ConfigValue {
    ConfigValue::String(s.to_string())
}

fn bootstrapped() -> Document {
    parse_document(&default_config_text().unwrap()).unwrap()
}

#[test]
fn test_config_dir() {
    let result = config_dir();
    assert!(result.is_ok(), "config_dir should return Ok result");

    let path = std::path::PathBuf::from(result.unwrap());
    assert!(
        path.ends_with(".config/gim") || path.ends_with(".config\\gim"),
        "Path should end with .config/gim or .config\\gim"
    );

    let home = dirs::home_dir().unwrap();
    assert!(path.starts_with(home), "Config path should start with home directory");
}

#[test]
fn test_ensure_config_file_exists_creates_file() {
    let parsed = bootstrapped();
    assert!(find_key(&parsed, "update").is_some(), "Missing update section");
    assert!(find_key(&parsed, "ai").is_some(), "Missing ai section");

    let i = find_key(&parsed, "ai").unwrap();
    match &parsed[i].1 {
        ConfigValue::Table(ai_table) => {
            assert!(find_key(ai_table, "model").is_some(), "Missing model field");
            assert!(find_key(ai_table, "apikey").is_some(), "Missing apikey field");
            assert!(find_key(ai_table, "url").is_some(), "Missing url field");
            assert!(find_key(ai_table, "language").is_some(), "Missing language field");
        }
        other => panic!("ai is not a table: {:?}", other),
    }
}

#[test]
fn config_file_sits_in_config_dir() {
    let file = get_config_file().unwrap();
    let dir = config_dir().unwrap();
    assert_eq!(file, format!("{}/config.toml", dir));
}

#[test]
fn config_paths_from_home() {
    assert_eq!(config_dir_in("/home/ann"), "/home/ann/.config/gim");
    assert_eq!(config_file_in("/home/ann/.config/gim"), "/home/ann/.config/gim/config.toml");
}

#[test]
fn path_message_names_the_file() {
    assert_eq!(path_message("/h/.config/gim/config.toml"), "Config file is /h/.config/gim/config.toml");
}

#[test]
fn default_schema_in_memory() {
    assert_eq!(lookup_value(default_document(), "update", "tried"), Ok(ConfigValue::Integer(0)));
    assert_eq!(lookup_value(default_document(), "update", "max_try"), Ok(ConfigValue::Integer(5)));
    assert_eq!(lookup_value(default_document(), "update", "last_try_day"), Ok(text("2000-01-01")));
    assert_eq!(
        lookup_value(default_document(), "update", "try_interval_days"),
        Ok(ConfigValue::Integer(30))
    );
    assert_eq!(lookup_value(default_document(), "ai", "model"), Ok(text("")));
    assert_eq!(lookup_value(default_document(), "ai", "apikey"), Ok(text("")));
    assert_eq!(lookup_value(default_document(), "ai", "url"), Ok(text("")));
    assert_eq!(lookup_value(default_document(), "ai", "language"), Ok(text("English")));
}

#[test]
fn default_schema_after_bootstrap_text() {
    assert_eq!(lookup_value(bootstrapped(), "update", "tried"), Ok(ConfigValue::Integer(0)));
    assert_eq!(lookup_value(bootstrapped(), "update", "max_try"), Ok(ConfigValue::Integer(5)));
    assert_eq!(lookup_value(bootstrapped(), "update", "last_try_day"), Ok(text("2000-01-01")));
    assert_eq!(lookup_value(bootstrapped(), "update", "try_interval_days"), Ok(ConfigValue::Integer(30)));
    assert_eq!(lookup_value(bootstrapped(), "ai", "model"), Ok(text("")));
    assert_eq!(lookup_value(bootstrapped(), "ai", "apikey"), Ok(text("")));
    assert_eq!(lookup_value(bootstrapped(), "ai", "url"), Ok(text("")));
    assert_eq!(lookup_value(bootstrapped(), "ai", "language"), Ok(text("English")));
}

#[test]
fn default_text_is_the_documented_layout() {
    let t = default_config_text().unwrap();
    assert!(t.contains("[update]"));
    assert!(t.contains("tried = 0"));
    assert!(t.contains("max_try = 5"));
    assert!(t.contains("last_try_day = \"2000-01-01\""));
    assert!(t.contains("try_interval_days = 30"));
    assert!(t.contains("[ai]"));
    assert!(t.contains("model = \"\""));
    assert!(t.contains("language = \"English\""));
}

#[test]
fn loading_same_text_twice_gives_equal_documents() {
    let t = default_config_text().unwrap();
    let a = parse_document(&t).unwrap();
    let b = parse_document(&t).unwrap();
    assert_eq!(a, b);
    assert!(value_eq(&ConfigValue::Table(a), &ConfigValue::Table(b)));
}

#[test]
fn existing_file_is_not_rewritten() {
    assert_eq!(bootstrap_content(true), Ok(None));
    let first = bootstrap_content(false).unwrap().unwrap();
    assert_eq!(first, default_config_text().unwrap());
}

#[test]
fn missing_section_and_key() {
    assert_eq!(lookup_value(bootstrapped(), "nonexistent", "x"), Err(ConfigError::SectionNotFound));
    assert_eq!(lookup_value(bootstrapped(), "ai", "nonexistent"), Err(ConfigError::KeyNotFound));
}

#[test]
fn section_that_is_not_a_table() {
    let doc = parse_document("title = \"x\"\n").unwrap();
    assert_eq!(lookup_value(doc, "title", "a"), Err(ConfigError::SectionNotATable));
    let mut doc = parse_document("title = \"x\"\n").unwrap();
    assert_eq!(set_value(&mut doc, "title", "a", text("b")), Err(ConfigError::SectionNotATable));
}

#[test]
fn update_missing_section_fails() {
    let mut doc = bootstrapped();
    assert_eq!(set_value(&mut doc, "nonexistent", "x", text("y")), Err(ConfigError::SectionNotFound));
    assert_eq!(doc, bootstrapped());
}

#[test]
fn update_with_equal_value_is_noop() {
    let mut doc = bootstrapped();
    assert_eq!(set_value(&mut doc, "ai", "language", text("English")), Ok(false));
    assert_eq!(doc, bootstrapped());
}

#[test]
fn update_persists_and_round_trips() {
    let mut doc = bootstrapped();
    assert_eq!(set_value(&mut doc, "ai", "model", text("gpt-4")), Ok(true));
    let saved = render_document(&doc).unwrap();
    let reloaded = || parse_document(&saved).unwrap();
    assert_eq!(lookup_value(reloaded(), "ai", "model"), Ok(text("gpt-4")));
    assert_eq!(lookup_value(reloaded(), "ai", "apikey"), Ok(text("")));
    assert_eq!(lookup_value(reloaded(), "ai", "url"), Ok(text("")));
    assert_eq!(lookup_value(reloaded(), "ai", "language"), Ok(text("English")));
    assert_eq!(lookup_value(reloaded(), "update", "tried"), Ok(ConfigValue::Integer(0)));
    assert_eq!(lookup_value(reloaded(), "update", "max_try"), Ok(ConfigValue::Integer(5)));
    assert_eq!(lookup_value(reloaded(), "update", "try_interval_days"), Ok(ConfigValue::Integer(30)));
}

#[test]
fn update_new_key_is_appended() {
    let mut doc = bootstrapped();
    assert_eq!(set_value(&mut doc, "update", "extra", ConfigValue::Boolean(true)), Ok(true));
    let i = find_key(&doc, "update").unwrap();
    match &doc[i].1 {
        ConfigValue::Table(t) => {
            assert_eq!(t.len(), 5);
            assert_eq!(t[4].0, "extra");
            assert_eq!(t[4].1, ConfigValue::Boolean(true));
        }
        other => panic!("update is not a table: {:?}", other),
    }
    assert_eq!(lookup_value(doc, "update", "extra"), Ok(ConfigValue::Boolean(true)));
}

#[test]
fn update_changes_integer() {
    let mut doc = bootstrapped();
    assert_eq!(set_value(&mut doc, "update", "tried", ConfigValue::Integer(3)), Ok(true));
    assert_eq!(lookup_value(doc, "update", "tried"), Ok(ConfigValue::Integer(3)));
}

#[test]
fn malformed_text_is_a_parse_error() {
    assert_eq!(parse_document("[update\ntried = "), Err(ConfigError::ParseError));
    assert_eq!(parse_document("this is not toml"), Err(ConfigError::ParseError));
}

#[test]
fn empty_text_is_a_parse_error() {
    assert_eq!(parse_document(""), Err(ConfigError::ParseError));
}

#[test]
fn unsupported_value_kinds_are_refused() {
    assert_eq!(parse_document("[a]\nx = 1.5\n"), Err(ConfigError::ParseError));
    assert_eq!(parse_document("[a]\nx = [1, 2]\n"), Err(ConfigError::ParseError));
    assert_eq!(parse_document("[a]\nx = 1979-05-27\n"), Err(ConfigError::ParseError));
}

#[test]
fn nested_tables_parse() {
    let doc = parse_document("[a]\nb = { c = 1, d = \"e\" }\n").unwrap();
    let expected = ConfigValue::Table(vec![
        ("c".to_string(), ConfigValue::Integer(1)),
        ("d".to_string(), text("e")),
    ]);
    assert_eq!(lookup_value(doc, "a", "b"), Ok(expected));
}

#[test]
fn value_equality_is_structural() {
    let a = ConfigValue::Table(vec![("k".to_string(), ConfigValue::Integer(1))]);
    let b = ConfigValue::Table(vec![("k".to_string(), ConfigValue::Integer(1))]);
    let c = ConfigValue::Table(vec![("k".to_string(), ConfigValue::Integer(2))]);
    let d = ConfigValue::Table(vec![("j".to_string(), ConfigValue::Integer(1))]);
    assert!(value_eq(&a, &b));
    assert!(!value_eq(&a, &c));
    assert!(!value_eq(&a, &d));
    assert!(!value_eq(&text("1"), &ConfigValue::Integer(1)));
    assert!(value_eq(&ConfigValue::Boolean(false), &ConfigValue::Boolean(false)));
}

#[test]
fn table_equality_ignores_order() {
    let a = ConfigValue::Table(vec![
        ("x".to_string(), ConfigValue::Integer(1)),
        ("y".to_string(), text("two")),
    ]);
    let b = ConfigValue::Table(vec![
        ("y".to_string(), text("two")),
        ("x".to_string(), ConfigValue::Integer(1)),
    ]);
    let c = ConfigValue::Table(vec![("x".to_string(), ConfigValue::Integer(1))]);
    assert!(value_eq(&a, &b));
    assert!(!value_eq(&a, &c));
    assert!(!value_eq(&c, &a));
}

#[test]
fn update_with_reordered_equal_table_is_noop() {
    let mut doc = parse_document("[a]\nb = { c = 1, d = \"e\" }\n").unwrap();
    let reordered = ConfigValue::Table(vec![
        ("d".to_string(), text("e")),
        ("c".to_string(), ConfigValue::Integer(1)),
    ]);
    assert_eq!(set_value(&mut doc, "a", "b", reordered), Ok(false));
    assert_eq!(doc, parse_document("[a]\nb = { c = 1, d = \"e\" }\n").unwrap());
}

#[test]
fn rendered_text_parses_back_to_the_document() {
    let doc = parse_document("[s]\nk = true\nn = -7\n").unwrap();
    let again = parse_document(&render_document(&doc).unwrap()).unwrap();
    assert_eq!(doc, again);
}
