use ym::commands::{copy_value, move_value, set_in_text, unset_in_text};
use ym::patch::write_yaml_preserving_format;
use ym::path::{get_value, set_value, unset_at_path};
use ym::tree::Node;
use ym::updates::Updates;
use ym::yaml::parse_document;

fn parse_yaml(yaml_str: &str) -> Node {
    parse_document(yaml_str).expect("Failed to parse YAML")
}

fn at(value: &Node, path: &str) -> Node {
    get_value(value, path).unwrap().unwrap_or(Node::Null)
}

fn as_i64(value: &Node) -> Option<i64> {
    match value {
        Node::Number(text) => text.parse().ok(),
        _ => None,
    }
}

fn text(s: &str) -> Node {
    Node::String(s.to_string())
}

#[test]
fn test_preserves_comments_simple() {
    let yaml = "# Configuration\nkey1: value1\nkey2: value2\n";
    let mut value = parse_yaml(yaml);
    set_value(&mut value, "key1", &text("newvalue1")).unwrap();

    let result = write_yaml_preserving_format(yaml, &value).unwrap();

    assert!(result.contains("# Configuration"));
    assert!(result.contains("key1: newvalue1"));
    assert!(result.contains("key2: value2"));
}

#[test]
fn test_preserves_empty_lines() {
    let yaml = "key1: value1\n\nkey2: value2\n";
    let value = parse_yaml(yaml);

    let result = write_yaml_preserving_format(yaml, &value).unwrap();

    // Without changes, should return original
    assert_eq!(result, yaml);
}

#[test]
fn test_detects_removed_keys() {
    let yaml = "key1: value1\nkey2: value2\nkey3: value3\n";
    let mut value = parse_yaml(yaml);
    unset_at_path(&mut value, "key2").unwrap();

    let result = write_yaml_preserving_format(yaml, &value).unwrap();

    assert!(result.contains("key1: value1"));
    assert!(!result.contains("key2: value2"));
    assert!(result.contains("key3: value3"));
}

#[test]
fn test_preserves_comments_and_empty_lines_on_change() {
    let yaml = "# Main config\nkey1: value1\n\n# Another key\nkey2: value2\n";
    let mut value = parse_yaml(yaml);
    set_value(&mut value, "key1", &text("newvalue1")).unwrap();

    let result = write_yaml_preserving_format(yaml, &value).unwrap();

    assert!(result.contains("# Main config"));
    assert!(result.contains("# Another key"));
    assert!(result.contains("key1: newvalue1"));
    assert!(result.contains("key2: value2"));
}

// ==================== copy_value() Tests ====================

#[test]
fn test_copy_value_same_file_simple() {
    let file = "source:\n  key: value123\ndest:\n  key: old_value";

    let contents =
        copy_value("test.yaml", file, "source.key", "test.yaml", Some(file), "dest.key").unwrap();

    let yaml = parse_yaml(&contents);
    assert_eq!(at(&yaml, "dest.key").as_str().unwrap(), "value123");
    assert_eq!(at(&yaml, "source.key").as_str().unwrap(), "value123");
}

#[test]
fn test_copy_value_different_files() {
    let source = "data:\n  value: test123";
    let dest = "other: value";

    let dest_contents = copy_value(
        "source.yaml",
        source,
        "data.value",
        "dest.yaml",
        Some(dest),
        "copied.value",
    )
    .unwrap();

    let yaml = parse_yaml(&dest_contents);
    assert_eq!(at(&yaml, "copied.value").as_str().unwrap(), "test123");
}

#[test]
fn test_copy_value_to_nonexistent_file() {
    let source = "data: value456";

    let dest_contents =
        copy_value("source.yaml", source, "data", "dest.yaml", None, "new_key").unwrap();

    let yaml = parse_yaml(&dest_contents);
    assert_eq!(at(&yaml, "new_key").as_str().unwrap(), "value456");
}

#[test]
fn test_copy_value_complex_type() {
    let file = "config:\n  nested:\n    value: test\n    count: 42";

    let contents = copy_value(
        "test.yaml",
        file,
        "config.nested",
        "test.yaml",
        Some(file),
        "backup.config",
    )
    .unwrap();

    let yaml = parse_yaml(&contents);
    assert!(at(&yaml, "backup.config").is_mapping());
    assert_eq!(at(&yaml, "backup.config.value").as_str().unwrap(), "test");
    assert_eq!(as_i64(&at(&yaml, "backup.config.count")).unwrap(), 42);
}

#[test]
fn test_copy_value_nonexistent_source_key() {
    let file = "data: value";

    let result = copy_value("test.yaml", file, "nonexistent", "test.yaml", Some(file), "dest");
    assert!(result.is_err());
    assert!(result.unwrap_err().contains("not found"));
}

// ==================== move_value() Tests ====================

#[test]
fn test_move_value_same_file_same_key() {
    let file = "database:\n  password: secret123";

    let result = move_value(
        "test.yaml",
        file,
        "database.password",
        "test.yaml",
        Some(file),
        "database.password",
        true,
    );
    assert!(result.is_ok());

    // The text that stays in the file is the second one: the key is gone.
    let (_, kept) = result.unwrap();
    let yaml = parse_yaml(&kept);
    assert_eq!(get_value(&yaml, "database.password").unwrap(), None);
}

#[test]
fn test_move_value_same_file_different_key() {
    let file = "source_key: moved_value\nother: data";

    let (_, kept) = move_value(
        "test.yaml",
        file,
        "source_key",
        "test.yaml",
        Some(file),
        "dest_key",
        true,
    )
    .unwrap();

    let yaml = parse_yaml(&kept);
    assert_eq!(
        get_value(&yaml, "dest_key")
            .unwrap()
            .unwrap()
            .as_str()
            .unwrap(),
        "moved_value"
    );
    assert_eq!(get_value(&yaml, "source_key").unwrap(), None);
}

#[test]
fn test_move_value_different_file_same_key() {
    let source = "mykey: myvalue";
    let dest = "other: data";

    let (dest_text, source_text) = move_value(
        "source.yaml",
        source,
        "mykey",
        "dest.yaml",
        Some(dest),
        "mykey",
        false,
    )
    .unwrap();

    let dest_yaml = parse_yaml(&dest_text);
    assert_eq!(
        get_value(&dest_yaml, "mykey")
            .unwrap()
            .unwrap()
            .as_str()
            .unwrap(),
        "myvalue"
    );

    let source_yaml = parse_yaml(&source_text);
    assert_eq!(get_value(&source_yaml, "mykey").unwrap(), None);
}

#[test]
fn test_move_value_different_file_different_key() {
    let source = "source:\n  nested:\n    key: moved_value";
    let dest = "other: data";

    let (dest_text, source_text) = move_value(
        "source.yaml",
        source,
        "source.nested.key",
        "dest.yaml",
        Some(dest),
        "dest.nested.key",
        false,
    )
    .unwrap();

    let dest_yaml = parse_yaml(&dest_text);
    assert_eq!(
        get_value(&dest_yaml, "dest.nested.key")
            .unwrap()
            .unwrap()
            .as_str()
            .unwrap(),
        "moved_value"
    );

    let source_yaml = parse_yaml(&source_text);
    assert_eq!(get_value(&source_yaml, "source.nested.key").unwrap(), None);
}

#[test]
fn test_move_value_nonexistent_source_key() {
    let file = "data: value";

    let result = move_value(
        "test.yaml",
        file,
        "nonexistent",
        "test.yaml",
        Some(file),
        "dest",
        true,
    );
    assert!(result.is_err());
    assert!(result.unwrap_err().contains("not found"));
}

#[test]
fn test_set_preserves_comments_and_empty_lines() {
    let contents = "# Configuration file\napp_name: myapp\n\n# Debug settings\ndebug: false\n";

    let mut updates = Updates::new();
    updates.insert("debug".to_string(), "true".to_string());

    let updated = set_in_text(contents, &updates).unwrap();

    assert!(updated.contains("# Configuration file"));
    assert!(updated.contains("# Debug settings"));
    assert!(updated.contains("debug: true"));
    assert!(updated.contains("app_name: myapp"));
}

#[test]
fn test_unset_preserves_comments_and_empty_lines() {
    let contents = "# Configuration\nkey1: value1\n\n# Comment\nkey2: value2\nkey3: value3\n";

    let updated = unset_in_text(contents, &["key2".to_string()]).unwrap();

    assert!(updated.contains("# Configuration"));
    assert!(!updated.contains("key2: value2"));
    assert!(updated.contains("key1: value1"));
    assert!(updated.contains("key3: value3"));
}

#[test]
fn test_set_multiple_values_preserves_formatting() {
    let contents = "# Server config\nhost: localhost\n\n# Port settings\nport: 8080\nssl: false\n";

    let mut updates = Updates::new();
    updates.insert("host".to_string(), "0.0.0.0".to_string());
    updates.insert("ssl".to_string(), "true".to_string());

    let updated = set_in_text(contents, &updates).unwrap();

    assert!(updated.contains("# Server config"));
    assert!(updated.contains("# Port settings"));
    assert!(updated.contains("host: 0.0.0.0"));
    assert!(updated.contains("ssl: true"));
    assert!(updated.contains("port: 8080"));
}
