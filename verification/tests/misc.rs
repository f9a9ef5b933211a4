use ym::cli::{parse_cli, parse_file_key_pair, parse_optional_file_key_pair, Cli, Command, Commands};
use ym::commands::{
    copy_value, find_source_value, format_match, get_terminal_width, grep_path, move_value,
    put_in_destination, remove_from_source, should_process_file, show_filename, SearchTarget,
};
use ym::display::{format_mapping_result, format_result, truncate_if_needed};
use ym::path::{set_values, split_path, unset_values};
use ym::text::{chars_of, chain, join_chars, split_chars, split_lines, string_of, trimmed};
use ym::tree::Node;
use ym::updates::Updates;
use ym::yaml::parse_document;

fn doc(text: &str) -> Node {
    parse_document(text).unwrap()
}

fn strings(items: &[&str]) -> Vec<String> {
    items.iter().map(|s| s.to_string()).collect()
}

fn chars(s: &str) -> Vec<char> {
    s.chars().collect()
}

#[test]
fn cutting_to_the_width_of_the_terminal() {
    assert_eq!(truncate_if_needed("abcdefgh", 8), "abcdefgh");
    assert_eq!(truncate_if_needed("abcdefgh", 7), "abcd...");
    assert_eq!(truncate_if_needed("abcdefgh", 3), "...");
    assert_eq!(truncate_if_needed("abcdefgh", 2), "...");
    assert_eq!(truncate_if_needed("abcdefgh", 0), "...");
    assert_eq!(truncate_if_needed("", 0), "");
    assert_eq!(truncate_if_needed("äöüäöü", 5), "äö...");
}

#[test]
fn showing_matches() {
    assert_eq!(
        format_result("k", &Node::String("a long value".to_string()), 10),
        "k: a lo..."
    );
    assert_eq!(format_result("k", &Node::Number("123456".to_string()), 7), "k: 1...");
    assert_eq!(format_result("key", &Node::Bool(true), 6), "key...");
    assert_eq!(format_result("a-long-key", &Node::Null, 3), "a-long-key: null");
    assert_eq!(
        format_result("database", &doc("host: localhost\nport: 5432\n"), 5),
        "database:\n  host: localhost\n  port: 5432"
    );
    assert_eq!(
        format_mapping_result("m", &doc("a:\n  b: 1\nc: 2\n"), 80),
        "m:\n  a:\n    b: 1\n  c: 2"
    );
    assert_eq!(
        format_result("items", &doc("- item1\n- item2\n"), 80),
        "items: - item1\n- item2"
    );
    assert_eq!(format_result("items", &doc("- item1\n- item2\n"), 12), "items: - ...");
}

#[test]
fn matches_with_the_name_of_their_file() {
    let value = Node::String("v".to_string());
    assert_eq!(format_match("f.yaml", true, "k", &value, 80), "f.yaml:k: v");
    assert_eq!(format_match("f.yaml", false, "k", &value, 80), "k: v");
    assert_eq!(format_match("f.yaml", true, "k", &value, 3), "f.yaml:...");
}

#[test]
fn which_files_are_searched() {
    assert!(should_process_file(Some("yaml")));
    assert!(should_process_file(Some("yml")));
    assert!(!should_process_file(Some("YAML")));
    assert!(!should_process_file(Some("yamls")));
    assert!(!should_process_file(Some("")));
    assert!(!should_process_file(None));
}

#[test]
fn what_a_path_is_searched_as() {
    assert!(matches!(grep_path("a", true, false), Ok(SearchTarget::File)));
    assert!(matches!(grep_path("a", true, true), Ok(SearchTarget::File)));
    assert!(matches!(grep_path("a", false, true), Ok(SearchTarget::Directory)));
    assert_eq!(
        grep_path("no/such", false, false).err().unwrap(),
        "'no/such' is not a file or directory"
    );
}

#[test]
fn when_the_file_name_is_shown() {
    assert!(!show_filename(1, false));
    assert!(show_filename(1, true));
    assert!(show_filename(2, false));
    assert!(show_filename(0, false));
}

#[test]
fn width_of_the_terminal() {
    assert_eq!(get_terminal_width(Some(120), Some(100)), 120);
    assert_eq!(get_terminal_width(None, Some(100)), 100);
    assert_eq!(get_terminal_width(None, None), 80);
}

#[test]
fn file_and_key_arguments() {
    assert_eq!(
        parse_file_key_pair("f.yaml:a.b").unwrap(),
        ("f.yaml".to_string(), "a.b".to_string())
    );
    assert_eq!(
        parse_file_key_pair("f.yaml:a:b").unwrap(),
        ("f.yaml".to_string(), "a:b".to_string())
    );
    for bad in ["f.yaml", "f.yaml:", ":key", ":", ""] {
        assert_eq!(
            parse_file_key_pair(bad).unwrap_err(),
            format!(
                "Invalid file:key pair: {} (expected format: file.yaml:key.path)",
                bad
            )
        );
    }
    assert_eq!(
        parse_optional_file_key_pair("f:k").unwrap(),
        (Some("f".to_string()), Some("k".to_string()))
    );
    assert_eq!(
        parse_optional_file_key_pair("f:").unwrap(),
        (Some("f".to_string()), None)
    );
    assert_eq!(
        parse_optional_file_key_pair(":k").unwrap(),
        (None, Some("k".to_string()))
    );
    assert_eq!(
        parse_optional_file_key_pair("k").unwrap(),
        (None, Some("k".to_string()))
    );
    assert_eq!(
        parse_optional_file_key_pair(":").unwrap_err(),
        "Invalid file:key pair: : (file and key cannot both be empty)"
    );
    assert_eq!(
        parse_optional_file_key_pair("").unwrap_err(),
        "Key cannot be empty"
    );
}

#[test]
fn checking_commands() {
    let set = |updates: &[&str]| {
        parse_cli(Cli {
            command: Commands::SetValues {
                file: "f".to_string(),
                updates: strings(updates),
            },
        })
    };
    assert_eq!(
        set(&[]).unwrap_err(),
        "set requires at least one key=value pair"
    );
    assert_eq!(
        set(&["a=1", "bad", "worse"]).unwrap_err(),
        "Invalid key=value pair: bad"
    );
    match set(&["a=1", "b=2", "a=3", "=x", "c="]).unwrap() {
        Command::SetValues { file, updates } => {
            assert_eq!(file, "f");
            assert_eq!(updates.len(), 4);
            assert_eq!(updates.get("a"), Some(&"3".to_string()));
            assert_eq!(updates.get("b"), Some(&"2".to_string()));
            assert_eq!(updates.get(""), Some(&"x".to_string()));
            assert_eq!(updates.get("c"), Some(&"".to_string()));
            assert_eq!(updates.get("d"), None);
            assert_eq!(updates.to_vec()[0], ("a".to_string(), "3".to_string()));
            assert_eq!(updates.to_vec()[1], ("b".to_string(), "2".to_string()));
        }
        _ => panic!("expected a set command"),
    }
    let unset = parse_cli(Cli {
        command: Commands::Unset {
            file: "f".to_string(),
            keys: vec![],
        },
    });
    assert_eq!(unset.unwrap_err(), "unset requires at least one key");
    let cp = |source: &str, destination: &[&str]| {
        parse_cli(Cli {
            command: Commands::Cp {
                source: source.to_string(),
                destination: strings(destination),
            },
        })
    };
    assert_eq!(
        cp("f:k", &[]).unwrap_err(),
        "destination file and destination key cannot both be omitted"
    );
    assert_eq!(
        cp("f:k", &["a", "b"]).unwrap_err(),
        "cp accepts at most one destination argument"
    );
    assert_eq!(
        cp("bad", &["a", "b"]).unwrap_err(),
        "Invalid file:key pair: bad (expected format: file.yaml:key.path)"
    );
    assert_eq!(
        cp("f:k", &[":"]).unwrap_err(),
        "Invalid file:key pair: : (file and key cannot both be empty)"
    );
    assert_eq!(cp("f:k", &[""]).unwrap_err(), "Key cannot be empty");
    let mv = parse_cli(Cli {
        command: Commands::Mv {
            source: "f:k".to_string(),
            destination: strings(&["a", "b"]),
        },
    });
    assert_eq!(
        mv.unwrap_err(),
        "mv accepts at most one destination argument"
    );
}

#[test]
fn updates_keep_the_first_place_of_a_key() {
    let mut updates = Updates::new();
    assert!(updates.is_empty());
    assert_eq!(updates.insert("a".to_string(), "1".to_string()), None);
    assert_eq!(updates.insert("b".to_string(), "2".to_string()), None);
    assert_eq!(
        updates.insert("a".to_string(), "3".to_string()),
        Some("1".to_string())
    );
    assert_eq!(updates.len(), 2);
    assert!(!updates.is_empty());
    assert_eq!(
        updates.to_vec(),
        vec![
            ("a".to_string(), "3".to_string()),
            ("b".to_string(), "2".to_string())
        ]
    );
}

#[test]
fn updates_stop_at_the_first_empty_path() {
    let mut tree = doc("a: 1\n");
    let mut updates = Updates::new();
    updates.insert("b".to_string(), "2".to_string());
    updates.insert("".to_string(), "x".to_string());
    updates.insert("c".to_string(), "3".to_string());
    assert_eq!(set_values(&mut tree, &updates).unwrap_err(), "Empty key path");
    assert_eq!(tree, doc("a: 1\nb: '2'\n"));

    let mut tree = doc("a: 1\nb: 2\nc: 3\n");
    let keys = strings(&["a", "", "c"]);
    assert_eq!(unset_values(&mut tree, &keys).unwrap_err(), "Empty key path");
    assert_eq!(tree, doc("b: 2\nc: 3\n"));
}

#[test]
fn later_updates_see_the_earlier_ones() {
    let mut tree = doc("a: 1\n");
    let mut updates = Updates::new();
    updates.insert("a.b".to_string(), "x".to_string());
    updates.insert("a".to_string(), "flat".to_string());
    set_values(&mut tree, &updates).unwrap();
    assert_eq!(tree, doc("a: flat\n"));
}

#[test]
fn copying_reports_its_errors() {
    let ok = "a: 1\n";
    let bad = "a: [unclosed";
    assert!(copy_value("s.yaml", bad, "a", "d.yaml", Some(ok), "b")
        .unwrap_err()
        .starts_with("Failed to parse YAML from 's.yaml': "));
    assert!(copy_value("s.yaml", ok, "a", "d.yaml", Some(bad), "b")
        .unwrap_err()
        .starts_with("Failed to parse YAML from 'd.yaml': "));
    assert_eq!(
        copy_value("s.yaml", ok, "x.y", "d.yaml", Some(ok), "b").unwrap_err(),
        "Key 'x.y' not found in 's.yaml'"
    );
    assert_eq!(
        copy_value("s.yaml", ok, "", "d.yaml", Some(ok), "b").unwrap_err(),
        "Empty key path"
    );
    assert_eq!(
        copy_value("s.yaml", ok, "a", "d.yaml", Some(ok), "").unwrap_err(),
        "Empty key path"
    );
    assert_eq!(
        copy_value("s.yaml", ok, "a", "d.yaml", None, "").unwrap_err(),
        "Empty key path"
    );
    assert!(move_value("s.yaml", bad, "a", "d.yaml", Some(ok), "b", false)
        .unwrap_err()
        .starts_with("Failed to parse YAML from 's.yaml': "));
}

#[test]
fn copying_keeps_the_layout_of_the_destination() {
    let source = "a:\n  b: 1\n";
    let dest = "# settings\nx: old   # note\n\ny: 2\n";
    assert_eq!(
        copy_value("s.yaml", source, "a.b", "d.yaml", Some(dest), "x").unwrap(),
        "# settings\nx: 1\n\ny: 2\n"
    );
    assert_eq!(
        copy_value("s.yaml", source, "a", "d.yaml", None, "p.q").unwrap(),
        "p:\n  q:\n    b: 1\n"
    );
    let (dest_text, source_text) =
        move_value("s.yaml", source, "a.b", "d.yaml", Some(dest), "y", false).unwrap();
    assert_eq!(dest_text, "# settings\nx: old   # note\n\ny: 1\n");
    assert_eq!(source_text, "a:\n");
}

#[test]
fn texts_and_their_pieces() {
    assert_eq!(chars_of("aé"), vec!['a', 'é']);
    assert_eq!(string_of(&chars("aé")), "aé");
    assert_eq!(chain("ab", "cd"), "abcd");
    assert_eq!(trimmed(&chars(" \t a b \u{3000}\n")), chars("a b"));
    assert_eq!(trimmed(&chars("   ")), chars(""));
    assert_eq!(
        split_chars(&chars("a..b."), '.'),
        vec![chars("a"), chars(""), chars("b"), chars("")]
    );
    assert_eq!(split_chars(&chars(""), '.'), vec![chars("")]);
    assert_eq!(split_path("database.host"), strings(&["database", "host"]));
    assert_eq!(
        split_lines(&chars("a\r\nb\n\nc\r")),
        vec![chars("a"), chars("b"), chars(""), chars("c\r")]
    );
    assert_eq!(split_lines(&chars("a\n")), vec![chars("a")]);
    assert_eq!(split_lines(&chars("\n")), vec![chars("")]);
    assert!(split_lines(&chars("")).is_empty());
    assert_eq!(
        join_chars(&vec![chars("a"), chars(""), chars("b")], &chars(", ")),
        chars("a, , b")
    );
    assert_eq!(join_chars(&Vec::new(), &chars(", ")), chars(""));
}

#[test]
fn steps_of_a_copy_and_a_move() {
    let source = "a:\n  b: 1\nc: 2\n";
    let value = find_source_value("s.yaml", source, "a").unwrap();
    assert_eq!(value, doc("b: 1\n"));
    assert_eq!(
        find_source_value("s.yaml", source, "zz").unwrap_err(),
        "Key 'zz' not found in 's.yaml'"
    );
    assert_eq!(
        put_in_destination("d.yaml", Some("x: old\n"), "x", &Node::Bool(true)).unwrap(),
        "x: true\n"
    );
    assert_eq!(
        put_in_destination("d.yaml", None, "x", &Node::Bool(true)).unwrap(),
        "x: true\n"
    );
    assert!(put_in_destination("d.yaml", Some("x: ["), "x", &value)
        .unwrap_err()
        .starts_with("Failed to parse YAML from 'd.yaml': "));
    assert_eq!(
        remove_from_source("s.yaml", source, "a").unwrap(),
        "c: 2\n"
    );
    assert!(remove_from_source("s.yaml", "x: [", "a")
        .unwrap_err()
        .starts_with("Failed to parse YAML from 's.yaml': "));
}
