use clap::{Arg, ArgAction, ArgMatches};
use ym::cli::{parse_cli, Cli, Command, Commands};

fn words(name: &'static str) -> Arg {
    Arg::new(name)
        .num_args(1..)
        .action(ArgAction::Append)
        .trailing_var_arg(true)
        .allow_hyphen_values(true)
}

fn command_line() -> clap::Command {
    clap::Command::new("ym")
        .about("A YAML search and patch tool")
        .version("0.1.0")
        .subcommand_required(true)
        .arg_required_else_help(true)
        .subcommand(
            clap::Command::new("grep")
                .arg(Arg::new("pattern").required(true))
                .arg(Arg::new("recursive").short('R').action(ArgAction::SetTrue))
                .arg(words("files")),
        )
        .subcommand(
            clap::Command::new("set")
                .arg(Arg::new("file").required(true))
                .arg(words("updates")),
        )
        .subcommand(
            clap::Command::new("unset")
                .arg(Arg::new("file").required(true))
                .arg(words("keys")),
        )
        .subcommand(
            clap::Command::new("cp")
                .arg(Arg::new("source").required(true))
                .arg(words("destination")),
        )
        .subcommand(
            clap::Command::new("mv")
                .arg(Arg::new("source").required(true))
                .arg(words("destination")),
        )
}

fn one(matches: &ArgMatches, name: &str) -> String {
    matches.get_one::<String>(name).cloned().unwrap()
}

fn many(matches: &ArgMatches, name: &str) -> Vec<String> {
    matches
        .get_many::<String>(name)
        .map(|values| values.cloned().collect())
        .unwrap_or_default()
}

fn given(matches: &ArgMatches) -> Commands {
    match matches.subcommand() {
        Some(("grep", m)) => Commands::Grep {
            pattern: one(m, "pattern"),
            recursive: m.get_flag("recursive"),
            files: many(m, "files"),
        },
        Some(("set", m)) => Commands::SetValues {
            file: one(m, "file"),
            updates: many(m, "updates"),
        },
        Some(("unset", m)) => Commands::Unset {
            file: one(m, "file"),
            keys: many(m, "keys"),
        },
        Some(("cp", m)) => Commands::Cp {
            source: one(m, "source"),
            destination: many(m, "destination"),
        },
        Some(("mv", m)) => Commands::Mv {
            source: one(m, "source"),
            destination: many(m, "destination"),
        },
        _ => unreachable!(),
    }
}

fn test_with_args(args: Vec<&str>) -> Result<Command, String> {
    let matches = command_line()
        .try_get_matches_from(args)
        .map_err(|e| e.to_string())?;
    parse_cli(Cli {
        command: given(&matches),
    })
}

#[test]
fn test_parse_grep_simple() {
    let cmd = test_with_args(vec!["ym", "grep", "pattern", "file.yaml"]).unwrap();

    match cmd {
        Command::Grep {
            pattern,
            recursive,
            files,
        } => {
            assert_eq!(pattern, "pattern");
            assert!(!recursive);
            assert_eq!(files, vec!["file.yaml"]);
        }
        _ => panic!("Expected Grep command"),
    }
}

#[test]
fn test_parse_grep_with_recursive_flag() {
    let cmd = test_with_args(vec!["ym", "grep", "-R", "pattern", "dir"]).unwrap();

    match cmd {
        Command::Grep {
            pattern,
            recursive,
            files,
        } => {
            assert_eq!(pattern, "pattern");
            assert!(recursive);
            assert_eq!(files, vec!["dir"]);
        }
        _ => panic!("Expected Grep command"),
    }
}

#[test]
fn test_parse_grep_multiple_files() {
    let cmd = test_with_args(vec![
        "ym",
        "grep",
        "pattern",
        "file1.yaml",
        "file2.yaml",
        "file3.yaml",
    ])
    .unwrap();

    match cmd {
        Command::Grep {
            pattern,
            recursive,
            files,
        } => {
            assert_eq!(pattern, "pattern");
            assert!(!recursive);
            assert_eq!(files, vec!["file1.yaml", "file2.yaml", "file3.yaml"]);
        }
        _ => panic!("Expected Grep command"),
    }
}

#[test]
fn test_parse_grep_no_pattern_error() {
    let result = test_with_args(vec!["ym", "grep"]);
    assert!(result.is_err());
}

#[test]
fn test_parse_grep_recursive_no_pattern_error() {
    let result = test_with_args(vec!["ym", "grep", "-R"]);
    assert!(result.is_err());
}

#[test]
fn test_parse_grep_no_files_allowed() {
    // grep with pattern but no files should be valid (reads from stdin)
    let cmd = test_with_args(vec!["ym", "grep", "pattern"]).unwrap();

    match cmd {
        Command::Grep {
            pattern,
            recursive,
            files,
        } => {
            assert_eq!(pattern, "pattern");
            assert!(!recursive);
            assert_eq!(files, Vec::<String>::new());
        }
        _ => panic!("Expected Grep command"),
    }
}

#[test]
fn test_parse_set_single_key_value() {
    let cmd = test_with_args(vec!["ym", "set", "file.yaml", "key=value"]).unwrap();

    match cmd {
        Command::SetValues { file, updates } => {
            assert_eq!(file, "file.yaml");
            assert_eq!(updates.len(), 1);
            assert_eq!(updates.get("key"), Some(&"value".to_string()));
        }
        _ => panic!("Expected Set command"),
    }
}

#[test]
fn test_parse_set_multiple_key_values() {
    let cmd = test_with_args(vec![
        "ym",
        "set",
        "file.yaml",
        "key1=value1",
        "key2=value2",
        "key3=value3",
    ])
    .unwrap();

    match cmd {
        Command::SetValues { file, updates } => {
            assert_eq!(file, "file.yaml");
            assert_eq!(updates.len(), 3);
            assert_eq!(updates.get("key1"), Some(&"value1".to_string()));
            assert_eq!(updates.get("key2"), Some(&"value2".to_string()));
            assert_eq!(updates.get("key3"), Some(&"value3".to_string()));
        }
        _ => panic!("Expected Set command"),
    }
}

#[test]
fn test_parse_set_nested_key_path() {
    let cmd = test_with_args(vec![
        "ym",
        "set",
        "file.yaml",
        "database.host=localhost",
        "database.port=5432",
    ])
    .unwrap();

    match cmd {
        Command::SetValues { file, updates } => {
            assert_eq!(file, "file.yaml");
            assert_eq!(updates.len(), 2);
            assert_eq!(updates.get("database.host"), Some(&"localhost".to_string()));
            assert_eq!(updates.get("database.port"), Some(&"5432".to_string()));
        }
        _ => panic!("Expected Set command"),
    }
}

#[test]
fn test_parse_set_value_with_equals() {
    // Values can contain '=' characters
    let cmd = test_with_args(vec![
        "ym",
        "set",
        "file.yaml",
        "url=http://example.com?param=value",
    ])
    .unwrap();

    match cmd {
        Command::SetValues { file, updates } => {
            assert_eq!(file, "file.yaml");
            assert_eq!(updates.len(), 1);
            assert_eq!(
                updates.get("url"),
                Some(&"http://example.com?param=value".to_string())
            );
        }
        _ => panic!("Expected Set command"),
    }
}

#[test]
fn test_parse_set_no_file_error() {
    let result = test_with_args(vec!["ym", "set"]);
    assert!(result.is_err());
}

#[test]
fn test_parse_set_no_key_value_error() {
    let result = test_with_args(vec!["ym", "set", "file.yaml"]);
    assert!(result.is_err());
}

#[test]
fn test_parse_set_invalid_key_value_format() {
    let result = test_with_args(vec!["ym", "set", "file.yaml", "invalid_no_equals"]);
    assert!(result.is_err());
    assert!(result.unwrap_err().contains("Invalid key=value pair"));
}

#[test]
fn test_parse_unset_single_key() {
    let cmd = test_with_args(vec!["ym", "unset", "file.yaml", "key"]).unwrap();

    match cmd {
        Command::Unset { file, keys } => {
            assert_eq!(file, "file.yaml");
            assert_eq!(keys, vec!["key"]);
        }
        _ => panic!("Expected Unset command"),
    }
}

#[test]
fn test_parse_unset_multiple_keys() {
    let cmd = test_with_args(vec!["ym", "unset", "file.yaml", "key1", "key2", "key3"]).unwrap();

    match cmd {
        Command::Unset { file, keys } => {
            assert_eq!(file, "file.yaml");
            assert_eq!(keys, vec!["key1", "key2", "key3"]);
        }
        _ => panic!("Expected Unset command"),
    }
}

#[test]
fn test_parse_unset_nested_key_path() {
    let cmd = test_with_args(vec![
        "ym",
        "unset",
        "file.yaml",
        "database.password",
        "database.username",
    ])
    .unwrap();

    match cmd {
        Command::Unset { file, keys } => {
            assert_eq!(file, "file.yaml");
            assert_eq!(keys, vec!["database.password", "database.username"]);
        }
        _ => panic!("Expected Unset command"),
    }
}

#[test]
fn test_parse_unset_no_file_error() {
    let result = test_with_args(vec!["ym", "unset"]);
    assert!(result.is_err());
}

#[test]
fn test_parse_unset_no_keys_error() {
    let result = test_with_args(vec!["ym", "unset", "file.yaml"]);
    assert!(result.is_err());
}

// ==================== cp Tests ====================

#[test]
fn test_parse_cp_same_file_same_key() {
    // Error: both destination file and key omitted
    let result = test_with_args(vec!["ym", "cp", "file.yaml:source.key"]);
    assert!(result.is_err());
    assert!(result
        .unwrap_err()
        .contains("destination file and destination key cannot both be omitted"));
}

#[test]
fn test_parse_cp_same_file_different_key() {
    let cmd = test_with_args(vec!["ym", "cp", "file.yaml:source.key", "dest.key"]).unwrap();

    match cmd {
        Command::Cp {
            source_file,
            source_key,
            dest_file,
            dest_key,
        } => {
            assert_eq!(source_file, "file.yaml");
            assert_eq!(source_key, "source.key");
            assert_eq!(dest_file, None);
            assert_eq!(dest_key, Some("dest.key".to_string()));
        }
        _ => panic!("Expected Cp command"),
    }
}

#[test]
fn test_parse_cp_different_file_same_key() {
    let cmd = test_with_args(vec!["ym", "cp", "source.yaml:mykey", "dest.yaml:mykey"]).unwrap();

    match cmd {
        Command::Cp {
            source_file,
            source_key,
            dest_file,
            dest_key,
        } => {
            assert_eq!(source_file, "source.yaml");
            assert_eq!(source_key, "mykey");
            assert_eq!(dest_file, Some("dest.yaml".to_string()));
            assert_eq!(dest_key, Some("mykey".to_string()));
        }
        _ => panic!("Expected Cp command"),
    }
}

#[test]
fn test_parse_cp_different_file_different_key() {
    let cmd = test_with_args(vec![
        "ym",
        "cp",
        "source.yaml:source.key",
        "dest.yaml:dest.key",
    ])
    .unwrap();

    match cmd {
        Command::Cp {
            source_file,
            source_key,
            dest_file,
            dest_key,
        } => {
            assert_eq!(source_file, "source.yaml");
            assert_eq!(source_key, "source.key");
            assert_eq!(dest_file, Some("dest.yaml".to_string()));
            assert_eq!(dest_key, Some("dest.key".to_string()));
        }
        _ => panic!("Expected Cp command"),
    }
}

#[test]
fn test_parse_cp_only_destination_file() {
    let cmd = test_with_args(vec!["ym", "cp", "source.yaml:mykey", "dest.yaml:"]).unwrap();

    match cmd {
        Command::Cp {
            source_file,
            source_key,
            dest_file,
            dest_key,
        } => {
            assert_eq!(source_file, "source.yaml");
            assert_eq!(source_key, "mykey");
            assert_eq!(dest_file, Some("dest.yaml".to_string()));
            assert_eq!(dest_key, None);
        }
        _ => panic!("Expected Cp command"),
    }
}

#[test]
fn test_parse_cp_missing_source_key() {
    let result = test_with_args(vec!["ym", "cp", "source.yaml", "dest.key"]);
    assert!(result.is_err());
    assert!(result.unwrap_err().contains("Invalid file:key pair"));
}

#[test]
fn test_parse_cp_invalid_source_format() {
    let result = test_with_args(vec!["ym", "cp", "invalid", "dest.key"]);
    assert!(result.is_err());
    assert!(result.unwrap_err().contains("Invalid file:key pair"));
}

#[test]
fn test_parse_cp_too_many_arguments() {
    let result = test_with_args(vec![
        "ym",
        "cp",
        "source.yaml:key",
        "dest1.yaml:key",
        "dest2.yaml:key",
    ]);
    assert!(result.is_err());
    assert!(result
        .unwrap_err()
        .contains("cp accepts at most one destination argument"));
}

// ==================== mv Tests ====================

#[test]
fn test_parse_mv_same_file_same_key() {
    // Error: both destination file and key omitted
    let result = test_with_args(vec!["ym", "mv", "file.yaml:source.key"]);
    assert!(result.is_err());
    assert!(result
        .unwrap_err()
        .contains("destination file and destination key cannot both be omitted"));
}

#[test]
fn test_parse_mv_same_file_different_key() {
    let cmd = test_with_args(vec!["ym", "mv", "file.yaml:source.key", "dest.key"]).unwrap();

    match cmd {
        Command::Mv {
            source_file,
            source_key,
            dest_file,
            dest_key,
        } => {
            assert_eq!(source_file, "file.yaml");
            assert_eq!(source_key, "source.key");
            assert_eq!(dest_file, None);
            assert_eq!(dest_key, Some("dest.key".to_string()));
        }
        _ => panic!("Expected Mv command"),
    }
}

#[test]
fn test_parse_mv_different_file_same_key() {
    let cmd = test_with_args(vec!["ym", "mv", "source.yaml:mykey", "dest.yaml:mykey"]).unwrap();

    match cmd {
        Command::Mv {
            source_file,
            source_key,
            dest_file,
            dest_key,
        } => {
            assert_eq!(source_file, "source.yaml");
            assert_eq!(source_key, "mykey");
            assert_eq!(dest_file, Some("dest.yaml".to_string()));
            assert_eq!(dest_key, Some("mykey".to_string()));
        }
        _ => panic!("Expected Mv command"),
    }
}

#[test]
fn test_parse_mv_different_file_different_key() {
    let cmd = test_with_args(vec![
        "ym",
        "mv",
        "source.yaml:source.key",
        "dest.yaml:dest.key",
    ])
    .unwrap();

    match cmd {
        Command::Mv {
            source_file,
            source_key,
            dest_file,
            dest_key,
        } => {
            assert_eq!(source_file, "source.yaml");
            assert_eq!(source_key, "source.key");
            assert_eq!(dest_file, Some("dest.yaml".to_string()));
            assert_eq!(dest_key, Some("dest.key".to_string()));
        }
        _ => panic!("Expected Mv command"),
    }
}

#[test]
fn test_parse_mv_only_destination_file() {
    let cmd = test_with_args(vec!["ym", "mv", "source.yaml:mykey", "dest.yaml:"]).unwrap();

    match cmd {
        Command::Mv {
            source_file,
            source_key,
            dest_file,
            dest_key,
        } => {
            assert_eq!(source_file, "source.yaml");
            assert_eq!(source_key, "mykey");
            assert_eq!(dest_file, Some("dest.yaml".to_string()));
            assert_eq!(dest_key, None);
        }
        _ => panic!("Expected Mv command"),
    }
}

#[test]
fn test_parse_mv_missing_source_key() {
    let result = test_with_args(vec!["ym", "mv", "source.yaml", "dest.key"]);
    assert!(result.is_err());
    assert!(result.unwrap_err().contains("Invalid file:key pair"));
}

#[test]
fn test_parse_mv_invalid_source_format() {
    let result = test_with_args(vec!["ym", "mv", "invalid", "dest.key"]);
    assert!(result.is_err());
    assert!(result.unwrap_err().contains("Invalid file:key pair"));
}

#[test]
fn test_parse_mv_too_many_arguments() {
    let result = test_with_args(vec![
        "ym",
        "mv",
        "source.yaml:key",
        "dest1.yaml:key",
        "dest2.yaml:key",
    ]);
    assert!(result.is_err());
    assert!(result
        .unwrap_err()
        .contains("mv accepts at most one destination argument"));
}
