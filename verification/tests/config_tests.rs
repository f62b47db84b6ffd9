use quackey::config::Config;
use quackey::error::AppError;

#[test]
fn absent_or_empty_file_gives_defaults() {
    let c = Config::from_json(None).unwrap();
    assert_eq!(c.storage_dir, ".");
    assert!(c.is_using_defaults());
    let c2 = Config::from_json(Some("")).unwrap();
    assert_eq!(c2.storage_dir, ".");
}

#[test]
fn configuration_round_trips() {
    let c = Config { storage_dir: "some/dir".to_string() };
    let text = c.to_json();
    assert_eq!(text, "{\n  \"storage_dir\": \"some/dir\"\n}");
    let back = Config::from_json(Some(&text)).unwrap();
    assert_eq!(back.storage_dir, "some/dir");
    assert!(!back.is_using_defaults());
}

#[test]
fn configuration_text_matches_serde_json_pretty_format() {
    let c = Config { storage_dir: "d".to_string() };
    let ours = c.to_json();
    let value: serde_json::Value = serde_json::from_str(&ours).unwrap();
    assert_eq!(value.get("storage_dir").unwrap().as_str().unwrap(), "d");
    let theirs = serde_json::to_string_pretty(&value).unwrap();
    assert_eq!(ours, theirs);
}

#[test]
fn configuration_round_trips_with_escapes() {
    let c = Config { storage_dir: "dir \"with\" \\ tricky\nchars".to_string() };
    let back = Config::from_json(Some(&c.to_json())).unwrap();
    assert_eq!(back.storage_dir, c.storage_dir);
}

#[test]
fn unreadable_configuration_is_a_parse_error() {
    for text in [
        "not json",
        "{\"storage_dir\": 3}",
        "{\"other\": \"x\"}",
        "{\"storage_dir\": \"a\", \"storage_dir\": \"b\"}",
        "{",
        "[]",
    ] {
        match Config::from_json(Some(text)) {
            Err(AppError::ParseError(_)) => {},
            other => panic!("expected a parse error for {:?}, got {:?}", text, other),
        }
    }
}

#[test]
fn whitespace_tolerant_configuration_parse() {
    let c = Config::from_json(Some("  {  \"storage_dir\"  :  \"x\"  }  ")).unwrap();
    assert_eq!(c.storage_dir, "x");
}

#[test]
fn path_derivations() {
    let c = Config::default();
    assert_eq!(c.get_storage_file_path(), "accounts.json");
    assert_eq!(c.get_log_file_path(), "totp_app.log");
    let c2 = Config { storage_dir: "vault".to_string() };
    assert_eq!(c2.get_storage_file_path(), "vault/accounts.json");
    assert_eq!(c2.get_log_file_path(), "totp_app.log");
}

#[test]
fn empty_directory_path_is_rejected() {
    let mut c = Config { storage_dir: String::new() };
    match c.validate_paths() {
        Err(AppError::InvalidInput(_)) => {},
        other => panic!("expected invalid input, got {:?}", other),
    }
    let mut ok = Config { storage_dir: "fine".to_string() };
    assert!(ok.validate_paths().is_ok());
    assert_eq!(ok.storage_dir, "fine");
}
