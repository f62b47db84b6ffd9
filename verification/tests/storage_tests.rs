use quackey::account::Account;
use quackey::error::AppError;
use quackey::storage::{LoadOutcome, Storage};
use quackey::totp::Algorithm;

fn sample(name: &str, issuer: Option<&str>) -> Account {
    Account::new(
        name.to_string(),
        "GEZDGNBVGY3TQOJQ".to_string(),
        6,
        30,
        Algorithm::Sha1,
        issuer.map(|s| s.to_string()),
    )
}

fn assert_accounts_equal(a: &Account, b: &Account) {
    assert_eq!(a.name(), b.name());
    assert_eq!(a.secret(), b.secret());
    assert_eq!(a.digits(), b.digits());
    assert_eq!(a.period(), b.period());
    assert_eq!(a.algorithm(), b.algorithm());
    assert_eq!(a.issuer(), b.issuer());
}

#[test]
fn new_store_is_empty() {
    let st = Storage::new("accounts.json".to_string());
    assert_eq!(st.file_path(), "accounts.json");
    assert!(st.get_accounts().unwrap().is_empty());
}

#[test]
fn save_then_load_round_trips() {
    let mut st = Storage::new("a.json".to_string());
    let originals = vec![
        sample("first", None),
        sample("second", Some("Example")),
        Account::new(
            "third".to_string(),
            "JBSWY3DPEHPK3PXP".to_string(),
            8,
            60,
            Algorithm::Sha512,
            Some("Other".to_string()),
        ),
        Account::new(
            "weird \"name\" \\ with\nescapes\tand\u{1F986}".to_string(),
            "GEZDGNBVGY3TQOJQ".to_string(),
            7,
            90,
            Algorithm::Sha256,
            Some("caf\u{e9}".to_string()),
        ),
    ];
    for a in &originals {
        st.add_account(a.clone()).unwrap();
    }
    let text = st.to_json();

    let mut st2 = Storage::new("a.json".to_string());
    assert_eq!(st2.load_from_contents(Some(&text)), LoadOutcome::Loaded);
    let loaded = st2.get_accounts().unwrap();
    assert_eq!(loaded.len(), originals.len());
    for (a, b) in originals.iter().zip(loaded.iter()) {
        assert_accounts_equal(a, b);
    }
}

#[test]
fn corrupt_contents_reset_the_store() {
    let mut st = Storage::new("dir/accounts.json".to_string());
    st.add_account(sample("kept-in-memory-only", None)).unwrap();
    let outcome = st.load_from_contents(Some("this is { not json ["));
    assert_eq!(outcome, LoadOutcome::Corrupt);
    assert!(st.get_accounts().unwrap().is_empty());
    assert_eq!(st.backup_path(), "dir/accounts.json.bak");
}

#[test]
fn missing_and_empty_files_start_empty() {
    let mut st = Storage::new("a.json".to_string());
    assert_eq!(st.load_from_contents(None), LoadOutcome::MissingFile);
    assert!(st.get_accounts().unwrap().is_empty());
    assert_eq!(st.load_from_contents(Some("")), LoadOutcome::EmptyFile);
    assert!(st.get_accounts().unwrap().is_empty());
}

#[test]
fn add_then_list_contains_the_account_once() {
    let mut st = Storage::new("a.json".to_string());
    st.add_account(sample("one", None)).unwrap();
    let accounts = st.get_accounts().unwrap();
    let hits = accounts.iter().filter(|a| a.name() == "one").count();
    assert_eq!(hits, 1);
}

#[test]
fn delete_missing_name_reports_not_found_and_changes_nothing() {
    let mut st = Storage::new("a.json".to_string());
    st.add_account(sample("kept", None)).unwrap();
    let r = st.delete_account("absent");
    assert_eq!(r, Err(AppError::NotFound("absent".to_string())));
    let accounts = st.get_accounts().unwrap();
    assert_eq!(accounts.len(), 1);
    assert_eq!(accounts[0].name(), "kept");
}

#[test]
fn delete_removes_only_the_first_match() {
    let mut st = Storage::new("a.json".to_string());
    st.add_account(sample("dup", Some("first"))).unwrap();
    st.add_account(sample("other", None)).unwrap();
    st.add_account(sample("dup", Some("second"))).unwrap();
    st.delete_account("dup").unwrap();
    let accounts = st.get_accounts().unwrap();
    assert_eq!(accounts.len(), 2);
    assert_eq!(accounts[0].name(), "other");
    assert_eq!(accounts[1].name(), "dup");
    assert_eq!(accounts[1].issuer(), Some(&"second".to_string()));
}

#[test]
fn update_changes_name_and_issuer_only() {
    let mut st = Storage::new("a.json".to_string());
    let original = Account::new(
        "before".to_string(),
        "JBSWY3DPEHPK3PXP".to_string(),
        8,
        60,
        Algorithm::Sha256,
        Some("old issuer".to_string()),
    );
    st.add_account(original.clone()).unwrap();
    st.update_account("before", "after".to_string(), None).unwrap();
    let accounts = st.get_accounts().unwrap();
    assert_eq!(accounts.len(), 1);
    let updated = &accounts[0];
    assert_eq!(updated.name(), "after");
    assert_eq!(updated.issuer(), None);
    assert_eq!(updated.secret(), original.secret());
    assert_eq!(updated.digits(), original.digits());
    assert_eq!(updated.period(), original.period());
    assert_eq!(updated.algorithm(), original.algorithm());
}

#[test]
fn update_changes_only_the_first_match() {
    let mut st = Storage::new("a.json".to_string());
    st.add_account(sample("dup", Some("first"))).unwrap();
    st.add_account(sample("dup", Some("second"))).unwrap();
    st.update_account("dup", "renamed".to_string(), None).unwrap();
    let accounts = st.get_accounts().unwrap();
    assert_eq!(accounts[0].name(), "renamed");
    assert_eq!(accounts[0].issuer(), None);
    assert_eq!(accounts[1].name(), "dup");
    assert_eq!(accounts[1].issuer(), Some(&"second".to_string()));
}

#[test]
fn update_missing_name_reports_not_found() {
    let mut st = Storage::new("a.json".to_string());
    let r = st.update_account("ghost", "anything".to_string(), None);
    assert_eq!(r, Err(AppError::NotFound("ghost".to_string())));
    assert!(st.get_accounts().unwrap().is_empty());
}

#[test]
fn repeated_list_returns_identical_snapshots() {
    let mut st = Storage::new("a.json".to_string());
    st.add_account(sample("a", None)).unwrap();
    st.add_account(sample("b", Some("issuer"))).unwrap();
    let first = st.get_accounts().unwrap();
    let second = st.get_accounts().unwrap();
    assert_eq!(first.len(), second.len());
    for (a, b) in first.iter().zip(second.iter()) {
        assert_accounts_equal(a, b);
    }
}

#[test]
fn update_file_path_rebinds_and_clears() {
    let mut st = Storage::new("old.json".to_string());
    st.add_account(sample("a", None)).unwrap();
    st.update_file_path("new/path.json");
    assert_eq!(st.file_path(), "new/path.json");
    assert!(st.get_accounts().unwrap().is_empty());
}

#[test]
fn directory_notice_fires_once_per_store() {
    let mut st = Storage::new("a.json".to_string());
    assert!(st.note_directory_creation());
    assert!(!st.note_directory_creation());
    assert!(!st.note_directory_creation());
    // a second store has its own flag
    let mut st2 = Storage::new("b.json".to_string());
    assert!(st2.note_directory_creation());
}

#[test]
fn emitted_text_is_the_pretty_format() {
    let mut st = Storage::new("a.json".to_string());
    assert_eq!(st.to_json(), "[]");
    st.add_account(sample("a", None)).unwrap();
    let expected = "[\n  {\n    \"name\": \"a\",\n    \"secret\": \"GEZDGNBVGY3TQOJQ\",\n    \"digits\": 6,\n    \"period\": 30,\n    \"algorithm\": \"SHA1\",\n    \"issuer\": null\n  }\n]";
    assert_eq!(st.to_json(), expected);
}

#[test]
fn empty_array_loads_as_empty_store() {
    let mut st = Storage::new("a.json".to_string());
    assert_eq!(st.load_from_contents(Some("[]")), LoadOutcome::Loaded);
    assert!(st.get_accounts().unwrap().is_empty());
    assert_eq!(st.load_from_contents(Some(" [ ] ")), LoadOutcome::Loaded);
    assert!(st.get_accounts().unwrap().is_empty());
}

#[test]
fn missing_optional_fields_take_defaults() {
    let text = "[{\"name\": \"n\", \"secret\": \"GEZDGNBV\"}]";
    let mut st = Storage::new("a.json".to_string());
    assert_eq!(st.load_from_contents(Some(text)), LoadOutcome::Loaded);
    let accounts = st.get_accounts().unwrap();
    assert_eq!(accounts.len(), 1);
    assert_eq!(accounts[0].name(), "n");
    assert_eq!(accounts[0].digits(), 6);
    assert_eq!(accounts[0].period(), 30);
    assert_eq!(accounts[0].algorithm(), Algorithm::Sha1);
    assert_eq!(accounts[0].issuer(), None);
}

#[test]
fn fields_parse_in_any_order() {
    let text = "[{\"period\": 60, \"secret\": \"GEZDGNBV\", \"issuer\": \"X\", \"name\": \"n\", \"algorithm\": \"SHA512\", \"digits\": 8}]";
    let mut st = Storage::new("a.json".to_string());
    assert_eq!(st.load_from_contents(Some(text)), LoadOutcome::Loaded);
    let accounts = st.get_accounts().unwrap();
    assert_eq!(accounts.len(), 1);
    assert_eq!(accounts[0].name(), "n");
    assert_eq!(accounts[0].digits(), 8);
    assert_eq!(accounts[0].period(), 60);
    assert_eq!(accounts[0].algorithm(), Algorithm::Sha512);
    assert_eq!(accounts[0].issuer(), Some(&"X".to_string()));
}

#[test]
fn out_of_range_fields_are_corrupt() {
    let mut st = Storage::new("a.json".to_string());
    let nine_digits = "[{\"name\": \"n\", \"secret\": \"GE\", \"digits\": 9}]";
    assert_eq!(st.load_from_contents(Some(nine_digits)), LoadOutcome::Corrupt);
    let zero_period = "[{\"name\": \"n\", \"secret\": \"GE\", \"period\": 0}]";
    assert_eq!(st.load_from_contents(Some(zero_period)), LoadOutcome::Corrupt);
    let bad_algorithm = "[{\"name\": \"n\", \"secret\": \"GE\", \"algorithm\": \"MD5\"}]";
    assert_eq!(st.load_from_contents(Some(bad_algorithm)), LoadOutcome::Corrupt);
}

#[test]
fn malformed_records_are_corrupt() {
    let mut st = Storage::new("a.json".to_string());
    for text in [
        "[{\"secret\": \"GE\"}]",                        // name missing
        "[{\"name\": \"n\"}]",                           // secret missing
        "[{\"name\": \"n\", \"name\": \"m\", \"secret\": \"GE\"}]", // repeated key
        "[{\"name\": \"n\", \"secret\": \"GE\", \"extra\": 1}]",    // unknown key
        "[{\"name\": \"n\", \"secret\": \"GE\"},]",      // trailing comma
        "[{\"name\": \"n\", \"secret\": \"GE\"}",        // unclosed array
        "{\"name\": \"n\"}",                             // not an array
        "[{\"name\": \"n\", \"secret\": \"GE\", \"digits\": 007}]", // leading zeros
        "[{\"name\": \"\\q\", \"secret\": \"GE\"}]",     // unknown escape
        "[{\"name\": \"\\uD800\", \"secret\": \"GE\"}]", // unpaired surrogate
    ] {
        assert_eq!(st.load_from_contents(Some(text)), LoadOutcome::Corrupt, "{}", text);
    }
}

#[test]
fn escapes_and_whitespace_parse() {
    let text = " [ \n { \"name\" : \"line\\nbreak \\\"q\\\" \\u0041\\uD834\\uDD1E\" ,\n \"secret\" : \"GEZDGNBV\" } ] ";
    let mut st = Storage::new("a.json".to_string());
    assert_eq!(st.load_from_contents(Some(text)), LoadOutcome::Loaded);
    let accounts = st.get_accounts().unwrap();
    assert_eq!(accounts[0].name(), "line\nbreak \"q\" A\u{1D11E}");
}

#[test]
fn serde_json_reads_what_the_store_writes() {
    let mut st = Storage::new("a.json".to_string());
    st.add_account(sample("interop", Some("Iss"))).unwrap();
    st.add_account(Account::new(
        "ctrl\u{1}name".to_string(),
        "GEZDGNBV".to_string(),
        8,
        60,
        Algorithm::Sha256,
        None,
    ))
    .unwrap();
    let text = st.to_json();
    let value: serde_json::Value = serde_json::from_str(&text).unwrap();
    let records = value.as_array().unwrap();
    assert_eq!(records.len(), 2);
    assert_eq!(records[0].get("name").unwrap().as_str().unwrap(), "interop");
    assert_eq!(records[0].get("issuer").unwrap().as_str().unwrap(), "Iss");
    assert_eq!(records[1].get("name").unwrap().as_str().unwrap(), "ctrl\u{1}name");
    assert_eq!(records[1].get("digits").unwrap().as_u64().unwrap(), 8);
    assert_eq!(records[1].get("period").unwrap().as_u64().unwrap(), 60);
    assert_eq!(records[1].get("algorithm").unwrap().as_str().unwrap(), "SHA256");
    assert!(records[1].get("issuer").unwrap().is_null());
}

#[test]
fn store_reads_what_serde_json_writes() {
    let mut record = serde_json::Map::new();
    record.insert(
        "name".to_string(),
        serde_json::Value::String("from serde \u{263A}".to_string()),
    );
    record.insert(
        "secret".to_string(),
        serde_json::Value::String("GEZDGNBVGY3TQOJQ".to_string()),
    );
    record.insert("digits".to_string(), serde_json::Value::from(7u64));
    record.insert("period".to_string(), serde_json::Value::from(90u64));
    record.insert(
        "algorithm".to_string(),
        serde_json::Value::String("SHA512".to_string()),
    );
    record.insert("issuer".to_string(), serde_json::Value::Null);
    let value = serde_json::Value::Array(vec![serde_json::Value::Object(record)]);
    let text = serde_json::to_string_pretty(&value).unwrap();

    let mut st = Storage::new("a.json".to_string());
    assert_eq!(st.load_from_contents(Some(&text)), LoadOutcome::Loaded);
    let accounts = st.get_accounts().unwrap();
    assert_eq!(accounts.len(), 1);
    assert_eq!(accounts[0].name(), "from serde \u{263A}");
    assert_eq!(accounts[0].digits(), 7);
    assert_eq!(accounts[0].period(), 90);
    assert_eq!(accounts[0].algorithm(), Algorithm::Sha512);
}

#[test]
fn store_reads_serde_json_reemission_of_its_own_text() {
    let mut st = Storage::new("a.json".to_string());
    st.add_account(sample("x", Some("Y"))).unwrap();
    st.add_account(sample("z", None)).unwrap();
    let ours = st.to_json();
    // serde_json re-emits the records with its own key order; the store
    // reads that text back unchanged in meaning
    let value: serde_json::Value = serde_json::from_str(&ours).unwrap();
    let theirs = serde_json::to_string_pretty(&value).unwrap();
    let mut st2 = Storage::new("a.json".to_string());
    assert_eq!(st2.load_from_contents(Some(&theirs)), LoadOutcome::Loaded);
    let first = st.get_accounts().unwrap();
    let second = st2.get_accounts().unwrap();
    assert_eq!(first.len(), second.len());
    for (a, b) in first.iter().zip(second.iter()) {
        assert_accounts_equal(a, b);
    }
}
