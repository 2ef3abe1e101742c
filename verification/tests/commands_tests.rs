use nrm::commands::{run_current, run_use, UseOutcome};
use nrm::json::load_table;
use nrm::listing::ls_lines;
use nrm::Error;

fn v(s: &str) -> Vec<u8> {
    s.as_bytes().to_vec()
}

fn doc() -> Vec<u8> {
    let mut d = v(r#"{"npm": {"home":"h","registry":"https://registry.npmjs.org/"}, "#);
    d.extend_from_slice(
        br#""taobao": {"home":"h2","registry":"https://registry.npmmirror.com/"}}"#,
    );
    d
}

#[test]
fn scenario_ls_marks_active() {
    let table = load_table(&doc()).unwrap();
    let config = b"registry = https://registry.npmjs.org/\n";
    let current = run_current(config).unwrap();
    let lines = ls_lines(&table, &current);
    assert_eq!(lines.len(), 2);
    assert_eq!(lines[0], v("* npm ---------- https://registry.npmjs.org/"));
    assert_eq!(lines[1], v("  taobao ------- https://registry.npmmirror.com/"));
}

#[test]
fn scenario_use_taobao_then_current() {
    let table = load_table(&doc()).unwrap();
    let config = v("registry = https://registry.npmjs.org/\n");
    match run_use(&table, b"taobao", &config) {
        UseOutcome::Updated { config: new_config, message } => {
            assert_eq!(
                message,
                v("Registry has been set to: https://registry.npmmirror.com/"),
            );
            assert_eq!(
                run_current(&new_config).unwrap(),
                v("https://registry.npmmirror.com/"),
            );
        }
        UseOutcome::Unknown { .. } => panic!("taobao is a known registry"),
    }
}

#[test]
fn use_unknown_name_changes_nothing() {
    let table = load_table(&doc()).unwrap();
    let config = v("registry = x\n");
    match run_use(&table, b"nope", &config) {
        UseOutcome::Unknown { message } => {
            assert_eq!(message, v("Not find registry: nope"));
        }
        UseOutcome::Updated { .. } => panic!("nope is not a known registry"),
    }
    assert_eq!(config, v("registry = x\n"));
}

#[test]
fn use_twice_leaves_the_same_bytes() {
    let table = load_table(&doc()).unwrap();
    let once = match run_use(&table, b"npm", b"registry=old\n") {
        UseOutcome::Updated { config, .. } => config,
        UseOutcome::Unknown { .. } => panic!("npm is a known registry"),
    };
    let twice = match run_use(&table, b"npm", &once) {
        UseOutcome::Updated { config, .. } => config,
        UseOutcome::Unknown { .. } => panic!("npm is a known registry"),
    };
    assert_eq!(once, twice);
}

#[test]
fn ls_marks_nothing_when_no_url_matches() {
    let table = load_table(&doc()).unwrap();
    let lines = ls_lines(&table, b"https://elsewhere/");
    assert_eq!(lines.len(), 2);
    for line in &lines {
        assert_eq!(line[0], b' ');
    }
}

#[test]
fn ls_long_name_gets_no_dashes() {
    let table = load_table(
        br#"{"averylongregistryname": {"home":"h","registry":"https://a/"}}"#,
    )
    .unwrap();
    let lines = ls_lines(&table, b"https://a/");
    assert_eq!(lines.len(), 1);
    assert_eq!(lines[0], v("* averylongregistryname  https://a/"));
}

#[test]
fn table_lookup_finds_entry() {
    let table = load_table(&doc()).unwrap();
    let i = table.lookup(b"npm").unwrap();
    assert_eq!(table.entries[i].name, v("npm"));
    assert_eq!(table.entries[i].home, v("h"));
    assert_eq!(table.entries[i].url, v("https://registry.npmjs.org/"));
    assert!(table.lookup(b"someone-else").is_none());
}

#[test]
fn load_table_invalid_json() {
    assert_eq!(load_table(b"{").unwrap_err(), Error::InvalidJson);
}

#[test]
fn load_table_not_an_object() {
    assert_eq!(load_table(b"[1, 2]").unwrap_err(), Error::NotAnObject);
}

#[test]
fn load_table_entry_not_an_object() {
    assert_eq!(load_table(br#"{"npm": 3}"#).unwrap_err(), Error::BadEntry);
}

#[test]
fn load_table_entry_missing_home() {
    assert_eq!(
        load_table(br#"{"npm": {"registry":"https://a/"}}"#).unwrap_err(),
        Error::BadEntry,
    );
}

#[test]
fn load_table_entry_field_not_a_string() {
    assert_eq!(
        load_table(br#"{"npm": {"home":1,"registry":"https://a/"}}"#).unwrap_err(),
        Error::BadEntry,
    );
}

#[test]
fn current_missing_key_error() {
    assert_eq!(run_current(b"a=1\n").unwrap_err(), Error::MissingKey);
}
