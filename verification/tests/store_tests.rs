use nrm::store::{get_current, get_value, set_current};

fn v(s: &str) -> Vec<u8> {
    s.as_bytes().to_vec()
}

#[test]
fn get_reads_registry_value() {
    let config = b"registry = https://registry.npmjs.org/\n";
    assert_eq!(get_current(config).unwrap(), v("https://registry.npmjs.org/"));
}

#[test]
fn get_ignores_other_keys() {
    let config = b"home=https://x/\nregistry=https://a/\nother=1\n";
    assert_eq!(get_current(config).unwrap(), v("https://a/"));
}

#[test]
fn get_missing_key() {
    assert!(get_current(b"home=1\n").is_none());
}

#[test]
fn get_empty_config() {
    assert!(get_current(b"").is_none());
}

#[test]
fn get_stops_at_section_header() {
    let config = b"home=1\n[auth]\nregistry=https://a/\n";
    assert!(get_current(config).is_none());
}

#[test]
fn get_without_trailing_newline() {
    assert_eq!(get_current(b"registry=https://a/").unwrap(), v("https://a/"));
}

#[test]
fn get_value_keeps_later_equals_signs() {
    assert_eq!(get_value(b"registry=u?a=1\n", b"registry").unwrap(), v("u?a=1"));
}

#[test]
fn get_value_generic_key() {
    assert_eq!(get_value(b"alpha = 1\nbeta=2\n", b"beta").unwrap(), v("2"));
    assert!(get_value(b"alpha=1\n", b"gamma").is_none());
}

#[test]
fn set_then_get_round_trip() {
    let config = b"registry = https://old/\n";
    let out = set_current(config, b"https://registry.npmmirror.com/");
    assert_eq!(get_current(&out).unwrap(), v("https://registry.npmmirror.com/"));
}

#[test]
fn set_then_get_round_trip_from_empty() {
    let out = set_current(b"", b"https://a/");
    assert_eq!(get_current(&out).unwrap(), v("https://a/"));
}

#[test]
fn set_preserves_other_content() {
    let config = b"; note\nhome=https://x/\nregistry=old\nafter=1\n[s]\nk=v\n";
    let out = set_current(config, b"new");
    assert_eq!(out, v("; note\nhome=https://x/\nregistry=new\nafter=1\n[s]\nk=v\n"));
}

#[test]
fn set_replaces_spaced_key_line() {
    let out = set_current(b"registry   =   old\n", b"u");
    assert_eq!(out, v("registry=u\n"));
}

#[test]
fn set_creates_missing_key_before_section() {
    let out = set_current(b"home=1\n[s]\nk=v\n", b"u");
    assert_eq!(out, v("home=1\nregistry=u\n[s]\nk=v\n"));
}

#[test]
fn set_appends_missing_key() {
    let out = set_current(b"home=1\n", b"u");
    assert_eq!(out, v("home=1\nregistry=u\n"));
}

#[test]
fn set_appends_newline_first_when_text_ends_without_one() {
    let out = set_current(b"home=1", b"u");
    assert_eq!(out, v("home=1\nregistry=u\n"));
}

#[test]
fn set_on_empty_config() {
    assert_eq!(set_current(b"", b"u"), v("registry=u\n"));
}

#[test]
fn set_twice_leaves_the_same_bytes() {
    let config = b"a=1\nregistry=old\n";
    let once = set_current(config, b"u");
    let twice = set_current(&once, b"u");
    assert_eq!(once, twice);
}

#[test]
fn get_skips_comment_like_lines() {
    assert_eq!(
        get_value(b"; registry=x\nregistry=y\n", b"registry").unwrap(),
        v("y"),
    );
}

#[test]
fn get_keeps_inner_blanks_of_value() {
    assert_eq!(get_value(b"registry= a b \n", b"registry").unwrap(), v("a b"));
}
