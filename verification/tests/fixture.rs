use httpcheck::fixture::resolve_fixture;
use httpcheck::url::{resolve_addr, split_url};

fn names(v: &[&str]) -> Vec<String> {
    v.iter().map(|s| s.to_string()).collect()
}

#[test]
fn single_matching_entry_is_found() {
    let entries = names(&["readme.md", "7.json", "10.json"]);
    assert_eq!(resolve_fixture(&entries, 7), Some("7.json".to_string()));
    assert_eq!(resolve_fixture(&entries, 10), Some("10.json".to_string()));
}

#[test]
fn no_matching_entry_yields_none() {
    let entries = names(&["readme.md", "7.json"]);
    assert_eq!(resolve_fixture(&entries, 8), None);
    assert_eq!(resolve_fixture(&names(&[]), 7), None);
}

#[test]
fn prefix_must_be_the_whole_id() {
    let entries = names(&["70.json", "7x.json", "7"]);
    assert_eq!(resolve_fixture(&entries, 7), None);
}

#[test]
fn tie_break_is_lexicographic() {
    let entries = names(&["7.json", "7.a"]);
    assert_eq!(resolve_fixture(&entries, 7), Some("7.a".to_string()));
    let reversed = names(&["7.a", "7.json"]);
    assert_eq!(resolve_fixture(&reversed, 7), Some("7.a".to_string()));
}

#[test]
fn multi_dot_names_keep_their_extension() {
    let entries = names(&["7.tar.gz"]);
    assert_eq!(resolve_fixture(&entries, 7), Some("7.tar.gz".to_string()));
}

#[test]
fn url_parts_are_extracted() {
    let (host, port, authority) = split_url("http://example.test:8080/a/b?q=1").unwrap();
    assert_eq!(host, "example.test");
    assert_eq!(port, Some(8080));
    assert_eq!(authority, "example.test:8080");

    let (host2, port2, authority2) = split_url("http://example.test/a").unwrap();
    assert_eq!(host2, "example.test");
    assert_eq!(port2, None);
    assert_eq!(authority2, "example.test");

    assert_eq!(split_url("/relative/path"), None);
    assert_eq!(split_url("not a url"), None);
}

#[test]
fn addr_defaults_to_port_80() {
    assert_eq!(resolve_addr("example.test", None), "example.test:80");
    assert_eq!(resolve_addr("example.test", Some(8080)), "example.test:8080");
}
