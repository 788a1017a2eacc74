use httpcheck::errors::TestError;
use httpcheck::json::{json_diff, parse_json, JsonValue, PathStep};
use httpcheck::request::TestRequest;
use httpcheck::validator::to_text;

fn case(directive: &str) -> TestRequest {
    let content = format!("### {}\nGET http://example.test/api\n", directive);
    let cases = TestRequest::parse_http_file("suite.http", &content, ".", &None).unwrap();
    assert_eq!(cases.len(), 1);
    cases.into_iter().next().unwrap()
}

fn doc(text: &str) -> JsonValue {
    parse_json(text).unwrap()
}

#[test]
fn identical_documents_have_no_diff() {
    let samples = [
        "null",
        "true",
        "0",
        "-12.5",
        "\"hello\"",
        "[1,2,[3]]",
        "{\"a\":1,\"b\":{\"c\":[true,null]}}",
    ];
    for s in samples {
        let a = doc(s);
        let b = doc(s);
        assert!(json_diff(&a, &b).is_none(), "diff found for {}", s);
    }
}

#[test]
fn object_member_order_does_not_matter() {
    let a = doc("{\"a\":1,\"b\":2}");
    let b = doc("{\"b\":2,\"a\":1}");
    assert!(json_diff(&a, &b).is_none());
}

#[test]
fn array_element_order_does_matter() {
    let a = doc("[1,2]");
    let b = doc("[2,1]");
    assert!(json_diff(&a, &b).is_some());
}

#[test]
fn diff_reports_path_and_both_parts() {
    let a = doc("{\"a\":{\"b\":[1,2]}}");
    let b = doc("{\"a\":{\"b\":[1,3]}}");
    let (path, left, right) = json_diff(&a, &b).unwrap();
    assert_eq!(
        path,
        vec![
            PathStep::Key("a".to_string()),
            PathStep::Key("b".to_string()),
            PathStep::Index(1),
        ]
    );
    assert_eq!(*left, JsonValue::Num("2".to_string()));
    assert_eq!(*right, JsonValue::Num("3".to_string()));
}

#[test]
fn missing_and_extra_keys_are_mismatches() {
    let a = doc("{\"a\":1}");
    let b = doc("{\"a\":1,\"b\":2}");
    assert!(json_diff(&a, &b).is_some());
    assert!(json_diff(&b, &a).is_some());
}

#[test]
fn number_comparison_is_exact() {
    assert!(json_diff(&doc("1"), &doc("1.0")).is_some());
    assert!(json_diff(&doc("1"), &doc("\"1\"")).is_some());
    assert!(json_diff(&doc("1.5"), &doc("1.5")).is_none());
}

#[test]
fn to_text_writes_documents_back() {
    assert_eq!(to_text(&doc("null")), "null");
    assert_eq!(to_text(&doc("[1,2]")), "[1,2]");
    assert_eq!(to_text(&doc("{\"a\":1,\"b\":\"x\"}")), "{\"a\":1,\"b\":\"x\"}");
    assert_eq!(to_text(&doc("[]")), "[]");
    assert_eq!(to_text(&doc("{}")), "{}");
    assert_eq!(to_text(&doc("[true,false]")), "[true,false]");
}

#[test]
fn different_shapes_are_mismatches() {
    assert!(json_diff(&doc("[]"), &doc("{}")).is_some());
    assert!(json_diff(&doc("null"), &doc("false")).is_some());
    assert!(json_diff(&doc("[1]"), &doc("[1,1]")).is_some());
}

#[test]
fn matching_body_and_status_pass() {
    let c = case("result_type: json, result_path: f.json");
    let actual = doc("{\"a\":1}");
    assert_eq!(c.test(&actual, 200, "{\"a\":1}"), Ok(None));
}

#[test]
fn differing_value_is_cited_with_its_key() {
    let c = case("result_type: json, result_path: f.json");
    let actual = doc("{\"a\":1}");
    let msg = c.test(&actual, 200, "{\"a\":2}").unwrap().unwrap();
    assert_eq!(msg, "json mismatch at path $.a: expected 2, got 1");
}

#[test]
fn status_mismatch_cites_both_values() {
    let c = case("status: 200, result_path: f.json");
    let actual = doc("{\"a\":1}");
    let msg = c.test(&actual, 404, "{\"a\":1}").unwrap().unwrap();
    assert_eq!(msg, "http status does not match: expected 200, got 404");
}

#[test]
fn matching_declared_status_passes() {
    let c = case("status: 404, result_path: f.json");
    let actual = doc("[]");
    assert_eq!(c.test(&actual, 404, "[]"), Ok(None));
}

#[test]
fn body_mismatch_is_reported_before_status() {
    let c = case("status: 200, result_path: f.json");
    let actual = doc("[1]");
    let msg = c.test(&actual, 404, "[2]").unwrap().unwrap();
    assert_eq!(msg, "json mismatch at path $[0]: expected 2, got 1");
}

#[test]
fn unreadable_fixture_is_a_hard_error() {
    let c = case("result_path: f.json");
    let actual = doc("{}");
    assert_eq!(c.test(&actual, 200, "not json"), Err(TestError::BadJson));
}

#[test]
fn xml_kind_is_refused() {
    let c = case("result_type: xml, result_path: f.xml");
    let actual = doc("{}");
    let err = c.test(&actual, 200, "{}").unwrap_err();
    assert_eq!(err, TestError::UnsupportedResultKind);
    assert_eq!(err.message(), "unsupported expected-result kind");
}

#[test]
fn verdicts_agree_with_a_reference_comparison() {
    let pairs = [
        ("{\"a\":1,\"b\":[1,2]}", "{\"b\":[1,2],\"a\":1}"),
        ("{\"a\":1}", "{\"a\":2}"),
        ("[1,2]", "[2,1]"),
        ("{\"a\":{\"b\":1}}", "{\"a\":{\"b\":1}}"),
        ("{\"a\":1}", "{\"a\":1,\"b\":2}"),
        ("null", "null"),
        ("1.25", "1.25"),
    ];
    let config = assert_json_diff::Config::new(assert_json_diff::CompareMode::Strict);
    for (l, r) in pairs {
        let sl: serde_json::Value = serde_json::from_str(l).unwrap();
        let sr: serde_json::Value = serde_json::from_str(r).unwrap();
        let reference =
            assert_json_diff::assert_json_matches_no_panic(&sl, &sr, config.clone()).is_ok();
        let ours = json_diff(&doc(l), &doc(r)).is_none();
        assert_eq!(ours, reference, "disagreement on {} vs {}", l, r);
    }
}
