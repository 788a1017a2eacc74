use httpcheck::errors::TestError;
use httpcheck::json::JsonValue;
use httpcheck::request::{kv_get, parse_comment, parse_headers, parse_req, ResultType, TestRequest};
use httpcheck::text::{parse_usize, split_tokens, str_eq, trim};

fn lines(v: &[&str]) -> Vec<String> {
    v.iter().map(|s| s.to_string()).collect()
}

#[test]
fn trim_removes_surrounding_whitespace() {
    assert_eq!(trim("  a b \t"), "a b");
    assert_eq!(trim(""), "");
    assert_eq!(trim("   "), "");
    assert_eq!(trim("x"), "x");
}

#[test]
fn split_tokens_discards_empty_tokens() {
    assert_eq!(split_tokens("GET  http://x   HTTP/1.1"), lines(&["GET", "http://x", "HTTP/1.1"]));
    assert_eq!(split_tokens("   "), Vec::<String>::new());
    assert_eq!(split_tokens("one"), lines(&["one"]));
}

#[test]
fn parse_usize_accepts_digits_only() {
    assert_eq!(parse_usize("0"), Some(0));
    assert_eq!(parse_usize("007"), Some(7));
    assert_eq!(parse_usize("1234"), Some(1234));
    assert_eq!(parse_usize(""), None);
    assert_eq!(parse_usize("12a"), None);
    assert_eq!(parse_usize("-3"), None);
    assert_eq!(parse_usize("99999999999999999999999999"), None);
}

#[test]
fn str_eq_compares_text() {
    assert!(str_eq("abc", "abc"));
    assert!(!str_eq("abc", "abd"));
    assert!(!str_eq("abc", "ab"));
}

#[test]
fn request_line_round_trips_method_and_url() {
    let (m, u, v) = parse_req("GET http://example.test/api HTTP/1.1").unwrap();
    assert_eq!(m, "GET");
    assert_eq!(u, "http://example.test/api");
    assert!(v);
}

#[test]
fn request_line_other_version_is_unset() {
    let (m, u, v) = parse_req("POST http://h/x HTTP/2").unwrap();
    assert_eq!(m, "POST");
    assert_eq!(u, "http://h/x");
    assert!(!v);
    let (_, _, v2) = parse_req("GET http://h/x").unwrap();
    assert!(!v2);
}

#[test]
fn request_line_needs_two_tokens() {
    assert_eq!(parse_req("GET"), Err(TestError::BadRequestLine));
    assert_eq!(parse_req(""), Err(TestError::BadRequestLine));
}

#[test]
fn directive_pairs_are_trimmed_and_ordered() {
    let pairs = parse_comment("id: 1, status : 200 ,result_type: json").unwrap();
    assert_eq!(
        pairs,
        vec![
            ("id".to_string(), "1".to_string()),
            ("status".to_string(), "200".to_string()),
            ("result_type".to_string(), "json".to_string()),
        ]
    );
}

#[test]
fn directive_pair_without_colon_fails() {
    assert_eq!(parse_comment("id 1"), Err(TestError::BadDirectivePair));
    assert_eq!(parse_comment("id: 1, nonsense"), Err(TestError::BadDirectivePair));
}

#[test]
fn kv_get_last_occurrence_wins() {
    let pairs = parse_comment("id: 1, id: 2").unwrap();
    assert_eq!(kv_get(&pairs, "id"), Some("2".to_string()));
    assert_eq!(kv_get(&pairs, "status"), None);
}

#[test]
fn headers_stop_at_blank_line() {
    let ls = lines(&["Accept: application/json", "X-Two: b: c", "", "rest"]);
    let (hs, pos) = parse_headers(&ls, 0).unwrap();
    assert_eq!(
        hs,
        Some(vec![
            ("Accept".to_string(), "application/json".to_string()),
            ("X-Two".to_string(), "b: c".to_string()),
        ])
    );
    assert_eq!(pos, 3);
}

#[test]
fn no_header_lines_yield_none() {
    let ls = lines(&["", "body"]);
    let (hs, pos) = parse_headers(&ls, 0).unwrap();
    assert_eq!(hs, None);
    assert_eq!(pos, 1);
}

#[test]
fn header_line_without_colon_fails() {
    let ls = lines(&["broken header", ""]);
    assert_eq!(parse_headers(&ls, 0), Err(TestError::BadHeaderLine));
}

#[test]
fn parse_http_file_reads_a_full_block() {
    let content = "### id: 1, status: 200, result_type: json, result_path: fixtures/1.json\n\
                   GET http://example.test:8080/api/items HTTP/1.1\n\
                   Accept: application/json\n\
                   \n\
                   {\"filter\": \"active\"}\n\
                   # trailing comment\n";
    let cases = TestRequest::parse_http_file("suite.http", content, ".", &None).unwrap();
    assert_eq!(cases.len(), 1);
    let c = &cases[0];
    assert_eq!(c.id, Some(1));
    assert_eq!(c.status, Some("200".to_string()));
    assert_eq!(c.method, "GET");
    assert_eq!(c.url, "http://example.test:8080/api/items");
    assert_eq!(c.host, "example.test");
    assert_eq!(c.port, Some(8080));
    assert_eq!(c.authority, "example.test:8080");
    assert!(c.http11);
    assert_eq!(c.expected_result.0, ResultType::Json);
    assert_eq!(c.expected_result.1, "fixtures/1.json");
    assert_eq!(
        c.headers,
        Some(vec![("Accept".to_string(), "application/json".to_string())])
    );
    match &c.json_data {
        Some(JsonValue::Obj(m)) => {
            assert_eq!(m.len(), 1);
            assert_eq!(m[0].0, "filter");
            assert_eq!(m[0].1, JsonValue::Str("active".to_string()));
        },
        other => panic!("unexpected body: {:?}", other),
    }
}

#[test]
fn parse_http_file_reads_two_blocks_and_comments() {
    let content = "# a free comment\n\
                   ### result_path: a.json\n\
                   GET http://h/a\n\
                   \n\
                   # another comment\n\
                   ### result_path: b.json\n\
                   POST http://h/b\n";
    let cases = TestRequest::parse_http_file("t.http", content, ".", &None).unwrap();
    assert_eq!(cases.len(), 2);
    assert_eq!(cases[0].method, "GET");
    assert_eq!(cases[0].port, None);
    assert_eq!(cases[1].method, "POST");
    assert_eq!(cases[1].json_data, None);
    assert_eq!(cases[1].headers, None);
}

#[test]
fn missing_result_path_and_id_is_a_parse_error() {
    let content = "### status: 200\nGET http://h/a\n";
    let err = TestRequest::parse_http_file("t.http", content, ".", &None).unwrap_err();
    assert_eq!(err, TestError::NoOutputResult);
    assert_eq!(err.message(), "no output result is defined");
}

#[test]
fn id_resolves_fixture_from_directory_listing() {
    let content = "### id: 7\nGET http://h/a\n";
    let entries = Some(vec!["readme.md".to_string(), "7.json".to_string()]);
    let cases = TestRequest::parse_http_file("spec.http", content, "cases", &entries).unwrap();
    assert_eq!(cases[0].expected_result.1, "cases/7.json");
    assert_eq!(cases[0].expected_result.0, ResultType::Unspecified);
}

#[test]
fn id_without_matching_entry_fails() {
    let content = "### id: 7\nGET http://h/a\n";
    let entries = Some(vec!["8.json".to_string()]);
    let err = TestRequest::parse_http_file("spec.http", content, "cases", &entries).unwrap_err();
    assert_eq!(err, TestError::NoOutputResult);
}

#[test]
fn bad_id_is_reported() {
    let content = "### id: seven, result_path: a.json\nGET http://h/a\n";
    let err = TestRequest::parse_http_file("t.http", content, ".", &None).unwrap_err();
    assert_eq!(err, TestError::BadId);
}

#[test]
fn url_without_host_is_reported() {
    let content = "### result_path: a.json\nGET /relative/only\n";
    let err = TestRequest::parse_http_file("t.http", content, ".", &None).unwrap_err();
    assert_eq!(err, TestError::BadUrl);
}

#[test]
fn wrong_file_suffix_is_reported() {
    let err = TestRequest::parse_http_file("t.txt", "", ".", &None).unwrap_err();
    assert_eq!(err, TestError::BadFileSuffix);
    let err2 = TestRequest::parse_http_file("nodot", "", ".", &None).unwrap_err();
    assert_eq!(err2, TestError::BadFileSuffix);
}

#[test]
fn empty_file_has_no_cases() {
    let cases = TestRequest::parse_http_file("t.http", "", ".", &None).unwrap();
    assert!(cases.is_empty());
    let only_comments = TestRequest::parse_http_file("t.http", "# one\n# two\n", ".", &None)
        .unwrap();
    assert!(only_comments.is_empty());
}

#[test]
fn block_must_open_with_marker() {
    let content = "GET http://h/a\n";
    let err = TestRequest::parse_http_file("t.http", content, ".", &None).unwrap_err();
    assert_eq!(err, TestError::UnexpectedStart);
}

#[test]
fn body_that_is_not_json_is_reported() {
    let content = "### result_path: a.json\nGET http://h/a\n\nnot json at all\n### result_path: b.json\nGET http://h/b\n";
    let err = TestRequest::parse_http_file("t.http", content, ".", &None).unwrap_err();
    assert_eq!(err, TestError::BadJson);
}

#[test]
fn body_at_end_of_file_is_parsed() {
    let content = "### result_path: a.json\nGET http://h/a\n\n{\"x\":\n1}";
    let cases = TestRequest::parse_http_file("t.http", content, ".", &None).unwrap();
    match &cases[0].json_data {
        Some(JsonValue::Obj(m)) => {
            assert_eq!(m[0].0, "x");
            assert_eq!(m[0].1, JsonValue::Num("1".to_string()));
        },
        other => panic!("unexpected body: {:?}", other),
    }
}

#[test]
fn missing_request_line_is_reported() {
    let content = "### result_path: a.json";
    let err = TestRequest::parse_http_file("t.http", content, ".", &None).unwrap_err();
    assert_eq!(err, TestError::MissingRequestLine);
}
