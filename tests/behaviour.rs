use x8::headers::Headers;
use x8::random::Randomizer;
use x8::request::{split_pinned, Request};
use x8::response::{analyze_reflections, FoundParameter, Response, Status};
use x8::template::{DataType, InjectionPlace, RequestDefaults, TemplateError};

fn template(url: &str, place: InjectionPlace, body: &str) -> RequestDefaults {
    RequestDefaults::new("GET", url, Vec::new(), 0, None, None, false, None, place, body).unwrap()
}

fn bare_response(request: Request, code: u16, text: &str) -> Response {
    Response {
        time: 0,
        code,
        headers: Vec::new(),
        text: text.to_string(),
        reflected_parameters: Vec::new(),
        additional_parameter: String::new(),
        request,
    }
}

fn reflected(pairs: &[(&str, i128)]) -> Vec<(String, i128)> {
    pairs.iter().map(|(k, v)| (k.to_string(), *v)).collect()
}

fn strings(items: &[&str]) -> Vec<String> {
    items.iter().map(|s| s.to_string()).collect()
}

#[test]
fn path_template_gets_query_marker() {
    let d = template("https://example.com:8443/path", InjectionPlace::Path, "");
    assert_eq!(d.path, "/path?%s");
    assert_eq!(d.joiner, "&");
}

#[test]
fn json_body_template_from_empty_body() {
    let d = RequestDefaults::new(
        "POST",
        "https://example.com/",
        Vec::new(),
        0,
        None,
        None,
        false,
        Some(DataType::Json),
        InjectionPlace::Body,
        "",
    )
    .unwrap();
    assert_eq!(d.body, "{%s}");
    assert_eq!(d.template, "\"{k}\": {v}");
    assert_eq!(d.joiner, ", ");
    assert!(d.is_json);
}

#[test]
fn json_body_template_appends_marker() {
    let d = template("https://example.com/", InjectionPlace::Body, "{\"something\":1}");
    assert_eq!(d.body, "{\"something\":1, %s}");
}

#[test]
fn urlencoded_body_template_appends_marker() {
    let d = template("https://example.com/", InjectionPlace::Body, "a=b");
    assert_eq!(d.body, "a=b&%s");
    assert!(!d.is_json);
}

#[test]
fn header_value_template_defaults() {
    let d = template("http://example.com/x", InjectionPlace::HeaderValue, "");
    assert_eq!(d.template, "{k}={v}");
    assert_eq!(d.joiner, ";");
    assert_eq!(d.path, "/x");
    assert_eq!(d.port, 80);
}

#[test]
fn headers_template_defaults() {
    let d = template("http://example.com/x", InjectionPlace::Headers, "");
    assert_eq!(d.template, "");
    assert_eq!(d.joiner, "");
}

#[test]
fn non_ampersand_joiner_appends_marker() {
    let d = RequestDefaults::new(
        "GET",
        "https://example.com/p",
        Vec::new(),
        0,
        None,
        Some(";"),
        false,
        None,
        InjectionPlace::Path,
        "",
    )
    .unwrap();
    assert_eq!(d.path, "/p%s");
}

#[test]
fn bad_url_is_rejected() {
    let r = RequestDefaults::new("GET", "not a url", Vec::new(), 0, None, None, false, None, InjectionPlace::Path, "");
    assert_eq!(r.err(), Some(TemplateError::BadUrl));
}

#[test]
fn url_without_host_is_rejected() {
    let r = RequestDefaults::new("GET", "unix:/run/sock", Vec::new(), 0, None, None, false, None, InjectionPlace::Path, "");
    assert_eq!(r.err(), Some(TemplateError::MissingHost));
}

#[test]
fn unknown_scheme_is_rejected() {
    let r = RequestDefaults::new("GET", "foo://example.com/", Vec::new(), 0, None, None, false, None, InjectionPlace::Path, "");
    assert_eq!(r.err(), Some(TemplateError::UnknownScheme));
}

#[test]
fn template_url_round_trip() {
    let d = template("https://example.com:8443/path", InjectionPlace::Path, "");
    assert_eq!(d.url(), "https://example.com:8443/path?%s");
    let again = d.recreate(None, None, None).unwrap();
    assert_eq!(again.path, d.path);
    assert_eq!(again.url(), d.url());
    let d = template("http://example.com/", InjectionPlace::Path, "");
    assert_eq!(d.url(), "http://example.com:80/?%s");
}

#[test]
fn prepared_path_carries_one_random_value() {
    let d = RequestDefaults::default().recreate(None, None, None).unwrap();
    let mut rng = Randomizer::new(3);
    let mut r = Request::new(&d, vec!["param".to_string()]);
    r.prepare(&d, None, &mut rng);
    assert!(r.path.starts_with("/?param="));
    assert_eq!(r.path.len(), "/?param=".len() + 5);
    assert!(r.path["/?param=".len()..].chars().all(|c| c.is_ascii_lowercase() || c.is_ascii_digit()));
}

#[test]
fn prepare_twice_changes_nothing() {
    let d = template("https://example.com/", InjectionPlace::Body, "a={{random}}");
    let mut rng = Randomizer::new(11);
    let mut r = Request::new(&d, strings(&["x", "y%=%1"]));
    let sentinel = "sentinel".to_string();
    r.prepare(&d, Some(&sentinel), &mut rng);
    let (path, body, headers, params) = (r.path.clone(), r.body.clone(), r.headers.clone(), r.prepared_parameters.clone());
    r.prepare(&d, None, &mut rng);
    assert_eq!(r.path, path);
    assert_eq!(r.body, body);
    assert_eq!(r.headers, headers);
    assert_eq!(r.prepared_parameters, params);
    assert_eq!(r.prepared_parameters.len(), 3);
}

#[test]
fn random_markers_get_distinct_values() {
    let d = template("https://example.com/", InjectionPlace::Headers, "{{random}}-{{random}}");
    let mut rng = Randomizer::new(5);
    let mut r = Request::new(&d, Vec::new());
    r.prepare(&d, None, &mut rng);
    let parts: Vec<&str> = r.body.split('-').collect();
    assert_eq!(parts.len(), 2);
    assert_eq!(parts[0].len(), 5);
    assert_eq!(parts[1].len(), 5);
    assert_ne!(parts[0], parts[1]);
    assert!(!r.body.contains("{{random}}"));
}

#[test]
fn pinned_names_keep_their_value() {
    assert_eq!(split_pinned(&"admin%=%true".to_string()), Some(("admin".to_string(), "true".to_string())));
    assert_eq!(split_pinned(&"a%=%b%=%c".to_string()), Some(("a".to_string(), "b%=%c".to_string())));
    assert_eq!(split_pinned(&"plain".to_string()), None);
    let d = template("https://example.com/", InjectionPlace::Path, "");
    let mut rng = Randomizer::new(9);
    let mut r = Request::new(&d, strings(&["admin%=%true"]));
    r.prepare(&d, None, &mut rng);
    assert_eq!(r.path, "/?admin=true");
    assert_eq!(r.non_random_parameters, vec![("admin".to_string(), "true".to_string())]);
}

#[test]
fn xml_body_injection() {
    let d = RequestDefaults::new(
        "POST",
        "https://example.com/",
        Vec::new(),
        0,
        Some("<{k}>sth</{k}>"),
        Some(""),
        false,
        None,
        InjectionPlace::Body,
        "<?xml version=\"1.0\" encoding=\"UTF-8\"?><note>%s</note>",
    )
    .unwrap();
    let mut rng = Randomizer::new(2);
    let mut r = Request::new(&d, strings(&["param1"]));
    r.prepare(&d, None, &mut rng);
    assert_eq!(r.body, "<?xml version=\"1.0\" encoding=\"UTF-8\"?><note><param1>sth</param1></note>");
    assert_eq!(
        r.headers.last().unwrap(),
        &("Content-Type".to_string(), "application/x-www-form-urlencoded".to_string())
    );
}

#[test]
fn json_array_injection() {
    let d = RequestDefaults::new(
        "POST",
        "https://example.com/",
        Vec::new(),
        0,
        Some("\"{k}\""),
        Some(", "),
        false,
        None,
        InjectionPlace::Body,
        "{\"something\":[%s]}",
    )
    .unwrap();
    let mut rng = Randomizer::new(2);
    let mut r = Request::new(&d, strings(&["param1"]));
    r.prepare(&d, None, &mut rng);
    assert_eq!(r.body, "{\"something\":[\"param1\"]}");
    assert_eq!(r.headers.last().unwrap().1, "application/json");
}

#[test]
fn header_value_query_is_percent_encoded() {
    let d = RequestDefaults::new(
        "GET",
        "https://example.com/",
        vec![("X-Custom".to_string(), "%s".to_string())],
        0,
        None,
        None,
        true,
        None,
        InjectionPlace::HeaderValue,
        "",
    )
    .unwrap();
    let mut rng = Randomizer::new(4);
    let mut r = Request::new(&d, strings(&["a%=%b#c d"]));
    r.prepare(&d, None, &mut rng);
    assert_eq!(r.make_query(&d), "a%3Db%23c%20d");
    assert_eq!(r.headers.last().unwrap(), &("X-Custom".to_string(), "a%3Db%23c%20d".to_string()));
}

#[test]
fn headers_injection_adds_one_header_per_name() {
    let d = template("https://example.com/", InjectionPlace::Headers, "");
    let mut rng = Randomizer::new(4);
    let mut r = Request::new(&d, strings(&["X-One", "X-Two"]));
    r.prepare(&d, None, &mut rng);
    let n = r.headers.len();
    assert_eq!(r.headers[n - 2].0, "X-One");
    assert_eq!(r.headers[n - 1].0, "X-Two");
    assert_eq!(r.headers[n - 1].1.len(), 5);
}

#[test]
fn header_lookups() {
    let h = vec![
        ("A".to_string(), "1".to_string()),
        ("Content-Type".to_string(), "json".to_string()),
        ("A".to_string(), "2".to_string()),
    ];
    assert!(h.contains_key("A"));
    assert!(!h.contains_key("a"));
    assert_eq!(h.get_value("A"), Some("1".to_string()));
    assert_eq!(h.get_value("B"), None);
    assert_eq!(h.get_value_case_insensitive("content-TYPE"), Some("json".to_string()));
}

#[test]
fn beautify_json_gives_one_diff_line() {
    let d = template("https://example.com/", InjectionPlace::Path, "");
    let ct = vec![("content-type".to_string(), "application/json".to_string())];
    let a = Response::received(Request::new(&d, Vec::new()), &d, 200, ct.clone(), "{\"a\":1,\"b\":true}".to_string(), 0, String::new());
    let b = Response::received(Request::new(&d, Vec::new()), &d, 200, ct, "{\"a\":2,\"b\":true}".to_string(), 0, String::new());
    assert!(a.text.lines().count() > 2);
    let la: Vec<&str> = a.text.lines().collect();
    let lb: Vec<&str> = b.text.lines().collect();
    let differing = la.iter().filter(|l| !lb.contains(l)).count();
    assert_eq!(differing, 1);
    assert!(a.text.starts_with("content-type: application/json\n\n"));
}

#[test]
fn beautify_html_breaks_after_tags() {
    let d = template("https://example.com/", InjectionPlace::Path, "");
    let r = Response::received(Request::new(&d, Vec::new()), &d, 200, Vec::new(), "<a><b>x</b>".to_string(), 0, String::new());
    assert_eq!(r.text, "\n<a>\n<b>\nx</b>\n");
}

#[test]
fn count_is_case_insensitive_on_the_page() {
    let d = template("https://example.com/", InjectionPlace::Path, "");
    let r = bare_response(Request::new(&d, Vec::new()), 200, "AbC abc ABCabc");
    assert_eq!(r.count("abc"), 4);
    assert_eq!(r.count("aa"), 0);
}

#[test]
fn reflections_are_counted_against_the_baseline() {
    let mut d = template("https://example.com/", InjectionPlace::Path, "");
    let mut rng = Randomizer::new(6);
    let mut req = Request::new(&d, strings(&["a", "b"]));
    req.prepare(&d, None, &mut rng);
    let va = req.prepared_parameters.iter().find(|p| p.0 == "a").unwrap().1.clone();
    d.initial_response = Some(bare_response(Request::new(&d, Vec::new()), 200, &va));
    let mut r = bare_response(req, 200, &format!("{} {} {}", va, va, va.to_uppercase()));
    r.fill_reflected_parameters(&d);
    assert_eq!(r.reflected_parameters, vec![("a".to_string(), 2)]);
}

#[test]
fn all_deltas_equal_baseline_gives_no_verdict() {
    let d = template("https://example.com/", InjectionPlace::Path, "");
    let mut rng = Randomizer::new(8);
    let mut req = Request::new(&d, strings(&["a", "b", "c"]));
    let s = "s".to_string();
    req.prepare(&d, Some(&s), &mut rng);
    let mut r = bare_response(req, 200, "nothing here");
    r.additional_parameter = s;
    r.fill_reflected_parameters(&d);
    assert!(r.reflected_parameters.is_empty());
    assert_eq!(r.proceed_reflected_parameters(), (None, false));
}

#[test]
fn single_reflected_name_is_reported() {
    assert_eq!(analyze_reflections(&reflected(&[("a", 1)]), 4, &"s".to_string()), (Some("a".to_string()), false));
}

#[test]
fn name_beside_sentinel_is_reported() {
    assert_eq!(
        analyze_reflections(&reflected(&[("s", 2), ("a", 1)]), 2, &"s".to_string()),
        (Some("a".to_string()), false)
    );
    assert_eq!(
        analyze_reflections(&reflected(&[("a", 1), ("s", 2)]), 2, &"s".to_string()),
        (Some("a".to_string()), false)
    );
}

#[test]
fn lone_delta_is_reported_with_recheck() {
    assert_eq!(
        analyze_reflections(&reflected(&[("a", 1), ("b", 1), ("c", 1), ("d", 2)]), 5, &"s".to_string()),
        (Some("d".to_string()), true)
    );
}

#[test]
fn three_deltas_ask_for_recheck() {
    assert_eq!(
        analyze_reflections(&reflected(&[("a", 1), ("b", 2), ("c", 3)]), 4, &"s".to_string()),
        (None, true)
    );
    assert_eq!(analyze_reflections(&reflected(&[("a", 1), ("b", 1), ("c", 1)]), 4, &"s".to_string()), (None, true));
}

#[test]
fn compare_tags_repeats_and_sorts() {
    let d0 = template("https://example.com/", InjectionPlace::Path, "");
    let mut d = d0.clone();
    d.initial_response = Some(bare_response(Request::new(&d0, Vec::new()), 200, "x"));
    let r = bare_response(Request::new(&d0, Vec::new()), 404, "y");
    let lines = strings(&["b", "a", "a", "c", "a"]);
    let (code, diffs) = r.compare(&d, &lines, &Vec::new());
    assert!(code);
    assert_eq!(diffs, strings(&["a", "a (1)", "a (2)", "b", "c"]));
    let (_, again) = r.compare(&d, &lines, &diffs);
    assert!(again.is_empty());
    let (_, some) = r.compare(&d, &lines, &strings(&["a"]));
    assert_eq!(some, strings(&["b", "c"]));
}

#[test]
fn print_is_code_then_text() {
    let d = template("https://example.com/", InjectionPlace::Path, "");
    let r = bare_response(Request::new(&d, Vec::new()), 302, "body");
    assert_eq!(r.print(), "HTTP/x 302\nbody");
    assert_eq!(r.print(), bare_response(Request::new(&d, strings(&["z"])), 302, "body").print());
}

#[test]
fn request_print_sorts_headers() {
    let d = RequestDefaults::new(
        "GET",
        "https://example.com/p",
        vec![("B-Header".to_string(), "2".to_string()), ("A-Header".to_string(), "1".to_string())],
        0,
        None,
        None,
        false,
        None,
        InjectionPlace::HeaderValue,
        "",
    )
    .unwrap();
    let mut rng = Randomizer::new(12);
    let mut r = Request::new(&d, Vec::new());
    let text = r.print(&d, &mut rng);
    assert!(text.starts_with("GET /p HTTP/x\nHost: example.com\nA-Header: 1\nB-Header: 2\nUser-Agent: "));
    assert!(text.ends_with("\n\n"));
}

#[test]
fn empty_response_is_blank() {
    let d = template("https://example.com/", InjectionPlace::Path, "");
    let mut rng = Randomizer::new(1);
    let r = Request::new(&d, strings(&["q"])).empty_response(&d, &mut rng);
    assert_eq!(r.code, 0);
    assert_eq!(r.text, "");
    assert!(r.request.prepared);
    assert_eq!(r.request.prepared_parameters.len(), 1);
}

#[test]
fn status_kinds() {
    let d = template("https://example.com/", InjectionPlace::Path, "");
    let kind = |code: u16| bare_response(Request::new(&d, Vec::new()), code, "").kind();
    assert_eq!(kind(100), Status::Other);
    assert_eq!(kind(200), Status::Success);
    assert_eq!(kind(301), Status::Redirect);
    assert_eq!(kind(404), Status::UserFault);
    assert_eq!(kind(503), Status::ServerFault);
    assert_eq!(kind(700), Status::Other);
}

#[test]
fn found_parameter_joins_diffs() {
    let f = FoundParameter::new("id".to_string(), &strings(&["x", "y"]), "text".to_string());
    assert_eq!(f.diffs, "x|y");
    assert_eq!(FoundParameter::new("id".to_string(), &Vec::new(), "code".to_string()).diffs, "");
}

#[test]
fn possible_parameters_from_page() {
    let d = template("https://example.com/", InjectionPlace::Path, "");
    let page = "<input name=\"user\"><input name='user'> var token = 1; {apiKey: 2} \"abc\"";
    let r = bare_response(Request::new(&d, Vec::new()), 200, page);
    assert_eq!(r.get_possible_parameters(), strings(&["abc", "apiKey", "token", "user"]));
}

#[test]
fn new_random_makes_distinct_names() {
    let d = template("https://example.com/", InjectionPlace::Path, "");
    let mut rng = Randomizer::new(21);
    let r = Request::new_random(&d, 4, &mut rng);
    assert_eq!(r.parameters.len(), 4);
    assert!(r.parameters.iter().all(|p| p.len() == 5));
    assert_ne!(r.parameters[0], r.parameters[1]);
}

#[test]
fn path_injection_infers_json_from_body() {
    let d = template("https://example.com/api", InjectionPlace::Path, "{\"x\":1}");
    assert!(d.is_json);
    assert_eq!(d.template, "\"{k}\": {v}");
    assert_eq!(d.joiner, ", ");
    assert_eq!(d.path, "/api%s");
    let (t, j, json, dt) = RequestDefaults::guess_data_format("{}", InjectionPlace::Path, None);
    assert_eq!((t.as_str(), j.as_str(), json, dt), ("\"{k}\": {v}", ", ", true, Some(DataType::Json)));
    let (t, j, json, dt) = RequestDefaults::guess_data_format("a=b", InjectionPlace::Path, None);
    assert_eq!((t.as_str(), j.as_str(), json, dt), ("{k}={v}", "&", false, Some(DataType::Urlencoded)));
}

#[test]
fn explicit_data_type_wins_over_the_body() {
    let (t, j, json, dt) = RequestDefaults::guess_data_format("{", InjectionPlace::Body, Some(DataType::Urlencoded));
    assert_eq!((t.as_str(), j.as_str(), json, dt), ("{k}={v}", "&", false, Some(DataType::Urlencoded)));
    let (t, j, json, dt) = RequestDefaults::guess_data_format("", InjectionPlace::Headers, Some(DataType::Json));
    assert_eq!((t.as_str(), j.as_str(), json, dt), ("\"{k}\": {v}", ", ", true, Some(DataType::Json)));
}

#[test]
fn marker_placement_in_bodies() {
    let fix = |body: &str, joiner: &str, dt: DataType| RequestDefaults::fix_path_and_body("/p", body, joiner, InjectionPlace::Body, dt);
    assert_eq!(fix("", ", ", DataType::Json), ("/p".to_string(), "{%s}".to_string()));
    assert_eq!(fix("{\"something\":1}", ", ", DataType::Json), ("/p".to_string(), "{\"something\":1, %s}".to_string()));
    assert_eq!(fix("", "&", DataType::Urlencoded), ("/p".to_string(), "%s".to_string()));
    assert_eq!(fix("a=b", "&", DataType::Urlencoded), ("/p".to_string(), "a=b&%s".to_string()));
    assert_eq!(fix("x=%s", "&", DataType::Urlencoded), ("/p".to_string(), "x=%s".to_string()));
}

#[test]
fn custom_headers_are_sent_once_and_filled() {
    let d = RequestDefaults::new(
        "GET",
        "https://example.com/",
        vec![("X-Id".to_string(), "{{random}}".to_string()), ("X-Q".to_string(), "q=%s".to_string())],
        0,
        None,
        None,
        false,
        None,
        InjectionPlace::HeaderValue,
        "",
    )
    .unwrap();
    let mut rng = Randomizer::new(13);
    let mut r = Request::new(&d, strings(&["k%=%v"]));
    r.prepare(&d, None, &mut rng);
    assert_eq!(r.headers.len(), 3);
    assert_eq!(r.headers[0].0, "User-Agent");
    assert_eq!(r.headers[1].0, "X-Id");
    assert_eq!(r.headers[1].1.len(), 5);
    assert!(!r.headers.iter().any(|h| h.1.contains("{{random}}") || h.1.contains("%s")));
    assert_eq!(r.headers[2], ("X-Q".to_string(), "q=k=v".to_string()));
}

#[test]
fn fewer_reflections_than_baseline_give_a_negative_delta() {
    let mut d = template("https://example.com/", InjectionPlace::Path, "");
    let mut rng = Randomizer::new(6);
    let mut req = Request::new(&d, strings(&["a"]));
    req.prepare(&d, None, &mut rng);
    let va = req.prepared_parameters[0].1.clone();
    d.initial_response = Some(bare_response(Request::new(&d, Vec::new()), 200, &format!("{} {}", va, va)));
    let mut r = bare_response(req, 200, "");
    r.fill_reflected_parameters(&d);
    assert_eq!(r.reflected_parameters, vec![("a".to_string(), -2)]);
}

#[test]
fn generator_is_determined_by_its_seed() {
    let mut a = Randomizer::new(42);
    let mut b = Randomizer::new(42);
    assert_eq!(a.random_line(8), b.random_line(8));
    assert_eq!(a.state, b.state);
    let mut c = Randomizer::new(0);
    assert_eq!(c.state, 0x9e37_79b9_7f4a_7c15);
    let first = c.next_u64();
    assert_ne!(first, c.next_u64());
}
