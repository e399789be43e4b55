use wwebs::config::{ResolutionInfo, WWebS};
use wwebs::engine::{candidate_path, merge_headers, rewrite_index, static_file_response};
use wwebs::gemini::{map_status, GConfig, GRequest, GResponse};
use wwebs::hooks::hooks_of;
use wwebs::http::HttpConfig;
use wwebs::message::{Request, RequestUrl, Response};
use wwebs::process::{build_env, inside_path, outcome_response, parse_output_commands, ProcessOutcome};
use wwebs::strmap::StrMap;
use wwebs::text::{decimal_string, join_path, parse_u16, split_lines};

fn names(v: &[&str]) -> Vec<String> {
    v.iter().map(|s| s.to_string()).collect()
}

fn env_map(pairs: &[(&str, &str)]) -> StrMap {
    let mut m = StrMap::new();
    for (k, v) in pairs {
        m.insert(k.to_string(), v.to_string());
    }
    m
}

#[test]
fn is_ok_bounds() {
    for (s, ok) in [(0u16, true), (200, true), (299, true), (300, false), (199, false), (404, false)] {
        let mut r = Response::default();
        r.status = s;
        assert_eq!(r.is_ok(), ok);
    }
}

#[test]
fn internal_server_error_body() {
    let r = Response::internal_server_error();
    assert_eq!(r.status, 500);
    assert_eq!(r.body, b"INTERNAL SERVER ERROR".to_vec());
    assert_eq!(r.headers.len(), 0);
}

#[test]
fn strmap_last_write_wins_and_remove() {
    let mut m = env_map(&[("a", "1"), ("b", "2"), ("a", "3")]);
    assert_eq!(m.get("a"), Some("3".to_string()));
    assert_eq!(m.len(), 2);
    m.remove("a");
    assert_eq!(m.get("a"), None);
    assert_eq!(m.get("b"), Some("2".to_string()));
}

#[test]
fn combine_right_index_wins() {
    let a = WWebS { resolution: Some(ResolutionInfo { index: Some("a.html".into()) }), env: None };
    let b = WWebS { resolution: Some(ResolutionInfo { index: Some("b.html".into()) }), env: None };
    let c = a.bitand(b);
    assert_eq!(c.index_name(), "b.html");
}

#[test]
fn combine_keeps_the_only_present_side() {
    let a = WWebS { resolution: Some(ResolutionInfo { index: Some("a.html".into()) }), env: None };
    let b = WWebS { resolution: Some(ResolutionInfo { index: None }), env: Some(env_map(&[("K", "v")])) };
    let c = a.bitand(b);
    assert_eq!(c.index_name(), "a.html");
    assert_eq!(c.env.unwrap().get("K"), Some("v".to_string()));
}

#[test]
fn combine_unites_environments() {
    let a = WWebS { resolution: None, env: Some(env_map(&[("X", "1"), ("Y", "1")])) };
    let b = WWebS { resolution: None, env: Some(env_map(&[("Y", "2"), ("Z", "2")])) };
    let c = a.bitand(b);
    let e = c.env.unwrap();
    assert_eq!(e.get("X"), Some("1".to_string()));
    assert_eq!(e.get("Y"), Some("2".to_string()));
    assert_eq!(e.get("Z"), Some("2".to_string()));
    assert_eq!(c.resolution.is_none(), true);
    assert_eq!(WWebS::empty().index_name(), "index.html");
}

#[test]
fn combine_is_associative_on_values() {
    let mk = |i: Option<&str>, e: &[(&str, &str)]| WWebS {
        resolution: i.map(|i| ResolutionInfo { index: Some(i.to_string()) }),
        env: if e.is_empty() { None } else { Some(env_map(e)) },
    };
    let l = mk(Some("a"), &[("k", "1")]).bitand(mk(None, &[("k", "2")])).bitand(mk(Some("c"), &[("j", "3")]));
    let r = mk(Some("a"), &[("k", "1")]).bitand(mk(None, &[("k", "2")]).bitand(mk(Some("c"), &[("j", "3")])));
    assert_eq!(l.index_name(), r.index_name());
    let (le, re) = (l.env.unwrap(), r.env.unwrap());
    for k in ["k", "j"] {
        assert_eq!(le.get(k), re.get(k));
    }
    assert_eq!(le.get("k"), Some("2".to_string()));
}

#[test]
fn lines_like_std() {
    assert_eq!(split_lines("a\r\nb\n\nc"), names(&["a", "b", "", "c"]));
    assert_eq!(split_lines("a\n"), names(&["a"]));
    assert_eq!(split_lines(""), Vec::<String>::new());
    assert_eq!(split_lines("x\r"), names(&["x\r"]));
}

#[test]
fn u16_parsing() {
    assert_eq!(parse_u16("201"), Some(201));
    assert_eq!(parse_u16("+7"), Some(7));
    assert_eq!(parse_u16("65535"), Some(65535));
    assert_eq!(parse_u16("65536"), None);
    assert_eq!(parse_u16(""), None);
    assert_eq!(parse_u16("+"), None);
    assert_eq!(parse_u16("-1"), None);
    assert_eq!(parse_u16("12a"), None);
}

#[test]
fn decimal_text() {
    assert_eq!(decimal_string(0), "0");
    assert_eq!(decimal_string(404), "404");
    assert_eq!(decimal_string(65535), "65535");
}

#[test]
fn path_joining() {
    assert_eq!(join_path(&names(&["x", "", "y"])), "x/y");
    assert_eq!(join_path(&names(&["x", ""])), "x/");
    assert_eq!(join_path(&names(&["", "x"])), "x");
    assert_eq!(join_path(&names(&[])), "");
}

#[test]
fn control_lines() {
    let mut r = Response::default();
    let logs = parse_output_commands(&b"log hi\nheader K v w\nheader nospace\nstatus abc\nplain".to_vec(), &mut r);
    assert_eq!(r.status, 500);
    assert_eq!(r.headers.get("K"), Some("v w".to_string()));
    assert_eq!(r.headers.len(), 1);
    assert_eq!(logs, names(&["hi", "plain"]));
}

#[test]
fn invalid_utf8_stderr_is_ignored() {
    let mut r = Response::default();
    let logs = parse_output_commands(&vec![0xff, b's'], &mut r);
    assert_eq!(r.status, 0);
    assert!(logs.is_empty());
}

#[test]
fn exit_codes() {
    let (r, _) = outcome_response(ProcessOutcome::Finished { exit: Some(0), stdout: b"o".to_vec(), stderr: vec![] });
    assert_eq!(r.status, 200);
    assert_eq!(r.body, b"o".to_vec());
    let (r, _) = outcome_response(ProcessOutcome::Finished { exit: Some(3), stdout: vec![], stderr: vec![] });
    assert_eq!(r.status, 3);
    let (r, _) = outcome_response(ProcessOutcome::Finished { exit: None, stdout: vec![], stderr: vec![] });
    assert_eq!(r.status, 500);
    let (r, _) = outcome_response(ProcessOutcome::Finished { exit: Some(65537), stdout: vec![], stderr: vec![] });
    assert_eq!(r.status, 1);
}

#[test]
fn inside_paths() {
    let url = names(&["cgi", "a", "b"]);
    assert_eq!(inside_path(&names(&["cgi"]), &url), "a/b");
    assert_eq!(inside_path(&names(&["cgi", "a", "b"]), &url), "");
    assert_eq!(inside_path(&names(&[".gatekeeper"]), &names(&["x", "y"])), "x/y");
    assert_eq!(inside_path(&names(&[".gatekeeper0"]), &names(&["x", "y"])), "y");
}

#[test]
fn environment_order() {
    let mut headers = StrMap::new();
    headers.insert("Host".into(), "h".into());
    let req = Request {
        proto: "Http".into(),
        verb: "POST".into(),
        url: RequestUrl { segments: names(&["a", "b"]), query: Some("q=1&q=2&r=x%20y".into()) },
        headers,
        body: vec![],
    };
    let query = req.url.query_params();
    let config = WWebS { resolution: None, env: Some(env_map(&[("EXTRA", "e")])) };
    let env = build_env(&req, &query, &config);
    let expect: Vec<(String, String)> = [
        ("PROTO", "Http"),
        ("HEADER_Host", "h"),
        ("QUERY_q", "2"),
        ("QUERY_r", "x y"),
        ("VERB", "POST"),
        ("REQUESTED", "/a/b"),
        ("EXTRA", "e"),
    ]
    .iter()
    .map(|(a, b)| (a.to_string(), b.to_string()))
    .collect();
    assert_eq!(env, expect);
}

#[test]
fn hooks_sorted_by_name() {
    let files = names(&[".gatekeeper2", "page", ".gatekeeper10", ".gatekeeper1", ".logger"]);
    assert_eq!(hooks_of(&files, ".gatekeeper"), names(&[".gatekeeper1", ".gatekeeper10", ".gatekeeper2"]));
    assert_eq!(hooks_of(&files, ".res_transformer"), Vec::<String>::new());
}

#[test]
fn candidate_cuts_at_percent() {
    assert_eq!(candidate_path(&names(&["a%2Fb", "c", "d"]), 2), names(&["a", "c"]));
    assert_eq!(candidate_path(&names(&["a"]), 5), names(&["a"]));
}

#[test]
fn index_push_follows_url_rules() {
    let mut u = RequestUrl::root();
    u.push_segment("index.html");
    assert_eq!(u.segments, names(&["index.html"]));
    let mut u = RequestUrl { segments: names(&["A", ""]), query: None };
    u.push_segment("a b.html");
    assert_eq!(u.segments, names(&["A", "", "a%20b.html"]));
    assert_eq!(u.path(), "/A//a%20b.html");
    u.push_segment("..");
    assert_eq!(u.segments.len(), 3);
}

#[test]
fn gemini_statuses() {
    let cases = [
        (0u16, 20u16), (20, 20), (61, 61), (200, 20), (250, 20), (301, 31), (302, 30), (307, 30),
        (503, 41), (500, 42), (502, 43), (429, 44), (504, 40), (404, 51), (410, 52), (400, 59),
        (401, 60), (403, 61), (600, 10), (601, 11), (418, 42), (700, 42),
    ];
    for (s, g) in cases {
        assert_eq!(map_status(s), g, "status {}", s);
    }
}

#[test]
fn gemini_meta_and_body() {
    let mut r = Response::default();
    r.status = 200;
    r.body = b"doc".to_vec();
    r.headers.insert("Content-Type".into(), "text/plain".into());
    let g = GResponse::from(r);
    assert_eq!((g.status, g.meta.as_str(), g.body), (20, "text/plain", b"doc".to_vec()));

    let mut r = Response::default();
    r.status = 200;
    r.headers.insert("GEMINI_META".into(), "text/gemini".into());
    r.headers.insert("Content-Type".into(), "text/plain".into());
    assert_eq!(GResponse::from(r).meta, "text/gemini");

    let mut r = Response::default();
    r.status = 200;
    assert_eq!(GResponse::from(r).meta, "application/octet-stream");

    let mut r = Response::default();
    r.status = 301;
    r.headers.insert("Location".into(), "/new".into());
    let g = GResponse::from(r);
    assert_eq!((g.status, g.meta.as_str()), (31, "/new"));
    let mut r = Response::default();
    r.status = 302;
    assert_eq!(GResponse::from(r).meta, "/");

    let mut r = Response::default();
    r.status = 404;
    r.body = b"not here".to_vec();
    let g = GResponse::from(r);
    assert_eq!((g.status, g.meta.as_str(), g.body.len()), (51, "not here", 0));
    let mut r = Response::default();
    r.status = 404;
    r.body = vec![0xff];
    assert_eq!(GResponse::from(r).meta, "???");
    let mut r = Response::default();
    r.status = 600;
    assert_eq!(GResponse::from(r).meta, "Body wasn't a string when it should have been");
}

#[test]
fn adapter_defaults() {
    let g = GConfig::default();
    assert_eq!((g.private.as_str(), g.public.as_str()), ("./private.pem", "public.pem"));
    let h = HttpConfig::default();
    assert_eq!((h.ip, h.port), ([127, 0, 0, 1], 8000));
    let r = Request::default();
    assert_eq!(r.url.segments, names(&[""]));
    assert_eq!(r.url.path(), "/");
}

#[test]
fn gemini_request_headers() {
    let g = GRequest {
        url: RequestUrl { segments: names(&["a"]), query: None },
        host: Some("example.org".into()),
        user_cert: Some("fp".into()),
    };
    let r = Request::from(g);
    assert_eq!(r.proto, "Gemini");
    assert_eq!(r.verb, "GET");
    assert_eq!(r.headers.get("Host"), Some("example.org".to_string()));
    assert_eq!(r.headers.get("UserCert"), Some("fp".to_string()));
    assert!(r.body.is_empty());
    let r = Request::from(GRequest { url: RequestUrl::root(), host: None, user_cert: None });
    assert_eq!(r.headers.len(), 0);
}

#[test]
fn index_rewrite_only_at_exact_depth() {
    let cfg = WWebS { resolution: Some(ResolutionInfo { index: Some("home.html".into()) }), env: None };
    let mut u = RequestUrl { segments: names(&["A", ""]), query: None };
    rewrite_index(&mut u, 1, true, &cfg);
    assert_eq!(u.segments, names(&["A", ""]));
    rewrite_index(&mut u, 2, false, &cfg);
    assert_eq!(u.segments, names(&["A", ""]));
    rewrite_index(&mut u, 2, true, &cfg);
    assert_eq!(u.segments, names(&["A", "", "home.html"]));
}

#[test]
fn header_merge_deletes_on_empty() {
    let mut into = env_map(&[("A", "1"), ("B", "2")]);
    let from = env_map(&[("A", ""), ("C", "3"), ("B", "4")]);
    merge_headers(&mut into, &from);
    assert_eq!(into.get("A"), None);
    assert_eq!(into.get("B"), Some("4".to_string()));
    assert_eq!(into.get("C"), Some("3".to_string()));
}

#[test]
fn static_file_results() {
    let r = static_file_response(Some(b"x".to_vec()));
    assert_eq!((r.status, r.body), (200, b"x".to_vec()));
    let r = static_file_response(None);
    assert_eq!((r.status, r.body.len()), (500, 0));
}

#[test]
fn cookies_become_headers() {
    let h = wwebs::http::cookie_headers("session-id=abc; theme = dark ;broken; =x");
    let expect: Vec<(String, String)> = vec![
        ("Cookie_session_id".to_string(), "abc".to_string()),
        ("Cookie_theme".to_string(), "dark".to_string()),
    ];
    assert_eq!(h, expect);
    assert!(wwebs::http::cookie_headers("").is_empty());
}

#[test]
fn splitting_at_a_character() {
    assert_eq!(wwebs::http::split_at_char("a;b;", ';'), names(&["a", "b", ""]));
    assert_eq!(wwebs::http::split_at_char("", ';'), names(&[""]));
}
