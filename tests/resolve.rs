use std::collections::HashMap;

use wwebs::config::{ResolutionInfo, WWebS};
use wwebs::engine::{Action, Event, Meta, Server};
use wwebs::message::{Request, RequestUrl, Response};
use wwebs::process::{outcome_response, Invocation, ProcessOutcome};
use wwebs::strmap::StrMap;

type Program = fn(&Invocation) -> ProcessOutcome;

#[derive(Clone)]
struct Node {
    readable: bool,
    exec: bool,
    dir: bool,
    content: Vec<u8>,
    index: Option<String>,
    program: Option<Program>,
}

#[derive(Default)]
struct Host {
    nodes: HashMap<String, Node>,
}

fn key(names: &[String]) -> String {
    names.iter().filter(|n| !n.is_empty()).cloned().collect::<Vec<_>>().join("/")
}

impl Host {
    fn dir(&mut self, path: &str) {
        self.nodes.insert(path.to_string(), Node { readable: true, exec: true, dir: true, content: vec![], index: None, program: None });
    }
    fn dir_with_index(&mut self, path: &str, index: &str) {
        self.dir(path);
        self.nodes.get_mut(path).unwrap().index = Some(index.to_string());
    }
    fn file(&mut self, path: &str, content: &[u8]) {
        self.nodes.insert(path.to_string(), Node { readable: true, exec: false, dir: false, content: content.to_vec(), index: None, program: None });
    }
    fn program(&mut self, path: &str, p: Program) {
        self.nodes.insert(path.to_string(), Node { readable: true, exec: true, dir: false, content: vec![], index: None, program: Some(p) });
    }
    fn children(&self, path: &str) -> Vec<String> {
        let mut out = vec![];
        for k in self.nodes.keys() {
            let parent = match k.rfind('/') {
                Some(i) => &k[..i],
                None => "",
            };
            if parent == path && !k.is_empty() {
                out.push(k[k.rfind('/').map_or(0, |i| i + 1)..].to_string());
            }
        }
        out
    }

    fn resolve(&self, request: Request) -> (Response, Vec<String>) {
        let server = Server::new("/srv".to_string());
        let mut r = server.exec(request, 0, WWebS::empty());
        let mut trace = vec![];
        loop {
            let event = match r.next_action() {
                Action::Done(resp) => return (resp, trace),
                Action::Stat(p) => {
                    let k = key(&p);
                    trace.push(format!("stat {}", k));
                    let m = match self.nodes.get(&k) {
                        Some(n) => Meta { readable: n.readable, executable: n.exec, is_dir: n.dir, is_file: !n.dir },
                        None => Meta { readable: false, executable: false, is_dir: false, is_file: false },
                    };
                    Event::Stat(m)
                }
                Action::ListDir(p) => Event::Listed(self.children(&key(&p))),
                Action::ReadConfig(p) => {
                    let cfg = self.nodes.get(&key(&p)).and_then(|n| n.index.clone()).map(|i| WWebS {
                        resolution: Some(ResolutionInfo { index: Some(i) }),
                        env: None,
                    });
                    Event::Config(cfg)
                }
                Action::ReadFile(p) => {
                    let k = key(&p);
                    trace.push(format!("read {}", k));
                    Event::FileRead(self.nodes.get(&k).map(|n| n.content.clone()))
                }
                Action::Run(inv) => {
                    let k = key(&inv.program);
                    trace.push(format!("run {}", k));
                    let outcome = match self.nodes.get(&k).and_then(|n| n.program) {
                        Some(p) => p(&inv),
                        None => ProcessOutcome::Failed,
                    };
                    Event::Ran(outcome_response(outcome).0)
                }
            };
            assert!(r.accepts(&event));
            r.step(event);
        }
    }
}

fn request(path: &str) -> Request {
    let segments: Vec<String> = path.trim_start_matches('/').split('/').map(|s| s.to_string()).collect();
    Request {
        proto: "Http".to_string(),
        verb: "GET".to_string(),
        url: RequestUrl { segments, query: None },
        headers: StrMap::new(),
        body: vec![],
    }
}

fn exit_with(code: u32) -> ProcessOutcome {
    ProcessOutcome::Finished { exit: Some(code), stdout: vec![], stderr: vec![] }
}

fn site() -> Host {
    let mut h = Host::default();
    h.dir("");
    h
}

#[test]
fn unreadable_entry_is_not_found() {
    let mut h = site();
    h.file("secret", b"x");
    h.nodes.get_mut("secret").unwrap().readable = false;
    let (resp, trace) = h.resolve(request("/secret"));
    assert_eq!(resp.status, 404);
    assert!(resp.body.is_empty());
    assert!(!trace.iter().any(|t| t.starts_with("read") || t.starts_with("run")));
}

#[test]
fn unreadable_executable_entry_is_not_found() {
    let mut h = site();
    h.program("tool", |_| exit_with(0));
    h.nodes.get_mut("tool").unwrap().readable = false;
    let (resp, trace) = h.resolve(request("/tool"));
    assert_eq!(resp.status, 404);
    assert!(!trace.iter().any(|t| t.starts_with("run")));
}

#[test]
fn missing_entry_is_not_found() {
    let h = site();
    let (resp, _) = h.resolve(request("/nothing"));
    assert_eq!(resp.status, 404);
}

#[test]
fn root_serves_index() {
    let mut h = site();
    h.file("index.html", b"Hello");
    let (resp, _) = h.resolve(request("/"));
    assert_eq!(resp.status, 200);
    assert_eq!(resp.body, b"Hello".to_vec());
}

#[test]
fn descriptor_sets_index_and_is_inherited() {
    let mut h = site();
    h.dir_with_index("A", "home.html");
    h.file("A/home.html", b"A home");
    h.dir("A/B");
    h.file("A/B/home.html", b"B home");
    h.file("A/B/index.html", b"wrong");
    let (resp, _) = h.resolve(request("/A/"));
    assert_eq!(resp.status, 200);
    assert_eq!(resp.body, b"A home".to_vec());
    let (resp, _) = h.resolve(request("/A/B/"));
    assert_eq!(resp.status, 200);
    assert_eq!(resp.body, b"B home".to_vec());
}

#[test]
fn failing_gatekeeper_blocks_target() {
    let mut h = site();
    h.dir("D");
    h.program("D/.gatekeeper0", |_| exit_with(403));
    h.file("D/page", b"private");
    h.program("D/tool", |_| exit_with(0));
    for path in ["/D/page", "/D/tool"] {
        let (resp, trace) = h.resolve(request(path));
        assert_eq!(resp.status, 403);
        assert!(!trace.iter().any(|t| t == "read D/page" || t == "run D/tool"));
    }
}

#[test]
fn last_failing_gatekeeper_wins() {
    let mut h = site();
    h.dir("D");
    h.program("D/.gatekeeper1", |_| exit_with(403));
    h.program("D/.gatekeeper2", |_| exit_with(401));
    h.file("D/page", b"private");
    let (resp, trace) = h.resolve(request("/D/page"));
    assert_eq!(resp.status, 401);
    let g1 = trace.iter().position(|t| t == "run D/.gatekeeper1").unwrap();
    let g2 = trace.iter().position(|t| t == "run D/.gatekeeper2").unwrap();
    assert!(g1 < g2);
}

#[test]
fn cgi_control_lines_set_status_and_header() {
    let mut h = site();
    h.program("cgi", |_| ProcessOutcome::Finished {
        exit: Some(0),
        stdout: b"body".to_vec(),
        stderr: b"status 201\nheader X-Test hello\n".to_vec(),
    });
    let (resp, _) = h.resolve(request("/cgi"));
    assert_eq!(resp.status, 201);
    assert_eq!(resp.headers.get("X-Test"), Some("hello".to_string()));
    assert_eq!(resp.body, b"body".to_vec());
}

#[test]
fn repeated_requests_give_equal_responses() {
    let mut h = site();
    h.dir("D");
    h.program("D/.res_transformer", |inv| ProcessOutcome::Finished {
        exit: Some(0),
        stdout: inv.stdin.clone(),
        stderr: b"header X-Seen yes\n".to_vec(),
    });
    h.file("D/index.html", b"page");
    let (a, ta) = h.resolve(request("/D/"));
    let (b, tb) = h.resolve(request("/D/"));
    assert_eq!(a.status, b.status);
    assert_eq!(a.body, b.body);
    assert_eq!(a.headers.entries(), b.headers.entries());
    assert_eq!(ta, tb);
    assert_eq!(a.body, b"page".to_vec());
}

#[test]
fn request_transformer_changes_what_the_target_sees() {
    let mut h = site();
    h.dir("D");
    h.program("D/.req_transformer", |_| ProcessOutcome::Finished {
        exit: Some(0),
        stdout: b"rewritten".to_vec(),
        stderr: b"header X-Added 1\n".to_vec(),
    });
    h.program("D/echo", |inv| {
        let has = inv.env.iter().any(|(k, v)| k == "HEADER_X-Added" && v == "1");
        ProcessOutcome::Finished { exit: Some(if has { 0 } else { 1 }), stdout: inv.stdin.clone(), stderr: vec![] }
    });
    let (resp, _) = h.resolve(request("/D/echo"));
    assert_eq!(resp.status, 200);
    assert_eq!(resp.body, b"rewritten".to_vec());
}

#[test]
fn response_transformer_sees_status_and_may_delete_header() {
    let mut h = site();
    h.dir("D");
    h.program("D/.res_transformer", |inv| {
        let status = inv.env.iter().find(|(k, _)| k == "STATUS").map(|(_, v)| v.clone()).unwrap_or_default();
        ProcessOutcome::Finished {
            exit: Some(0),
            stdout: status.into_bytes(),
            stderr: b"header X-Gone \n".to_vec(),
        }
    });
    h.program("D/cgi", |_| ProcessOutcome::Finished {
        exit: Some(0),
        stdout: vec![],
        stderr: b"status 202\nheader X-Gone here\n".to_vec(),
    });
    let (resp, _) = h.resolve(request("/D/cgi"));
    assert_eq!(resp.body, b"202".to_vec());
    assert_eq!(resp.headers.get("X-Gone"), None);
    assert_eq!(resp.status, 200);
}

#[test]
fn logger_does_not_change_response() {
    let mut h = site();
    h.program(".logger", |_| ProcessOutcome::Finished { exit: Some(7), stdout: b"junk".to_vec(), stderr: vec![] });
    h.file("page", b"text");
    let (resp, trace) = h.resolve(request("/page"));
    assert_eq!(resp.status, 200);
    assert_eq!(resp.body, b"text".to_vec());
    assert!(trace.iter().any(|t| t == "run .logger"));
}

#[test]
fn percent_cuts_a_segment() {
    let mut h = site();
    h.file("ab", b"cut");
    let (resp, _) = h.resolve(request("/ab%20cd"));
    assert_eq!(resp.status, 200);
    assert_eq!(resp.body, b"cut".to_vec());
}

#[test]
fn failed_program_is_internal_error() {
    let mut h = site();
    h.program("broken", |_| ProcessOutcome::Failed);
    let (resp, _) = h.resolve(request("/broken"));
    assert_eq!(resp.status, 500);
    assert_eq!(resp.body, b"INTERNAL SERVER ERROR".to_vec());
}

#[test]
fn failing_request_transformer_becomes_response() {
    let mut h = site();
    h.dir("D");
    h.program("D/.req_transformer1", |_| exit_with(418));
    h.program("D/.req_transformer2", |_| exit_with(0));
    h.file("D/page", b"text");
    let (resp, trace) = h.resolve(request("/D/page"));
    assert_eq!(resp.status, 418);
    assert!(!trace.iter().any(|t| t == "read D/page" || t == "run D/.req_transformer2"));
}
