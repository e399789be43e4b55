//! The process invocation protocol: what a program is handed, and how what
//! it gives back becomes a response.

use vstd::prelude::*;
use crate::config::WWebS;
use crate::message::{lemma_segs_view, segs_view, url_path, Request, Response};
use crate::strmap::{pairs_of, StrMap};
use crate::text::{
    concat, find_char, index_of, is_prefix, join_path, lines_of, parse_u16, parse_u16_spec,
    path_join, split_lines, starts_with,
};

verus! {

/// Whether a name is one of the four hook names exactly.
pub open spec fn is_hook_name(n: Seq<char>) -> bool {
    n == ".gatekeeper"@ || n == ".req_transformer"@ || n == ".logger"@ || n == ".res_transformer"@
}

/// The components of a path given as names: the empty names add none.
pub open spec fn components(segs: Seq<Seq<char>>) -> Seq<Seq<char>> {
    segs.filter(|s: Seq<char>| s.len() > 0)
}

proof fn lemma_components_push(s: Seq<Seq<char>>, x: Seq<char>)
    ensures
        components(s.push(x)) == if x.len() > 0 {
            components(s).push(x)
        } else {
            components(s)
        },
{
    reveal(Seq::filter);
    assert(s.push(x).drop_last() =~= s);
    assert(s.push(x).last() == x);
}

/// The part of the request path beyond the program: the URL segments after
/// as many as the program's path has components, one fewer where the
/// program's name is a hook name; empty where the URL is not longer.
pub open spec fn inside_path_spec(program: Seq<Seq<char>>, url: Seq<Seq<char>>) -> Seq<char> {
    let c = components(program);
    if c.len() < url.len() {
        let start = if c.len() > 0 && is_hook_name(c.last()) {
            c.len() - 1
        } else {
            c.len() as int
        };
        path_join(url.skip(start))
    } else {
        Seq::empty()
    }
}

/// One program run: the program, as names below the root directory; its
/// single argument; its whole environment but the search path; and its input.
/// It runs in the directory that holds it.
pub struct Invocation {
    /// The program's path below the root, one name per entry.
    pub program: Vec<String>,
    /// The argument that follows the program's path.
    pub inside: String,
    /// The environment, in order.
    pub env: Vec<(String, String)>,
    /// What is written to the program's input.
    pub stdin: Vec<u8>,
}

/// The environment entries for the headers, the query parameters and the
/// configuration, each under its prefix.
pub open spec fn prefixed(p: Seq<char>, m: Seq<(Seq<char>, Seq<char>)>) -> Seq<(Seq<char>, Seq<char>)> {
    m.map_values(|e: (Seq<char>, Seq<char>)| (p + e.0, e.1))
}

/// The environment entries that come from the request: `PROTO`, one
/// `HEADER_` entry per header, one `QUERY_` entry per query parameter,
/// `VERB`, and `REQUESTED` (the request path).
pub open spec fn request_env(
    proto: Seq<char>,
    headers: Seq<(Seq<char>, Seq<char>)>,
    query: Seq<(Seq<char>, Seq<char>)>,
    verb: Seq<char>,
    path: Seq<char>,
) -> Seq<(Seq<char>, Seq<char>)> {
    seq![("PROTO"@, proto)] + prefixed("HEADER_"@, headers) + prefixed("QUERY_"@, query) + seq![
        ("VERB"@, verb),
        ("REQUESTED"@, path),
    ]
}

/// The environment of a program run for a request: the entries from the
/// request, then the configuration's own entries.
pub open spec fn env_spec(
    proto: Seq<char>,
    headers: Seq<(Seq<char>, Seq<char>)>,
    query: Seq<(Seq<char>, Seq<char>)>,
    verb: Seq<char>,
    path: Seq<char>,
    config_env: Seq<(Seq<char>, Seq<char>)>,
) -> Seq<(Seq<char>, Seq<char>)> {
    request_env(proto, headers, query, verb, path) + config_env
}

/// The configuration's environment entries in order; none where it has none.
pub open spec fn config_env_pairs(c: &WWebS) -> Seq<(Seq<char>, Seq<char>)> {
    match c.env {
        Some(m) => m.pairs(),
        None => Seq::empty(),
    }
}

fn push_prefixed(out: &mut Vec<(String, String)>, p: &str, m: &StrMap)
    ensures
        pairs_of(final(out)@) == pairs_of(old(out)@) + prefixed(p@, m.pairs()),
{
    let es = m.entries();
    let mut i: usize = 0;
    while i < es.len()
        invariant
            i <= es.len(),
            pairs_of(es@) == m.pairs(),
            pairs_of(out@) == pairs_of(old(out)@) + prefixed(p@, pairs_of(es@).take(i as int)),
        decreases es.len() - i,
    {
        let e = (concat(p, es[i].0.as_str()), es[i].1.clone());
        let ghost prev = out@;
        out.push(e);
        assert(pairs_of(out@) =~= pairs_of(prev).push((e.0@, e.1@)));
        assert(prefixed(p@, pairs_of(es@).take(i + 1)) =~= prefixed(p@, pairs_of(es@).take(i as int)).push(
            (e.0@, e.1@),
        ));
        i = i + 1;
    }
    assert(pairs_of(es@).take(i as int) =~= pairs_of(es@));
}

fn push_pair(out: &mut Vec<(String, String)>, k: &str, v: String)
    ensures
        pairs_of(final(out)@) == pairs_of(old(out)@).push((k@, v@)),
{
    let ghost prev = out@;
    out.push((k.to_owned(), v));
    assert(pairs_of(out@) =~= pairs_of(prev).push((k@, v@)));
}

/// The environment for running a program for `request` under `config`,
/// with the query parameters `query`.
pub fn build_env(request: &Request, query: &StrMap, config: &WWebS) -> (r: Vec<(String, String)>)
    ensures
        pairs_of(r@) == env_spec(
            request.proto@,
            request.headers.pairs(),
            query.pairs(),
            request.verb@,
            url_path(request.url.segs()),
            config_env_pairs(config),
        ),
{
    let mut r: Vec<(String, String)> = Vec::new();
    assert(pairs_of(r@) =~= Seq::<(Seq<char>, Seq<char>)>::empty());
    push_pair(&mut r, "PROTO", request.proto.clone());
    push_prefixed(&mut r, "HEADER_", &request.headers);
    push_prefixed(&mut r, "QUERY_", query);
    push_pair(&mut r, "VERB", request.verb.clone());
    push_pair(&mut r, "REQUESTED", request.url.path());
    match &config.env {
        Some(m) => {
            push_prefixed(&mut r, "", m);
            proof {
                reveal_strlit("");
                assert(prefixed(""@, m.pairs()) =~= m.pairs());
            }
        },
        None => {},
    }
    assert(pairs_of(r@) =~= env_spec(
        request.proto@,
        request.headers.pairs(),
        query.pairs(),
        request.verb@,
        url_path(request.url.segs()),
        config_env_pairs(config),
    ));
    r
}

/// Whether a name is one of the four hook names exactly.
fn is_hook_name_exec(n: &str) -> (r: bool)
    ensures
        r == is_hook_name(n@),
{
    crate::text::same_str(n, ".gatekeeper") || crate::text::same_str(n, ".req_transformer")
        || crate::text::same_str(n, ".logger") || crate::text::same_str(n, ".res_transformer")
}

/// The part of the request path beyond `program`, as the program's argument.
pub fn inside_path(program: &Vec<String>, url: &Vec<String>) -> (r: String)
    ensures
        r@ == inside_path_spec(segs_view(program@), segs_view(url@)),
{
    let ghost ps = segs_view(program@);
    let mut count: usize = 0;
    let mut last: usize = 0;
    let mut i: usize = 0;
    while i < program.len()
        invariant
            i <= program.len(),
            ps == segs_view(program@),
            count == components(ps.take(i as int)).len(),
            count <= i,
            count > 0 ==> last < i && components(ps.take(i as int)).last() == program@[last as int]@,
        decreases program.len() - i,
    {
        proof {
            lemma_segs_view(program@);
        }
        assert(ps.take(i + 1).drop_last() =~= ps.take(i as int));
        assert(ps.take(i + 1).last() == program@[i as int]@);
        assert(ps.take(i + 1) =~= ps.take(i as int).push(program@[i as int]@));
        proof {
            lemma_components_push(ps.take(i as int), program@[i as int]@);
        }
        assert(components(ps.take(i + 1)) == if program@[i as int]@.len() > 0 {
            components(ps.take(i as int)).push(program@[i as int]@)
        } else {
            components(ps.take(i as int))
        });
        if program[i].as_str().unicode_len() > 0 {
            count = count + 1;
            last = i;
        }
        i = i + 1;
    }
    assert(ps.take(i as int) =~= ps);
    if count < url.len() {
        let mut start = count;
        if count > 0 && is_hook_name_exec(program[last].as_str()) {
            start = count - 1;
        }
        let mut rest: Vec<String> = Vec::new();
        let mut j: usize = start;
        while j < url.len()
            invariant
                start <= j <= url.len(),
                segs_view(rest@) == segs_view(url@).subrange(start as int, j as int),
                rest@.len() == j - start,
            decreases url.len() - j,
        {
            let ghost prev = rest@;
            proof {
                lemma_segs_view(url@);
                lemma_segs_view(prev);
            }
            rest.push(url[j].clone());
            proof {
                lemma_segs_view(rest@);
            }
            assert(segs_view(rest@) =~= segs_view(url@).subrange(start as int, j + 1));
            j = j + 1;
        }
        assert(segs_view(url@).subrange(start as int, j as int) =~= segs_view(url@).skip(start as int));
        join_path(&rest)
    } else {
        String::new()
    }
}

/// The invocation that runs `program` for `request` under `config`.
pub fn invocation(program: Vec<String>, request: &Request, query: &StrMap, config: &WWebS) -> (r:
    Invocation)
    ensures
        segs_view(r.program@) == segs_view(program@),
        r.inside@ == inside_path_spec(segs_view(program@), request.url.segs()),
        pairs_of(r.env@) == env_spec(
            request.proto@,
            request.headers.pairs(),
            query.pairs(),
            request.verb@,
            url_path(request.url.segs()),
            config_env_pairs(config),
        ),
        r.stdin@ == request.body@,
{
    let inside = inside_path(&program, &request.url.segments);
    let env = build_env(request, query, config);
    Invocation { program, inside, env, stdin: crate::message::copy_bytes(&request.body) }
}

/// How a program run ended, as the host saw it.
pub enum ProcessOutcome {
    /// The program could not be started, fed or read.
    Failed,
    /// The program ran; `exit` is its exit code, `None` where it did not exit
    /// normally.
    Finished { exit: Option<u32>, stdout: Vec<u8>, stderr: Vec<u8> },
}

/// The status that an exit gives: 200 for code 0, the code itself (modulo
/// 65536) for another, and 500 where the program did not exit normally.
pub open spec fn exit_status(exit: Option<u32>) -> u16 {
    match exit {
        Some(0) => 200,
        Some(n) => (n % 65536) as u16,
        None => 500,
    }
}

/// The text of a byte string in UTF-8, where it is valid UTF-8.
pub uninterp spec fn utf8_text(b: Seq<u8>) -> Option<Seq<char>>;

/// Relies on `String::from_utf8`: the text of valid UTF-8, and an error on
/// anything else; the result depends on the bytes alone.
#[verifier::external_body]
pub(crate) fn decode_utf8(b: &Vec<u8>) -> (r: Option<String>)
    ensures
        match r {
            Some(s) => utf8_text(b@) == Some(s@),
            None => utf8_text(b@) == None::<Seq<char>>,
        },
{
    String::from_utf8(b.clone()).ok()
}

/// The text of the error stream: empty where it is not valid UTF-8.
pub open spec fn stderr_text(b: Seq<u8>) -> Seq<char> {
    match utf8_text(b) {
        Some(t) => t,
        None => Seq::empty(),
    }
}

/// What one control line does to a status and a header map: `header <key>
/// <value>` sets a header (nothing where the key has no space after it),
/// `status <code>` sets the status (500 where the code does not read as a
/// number), any other line changes nothing.
pub open spec fn apply_line(st: (u16, Map<Seq<char>, Seq<char>>), line: Seq<char>) -> (u16, Map<Seq<char>, Seq<char>>) {
    if is_prefix("log "@, line) {
        st
    } else if is_prefix("header "@, line) {
        let pair = line.skip(7);
        match index_of(pair, ' ') {
            Some(i) => (st.0, st.1.insert(pair.take(i as int), pair.skip(i + 1 as int))),
            None => st,
        }
    } else if is_prefix("status "@, line) {
        (
            match parse_u16_spec(line.skip(7)) {
                Some(v) => v,
                None => 500,
            },
            st.1,
        )
    } else {
        st
    }
}

/// The control lines applied in order.
pub open spec fn apply_lines(st: (u16, Map<Seq<char>, Seq<char>>), lines: Seq<Seq<char>>) -> (u16, Map<Seq<char>, Seq<char>>)
    decreases lines.len(),
{
    if lines.len() == 0 {
        st
    } else {
        apply_line(apply_lines(st, lines.drop_last()), lines.last())
    }
}

/// What a control line sends to the diagnostic log: the message of a `log`
/// line, nothing for a `header` or `status` line, any other line whole.
pub open spec fn log_of(line: Seq<char>) -> Seq<Seq<char>> {
    if is_prefix("log "@, line) {
        seq![line.skip(4)]
    } else if is_prefix("header "@, line) || is_prefix("status "@, line) {
        Seq::empty()
    } else {
        seq![line]
    }
}

/// What the control lines send to the diagnostic log, in order.
pub open spec fn logs_of(lines: Seq<Seq<char>>) -> Seq<Seq<char>>
    decreases lines.len(),
{
    if lines.len() == 0 {
        Seq::empty()
    } else {
        logs_of(lines.drop_last()) + log_of(lines.last())
    }
}

/// Reads the control lines of a program's error stream into `response`, and
/// returns the messages that belong in the diagnostic log.
pub fn parse_output_commands(stderr: &Vec<u8>, response: &mut Response) -> (logs: Vec<String>)
    ensures
        (final(response).status, final(response).headers@) == apply_lines(
            (old(response).status, old(response).headers@),
            lines_of(stderr_text(stderr@)),
        ),
        final(response).body@ == old(response).body@,
        logs@.map_values(|x: String| x@) == logs_of(lines_of(stderr_text(stderr@))),
{
    let text = match decode_utf8(stderr) {
        Some(t) => t,
        None => String::new(),
    };
    let lines = split_lines(text.as_str());
    let ghost ls = lines@.map_values(|x: String| x@);
    let mut logs: Vec<String> = Vec::new();
    let mut i: usize = 0;
    proof {
        reveal_strlit("log ");
        reveal_strlit("header ");
        reveal_strlit("status ");
        assert(ls.take(0) =~= Seq::<Seq<char>>::empty());
        assert(logs@.map_values(|x: String| x@) =~= Seq::<Seq<char>>::empty());
    }
    while i < lines.len()
        invariant
            i <= lines.len(),
            ls == lines@.map_values(|x: String| x@),
            ls == lines_of(stderr_text(stderr@)),
            (response.status, response.headers@) == apply_lines(
                (old(response).status, old(response).headers@),
                ls.take(i as int),
            ),
            response.body@ == old(response).body@,
            logs@.map_values(|x: String| x@) == logs_of(ls.take(i as int)),
        decreases lines.len() - i,
    {
        proof {
            reveal_strlit("log ");
            reveal_strlit("header ");
            reveal_strlit("status ");
        }
        let line = lines[i].as_str();
        assert(ls.take(i + 1).drop_last() =~= ls.take(i as int));
        assert(ls.take(i + 1).last() == line@);
        let n = line.unicode_len();
        let ghost prev = logs@;
        if starts_with(line, "log ") {
            logs.push(line.substring_char(4, n).to_owned());
            assert(logs@.map_values(|x: String| x@) =~= prev.map_values(|x: String| x@) + log_of(line@));
        } else if starts_with(line, "header ") {
            let pair = line.substring_char(7, n);
            match find_char(pair, ' ') {
                Some(k) => {
                    let m = pair.unicode_len();
                    let key = pair.substring_char(0, k).to_owned();
                    let value = pair.substring_char(k + 1, m).to_owned();
                    response.headers.insert(key, value);
                },
                None => {},
            }
            assert(logs@.map_values(|x: String| x@) =~= prev.map_values(|x: String| x@) + log_of(line@));
        } else if starts_with(line, "status ") {
            let code = line.substring_char(7, n);
            response.status = match parse_u16(code) {
                Some(v) => v,
                None => 500,
            };
            assert(logs@.map_values(|x: String| x@) =~= prev.map_values(|x: String| x@) + log_of(line@));
        } else {
            logs.push(line.to_owned());
            assert(logs@.map_values(|x: String| x@) =~= prev.map_values(|x: String| x@) + log_of(line@));
        }
        i = i + 1;
    }
    assert(ls.take(i as int) =~= ls);
    logs
}

/// The response that a program run gives, and the messages for the
/// diagnostic log: a run that failed gives the generic internal error; one
/// that finished gives the status of its exit, its output as the body, and
/// then what its control lines set.
pub fn outcome_response(outcome: ProcessOutcome) -> (r: (Response, Vec<String>))
    ensures
        match outcome {
            ProcessOutcome::Failed => r.0.status == 500 && r.0.headers@ == Map::<Seq<char>, Seq<char>>::empty()
                && r.0.body@ == crate::message::internal_error_body() && r.1@.len() == 0,
            ProcessOutcome::Finished { exit, stdout, stderr } => (r.0.status, r.0.headers@)
                == apply_lines(
                (exit_status(exit), Map::<Seq<char>, Seq<char>>::empty()),
                lines_of(stderr_text(stderr@)),
            ) && r.0.body@ == stdout@ && r.1@.map_values(|x: String| x@) == logs_of(
                lines_of(stderr_text(stderr@)),
            ),
        },
{
    match outcome {
        ProcessOutcome::Failed => (Response::internal_server_error(), Vec::new()),
        ProcessOutcome::Finished { exit, stdout, stderr } => {
            let status: u16 = match exit {
                Some(0) => 200,
                Some(n) => (n % 65536) as u16,
                None => 500,
            };
            let mut response = Response { status, headers: StrMap::new(), body: stdout };
            let logs = parse_output_commands(&stderr, &mut response);
            (response, logs)
        },
    }
}

} // verus!
