//! The path resolution engine, as a state machine.
//!
//! The engine never touches the filesystem or runs a program itself. It
//! hands its host one [`Action`] at a time (look at a path, list a
//! directory, read a descriptor, read a file, run a program) and takes the
//! outcome back as an [`Event`]. Everything else (which path comes next,
//! which hooks run and in which order, how their results are merged, when
//! resolution stops) is decided here.

use vstd::prelude::*;
use crate::config::{env_map_spec, index_spec, WWebS};
use crate::hooks::{hooks_of, sorted, with_prefix};
use crate::message::{
    lemma_segs_view, segs_view, status_ok, url_path, Request, RequestUrl, Response,
};
use crate::process::{config_env_pairs, inside_path_spec, invocation, request_env, Invocation};
use crate::strmap::{map_of_pairs, pairs_of, StrMap};
use crate::text::{before_char, cut_at_char, decimal};

verus! {

/// The candidate path for a resolution depth: the first `depth` URL segments,
/// each cut at its first `%`.
pub open spec fn candidate_spec(segs: Seq<Seq<char>>, depth: nat) -> Seq<Seq<char>> {
    segs.take(if depth <= segs.len() { depth as int } else { segs.len() as int }).map_values(
        |s: Seq<char>| before_char(s, '%'),
    )
}

/// The candidate path for a resolution depth.
pub fn candidate_path(segments: &Vec<String>, depth: usize) -> (r: Vec<String>)
    ensures
        segs_view(r@) == candidate_spec(segs_view(segments@), depth as nat),
{
    let n = if depth <= segments.len() {
        depth
    } else {
        segments.len()
    };
    let ghost target = candidate_spec(segs_view(segments@), depth as nat);
    let mut r: Vec<String> = Vec::new();
    let mut i: usize = 0;
    while i < n
        invariant
            n <= segments.len(),
            i <= n,
            target == candidate_spec(segs_view(segments@), depth as nat),
            target.len() == n,
            r@.len() == i,
            forall|j: int| 0 <= j < i ==> #[trigger] r@[j]@ == target[j],
        decreases n - i,
    {
        proof {
            lemma_segs_view(segments@);
        }
        r.push(cut_at_char(segments[i].as_str(), '%'));
        i = i + 1;
    }
    proof {
        lemma_segs_view(r@);
    }
    assert(segs_view(r@) =~= target);
    r
}

/// What the host saw of a path.
pub struct Meta {
    /// The path exists and is readable by others.
    pub readable: bool,
    /// The path is executable by others.
    pub executable: bool,
    /// The path is a directory.
    pub is_dir: bool,
    /// The path is a regular file.
    pub is_file: bool,
}

/// What the engine asks of its host. Paths are lists of names below the root
/// directory, joined as `PathBuf` joins them.
pub enum Action {
    /// Look at a path; answer with [`Event::Stat`].
    Stat(Vec<String>),
    /// List the names in a directory; answer with [`Event::Listed`], with no
    /// names where it cannot be read.
    ListDir(Vec<String>),
    /// Read the descriptor of a directory; answer with [`Event::Config`],
    /// `None` where it is absent or does not parse.
    ReadConfig(Vec<String>),
    /// Read a static file; answer with [`Event::FileRead`].
    ReadFile(Vec<String>),
    /// Run a program; answer with [`Event::Ran`].
    Run(Invocation),
    /// Resolution is over, with this response.
    Done(Response),
}

/// The outcome of an action.
pub enum Event {
    /// What was seen of the path.
    Stat(Meta),
    /// The names in the directory.
    Listed(Vec<String>),
    /// The descriptor, where present and parsed.
    Config(Option<WWebS>),
    /// The file's content, where it could be read.
    FileRead(Option<Vec<u8>>),
    /// The program's response.
    Ran(Response),
}

/// Where a level of the resolution stands.
#[derive(PartialEq, Eq, Structural, Clone, Copy)]
pub enum Stage {
    /// Waiting on a look at the path.
    Stat,
    /// Waiting on the directory's listing.
    List,
    /// Waiting on the directory's descriptor.
    Config,
    /// Running gatekeepers.
    Gatekeepers,
    /// Running request transformers.
    ReqTransformers,
    /// Running the target program.
    RunTarget,
    /// Reading the target file.
    ReadTarget,
    /// Waiting on the level below.
    Child,
    /// Running response transformers.
    ResTransformers,
    /// Running loggers.
    Loggers,
}

/// One level of the resolution: one candidate path.
pub struct Frame {
    /// How many URL segments the candidate path takes.
    pub depth: usize,
    /// The candidate path.
    pub path: Vec<String>,
    /// The working configuration.
    pub config: WWebS,
    /// The query parameters of the request.
    pub query: StrMap,
    /// The names in the directory; none where the path is not a directory.
    pub files: Vec<String>,
    /// The path is a directory.
    pub is_dir: bool,
    /// The path is a regular file.
    pub is_file: bool,
    /// The path is executable by others.
    pub executable: bool,
    /// Where this level stands.
    pub stage: Stage,
    /// The hooks of the current stage, in order.
    pub hooks: Vec<String>,
    /// The position of the next hook to run.
    pub next: usize,
    /// The response in progress.
    pub response: Response,
}

impl Frame {
    /// A hook stage that has a hook left to run, or a stage that waits on
    /// the host.
    pub open spec fn wf(&self) -> bool {
        match self.stage {
            Stage::Gatekeepers | Stage::ReqTransformers | Stage::ResTransformers | Stage::Loggers => self.next
                < self.hooks@.len(),
            _ => true,
        }
    }

    /// Takes in the outcome of this level's current action, for `request`.
    /// On a look at the path: not found where it is not readable, else what
    /// was seen. On a listing or a descriptor: the names, and the descriptor
    /// in place of the working configuration where it parsed. On a static
    /// file: its content or a failure. On a program run, by stage: a
    /// gatekeeper's failure overwrites the response in progress; a request
    /// transformer's success merges its headers into the request and gives it
    /// its body, and its failure becomes the response; the target's response becomes the response; a response
    /// transformer's body, headers and status are merged into the response;
    /// a logger's is dropped. A hook stage then moves on to its next hook.
    pub fn absorb(&mut self, request: &mut Request, e: Event)
        requires
            old(self).wf(),
        ensures
            absorbed(*old(self), *old(request), e, *final(self), *final(request)),
    {
        let n = self.hooks.len();
        match (self.stage, e) {
            (Stage::Stat, Event::Stat(m)) => {
                if m.readable {
                    self.is_dir = m.is_dir;
                    self.is_file = m.is_file;
                    self.executable = m.executable;
                } else {
                    self.response = Response::with_status(404);
                }
            },
            (Stage::List, Event::Listed(fs)) => {
                self.files = fs;
            },
            (Stage::Config, Event::Config(c)) => {
                match c {
                    Some(c) => {
                        self.config = c;
                    },
                    None => {},
                }
            },
            (Stage::ReadTarget, Event::FileRead(d)) => {
                self.response = static_file_response(d);
            },
            (Stage::Gatekeepers, Event::Ran(res)) => {
                if !res.is_ok() {
                    self.response = res;
                }
                self.next = self.next + 1;
            },
            (Stage::ReqTransformers, Event::Ran(res)) => {
                if res.is_ok() {
                    merge_headers(&mut request.headers, &res.headers);
                    request.body = res.body;
                } else {
                    self.response = res;
                }
                self.next = self.next + 1;
            },
            (Stage::RunTarget, Event::Ran(res)) => {
                self.response = res;
            },
            (Stage::ResTransformers, Event::Ran(res)) => {
                self.response.body = res.body;
                merge_headers(&mut self.response.headers, &res.headers);
                self.response.status = res.status;
                self.next = self.next + 1;
            },
            (Stage::Loggers, Event::Ran(_)) => {
                self.next = self.next + 1;
            },
            _ => {},
        }
    }
}

/// Whether an event reports a readable path.
pub open spec fn readable_of(e: Event) -> bool {
    match e {
        Event::Stat(m) => m.readable,
        _ => false,
    }
}

/// What taking in an event does to a level `f0` and the request `q0`,
/// giving `f1` and `q1`; see [`Frame::absorb`].
pub open spec fn absorbed(f0: Frame, q0: Request, e: Event, f1: Frame, q1: Request) -> bool {
    &&& f1.stage == f0.stage
    &&& f1.depth == f0.depth
    &&& f1.path == f0.path
    &&& f1.query == f0.query
    &&& f1.hooks == f0.hooks
    &&& f0.stage != Stage::ReqTransformers ==> q1 == q0
    &&& !(f0.stage == Stage::Stat && readable_of(e)) ==> f1.is_dir == f0.is_dir && f1.is_file
        == f0.is_file && f1.executable == f0.executable
    &&& f0.stage != Stage::List ==> f1.files == f0.files
    &&& f0.stage != Stage::Config ==> f1.config == f0.config
    &&& !is_hook_stage(f0.stage) ==> f1.next == f0.next
    &&& match (f0.stage, e) {
        (Stage::Stat, Event::Stat(m)) => if m.readable {
            f1.is_dir == m.is_dir && f1.is_file == m.is_file
                && f1.executable == m.executable && f1.response
                == f0.response
        } else {
            is_not_found(f1.response)
        },
        (Stage::List, Event::Listed(fs)) => f1.files == fs,
        (Stage::Config, Event::Config(c)) => match c {
            Some(c) => f1.config == c,
            None => f1.config == f0.config,
        },
        (Stage::ReadTarget, Event::FileRead(d)) => f1.response.headers@ == Map::<
            Seq<char>,
            Seq<char>,
        >::empty() && match d {
            Some(d) => f1.response.status == 200 && f1.response.body@ == d@,
            None => f1.response.status == 500 && f1.response.body@
                == Seq::<u8>::empty(),
        },
        (Stage::Gatekeepers, Event::Ran(res)) => f1.next == f0.next + 1 && if status_ok(
            res.status,
        ) {
            f1.response == f0.response
        } else {
            f1.response == res
        },
        (Stage::ReqTransformers, Event::Ran(res)) => f1.next == f0.next + 1
            && if status_ok(res.status) {
            f1.response == f0.response && q1.headers@ == merge_spec(
                q0.headers@,
                res.headers.pairs(),
            ) && q1.body == res.body && q1.url == q0.url
                && q1.proto == q0.proto && q1.verb == q0.verb
        } else {
            f1.response == res && q1 == q0
        },
        (Stage::RunTarget, Event::Ran(res)) => f1.response == res,
        (Stage::ResTransformers, Event::Ran(res)) => f1.next == f0.next + 1
            && f1.response.status == res.status && f1.response.body == res.body
            && f1.response.headers@ == merge_spec(
            f0.response.headers@,
            res.headers.pairs(),
        ),
        (Stage::Loggers, Event::Ran(_)) => f1.next == f0.next + 1
            && f1.response == f0.response,
        _ => f1.response == f0.response,
    }
}

/// One resolution of one request.
pub struct Resolver {
    /// The request, as the hooks have changed it so far.
    pub request: Request,
    /// The levels, outermost first; the last one is the current one.
    pub frames: Vec<Frame>,
    /// The response, once resolution is over.
    pub done: Option<Response>,
}

/// The backend: the root directory that requests resolve against.
pub struct Server {
    workdir: String,
}

impl Server {
    /// A backend that resolves against `path`.
    pub fn new(path: String) -> (r: Server)
        ensures
            r.workdir()@ == path@,
    {
        Server { workdir: path }
    }

    /// The root directory.
    pub closed spec fn workdir(&self) -> String {
        self.workdir
    }

    /// The root directory.
    pub fn root(&self) -> (r: &String)
        ensures
            r@ == self.workdir()@,
    {
        &self.workdir
    }

    /// Starts resolving `request` at `segment` segments deep under
    /// `config`. The host answers each action of the resolver until it says
    /// [`Action::Done`].
    pub fn exec(&self, request: Request, segment: usize, config: WWebS) -> (r: Resolver)
        ensures
            r.wf(),
            r.done.is_none(),
            r.frames@.len() == 1,
            r.frames@[0].stage == Stage::Stat,
            r.frames@[0].depth == segment,
            segs_view(r.frames@[0].path@) == candidate_spec(request.url.segs(), segment as nat),
            r.frames@[0].config@ == config@,
            r.frames@[0].query@ == crate::message::query_map(request.url.query),
            r.frames@[0].files@.len() == 0,
            r.frames@[0].hooks@.len() == 0,
            r.frames@[0].next == 0,
            is_fresh(r.frames@[0].response),
            r.request == request,
    {
        let f = Resolver::new_frame(&request, segment, config);
        let mut frames: Vec<Frame> = Vec::new();
        frames.push(f);
        Resolver { request, frames, done: None }
    }

    /// The invocation that runs `program` for `request` under `config`.
    pub fn run_cgi(&self, request: &Request, program: Vec<String>, config: &WWebS, query_strings: &StrMap) -> (r: Invocation)
        ensures
            segs_view(r.program@) == segs_view(program@),
            r.inside@ == crate::process::inside_path_spec(segs_view(program@), request.url.segs()),
            crate::strmap::pairs_of(r.env@) == crate::process::env_spec(
                request.proto@,
                request.headers.pairs(),
                query_strings.pairs(),
                request.verb@,
                crate::message::url_path(request.url.segs()),
                crate::process::config_env_pairs(config),
            ),
            r.stdin@ == request.body@,
    {
        invocation(program, request, query_strings, config)
    }
}

/// Headers merged into a map in order: an empty value deletes the key, any
/// other sets it.
pub open spec fn merge_spec(m: Map<Seq<char>, Seq<char>>, ps: Seq<(Seq<char>, Seq<char>)>) -> Map<
    Seq<char>,
    Seq<char>,
>
    decreases ps.len(),
{
    if ps.len() == 0 {
        m
    } else {
        let r = merge_spec(m, ps.drop_last());
        let e = ps.last();
        if e.1.len() == 0 {
            r.remove(e.0)
        } else {
            r.insert(e.0, e.1)
        }
    }
}

/// Merges the headers `from` into `into`: an empty value deletes the key,
/// any other sets it.
pub fn merge_headers(into: &mut StrMap, from: &StrMap)
    ensures
        final(into)@ == merge_spec(old(into)@, from.pairs()),
{
    let es = from.entries();
    let ghost ps = crate::strmap::pairs_of(es@);
    let mut i: usize = 0;
    while i < es.len()
        invariant
            i <= es.len(),
            ps == crate::strmap::pairs_of(es@),
            ps == from.pairs(),
            into@ == merge_spec(old(into)@, ps.take(i as int)),
        decreases es.len() - i,
    {
        assert(ps.take(i + 1).drop_last() =~= ps.take(i as int));
        assert(ps.take(i + 1).last() == (es@[i as int].0@, es@[i as int].1@));
        if es[i].1.as_str().unicode_len() == 0 {
            into.remove(es[i].0.as_str());
        } else {
            into.insert(es[i].0.clone(), es[i].1.clone());
        }
        i = i + 1;
    }
    assert(ps.take(i as int) =~= ps);
}

/// The index rewrite: where nothing has failed and the URL names exactly the
/// directory at `depth`, the configured index name is appended to the URL as
/// one more segment; otherwise the URL stays as it is.
pub fn rewrite_index(url: &mut RequestUrl, depth: usize, ok: bool, config: &WWebS)
    ensures
        final(url).segs() == if ok && old(url).segs().len() == depth {
            crate::message::push_segment_spec(old(url).segs(), index_spec(config@))
        } else {
            old(url).segs()
        },
        final(url).query == old(url).query,
{
    proof {
        lemma_segs_view(url.segments@);
    }
    if ok && url.segments.len() == depth {
        let index = config.index_name();
        url.push_segment(index.as_str());
    }
}

/// A copy of a list of names.
pub fn dup_names(v: &Vec<String>) -> (r: Vec<String>)
    ensures
        segs_view(r@) == segs_view(v@),
{
    let mut r: Vec<String> = Vec::new();
    let mut i: usize = 0;
    while i < v.len()
        invariant
            i <= v.len(),
            r@.len() == i,
            forall|j: int| 0 <= j < i ==> #[trigger] r@[j]@ == v@[j]@,
        decreases v.len() - i,
    {
        r.push(v[i].clone());
        i = i + 1;
    }
    proof {
        lemma_segs_view(r@);
        lemma_segs_view(v@);
    }
    assert(segs_view(r@) =~= segs_view(v@));
    r
}

/// A list of names with one more at its end.
pub fn names_with(v: &Vec<String>, last: &String) -> (r: Vec<String>)
    ensures
        segs_view(r@) == segs_view(v@).push(last@),
{
    let mut r = dup_names(v);
    let ghost before = r@;
    r.push(last.clone());
    proof {
        lemma_segs_view(r@);
        lemma_segs_view(before);
    }
    assert(segs_view(r@) =~= segs_view(before).push(last@));
    r
}

/// The request that a response transformer is run with: a `GET` of the same
/// URL, whose headers and body are those of the response.
pub fn transformer_request(request: &Request, response: &Response) -> (r: Request)
    ensures
        r.proto@ == request.proto@,
        r.verb@ == "GET"@,
        r.url.segs() == request.url.segs(),
        crate::message::query_map(r.url.query) == crate::message::query_map(request.url.query),
        r.headers@ == response.headers@,
        r.headers.pairs() == response.headers.pairs(),
        r.body@ == response.body@,
{
    Request {
        proto: request.proto.clone(),
        verb: String::from_str("GET"),
        url: request.url.duplicate(),
        headers: response.headers.duplicate(),
        body: crate::message::copy_bytes(&response.body),
    }
}

/// The configuration that a response transformer or a logger runs under:
/// the working one with `STATUS` set to the response status.
pub fn status_config(config: &WWebS, status: u16) -> (r: WWebS)
    ensures
        r@.0 == config@.0,
        r@.1 == Some(crate::config::env_map_spec(config@).insert("STATUS"@, crate::text::decimal(status as nat))),
{
    config.with_env(String::from_str("STATUS"), crate::text::decimal_string(status))
}

/// The response of a static file: its content with status 200, or status
/// 500 where it could not be read.
pub fn static_file_response(data: Option<Vec<u8>>) -> (r: Response)
    ensures
        r.headers@ == Map::<Seq<char>, Seq<char>>::empty(),
        match data {
            Some(d) => r.status == 200 && r.body@ == d@,
            None => r.status == 500 && r.body@ == Seq::<u8>::empty(),
        },
{
    match data {
        Some(d) => Response { status: 200, headers: StrMap::new(), body: d },
        None => Response::with_status(500),
    }
}

/// Whether `inv` runs `program` for a request with the given parts, with
/// the given query parameters, under a configuration whose environment is
/// `config_env`: the program's argument is the part of the URL path beyond
/// it, its input the body, and its environment the request's entries
/// followed by the configuration's.
pub open spec fn runs(
    inv: Invocation,
    program: Seq<Seq<char>>,
    proto: Seq<char>,
    headers: Seq<(Seq<char>, Seq<char>)>,
    verb: Seq<char>,
    segs: Seq<Seq<char>>,
    body: Seq<u8>,
    query: Seq<(Seq<char>, Seq<char>)>,
    config_env: Map<Seq<char>, Seq<char>>,
) -> bool {
    &&& segs_view(inv.program@) == program
    &&& inv.inside@ == inside_path_spec(program, segs)
    &&& inv.stdin@ == body
    &&& exists|cp: Seq<(Seq<char>, Seq<char>)>|
        pairs_of(inv.env@) == request_env(proto, headers, query, verb, url_path(segs)) + cp
            && map_of_pairs(cp) == config_env
}

proof fn lemma_config_pairs(c: &WWebS)
    ensures
        map_of_pairs(config_env_pairs(c)) == env_map_spec(c@),
{
    match c.env {
        Some(m) => {
            m.lemma_pairs();
        },
        None => {},
    }
}

/// Where the settling of a finished level goes on.
pub enum Settle {
    /// The target or the level below has answered.
    AfterTarget,
    /// The response transformers are done.
    AfterResponse,
    /// The loggers are done.
    Finish,
}

/// How far a settling phase is from the end of its level.
pub open spec fn settle_rank(p: Settle) -> nat {
    match p {
        Settle::AfterTarget => 2,
        Settle::AfterResponse => 1,
        Settle::Finish => 0,
    }
}

/// The name prefix of gatekeepers.
pub open spec fn gatekeeper_prefix() -> Seq<char> {
    ".gatekeeper"@
}

/// The name prefix of request transformers.
pub open spec fn req_transformer_prefix() -> Seq<char> {
    ".req_transformer"@
}

/// The name prefix of response transformers.
pub open spec fn res_transformer_prefix() -> Seq<char> {
    ".res_transformer"@
}

/// The name prefix of loggers.
pub open spec fn logger_prefix() -> Seq<char> {
    ".logger"@
}

/// Whether `h` is the hook list of `prefix` in a listing: the names that
/// start with it, sorted.
pub open spec fn hook_list(h: Seq<Seq<char>>, files: Vec<String>, prefix: Seq<char>) -> bool {
    sorted(h) && h.to_multiset() == with_prefix(segs_view(files@), prefix).to_multiset()
}

/// Whether a listing holds a hook of `prefix`.
pub open spec fn has_hooks(files: Vec<String>, prefix: Seq<char>) -> bool {
    with_prefix(segs_view(files@), prefix).len() > 0
}

/// `r` holds `frames` and on top of them `f` entering the hook stage
/// `stage` at its first hook, with the hooks of `prefix` in `f`'s listing.
pub open spec fn enters(r: Resolver, frames: Seq<Frame>, f: Frame, stage: Stage, prefix: Seq<char>) -> bool {
    let g = r.frames@.last();
    &&& r.done.is_none()
    &&& r.frames@ == frames.push(g)
    &&& g == Frame { hooks: g.hooks, next: 0, stage: stage, ..f }
    &&& hook_list(segs_view(g.hooks@), f.files, prefix)
}

/// `r` holds `frames` and on top of them `f`.
pub open spec fn pushes(r: Resolver, frames: Seq<Frame>, f: Frame) -> bool {
    r.done.is_none() && r.frames@ == frames.push(f)
}

/// A level with a status of 0 made 200.
pub open spec fn normalized(f: Frame) -> Frame {
    if f.response.status == 0 {
        Frame { response: Response { status: 200, ..f.response }, ..f }
    } else {
        f
    }
}

/// How a level `f` whose target or child has answered finishes, above
/// `frames`, from `phase` on: a directory's response transformers run,
/// whatever the status; a status of 0 becomes 200; the loggers run; then the
/// response goes to the level above, which goes on the same way, or at the
/// top ends resolution.
pub open spec fn settled(frames: Seq<Frame>, f: Frame, phase: Settle, r: Resolver) -> bool
    decreases frames.len(), settle_rank(phase),
{
    match phase {
        Settle::AfterTarget => if f.is_dir && has_hooks(f.files, res_transformer_prefix()) {
            enters(r, frames, f, Stage::ResTransformers, res_transformer_prefix())
        } else {
            settled(frames, f, Settle::AfterResponse, r)
        },
        Settle::AfterResponse => if has_hooks(f.files, logger_prefix()) {
            enters(r, frames, normalized(f), Stage::Loggers, logger_prefix())
        } else {
            settled(frames, normalized(f), Settle::Finish, r)
        },
        Settle::Finish => if frames.len() == 0 {
            r.done == Some(f.response) && r.frames@.len() == 0
        } else {
            settled(
                frames.drop_last(),
                Frame { response: f.response, ..frames.last() },
                Settle::AfterTarget,
                r,
            )
        },
    }
}

/// Whether `c` is the level that a level `f` opens below it for request `q`:
/// one segment deeper, under `f`'s working configuration, waiting on a look
/// at its path, with nothing else known yet.
pub open spec fn child_of(c: Frame, q: Request, f: Frame) -> bool {
    &&& c.stage == Stage::Stat
    &&& c.depth == f.depth + 1
    &&& segs_view(c.path@) == candidate_spec(q.url.segs(), (f.depth + 1) as nat)
    &&& c.config@ == f.config@
    &&& c.query@ == crate::message::query_map(q.url.query)
    &&& is_fresh(c.response)
    &&& c.files@.len() == 0
    &&& c.hooks@.len() == 0
    &&& c.next == 0
    &&& !c.is_dir && !c.is_file && !c.executable
}

/// How a level `f` goes on to its target, for request `q`, above `frames`:
/// a failed response skips the target; a file is run where executable and
/// read otherwise; a directory opens the level below.
pub open spec fn targeted(frames: Seq<Frame>, q: Request, f: Frame, r: Resolver) -> bool {
    if !status_ok(f.response.status) {
        settled(frames, f, Settle::AfterTarget, r)
    } else if f.is_file {
        pushes(
            r,
            frames,
            Frame {
                stage: if f.executable {
                    Stage::RunTarget
                } else {
                    Stage::ReadTarget
                },
                ..f
            },
        )
    } else if f.depth < usize::MAX {
        &&& r.done.is_none()
        &&& r.frames@ == frames.push(Frame { stage: Stage::Child, ..f }).push(r.frames@.last())
        &&& child_of(r.frames@.last(), q, f)
    } else {
        settled(frames, Frame { response: Response { status: 500, ..f.response }, ..f }, Settle::AfterTarget, r)
    }
}

/// The URL segments after the index rewrite (see [`rewrite_index`]).
pub open spec fn index_rewrite_spec(segs: Seq<Seq<char>>, ok: bool, depth: nat, config: crate::config::ConfigModel) -> Seq<Seq<char>> {
    if ok && segs.len() == depth {
        crate::message::push_segment_spec(segs, index_spec(config))
    } else {
        segs
    }
}

/// Whether `q1` is `q0` after the index rewrite of level `f`.
pub open spec fn rewritten(q0: Request, q1: Request, f: Frame) -> bool {
    &&& q1.proto == q0.proto
    &&& q1.verb == q0.verb
    &&& q1.headers == q0.headers
    &&& q1.body == q0.body
    &&& q1.url.query == q0.url.query
    &&& q1.url.segs() == index_rewrite_spec(q0.url.segs(), status_ok(f.response.status), f.depth as nat, f.config@)
}

/// How a level goes on once its request transformers are done: the index
/// rewrite, then the target.
pub open spec fn requested(frames: Seq<Frame>, q0: Request, f: Frame, r: Resolver) -> bool {
    rewritten(q0, r.request, f) && targeted(frames, r.request, f, r)
}

/// How a level goes on once its gatekeepers are done: where the response is
/// still ok and there are request transformers, they run; else as
/// [`requested`].
pub open spec fn gated(frames: Seq<Frame>, q0: Request, f: Frame, r: Resolver) -> bool {
    if status_ok(f.response.status) && has_hooks(f.files, req_transformer_prefix()) {
        enters(r, frames, f, Stage::ReqTransformers, req_transformer_prefix()) && r.request == q0
    } else {
        requested(frames, q0, f, r)
    }
}

/// How resolution goes on from level `g`, which has just taken in `e`, with
/// the request `q`, above `frames`, giving `r`.
pub open spec fn stepped(frames: Seq<Frame>, q: Request, g: Frame, e: Event, r: Resolver) -> bool {
    match g.stage {
        Stage::Stat => r.request == q && if !readable_of(e) {
            settled(frames, g, Settle::Finish, r)
        } else if g.is_dir {
            pushes(r, frames, Frame { stage: Stage::List, ..g })
        } else {
            targeted(frames, q, g, r)
        },
        Stage::List => r.request == q && pushes(r, frames, Frame { stage: Stage::Config, ..g }),
        Stage::Config => if has_hooks(g.files, gatekeeper_prefix()) {
            enters(r, frames, g, Stage::Gatekeepers, gatekeeper_prefix()) && r.request == q
        } else {
            gated(frames, q, g, r)
        },
        Stage::Gatekeepers => if g.next < g.hooks@.len() {
            pushes(r, frames, g) && r.request == q
        } else {
            gated(frames, q, g, r)
        },
        Stage::ReqTransformers => if g.next < g.hooks@.len() && status_ok(g.response.status) {
            pushes(r, frames, g) && r.request == q
        } else {
            requested(frames, q, g, r)
        },
        Stage::RunTarget | Stage::ReadTarget => r.request == q && settled(frames, g, Settle::AfterTarget, r),
        Stage::ResTransformers => r.request == q && if g.next < g.hooks@.len() {
            pushes(r, frames, g)
        } else {
            settled(frames, g, Settle::AfterResponse, r)
        },
        Stage::Loggers => r.request == q && if g.next < g.hooks@.len() {
            pushes(r, frames, g)
        } else {
            settled(frames, g, Settle::Finish, r)
        },
        Stage::Child => true,
    }
}

/// The hooks of `prefix` in a listing.
fn hooks_for(files: &Vec<String>, prefix: &str) -> (h: Vec<String>)
    ensures
        hook_list(segs_view(h@), *files, prefix@),
        h@.len() > 0 <==> has_hooks(*files, prefix@),
{
    let h = hooks_of(files, prefix);
    proof {
        lemma_segs_view(h@);
        vstd::seq_lib::to_multiset_len(segs_view(h@));
        vstd::seq_lib::to_multiset_len(with_prefix(segs_view(files@), prefix@));
    }
    h
}

impl Resolver {
    /// The levels are stacked as the recursion stacks them: every level but
    /// the current one waits on its child, and a hook stage has a hook left.
    pub open spec fn wf(&self) -> bool {
        &&& self.done.is_some() ==> self.frames@.len() == 0
        &&& self.done.is_none() ==> self.frames@.len() > 0
        &&& forall|i: int| 0 <= i < self.frames@.len() ==> (#[trigger] self.frames@[i]).wf()
        &&& forall|i: int| 0 <= i < self.frames@.len() - 1 ==> (#[trigger] self.frames@[i]).stage == Stage::Child
        &&& self.frames@.len() > 0 ==> self.frames@.last().stage != Stage::Child
    }

    /// Every level is one that waits on its child.
    pub open spec fn stack_ok(&self) -> bool {
        &&& self.done.is_none()
        &&& forall|i: int| 0 <= i < self.frames@.len() ==> (#[trigger] self.frames@[i]).wf()
        &&& forall|i: int| 0 <= i < self.frames@.len() ==> (#[trigger] self.frames@[i]).stage == Stage::Child
    }

    fn push_current(&mut self, f: Frame)
        requires
            old(self).stack_ok(),
            f.wf(),
            f.stage != Stage::Child,
        ensures
            final(self).wf(),
            final(self).request == old(self).request,
            pushes(*final(self), old(self).frames@, f),
    {
        self.frames.push(f);
        assert(self.frames@.drop_last() =~= old(self).frames@);
    }

    /// Goes on once the gatekeepers are done.
    fn gate_done(&mut self, f: Frame)
        requires
            old(self).stack_ok(),
        ensures
            final(self).wf(),
            gated(old(self).frames@, old(self).request, f, *final(self)),
    {
        let mut f = f;
        if f.response.is_ok() {
            let h = hooks_for(&f.files, ".req_transformer");
            if h.len() > 0 {
                let ghost f0 = f;
                f.hooks = h;
                f.next = 0;
                f.stage = Stage::ReqTransformers;
                assert(f == Frame { hooks: f.hooks, next: 0, stage: Stage::ReqTransformers, ..f0 });
                self.push_current(f);
                return;
            }
        }
        self.after_request(f);
    }

    /// Goes on once the request transformers are done: the index rewrite,
    /// then the target.
    fn after_request(&mut self, f: Frame)
        requires
            old(self).stack_ok(),
        ensures
            final(self).wf(),
            requested(old(self).frames@, old(self).request, f, *final(self)),
    {
        let ok = f.response.is_ok();
        rewrite_index(&mut self.request.url, f.depth, ok, &f.config);
        let ghost q = self.request;
        self.to_target(f);
        assert(self.request == q);
    }

    fn to_target(&mut self, f: Frame)
        requires
            old(self).stack_ok(),
        ensures
            final(self).wf(),
            final(self).request == old(self).request,
            targeted(old(self).frames@, old(self).request, f, *final(self)),
    {
        let mut f = f;
        if !f.response.is_ok() {
            self.settle(f, Settle::AfterTarget);
        } else if f.is_file {
            f.stage = if f.executable {
                Stage::RunTarget
            } else {
                Stage::ReadTarget
            };
            self.push_current(f);
        } else if f.depth < usize::MAX {
            let child = Resolver::new_frame(&self.request, f.depth + 1, f.config.duplicate());
            let ghost f0 = f;
            f.stage = Stage::Child;
            assert(f == Frame { stage: Stage::Child, ..f0 });
            self.frames.push(f);
            let ghost mid = self.frames@;
            self.push_current(child);
            assert(self.frames@ == mid.push(child));
        } else {
            let ghost f0 = f;
            f.response.status = 500;
            assert(f == Frame { response: Response { status: 500, ..f0.response }, ..f0 });
            self.settle(f, Settle::AfterTarget);
        }
    }

    /// Finishes a level whose target or child has answered, from `phase` on.
    fn settle(&mut self, f: Frame, phase: Settle)
        requires
            old(self).stack_ok(),
        ensures
            final(self).wf(),
            final(self).request == old(self).request,
            settled(old(self).frames@, f, phase, *final(self)),
    {
        let mut cur = f;
        let mut ph = phase;
        loop
            invariant
                self.stack_ok(),
                self.request == old(self).request,
                forall|r: Resolver| #[trigger] settled(self.frames@, cur, ph, r) ==> settled(old(self).frames@, f, phase, r),
            decreases self.frames@.len(), settle_rank(ph),
        {
            let ghost frames0 = self.frames@;
            let ghost cur0 = cur;
            let ghost ph0 = ph;
            match ph {
                Settle::AfterTarget => {
                    if cur.is_dir {
                        let h = hooks_for(&cur.files, ".res_transformer");
                        if h.len() > 0 {
                            cur.hooks = h;
                            cur.next = 0;
                            cur.stage = Stage::ResTransformers;
                            assert(cur == Frame { hooks: cur.hooks, next: 0, stage: Stage::ResTransformers, ..cur0 });
                            self.push_current(cur);
                            assert(settled(frames0, cur0, ph0, *self));
                            return;
                        }
                    }
                    ph = Settle::AfterResponse;
                    assert forall|r: Resolver| #[trigger] settled(self.frames@, cur, ph, r) implies settled(frames0, cur0, ph0, r) by {}
                },
                Settle::AfterResponse => {
                    if cur.response.status == 0 {
                        cur.response.status = 200;
                    }
                    assert(cur == normalized(cur0));
                    let h = hooks_for(&cur.files, ".logger");
                    if h.len() > 0 {
                        let ghost c1 = cur;
                        cur.hooks = h;
                        cur.next = 0;
                        cur.stage = Stage::Loggers;
                        assert(cur == Frame { hooks: cur.hooks, next: 0, stage: Stage::Loggers, ..c1 });
                        self.push_current(cur);
                        assert(settled(frames0, cur0, ph0, *self));
                        return;
                    }
                    ph = Settle::Finish;
                    assert forall|r: Resolver| #[trigger] settled(self.frames@, cur, ph, r) implies settled(frames0, cur0, ph0, r) by {}
                },
                Settle::Finish => {
                    match self.frames.pop() {
                        None => {
                            self.done = Some(cur.response);
                            assert(settled(frames0, cur0, ph0, *self));
                            return;
                        },
                        Some(parent) => {
                            let mut parent = parent;
                            assert(parent == frames0.last());
                            assert(self.frames@ == frames0.drop_last());
                            parent.response = cur.response;
                            cur = parent;
                            ph = Settle::AfterTarget;
                            assert(cur == Frame { response: cur0.response, ..frames0.last() });
                            assert forall|r: Resolver| #[trigger] settled(self.frames@, cur, ph, r) implies settled(frames0, cur0, ph0, r) by {}
                        },
                    }
                },
            }
        }
    }

    /// Whether resolution is over.
    pub fn is_done(&self) -> (r: bool)
        ensures
            r == self.done.is_some(),
    {
        self.done.is_some()
    }

    fn new_frame(request: &Request, depth: usize, config: WWebS) -> (f: Frame)
        ensures
            f.stage == Stage::Stat,
            f.depth == depth,
            segs_view(f.path@) == candidate_spec(request.url.segs(), depth as nat),
            f.config@ == config@,
            f.query@ == crate::message::query_map(request.url.query),
            is_fresh(f.response),
            f.files@.len() == 0,
            f.hooks@.len() == 0,
            f.next == 0,
            !f.is_dir && !f.is_file && !f.executable,
            f.wf(),
    {
        Frame {
            depth,
            path: candidate_path(&request.url.segments, depth),
            config,
            query: request.url.query_params(),
            files: Vec::new(),
            is_dir: false,
            is_file: false,
            executable: false,
            stage: Stage::Stat,
            hooks: Vec::new(),
            next: 0,
            response: Response::with_status(0),
        }
    }

    /// Whether `e` answers the action that the resolver asks for now.
    pub open spec fn accepts_spec(&self, e: &Event) -> bool {
        self.done.is_none() && self.frames@.len() > 0 && match (self.frames@.last().stage, e) {
            (Stage::Stat, Event::Stat(_)) => true,
            (Stage::List, Event::Listed(_)) => true,
            (Stage::Config, Event::Config(_)) => true,
            (Stage::ReadTarget, Event::FileRead(_)) => true,
            (Stage::Gatekeepers, Event::Ran(_)) => true,
            (Stage::ReqTransformers, Event::Ran(_)) => true,
            (Stage::RunTarget, Event::Ran(_)) => true,
            (Stage::ResTransformers, Event::Ran(_)) => true,
            (Stage::Loggers, Event::Ran(_)) => true,
            _ => false,
        }
    }

    /// Whether `e` answers the action that the resolver asks for now.
    pub fn accepts(&self, e: &Event) -> (r: bool)
        requires
            self.wf(),
        ensures
            r == self.accepts_spec(e),
    {
        if self.done.is_some() {
            return false;
        }
        let n = self.frames.len();
        match (self.frames[n - 1].stage, e) {
            (Stage::Stat, Event::Stat(_)) => true,
            (Stage::List, Event::Listed(_)) => true,
            (Stage::Config, Event::Config(_)) => true,
            (Stage::ReadTarget, Event::FileRead(_)) => true,
            (Stage::Gatekeepers, Event::Ran(_)) => true,
            (Stage::ReqTransformers, Event::Ran(_)) => true,
            (Stage::RunTarget, Event::Ran(_)) => true,
            (Stage::ResTransformers, Event::Ran(_)) => true,
            (Stage::Loggers, Event::Ran(_)) => true,
            _ => false,
        }
    }

    /// What the resolver asks of its host now: at the end, the response;
    /// otherwise, by the current level's stage, a look at its path, its
    /// listing, its descriptor, its file, or a program run: the target, or
    /// the next hook, run for the request as it stands (for a response
    /// transformer, a `GET` carrying the response's headers and body), under
    /// the working configuration (for a response transformer or a logger,
    /// with `STATUS` set to the response status).
    pub fn next_action(&self) -> (r: Action)
        requires
            self.wf(),
        ensures
            match self.done {
                Some(d) => match r {
                    Action::Done(x) => x.status == d.status && x.headers@ == d.headers@ && x.body@ == d.body@,
                    _ => false,
                },
                None => {
                    let f = self.frames@.last();
                    let q = self.request;
                    match f.stage {
                        Stage::Stat => match r {
                            Action::Stat(p) => segs_view(p@) == segs_view(f.path@),
                            _ => false,
                        },
                        Stage::List => match r {
                            Action::ListDir(p) => segs_view(p@) == segs_view(f.path@),
                            _ => false,
                        },
                        Stage::Config => match r {
                            Action::ReadConfig(p) => segs_view(p@) == segs_view(f.path@),
                            _ => false,
                        },
                        Stage::ReadTarget => match r {
                            Action::ReadFile(p) => segs_view(p@) == segs_view(f.path@),
                            _ => false,
                        },
                        Stage::RunTarget => match r {
                            Action::Run(inv) => runs(
                                inv,
                                segs_view(f.path@),
                                q.proto@,
                                q.headers.pairs(),
                                q.verb@,
                                q.url.segs(),
                                q.body@,
                                f.query.pairs(),
                                env_map_spec(f.config@),
                            ),
                            _ => false,
                        },
                        Stage::Gatekeepers | Stage::ReqTransformers => match r {
                            Action::Run(inv) => runs(
                                inv,
                                segs_view(f.path@).push(f.hooks@[f.next as int]@),
                                q.proto@,
                                q.headers.pairs(),
                                q.verb@,
                                q.url.segs(),
                                q.body@,
                                f.query.pairs(),
                                env_map_spec(f.config@),
                            ),
                            _ => false,
                        },
                        Stage::ResTransformers => match r {
                            Action::Run(inv) => runs(
                                inv,
                                segs_view(f.path@).push(f.hooks@[f.next as int]@),
                                q.proto@,
                                f.response.headers.pairs(),
                                "GET"@,
                                q.url.segs(),
                                f.response.body@,
                                f.query.pairs(),
                                env_map_spec(f.config@).insert("STATUS"@, decimal(f.response.status as nat)),
                            ),
                            _ => false,
                        },
                        Stage::Loggers => match r {
                            Action::Run(inv) => runs(
                                inv,
                                segs_view(f.path@).push(f.hooks@[f.next as int]@),
                                q.proto@,
                                q.headers.pairs(),
                                q.verb@,
                                q.url.segs(),
                                q.body@,
                                f.query.pairs(),
                                env_map_spec(f.config@).insert("STATUS"@, decimal(f.response.status as nat)),
                            ),
                            _ => false,
                        },
                        Stage::Child => true,
                    }
                },
            },
    {
        match &self.done {
            Some(resp) => {
                return Action::Done(resp.duplicate());
            },
            None => {},
        }
        let n = self.frames.len();
        let f = &self.frames[n - 1];
        match f.stage {
            Stage::Stat => Action::Stat(dup_names(&f.path)),
            Stage::List => Action::ListDir(dup_names(&f.path)),
            Stage::Config => Action::ReadConfig(dup_names(&f.path)),
            Stage::ReadTarget => Action::ReadFile(dup_names(&f.path)),
            Stage::RunTarget => {
                let inv = invocation(dup_names(&f.path), &self.request, &f.query, &f.config);
                proof {
                    lemma_config_pairs(&f.config);
                }
                Action::Run(inv)
            },
            Stage::Gatekeepers | Stage::ReqTransformers => {
                let program = names_with(&f.path, &f.hooks[f.next]);
                let inv = invocation(program, &self.request, &f.query, &f.config);
                proof {
                    lemma_config_pairs(&f.config);
                }
                Action::Run(inv)
            },
            Stage::ResTransformers => {
                let program = names_with(&f.path, &f.hooks[f.next]);
                let req = transformer_request(&self.request, &f.response);
                let config = status_config(&f.config, f.response.status);
                let inv = invocation(program, &req, &f.query, &config);
                proof {
                    lemma_config_pairs(&config);
                }
                Action::Run(inv)
            },
            Stage::Loggers => {
                let program = names_with(&f.path, &f.hooks[f.next]);
                let config = status_config(&f.config, f.response.status);
                let inv = invocation(program, &self.request, &f.query, &config);
                proof {
                    lemma_config_pairs(&config);
                }
                Action::Run(inv)
            },
            Stage::Child => Action::Done(f.response.duplicate()),
        }
    }

    /// Takes the outcome of the current action and moves on: the current
    /// level takes the event in (see [`absorbed`]), then resolution goes on
    /// as [`stepped`] says.
    pub fn step(&mut self, e: Event)
        requires
            old(self).wf(),
            old(self).accepts_spec(&e),
        ensures
            final(self).wf(),
            exists|g: Frame, q: Request|
                absorbed(old(self).frames@.last(), old(self).request, e, g, q) && stepped(
                    old(self).frames@.drop_last(),
                    q,
                    g,
                    e,
                    *final(self),
                ),
    {
        proof {
            let k = old(self).frames@.len() - 1;
            assert(old(self).frames@[k].wf());
        }
        let mut f = match self.frames.pop() {
            Some(f) => f,
            None => {
                return;
            },
        };
        assert(f == old(self).frames@.last());
        assert(self.frames@ =~= old(self).frames@.drop_last());
        assert(self.stack_ok());
        let unreadable = match &e {
            Event::Stat(m) => !m.readable,
            _ => false,
        };
        let ghost frames0 = self.frames@;
        f.absorb(&mut self.request, e);
        let ghost g = f;
        let ghost q = self.request;
        match f.stage {
            Stage::Stat => {
                if unreadable {
                    self.settle(f, Settle::Finish);
                } else if f.is_dir {
                    f.stage = Stage::List;
                    self.push_current(f);
                } else {
                    self.to_target(f);
                }
            },
            Stage::List => {
                f.stage = Stage::Config;
                self.push_current(f);
            },
            Stage::Config => {
                let h = hooks_for(&f.files, ".gatekeeper");
                if h.len() > 0 {
                    f.hooks = h;
                    f.next = 0;
                    f.stage = Stage::Gatekeepers;
                    assert(f == Frame { hooks: f.hooks, next: 0, stage: Stage::Gatekeepers, ..g });
                    self.push_current(f);
                } else {
                    self.gate_done(f);
                }
            },
            Stage::Gatekeepers => {
                if f.next < f.hooks.len() {
                    self.push_current(f);
                } else {
                    self.gate_done(f);
                }
            },
            Stage::ReqTransformers => {
                if f.next < f.hooks.len() && f.response.is_ok() {
                    self.push_current(f);
                } else {
                    self.after_request(f);
                }
            },
            Stage::RunTarget | Stage::ReadTarget => {
                self.settle(f, Settle::AfterTarget);
            },
            Stage::ResTransformers => {
                if f.next < f.hooks.len() {
                    self.push_current(f);
                } else {
                    self.settle(f, Settle::AfterResponse);
                }
            },
            Stage::Loggers => {
                if f.next < f.hooks.len() {
                    self.push_current(f);
                } else {
                    self.settle(f, Settle::Finish);
                }
            },
            Stage::Child => {
                self.settle(f, Settle::Finish);
            },
        }
        assert(absorbed(old(self).frames@.last(), old(self).request, e, g, q));
        assert(stepped(frames0, q, g, e, *self));
    }
}

/// Whether a response is the unset one a level starts with: status 0, no
/// headers, no body.
pub open spec fn is_fresh(r: Response) -> bool {
    r.status == 0 && r.headers@ == Map::<Seq<char>, Seq<char>>::empty() && r.body@ == Seq::<u8>::empty()
}

/// Whether a stage runs hooks.
pub open spec fn is_hook_stage(s: Stage) -> bool {
    s == Stage::Gatekeepers || s == Stage::ReqTransformers || s == Stage::ResTransformers || s
        == Stage::Loggers
}

/// Whether a response is the one for a path that is missing or not readable
/// by others: status 404, no headers, no body.
pub open spec fn is_not_found(r: Response) -> bool {
    r.status == 404 && r.headers@ == Map::<Seq<char>, Seq<char>>::empty() && r.body@ == Seq::<u8>::empty()
}

} // verus!
