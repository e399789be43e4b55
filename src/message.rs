//! The protocol-neutral request and response.

use vstd::prelude::*;
use crate::strmap::StrMap;
use crate::text::{concat, join_path, path_join};

verus! {

/// Whether a status means success: the unset value 0, or one in [200, 300).
pub open spec fn status_ok(s: u16) -> bool {
    s == 0 || (200 <= s && s < 300)
}

/// The body of the generic internal error response: `INTERNAL SERVER ERROR`.
pub open spec fn internal_error_body() -> Seq<u8> {
    seq![73u8, 78, 84, 69, 82, 78, 65, 76, 32, 83, 69, 82, 86, 69, 82, 32, 69, 82, 82, 79, 82]
}

/// An HTTP-like response.
pub struct Response {
    /// The status; 0 means an unset, successful status.
    pub status: u16,
    /// The headers.
    pub headers: StrMap,
    /// The body; callers treat it as empty where the status is not ok.
    pub body: Vec<u8>,
}

/// A copy of a byte buffer.
pub fn copy_bytes(v: &Vec<u8>) -> (r: Vec<u8>)
    ensures
        r@ == v@,
{
    let mut r: Vec<u8> = Vec::new();
    let mut i: usize = 0;
    while i < v.len()
        invariant
            i <= v.len(),
            r@ == v@.take(i as int),
        decreases v.len() - i,
    {
        r.push(v[i]);
        assert(r@ =~= v@.take(i + 1));
        i = i + 1;
    }
    assert(v@.take(i as int) =~= v@);
    r
}

impl Response {
    /// A response with the given status and no headers or body.
    pub fn with_status(status: u16) -> (r: Response)
        ensures
            r.status == status,
            r.headers@ == Map::<Seq<char>, Seq<char>>::empty(),
            r.body@ == Seq::<u8>::empty(),
    {
        Response { status, headers: StrMap::new(), body: Vec::new() }
    }

    /// Whether the response is ok: status 0 or in [200, 300).
    pub fn is_ok(&self) -> (r: bool)
        ensures
            r == status_ok(self.status),
    {
        self.status == 0 || (200 <= self.status && self.status < 300)
    }

    /// The generic response to a failure of the server's own: status 500
    /// with the body `INTERNAL SERVER ERROR`.
    pub fn internal_server_error() -> (r: Response)
        ensures
            r.status == 500,
            r.headers@ == Map::<Seq<char>, Seq<char>>::empty(),
            r.body@ == internal_error_body(),
    {
        let body: Vec<u8> = vec![73u8, 78, 84, 69, 82, 78, 65, 76, 32, 83, 69, 82, 86, 69, 82, 32, 69, 82, 82, 79, 82];
        assert(body@ =~= internal_error_body());
        Response { status: 500, headers: StrMap::new(), body }
    }

    /// A copy of the response.
    pub fn duplicate(&self) -> (r: Response)
        ensures
            r.status == self.status,
            r.headers@ == self.headers@,
            r.headers.pairs() == self.headers.pairs(),
            r.body@ == self.body@,
    {
        Response { status: self.status, headers: self.headers.duplicate(), body: copy_bytes(&self.body) }
    }
}

impl Default for Response {
    fn default() -> (r: Response)
        ensures
            r.status == 0,
            r.headers@ == Map::<Seq<char>, Seq<char>>::empty(),
            r.body@ == Seq::<u8>::empty(),
    {
        Response::with_status(0)
    }
}

/// The URL of a request, as the engine reads it: its path segments, as they
/// stand percent-encoded in the URL, and its query string.
pub struct RequestUrl {
    /// The path segments; the path `/` has the one segment "".
    pub segments: Vec<String>,
    /// The query string, without its `?`, if the URL has one.
    pub query: Option<String>,
}

/// The segments of a URL as values.
pub open spec fn segs_view(v: Seq<String>) -> Seq<Seq<char>> {
    v.map_values(|x: String| x@)
}

/// The segments as values, one by one.
pub proof fn lemma_segs_view(v: Seq<String>)
    ensures
        segs_view(v).len() == v.len(),
        forall|i: int| 0 <= i < v.len() ==> #[trigger] segs_view(v)[i] == v[i]@,
{
}

/// The segments joined by `/`.
pub open spec fn join_slash(segs: Seq<Seq<char>>) -> Seq<char>
    decreases segs.len(),
{
    if segs.len() == 0 {
        Seq::empty()
    } else if segs.len() == 1 {
        segs[0]
    } else {
        join_slash(segs.drop_last()).push('/') + segs.last()
    }
}

/// The path of a URL with the given segments.
pub open spec fn url_path(segs: Seq<Seq<char>>) -> Seq<char> {
    seq!['/'] + join_slash(segs)
}

/// How a URL path segment is written in a URL.
pub uninterp spec fn encoded_segment(s: Seq<char>) -> Seq<char>;

/// The segments after a segment is appended to the path: `.` and `..` are
/// left out, and on the path `/` the new segment is the only one. The new
/// segment is encoded as in an `http` URL.
pub open spec fn push_segment_spec(segs: Seq<Seq<char>>, s: Seq<char>) -> Seq<Seq<char>> {
    if s == "."@ || s == ".."@ {
        segs
    } else if segs.len() == 0 || segs == seq![Seq::<char>::empty()] {
        seq![encoded_segment(s)]
    } else {
        segs.push(encoded_segment(s))
    }
}

/// Relies on url's `PathSegmentsMut::push`, which percent-encodes the segment
/// it appends; the result depends on the segment alone.
#[verifier::external_body]
fn encode_segment(s: &str) -> (r: String)
    ensures
        r@ == encoded_segment(s@),
{
    let mut u = url::Url::parse("http://localhost/").unwrap();
    if let Ok(mut p) = u.path_segments_mut() {
        p.push(s);
    }
    u.path_segments().and_then(|segments| segments.last()).unwrap_or_default().to_string()
}

/// The name/value pairs that a query string holds, percent-decoded.
pub uninterp spec fn query_pairs_of(q: Seq<char>) -> Seq<(Seq<char>, Seq<char>)>;

/// Relies on `url::form_urlencoded::parse`: the pairs of a query string, in
/// order, decoded; the result depends on the string alone.
#[verifier::external_body]
fn parse_query(q: &str) -> (r: Vec<(String, String)>)
    ensures
        crate::strmap::pairs_of(r@) == query_pairs_of(q@),
{
    url::form_urlencoded::parse(q.as_bytes()).map(|(a, b)| (a.into_owned(), b.into_owned())).collect()
}

/// The map of query parameters: a later pair wins over an earlier one.
pub open spec fn query_map(q: Option<String>) -> Map<Seq<char>, Seq<char>> {
    match q {
        Some(s) => crate::strmap::map_of_pairs(query_pairs_of(s@)),
        None => Map::empty(),
    }
}

impl RequestUrl {
    /// The URL `http://localhost/`: the path `/` and no query.
    pub fn root() -> (r: RequestUrl)
        ensures
            segs_view(r.segments@) == seq![Seq::<char>::empty()],
            r.query.is_none(),
    {
        let segments: Vec<String> = vec![String::new()];
        assert(segs_view(segments@) =~= seq![Seq::<char>::empty()]);
        RequestUrl { segments, query: None }
    }

    /// The segments as values.
    pub open spec fn segs(&self) -> Seq<Seq<char>> {
        segs_view(self.segments@)
    }

    /// The path: `/` followed by the segments joined by `/`.
    pub fn path(&self) -> (r: String)
        ensures
            r@ == url_path(self.segs()),
    {
        proof {
            reveal_strlit("/");
        }
        let mut r = String::from_str("/");
        let mut i: usize = 0;
        while i < self.segments.len()
            invariant
                i <= self.segments.len(),
                r@ == seq!['/'] + join_slash(self.segs().take(i as int)),
            decreases self.segments.len() - i,
        {
            proof {
                lemma_segs_view(self.segments@);
            }
            let ghost t = self.segs().take(i + 1);
            assert(t.drop_last() =~= self.segs().take(i as int));
            assert(t.last() == self.segments@[i as int]@);
            let ghost before = r@;
            proof {
                reveal_strlit("/");
            }
            if i > 0 {
                r.append("/");
            }
            r.append(self.segments[i].as_str());
            proof {
                if i == 0 {
                    assert(join_slash(self.segs().take(0)) == Seq::<char>::empty());
                    assert(before =~= seq!['/']);
                    assert(r@ == before + self.segments@[0]@);
                    assert(t[0] == self.segments@[0]@);
                    assert(join_slash(t) == t[0]);
                    assert(r@ == seq!['/'] + join_slash(t));
                } else {
                    assert(join_slash(t) == join_slash(t.drop_last()).push('/') + t.last());
                    assert(r@ =~= seq!['/'] + join_slash(t));
                }
            }
            i = i + 1;
        }
        assert(self.segs().take(i as int) =~= self.segs());
        r
    }

    /// Appends a segment to the path, percent-encoded as in an `http` URL:
    /// `.` and `..` are left out, and on the path `/` the new segment is the
    /// only one. (Unlike url's `PathSegmentsMut::push`, no tab or newline is
    /// dropped first, and the encoding does not depend on the scheme.)
    pub fn push_segment(&mut self, s: &str)
        ensures
            final(self).segs() == push_segment_spec(old(self).segs(), s@),
            final(self).query == old(self).query,
    {
        proof {
            reveal_strlit(".");
            reveal_strlit("..");
        }
        if crate::text::same_str(s, ".") || crate::text::same_str(s, "..") {
            return;
        }
        let e = encode_segment(s);
        if self.segments.len() == 0 || (self.segments.len() == 1 && self.segments[0].as_str().unicode_len() == 0) {
            proof {
                lemma_segs_view(old(self).segments@);
                if old(self).segments.len() == 1 {
                    assert(old(self).segments@[0]@ =~= Seq::<char>::empty());
                    assert(old(self).segs() =~= seq![Seq::<char>::empty()]);
                }
            }
            self.segments = vec![e];
            assert(self.segs() =~= push_segment_spec(old(self).segs(), s@));
        } else {
            self.segments.push(e);
            proof {
                assert(self.segs() =~= old(self).segs().push(encoded_segment(s@)));
                if old(self).segs() == seq![Seq::<char>::empty()] {
                    assert(old(self).segs()[0] == Seq::<char>::empty());
                }
            }
        }
    }

    /// The query parameters; a later pair wins over an earlier one.
    pub fn query_params(&self) -> (r: StrMap)
        ensures
            r@ == query_map(self.query),
    {
        match &self.query {
            None => StrMap::new(),
            Some(q) => {
                let pairs = parse_query(q.as_str());
                StrMap::from_pairs(&pairs)
            },
        }
    }

    /// A copy of the URL.
    pub fn duplicate(&self) -> (r: RequestUrl)
        ensures
            r.segs() == self.segs(),
            r.query == self.query || (r.query.is_some() && self.query.is_some() && r.query.unwrap()@
                == self.query.unwrap()@),
    {
        let mut segments: Vec<String> = Vec::new();
        let mut i: usize = 0;
        while i < self.segments.len()
            invariant
                i <= self.segments.len(),
                segs_view(segments@) == self.segs().take(i as int),
                segments@.len() == i,
            decreases self.segments.len() - i,
        {
            let c = self.segments[i].clone();
            let ghost prev = segments@;
            segments.push(c);
            proof {
                lemma_segs_view(segments@);
                lemma_segs_view(prev);
                lemma_segs_view(self.segments@);
            }
            assert(segs_view(segments@) =~= self.segs().take(i + 1));
            i = i + 1;
        }
        assert(self.segs().take(i as int) =~= self.segs());
        let query = match &self.query {
            Some(q) => Some(q.clone()),
            None => None,
        };
        RequestUrl { segments, query }
    }
}

/// An HTTP-like request.
pub struct Request {
    /// The protocol the request came in by.
    pub proto: String,
    /// The verb; the empty string means `GET`.
    pub verb: String,
    /// The URL.
    pub url: RequestUrl,
    /// The headers.
    pub headers: StrMap,
    /// The body.
    pub body: Vec<u8>,
}

impl Request {
    /// A copy of the request.
    pub fn duplicate(&self) -> (r: Request)
        ensures
            r.proto@ == self.proto@,
            r.verb@ == self.verb@,
            r.url.segs() == self.url.segs(),
            query_map(r.url.query) == query_map(self.url.query),
            r.headers@ == self.headers@,
            r.headers.pairs() == self.headers.pairs(),
            r.body@ == self.body@,
    {
        Request {
            proto: self.proto.clone(),
            verb: self.verb.clone(),
            url: self.url.duplicate(),
            headers: self.headers.duplicate(),
            body: copy_bytes(&self.body),
        }
    }
}

impl Default for Request {
    fn default() -> (r: Request)
        ensures
            r.proto@ == Seq::<char>::empty(),
            r.verb@ == Seq::<char>::empty(),
            r.url.segs() == seq![Seq::<char>::empty()],
            r.url.query.is_none(),
            r.headers@ == Map::<Seq<char>, Seq<char>>::empty(),
            r.body@ == Seq::<u8>::empty(),
    {
        Request {
            proto: String::new(),
            verb: String::new(),
            url: RequestUrl::root(),
            headers: StrMap::new(),
            body: Vec::new(),
        }
    }
}

} // verus!
