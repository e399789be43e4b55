//! The HTTP side of the protocol adapters: the listener's configuration,
//! and the headers that the cookies of a request become.

use vstd::prelude::*;
use crate::strmap::pairs_of;
use crate::text::concat;

verus! {

/// The marker for the HTTP protocol.
pub struct Http;

/// The configuration of the HTTP listener.
pub struct HttpConfig {
    /// The IPv4 address to listen on.
    pub ip: [u8; 4],
    /// The TCP port to listen on.
    pub port: u16,
}

impl Default for HttpConfig {
    fn default() -> (r: HttpConfig)
        ensures
            r.ip@ == seq![127u8, 0, 0, 1],
            r.port == 8000,
    {
        let r = HttpConfig { ip: [127, 0, 0, 1], port: 8000 };
        assert(r.ip@ =~= seq![127u8, 0, 0, 1]);
        r
    }
}

/// A text split at every `c`; never empty.
pub open spec fn split_char(s: Seq<char>, c: char) -> Seq<Seq<char>>
    decreases s.len(),
{
    if s.len() == 0 {
        seq![Seq::empty()]
    } else {
        let p = split_char(s.drop_last(), c);
        if s.last() == c {
            p.push(Seq::empty())
        } else {
            p.update(p.len() - 1, p.last().push(s.last()))
        }
    }
}

proof fn lemma_split_nonempty(s: Seq<char>, c: char)
    ensures
        split_char(s, c).len() >= 1,
    decreases s.len(),
{
    if s.len() > 0 {
        lemma_split_nonempty(s.drop_last(), c);
    }
}

/// Splits a text at every `c`, as `str::split` does.
pub fn split_at_char(s: &str, c: char) -> (r: Vec<String>)
    ensures
        r@.map_values(|x: String| x@) == split_char(s@, c),
{
    let n = s.unicode_len();
    let mut done: Vec<String> = Vec::new();
    let mut start: usize = 0;
    let mut i: usize = 0;
    assert(s@.take(0) =~= Seq::<char>::empty());
    assert(done@.map_values(|x: String| x@).push(s@.subrange(0, 0)) =~= seq![Seq::<char>::empty()]);
    while i < n
        invariant
            n == s@.len(),
            start <= i <= n,
            done@.map_values(|x: String| x@).push(s@.subrange(start as int, i as int)) == split_char(
                s@.take(i as int),
                c,
            ),
        decreases n - i,
    {
        proof {
            assert(s@.take(i + 1).drop_last() =~= s@.take(i as int));
            lemma_split_nonempty(s@.take(i as int), c);
        }
        let ghost before = done@.map_values(|x: String| x@);
        let ghost sub = s@.subrange(start as int, i as int);
        assert(before.push(sub).drop_last() =~= before);
        if s.get_char(i) == c {
            done.push(s.substring_char(start, i).to_owned());
            assert(done@.map_values(|x: String| x@) =~= before.push(sub));
            assert(s@.subrange(i + 1, i + 1) =~= Seq::<char>::empty());
            start = i + 1;
        } else {
            assert(s@.subrange(start as int, i + 1) =~= sub.push(s@[i as int]));
            assert(before.push(s@.subrange(start as int, i + 1)) =~= before.push(sub).update(
                before.len() as int,
                sub.push(s@[i as int]),
            ));
        }
        i = i + 1;
    }
    assert(s@.take(n as int) =~= s@);
    done.push(s.substring_char(start, n).to_owned());
    assert(done@.map_values(|x: String| x@) =~= split_char(s@, c));
    done
}

/// The name and value of a cookie string, where it parses.
pub uninterp spec fn cookie_of(s: Seq<char>) -> Option<(Seq<char>, Seq<char>)>;

/// Relies on cookie's `Cookie::parse`: the name and value of a cookie
/// string (each with surrounding whitespace trimmed by the parser), or an
/// error; the result depends on the string alone.
#[verifier::external_body]
fn parse_cookie(s: &str) -> (r: Option<(String, String)>)
    ensures
        match r {
            Some(p) => cookie_of(s@) == Some((p.0@, p.1@)),
            None => cookie_of(s@) == None::<(Seq<char>, Seq<char>)>,
        },
{
    match cookie::Cookie::parse(s) {
        Ok(c) => Some((c.name().to_string(), c.value().to_string())),
        Err(_) => None,
    }
}

/// A cookie name with every `-` made `_`.
pub open spec fn dashes_to_underscores(s: Seq<char>) -> Seq<char> {
    s.map_values(|ch: char| if ch == '-' { '_' } else { ch })
}

/// The header that a cookie becomes: `Cookie_` and its name, with every `-`
/// made `_`, set to its value.
pub open spec fn cookie_header(p: (Seq<char>, Seq<char>)) -> (Seq<char>, Seq<char>) {
    ("Cookie_"@ + dashes_to_underscores(p.0), p.1)
}

/// The headers that the parts of a `Cookie` header become, in order: one per
/// part that parses as a cookie.
pub open spec fn cookie_headers_spec(parts: Seq<Seq<char>>) -> Seq<(Seq<char>, Seq<char>)>
    decreases parts.len(),
{
    if parts.len() == 0 {
        Seq::empty()
    } else {
        cookie_headers_spec(parts.drop_last()) + match cookie_of(parts.last()) {
            Some(p) => seq![cookie_header(p)],
            None => Seq::empty(),
        }
    }
}

fn underscored(s: &str) -> (r: String)
    ensures
        r@ == dashes_to_underscores(s@),
{
    let n = s.unicode_len();
    let mut r = String::new();
    let mut i: usize = 0;
    while i < n
        invariant
            n == s@.len(),
            i <= n,
            r@ == dashes_to_underscores(s@.take(i as int)),
        decreases n - i,
    {
        proof {
            reveal_strlit("_");
        }
        if s.get_char(i) == '-' {
            r.append("_");
        } else {
            r.append(s.substring_char(i, i + 1));
        }
        assert(r@ =~= dashes_to_underscores(s@.take(i + 1)));
        i = i + 1;
    }
    assert(s@.take(i as int) =~= s@);
    r
}

/// The headers that the value of a `Cookie` header becomes: it is split at
/// `;`, and each part that parses as a cookie gives the header
/// `Cookie_<name>` (with `-` made `_`) set to its value.
pub fn cookie_headers(value: &str) -> (r: Vec<(String, String)>)
    ensures
        pairs_of(r@) == cookie_headers_spec(split_char(value@, ';')),
{
    let parts = split_at_char(value, ';');
    let ghost ps = parts@.map_values(|x: String| x@);
    let mut r: Vec<(String, String)> = Vec::new();
    let mut i: usize = 0;
    assert(ps.take(0) =~= Seq::<Seq<char>>::empty());
    assert(pairs_of(r@) =~= Seq::<(Seq<char>, Seq<char>)>::empty());
    while i < parts.len()
        invariant
            i <= parts.len(),
            ps == parts@.map_values(|x: String| x@),
            pairs_of(r@) == cookie_headers_spec(ps.take(i as int)),
        decreases parts.len() - i,
    {
        assert(ps.take(i + 1).drop_last() =~= ps.take(i as int));
        assert(ps.take(i + 1).last() == parts@[i as int]@);
        let ghost before = r@;
        match parse_cookie(parts[i].as_str()) {
            Some(p) => {
                proof {
                    reveal_strlit("Cookie_");
                }
                let name = concat("Cookie_", underscored(p.0.as_str()).as_str());
                r.push((name, p.1));
                assert(pairs_of(r@) =~= pairs_of(before).push(cookie_header((p.0@, p.1@))));
                assert(pairs_of(before).push(cookie_header((p.0@, p.1@))) =~= pairs_of(before) + seq![
                    cookie_header((p.0@, p.1@)),
                ]);
            },
            None => {
                assert(pairs_of(before) =~= pairs_of(before) + Seq::<(Seq<char>, Seq<char>)>::empty());
            },
        }
        i = i + 1;
    }
    assert(ps.take(i as int) =~= ps);
    r
}

} // verus!
