//! The Gemini side of the protocol adapters: how a response maps onto
//! Gemini's status codes and metadata.

use vstd::prelude::*;
use crate::message::{status_ok, Request, RequestUrl, Response};
use crate::strmap::StrMap;
use crate::process::{decode_utf8, utf8_text};

verus! {

/// The marker for the Gemini protocol.
pub struct Gemini;

/// The configuration of the Gemini listener.
pub struct GConfig {
    /// The private key file.
    pub private: String,
    /// The certificate file.
    pub public: String,
}

impl Default for GConfig {
    fn default() -> (r: GConfig)
        ensures
            r.private@ == "./private.pem"@,
            r.public@ == "public.pem"@,
    {
        GConfig { private: String::from_str("./private.pem"), public: String::from_str("public.pem") }
    }
}

/// A Gemini request, as the listener hands it over.
pub struct GRequest {
    /// The URL.
    pub url: RequestUrl,
    /// The host that the URL names, if any.
    pub host: Option<String>,
    /// The fingerprint of the client's certificate, if it gave one.
    pub user_cert: Option<String>,
}

/// The headers of the request for a Gemini request: `UserCert` with the
/// certificate fingerprint and `Host` with the host, each where present.
pub open spec fn gemini_headers(user_cert: Option<String>, host: Option<String>) -> Map<Seq<char>, Seq<char>> {
    let m = match user_cert {
        Some(c) => Map::<Seq<char>, Seq<char>>::empty().insert("UserCert"@, c@),
        None => Map::<Seq<char>, Seq<char>>::empty(),
    };
    match host {
        Some(h) => m.insert("Host"@, h@),
        None => m,
    }
}

impl Request {
    /// The request for a Gemini request: a `GET` by the Gemini protocol of
    /// the same URL, with no body.
    pub fn from(req: GRequest) -> (r: Request)
        ensures
            r.proto@ == "Gemini"@,
            r.verb@ == "GET"@,
            r.url == req.url,
            r.headers@ == gemini_headers(req.user_cert, req.host),
            r.body@ == Seq::<u8>::empty(),
    {
        let mut headers = StrMap::new();
        match req.user_cert {
            Some(c) => headers.insert(String::from_str("UserCert"), c),
            None => {},
        }
        match req.host {
            Some(h) => headers.insert(String::from_str("Host"), h),
            None => {},
        }
        Request { proto: String::from_str("Gemini"), verb: String::from_str("GET"), url: req.url, headers, body: Vec::new() }
    }
}

/// A Gemini response.
pub struct GResponse {
    /// The two-digit Gemini status.
    pub status: i32,
    /// The metadata: a MIME type on success, a redirect target or an error
    /// text otherwise.
    pub meta: String,
    /// The body; empty unless the status is a success.
    pub body: Vec<u8>,
}

/// The Gemini status for a response status.
pub open spec fn gemini_status(s: u16) -> u16 {
    if s == 0 {
        20
    } else if s < 62 {
        s
    } else if status_ok(s) {
        20
    } else if s == 301 {
        31
    } else if s == 302 {
        30
    } else if 300 <= s && s < 400 {
        30
    } else if s == 503 {
        41
    } else if s == 500 {
        42
    } else if s == 502 {
        43
    } else if s == 429 {
        44
    } else if 500 <= s && s < 600 {
        40
    } else if s == 404 {
        51
    } else if s == 410 {
        52
    } else if s == 400 {
        59
    } else if s == 401 {
        60
    } else if s == 403 {
        61
    } else if s == 600 {
        10
    } else if s == 601 {
        11
    } else {
        42
    }
}

/// The Gemini status for a response status.
pub fn map_status(s: u16) -> (r: u16)
    ensures
        r == gemini_status(s),
{
    if s == 0 {
        20
    } else if s < 62 {
        s
    } else if s == 0 || (200 <= s && s < 300) {
        20
    } else if s == 301 {
        31
    } else if s == 302 {
        30
    } else if 300 <= s && s < 400 {
        30
    } else if s == 503 {
        41
    } else if s == 500 {
        42
    } else if s == 502 {
        43
    } else if s == 429 {
        44
    } else if 500 <= s && s < 600 {
        40
    } else if s == 404 {
        51
    } else if s == 410 {
        52
    } else if s == 400 {
        59
    } else if s == 401 {
        60
    } else if s == 403 {
        61
    } else if s == 600 {
        10
    } else if s == 601 {
        11
    } else {
        42
    }
}

/// The metadata of a Gemini response. On success: the `GEMINI_META` header,
/// else `Content-Type`, else `application/octet-stream`. On a redirect: the
/// `Location` header, else `/`. On an error or an input request: the body as
/// text, or `???` where it is not UTF-8. Otherwise a fixed complaint.
pub open spec fn gemini_meta(res: Response) -> Seq<char> {
    let h = res.headers@;
    let g = gemini_status(res.status);
    if status_ok(res.status) {
        if h.contains_key("GEMINI_META"@) {
            h["GEMINI_META"@]
        } else if h.contains_key("Content-Type"@) {
            h["Content-Type"@]
        } else {
            "application/octet-stream"@
        }
    } else if 30 <= g && g < 40 {
        if h.contains_key("Location"@) {
            h["Location"@]
        } else {
            "/"@
        }
    } else if (40 <= g && g < 62) || g < 10 {
        match utf8_text(res.body@) {
            Some(t) => t,
            None => "???"@,
        }
    } else {
        "Body wasn't a string when it should have been"@
    }
}

fn header_or(res: &Response, key: &str, fallback: &str) -> (r: String)
    ensures
        r@ == if res.headers@.contains_key(key@) {
            res.headers@[key@]
        } else {
            fallback@
        },
{
    match res.headers.get(key) {
        Some(v) => v,
        None => String::from_str(fallback),
    }
}

impl GResponse {
    /// The Gemini response for a response.
    pub fn from(res: Response) -> (r: GResponse)
        ensures
            r.status == gemini_status(res.status) as i32,
            r.meta@ == gemini_meta(res),
            r.body@ == if status_ok(res.status) {
                res.body@
            } else {
                Seq::<u8>::empty()
            },
    {
        let status = map_status(res.status);
        let ok = res.is_ok();
        let meta = if ok {
            match res.headers.get("GEMINI_META") {
                Some(m) => m,
                None => header_or(&res, "Content-Type", "application/octet-stream"),
            }
        } else if 30 <= status && status < 40 {
            header_or(&res, "Location", "/")
        } else if (40 <= status && status < 62) || status < 10 {
            match decode_utf8(&res.body) {
                Some(t) => t,
                None => String::from_str("???"),
            }
        } else {
            String::from_str("Body wasn't a string when it should have been")
        };
        let body = if ok {
            res.body
        } else {
            Vec::new()
        };
        GResponse { status: status as i32, meta, body }
    }
}

} // verus!
