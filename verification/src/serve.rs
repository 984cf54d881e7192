//! The serve pipeline's decisions: rebuilding the effective URI,
//! choosing the response for a blocked request or an upstream failure,
//! processing response bodies, and the buffering used while streaming.
//!
//! The socket work around these functions — forwarding upstream,
//! upgrades, streaming — stays outside the library; every choice the
//! pipeline makes is taken here, on plain values.

use vstd::prelude::*;
use vstd::utf8::decode_utf8;
use vstd::utf8::encode_utf8;
use vstd::utf8::valid_utf8;
use crate::blocker::CosmeticBlockerResult;
use crate::blocker::NetworkBlockerResult;
use crate::cert::Authority;
use crate::rewriter::rewrite_html;
use crate::rewriter::rewritten;
use crate::text::contains_chars;
use crate::text::contains_str;
use crate::text::replace_first;
use crate::text::replaced_first;

verus! {

/// Bytes buffered before a chunk is passed on while streaming a body.
pub const BUFFER_SIZE: usize = 64 * 1024;

/// The scheme a proxied request is reissued under.
#[derive(PartialEq, Eq, Structural, Clone, Copy, Debug)]
pub enum Scheme {
    Http,
    Https,
}

/// The scheme's text.
pub open spec fn scheme_chars(s: Scheme) -> Seq<char> {
    match s {
        Scheme::Http => "http"@,
        Scheme::Https => "https"@,
    }
}

/// Decimal digits of `n`, most significant first.
pub open spec fn dec_chars(n: int) -> Seq<char>
    decreases n,
{
    if n < 0 {
        Seq::empty()
    } else if n < 10 {
        seq![digit_char(n)]
    } else {
        dec_chars(n / 10).push(digit_char(n % 10))
    }
}

/// The character of one decimal digit.
pub open spec fn digit_char(d: int) -> char {
    if d == 0 {
        '0'
    } else if d == 1 {
        '1'
    } else if d == 2 {
        '2'
    } else if d == 3 {
        '3'
    } else if d == 4 {
        '4'
    } else if d == 5 {
        '5'
    } else if d == 6 {
        '6'
    } else if d == 7 {
        '7'
    } else if d == 8 {
        '8'
    } else {
        '9'
    }
}

/// One decimal digit as text.
fn digit_str(d: u16) -> (r: &'static str)
    requires
        d < 10,
    ensures
        r@.len() == 1,
        r@[0] == digit_char(d as int),
{
    proof {
        reveal_strlit("0");
        reveal_strlit("1");
        reveal_strlit("2");
        reveal_strlit("3");
        reveal_strlit("4");
        reveal_strlit("5");
        reveal_strlit("6");
        reveal_strlit("7");
        reveal_strlit("8");
        reveal_strlit("9");
    }
    if d == 0 {
        "0"
    } else if d == 1 {
        "1"
    } else if d == 2 {
        "2"
    } else if d == 3 {
        "3"
    } else if d == 4 {
        "4"
    } else if d == 5 {
        "5"
    } else if d == 6 {
        "6"
    } else if d == 7 {
        "7"
    } else if d == 8 {
        "8"
    } else {
        "9"
    }
}

/// Renders a port number in decimal.
pub fn u16_dec(n: u16) -> (r: String)
    ensures
        r@ == dec_chars(n as int),
    decreases n,
{
    if n < 10 {
        let r = digit_str(n).to_owned();
        proof {
            assert(r@ =~= dec_chars(n as int));
        }
        r
    } else {
        let mut s = u16_dec(n / 10);
        s.append(digit_str(n % 10));
        proof {
            assert(s@ =~= dec_chars(n as int));
        }
        s
    }
}

/// The authority's text: the host, then `:port` when a port is named.
pub open spec fn authority_chars(a: Authority) -> Seq<char> {
    a.host@ + (match a.port {
        Some(p) => ":"@ + dec_chars(p as int),
        None => Seq::<char>::empty(),
    })
}

/// Renders an authority.
pub fn authority_string(a: &Authority) -> (r: String)
    ensures
        r@ == authority_chars(*a),
{
    let mut s: String = a.host.clone();
    match a.port {
        Some(p) => {
            s.append(":");
            let port = u16_dec(p);
            s.append(port.as_str());
        },
        None => {},
    }
    s
}

/// The effective URI the proxy reissues: scheme, authority, and the
/// request's path and query, with `/` standing in for an absent path.
pub open spec fn effective_uri(
    scheme: Scheme,
    authority: Authority,
    path_and_query: Option<Seq<char>>,
) -> Seq<char> {
    scheme_chars(scheme) + "://"@ + authority_chars(authority) + (match path_and_query {
        Some(pq) => pq,
        None => "/"@,
    })
}

/// Rebuilds the effective URI for one request.
pub fn rebuild_uri(scheme: Scheme, authority: &Authority, path_and_query: Option<&str>) -> (r:
    String)
    ensures
        r@ == effective_uri(
            scheme,
            *authority,
            match path_and_query {
                Some(pq) => Some(pq@),
                None => None,
            },
        ),
{
    let mut s: String = match scheme {
        Scheme::Http => String::from_str("http"),
        Scheme::Https => String::from_str("https"),
    };
    s.append("://");
    let auth = authority_string(authority);
    s.append(auth.as_str());
    match path_and_query {
        Some(pq) => s.append(pq),
        None => s.append("/"),
    }
    s
}

/// The key a blocked request is credited under in the top table:
/// `scheme://host/path`.
pub open spec fn blocked_path_chars(scheme: Scheme, host: Seq<char>, path: Seq<char>) -> Seq<
    char,
> {
    scheme_chars(scheme) + "://"@ + host + path
}

/// Renders the top-table key of one blocked request.
pub fn blocked_path_key(scheme: Scheme, host: &str, path: &str) -> (r: String)
    ensures
        r@ == blocked_path_chars(scheme, host@, path@),
{
    let mut s: String = match scheme {
        Scheme::Http => String::from_str("http"),
        Scheme::Https => String::from_str("https"),
    };
    s.append("://");
    s.append(host);
    s.append(path);
    s
}

/// A response the pipeline answers with itself, without an upstream.
pub struct HttpPayload {
    pub status: u16,
    pub body: Vec<u8>,
}

/// The page served in place of a blocked request, around the matched
/// filter's description.
pub const BLOCKED_PAGE: &'static str = "<html><head><title>Request blocked</title></head><body><h1>Request blocked by privaxy</h1><p>Matching filter: #{matching_filter}#</p></body></html>";

/// The page served when the upstream request fails, around the error's
/// description.
pub const ERROR_PAGE: &'static str = "<html><head><title>Request failed</title></head><body><h1>privaxy could not reach the upstream server</h1><p>#{request_error_reson}#</p></body></html>";

/// A response with the given status and no body.
pub fn get_empty_response(status: u16) -> (r: HttpPayload)
    ensures
        r.status == status,
        r.body@.len() == 0,
{
    HttpPayload { status, body: Vec::new() }
}

/// The response for a blocked request: a redirect payload is served as
/// a plain `200`; otherwise a `403` page naming the matched filter, or
/// `No information` when the engine named none.
pub fn get_blocked_by_privaxy_response(blocker_result: NetworkBlockerResult) -> (r: HttpPayload)
    ensures
        blocker_result.redirect is Some ==> r.status == 200 && r.body@ == encode_utf8(
            blocker_result.redirect.unwrap()@,
        ),
        blocker_result.redirect is None ==> r.status == 403 && r.body@ == encode_utf8(
            replaced_first(
                BLOCKED_PAGE@,
                "#{matching_filter}#"@,
                match blocker_result.filter {
                    Some(f) => f@,
                    None => "No information"@,
                },
            ),
        ),
{
    match blocker_result.redirect {
        Some(resource) => HttpPayload { status: 200, body: resource.as_str().as_bytes_vec() },
        None => {
            let filter_information: String = match blocker_result.filter {
                Some(f) => f,
                None => String::from_str("No information"),
            };
            let page = replace_first(
                BLOCKED_PAGE,
                "#{matching_filter}#",
                filter_information.as_str(),
            );
            HttpPayload { status: 403, body: page.as_str().as_bytes_vec() }
        },
    }
}

/// The `502` response for an upstream failure, naming the reason.
pub fn get_informative_error_response(reason: &str) -> (r: HttpPayload)
    ensures
        r.status == 502,
        r.body@ == encode_utf8(replaced_first(ERROR_PAGE@, "#{request_error_reson}#"@, reason@)),
{
    let page = replace_first(ERROR_PAGE, "#{request_error_reson}#", reason);
    HttpPayload { status: 502, body: page.as_str().as_bytes_vec() }
}

/// Whether this `Content-Type` names an HTML body.
pub fn content_type_is_html(content_type: &str) -> (r: bool)
    ensures
        r == contains_chars(content_type@, "text/html"@),
{
    contains_str(content_type, "text/html")
}

/// Relies on std's `String::from_utf8_lossy`: valid UTF-8 bytes decode
/// to exactly their characters. What invalid bytes decode to is not
/// relied on.
#[verifier::external_body]
fn bytes_to_string_lossy(v: &Vec<u8>) -> (r: String)
    ensures
        valid_utf8(v@) ==> r@ == decode_utf8(v@),
{
    String::from_utf8_lossy(v.as_slice()).into_owned()
}

/// Processes one response body: an HTML body runs through the
/// rewriter, every other body passes through byte-exactly.
pub fn process_body(content_type: &str, body: Vec<u8>, cosmetic: &CosmeticBlockerResult) -> (r:
    Vec<u8>)
    ensures
        !contains_chars(content_type@, "text/html"@) ==> r@ == body@,
        contains_chars(content_type@, "text/html"@) && valid_utf8(body@) ==> r@ == encode_utf8(
            rewritten(decode_utf8(body@), *cosmetic),
        ),
{
    if content_type_is_html(content_type) {
        let page = bytes_to_string_lossy(&body);
        let rewritten_page = rewrite_html(page.as_str(), cosmetic);
        rewritten_page.as_str().as_bytes_vec()
    } else {
        body
    }
}

/// The buffer a streamed body runs through: bytes accumulate until
/// `BUFFER_SIZE` is reached, then leave as one chunk. Nothing is lost
/// and nothing reordered: what went in is what came out followed by
/// what still waits.
pub struct ChunkBuffer {
    pub pending: Vec<u8>,
    /// All bytes handed out so far.
    pub emitted: Ghost<Seq<u8>>,
}

impl ChunkBuffer {
    /// Every byte received so far: handed out or still waiting.
    pub open spec fn received(self) -> Seq<u8> {
        self.emitted@ + self.pending@
    }

    /// Empty buffer.
    pub fn new() -> (r: Self)
        ensures
            r.received() == Seq::<u8>::empty(),
            r.emitted@ == Seq::<u8>::empty(),
    {
        let r = ChunkBuffer { pending: Vec::new(), emitted: Ghost(Seq::empty()) };
        proof {
            assert(r.received() =~= Seq::<u8>::empty());
        }
        r
    }

    /// Takes one chunk in; hands the buffered bytes out once at least
    /// `BUFFER_SIZE` of them wait.
    pub fn push(&mut self, chunk: &Vec<u8>) -> (out: Option<Vec<u8>>)
        ensures
            final(self).received() == old(self).received() + chunk@,
            match out {
                Some(flushed) => flushed@ == old(self).pending@ + chunk@
                    && final(self).pending@.len() == 0
                    && final(self).emitted@ == old(self).emitted@ + flushed@,
                None => final(self).emitted@ == old(self).emitted@ && old(self).pending@.len()
                    + chunk@.len() < BUFFER_SIZE,
            },
    {
        let mut incoming = chunk.clone();
        proof {
            assert(incoming@ =~= chunk@);
        }
        self.pending.append(&mut incoming);
        if self.pending.len() >= BUFFER_SIZE {
            let mut flushed: Vec<u8> = Vec::new();
            core::mem::swap(&mut flushed, &mut self.pending);
            self.emitted = Ghost(self.emitted@ + flushed@);
            proof {
                assert(self.received() =~= old(self).received() + chunk@);
            }
            Some(flushed)
        } else {
            proof {
                assert(self.received() =~= old(self).received() + chunk@);
            }
            None
        }
    }

    /// Hands out whatever still waits; the buffer ends empty.
    pub fn finish(&mut self) -> (out: Vec<u8>)
        ensures
            out@ == old(self).pending@,
            final(self).pending@.len() == 0,
            final(self).emitted@ == old(self).emitted@ + out@,
            final(self).received() == old(self).received(),
    {
        let mut flushed: Vec<u8> = Vec::new();
        core::mem::swap(&mut flushed, &mut self.pending);
        self.emitted = Ghost(self.emitted@ + flushed@);
        proof {
            assert(self.received() =~= old(self).received());
        }
        flushed
    }
}

} // verus!
