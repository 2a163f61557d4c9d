use vstd::prelude::*;
use vstd::string::StringExecFns;
use vstd::utf8::encode_utf8;

use crate::endpoint::Endpoint;
use crate::error::HttpError;
use crate::method::{method_token, Method};
use crate::text::{decimal, push_decimal};

verus! {

/// `<METHOD> <path> HTTP/1.1\r\n`
pub open spec fn request_line(m: Method, path: Seq<char>) -> Seq<char> {
    method_token(m) + " "@ + path + " HTTP/1.1\r\n"@
}

/// `Host: <host>\r\n`
pub open spec fn host_line(host: Seq<char>) -> Seq<char> {
    "Host: "@ + host + "\r\n"@
}

/// `Connection: close\r\n`
pub open spec fn connection_line() -> Seq<char> {
    "Connection: close\r\n"@
}

/// The text a freshly built request starts with.
pub open spec fn request_head(m: Method, host: Seq<char>, path: Seq<char>) -> Seq<char> {
    request_line(m, path) + host_line(host) + connection_line()
}

/// `<key>: <value>\r\n`
pub open spec fn header_line(key: Seq<char>, value: Seq<char>) -> Seq<char> {
    key + ": "@ + value + "\r\n"@
}

/// A blank line followed by the body.
pub open spec fn body_segment(body: Seq<char>) -> Seq<char> {
    "\r\n"@ + body
}

/// `<host>:<port>`
pub open spec fn authority(host: Seq<char>, port: nat) -> Seq<char> {
    host + ":"@ + decimal(port)
}

/// One HTTP/1.1 request being built: its wire text, the target host and
/// port, and the endpoint the host resolved to.
#[derive(Debug)]
pub struct Request {
    raw: String,
    host: String,
    port: u16,
    endpoint: Endpoint,
}

impl Clone for Request {
    /// A deep copy: later changes to either leave the other as it was.
    fn clone(&self) -> (r: Request)
        ensures
            r == *self,
    {
        Request {
            raw: self.raw.clone(),
            host: self.host.clone(),
            port: self.port,
            endpoint: self.endpoint,
        }
    }
}

impl Request {
    /// The wire text accumulated so far.
    pub closed spec fn text(&self) -> Seq<char> {
        self.raw@
    }

    pub closed spec fn host_spec(&self) -> Seq<char> {
        self.host@
    }

    pub closed spec fn port_spec(&self) -> u16 {
        self.port
    }

    pub closed spec fn endpoint_spec(&self) -> Endpoint {
        self.endpoint
    }

    /// Builds the request line and the `Host` and `Connection: close`
    /// headers. `resolved` holds the endpoints that `host:port` resolved to;
    /// the first one is kept, and none is an address resolution error.
    pub fn new(method: Method, host: &str, port: u16, path: &str, resolved: &[Endpoint]) -> (r:
        Result<Request, HttpError>)
        ensures
            resolved@.len() == 0 <==> r is Err,
            r matches Err(e) ==> e == HttpError::AddressResolution,
            r matches Ok(req) ==> {
                &&& req.text() == request_head(method, host@, path@)
                &&& req.host_spec() == host@
                &&& req.port_spec() == port
                &&& req.endpoint_spec() == resolved@[0]
            },
    {
        let mut raw = String::new();
        raw.append(method.as_str());
        raw.append(" ");
        raw.append(path);
        raw.append(" HTTP/1.1\r\n");
        raw.append("Host: ");
        raw.append(host);
        raw.append("\r\n");
        raw.append("Connection: close\r\n");
        if resolved.len() == 0 {
            return Err(HttpError::AddressResolution);
        }
        proof {
            assert(raw@ =~= request_head(method, host@, path@));
        }
        Ok(Request { raw, host: host.to_owned(), port, endpoint: resolved[0] })
    }

    /// The request's wire text.
    pub fn raw_string(&self) -> (r: String)
        ensures
            r@ == self.text(),
    {
        self.raw.clone()
    }

    /// The bytes to send: the wire text encoded as UTF-8.
    pub fn raw_bytes(&self) -> (r: &[u8])
        ensures
            r@ == encode_utf8(self.text()),
    {
        self.raw.as_str().as_bytes()
    }

    /// Appends `<key>: <value>\r\n`, with no check of the key or value and
    /// no merging of repeated keys.
    pub fn set_header(&mut self, key: &str, value: &str)
        ensures
            final(self).text() == old(self).text() + header_line(key@, value@),
            final(self).host_spec() == old(self).host_spec(),
            final(self).port_spec() == old(self).port_spec(),
            final(self).endpoint_spec() == old(self).endpoint_spec(),
    {
        self.raw.append(key);
        self.raw.append(": ");
        self.raw.append(value);
        self.raw.append("\r\n");
        proof {
            assert(final(self).text() =~= old(self).text() + header_line(key@, value@));
        }
    }

    /// Appends a blank line and then `body` verbatim. The caller sets
    /// `Content-Length` itself.
    pub fn set_body(&mut self, body: &str)
        ensures
            final(self).text() == old(self).text() + body_segment(body@),
            final(self).host_spec() == old(self).host_spec(),
            final(self).port_spec() == old(self).port_spec(),
            final(self).endpoint_spec() == old(self).endpoint_spec(),
    {
        self.raw.append("\r\n");
        self.raw.append(body);
        proof {
            assert(final(self).text() =~= old(self).text() + body_segment(body@));
        }
    }

    /// The host named at construction.
    pub fn host(&self) -> (r: &str)
        ensures
            r@ == self.host_spec(),
    {
        self.host.as_str()
    }

    /// The port named at construction.
    pub fn port(&self) -> (r: u16)
        ensures
            r == self.port_spec(),
    {
        self.port
    }

    /// The endpoint the host resolved to.
    pub fn endpoint(&self) -> (r: Endpoint)
        ensures
            r == self.endpoint_spec(),
    {
        self.endpoint
    }

    /// `<host>:<port>`, the text to resolve and to name in a CONNECT request.
    pub fn authority(host: &str, port: u16) -> (r: String)
        ensures
            r@ == authority(host@, port as nat),
    {
        let mut s = host.to_owned();
        s.append(":");
        push_decimal(&mut s, port);
        s
    }
}

/// A freshly built request starts with its request line, then its `Host`
/// line, then `Connection: close`, whatever is appended after them.
pub proof fn lemma_request_layout(m: Method, host: Seq<char>, path: Seq<char>, added: Seq<char>)
    ensures
        ({
            let t = request_head(m, host, path) + added;
            let a = request_line(m, path).len() as int;
            let h = host_line(host).len() as int;
            let c = connection_line().len() as int;
            &&& t.subrange(0, a) == request_line(m, path)
            &&& t.subrange(a, a + h) == host_line(host)
            &&& t.subrange(a + h, a + h + c) == connection_line()
            &&& t.subrange(a + h + c, t.len() as int) == added
        }),
{
    let t = request_head(m, host, path) + added;
    let a = request_line(m, path).len() as int;
    let h = host_line(host).len() as int;
    let c = connection_line().len() as int;
    assert(t.subrange(0, a) =~= request_line(m, path));
    assert(t.subrange(a, a + h) =~= host_line(host));
    assert(t.subrange(a + h, a + h + c) =~= connection_line());
    assert(t.subrange(a + h + c, t.len() as int) =~= added);
}

/// After `set_header(key, value)` the text ends with `<key>: <value>\r\n`,
/// right after what it held before.
pub proof fn lemma_header_appended(before: Seq<char>, key: Seq<char>, value: Seq<char>)
    ensures
        ({
            let t = before + header_line(key, value);
            &&& t.subrange(before.len() as int, t.len() as int) == header_line(key, value)
            &&& t.subrange(0, before.len() as int) == before
        }),
{
    let t = before + header_line(key, value);
    assert(t.subrange(before.len() as int, t.len() as int) =~= header_line(key, value));
    assert(t.subrange(0, before.len() as int) =~= before);
}

/// No carriage return or line feed in `s`.
pub open spec fn no_line_break(s: Seq<char>) -> bool {
    forall|k: int| 0 <= k < s.len() ==> s[k] != '\r' && s[k] != '\n'
}

/// A line of `t` starts at `i`.
pub open spec fn starts_line(t: Seq<char>, i: int) -> bool {
    i == 0 || (2 <= i <= t.len() && t[i - 2] == '\r' && t[i - 1] == '\n')
}

/// A line of `t` starting at `i` begins with `w`.
pub open spec fn line_begins_with(t: Seq<char>, i: int, w: Seq<char>) -> bool {
    starts_line(t, i) && 0 <= i && i + w.len() <= t.len() && t.subrange(i, i + w.len()) == w
}

proof fn lemma_token_chars(m: Method)
    ensures
        method_token(m).len() >= 3,
        no_line_break(method_token(m)),
        method_token(m)[0] != 'C',
        method_token(m)[0] == 'H' ==> method_token(m)[1] != 'o',
{
    reveal_strlit("GET");
    reveal_strlit("PUT");
    reveal_strlit("POST");
    reveal_strlit("HEAD");
    reveal_strlit("PATCH");
    reveal_strlit("DELETE");
    reveal_strlit("OPTIONS");
}

/// When neither the host nor the path breaks a line, a freshly built
/// request holds exactly one line that begins with `Host: ` and exactly one
/// that begins with `Connection: close`, the first before the second.
pub proof fn lemma_single_host_and_connection_lines(m: Method, host: Seq<char>, path: Seq<char>)
    requires
        no_line_break(host),
        no_line_break(path),
    ensures
        ({
            let t = request_head(m, host, path);
            let a = request_line(m, path).len() as int;
            let h = host_line(host).len() as int;
            &&& forall|i: int| line_begins_with(t, i, "Host: "@) <==> i == a
            &&& forall|i: int| line_begins_with(t, i, "Connection: close"@) <==> i == a + h
        }),
{
    let t = request_head(m, host, path);
    let tok = method_token(m);
    let a = request_line(m, path).len() as int;
    let h = host_line(host).len() as int;
    let c = connection_line().len() as int;
    lemma_token_chars(m);
    reveal_strlit(" ");
    reveal_strlit(" HTTP/1.1\r\n");
    reveal_strlit("Host: ");
    reveal_strlit("\r\n");
    reveal_strlit("Connection: close\r\n");
    reveal_strlit("Connection: close");
    let p = tok.len() + 1 + path.len();
    assert(a == p + 11);
    assert(h == 8 + host.len());
    assert(c == 19);
    assert forall|k: int| 0 <= k < t.len() && #[trigger] t[k] == '\n' implies k + 1 == a || k + 1
        == a + h || k + 1 == a + h + c by {
        if k < tok.len() {
            assert(t[k] == tok[k]);
        } else if k < p {
            if k > tok.len() {
                assert(t[k] == path[k - tok.len() - 1]);
            }
        } else if k < a {
        } else if k < a + 6 {
        } else if k < a + 6 + host.len() {
            assert(t[k] == host[k - a - 6]);
        }
    }
    assert forall|i: int| line_begins_with(t, i, "Host: "@) implies i == a by {
        assert(t.subrange(i, i + 6)[0] == t[i] && t.subrange(i, i + 6)[1] == t[i + 1]);
        if i == 0 {
            assert(t[0] == tok[0] && t[1] == tok[1]);
        }
    }
    assert(t.subrange(a, a + 6) =~= "Host: "@);
    assert forall|i: int| line_begins_with(t, i, "Connection: close"@) implies i == a + h by {
        assert(t.subrange(i, i + 17)[0] == t[i]);
        if i == 0 {
            assert(t[0] == tok[0]);
        }
    }
    assert(t.subrange(a + h, a + h + 17) =~= "Connection: close"@);
}

} // verus!
