use base64::Engine;
use vstd::prelude::*;
use vstd::string::{StringExecFns, StringSliceAdditionalSpecFns};
use vstd::utf8::{decode_utf8, valid_utf8};

use crate::endpoint::Endpoint;
use crate::error::HttpError;
use crate::response::{find_byte, find_from, lemma_find_byte_bounds};
use crate::text::{copy_range, lemma_valid_between, utf8_to_string};

verus! {

/// The standard, padded base64 encoding of `b`.
pub uninterp spec fn base64_standard(b: Seq<u8>) -> Seq<char>;

/// Relies on base64's `STANDARD` engine `encode`: the padded base64 text of
/// the bytes, which depends on the bytes alone.
#[verifier::external_body]
fn base64_encode(b: &[u8]) -> (r: String)
    ensures
        r@ == base64_standard(b@),
{
    base64::engine::general_purpose::STANDARD.encode(b)
}

/// Where the first `@` of a descriptor stands, or its length.
pub open spec fn at_sign(d: Seq<u8>) -> int {
    find_byte(d, 64, 0)
}

/// The header line that carries the credentials before the first `@`, or
/// nothing when the descriptor holds no `@`.
pub open spec fn authorization_of(d: Seq<u8>) -> Seq<char> {
    if at_sign(d) < d.len() {
        "Proxy-Authorization: Basic "@ + base64_standard(d.subrange(0, at_sign(d))) + "\r\n"@
    } else {
        Seq::empty()
    }
}

/// The `host:port` part of a descriptor: all after the first `@`, or all of
/// it.
pub open spec fn address_of(d: Seq<u8>) -> Seq<u8> {
    if at_sign(d) < d.len() {
        d.subrange(at_sign(d) + 1, d.len() as int)
    } else {
        d
    }
}

/// An HTTP proxy: its endpoint, and the authorization header line to send
/// in a CONNECT request (empty when no credentials were given).
#[derive(Debug)]
pub struct Proxy {
    endpoint: Endpoint,
    authorization_header: String,
}

impl Clone for Proxy {
    fn clone(&self) -> (r: Proxy)
        ensures
            r == *self,
    {
        Proxy { endpoint: self.endpoint, authorization_header: self.authorization_header.clone() }
    }
}

impl Proxy {
    pub closed spec fn endpoint_spec(&self) -> Endpoint {
        self.endpoint
    }

    pub closed spec fn authorization(&self) -> Seq<char> {
        self.authorization_header@
    }

    /// The `host:port` text of a descriptor `[user:password@]host:port`,
    /// which the caller resolves to endpoints.
    pub fn address_part(proxy_str: &str) -> (r: String)
        ensures
            r@ == decode_utf8(address_of(proxy_str.spec_bytes())),
    {
        let b = proxy_str.as_bytes();
        let ghost d = b@;
        proof {
            vstd::utf8::encode_utf8_valid_utf8(proxy_str@);
            lemma_find_byte_bounds(d, 64, 0);
        }
        let i = find_from(b, 64, 0);
        let (lo, hi) = if i < b.len() {
            (i + 1, b.len())
        } else {
            (0, b.len())
        };
        proof {
            lemma_valid_between(d, lo as int, hi as int);
            if i < b.len() {
                assert(address_of(d) == d.subrange(lo as int, hi as int));
            } else {
                assert(d.subrange(0, d.len() as int) =~= d);
            }
        }
        let v = copy_range(b, lo, hi);
        match utf8_to_string(v) {
            Some(s) => s,
            None => String::new(),
        }
    }

    /// Builds a proxy from a descriptor `[user:password@]host:port` and the
    /// endpoints its `host:port` part resolved to. Credentials before the
    /// first `@` become a `Proxy-Authorization: Basic` header line; no
    /// endpoint is an address resolution error.
    pub fn parse_http(proxy_str: &str, resolved: &[Endpoint]) -> (r: Result<Proxy, HttpError>)
        ensures
            resolved@.len() == 0 <==> r is Err,
            r matches Err(e) ==> e == HttpError::AddressResolution,
            r matches Ok(p) ==> {
                &&& p.authorization() == authorization_of(proxy_str.spec_bytes())
                &&& p.endpoint_spec() == resolved@[0]
            },
    {
        let b = proxy_str.as_bytes();
        proof {
            lemma_find_byte_bounds(b@, 64, 0);
        }
        let i = find_from(b, 64, 0);
        let mut authorization_header = String::new();
        if i < b.len() {
            let credentials = copy_range(b, 0, i);
            let encoded = base64_encode(credentials.as_slice());
            authorization_header.append("Proxy-Authorization: Basic ");
            authorization_header.append(encoded.as_str());
            authorization_header.append("\r\n");
        }
        if resolved.len() == 0 {
            return Err(HttpError::AddressResolution);
        }
        proof {
            assert(authorization_header@ =~= authorization_of(b@));
        }
        Ok(Proxy { endpoint: resolved[0], authorization_header })
    }

    /// The endpoint the proxy resolved to.
    pub fn endpoint(&self) -> (r: Endpoint)
        ensures
            r == self.endpoint_spec(),
    {
        self.endpoint
    }

    /// The authorization header line, empty when there are no credentials.
    pub fn authorization_header(&self) -> (r: &str)
        ensures
            r@ == self.authorization(),
    {
        self.authorization_header.as_str()
    }
}

/// A descriptor with no `@` gives no authorization header; one with an `@`
/// gives a non-empty header line that carries the base64 encoding of all
/// before the first `@`.
pub proof fn lemma_credentials_header(d: Seq<u8>)
    ensures
        (forall|i: int| 0 <= i < d.len() ==> d[i] != 64) ==> authorization_of(d) == Seq::<
            char,
        >::empty(),
        (exists|i: int| 0 <= i < d.len() && d[i] == 64) ==> {
            let a = at_sign(d);
            let p = "Proxy-Authorization: Basic "@;
            let enc = base64_standard(d.subrange(0, a));
            &&& authorization_of(d).len() > 0
            &&& authorization_of(d).subrange(p.len() as int, (p.len() + enc.len()) as int) == enc
        },
{
    lemma_find_byte_bounds(d, 64, 0);
    if exists|i: int| 0 <= i < d.len() && d[i] == 64 {
        let i = choose|i: int| 0 <= i < d.len() && d[i] == 64;
        lemma_at_sign_found(d, 0, i);
        let a = at_sign(d);
        let p = "Proxy-Authorization: Basic "@;
        let enc = base64_standard(d.subrange(0, a));
        reveal_strlit("Proxy-Authorization: Basic ");
        assert(authorization_of(d) == p + enc + "\r\n"@);
        assert((p + enc + "\r\n"@).subrange(p.len() as int, (p.len() + enc.len()) as int) =~= enc);
    }
}

proof fn lemma_at_sign_found(d: Seq<u8>, from: int, i: int)
    requires
        0 <= from <= i < d.len(),
        d[i] == 64,
    ensures
        find_byte(d, 64, from) <= i,
    decreases i - from,
{
    if d[from] != 64 {
        lemma_at_sign_found(d, from + 1, i);
    }
}

} // verus!
