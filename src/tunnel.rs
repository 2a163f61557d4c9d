use vstd::prelude::*;
use vstd::string::StringExecFns;

use crate::proxy::Proxy;
use crate::request::{authority, Request};

verus! {

/// `CONNECT <host>:<port> HTTP/1.1\r\nHost: <host>:<port>\r\n<auth>\r\n`
pub open spec fn connect_text(host: Seq<char>, port: nat, auth: Seq<char>) -> Seq<char> {
    "CONNECT "@ + authority(host, port) + " HTTP/1.1\r\n"@ + "Host: "@ + authority(host, port)
        + "\r\n"@ + auth + "\r\n"@
}

/// The reply so far ends with a blank line.
pub open spec fn ends_with_blank_line(s: Seq<u8>) -> bool {
    s.len() >= 4 && s.subrange(s.len() - 4, s.len() as int) == seq![13u8, 10u8, 13u8, 10u8]
}

/// The reply starts with `HTTP/1.1 200`.
pub open spec fn tunnel_accepted(s: Seq<u8>) -> bool {
    s.len() >= 12 && s.subrange(0, 12) == seq![
        72u8,
        84u8,
        84u8,
        80u8,
        47u8,
        49u8,
        46u8,
        49u8,
        32u8,
        50u8,
        48u8,
        48u8,
    ]
}

/// What to do after the proxy's reply has grown to `s`.
pub open spec fn tunnel_step_of(s: Seq<u8>) -> TunnelStep {
    if !ends_with_blank_line(s) {
        TunnelStep::ReadMore
    } else if tunnel_accepted(s) {
        TunnelStep::SendRequest
    } else {
        TunnelStep::Reject
    }
}

/// The next action of a CONNECT handshake.
#[derive(Clone, Copy, Debug, PartialEq, Eq, Structural)]
pub enum TunnelStep {
    /// Read one more byte of the proxy's reply.
    ReadMore,
    /// The tunnel stands: send the request through it.
    SendRequest,
    /// The proxy refused the tunnel: fail, and send nothing more.
    Reject,
}

/// The proxy's reply to a CONNECT request, read one byte at a time.
pub struct TunnelHandshake {
    reply: Vec<u8>,
}

impl TunnelHandshake {
    pub closed spec fn reply(&self) -> Seq<u8> {
        self.reply@
    }

    /// A handshake that has read nothing yet.
    pub fn new() -> (r: TunnelHandshake)
        ensures
            r.reply() == Seq::<u8>::empty(),
    {
        TunnelHandshake { reply: Vec::new() }
    }

    /// Takes the next byte of the proxy's reply and says what to do next:
    /// read on until the reply ends with a blank line, then send the request
    /// if it starts with `HTTP/1.1 200`, else reject.
    pub fn receive(&mut self, byte: u8) -> (r: TunnelStep)
        ensures
            final(self).reply() == old(self).reply().push(byte),
            r == tunnel_step_of(final(self).reply()),
    {
        self.reply.push(byte);
        let s = &self.reply;
        let n = s.len();
        if n < 4 || !(s[n - 4] == 13 && s[n - 3] == 10 && s[n - 2] == 13 && s[n - 1] == 10) {
            proof {
                if n >= 4 {
                    let t = s@.subrange(n - 4, n as int);
                    if t == seq![13u8, 10u8, 13u8, 10u8] {
                        assert(t[0] == s@[n - 4]);
                        assert(t[1] == s@[n - 3]);
                        assert(t[2] == s@[n - 2]);
                        assert(t[3] == s@[n - 1]);
                    }
                }
            }
            return TunnelStep::ReadMore;
        }
        proof {
            assert(s@.subrange(n - 4, n as int) =~= seq![13u8, 10u8, 13u8, 10u8]);
        }
        let accepted = n >= 12 && s[0] == 72 && s[1] == 84 && s[2] == 84 && s[3] == 80 && s[4]
            == 47 && s[5] == 49 && s[6] == 46 && s[7] == 49 && s[8] == 32 && s[9] == 50 && s[10]
            == 48 && s[11] == 48;
        proof {
            let p = seq![72u8, 84u8, 84u8, 80u8, 47u8, 49u8, 46u8, 49u8, 32u8, 50u8, 48u8, 48u8];
            if accepted {
                assert(s@.subrange(0, 12) =~= p);
            } else if n >= 12 {
                let t = s@.subrange(0, 12);
                if t == p {
                    assert(forall|k: int| 0 <= k < 12 ==> t[k] == s@[k]);
                    assert(forall|k: int| 0 <= k < 12 ==> t[k] == p[k]);
                }
            }
        }
        if accepted {
            TunnelStep::SendRequest
        } else {
            TunnelStep::Reject
        }
    }
}

impl Request {
    /// The CONNECT request that asks `proxy` for a tunnel to this request's
    /// host and port.
    pub fn connect_request(&self, proxy: &Proxy) -> (r: String)
        ensures
            r@ == connect_text(self.host_spec(), self.port_spec() as nat, proxy.authorization()),
    {
        let target = Request::authority(self.host(), self.port());
        let mut s = String::new();
        s.append("CONNECT ");
        s.append(target.as_str());
        s.append(" HTTP/1.1\r\n");
        s.append("Host: ");
        s.append(target.as_str());
        s.append("\r\n");
        s.append(proxy.authorization_header());
        s.append("\r\n");
        proof {
            assert(s@ =~= connect_text(self.host_spec(), self.port_spec() as nat, proxy.authorization()));
        }
        s
    }
}

/// A complete reply that does not start with `HTTP/1.1 200` rejects the
/// tunnel, so the request is never sent; one that is not complete yet only
/// asks for more bytes.
pub proof fn lemma_refused_tunnel_sends_nothing(reply: Seq<u8>)
    ensures
        ends_with_blank_line(reply) && !tunnel_accepted(reply) ==> tunnel_step_of(reply)
            == TunnelStep::Reject,
        !ends_with_blank_line(reply) ==> tunnel_step_of(reply) == TunnelStep::ReadMore,
        tunnel_step_of(reply) == TunnelStep::SendRequest ==> tunnel_accepted(reply),
{
}

} // verus!
