use vstd::prelude::*;

verus! {

/// The request verbs this client can send.
#[derive(Clone, Copy, Debug, PartialEq, Eq, Structural)]
pub enum Method {
    GET,
    PUT,
    POST,
    HEAD,
    PATCH,
    DELETE,
    OPTIONS,
}

/// The token that names `m` on the request line.
pub open spec fn method_token(m: Method) -> Seq<char> {
    match m {
        Method::GET => "GET"@,
        Method::PUT => "PUT"@,
        Method::POST => "POST"@,
        Method::HEAD => "HEAD"@,
        Method::PATCH => "PATCH"@,
        Method::DELETE => "DELETE"@,
        Method::OPTIONS => "OPTIONS"@,
    }
}

impl Method {
    /// The verb as it stands on the request line.
    pub fn as_str(&self) -> (r: &'static str)
        ensures
            r@ == method_token(*self),
    {
        match self {
            Method::GET => "GET",
            Method::PUT => "PUT",
            Method::POST => "POST",
            Method::HEAD => "HEAD",
            Method::PATCH => "PATCH",
            Method::DELETE => "DELETE",
            Method::OPTIONS => "OPTIONS",
        }
    }
}

} // verus!
