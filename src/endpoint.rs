use vstd::prelude::*;

verus! {

/// A resolved network address.
#[derive(Clone, Copy, Debug, PartialEq, Eq)]
pub enum HostAddress {
    V4([u8; 4]),
    V6([u16; 8]),
}

/// A resolved address and port that a transport connection can be opened to.
#[derive(Clone, Copy, Debug, PartialEq, Eq)]
pub struct Endpoint {
    pub address: HostAddress,
    pub port: u16,
}

} // verus!
