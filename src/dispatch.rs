//! Classifying an incoming request: open a tunnel, reject it, or forward it as is.
use vstd::prelude::*;
use vstd::string::{StringSliceAdditionalSpecFns, is_ascii_spec_bytes};
use vstd::utf8::is_ascii_chars;
use crate::target::{SocketTarget, parse_target, is_socket_literal, denotes};

verus! {

/// The body sent with the rejection of a `CONNECT` whose authority is no socket address.
pub const BAD_REQUEST_BODY: &'static str = "CONNECT must be to a socket address";

/// What to do with one request.
#[derive(Clone, Copy, Debug, PartialEq, Eq)]
pub enum Dispatch {
    /// Answer with an empty success at once, then tunnel to the target.
    Tunnel(SocketTarget),
    /// Answer `400 Bad Request` with [`BAD_REQUEST_BODY`]; open no tunnel.
    BadRequest,
    /// Hand the request to the plain HTTP client and return its response unchanged.
    Forward,
}

/// The method name `CONNECT` (methods are case-sensitive).
pub open spec fn connect_method() -> Seq<char> {
    seq!['C', 'O', 'N', 'N', 'E', 'C', 'T']
}

/// What a request with this method and authority calls for.
pub open spec fn dispatch_spec(method: Seq<char>, authority: Option<Seq<u8>>) -> DispatchKind {
    if method != connect_method() {
        DispatchKind::Forward
    } else {
        match authority {
            Some(a) => if is_socket_literal(a) {
                DispatchKind::Tunnel
            } else {
                DispatchKind::BadRequest
            },
            None => DispatchKind::BadRequest,
        }
    }
}

/// The variant of a [`Dispatch`], without its target.
pub ghost enum DispatchKind {
    Tunnel,
    BadRequest,
    Forward,
}

impl Dispatch {
    pub open spec fn kind(self) -> DispatchKind {
        match self {
            Dispatch::Tunnel(_) => DispatchKind::Tunnel,
            Dispatch::BadRequest => DispatchKind::BadRequest,
            Dispatch::Forward => DispatchKind::Forward,
        }
    }

    /// The status of the answer that the proxy gives itself: `200` before a tunnel,
    /// `400` for a rejection, none for a forwarded request (the origin answers).
    pub fn status(&self) -> (r: Option<u16>)
        ensures
            r == match self.kind() {
                DispatchKind::Tunnel => Some(200u16),
                DispatchKind::BadRequest => Some(400u16),
                DispatchKind::Forward => None::<u16>,
            },
    {
        match self {
            Dispatch::Tunnel(_) => Some(200),
            Dispatch::BadRequest => Some(400),
            Dispatch::Forward => None,
        }
    }
}

/// Whether `method` is exactly `CONNECT`.
pub fn is_connect(method: &str) -> (r: bool)
    ensures
        r == (method@ == connect_method()),
{
    if !method.is_ascii() {
        assert(method@ != connect_method()) by {
            if method@ == connect_method() {
                assert(is_ascii_chars(method@));
            }
        }
        return false;
    }
    proof {
        is_ascii_spec_bytes(method);
    }
    let m = method.as_bytes();
    let expected: [u8; 7] = [67, 79, 78, 78, 69, 67, 84];
    assert(expected@ =~= connect_method().map_values(|c: char| c as u8));
    if m.len() != 7 {
        return false;
    }
    let mut i: usize = 0;
    while i < 7
        invariant
            m@ == method@.map_values(|c: char| c as u8),
            method@.len() == 7,
            expected@ == connect_method().map_values(|c: char| c as u8),
            i <= 7,
            forall|k: int| 0 <= k < i ==> m@[k] == expected@[k],
        decreases 7 - i,
    {
        if m[i] != expected[i] {
            assert(method@[i as int] != connect_method()[i as int]);
            return false;
        }
        i = i + 1;
    }
    assert(method@ =~= connect_method());
    true
}

/// Classifies a request by its method and the authority of its target.
///
/// A `CONNECT` tunnels exactly when its authority is a literal socket address,
/// and is rejected otherwise; every other method is forwarded.
pub fn dispatch(method: &str, authority: Option<&str>) -> (r: Dispatch)
    ensures
        r.kind() == dispatch_spec(
            method@,
            match authority {
                Some(a) => Some(a.spec_bytes()),
                None => None,
            },
        ),
        r matches Dispatch::Tunnel(t) ==> authority matches Some(a) && denotes(a.spec_bytes(), t),
{
    if !is_connect(method) {
        return Dispatch::Forward;
    }
    match authority {
        Some(a) => match parse_target(a) {
            Some(t) => Dispatch::Tunnel(t),
            None => Dispatch::BadRequest,
        },
        None => Dispatch::BadRequest,
    }
}

} // verus!
