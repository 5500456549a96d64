use vstd::prelude::*;

use crate::text::{contains_char, is_prefix, strip_prefix};

verus! {

/// Where the server listens: a network address (`host:port`, resolved when
/// bound) or the path of a local socket.
pub enum ListenAddress {
    Tcp(String),
    Unix(String),
}

/// Why a listen value was refused.
#[derive(PartialEq, Eq, Structural, Debug, Clone, Copy)]
pub enum ListenError {
    /// A `unix:` prefix with no path after it.
    EmptyPath,
    /// Neither a path nor an address with a port.
    Unrecognized,
}

/// The explicit local-socket prefix.
pub const UNIX_PREFIX: &'static str = "unix:";

pub open spec fn unix_prefix() -> Seq<char> {
    seq!['u', 'n', 'i', 'x', ':']
}

/// Reads a listen value: `unix:<path>` is the local socket at `<path>`; a
/// value holding a path separator `/` is a local socket path; one holding a
/// port-style `:` is a network address; anything else is refused.
pub fn parse_listen(s: &str) -> (r: Result<ListenAddress, ListenError>)
    ensures
        is_prefix(unix_prefix(), s@) && s@.len() == 5 ==> r == Err::<ListenAddress, ListenError>(
            ListenError::EmptyPath,
        ),
        is_prefix(unix_prefix(), s@) && s@.len() > 5 ==> (r matches Ok(ListenAddress::Unix(p))
            && p@ == s@.subrange(5, s@.len() as int)),
        !is_prefix(unix_prefix(), s@) && s@.contains('/') ==> (r matches Ok(ListenAddress::Unix(p))
            && p@ == s@),
        !is_prefix(unix_prefix(), s@) && !s@.contains('/') && s@.contains(':') ==> (r matches Ok(
            ListenAddress::Tcp(a),
        ) && a@ == s@),
        !is_prefix(unix_prefix(), s@) && !s@.contains('/') && !s@.contains(':') ==> r
            == Err::<ListenAddress, ListenError>(ListenError::Unrecognized),
{
    proof {
        reveal_strlit("unix:");
        assert(UNIX_PREFIX@ =~= unix_prefix());
    }
    match strip_prefix(s, UNIX_PREFIX) {
        Some(path) => {
            if path.is_empty() {
                Err(ListenError::EmptyPath)
            } else {
                Ok(ListenAddress::Unix(path.to_owned()))
            }
        },
        None => {
            if contains_char(s, '/') {
                Ok(ListenAddress::Unix(s.to_owned()))
            } else if contains_char(s, ':') {
                Ok(ListenAddress::Tcp(s.to_owned()))
            } else {
                Err(ListenError::Unrecognized)
            }
        },
    }
}

impl ListenAddress {
    /// The address as a URL: `http://<address>` or `unix://<path>`.
    pub fn to_url(&self) -> (r: String)
        ensures
            self matches ListenAddress::Tcp(a) ==> r@ == "http://"@ + a@,
            self matches ListenAddress::Unix(p) ==> r@ == "unix://"@ + p@,
    {
        match self {
            ListenAddress::Tcp(a) => {
                let mut r = "http://".to_owned();
                r.append(a.as_str());
                r
            },
            ListenAddress::Unix(p) => {
                let mut r = "unix://".to_owned();
                r.append(p.as_str());
                r
            },
        }
    }
}

} // verus!
