//! The server's configuration: the loopback port, the asset roots in
//! priority order, the index document and the callback route prefix, from
//! which the bind address and the OAuth redirect URI are both derived so
//! that the three cannot drift apart.
use vstd::prelude::*;

use crate::assets::{all_plain, normalize_path, path_segments};
use crate::bytes::{append_bytes, ascii_bytes, ascii_of, views};
use crate::query::QUESTION;

verus! {

/// The decimal digits of `n`.
pub open spec fn decimal(n: nat) -> Seq<u8>
    decreases n,
{
    if n < 10 {
        seq![(48 + n) as u8]
    } else {
        decimal(n / 10).push((48 + n % 10) as u8)
    }
}

/// Appends the decimal digits of `n` to `out`.
pub fn push_decimal(out: &mut Vec<u8>, n: u16)
    ensures
        final(out)@ == old(out)@ + decimal(n as nat),
    decreases n,
{
    if n >= 10 {
        push_decimal(out, n / 10);
    }
    out.push(48 + (n % 10) as u8);
    assert(out@ =~= old(out)@ + decimal(n as nat));
}

/// The address the listener binds to: loopback only, never all interfaces.
pub open spec fn bind_address_spec(port: u16) -> Seq<u8> {
    ascii_of("127.0.0.1:"@) + decimal(port as nat)
}

/// The redirect URI registered with the provider: the bound address and the
/// callback prefix.
pub open spec fn redirect_uri_spec(port: u16, prefix: Seq<u8>) -> Seq<u8> {
    ascii_of("http://"@) + bind_address_spec(port) + prefix
}

/// Whether a callback prefix is usable: `/` and at least one more byte, and
/// no `?`.
pub open spec fn prefix_ok(prefix: Seq<u8>) -> bool {
    prefix.len() >= 2 && prefix[0] == 47 && !prefix.contains(QUESTION)
}

/// Whether an index document, as segments, names a file inside a root.
pub open spec fn index_ok(index: Seq<Seq<u8>>) -> bool {
    index.len() > 0 && all_plain(index)
}

/// Configuration of the loopback server.
pub struct ServerConfig {
    /// The loopback port; the redirect URI names it.
    pub port: u16,
    /// Directories to look for assets in, highest priority first.
    pub roots: Vec<String>,
    /// The document served for paths that match no file, as path segments.
    pub index_document: Vec<Vec<u8>>,
    /// Paths that start with this are OAuth callbacks.
    pub callback_prefix: Vec<u8>,
}

impl ServerConfig {
    /// The configuration's invariant.
    pub open spec fn wf(&self) -> bool {
        &&& self.roots@.len() <= usize::MAX / 2
        &&& index_ok(views(self.index_document@))
        &&& prefix_ok(self.callback_prefix@)
    }

    /// A configuration with index document `index.html` and callback prefix
    /// `/callback`.
    pub fn new(port: u16, roots: Vec<String>) -> (r: ServerConfig)
        requires
            roots@.len() <= usize::MAX / 2,
        ensures
            r.wf(),
            r.port == port,
            r.roots@ == roots@,
            views(r.index_document@) == seq![ascii_of("index.html"@)],
            r.callback_prefix@ == ascii_of("/callback"@),
    {
        proof {
            reveal_strlit("index.html");
            reveal_strlit("/callback");
        }
        let name = ascii_bytes("index.html");
        let prefix = ascii_bytes("/callback");
        let mut index: Vec<Vec<u8>> = Vec::new();
        index.push(name);
        let r = ServerConfig { port, roots, index_document: index, callback_prefix: prefix };
        assert(views(r.index_document@) =~= seq![ascii_of("index.html"@)]);
        proof {
            let s = ascii_of("index.html"@);
            assert(s =~= seq![105u8, 110, 100, 101, 120, 46, 104, 116, 109, 108]);
            assert(!s.contains(47u8));
            assert(!crate::assets::has_forbidden(s));
            assert(s != crate::assets::dot_segment());
            assert(s != crate::assets::dotdot_segment());
            let p = ascii_of("/callback"@);
            assert(p =~= seq![47u8, 99, 97, 108, 108, 98, 97, 99, 107]);
            assert(!p.contains(QUESTION));
        }
        r
    }

    /// This configuration with another index document, given as a relative
    /// path; `None` where the path would leave the root or names nothing.
    pub fn with_index_document(self, path: &[u8]) -> (r: Option<ServerConfig>)
        requires
            self.wf(),
        ensures
            r is Some <==> (path_segments(path@) matches Some(st) && st.len() > 0),
            r matches Some(c) ==> c.wf() && c.port == self.port && c.roots@ == self.roots@
                && views(c.index_document@) == path_segments(path@)->Some_0
                && c.callback_prefix@ == self.callback_prefix@,
    {
        match normalize_path(path) {
            Some(st) => {
                if st.len() == 0 {
                    None
                } else {
                    Some(ServerConfig { index_document: st, ..self })
                }
            },
            None => None,
        }
    }

    /// This configuration with another callback prefix; `None` unless the
    /// prefix is `/`, at least one more byte, and holds no `?`.
    pub fn with_callback_prefix(self, prefix: Vec<u8>) -> (r: Option<ServerConfig>)
        requires
            self.wf(),
        ensures
            r is Some <==> prefix_ok(prefix@),
            r matches Some(c) ==> c.wf() && c.port == self.port && c.roots@ == self.roots@
                && views(c.index_document@) == views(self.index_document@)
                && c.callback_prefix@ == prefix@,
    {
        if prefix.len() < 2 || prefix[0] != 47 {
            return None;
        }
        let mut i: usize = 0;
        while i < prefix.len()
            invariant
                i <= prefix@.len(),
                forall|j: int| 0 <= j < i ==> prefix@[j] != QUESTION,
            decreases prefix@.len() - i,
        {
            if prefix[i] == QUESTION {
                return None;
            }
            i += 1;
        }
        Some(ServerConfig { callback_prefix: prefix, ..self })
    }

    /// The address to bind, `127.0.0.1:<port>`.
    pub fn bind_address(&self) -> (r: Vec<u8>)
        ensures
            r@ == bind_address_spec(self.port),
    {
        proof {
            reveal_strlit("127.0.0.1:");
        }
        let mut out = ascii_bytes("127.0.0.1:");
        push_decimal(&mut out, self.port);
        out
    }

    /// The redirect URI, `http://127.0.0.1:<port><callback prefix>`.
    pub fn redirect_uri(&self) -> (r: Vec<u8>)
        ensures
            r@ == redirect_uri_spec(self.port, self.callback_prefix@),
    {
        proof {
            reveal_strlit("http://");
        }
        let mut out = ascii_bytes("http://");
        let addr = self.bind_address();
        append_bytes(&mut out, addr.as_slice());
        append_bytes(&mut out, self.callback_prefix.as_slice());
        out
    }
}

/// Why the listener could not be started. Fatal to sign-in for the
/// session: there is no retry.
#[derive(Clone, Copy, Debug, PartialEq, Eq, Structural)]
pub enum BindError {
    /// Another process holds the port.
    PortInUse,
    /// The system refused the port.
    PermissionDenied,
    /// Any other failure of the system.
    Other,
}

impl BindError {
    /// A short reason, for logs.
    pub fn reason(&self) -> (r: &'static str)
        ensures
            r@ == match self {
                BindError::PortInUse => "port in use"@,
                BindError::PermissionDenied => "permission denied"@,
                BindError::Other => "other os error"@,
            },
    {
        match self {
            BindError::PortInUse => "port in use",
            BindError::PermissionDenied => "permission denied",
            BindError::Other => "other os error",
        }
    }

    /// The message the host application shows its user.
    pub fn user_message(&self) -> (r: &'static str)
        ensures
            r@ == "could not start authentication listener"@,
    {
        "could not start authentication listener"
    }
}

} // verus!
