use vstd::prelude::*;
use crate::text::dec_str;

verus! {

/// What an absolute URL resolves to: its host, its optional port and its
/// authority text; `None` where the text is no URL or names no host.
pub uninterp spec fn url_parts_of(url: Seq<char>) -> Option<(Seq<char>, Option<u16>, Seq<char>)>;

/// Relies on http::Uri: parsing through its FromStr, then Uri::host,
/// Uri::port_u16 and Uri::authority with Authority::as_str. The result
/// depends on the URL text alone.
#[verifier::external_body]
pub fn split_url(url: &str) -> (r: Option<(String, Option<u16>, String)>)
    ensures
        match r {
            Some(p) => url_parts_of(url@) == Some((p.0@, p.1, p.2@)),
            None => url_parts_of(url@) is None,
        },
{
    let uri: http::Uri = url.parse().ok()?;
    let host = uri.host()?.to_string();
    let authority = uri.authority()?.as_str().to_string();
    Some((host, uri.port_u16(), authority))
}

/// The address a test case connects to: `host:port`, the port written in
/// decimal and taken as 80 where none is given.
pub open spec fn addr_of(host: Seq<char>, port: Option<u16>) -> Seq<char> {
    let p: u16 = match port {
        Some(p) => p,
        None => 80u16,
    };
    host + seq![':'] + dec_str(p as nat)
}

/// Write out the connection address for a host and an optional port.
pub fn resolve_addr(host: &str, port: Option<u16>) -> (r: String)
    ensures
        r@ == addr_of(host@, port),
{
    let p: u16 = match port {
        Some(p) => p,
        None => 80,
    };
    let mut s = String::from_str(host);
    proof {
        reveal_strlit(":");
    }
    s.append(":");
    let d = crate::text::usize_to_string(p as usize);
    s.append(d.as_str());
    proof {
        assert(host@ + ":"@ + dec_str(p as nat) =~= host@ + seq![':'] + dec_str(p as nat));
    }
    s
}

} // verus!
