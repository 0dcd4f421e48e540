//! Addresses of remote objects: where the host stands in one, and which
//! hosts may be contacted.

use crate::bytes::{
    bytes_eq, copy_range, domain_run_end, dot_local, dot_localhost, ends_with, has_at, http_prefix,
    https_prefix, localhost, loopback_prefix, lowercase, scan_domain, spec_dot_local,
    spec_dot_localhost, spec_ends_with, spec_has_at, spec_http_prefix, spec_https_prefix,
    spec_localhost, spec_loopback_prefix, spec_lowercase, spec_unspecified_address,
    unspecified_address,
};
use vstd::prelude::*;

verus! {

/// Why an address is not fetched.
#[derive(Clone, Copy, Debug, PartialEq, Eq, Structural)]
pub enum UriError {
    /// Neither `https://` nor, where allowed, `http://`.
    UnsupportedScheme,
    /// No host, or a host followed by something that cannot follow one.
    InvalidHost,
    /// The host names this machine or its local network.
    LocalTarget,
}

/// A byte that may follow the host: `/`, `?`, `#` or `:`.
pub open spec fn is_host_end(c: u8) -> bool {
    c == 47 || c == 63 || c == 35 || c == 58
}

/// Length of the scheme prefix, if the address has a supported one.
pub open spec fn spec_prefix_len(uri: Seq<u8>) -> Option<int> {
    if spec_has_at(uri, 0, spec_https_prefix()) {
        Some(8)
    } else if spec_has_at(uri, 0, spec_http_prefix()) {
        Some(7)
    } else {
        None
    }
}

/// Whether the address starts with `https://`.
pub open spec fn spec_is_secure(uri: Seq<u8>) -> bool {
    spec_has_at(uri, 0, spec_https_prefix())
}

/// The host of an address: the host-name bytes between the scheme and the
/// first `/`, `?`, `#`, `:` or the end. `None` where there is no supported
/// scheme, no host, or another byte after the host.
pub open spec fn spec_host(uri: Seq<u8>) -> Option<Seq<u8>> {
    match spec_prefix_len(uri) {
        Some(start) => {
            let end = domain_run_end(uri, start);
            if start < end && (end == uri.len() || is_host_end(uri[end])) {
                Some(uri.subrange(start, end))
            } else {
                None
            }
        },
        None => None,
    }
}

/// Made of digits and dots only.
pub open spec fn is_numeric_host(host: Seq<u8>) -> bool {
    forall|i: int| 0 <= i < host.len() ==> (48 <= #[trigger] host[i] <= 57) || host[i] == 46
}

/// A host that names this machine or its local network, however it is
/// capitalised: `localhost`, a name under `.localhost` or `.local`, a numeric
/// address under `127.`, or `0.0.0.0`.
pub open spec fn is_local_host(name: Seq<u8>) -> bool {
    let host = spec_lowercase(name);
    ||| host == spec_localhost()
    ||| spec_ends_with(host, spec_dot_localhost())
    ||| spec_ends_with(host, spec_dot_local())
    ||| (is_numeric_host(host) && spec_has_at(host, 0, spec_loopback_prefix()))
    ||| host == spec_unspecified_address()
}

/// The verdict on an address: its host, or the first rule it breaks.
pub open spec fn spec_check_uri(uri: Seq<u8>, allow_plain: bool) -> Result<Seq<u8>, UriError> {
    if spec_prefix_len(uri).is_none() || (!allow_plain && !spec_is_secure(uri)) {
        Err(UriError::UnsupportedScheme)
    } else {
        match spec_host(uri) {
            None => Err(UriError::InvalidHost),
            Some(host) => if is_local_host(host) {
                Err(UriError::LocalTarget)
            } else {
                Ok(host)
            },
        }
    }
}

fn numeric_host(host: &[u8]) -> (r: bool)
    ensures
        r == is_numeric_host(host@),
{
    let mut i: usize = 0;
    while i < host.len()
        invariant
            i <= host.len(),
            forall|k: int| 0 <= k < i ==> (48 <= #[trigger] host@[k] <= 57) || host@[k] == 46,
        decreases host.len() - i,
    {
        let c: u8 = host[i];
        if !((48 <= c && c <= 57) || c == 46) {
            return false;
        }
        i = i + 1;
    }
    true
}

/// Whether `host` names this machine or its local network.
pub fn local_host(host: &[u8]) -> (r: bool)
    ensures
        r == is_local_host(host@),
{
    let lowered: Vec<u8> = lowercase(host);
    let host: &[u8] = lowered.as_slice();
    bytes_eq(host, localhost().as_slice())
        || ends_with(host, dot_localhost().as_slice())
        || ends_with(host, dot_local().as_slice())
        || (numeric_host(host) && has_at(host, 0, loopback_prefix().as_slice()))
        || bytes_eq(host, unspecified_address().as_slice())
}

/// The host of `uri`, copied out.
pub fn host_of(uri: &[u8]) -> (r: Option<Vec<u8>>)
    ensures
        match r {
            Some(h) => spec_host(uri@) == Some(h@),
            None => spec_host(uri@).is_none(),
        },
{
    let start: usize = if has_at(uri, 0, https_prefix().as_slice()) {
        8
    } else if has_at(uri, 0, http_prefix().as_slice()) {
        7
    } else {
        return None;
    };
    let end: usize = scan_domain(uri, start);
    if start < end && (end == uri.len() || uri[end] == 47 || uri[end] == 63 || uri[end] == 35 || uri[end] == 58) {
        Some(copy_range(uri, start, end))
    } else {
        None
    }
}

/// Holds `uri` against the policy: a supported scheme (`http://` only where
/// `allow_plain`), a proper host, and no local target. Returns the host.
pub fn check_uri(uri: &[u8], allow_plain: bool) -> (r: Result<Vec<u8>, UriError>)
    ensures
        match r {
            Ok(h) => spec_check_uri(uri@, allow_plain) == Ok::<Seq<u8>, UriError>(h@),
            Err(e) => spec_check_uri(uri@, allow_plain) == Err::<Seq<u8>, UriError>(e),
        },
{
    let secure: bool = has_at(uri, 0, https_prefix().as_slice());
    let plain: bool = has_at(uri, 0, http_prefix().as_slice());
    if !(secure || (plain && allow_plain)) {
        return Err(UriError::UnsupportedScheme);
    }
    match host_of(uri) {
        None => Err(UriError::InvalidHost),
        Some(host) => {
            if local_host(host.as_slice()) {
                Err(UriError::LocalTarget)
            } else {
                Ok(host)
            }
        },
    }
}

} // verus!
