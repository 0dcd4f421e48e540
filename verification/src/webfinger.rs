//! Account discovery: from `user@domain` to the address of the account's
//! profile, with the check that the profile lives on the domain asked.

use crate::bytes::{AT, activity_json, bytes_eq, copy_range, discovery_path, domain_run_end, has_at, https_prefix, scan_domain, scan_user, self_rel, spec_activity_json, spec_discovery_path, spec_https_prefix, spec_self_rel, user_run_end};
use crate::cache::{spec_get, Cache};
use crate::uri::{host_of, spec_host, spec_is_secure};
use vstd::prelude::*;

verus! {

/// Why an account could not be resolved.
#[derive(Clone, Copy, Debug, PartialEq, Eq, Structural)]
pub enum ResolveError {
    /// The text is not of the form `user@domain`.
    InvalidIdentifier,
    /// The domain could not be reached in time.
    DomainUnreachable,
    /// The descriptor names no acceptable profile on the domain asked.
    NoSelfLink,
}

/// An account name and the domain it lives on.
pub struct Identifier {
    pub user: Vec<u8>,
    pub domain: Vec<u8>,
}

/// One typed link of a descriptor.
pub struct Link {
    pub rel: Vec<u8>,
    pub media_type: Vec<u8>,
    pub href: Vec<u8>,
}

/// What the discovery request brought back.
pub enum Discovery {
    /// No connection, or no answer in time.
    Unreachable,
    /// A descriptor with its links, in the order given.
    Descriptor(Vec<Link>),
}

/// Position of the `@` in a well-formed `user@domain`: a non-empty account
/// name, one `@`, and a non-empty host name up to the end.
pub open spec fn spec_split(text: Seq<u8>) -> Option<int> {
    let at = user_run_end(text, 0);
    if 0 < at && at + 1 < text.len() && text[at] == AT && domain_run_end(text, at + 1) == text.len() {
        Some(at)
    } else {
        None
    }
}

/// `user@domain` as bytes.
pub open spec fn spec_handle(user: Seq<u8>, domain: Seq<u8>) -> Seq<u8> {
    user + seq![AT] + domain
}

/// The address of the discovery request for an account.
pub open spec fn spec_discovery_url(user: Seq<u8>, domain: Seq<u8>) -> Seq<u8> {
    spec_https_prefix() + domain + spec_discovery_path() + spec_handle(user, domain)
}

/// A link that marks the canonical profile: relation `self`, an activity document.
pub open spec fn is_profile_link(link: Link) -> bool {
    link.rel@ == spec_self_rel() && link.media_type@ == spec_activity_json()
}

/// Position of the first profile link, or the number of links if there is none.
pub open spec fn first_profile(links: Seq<Link>) -> int
    decreases links.len(),
{
    if links.len() == 0 {
        0
    } else if is_profile_link(links[0]) {
        0
    } else {
        1 + first_profile(links.subrange(1, links.len() as int))
    }
}

/// A profile address is accepted for `domain` when it is an `https://`
/// address whose host is exactly `domain`.
pub open spec fn profile_matches(href: Seq<u8>, domain: Seq<u8>) -> bool {
    spec_is_secure(href) && spec_host(href) == Some(domain)
}

/// The profile address a descriptor yields for `domain`.
pub open spec fn spec_select(links: Seq<Link>, domain: Seq<u8>) -> Result<Seq<u8>, ResolveError> {
    let i = first_profile(links);
    if i < links.len() && profile_matches(links[i].href@, domain) {
        Ok(links[i].href@)
    } else {
        Err(ResolveError::NoSelfLink)
    }
}

/// The result of a resolution, given what discovery brought back.
pub open spec fn spec_outcome(domain: Seq<u8>, discovery: Discovery) -> Result<Seq<u8>, ResolveError> {
    match discovery {
        Discovery::Unreachable => Err(ResolveError::DomainUnreachable),
        Discovery::Descriptor(links) => spec_select(links@, domain),
    }
}

proof fn lemma_first_profile(links: Seq<Link>, upto: int)
    requires
        0 <= upto <= links.len(),
        forall|k: int| 0 <= k < upto ==> !is_profile_link(#[trigger] links[k]),
        upto < links.len() ==> is_profile_link(links[upto]),
    ensures
        first_profile(links) == upto,
    decreases links.len(),
{
    if links.len() > 0 && upto > 0 {
        let rest = links.subrange(1, links.len() as int);
        assert(!is_profile_link(links[0]));
        assert forall|k: int| 0 <= k < upto - 1 implies !is_profile_link(#[trigger] rest[k]) by {
            assert(rest[k] == links[k + 1]);
        }
        if upto < links.len() {
            assert(rest[upto - 1] == links[upto]);
        }
        lemma_first_profile(rest, upto - 1);
    }
}

/// Splits `text` into account name and domain; refuses anything that is not
/// exactly `user@domain`.
pub fn parse_identifier(text: &[u8]) -> (r: Result<Identifier, ResolveError>)
    ensures
        match r {
            Ok(id) => {
                &&& spec_split(text@).is_some()
                &&& id.user@ == text@.subrange(0, spec_split(text@).unwrap())
                &&& id.domain@ == text@.subrange(spec_split(text@).unwrap() + 1, text@.len() as int)
            },
            Err(e) => e == ResolveError::InvalidIdentifier && spec_split(text@).is_none(),
        },
{
    let at: usize = scan_user(text, 0);
    if at == 0 || at >= text.len() || text[at] != AT || at + 1 >= text.len() {
        return Err(ResolveError::InvalidIdentifier);
    }
    let end: usize = scan_domain(text, at + 1);
    if end != text.len() {
        return Err(ResolveError::InvalidIdentifier);
    }
    Ok(Identifier { user: copy_range(text, 0, at), domain: copy_range(text, at + 1, text.len()) })
}

fn append(out: &mut Vec<u8>, part: &[u8])
    ensures
        final(out)@ == old(out)@ + part@,
{
    let mut i: usize = 0;
    while i < part.len()
        invariant
            i <= part.len(),
            out@ == old(out)@ + part@.subrange(0, i as int),
        decreases part.len() - i,
    {
        out.push(part[i]);
        assert(part@.subrange(0, i + 1) =~= part@.subrange(0, i as int).push(part@[i as int]));
        assert(out@ =~= old(out)@ + part@.subrange(0, i + 1));
        i = i + 1;
    }
    assert(part@.subrange(0, part@.len() as int) =~= part@);
}

impl Identifier {
    /// `user@domain`, the key under which a resolution is cached.
    pub fn handle(&self) -> (out: Vec<u8>)
        ensures
            out@ == spec_handle(self.user@, self.domain@),
    {
        let mut out: Vec<u8> = Vec::new();
        append(&mut out, self.user.as_slice());
        out.push(AT);
        append(&mut out, self.domain.as_slice());
        assert(out@ =~= spec_handle(self.user@, self.domain@));
        out
    }

    /// The address of the discovery request: the domain's well-known
    /// endpoint over HTTPS, with the account as the resource asked for.
    pub fn discovery_url(&self) -> (out: Vec<u8>)
        ensures
            out@ == spec_discovery_url(self.user@, self.domain@),
    {
        let mut out: Vec<u8> = https_prefix();
        append(&mut out, self.domain.as_slice());
        append(&mut out, discovery_path().as_slice());
        append(&mut out, self.handle().as_slice());
        out
    }
}

/// Picks the profile address out of a descriptor: the first link marked as
/// the canonical profile, accepted only if it lives on `domain`.
pub fn select_profile(links: &Vec<Link>, domain: &[u8]) -> (r: Result<Vec<u8>, ResolveError>)
    ensures
        match r {
            Ok(href) => spec_select(links@, domain@) == Ok::<Seq<u8>, ResolveError>(href@),
            Err(e) => spec_select(links@, domain@) == Err::<Seq<u8>, ResolveError>(e),
        },
        r.is_ok() ==> profile_matches(r.unwrap()@, domain@),
{
    let rel: Vec<u8> = self_rel();
    let media: Vec<u8> = activity_json();
    let mut i: usize = 0;
    while i < links.len()
        invariant
            i <= links.len(),
            rel@ == spec_self_rel(),
            media@ == spec_activity_json(),
            forall|k: int| 0 <= k < i ==> !is_profile_link(#[trigger] links@[k]),
        decreases links.len() - i,
    {
        if bytes_eq(links[i].rel.as_slice(), rel.as_slice()) && bytes_eq(links[i].media_type.as_slice(), media.as_slice()) {
            proof {
                lemma_first_profile(links@, i as int);
            }
            let href: &[u8] = links[i].href.as_slice();
            if !has_at(href, 0, https_prefix().as_slice()) {
                return Err(ResolveError::NoSelfLink);
            }
            match host_of(href) {
                Some(host) => {
                    if bytes_eq(host.as_slice(), domain) {
                        assert(href@.subrange(0, href@.len() as int) =~= href@);
                        return Ok(copy_range(href, 0, href.len()));
                    } else {
                        return Err(ResolveError::NoSelfLink);
                    }
                },
                None => {
                    return Err(ResolveError::NoSelfLink);
                },
            }
        }
        i = i + 1;
    }
    proof {
        lemma_first_profile(links@, i as int);
    }
    Err(ResolveError::NoSelfLink)
}

/// Turns what discovery brought back into the result of the resolution.
pub fn outcome(id: &Identifier, discovery: &Discovery) -> (r: Result<Vec<u8>, ResolveError>)
    ensures
        match r {
            Ok(href) => spec_outcome(id.domain@, *discovery) == Ok::<Seq<u8>, ResolveError>(href@),
            Err(e) => spec_outcome(id.domain@, *discovery) == Err::<Seq<u8>, ResolveError>(e),
        },
        r.is_ok() ==> spec_host(r.unwrap()@) == Some(id.domain@),
{
    match discovery {
        Discovery::Unreachable => Err(ResolveError::DomainUnreachable),
        Discovery::Descriptor(links) => select_profile(links, id.domain.as_slice()),
    }
}

/// A descriptor whose profile link points to another domain than the one
/// asked is refused, however well formed it is.
pub proof fn lemma_foreign_profile_rejected(links: Seq<Link>, domain: Seq<u8>)
    requires
        first_profile(links) < links.len(),
        spec_host(links[first_profile(links)].href@) != Some(domain),
    ensures
        spec_select(links, domain) == Err::<Seq<u8>, ResolveError>(ResolveError::NoSelfLink),
{
}

/// Whatever a descriptor holds, an accepted profile lives on the domain asked.
pub proof fn lemma_accepted_profile_is_on_domain(links: Seq<Link>, domain: Seq<u8>)
    ensures
        spec_select(links, domain) is Ok ==> spec_host(spec_select(links, domain)->Ok_0) == Some(domain),
{
}

/// A resolved account as it is cached; the cache entry carries the expiry.
pub struct IdentityRecord {
    pub user: Vec<u8>,
    pub domain: Vec<u8>,
    pub actor: Vec<u8>,
}

/// What a caller has to do to resolve one account.
pub enum ResolveStep {
    /// The text is not of the form `user@domain`.
    Invalid,
    /// The account was in the cache; the address of its profile.
    Known(Vec<u8>),
    /// Ask the domain: send the discovery request to `url`, then report the answer.
    Discover { id: Identifier, url: Vec<u8> },
}

/// The identity resolver's state: its cache and how long a resolution is kept.
pub struct Resolver {
    pub cache: Cache<IdentityRecord>,
    pub ttl: u64,
}

impl Resolver {
    /// The cache is well formed.
    pub open spec fn wf(&self) -> bool {
        self.cache.wf()
    }

    /// A resolver over `cache`.
    pub fn new(cache: Cache<IdentityRecord>, ttl: u64) -> (r: Resolver)
        requires
            cache.wf(),
        ensures
            r.wf(),
            r.cache == cache,
            r.ttl == ttl,
    {
        Resolver { cache, ttl }
    }

    /// Decides how `text` is resolved at `now`: refused as malformed, served
    /// from the cache, or to be asked of its domain.
    pub fn begin(&self, text: &[u8], now: u64) -> (step: ResolveStep)
        requires
            self.wf(),
        ensures
            match step {
                ResolveStep::Invalid => spec_split(text@).is_none(),
                ResolveStep::Known(actor) => {
                    &&& spec_split(text@).is_some()
                    &&& spec_get(self.cache@, text@, now) is Some
                    &&& spec_get(self.cache@, text@, now)->Some_0.actor@ == actor@
                },
                ResolveStep::Discover { id, url } => {
                    &&& spec_split(text@).is_some()
                    &&& spec_get(self.cache@, text@, now) is None
                    &&& id.user@ == text@.subrange(0, spec_split(text@).unwrap())
                    &&& id.domain@ == text@.subrange(spec_split(text@).unwrap() + 1, text@.len() as int)
                    &&& spec_handle(id.user@, id.domain@) == text@
                    &&& url@ == spec_discovery_url(id.user@, id.domain@)
                },
            },
    {
        match parse_identifier(text) {
            Err(_) => ResolveStep::Invalid,
            Ok(id) => {
                match self.cache.get(text, now) {
                    Some(rec) => {
                        assert(rec.actor@.subrange(0, rec.actor@.len() as int) =~= rec.actor@);
                        ResolveStep::Known(copy_range(rec.actor.as_slice(), 0, rec.actor.len()))
                    },
                    None => {
                        assert(spec_handle(id.user@, id.domain@) =~= text@);
                        let url: Vec<u8> = id.discovery_url();
                        ResolveStep::Discover { id, url }
                    },
                }
            },
        }
    }

    /// Ends a resolution with what discovery brought back at `now`. An
    /// accepted profile address is cached under `user@domain` and returned;
    /// an error leaves the cache alone.
    pub fn finish(&mut self, id: &Identifier, discovery: &Discovery, now: u64) -> (r: Result<Vec<u8>, ResolveError>)
        requires
            old(self).wf(),
        ensures
            final(self).wf(),
            final(self).ttl == old(self).ttl,
            match r {
                Ok(href) => {
                    let key = spec_handle(id.user@, id.domain@);
                    &&& spec_outcome(id.domain@, *discovery) == Ok::<Seq<u8>, ResolveError>(href@)
                    &&& spec_host(href@) == Some(id.domain@)
                    &&& final(self).cache.is_noop() == old(self).cache.is_noop()
                    &&& old(self).cache.is_noop() ==> final(self).cache@ == old(self).cache@
                    &&& !old(self).cache.is_noop() ==> {
                        &&& final(self).cache@.dom() == old(self).cache@.dom().insert(key)
                        &&& final(self).cache@.remove(key) == old(self).cache@.remove(key)
                        &&& final(self).cache@[key].value.actor@ == href@
                        &&& final(self).cache@[key].value.user@ == id.user@
                        &&& final(self).cache@[key].value.domain@ == id.domain@
                        &&& final(self).cache@[key].inserted_at == now
                        &&& final(self).cache@[key].ttl == old(self).ttl
                    }
                },
                Err(e) => {
                    &&& spec_outcome(id.domain@, *discovery) == Err::<Seq<u8>, ResolveError>(e)
                    &&& final(self).cache == old(self).cache
                },
            },
    {
        match outcome(id, discovery) {
            Err(e) => Err(e),
            Ok(href) => {
                assert(href@.subrange(0, href@.len() as int) =~= href@);
                assert(id.user@.subrange(0, id.user@.len() as int) =~= id.user@);
                assert(id.domain@.subrange(0, id.domain@.len() as int) =~= id.domain@);
                let record = IdentityRecord {
                    user: copy_range(id.user.as_slice(), 0, id.user.len()),
                    domain: copy_range(id.domain.as_slice(), 0, id.domain.len()),
                    actor: copy_range(href.as_slice(), 0, href.len()),
                };
                let key: Vec<u8> = id.handle();
                let ttl: u64 = self.ttl;
                self.cache.set(key, record, ttl, now);
                proof {
                    let k = spec_handle(id.user@, id.domain@);
                    if !old(self).cache.is_noop() {
                        assert(self.cache@.dom() =~= old(self).cache@.dom().insert(k));
                        assert(self.cache@.remove(k) =~= old(self).cache@.remove(k));
                    }
                }
                Ok(href)
            },
        }
    }
}

} // verus!
