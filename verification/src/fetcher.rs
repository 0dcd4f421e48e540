//! Fetching remote objects: the decisions around one fetch, from the check
//! of the address to what is cached and returned.

use crate::bytes::{
    activity_json, copy_range, has_at, linked_data_json, spec_activity_json, spec_has_at, spec_linked_data_json,
};
use crate::cache::{spec_get, Cache};
use crate::inflight::{spec_joined, spec_role, InFlight, Role};
use crate::uri::{check_uri, spec_check_uri, UriError};
use vstd::prelude::*;

verus! {

/// Why a fetch brought no object.
#[derive(Clone, Copy, Debug, PartialEq, Eq, Structural)]
pub enum FetchError {
    /// The address is not one that may be fetched.
    Refused(UriError),
    /// The remote host reports that the object does not exist or is gone.
    NotFound,
    /// The answer is not a well-formed object of an accepted type.
    InvalidResponse,
    /// The answer's signature does not verify.
    SignatureInvalid,
    /// No answer within the deadline, retries included.
    Timeout,
}

impl FetchError {
    /// Whether the same request may succeed later: only a missing answer
    /// is passing, every other error is final for the address.
    pub fn is_transient(&self) -> (r: bool)
        ensures
            r == (*self == FetchError::Timeout),
    {
        match self {
            FetchError::Timeout => true,
            _ => false,
        }
    }
}

/// A federation object as fetched from its home.
pub struct RemoteObject {
    pub id: Vec<u8>,
    pub kind: Vec<u8>,
    pub payload: Vec<u8>,
    pub fetched_at: u64,
}

/// An account on another server.
pub struct RemoteActor {
    pub id: Vec<u8>,
    pub name: Vec<u8>,
    pub domain: Vec<u8>,
    pub public_key: Vec<u8>,
    pub inbox: Vec<u8>,
    pub outbox: Vec<u8>,
    pub last_fetched: u64,
}

impl RemoteActor {
    /// Whether the copy is older than `max_age` at `now` and should be fetched again.
    pub fn is_stale(&self, now: u64, max_age: u64) -> (r: bool)
        ensures
            r == (self.last_fetched + max_age < now),
    {
        now > self.last_fetched && now - self.last_fetched > max_age
    }
}

impl RemoteObject {
    /// Field by field the same content.
    pub open spec fn same(self, other: RemoteObject) -> bool {
        &&& self.id@ == other.id@
        &&& self.kind@ == other.kind@
        &&& self.payload@ == other.payload@
        &&& self.fetched_at == other.fetched_at
    }

    /// A copy with the same content.
    pub fn duplicate(&self) -> (r: RemoteObject)
        ensures
            self.same(r),
    {
        assert(self.id@.subrange(0, self.id@.len() as int) =~= self.id@);
        assert(self.kind@.subrange(0, self.kind@.len() as int) =~= self.kind@);
        assert(self.payload@.subrange(0, self.payload@.len() as int) =~= self.payload@);
        RemoteObject {
            id: copy_range(self.id.as_slice(), 0, self.id.len()),
            kind: copy_range(self.kind.as_slice(), 0, self.kind.len()),
            payload: copy_range(self.payload.as_slice(), 0, self.payload.len()),
            fetched_at: self.fetched_at,
        }
    }
}

/// What the check of an answer's signature found.
#[derive(Clone, Copy, Debug, PartialEq, Eq, Structural)]
pub enum Signature {
    Absent,
    Valid,
    Invalid,
}

/// The structured content of an answer, once parsed.
pub struct Parsed {
    pub id: Vec<u8>,
    pub kind: Vec<u8>,
    pub raw: Vec<u8>,
}

/// What the network brought back for one request.
pub enum Transport {
    /// No answer within the deadline.
    TimedOut,
    /// An answer; `body` is `None` where its content could not be parsed.
    Answer { status: u16, media_type: Vec<u8>, signature: Signature, body: Option<Parsed> },
}

/// A media type under which federation objects are served.
pub open spec fn is_object_media(media_type: Seq<u8>) -> bool {
    spec_has_at(media_type, 0, spec_activity_json()) || spec_has_at(media_type, 0, spec_linked_data_json())
}

/// The verdict on what the network brought back: nothing is wrong, or the
/// first thing that is. An untrusted answer is dropped before anything it
/// says is looked at.
pub open spec fn spec_verdict(transport: Transport) -> Option<FetchError> {
    match transport {
        Transport::TimedOut => Some(FetchError::Timeout),
        Transport::Answer { status, media_type, signature, body } => {
            if signature == Signature::Invalid {
                Some(FetchError::SignatureInvalid)
            } else if status == 404 || status == 410 {
                Some(FetchError::NotFound)
            } else if !(200 <= status < 300) || !is_object_media(media_type@) || body.is_none() {
                Some(FetchError::InvalidResponse)
            } else {
                None
            }
        },
    }
}

/// The verdict on what the network brought back.
pub fn verdict(transport: &Transport) -> (r: Option<FetchError>)
    ensures
        r == spec_verdict(*transport),
{
    match transport {
        Transport::TimedOut => Some(FetchError::Timeout),
        Transport::Answer { status, media_type, signature, body } => {
            let untrusted: bool = match signature {
                Signature::Invalid => true,
                _ => false,
            };
            if untrusted {
                Some(FetchError::SignatureInvalid)
            } else if *status == 404 || *status == 410 {
                Some(FetchError::NotFound)
            } else if !(200 <= *status && *status < 300) {
                Some(FetchError::InvalidResponse)
            } else if !(has_at(media_type.as_slice(), 0, activity_json().as_slice()) || has_at(
                media_type.as_slice(),
                0,
                linked_data_json().as_slice(),
            )) {
                Some(FetchError::InvalidResponse)
            } else if body.is_none() {
                Some(FetchError::InvalidResponse)
            } else {
                None
            }
        },
    }
}

/// Whether a request that failed before any answer is sent once more: only
/// while fewer than `max_retries` retries have been made.
pub fn retry_allowed(retries_made: u32, max_retries: u32) -> (r: bool)
    ensures
        r == (retries_made < max_retries),
{
    retries_made < max_retries
}

/// What a caller has to do for one fetch.
pub enum Step {
    /// The address may not be fetched.
    Refused(UriError),
    /// The object was in the cache.
    Cached(RemoteObject),
    /// Nothing cached, no fetch under way: perform the request, then report it.
    Fetch,
    /// A fetch of the address is under way: wait for its result.
    Wait,
    /// Too many callers already wait for this address.
    Busy,
}

/// The fetcher's state: the cache, the fetches under way, and the policy.
pub struct Fetcher {
    pub cache: Cache<RemoteObject>,
    pub in_flight: InFlight,
    pub ttl: u64,
    pub allow_plain: bool,
}

impl Fetcher {
    /// The cache and the registry of fetches under way are well formed.
    pub open spec fn wf(&self) -> bool {
        self.cache.wf() && self.in_flight.wf()
    }

    /// A fetcher over `cache` with no fetch under way.
    pub fn new(cache: Cache<RemoteObject>, ttl: u64, allow_plain: bool) -> (f: Fetcher)
        requires
            cache.wf(),
        ensures
            f.wf(),
            f.cache == cache,
            f.in_flight@ == Map::<Seq<u8>, nat>::empty(),
            f.ttl == ttl,
            f.allow_plain == allow_plain,
    {
        Fetcher { cache, in_flight: InFlight::new(), ttl, allow_plain }
    }

    /// Decides what a caller asking for `uri` at `now` has to do: refused by
    /// policy, served from the cache, or attached to the one fetch of that
    /// address, which the first caller performs.
    pub fn begin(&mut self, uri: &[u8], now: u64) -> (step: Step)
        requires
            old(self).wf(),
        ensures
            final(self).wf(),
            final(self).cache == old(self).cache,
            final(self).ttl == old(self).ttl,
            final(self).allow_plain == old(self).allow_plain,
            match step {
                Step::Refused(e) => {
                    &&& spec_check_uri(uri@, old(self).allow_plain) == Err::<Seq<u8>, UriError>(e)
                    &&& final(self).in_flight@ == old(self).in_flight@
                },
                Step::Cached(obj) => {
                    &&& spec_check_uri(uri@, old(self).allow_plain) is Ok
                    &&& spec_get(old(self).cache@, uri@, now) is Some
                    &&& spec_get(old(self).cache@, uri@, now)->Some_0.same(obj)
                    &&& final(self).in_flight@ == old(self).in_flight@
                },
                Step::Fetch => {
                    &&& spec_check_uri(uri@, old(self).allow_plain) is Ok
                    &&& spec_get(old(self).cache@, uri@, now) is None
                    &&& spec_role(old(self).in_flight@, uri@) == Role::Leader
                    &&& final(self).in_flight@ == spec_joined(old(self).in_flight@, uri@)
                },
                Step::Wait => {
                    &&& spec_check_uri(uri@, old(self).allow_plain) is Ok
                    &&& spec_get(old(self).cache@, uri@, now) is None
                    &&& spec_role(old(self).in_flight@, uri@) == Role::Follower
                    &&& old(self).in_flight@[uri@] != u64::MAX
                    &&& final(self).in_flight@ == spec_joined(old(self).in_flight@, uri@)
                },
                Step::Busy => {
                    &&& spec_check_uri(uri@, old(self).allow_plain) is Ok
                    &&& spec_get(old(self).cache@, uri@, now) is None
                    &&& old(self).in_flight@.dom().contains(uri@)
                    &&& old(self).in_flight@[uri@] == u64::MAX
                    &&& final(self).in_flight@ == old(self).in_flight@
                },
            },
    {
        match check_uri(uri, self.allow_plain) {
            Err(e) => {
                return Step::Refused(e);
            },
            Ok(_) => {},
        }
        match self.cache.get(uri, now) {
            Some(obj) => {
                return Step::Cached(obj.duplicate());
            },
            None => {},
        }
        match self.in_flight.attach(uri) {
            Some(Role::Leader) => Step::Fetch,
            Some(Role::Follower) => Step::Wait,
            None => Step::Busy,
        }
    }

    /// Ends the fetch of `uri` with what the network brought back at `now`.
    /// A sound answer becomes the object, which is cached for the default
    /// time; anything else becomes its error and leaves the cache alone.
    /// Either way the fetch is no longer under way.
    pub fn finish(&mut self, uri: &[u8], transport: Transport, now: u64) -> (r: Result<RemoteObject, FetchError>)
        requires
            old(self).wf(),
        ensures
            final(self).wf(),
            final(self).ttl == old(self).ttl,
            final(self).allow_plain == old(self).allow_plain,
            final(self).in_flight@ == old(self).in_flight@.remove(uri@),
            match r {
                Ok(obj) => {
                    &&& spec_verdict(transport) is None
                    &&& obj.id@ == transport->body->Some_0.id@
                    &&& obj.kind@ == transport->body->Some_0.kind@
                    &&& obj.payload@ == transport->body->Some_0.raw@
                    &&& obj.fetched_at == now
                    &&& final(self).cache.is_noop() == old(self).cache.is_noop()
                    &&& !old(self).cache.is_noop() ==> {
                        &&& final(self).cache@.dom() == old(self).cache@.dom().insert(uri@)
                        &&& final(self).cache@.remove(uri@) == old(self).cache@.remove(uri@)
                        &&& final(self).cache@[uri@].value.same(obj)
                        &&& final(self).cache@[uri@].inserted_at == now
                        &&& final(self).cache@[uri@].ttl == old(self).ttl
                    }
                    &&& old(self).cache.is_noop() ==> final(self).cache@ == old(self).cache@
                },
                Err(e) => spec_verdict(transport) == Some(e) && final(self).cache == old(self).cache,
            },
    {
        let _ = self.in_flight.complete(uri);
        match verdict(&transport) {
            Some(e) => Err(e),
            None => {
                match transport {
                    Transport::Answer { status: _, media_type: _, signature: _, body: Some(parsed) } => {
                        let obj = RemoteObject { id: parsed.id, kind: parsed.kind, payload: parsed.raw, fetched_at: now };
                        let stored = obj.duplicate();
                        assert(uri@.subrange(0, uri@.len() as int) =~= uri@);
                        let key: Vec<u8> = copy_range(uri, 0, uri.len());
                        let ttl: u64 = self.ttl;
                        self.cache.set(key, stored, ttl, now);
                        proof {
                            if !old(self).cache.is_noop() {
                                assert(self.cache@.dom() =~= old(self).cache@.dom().insert(uri@));
                                assert(self.cache@.remove(uri@) =~= old(self).cache@.remove(uri@));
                            }
                        }
                        Ok(obj)
                    },
                    _ => Err(FetchError::InvalidResponse),
                }
            },
        }
    }
}

/// An answer whose signature does not verify is never turned into an
/// object, whatever else it holds.
pub proof fn lemma_untrusted_is_dropped(status: u16, media_type: Vec<u8>, body: Option<Parsed>)
    ensures
        spec_verdict(Transport::Answer { status, media_type, signature: Signature::Invalid, body }) == Some(
            FetchError::SignatureInvalid,
        ),
{
}

} // verus!
