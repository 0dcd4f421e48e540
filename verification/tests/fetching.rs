use fedcore::cache::Cache;
use fedcore::fetcher::{
    retry_allowed, verdict, FetchError, Fetcher, Parsed, RemoteActor, Signature, Step, Transport,
};
use fedcore::uri::UriError;

fn answer(status: u16, media_type: &str, signature: Signature, parsed: bool) -> Transport {
    Transport::Answer {
        status,
        media_type: media_type.as_bytes().to_vec(),
        signature,
        body: if parsed {
            Some(Parsed { id: b"https://example.com/objects/1".to_vec(), kind: b"Note".to_vec(), raw: b"{}".to_vec() })
        } else {
            None
        },
    }
}

#[test]
fn verdict_on_answers() {
    assert_eq!(verdict(&Transport::TimedOut), Some(FetchError::Timeout));
    assert_eq!(verdict(&answer(200, "application/activity+json", Signature::Valid, true)), None);
    assert_eq!(verdict(&answer(200, "application/activity+json; charset=utf-8", Signature::Absent, true)), None);
    assert_eq!(verdict(&answer(200, "application/ld+json; profile=\"https://www.w3.org/ns/activitystreams\"", Signature::Valid, true)), None);
    assert_eq!(verdict(&answer(404, "text/html", Signature::Absent, false)), Some(FetchError::NotFound));
    assert_eq!(verdict(&answer(410, "text/html", Signature::Valid, false)), Some(FetchError::NotFound));
    assert_eq!(verdict(&answer(200, "text/html", Signature::Valid, true)), Some(FetchError::InvalidResponse));
    assert_eq!(verdict(&answer(200, "application/activity+json", Signature::Valid, false)), Some(FetchError::InvalidResponse));
    assert_eq!(verdict(&answer(500, "application/activity+json", Signature::Valid, true)), Some(FetchError::InvalidResponse));
    assert_eq!(verdict(&answer(200, "application/activity+json", Signature::Invalid, true)), Some(FetchError::SignatureInvalid));
    assert_eq!(verdict(&answer(404, "text/html", Signature::Invalid, false)), Some(FetchError::SignatureInvalid));
}

#[test]
fn retries_are_bounded() {
    assert!(retry_allowed(0, 3));
    assert!(retry_allowed(2, 3));
    assert!(!retry_allowed(3, 3));
    assert!(!retry_allowed(0, 0));
}

#[test]
fn concurrent_fetches_share_one_request() {
    let mut f = Fetcher::new(Cache::in_memory(), 300, false);
    let uri = b"https://example.com/objects/1";
    let mut requests = 0;
    let mut waiting = 0;
    for _ in 0..10 {
        match f.begin(uri, 50) {
            Step::Fetch => requests += 1,
            Step::Wait => waiting += 1,
            _ => panic!("neither cached nor refused"),
        }
    }
    assert_eq!((requests, waiting), (1, 9));
    assert_eq!(f.in_flight.waiters(uri), Some(10));
    let obj = f.finish(uri, answer(200, "application/activity+json", Signature::Valid, true), 60).ok().unwrap();
    assert_eq!(obj.id, b"https://example.com/objects/1".to_vec());
    assert_eq!(obj.kind, b"Note".to_vec());
    assert_eq!(obj.payload, b"{}".to_vec());
    assert_eq!(obj.fetched_at, 60);
    assert!(!f.in_flight.is_pending(uri));
    match f.begin(uri, 61) {
        Step::Cached(c) => {
            assert_eq!(c.id, obj.id);
            assert_eq!(c.kind, obj.kind);
            assert_eq!(c.payload, obj.payload);
            assert_eq!(c.fetched_at, 60);
        },
        _ => panic!("the object was cached"),
    }
    assert!(matches!(f.begin(uri, 359), Step::Cached(_)));
    assert!(matches!(f.begin(uri, 360), Step::Fetch));
}

#[test]
fn errors_are_not_cached() {
    let mut f = Fetcher::new(Cache::in_memory(), 300, false);
    let uri = b"https://example.com/objects/1";
    assert!(matches!(f.begin(uri, 0), Step::Fetch));
    assert!(matches!(
        f.finish(uri, answer(200, "application/activity+json", Signature::Invalid, true), 1),
        Err(FetchError::SignatureInvalid)
    ));
    assert!(matches!(f.begin(uri, 2), Step::Fetch));
    assert!(matches!(f.finish(uri, Transport::TimedOut, 3), Err(FetchError::Timeout)));
    assert!(matches!(f.begin(uri, 4), Step::Fetch));
    assert!(matches!(f.finish(uri, answer(404, "text/html", Signature::Absent, false), 5), Err(FetchError::NotFound)));
    assert!(matches!(f.begin(uri, 6), Step::Fetch));
    assert!(matches!(
        f.finish(uri, answer(200, "text/plain", Signature::Absent, true), 7),
        Err(FetchError::InvalidResponse)
    ));
    assert!(matches!(f.begin(uri, 8), Step::Fetch));
}

#[test]
fn local_targets_are_refused() {
    let mut f = Fetcher::new(Cache::noop(), 300, false);
    assert!(matches!(f.begin(b"https://localhost/objects/1", 0), Step::Refused(UriError::LocalTarget)));
    assert!(matches!(f.begin(b"http://example.com/objects/1", 0), Step::Refused(UriError::UnsupportedScheme)));
    assert!(matches!(f.begin(b"https://", 0), Step::Refused(UriError::InvalidHost)));
    assert!(!f.in_flight.is_pending(b"https://localhost/objects/1"));
    assert_eq!(FetchError::Refused(UriError::LocalTarget), FetchError::Refused(UriError::LocalTarget));
}

#[test]
fn fetcher_without_cache_fetches_again() {
    let mut f = Fetcher::new(Cache::noop(), 300, false);
    let uri = b"https://example.com/objects/1";
    assert!(matches!(f.begin(uri, 0), Step::Fetch));
    assert!(f.finish(uri, answer(200, "application/activity+json", Signature::Valid, true), 1).is_ok());
    assert!(matches!(f.begin(uri, 2), Step::Fetch));
}

#[test]
fn actor_staleness() {
    let a = RemoteActor {
        id: b"https://example.com/users/alice".to_vec(),
        name: b"alice".to_vec(),
        domain: b"example.com".to_vec(),
        public_key: vec![],
        inbox: b"https://example.com/users/alice/inbox".to_vec(),
        outbox: b"https://example.com/users/alice/outbox".to_vec(),
        last_fetched: 100,
    };
    assert!(!a.is_stale(100, 50));
    assert!(!a.is_stale(150, 50));
    assert!(a.is_stale(151, 50));
    assert!(!a.is_stale(10, 50));
}

#[test]
fn only_a_missing_answer_is_transient() {
    assert!(FetchError::Timeout.is_transient());
    assert!(!FetchError::NotFound.is_transient());
    assert!(!FetchError::InvalidResponse.is_transient());
    assert!(!FetchError::SignatureInvalid.is_transient());
    assert!(!FetchError::Refused(UriError::InvalidHost).is_transient());
}
