use fedcore::inflight::{InFlight, Role};

#[test]
fn one_leader_among_many_callers() {
    let mut r = InFlight::new();
    let uri = b"https://example.com/objects/1";
    let mut leaders = 0;
    let mut followers = 0;
    for _ in 0..25 {
        match r.attach(uri) {
            Some(Role::Leader) => leaders += 1,
            Some(Role::Follower) => followers += 1,
            None => panic!("waiter count cannot be full"),
        }
    }
    assert_eq!(leaders, 1);
    assert_eq!(followers, 24);
    assert_eq!(r.waiters(uri), Some(25));
    assert_eq!(r.complete(uri), Some(25));
    assert!(!r.is_pending(uri));
    assert_eq!(r.complete(uri), None);
    assert_eq!(r.attach(uri), Some(Role::Leader));
}

#[test]
fn addresses_are_independent() {
    let mut r = InFlight::new();
    assert_eq!(r.attach(b"https://a.example/1"), Some(Role::Leader));
    assert_eq!(r.attach(b"https://b.example/1"), Some(Role::Leader));
    assert_eq!(r.attach(b"https://a.example/1"), Some(Role::Follower));
    assert_eq!(r.waiters(b"https://a.example/1"), Some(2));
    assert_eq!(r.waiters(b"https://b.example/1"), Some(1));
    assert_eq!(r.waiters(b"https://c.example/1"), None);
    assert_eq!(r.complete(b"https://a.example/1"), Some(2));
    assert!(r.is_pending(b"https://b.example/1"));
}

#[test]
fn giving_up_does_not_end_the_fetch() {
    let mut r = InFlight::new();
    let uri = b"https://example.com/objects/1";
    assert_eq!(r.attach(uri), Some(Role::Leader));
    r.abandon(uri);
    assert!(r.is_pending(uri));
    assert_eq!(r.waiters(uri), Some(0));
    r.abandon(uri);
    assert_eq!(r.waiters(uri), Some(0));
    assert_eq!(r.attach(uri), Some(Role::Follower));
    assert_eq!(r.complete(uri), Some(1));
    r.abandon(uri);
    assert!(!r.is_pending(uri));
}
