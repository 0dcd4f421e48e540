use fedcore::cache::Cache;
use fedcore::webfinger::{
    outcome, parse_identifier, select_profile, Discovery, Identifier, Link, ResolveError, ResolveStep, Resolver,
};

fn link(rel: &str, media_type: &str, href: &str) -> Link {
    Link { rel: rel.as_bytes().to_vec(), media_type: media_type.as_bytes().to_vec(), href: href.as_bytes().to_vec() }
}

fn alice() -> Identifier {
    Identifier { user: b"alice".to_vec(), domain: b"example.com".to_vec() }
}

#[test]
fn identifier_is_split() {
    let id = parse_identifier(b"alice@example.com").ok().unwrap();
    assert_eq!(id.user, b"alice".to_vec());
    assert_eq!(id.domain, b"example.com".to_vec());
    assert_eq!(id.handle(), b"alice@example.com".to_vec());
    let id = parse_identifier(b"a_b.c-d@x").ok().unwrap();
    assert_eq!(id.user, b"a_b.c-d".to_vec());
    assert_eq!(id.domain, b"x".to_vec());
}

#[test]
fn malformed_identifiers_are_refused() {
    for bad in ["", "alice", "@example.com", "alice@", "alice@@example.com", "alice@exa mple.com", "al ice@example.com",
        "alice@example.com/", "@alice@example.com", "alice@example_com", "a@b@c"]
    {
        assert!(matches!(parse_identifier(bad.as_bytes()), Err(ResolveError::InvalidIdentifier)));
    }
}

#[test]
fn discovery_address() {
    assert_eq!(
        alice().discovery_url(),
        b"https://example.com/.well-known/webfinger?resource=acct:alice@example.com".to_vec()
    );
}

#[test]
fn profile_link_is_selected() {
    let links = vec![
        link("http://webfinger.net/rel/profile-page", "text/html", "https://example.com/@alice"),
        link("self", "application/activity+json", "https://example.com/users/alice"),
        link("self", "application/activity+json", "https://example.com/users/other"),
    ];
    assert_eq!(select_profile(&links, b"example.com"), Ok(b"https://example.com/users/alice".to_vec()));
}

#[test]
fn profile_on_another_domain_is_rejected() {
    let links = vec![link("self", "application/activity+json", "https://evil.example/users/alice")];
    assert_eq!(select_profile(&links, b"example.com"), Err(ResolveError::NoSelfLink));
    assert_eq!(outcome(&alice(), &Discovery::Descriptor(links)), Err(ResolveError::NoSelfLink));
    // a later link on the right domain does not rescue the descriptor
    let links = vec![
        link("self", "application/activity+json", "https://evil.example/users/alice"),
        link("self", "application/activity+json", "https://example.com/users/alice"),
    ];
    assert_eq!(select_profile(&links, b"example.com"), Err(ResolveError::NoSelfLink));
    // nor does a host that merely starts with the domain
    let links = vec![link("self", "application/activity+json", "https://example.com.evil.example/users/alice")];
    assert_eq!(select_profile(&links, b"example.com"), Err(ResolveError::NoSelfLink));
    let links = vec![link("self", "application/activity+json", "http://example.com/users/alice")];
    assert_eq!(select_profile(&links, b"example.com"), Err(ResolveError::NoSelfLink));
}

#[test]
fn descriptor_without_profile_link() {
    assert_eq!(select_profile(&vec![], b"example.com"), Err(ResolveError::NoSelfLink));
    let links = vec![
        link("self", "text/html", "https://example.com/users/alice"),
        link("alternate", "application/activity+json", "https://example.com/users/alice"),
    ];
    assert_eq!(select_profile(&links, b"example.com"), Err(ResolveError::NoSelfLink));
}

#[test]
fn unreachable_domain() {
    assert_eq!(outcome(&alice(), &Discovery::Unreachable), Err(ResolveError::DomainUnreachable));
}

#[test]
fn resolution_is_cached() {
    let mut r = Resolver::new(Cache::in_memory(), 100);
    let id = match r.begin(b"alice@example.com", 10) {
        ResolveStep::Discover { id, url } => {
            assert_eq!(url, b"https://example.com/.well-known/webfinger?resource=acct:alice@example.com".to_vec());
            id
        },
        _ => panic!("nothing is cached yet"),
    };
    let found = Discovery::Descriptor(vec![link("self", "application/activity+json", "https://example.com/users/alice")]);
    assert_eq!(r.finish(&id, &found, 10), Ok(b"https://example.com/users/alice".to_vec()));
    assert!(matches!(r.begin(b"alice@example.com", 109), ResolveStep::Known(a) if a == b"https://example.com/users/alice".to_vec()));
    assert!(matches!(r.begin(b"alice@example.com", 110), ResolveStep::Discover { .. }));
    assert!(matches!(r.begin(b"bob@example.com", 11), ResolveStep::Discover { .. }));
    assert!(matches!(r.begin(b"not an identifier", 11), ResolveStep::Invalid));
}

#[test]
fn failed_resolution_is_not_cached() {
    let mut r = Resolver::new(Cache::in_memory(), 100);
    assert_eq!(r.finish(&alice(), &Discovery::Unreachable, 10), Err(ResolveError::DomainUnreachable));
    assert!(matches!(r.begin(b"alice@example.com", 11), ResolveStep::Discover { .. }));
    let spoofed = Discovery::Descriptor(vec![link("self", "application/activity+json", "https://evil.example/users/alice")]);
    assert_eq!(r.finish(&alice(), &spoofed, 10), Err(ResolveError::NoSelfLink));
    assert!(matches!(r.begin(b"alice@example.com", 11), ResolveStep::Discover { .. }));
}

#[test]
fn resolver_without_cache_always_asks() {
    let mut r = Resolver::new(Cache::noop(), 100);
    let found = Discovery::Descriptor(vec![link("self", "application/activity+json", "https://example.com/users/alice")]);
    assert_eq!(r.finish(&alice(), &found, 10), Ok(b"https://example.com/users/alice".to_vec()));
    assert!(matches!(r.begin(b"alice@example.com", 10), ResolveStep::Discover { .. }));
}
