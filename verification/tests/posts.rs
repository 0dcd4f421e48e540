use fedcore::cache::Cache;
use fedcore::resolve::{
    deadline_passed, link_at, lookup, mention_at, mentioned_accounts, next_batch, resolve_post, scan_links,
    scan_mentions, LinkSpan, Resolution, Target, Token,
};
use fedcore::webfinger::{Discovery, Link, ResolveError, ResolveStep, Resolver};

const TEXT: &str = "hello @alice@example.com and @bob@unreachable.example, check this";

fn resolved(target: &Target) -> Option<Vec<u8>> {
    match target {
        Target::Resolved(a) => Some(a.clone()),
        Target::Unresolved => None,
    }
}

#[test]
fn mentions_are_found() {
    let toks = scan_mentions(TEXT.as_bytes());
    assert_eq!(toks, vec![Token { start: 6, at: 12, end: 24 }, Token { start: 29, at: 33, end: 53 }]);
    assert_eq!(&TEXT[6..24], "@alice@example.com");
    assert_eq!(&TEXT[29..53], "@bob@unreachable.example");
}

#[test]
fn what_is_no_mention() {
    assert_eq!(scan_mentions(b""), vec![]);
    assert_eq!(scan_mentions(b"mail me: alice@example.com"), vec![]);
    assert_eq!(scan_mentions(b"@alice alone"), vec![]);
    assert_eq!(scan_mentions(b"@@example.com"), vec![]);
    assert_eq!(scan_mentions(b"@alice@"), vec![]);
    assert_eq!(scan_mentions(b"@alice@ example.com"), vec![]);
    assert_eq!(scan_mentions(b"@a@b"), vec![Token { start: 0, at: 2, end: 4 }]);
    assert_eq!(scan_mentions(b"@a@b@c@d"), vec![Token { start: 0, at: 2, end: 4 }]);
    assert_eq!(scan_mentions(b"(@a@b)(@c@d)"), vec![Token { start: 1, at: 3, end: 5 }, Token { start: 7, at: 9, end: 11 }]);
    assert_eq!(mention_at(b"x @a@b", 2), Some(Token { start: 2, at: 4, end: 6 }));
    assert_eq!(mention_at(b"x @a@b", 0), None);
    assert_eq!(mention_at(b"x @a@b", 4), None);
    assert_eq!(mention_at(b"x @a@b", 60), None);
}

#[test]
fn links_are_found() {
    let text = b"see https://example.com/a?b=1 and http://x.example\nnot:https://y.example";
    assert_eq!(scan_links(text), vec![LinkSpan { start: 4, end: 29 }, LinkSpan { start: 34, end: 50 }]);
    assert_eq!(scan_links(b"https://example.com"), vec![LinkSpan { start: 0, end: 19 }]);
    assert_eq!(scan_links(b"ftp://example.com"), vec![]);
    assert_eq!(link_at(b"a https://b", 2), Some(LinkSpan { start: 2, end: 11 }));
    assert_eq!(link_at(b"a https://b", 3), None);
    assert_eq!(link_at(b"a https://b", 40), None);
}

#[test]
fn repeated_mentions_are_resolved_once() {
    let names = mentioned_accounts(b"@a@x.example @b@x.example @a@x.example and @a@x.example");
    assert_eq!(names, vec![b"a@x.example".to_vec(), b"b@x.example".to_vec()]);
    assert_eq!(mentioned_accounts(TEXT.as_bytes()), vec![b"alice@example.com".to_vec(), b"bob@unreachable.example".to_vec()]);
    assert_eq!(mentioned_accounts(b"nothing here"), Vec::<Vec<u8>>::new());
}

#[test]
fn unreachable_mention_stays_literal() {
    let mut resolver = Resolver::new(Cache::in_memory(), 600);
    let mut outcomes: Vec<Resolution> = Vec::new();
    for name in mentioned_accounts(TEXT.as_bytes()) {
        let actor = match resolver.begin(&name, 0) {
            ResolveStep::Discover { id, url: _ } => {
                let found = if id.domain == b"example.com".to_vec() {
                    Discovery::Descriptor(vec![Link {
                        rel: b"self".to_vec(),
                        media_type: b"application/activity+json".to_vec(),
                        href: b"https://example.com/users/alice".to_vec(),
                    }])
                } else {
                    Discovery::Unreachable
                };
                let r = resolver.finish(&id, &found, 0);
                if id.domain != b"example.com".to_vec() {
                    assert_eq!(r, Err(ResolveError::DomainUnreachable));
                }
                r.ok()
            },
            ResolveStep::Known(a) => Some(a),
            ResolveStep::Invalid => panic!("a mention names a well-formed account"),
        };
        outcomes.push(Resolution { identifier: name, actor });
    }
    let post = resolve_post(TEXT.as_bytes().to_vec(), &outcomes);
    assert_eq!(post.text, TEXT.as_bytes().to_vec());
    assert_eq!(post.mentions.len(), 2);
    let hits: Vec<_> = post.mentions.iter().filter(|m| matches!(m.target, Target::Resolved(_))).collect();
    assert_eq!(hits.len(), 1);
    assert_eq!((hits[0].start, hits[0].end), (6, 24));
    assert_eq!(resolved(&hits[0].target), Some(b"https://example.com/users/alice".to_vec()));
    assert_eq!((post.mentions[1].start, post.mentions[1].end), (29, 53));
    assert!(matches!(post.mentions[1].target, Target::Unresolved));
    assert_eq!(&post.text[29..53], b"@bob@unreachable.example");
    assert!(post.links.is_empty());
}

#[test]
fn missing_outcome_counts_as_failure() {
    let post = resolve_post(TEXT.as_bytes().to_vec(), &vec![]);
    assert_eq!(post.mentions.len(), 2);
    assert!(post.mentions.iter().all(|m| matches!(m.target, Target::Unresolved)));
}

#[test]
fn spans_are_ordered_and_apart() {
    let text = b"@a@x.example@b@y.example https://z.example/@c@w.example @a@x.example".to_vec();
    let outcomes = vec![Resolution { identifier: b"a@x.example".to_vec(), actor: Some(b"https://x.example/a".to_vec()) }];
    let post = resolve_post(text.clone(), &outcomes);
    let mut last = 0;
    for m in post.mentions.iter() {
        assert!(last <= m.start && m.start < m.end && m.end <= text.len());
        last = m.end;
    }
    assert_eq!(post.mentions.len(), 3);
    assert_eq!(resolved(&post.mentions[0].target), Some(b"https://x.example/a".to_vec()));
    assert_eq!(resolved(&post.mentions[2].target), Some(b"https://x.example/a".to_vec()));
    assert_eq!(post.links, vec![LinkSpan { start: 25, end: 55 }]);
}

#[test]
fn first_outcome_for_an_account_counts() {
    let outcomes = vec![
        Resolution { identifier: b"a@x".to_vec(), actor: None },
        Resolution { identifier: b"b@x".to_vec(), actor: Some(b"https://x/b".to_vec()) },
        Resolution { identifier: b"a@x".to_vec(), actor: Some(b"https://x/a".to_vec()) },
    ];
    assert_eq!(resolved(&lookup(&outcomes, b"a@x")), None);
    assert_eq!(resolved(&lookup(&outcomes, b"b@x")), Some(b"https://x/b".to_vec()));
    assert_eq!(resolved(&lookup(&outcomes, b"c@x")), None);
}

#[test]
fn parallelism_is_bounded() {
    assert_eq!(next_batch(10, 0, 4), 4);
    assert_eq!(next_batch(10, 3, 4), 1);
    assert_eq!(next_batch(10, 4, 4), 0);
    assert_eq!(next_batch(10, 9, 4), 0);
    assert_eq!(next_batch(2, 0, 4), 2);
    assert_eq!(next_batch(0, 0, 4), 0);
    assert_eq!(next_batch(5, 0, 0), 0);
}

#[test]
fn overall_deadline() {
    assert!(!deadline_passed(100, 129, 30));
    assert!(deadline_passed(100, 130, 30));
    assert!(deadline_passed(100, 100, 0));
    assert!(!deadline_passed(100, 50, 0));
    assert!(!deadline_passed(u64::MAX, u64::MAX, 1));
}

#[test]
fn span_validation() {
    let post = resolve_post(TEXT.as_bytes().to_vec(), &vec![]);
    assert!(post.spans_in_order());
    let span = |start: usize, end: usize| fedcore::resolve::MentionSpan { start, end, target: Target::Unresolved };
    let mut bad = fedcore::resolve::ResolvedPost { text: b"0123456789".to_vec(), mentions: vec![span(0, 4), span(3, 6)], links: vec![] };
    assert!(!bad.spans_in_order());
    bad.mentions = vec![span(4, 6), span(0, 4)];
    assert!(!bad.spans_in_order());
    bad.mentions = vec![span(0, 4), span(4, 11)];
    assert!(!bad.spans_in_order());
    bad.mentions = vec![span(2, 2)];
    assert!(!bad.spans_in_order());
    bad.mentions = vec![span(0, 4), span(4, 10)];
    assert!(bad.spans_in_order());
}
