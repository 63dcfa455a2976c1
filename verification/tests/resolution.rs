use turbo_static::model::{Identifier, IdentifierReference, Position, SourceRange};
use turbo_static::resolver::{
    CallResolver, ResolveError, ResolvePhase, ResolveSession, ServerRequest,
    MAX_PREPARE_ATTEMPTS,
};

fn open_keyspace(dir: &std::path::Path) -> fjall::Keyspace {
    fjall::Config::new(dir).temporary(true).open().unwrap()
}

fn pos(line: u32, character: u32) -> Position {
    Position { line, character }
}

fn range(line: u32) -> SourceRange {
    SourceRange {
        start: pos(line, 4),
        end: pos(line, 20),
    }
}

fn ident(name: &str, line: u32) -> Identifier {
    Identifier {
        name: name.to_string(),
        path: "/repo/src/tasks.rs".to_string(),
        range: range(line),
    }
}

fn one_edge(caller: &str) -> IdentifierReference {
    IdentifierReference {
        identifier: ident(caller, 90),
        references: vec![range(93), range(95)],
    }
}

/// A scripted stand-in for the code-intelligence server: each entry is one
/// prepare reply (the number of items); `incoming` is the reply to the
/// incoming-calls request, `Err(())` standing for a protocol error.
struct ServerStub {
    prepare_replies: Vec<usize>,
    incoming: Result<Vec<IdentifierReference>, ()>,
    prepare_requests: usize,
    incoming_requests: usize,
}

impl ServerStub {
    fn new(prepare_replies: Vec<usize>, incoming: Result<Vec<IdentifierReference>, ()>) -> Self {
        ServerStub {
            prepare_replies,
            incoming,
            prepare_requests: 0,
            incoming_requests: 0,
        }
    }
}

/// Drive one full resolution: cache check, then the two-phase protocol
/// against the stub, then persist. Returns the resolved references.
fn resolve(
    resolver: &mut CallResolver,
    target: &Identifier,
    stub: &mut ServerStub,
) -> Vec<IdentifierReference> {
    if let Some(cached) = resolver.resolve_cached(target).unwrap() {
        return cached;
    }
    let mut session = ResolveSession::start(target);
    while let Some(request) = session.next_request() {
        match request {
            ServerRequest::Prepare { .. } => {
                let items = stub.prepare_replies[stub.prepare_requests.min(stub.prepare_replies.len() - 1)];
                stub.prepare_requests += 1;
                session.on_prepare(items);
            }
            ServerRequest::IncomingCalls { .. } => {
                stub.incoming_requests += 1;
                match stub.incoming.clone() {
                    Ok(calls) => session.on_incoming_calls(calls),
                    Err(()) => session.on_incoming_error(),
                }
            }
        }
    }
    resolver.commit(session).unwrap()
}

#[test]
fn cache_miss_then_hit() {
    let dir = tempfile::tempdir().unwrap();
    let mut resolver = CallResolver::new(open_keyspace(dir.path())).unwrap();
    let target = ident("fetch_assets", 10);

    // A fresh identifier is unknown to the cache.
    assert_eq!(resolver.resolve_cached(&target).unwrap(), None);

    let mut stub = ServerStub::new(vec![1], Ok(vec![one_edge("build_graph")]));
    let refs = resolve(&mut resolver, &target, &mut stub);
    assert!(stub.prepare_requests >= 1);
    assert_eq!(refs.len(), 1);

    // The result is now retrievable by a direct cache lookup.
    let looked_up = resolver.resolve_cached(&target).unwrap();
    assert_eq!(looked_up, Some(refs));
}

#[test]
fn resolving_twice_is_idempotent_and_quiet() {
    let dir = tempfile::tempdir().unwrap();
    let mut resolver = CallResolver::new(open_keyspace(dir.path())).unwrap();
    let target = ident("fetch_assets", 10);

    let mut stub = ServerStub::new(vec![1], Ok(vec![one_edge("build_graph")]));
    let first = resolve(&mut resolver, &target, &mut stub);
    let requests_after_first = stub.prepare_requests + stub.incoming_requests;

    let second = resolve(&mut resolver, &target, &mut stub);
    let requests_after_second = stub.prepare_requests + stub.incoming_requests;

    // Bit-identical results, and no further server traffic.
    assert_eq!(first, second);
    assert_eq!(requests_after_first, requests_after_second);
}

#[test]
fn clear_invalidates_fully() {
    let dir = tempfile::tempdir().unwrap();
    let mut resolver = CallResolver::new(open_keyspace(dir.path())).unwrap();
    let target = ident("fetch_assets", 10);

    let mut stub = ServerStub::new(vec![1], Ok(vec![one_edge("build_graph")]));
    let _ = resolve(&mut resolver, &target, &mut stub);
    assert_eq!(resolver.cached().unwrap(), 1);

    let mut resolver = resolver.cleared().unwrap();
    assert_eq!(resolver.cached().unwrap(), 0);
    assert_eq!(resolver.resolve_cached(&target).unwrap(), None);

    // Resolving again needs fresh server interaction.
    let before = stub.prepare_requests;
    let _ = resolve(&mut resolver, &target, &mut stub);
    assert!(stub.prepare_requests > before);
}

#[test]
fn retry_bound_respected() {
    let dir = tempfile::tempdir().unwrap();
    let mut resolver = CallResolver::new(open_keyspace(dir.path())).unwrap();
    let target = ident("isolated_task", 22);

    // A server that always answers the prepare request with no items.
    let mut stub = ServerStub::new(vec![0], Ok(vec![one_edge("never_asked")]));
    let refs = resolve(&mut resolver, &target, &mut stub);

    assert_eq!(stub.prepare_requests, MAX_PREPARE_ATTEMPTS as usize);
    assert_eq!(stub.prepare_requests, 6);
    assert_eq!(stub.incoming_requests, 0);
    assert_eq!(refs, vec![]);

    // The empty result is a terminal, cached finding.
    assert_eq!(resolver.resolve_cached(&target).unwrap(), Some(vec![]));
}

#[test]
fn prepare_succeeds_after_transient_empty_replies() {
    let dir = tempfile::tempdir().unwrap();
    let mut resolver = CallResolver::new(open_keyspace(dir.path())).unwrap();
    let target = ident("flaky_task", 31);

    let mut stub = ServerStub::new(vec![0, 0, 2], Ok(vec![one_edge("build_graph")]));
    let refs = resolve(&mut resolver, &target, &mut stub);

    assert_eq!(stub.prepare_requests, 3);
    assert_eq!(stub.incoming_requests, 1);
    assert_eq!(refs.len(), 1);
}

#[test]
fn protocol_error_downgrades_to_empty() {
    let dir = tempfile::tempdir().unwrap();
    let mut resolver = CallResolver::new(open_keyspace(dir.path())).unwrap();
    let target = ident("degraded_task", 40);

    let mut stub = ServerStub::new(vec![1], Err(()));
    let refs = resolve(&mut resolver, &target, &mut stub);

    // No error surfaces; the resolution completes with an empty list and
    // is cached as such.
    assert_eq!(stub.incoming_requests, 1);
    assert_eq!(refs, vec![]);
    assert_eq!(resolver.resolve_cached(&target).unwrap(), Some(vec![]));
}

#[test]
fn session_reports_isolated_and_degraded_findings() {
    let target = ident("task", 5);

    let mut session = ResolveSession::start(&target);
    for _ in 0..6 {
        session.on_prepare(0);
    }
    assert!(session.isolated);
    assert!(session.next_request().is_none());

    let mut session = ResolveSession::start(&target);
    session.on_prepare(3);
    session.on_incoming_error();
    assert!(session.degraded);
    assert!(!session.isolated);
}

#[test]
fn distinct_identifiers_get_distinct_cache_entries() {
    let dir = tempfile::tempdir().unwrap();
    let mut resolver = CallResolver::new(open_keyspace(dir.path())).unwrap();
    let a = ident("task_a", 10);
    // Same name, different declaration line: a distinct cache key.
    let b = ident("task_a", 20);

    let mut stub_a = ServerStub::new(vec![1], Ok(vec![one_edge("caller_of_a")]));
    let refs_a = resolve(&mut resolver, &a, &mut stub_a);

    let mut stub_b = ServerStub::new(vec![1], Ok(vec![]));
    let refs_b = resolve(&mut resolver, &b, &mut stub_b);

    assert_eq!(resolver.cached().unwrap(), 2);
    assert_eq!(resolver.resolve_cached(&a).unwrap(), Some(refs_a));
    assert_eq!(resolver.resolve_cached(&b).unwrap(), Some(refs_b));
    assert_ne!(
        resolver.resolve_cached(&a).unwrap(),
        resolver.resolve_cached(&b).unwrap()
    );
}

#[test]
fn cached_values_survive_string_and_range_round_trips() {
    let dir = tempfile::tempdir().unwrap();
    let mut resolver = CallResolver::new(open_keyspace(dir.path())).unwrap();
    let target = ident("unicode_task", 12);

    let edge = IdentifierReference {
        identifier: Identifier {
            name: "appeler_déjà".to_string(),
            path: "/répertoire/módulo.rs".to_string(),
            range: SourceRange {
                start: pos(7, 1),
                end: pos(9, 60),
            },
        },
        references: vec![range(8), range(9), range(11)],
    };
    let mut stub = ServerStub::new(vec![1], Ok(vec![edge.clone()]));
    let refs = resolve(&mut resolver, &target, &mut stub);
    assert_eq!(refs, vec![edge.clone()]);

    let cached = resolver.resolve_cached(&target).unwrap().unwrap();
    assert_eq!(cached, vec![edge]);
    assert_eq!(cached[0].identifier.name, "appeler_déjà".to_string());
    assert_eq!(cached[0].references.len(), 3);
}

#[test]
fn oversized_identifier_is_rejected_not_stored() {
    let dir = tempfile::tempdir().unwrap();
    let mut resolver = CallResolver::new(open_keyspace(dir.path())).unwrap();
    // The canonical key grows with the name and path; this one exceeds the
    // store's 65535-byte key limit.
    let target = Identifier {
        name: "t".repeat(70_000),
        path: "/repo/src/tasks.rs".to_string(),
        range: range(3),
    };

    assert!(matches!(
        resolver.resolve_cached(&target),
        Err(ResolveError::Oversized)
    ));

    let session = ResolveSession {
        ident: target.clone(),
        attempts: 0,
        phase: ResolvePhase::Finished,
        refs: vec![one_edge("caller")],
        isolated: false,
        degraded: false,
    };
    assert!(matches!(resolver.commit(session), Err(ResolveError::Oversized)));

    // The cache was left untouched.
    assert_eq!(resolver.cached().unwrap(), 0);

    // An ordinary identifier on the same resolver still resolves.
    let ok = ident("fits", 4);
    let mut stub = ServerStub::new(vec![1], Ok(vec![one_edge("caller")]));
    let refs = resolve(&mut resolver, &ok, &mut stub);
    assert_eq!(refs.len(), 1);
}
