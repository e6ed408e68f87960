use reactions::registry::BackendDescriptor;
use reactions::registry::BackendRegistry;
use reactions::registry::FetchError;
use reactions::registry::InitError;
use reactions::store::CacheKey;

fn backend(id: &str, endpoints: &[&str]) -> BackendDescriptor {
    BackendDescriptor {
        id: id.to_string(),
        endpoints: endpoints.iter().map(|e| e.to_string()).collect(),
    }
}

fn two_backends() -> BackendRegistry {
    BackendRegistry::new(vec![backend("giphy", &["hug", "slap"]), backend("tenor", &["hug"])])
        .unwrap()
}

#[test]
fn lookup_tells_unknown_backend_from_unknown_endpoint() {
    let registry = two_backends();
    assert_eq!(registry.lookup("giphy", "hug"), Ok(()));
    assert_eq!(registry.lookup("giphy", "slap"), Ok(()));
    assert_eq!(registry.lookup("tenor", "hug"), Ok(()));
    assert_eq!(registry.lookup("tenor", "slap"), Err(FetchError::UnknownEndpoint));
    assert_eq!(registry.lookup("giphy", ""), Err(FetchError::UnknownEndpoint));
    assert_eq!(registry.lookup("imgur", "hug"), Err(FetchError::UnknownBackend));
    assert_eq!(registry.lookup("GIPHY", "hug"), Err(FetchError::UnknownBackend));
    assert_eq!(registry.lookup("", "hug"), Err(FetchError::UnknownBackend));
}

#[test]
fn pairs_are_listed_backend_by_backend() {
    let registry = two_backends();
    assert_eq!(
        registry.pairs(),
        vec![
            CacheKey::new("giphy", "hug"),
            CacheKey::new("giphy", "slap"),
            CacheKey::new("tenor", "hug"),
        ]
    );
}

#[test]
fn empty_registry_is_valid_and_knows_nothing() {
    let registry = BackendRegistry::new(vec![]).unwrap();
    assert_eq!(registry.pairs(), Vec::<CacheKey>::new());
    assert_eq!(registry.lookup("giphy", "hug"), Err(FetchError::UnknownBackend));
}

#[test]
fn first_defect_is_reported() {
    assert_eq!(
        BackendRegistry::new(vec![backend("giphy", &["hug"]), backend("", &[])]).err(),
        Some(InitError::EmptyBackendId)
    );
    assert_eq!(
        BackendRegistry::new(vec![backend("giphy", &[]), backend("", &["hug"])]).err(),
        Some(InitError::NoEndpoints)
    );
    assert_eq!(
        BackendRegistry::new(vec![backend("giphy", &["a", "a"]), backend("giphy", &["b"])]).err(),
        Some(InitError::DuplicateEndpoint)
    );
    assert_eq!(
        BackendRegistry::new(vec![
            backend("giphy", &["a"]),
            backend("tenor", &["a"]),
            backend("giphy", &["b", "b"]),
        ])
        .err(),
        Some(InitError::DuplicateEndpoint)
    );
    assert_eq!(
        BackendRegistry::new(vec![
            backend("giphy", &["a"]),
            backend("tenor", &["a"]),
            backend("giphy", &["b"]),
        ])
        .err(),
        Some(InitError::DuplicateBackend)
    );
}

#[test]
fn same_endpoint_at_two_backends_is_no_defect() {
    assert!(BackendRegistry::new(vec![backend("giphy", &["hug"]), backend("tenor", &["hug"])]).is_ok());
}
