use reactions::manager::BackendManager;
use reactions::manager::BuildError;
use reactions::manager::NotCachedError;
use reactions::manager::RefreshAction;
use reactions::registry::BackendDescriptor;
use reactions::registry::FetchError;
use reactions::registry::InitError;
use reactions::store::CacheKey;

fn backend(id: &str, endpoints: &[&str]) -> BackendDescriptor {
    BackendDescriptor {
        id: id.to_string(),
        endpoints: endpoints.iter().map(|e| e.to_string()).collect(),
    }
}

fn giphy() -> BackendManager {
    BackendManager::new(vec![backend("giphy", &["hug", "slap"])]).unwrap()
}

fn key(backend: &str, endpoint: &str) -> CacheKey {
    CacheKey::new(backend, endpoint)
}

#[test]
fn warm_up_serves_what_succeeded_and_not_what_failed() {
    let mut manager = giphy();
    let plan = manager.build_cache().unwrap();
    assert_eq!(plan, vec![key("giphy", "hug"), key("giphy", "slap")]);
    assert_eq!(
        manager.complete_fetch("giphy", "hug", Ok("https://x/1.gif".to_string())),
        Ok(())
    );
    assert_eq!(
        manager.complete_fetch("giphy", "slap", Err(FetchError::NetworkFailure)),
        Err(FetchError::NetworkFailure)
    );
    assert_eq!(manager.get_cached("giphy", "hug"), Ok("https://x/1.gif".to_string()));
    assert_eq!(manager.get_cached("giphy", "slap"), Err(NotCachedError));
}

#[test]
fn refresh_replaces_the_cached_address() {
    let mut manager = giphy();
    manager.build_cache().unwrap();
    manager.complete_fetch("giphy", "hug", Ok("https://x/1.gif".to_string())).unwrap();
    let _ = manager.complete_fetch("giphy", "slap", Err(FetchError::NetworkFailure));
    assert_eq!(manager.refresh_cache("giphy", "hug"), Ok(RefreshAction::Fetch));
    assert_eq!(manager.get_cached("giphy", "hug"), Ok("https://x/1.gif".to_string()));
    assert_eq!(
        manager.complete_fetch("giphy", "hug", Ok("https://x/2.gif".to_string())),
        Ok(())
    );
    assert_eq!(manager.get_cached("giphy", "hug"), Ok("https://x/2.gif".to_string()));
}

#[test]
fn never_fetched_is_not_cached() {
    let manager = giphy();
    assert_eq!(manager.get_cached("giphy", "hug"), Err(NotCachedError));
    assert_eq!(manager.get_cached("giphy", "wave"), Err(NotCachedError));
    assert_eq!(manager.get_cached("tenor", "hug"), Err(NotCachedError));
    assert_eq!(manager.get_cached("Giphy", "hug"), Err(NotCachedError));
}

#[test]
fn empty_registry_cannot_warm_up() {
    let mut manager = BackendManager::new(vec![]).unwrap();
    assert_eq!(manager.build_cache(), Err(BuildError::NothingToWarm));
}

#[test]
fn defective_configurations_are_turned_down() {
    assert_eq!(
        BackendManager::new(vec![backend("", &["hug"])]).err(),
        Some(InitError::EmptyBackendId)
    );
    assert_eq!(
        BackendManager::new(vec![backend("giphy", &[])]).err(),
        Some(InitError::NoEndpoints)
    );
    assert_eq!(
        BackendManager::new(vec![backend("giphy", &["hug", "slap", "hug"])]).err(),
        Some(InitError::DuplicateEndpoint)
    );
    assert_eq!(
        BackendManager::new(vec![backend("giphy", &["hug"]), backend("giphy", &["slap"])]).err(),
        Some(InitError::DuplicateBackend)
    );
}

#[test]
fn concurrent_refreshes_collapse_to_one_fetch() {
    let mut manager = giphy();
    let mut fetches = 0;
    for _ in 0..5 {
        if manager.refresh_cache("giphy", "hug") == Ok(RefreshAction::Fetch) {
            fetches += 1;
        }
    }
    assert_eq!(fetches, 1);
    assert_eq!(manager.refresh_cache("giphy", "slap"), Ok(RefreshAction::Fetch));
    assert_eq!(manager.refresh_cache("giphy", "hug"), Ok(RefreshAction::AlreadyInFlight));
    manager.complete_fetch("giphy", "hug", Ok("https://x/1.gif".to_string())).unwrap();
    assert_eq!(manager.get_cached("giphy", "hug"), Ok("https://x/1.gif".to_string()));
    assert_eq!(manager.refresh_cache("giphy", "hug"), Ok(RefreshAction::Fetch));
    assert_eq!(manager.refresh_cache("giphy", "hug"), Ok(RefreshAction::AlreadyInFlight));
}

#[test]
fn failed_refresh_keeps_the_old_address() {
    let mut manager = giphy();
    manager.refresh_cache("giphy", "hug").unwrap();
    manager.complete_fetch("giphy", "hug", Ok("https://x/1.gif".to_string())).unwrap();
    manager.refresh_cache("giphy", "hug").unwrap();
    assert_eq!(
        manager.complete_fetch("giphy", "hug", Err(FetchError::MalformedResponse)),
        Err(FetchError::MalformedResponse)
    );
    assert_eq!(manager.get_cached("giphy", "hug"), Ok("https://x/1.gif".to_string()));
    assert_eq!(manager.refresh_cache("giphy", "hug"), Ok(RefreshAction::Fetch));
    assert_eq!(
        manager.complete_fetch("giphy", "hug", Err(FetchError::NetworkFailure)),
        Err(FetchError::NetworkFailure)
    );
    assert_eq!(manager.get_cached("giphy", "hug"), Ok("https://x/1.gif".to_string()));
}

#[test]
fn failed_first_fetch_leaves_the_slot_empty() {
    let mut manager = giphy();
    manager.refresh_cache("giphy", "hug").unwrap();
    assert_eq!(
        manager.complete_fetch("giphy", "hug", Err(FetchError::NetworkFailure)),
        Err(FetchError::NetworkFailure)
    );
    assert_eq!(manager.get_cached("giphy", "hug"), Err(NotCachedError));
    assert_eq!(manager.refresh_cache("giphy", "hug"), Ok(RefreshAction::Fetch));
}

#[test]
fn value_is_served_until_the_next_success() {
    let mut manager = giphy();
    manager.complete_fetch("giphy", "hug", Ok("https://x/1.gif".to_string())).unwrap();
    for _ in 0..3 {
        assert_eq!(manager.get_cached("giphy", "hug"), Ok("https://x/1.gif".to_string()));
    }
    manager.complete_fetch("giphy", "slap", Ok("https://x/s.gif".to_string())).unwrap();
    manager.refresh_cache("giphy", "hug").unwrap();
    let _ = manager.build_cache();
    assert_eq!(manager.get_cached("giphy", "hug"), Ok("https://x/1.gif".to_string()));
    manager.complete_fetch("giphy", "hug", Ok("https://x/2.gif".to_string())).unwrap();
    assert_eq!(manager.get_cached("giphy", "hug"), Ok("https://x/2.gif".to_string()));
    assert_eq!(manager.get_cached("giphy", "slap"), Ok("https://x/s.gif".to_string()));
}

#[test]
fn unregistered_pairs_are_refused() {
    let mut manager = giphy();
    assert_eq!(manager.refresh_cache("tenor", "hug"), Err(FetchError::UnknownBackend));
    assert_eq!(manager.refresh_cache("giphy", "wave"), Err(FetchError::UnknownEndpoint));
    assert_eq!(
        manager.complete_fetch("tenor", "hug", Ok("https://x/1.gif".to_string())),
        Err(FetchError::UnknownBackend)
    );
    assert_eq!(
        manager.complete_fetch("giphy", "wave", Ok("https://x/1.gif".to_string())),
        Err(FetchError::UnknownEndpoint)
    );
    assert_eq!(
        manager.complete_fetch("giphy", "wave", Err(FetchError::NetworkFailure)),
        Err(FetchError::UnknownEndpoint)
    );
    assert_eq!(manager.get_cached("tenor", "hug"), Err(NotCachedError));
    assert_eq!(manager.get_cached("giphy", "wave"), Err(NotCachedError));
}

#[test]
fn warm_up_leaves_out_pairs_with_a_fetch_under_way() {
    let mut manager = giphy();
    assert_eq!(manager.refresh_cache("giphy", "slap"), Ok(RefreshAction::Fetch));
    assert_eq!(manager.build_cache(), Ok(vec![key("giphy", "hug")]));
    assert_eq!(manager.build_cache(), Ok(vec![]));
    assert_eq!(manager.refresh_cache("giphy", "hug"), Ok(RefreshAction::AlreadyInFlight));
    manager.complete_fetch("giphy", "hug", Err(FetchError::NetworkFailure)).unwrap_err();
    assert_eq!(manager.build_cache(), Ok(vec![key("giphy", "hug")]));
}

#[test]
fn warm_up_reports_may_come_in_any_order() {
    let mut manager = BackendManager::new(vec![
        backend("giphy", &["hug", "slap"]),
        backend("tenor", &["hug"]),
    ])
    .unwrap();
    let plan = manager.build_cache().unwrap();
    assert_eq!(plan, vec![key("giphy", "hug"), key("giphy", "slap"), key("tenor", "hug")]);
    manager.complete_fetch("tenor", "hug", Ok("https://t/h.gif".to_string())).unwrap();
    manager.complete_fetch("giphy", "slap", Err(FetchError::MalformedResponse)).unwrap_err();
    manager.complete_fetch("giphy", "hug", Ok("https://g/h.gif".to_string())).unwrap();
    assert_eq!(manager.get_cached("giphy", "hug"), Ok("https://g/h.gif".to_string()));
    assert_eq!(manager.get_cached("giphy", "slap"), Err(NotCachedError));
    assert_eq!(manager.get_cached("tenor", "hug"), Ok("https://t/h.gif".to_string()));
}
