use reactions::store::CacheKey;
use reactions::store::CacheStore;

fn key(backend: &str, endpoint: &str) -> CacheKey {
    CacheKey::new(backend, endpoint)
}

#[test]
fn key_holds_both_names() {
    let k = key("giphy", "hug");
    assert_eq!(k.backend_id, "giphy");
    assert_eq!(k.endpoint_id, "hug");
    assert!(k.same_as(&key("giphy", "hug")));
    assert!(!k.same_as(&key("giphy", "Hug")));
    assert!(!k.same_as(&key("tenor", "hug")));
    assert!(!k.same_as(&key("giphyh", "ug")));
    assert_eq!(k.clone(), k);
}

#[test]
fn empty_store_holds_nothing() {
    let store = CacheStore::new();
    assert_eq!(store.get(&key("giphy", "hug")), None);
    assert!(!store.is_refreshing(&key("giphy", "hug")));
    assert_eq!(store.keys(), Vec::<CacheKey>::new());
}

#[test]
fn put_then_get_returns_the_value() {
    let mut store = CacheStore::new();
    store.put(key("giphy", "hug"), "https://x/1.gif".to_string());
    assert_eq!(store.get(&key("giphy", "hug")), Some("https://x/1.gif".to_string()));
    assert_eq!(store.get(&key("giphy", "slap")), None);
    assert_eq!(store.get(&key("hug", "giphy")), None);
}

#[test]
fn put_overwrites_and_keeps_one_entry() {
    let mut store = CacheStore::new();
    store.put(key("giphy", "hug"), "https://x/1.gif".to_string());
    store.put(key("giphy", "slap"), "https://x/s.gif".to_string());
    store.put(key("giphy", "hug"), "https://x/2.gif".to_string());
    assert_eq!(store.get(&key("giphy", "hug")), Some("https://x/2.gif".to_string()));
    assert_eq!(store.get(&key("giphy", "slap")), Some("https://x/s.gif".to_string()));
    assert_eq!(store.keys(), vec![key("giphy", "hug"), key("giphy", "slap")]);
}

#[test]
fn declare_makes_an_empty_slot_once() {
    let mut store = CacheStore::new();
    store.declare(key("giphy", "hug"));
    assert_eq!(store.get(&key("giphy", "hug")), None);
    assert_eq!(store.keys(), vec![key("giphy", "hug")]);
    store.put(key("giphy", "hug"), "https://x/1.gif".to_string());
    store.declare(key("giphy", "hug"));
    assert_eq!(store.get(&key("giphy", "hug")), Some("https://x/1.gif".to_string()));
    assert_eq!(store.keys(), vec![key("giphy", "hug")]);
}

#[test]
fn marker_is_kept_apart_from_the_value() {
    let mut store = CacheStore::new();
    store.set_refreshing(&key("giphy", "hug"), true);
    assert!(!store.is_refreshing(&key("giphy", "hug")));
    assert_eq!(store.keys(), Vec::<CacheKey>::new());
    store.declare(key("giphy", "hug"));
    store.set_refreshing(&key("giphy", "hug"), true);
    assert!(store.is_refreshing(&key("giphy", "hug")));
    assert_eq!(store.get(&key("giphy", "hug")), None);
    store.put(key("giphy", "hug"), "https://x/1.gif".to_string());
    assert!(store.is_refreshing(&key("giphy", "hug")));
    assert_eq!(store.get(&key("giphy", "hug")), Some("https://x/1.gif".to_string()));
    store.set_refreshing(&key("giphy", "hug"), false);
    assert!(!store.is_refreshing(&key("giphy", "hug")));
    assert_eq!(store.get(&key("giphy", "hug")), Some("https://x/1.gif".to_string()));
}

#[test]
fn keys_come_in_the_order_of_declaration() {
    let mut store = CacheStore::new();
    store.declare(key("b", "2"));
    store.put(key("a", "1"), "u".to_string());
    store.declare(key("c", "3"));
    store.put(key("b", "2"), "v".to_string());
    assert_eq!(store.keys(), vec![key("b", "2"), key("a", "1"), key("c", "3")]);
}
