use rum::cache::Templates;
use rum::server::Server;

#[test]
fn server_keeps_handlers_in_order() {
    let server = Server::new(vec!["a", "b"]);
    assert_eq!(server.handler_count(), 2);
    assert_eq!(*server.handler(1), "b");
}

#[test]
fn log_name_drops_first_segment() {
    assert_eq!(Server::<u8>::log_name("crate::users::List"), "users::List");
    assert_eq!(Server::<u8>::log_name("plain"), "");
    assert_eq!(Server::<u8>::log_name("a:::b"), ":b");
}

#[test]
fn template_cache_stores_and_replaces() {
    let mut cache: Templates<u32> = Templates::new();
    assert_eq!(cache.cached("index.html"), None);
    cache.store("index.html", 1);
    cache.store("about.html", 2);
    cache.store("index.html", 3);
    assert_eq!(cache.cached("index.html"), Some(&3));
    assert_eq!(cache.cached("about.html"), Some(&2));
    assert_eq!(cache.cached("missing.html"), None);
}
