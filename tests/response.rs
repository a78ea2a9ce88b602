use rum::response::{Body, Response, Status};

#[test]
fn status_codes() {
    assert_eq!(Status::NotFound.code(), 404);
    assert_eq!(Status::Code(418).code(), 418);
    assert!(Status::Created.ok());
    assert!(!Status::InternalServerError.ok());
    assert_eq!(Status::from_code(405), Status::MethodNotAllowed);
    assert_eq!(Status::from_code(302), Status::Code(302));
}

#[test]
fn new_response_defaults() {
    let r = Response::new();
    assert_eq!(r.status(), Status::Success);
    assert_eq!(r.get_header("content-type"), Some("text/plain".to_string()));
    assert_eq!(r.get_header("server"), Some("rwf".to_string()));
    assert_eq!(r.get_header("connection"), Some("keep-alive".to_string()));
}

#[test]
fn html_sets_length_and_type() {
    let r = Response::new().html("<h1>Hello world</h1>");
    assert_eq!(r.get_header("content-type"), Some("text/html".to_string()));
    assert_eq!(r.get_header("content-length"), Some("20".to_string()));
    let r = Response::new().text("é");
    assert_eq!(r.get_header("content-length"), Some("2".to_string()));
    let r = Response::new().body(Body::Bytes(vec![1, 2, 3]));
    assert_eq!(r.get_header("content-type"), Some("application/octet-stream".to_string()));
    assert_eq!(r.get_header("content-length"), Some("3".to_string()));
}

#[test]
fn header_names_are_lowercased() {
    let r = Response::new().text("don't cache me").header("Cache-Control", "no-cache");
    assert_eq!(r.get_header("cache-control"), Some("no-cache".to_string()));
    assert_eq!(r.get_header("Cache-Control"), None);
}

#[test]
fn code_changes_status() {
    let r = Response::new().text("Created your resource!").code(201);
    assert_eq!(r.status(), Status::Created);
}

#[test]
fn error_pages() {
    let r = Response::not_found();
    assert_eq!(r.status().code(), 404);
    assert_eq!(r.get_header("content-type"), Some("text/html".to_string()));
    assert_eq!(Response::method_not_allowed().status().code(), 405);
    assert_eq!(Response::bad_request().status().code(), 400);
    assert_eq!(Response::csrf_error().status().code(), 400);
    assert_eq!(Response::not_implemented().status().code(), 501);
    assert_eq!(Response::forbidden().status().code(), 403);
    assert_eq!(Response::content_too_large().status().code(), 413);
    assert_eq!(Response::too_many().status().code(), 429);
    assert_eq!(Response::internal_error("boom").status().code(), 500);
    let r = Response::error_pretty("Title", "Message");
    assert_eq!(r.status().code(), 500);
    assert_eq!(r.get_header("content-length"), Some("29".to_string()));
    let r = Response::unauthorized("Basic");
    assert_eq!(r.status().code(), 401);
    assert_eq!(r.get_header("www-authenticate"), Some("Basic".to_string()));
}

#[test]
fn redirect_response() {
    let r = Response::new().redirect("/login");
    assert_eq!(r.status().code(), 302);
    assert_eq!(r.get_header("location"), Some("/login".to_string()));
    assert_eq!(r.get_header("content-length"), Some("0".to_string()));
    assert_eq!(r.get_header("cache-control"), Some("no-cache".to_string()));
}

#[test]
fn websocket_upgrade_detection() {
    let r = Response::switching_protocols("websocket");
    assert!(r.websocket_upgrade());
    assert_eq!(r.get_header("server"), None);
    assert!(!Response::switching_protocols("h2c").websocket_upgrade());
    assert!(!Response::new().header("upgrade", "websocket").websocket_upgrade());
}

#[test]
fn default_response_is_new() {
    let r = Response::default();
    assert_eq!(r.status(), Status::Success);
    assert_eq!(r.get_header("content-type"), Some("text/plain".to_string()));
}
