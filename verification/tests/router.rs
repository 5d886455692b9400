use unique::request::Method;
use unique::router::{RouteMeta, RouteResolution, Router};

type R = Router<&'static str, (), ()>;

#[test]
fn routes_static_path() {
    let mut r = R::new();
    r.get("/hello", "hi").unwrap();
    match r.resolve(Method::Get, "/hello") {
        RouteResolution::Found { .. } => {}
        _ => panic!("expected Found"),
    }
}

#[test]
fn routes_with_param() {
    let mut r = R::new();
    r.get("/users/:id", "user").unwrap();
    match r.resolve(Method::Get, "/users/42") {
        RouteResolution::Found { params, .. } => {
            assert_eq!(params.get("id"), Some(&"42".to_string()));
        }
        _ => panic!("expected Found"),
    }
}

#[test]
fn routes_with_wildcard() {
    let mut r = R::new();
    r.get("/assets/*path", "asset").unwrap();
    match r.resolve(Method::Get, "/assets/css/app.css") {
        RouteResolution::Found { params, .. } => {
            assert_eq!(params.get("path"), Some(&"css/app.css".to_string()));
        }
        _ => panic!("expected Found"),
    }
}

#[test]
fn returns_method_not_allowed_for_known_path_wrong_method() {
    let mut r = R::new();
    r.get("/users", "list").unwrap();
    assert!(matches!(r.resolve(Method::Post, "/users"), RouteResolution::MethodNotAllowed));
}

#[test]
fn returns_not_found_for_unknown_path() {
    let mut r = R::new();
    r.get("/users", "list").unwrap();
    assert!(matches!(r.resolve(Method::Get, "/nope"), RouteResolution::NotFound));
}

#[test]
fn collects_all_registered_routes() {
    let mut r = R::new();
    r.get("/a", "a").unwrap();
    r.post("/b/:id", "b").unwrap();
    let routes = r.routes();
    assert_eq!(routes.len(), 2);
}

#[test]
fn duplicate_registration_replaces_handler_and_reports() {
    let mut r = R::new();
    r.get("/x", "first").unwrap();
    let err = r.get("/x", "second").unwrap_err();
    assert_eq!(err.message(), "Duplicate route: GET /x");
    match r.resolve(Method::Get, "/x") {
        RouteResolution::Found { handler, meta, .. } => {
            assert_eq!(*handler, "second");
            assert_eq!(meta.unwrap().path, "/x");
        }
        _ => panic!("expected Found"),
    }
    assert_eq!(r.routes().len(), 1);
}

#[test]
fn static_beats_param_and_param_backtracks_to_wildcard() {
    let mut r = R::new();
    r.get("/users/me", "me").unwrap();
    r.get("/users/:id", "by-id").unwrap();
    r.get("/files/:dir/list", "list").unwrap();
    r.get("/files/*rest", "rest").unwrap();
    match r.resolve(Method::Get, "/users/me") {
        RouteResolution::Found { handler, params, .. } => {
            assert_eq!(*handler, "me");
            assert!(params.is_empty());
        }
        _ => panic!(),
    }
    match r.resolve(Method::Get, "/files/a/b") {
        RouteResolution::Found { handler, params, .. } => {
            assert_eq!(*handler, "rest");
            assert_eq!(params.get("dir"), None);
            assert_eq!(params.get("rest"), Some(&"a/b".to_string()));
        }
        _ => panic!(),
    }
}

#[test]
fn metadata_middleware_fallback_and_websockets() {
    let mut r: Router<&'static str, u8, u8> = Router::new();
    let mut meta = RouteMeta::default();
    meta.path = "/docs".to_string();
    meta.method = Method::Put;
    meta.summary = Some("docs".to_string());
    r.add_with_meta(meta, "docs").unwrap();
    assert!(matches!(r.resolve(Method::Put, "/docs"), RouteResolution::Found { .. }));
    r.use_middleware(2);
    r.prepend_middleware(1);
    assert_eq!(r.middleware(), &[1, 2]);
    assert!(r.fallback().is_none());
    r.set_fallback("fb");
    assert_eq!(r.fallback(), Some(&"fb"));
    r.ws("/live", 7);
    r.ws("/live", 8);
    assert_eq!(r.ws_handler("/live"), Some(&8));
    assert_eq!(r.ws_handlers.len(), 1);
    assert_eq!(r.ws_handler("/other"), None);
}

#[test]
fn route_count_grows_only_on_fresh_registrations() {
    let mut r = R::new();
    r.get("/users", "list").unwrap();
    r.post("/users", "create").unwrap();
    r.get("/users/:id", "show").unwrap();
    r.get("/files/*rest", "file").unwrap();
    assert_eq!(r.routes().len(), 4);
    // A second registration of a method and pattern is not a new route.
    assert!(r.get("/users", "again").is_err());
    assert_eq!(r.routes().len(), 4);
}

#[test]
fn static_branch_without_a_route_falls_back_to_the_parameter() {
    let mut r = R::new();
    r.get("/users/:id", "show").unwrap();
    r.get("/users/me/settings", "settings").unwrap();
    match r.resolve(Method::Get, "/users/me") {
        RouteResolution::Found { handler, params, .. } => {
            assert_eq!(*handler, "show");
            assert_eq!(params.get("id").map(|s| s.as_str()), Some("me"));
        }
        _ => panic!("expected Found"),
    }
    match r.resolve(Method::Get, "/users/me/settings") {
        RouteResolution::Found { handler, .. } => assert_eq!(*handler, "settings"),
        _ => panic!("expected Found"),
    }
}
