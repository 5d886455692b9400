use unique::auto::{
    capitalize, derive_interface_name, derive_route_path, generate_types, page_route_meta, register_page,
};
use unique::request::Method;
use unique::router::{RouteMeta, Router};

#[test]
fn derives_route_paths() {
    assert_eq!(derive_route_path("index.kungfu"), "/");
    assert_eq!(derive_route_path("about.kungfu"), "/about");
    assert_eq!(derive_route_path("users/[id].kungfu"), "/users/:id");
    assert_eq!(derive_route_path("assets/[...path].kungfu"), "/assets/*path");
}

#[test]
fn generates_types() {
    let mut meta = RouteMeta::default();
    meta.path = "/hello".to_string();
    meta.method = Method::Get;
    let routes = vec![meta];
    let ts = generate_types(&routes);
    assert!(ts.contains("interface GetHello"));
    assert!(ts.contains("path: '/hello'"));
}

#[test]
fn interface_names_follow_segments() {
    let m = page_route_meta("/users/:id/*rest");
    assert_eq!(derive_interface_name(&m), "GetUsersByIdStarRest");
    assert_eq!(capitalize("hello"), "Hello");
    assert_eq!(capitalize(""), "");
    assert_eq!(capitalize("émile"), "Émile");
}

#[test]
fn nested_index_and_backslashes() {
    assert_eq!(derive_route_path("blog\\index.kungfu"), "/blog");
    assert_eq!(derive_route_path("a/b/"), "/a/b");
}

#[test]
fn writes_routes_types_file() {
    let mut meta = page_route_meta("/hello");
    meta.method = Method::Get;
    let ts = generate_types(&[meta]);
    assert!(ts.contains("interface GetHello"));
}

#[test]
fn registers_auto_pages() {
    let mut router: Router<&'static str, (), ()> = Router::new();
    register_page(&mut router, "users/[id].kungfu", "page").unwrap();
    register_page(&mut router, "index.kungfu", "home").unwrap();
    let routes = router.routes();
    let paths: Vec<_> = routes.iter().map(|r| r.path.as_str()).collect();
    assert!(paths.contains(&"/users/:id"));
    assert!(paths.contains(&"/"));
    assert!(routes.iter().all(|r| r.tags == vec!["pages".to_string()]));
    assert!(register_page(&mut router, "index.kungfu", "again").is_err());
}
