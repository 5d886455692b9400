use unique::frontend::parser::{derive_route_path, parse_kungfu_file, ParseError};
use unique::frontend::register_page;
use unique::router::Router;

#[test]
fn parses_simple_kungfu_file() {
    let content = r#"
export async function data(req) {
  return { user: { name: 'Bruce' } };
}

export function template({ user }) {
  return `<div>Hello, ${user.name}!</div>`;
}
"#;
    let file = parse_kungfu_file(content, "src/pages/index.kungfu").unwrap();
    assert!(file.code.contains("export async function data"));
    assert!(file.code.contains("export function template"));
    assert!(file.static_html.is_none());
    assert_eq!(file.route_path, "/");
}

#[test]
fn parses_kungfu_file_with_static_html() {
    let content = r#"
export async function data() { return {}; }
export function template() { return '<main>hi</main>'; }
---
<footer>© 2026</footer>
"#;
    let file = parse_kungfu_file(content, "src/pages/index.kungfu").unwrap();
    assert!(file.static_html.is_some());
    assert!(file.static_html.as_ref().unwrap().contains("footer"));
}

#[test]
fn derives_route_path_with_params() {
    let file = parse_kungfu_file(
        "export function data() { return {}; }\nexport function template() { return ''; }",
        "src/pages/users/[id].kungfu",
    )
    .unwrap();
    assert_eq!(file.route_path, "/users/:id");
}

#[test]
fn errors_on_missing_data_export() {
    let content = "export function template() { return ''; }";
    let result = parse_kungfu_file(content, "src/pages/index.kungfu");
    assert!(matches!(result, Err(ParseError::MissingDataExport)));
}

#[test]
fn reports_missing_template_and_missing_exports() {
    let r = parse_kungfu_file("export function data() {}", "a.kungfu");
    assert!(matches!(r, Err(ParseError::MissingTemplateExport)));
    let r = parse_kungfu_file("const x = 1;", "a.kungfu");
    match r {
        Err(e @ ParseError::Syntax(_)) => assert_eq!(
            e.message(),
            "syntax error: no exports found \u{2014} `.kungfu` files must export `data` and `template`"
        ),
        _ => panic!("expected a syntax error"),
    }
}

#[test]
fn page_routes_from_paths() {
    assert_eq!(derive_route_path("./src/pages/about.kungfu"), "/about");
    assert_eq!(derive_route_path("pages/users/index.kungfu"), "/users");
    assert_eq!(derive_route_path("src/pages/blog/[slug]/edit.kungfu"), "/blog/:slug/edit");
    assert_eq!(derive_route_path("src/pages/docs/"), "/docs");
}

#[test]
fn registers_pages_from_directory() {
    let page = "export function data() { return {}; }\nexport function template() { return ''; }";
    let mut router: Router<&'static str, (), ()> = Router::new();
    let mut count = 0;
    for rel in ["index.kungfu", "users/[id].kungfu"] {
        if register_page(&mut router, rel, page, "page") {
            count += 1;
        }
    }
    assert_eq!(count, 2);
    let routes = router.routes();
    let paths: Vec<_> = routes.iter().map(|r| r.path.as_str()).collect();
    assert!(paths.contains(&"/"));
    assert!(paths.contains(&"/users/:id"));
}

#[test]
fn pages_that_do_not_parse_are_skipped() {
    let mut router: Router<&'static str, (), ()> = Router::new();
    assert!(!register_page(&mut router, "broken.kungfu", "no exports here", "page"));
    assert!(router.routes().is_empty());
}

#[test]
fn catch_all_pages_become_wildcard_routes() {
    assert_eq!(derive_route_path("src/pages/assets/[...path].kungfu"), "/assets/*path");
    let page = "export function data() { return {}; }\nexport function template() { return ''; }";
    let mut router: Router<&'static str, (), ()> = Router::new();
    assert!(register_page(&mut router, "assets/[...path].kungfu", page, "page"));
    let routes = router.routes();
    assert_eq!(routes.len(), 1);
    assert_eq!(routes[0].path, "/assets/*path");
}
