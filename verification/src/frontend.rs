//! Pages of the frontend: `.kungfu` files, their routes, and the dev-mode
//! and rendering settings around them.
pub mod parser;

use vstd::prelude::*;
use crate::auto::{forward_slash_chars, forward_slashes, page_meta, page_route_meta};
use crate::frontend::parser::{page_parse, parse_kungfu_file};
use crate::request::Method;
use crate::router::{lemma_registered_as, path_pattern, registered_as, route_at, Router};
use crate::text::{push_str, string_from_chars, to_string};

verus! {

/// Registers a page file found at `rel` below the pages directory, with
/// content `content`, as a `GET` route served by `handler`. A file that
/// does not parse is skipped. Returns whether the page was registered (a
/// route already registered there keeps its metadata and takes the new
/// handler).
pub fn register_page<H, M, W>(router: &mut Router<H, M, W>, rel: &str, content: &str, handler: H) -> (r: bool)
    ensures
        r == page_parse(content@, forward_slashes(rel@)) is Ok,
        r ==> registered_as(
            old(router).trie(),
            final(router).trie(),
            path_pattern(page_parse(content@, forward_slashes(rel@))->Ok_0.2),
            Method::Get,
            handler,
            page_meta(page_parse(content@, forward_slashes(rel@))->Ok_0.2),
        ),
        !r ==> final(router).trie() == old(router).trie(),
        final(router).chain() == old(router).chain(),
        final(router).fallback_handler() == old(router).fallback_handler(),
        final(router).ws_entries() == old(router).ws_entries(),
{
    let rel_str = string_from_chars(&forward_slash_chars(rel));
    match parse_kungfu_file(content, rel_str.as_str()) {
        Ok(file) => {
            let meta = page_route_meta(file.route_path.as_str());
            let ghost on = router.trie();
            let ghost mt = meta;
            let _ = router.add_with_meta(meta, handler);
            proof {
                lemma_registered_as(on, router.trie(), path_pattern(file.route_path@), Method::Get, handler, mt);
            }
            true
        },
        Err(_) => false,
    }
}

/// Dev-mode settings.
#[derive(Debug, Clone)]
pub struct DevModeConfig {
    /// Directories watched for changes (each change triggers a reload).
    pub watch_paths: Vec<String>,
    /// Where the generated `routes.d.ts` is written.
    pub routes_types_path: Option<String>,
    /// Whether SSR pages get the live-reload script.
    pub inject_livereload: bool,
}

impl Default for DevModeConfig {
    fn default() -> (r: DevModeConfig)
        ensures
            crate::text::strings_view(r.watch_paths@) == seq!["src"@, "routes"@],
            r.routes_types_path matches Some(p) && p@ == "frontend/routes.d.ts"@,
            r.inject_livereload,
    {
        let mut watch_paths: Vec<String> = Vec::new();
        watch_paths.push(to_string("src"));
        watch_paths.push(to_string("routes"));
        assert(crate::text::strings_view(watch_paths@) =~= seq!["src"@, "routes"@]);
        DevModeConfig {
            watch_paths,
            routes_types_path: Some(to_string("frontend/routes.d.ts")),
            inject_livereload: true,
        }
    }
}

impl DevModeConfig {
    /// Settings watching `watch_paths` and writing route types to
    /// `routes_types_path`, with live reload injected.
    pub fn watching(watch_paths: Vec<String>, routes_types_path: Option<String>) -> (r: DevModeConfig)
        ensures
            r.watch_paths == watch_paths,
            r.routes_types_path == routes_types_path,
            r.inject_livereload,
    {
        DevModeConfig { watch_paths, routes_types_path, inject_livereload: true }
    }
}

/// Why rendering a page through the JavaScript runtime failed.
#[derive(Debug)]
pub enum SsrError {
    Io(String),
    Spawn(String),
    Execution(String),
}

/// The message of a rendering error.
pub open spec fn ssr_error_text(e: SsrError) -> Seq<char> {
    match e {
        SsrError::Io(s) => "IO error: "@ + s@,
        SsrError::Spawn(s) => "spawn error: "@ + s@,
        SsrError::Execution(s) => "execution error: "@ + s@,
    }
}

impl SsrError {
    /// The error's message.
    pub fn message(&self) -> (r: String)
        ensures
            r@ == ssr_error_text(*self),
    {
        let (head, body) = match self {
            SsrError::Io(s) => ("IO error: ", s),
            SsrError::Spawn(s) => ("spawn error: ", s),
            SsrError::Execution(s) => ("execution error: ", s),
        };
        let mut m = to_string(head);
        push_str(&mut m, body.as_str());
        m
    }
}


/// What a finished render gives: the printed HTML when the runtime exited
/// successfully, otherwise an `Execution` error naming the exit status and
/// the trimmed error output.
pub fn ssr_outcome(success: bool, stdout: String, status: &str, stderr: &str) -> (r: Result<String, SsrError>)
    ensures
        success ==> (r matches Ok(h) && h@ == stdout@),
        !success ==> (r matches Err(SsrError::Execution(m)) && m@ == "node exited with status "@
            + status@ + ": "@ + crate::text::trim(stderr@)),
{
    if success {
        Ok(stdout)
    } else {
        let mut m = to_string("node exited with status ");
        push_str(&mut m, status);
        push_str(&mut m, ": ");
        let ec = crate::text::chars_of(stderr);
        let t = crate::text::trimmed(&ec);
        push_str(&mut m, t.as_str());
        Err(SsrError::Execution(m))
    }
}

} // verus!
