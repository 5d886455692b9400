pub mod text;
pub mod strmap;
pub mod request;
pub mod http_parser;
pub mod router;
pub mod headers;
pub mod multipart;
pub mod css;
pub mod frontend;
pub mod auto;
pub mod auth;
pub mod etag;
pub mod buffer_ring;
pub mod perf;
pub mod pending;
pub mod compress;
pub mod pool;
pub mod config;
pub mod server;
pub mod websocket;
pub mod cli;
