//! A small static-site server, as a library: a directory of Markdown files
//! becomes a tree of routes, a request path is resolved in that tree, and
//! what it names is rendered as an HTML page.
//!
//! The functions here are proved against their contracts; the few that rest
//! on outside code say so. Reading the disk and the network is left to the
//! program around the library, which hands in what it read as plain values.

pub mod http;
pub mod markup;
pub mod md_parser;
pub mod renderer;
pub mod router;
pub mod server;
pub mod site;
pub mod text;
