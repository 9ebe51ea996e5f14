//! The server's decisions: whether a site can be served at all, and what
//! answers a request line. Reading the request and the files, and writing
//! the answer, are left to the caller.

use crate::http::{response_of, ContentType, HTTPResponse, ResponseView, Status};
use crate::markup::Markup;
use crate::renderer::{body_html, page_html, render_route, TITLE};
use crate::router::{parse_route, resolve, sorted_names, RouteMap, Tree};
use crate::site::{load_routes_from_disk, tree_of, Failure, SiteDir};
use crate::text::{same_text, split, split_on};
use vstd::prelude::*;
use vstd::utf8::encode_utf8;

verus! {

/// A site that is ready to be served: its content tree, which has an
/// `index` at the top, and the style sheet of its pages.
pub struct Server {
    route_map: RouteMap,
    style: String,
}

/// Why a request line could not be answered.
#[derive(Clone, Copy, Debug, PartialEq, Eq, Structural)]
pub enum RequestError {
    /// The line names no path.
    Empty,
}

/// What the server answers to a request.
#[derive(Debug, PartialEq, Eq)]
pub enum Reply {
    /// A response that is ready to be sent.
    Respond(HTTPResponse),
    /// The file at `path` is to be read and sent as it is; the path's
    /// extension is `extension`.
    File { path: String, extension: String },
}

/// What a `Reply` stands for.
pub ghost enum ReplyView {
    Respond(ResponseView),
    File { path: Seq<char>, extension: Seq<char> },
}

impl View for Reply {
    type V = ReplyView;

    open spec fn view(&self) -> ReplyView {
        match self {
            Reply::Respond(response) => ReplyView::Respond(response@),
            Reply::File { path, extension } => ReplyView::File {
                path: path@,
                extension: extension@,
            },
        }
    }
}

/// The text of an extension, where there is one.
pub open spec fn text_of(extension: Option<String>) -> Option<Seq<char>> {
    match extension {
        Some(ext) => Some(ext@),
        None => None,
    }
}

/// The content type of a static file, by the extension of its path.
pub open spec fn file_content_type(extension: Option<Seq<char>>) -> Option<ContentType> {
    match extension {
        Some(ext) => if ext == "ico"@ || ext == "png"@ {
            Some(ContentType::Image)
        } else {
            Some(ContentType::HTML)
        },
        None => None,
    }
}

/// The response to a request for the route at `path`: the route's page,
/// or "not found" where the path resolves to nothing.
pub open spec fn route_response(routes: Tree, style: Seq<char>, path: Seq<char>) -> ResponseView {
    match resolve(routes, path) {
        Some(route) => response_of(
            Status::Okay,
            Some(ContentType::HTML),
            encode_utf8(page_html(sorted_names(routes), body_html(route, path), TITLE@, style)),
        ),
        None => response_of(Status::NotFound, None, encode_utf8("404 // Resource not found"@)),
    }
}

/// The answer to a request for `path`, whose extension is `extension`: a
/// path with an extension asks for a file, any other path for a route.
pub open spec fn reply_to(
    routes: Tree,
    style: Seq<char>,
    path: Seq<char>,
    extension: Option<Seq<char>>,
) -> ReplyView {
    match extension {
        Some(ext) => ReplyView::File { path, extension: ext },
        None => ReplyView::Respond(route_response(routes, style, path)),
    }
}

/// `Path::extension` of the standard library, on a path given as text: the
/// extension of the path's last component, if the library finds one. How a
/// path falls into components depends on the platform, so nothing is
/// claimed of the result.
#[verifier::external_body]
fn path_extension(path: &str) -> (extension: Option<String>) {
    std::path::Path::new(path).extension().map(|ext| ext.to_string_lossy().into_owned())
}

impl Server {
    /// No server stands without an `index` at the top of its tree.
    #[verifier::type_invariant]
    spec fn has_index(&self) -> bool {
        self.route_map@.contains_key("index"@)
    }

    /// The content tree that is served.
    pub closed spec fn routes(&self) -> Tree {
        self.route_map@
    }

    /// The style sheet of the pages.
    pub closed spec fn style(&self) -> Seq<char> {
        self.style@
    }

    /// A server for the site whose snapshot is `dir`. There is none where
    /// the tree cannot be built, and none where it can be built and has no
    /// `index` at the top.
    pub fn new(dir: &SiteDir, path: &str, markup: Markup, style: &str) -> (server: Option<Self>)
        ensures
            server is Some <==> (tree_of(*dir, path@, markup) matches Ok(tree)
                && tree.contains_key("index"@)),
            server matches Some(s) ==> tree_of(*dir, path@, markup) == Ok::<Tree, Failure>(
                s.routes(),
            ) && s.style() == style@,
    {
        match load_routes_from_disk(dir, path, markup) {
            Ok(route_map) => Self::with_routes(route_map, style),
            Err(_) => None,
        }
    }

    /// A server for a tree that is already built. A tree without an `index`
    /// at the top is not served.
    pub fn with_routes(route_map: RouteMap, style: &str) -> (server: Option<Self>)
        ensures
            server is Some <==> route_map@.contains_key("index"@),
            server matches Some(s) ==> s.routes() == route_map@ && s.style() == style@,
    {
        if !route_map.contains_key("index") {
            return None;
        }
        Some(Server { route_map, style: style.to_owned() })
    }

    /// The content tree that is served. It has an `index` at the top.
    pub fn route_map(&self) -> (route_map: &RouteMap)
        ensures
            route_map@ == self.routes(),
            self.routes().contains_key("index"@),
    {
        proof {
            use_type_invariant(self);
        }
        &self.route_map
    }

    /// Answers a request line. The path is the line's second
    /// space-delimited part; a line with fewer parts is refused.
    pub fn handle_connection(&self, request: &str) -> (answer: Result<Reply, RequestError>)
        ensures
            answer is Err <==> split_on(request@, " "@).len() < 2,
            answer matches Ok(reply) ==> exists|extension: Option<Seq<char>>|
                reply@ == reply_to(
                    self.routes(),
                    self.style(),
                    split_on(request@, " "@)[1],
                    extension,
                ),
    {
        let parts = split(request, " ");
        if parts.len() < 2 {
            return Err(RequestError::Empty);
        }
        let path = parts[1].as_str();
        let extension = path_extension(path);
        let ghost found = text_of(extension);
        let reply = self.dispatch(path, extension);
        proof {
            assert(reply@ == reply_to(
                self.routes(),
                self.style(),
                split_on(request@, " "@)[1],
                found,
            ));
        }
        Ok(reply)
    }

    /// Answers a request for `path`, whose extension is `extension`.
    pub fn dispatch(&self, path: &str, extension: Option<String>) -> (reply: Reply)
        ensures
            reply@ == reply_to(self.routes(), self.style(), path@, text_of(extension)),
    {
        match extension {
            Some(extension) => Reply::File { path: path.to_owned(), extension },
            None => Reply::Respond(self.respond(path)),
        }
    }

    /// The response to a request for the route at `path`.
    pub fn respond(&self, path: &str) -> (response: HTTPResponse)
        ensures
            response@ == route_response(self.routes(), self.style(), path@),
    {
        match parse_route(path, &self.route_map) {
            Some(route) => {
                let body = render_route(&route, path, &self.route_map, self.style.as_str());
                HTTPResponse::okay(Some(ContentType::HTML), body.as_str().as_bytes_vec())
            },
            None => HTTPResponse::not_found(None, "404 // Resource not found".as_bytes_vec()),
        }
    }

    /// Wraps the contents of a static file in a response. Icons and PNG
    /// images are sent as images, every other file as HTML.
    pub fn load_file_response(extension: Option<&str>, contents: Vec<u8>) -> (response:
        HTTPResponse)
        ensures
            response@ == response_of(
                Status::Okay,
                file_content_type(
                    match extension {
                        Some(ext) => Some(ext@),
                        None => None,
                    },
                ),
                contents@,
            ),
    {
        let content_type = match extension {
            Some(ext) => if same_text(ext, "ico") || same_text(ext, "png") {
                Some(ContentType::Image)
            } else {
                Some(ContentType::HTML)
            },
            None => None,
        };
        HTTPResponse::okay(content_type, contents)
    }
}

} // verus!
