use miniserve::http::{ContentType, HTTPResponse};
use miniserve::markup::Markup;
use miniserve::renderer::render_route;
use miniserve::router::{parse_route, Route, RouteMap};
use miniserve::server::{Reply, RequestError, Server};
use miniserve::site::{FileText, SiteDir, SiteEntry, SiteNode};

const STYLE: &str = "p { color: black; }";

fn file(name: &str, text: &str) -> SiteEntry {
    SiteEntry {
        name: Some(name.to_string()),
        node: SiteNode::File(FileText::Text(text.to_string())),
    }
}

fn server() -> Server {
    let site = SiteDir {
        entries: vec![
            file("index.md", "# Home"),
            SiteEntry {
                name: Some("posts".to_string()),
                node: SiteNode::Directory(SiteDir {
                    entries: vec![file("first.md", "hello")],
                    complete: true,
                }),
            },
        ],
        complete: true,
    };
    Server::new(&site, "site", Markup::Blocks, STYLE).unwrap()
}

fn routes() -> RouteMap {
    let mut posts = RouteMap::new();
    posts.insert("first".to_string(), Route::Page("<p>hello</p>".to_string()));
    let mut routes = RouteMap::new();
    routes.insert("index".to_string(), Route::Page("<h1>Home</h1>".to_string()));
    routes.insert("posts".to_string(), Route::Directory(posts));
    routes
}

fn page(path: &str) -> HTTPResponse {
    let routes = routes();
    let route = parse_route(path, &routes).unwrap();
    let body = render_route(&route, path, &routes, STYLE);
    HTTPResponse::okay(Some(ContentType::HTML), body.into_bytes())
}

#[test]
fn request_for_a_page_is_answered_with_the_page() {
    let answer = server().handle_connection("GET /posts/first HTTP/1.1\r\n");
    assert_eq!(answer, Ok(Reply::Respond(page("/posts/first"))));
    let answer = server().handle_connection("GET / HTTP/1.1\r\n");
    assert_eq!(answer, Ok(Reply::Respond(page("/"))));
}

#[test]
fn request_for_a_directory_is_answered_with_its_listing() {
    let answer = server().handle_connection("GET /posts HTTP/1.1\r\n");
    assert_eq!(answer, Ok(Reply::Respond(page("/posts"))));
    match answer {
        Ok(Reply::Respond(response)) => {
            let body = String::from_utf8(response.body).unwrap();
            assert!(body.contains("<ul><li><a href=\"/posts/first\">first</a></li></ul>"));
            assert!(body.contains(STYLE));
        }
        other => panic!("{:?}", other),
    }
}

#[test]
fn request_for_a_missing_route_is_answered_with_not_found() {
    let answer = server().handle_connection("GET /nothing HTTP/1.1\r\n");
    let expected = HTTPResponse::not_found(None, b"404 // Resource not found".to_vec());
    assert_eq!(answer, Ok(Reply::Respond(expected)));
    assert_eq!(server().respond("/posts/second").status_string, "HTTP/1.1 404 Not Found ");
}

#[test]
fn request_line_without_a_path_is_refused() {
    assert_eq!(server().handle_connection(""), Err(RequestError::Empty));
    assert_eq!(server().handle_connection("GET"), Err(RequestError::Empty));
    assert!(server().handle_connection("GET ").is_ok());
}

#[test]
fn request_for_a_path_with_an_extension_asks_for_the_file() {
    let answer = server().handle_connection("GET /img/logo.png HTTP/1.1\r\n");
    assert_eq!(
        answer,
        Ok(Reply::File { path: "/img/logo.png".to_string(), extension: "png".to_string() })
    );
}

#[test]
fn dispatch_goes_by_the_extension_it_is_given() {
    assert_eq!(
        server().dispatch("/index", Some("css".to_string())),
        Reply::File { path: "/index".to_string(), extension: "css".to_string() }
    );
    assert_eq!(server().dispatch("/index", None), Reply::Respond(page("/index")));
}

#[test]
fn files_are_wrapped_by_their_extension() {
    let bytes = vec![1u8, 2, 3];
    assert_eq!(
        Server::load_file_response(Some("png"), bytes.clone()),
        HTTPResponse::okay(Some(ContentType::Image), bytes.clone())
    );
    assert_eq!(
        Server::load_file_response(Some("ico"), bytes.clone()),
        HTTPResponse::okay(Some(ContentType::Image), bytes.clone())
    );
    assert_eq!(
        Server::load_file_response(Some("css"), bytes.clone()),
        HTTPResponse::okay(Some(ContentType::HTML), bytes.clone())
    );
    assert_eq!(
        Server::load_file_response(None, bytes.clone()),
        HTTPResponse::okay(None, bytes.clone())
    );
}

#[test]
fn served_tree_is_the_built_tree() {
    assert_eq!(server().route_map(), &routes());
    assert!(server().route_map().contains_key("index"));
}
