use miniserve::renderer::{
    render_body, render_link, render_navbar, render_page, render_route, strip_underscores,
};
use miniserve::router::{Route, RouteMap};

const STYLE: &str = "body { margin: 0 auto; }";

#[test]
fn render_html_link() {
    let route = "/test";
    let title = "test";
    let expected = String::from("<a href=\"/test\">test</a>");
    let result = render_link(&route, &title);
    assert_eq!(expected, result);
}

#[test]
fn strip_underscores_from_string() {
    let expected = String::from("One Two Three");
    let result = strip_underscores("One_Two_Three");
    assert_eq!(expected, result);
}

#[test]
fn render_single_page_body() {
    let route = &Route::Page("<h1>test</h1>".into());
    let result = render_body(route, "/");
    let expected = String::from("<h1>test</h1>");
    assert_eq!(expected, result);
}

#[test]
fn render_navbar_from_routes() {
    let mut routes = RouteMap::new();
    routes.insert("index".into(), Route::Page(String::new()));
    routes.insert("test-header".into(), Route::Page(String::new()));
    let result = render_navbar(&routes);
    let expected = "<nav><a href=\"/\">Home</a><a href=\"/test-header\">test-header</a></nav>";

    assert_eq!(expected, result);
}

#[test]
fn render_whole_page() {
    let mut header_routes = RouteMap::new();
    header_routes.insert("index".into(), Route::Page(String::new()));
    header_routes.insert("test-header".into(), Route::Page(String::new()));

    let body = "<h1>body</h1>";
    let title = "Title";

    let result = render_page(&header_routes, body, title, STYLE);

    // Asserting on the entire output string is messy - testing for key elements should be enough.
    assert!(result.contains("<h1>body</h1>"));
    assert!(result.contains("Title"));
    assert!(result.contains("<a href=\"/\">Home</a>"));
    assert!(result.contains("<a href=\"/test-header\">test-header</a>"));
    assert!(result.contains(STYLE));
}

#[test]
fn whole_page_is_laid_out_exactly() {
    let mut header_routes = RouteMap::new();
    header_routes.insert("index".into(), Route::Page(String::new()));
    let result = render_page(&header_routes, "B", "T", "S");
    let expected = "\n\t<!DOCTYPE HTML>\n\t<head>\n\t\t<meta name=\"viewport\" content=\"width=device-width, initial-scale=1.0\" />\n\t\t<style>\n\t\t\tS\n\t\t</style>\n\t\t<title>T</title>\n\t</head>\n\t<body>\n\t\t<nav><a href=\"/\">Home</a></nav>\n\t\tB\n\t</body>";
    assert_eq!(result, expected);
}

#[test]
fn route_is_rendered_under_the_fixed_title() {
    let mut header_routes = RouteMap::new();
    header_routes.insert("index".into(), Route::Page(String::new()));
    let result = render_route(&Route::Page("B".into()), "/index", &header_routes, "S");
    assert_eq!(result, render_page(&header_routes, "B", "Miniserve", "S"));
    assert!(result.contains("<title>Miniserve</title>"));
}

#[test]
fn directory_body_lists_children_in_order() {
    let mut dir = RouteMap::new();
    dir.insert("second_post".into(), Route::Page(String::new()));
    dir.insert("first".into(), Route::Page(String::new()));
    let result = render_body(&Route::Directory(dir), "/posts");
    let expected = "<ul><li><a href=\"/posts/first\">first</a></li><li><a href=\"/posts/second_post\">second post</a></li></ul>";
    assert_eq!(result, expected);
}

#[test]
fn empty_directory_body_is_an_empty_list() {
    let result = render_body(&Route::Directory(RouteMap::new()), "/x");
    assert_eq!(result, "<ul></ul>");
}

#[test]
fn navbar_without_routes_has_only_home() {
    assert_eq!(
        render_navbar(&RouteMap::new()),
        "<nav><a href=\"/\">Home</a></nav>"
    );
}

#[test]
fn strip_underscores_drops_white_space_at_the_end() {
    assert_eq!(strip_underscores(""), "");
    assert_eq!(strip_underscores("a_"), "a");
    assert_eq!(strip_underscores("___"), "");
    assert_eq!(strip_underscores("_a__b"), " a  b");
    assert_eq!(strip_underscores("a \t\n"), "a");
    assert_eq!(strip_underscores("a\u{3000}_\u{a0}"), "a");
    assert_eq!(strip_underscores(" a b"), " a b");
    assert_eq!(strip_underscores("x\u{200b}"), "x\u{200b}");
}
