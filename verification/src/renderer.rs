//! The presentation of routes: a page's own HTML or a listing of a
//! directory's children, set into a page with a navigation bar above it.
//! The style sheet is handed in by the caller.

use crate::router::{sorted_names, Route, RouteMap, RouteView};
use crate::text::texts;
use crate::text::{is_whitespace, same_text, to_chars, trim_end, white_space};
use vstd::prelude::*;

verus! {

/// The title that every rendered page carries.
pub const TITLE: &'static str = "Miniserve";

/// A page up to its style sheet.
pub const PAGE_OPEN: &'static str = "\n\t<!DOCTYPE HTML>\n\t<head>\n\t\t<meta name=\"viewport\" \
content=\"width=device-width, initial-scale=1.0\" />\n\t\t<style>\n\t\t\t";

/// A page between its style sheet and its title.
pub const PAGE_STYLED: &'static str = "\n\t\t</style>\n\t\t<title>";

/// A page between its title and its navigation bar.
pub const PAGE_TITLED: &'static str = "</title>\n\t</head>\n\t<body>\n\t\t";

/// A page between its navigation bar and its body.
pub const PAGE_HEADED: &'static str = "\n\t\t";

/// A page after its body.
pub const PAGE_CLOSE: &'static str = "\n\t</body>";

/// A text with every underscore turned into a space.
pub open spec fn spaced(text: Seq<char>) -> Seq<char> {
    text.map_values(
        |c: char|
            if c == '_' {
                ' '
            } else {
                c
            },
    )
}

/// A name made readable: underscores become spaces, and white space at the
/// end is dropped.
pub open spec fn readable(text: Seq<char>) -> Seq<char> {
    trim_end(spaced(text))
}

/// An HTML link to `href`, shown under the readable form of `title`.
pub open spec fn link_html(href: Seq<char>, title: Seq<char>) -> Seq<char> {
    "<a href=\""@ + href + "\">"@ + readable(title) + "</a>"@
}

/// The links of a navigation bar: one for each name but `index`, in order.
pub open spec fn nav_links(names: Seq<Seq<char>>) -> Seq<char>
    decreases names.len(),
{
    if names.len() == 0 {
        Seq::empty()
    } else if names[0] == "index"@ {
        nav_links(names.skip(1))
    } else {
        link_html("/"@ + names[0], names[0]) + nav_links(names.skip(1))
    }
}

/// The navigation bar over the given names: a link home, then the links of
/// `nav_links`.
pub open spec fn navbar_html(names: Seq<Seq<char>>) -> Seq<char> {
    "<nav>"@ + link_html("/"@, "Home"@) + nav_links(names) + "</nav>"@
}

/// The items of a directory listing: for each name a link to that name
/// below `location`.
pub open spec fn listing_items(names: Seq<Seq<char>>, location: Seq<char>) -> Seq<char>
    decreases names.len(),
{
    if names.len() == 0 {
        Seq::empty()
    } else {
        "<li>"@ + link_html(location + "/"@ + names[0], names[0]) + "</li>"@ + listing_items(
            names.skip(1),
            location,
        )
    }
}

/// The body of a route: a page's own HTML, or the listing of a directory's
/// children by name, in increasing order.
pub open spec fn body_html(route: RouteView, location: Seq<char>) -> Seq<char> {
    match route {
        RouteView::Page(body) => body,
        RouteView::Directory(children) => "<ul>"@ + listing_items(
            sorted_names(children),
            location,
        ) + "</ul>"@,
    }
}

/// A whole page: head with style sheet and title, then the navigation bar
/// and the body.
pub open spec fn page_html(
    names: Seq<Seq<char>>,
    body: Seq<char>,
    title: Seq<char>,
    style: Seq<char>,
) -> Seq<char> {
    PAGE_OPEN@ + style + PAGE_STYLED@ + title + PAGE_TITLED@ + navbar_html(names) + PAGE_HEADED@
        + body + PAGE_CLOSE@
}

/// Renders a route as a whole page, with the top-level routes in the
/// navigation bar.
pub fn render_route(route: &Route, location: &str, header_routes: &RouteMap, style: &str) -> (html:
    String)
    ensures
        html@ == page_html(
            sorted_names(header_routes@),
            body_html(route@, location@),
            TITLE@,
            style@,
        ),
{
    let body = render_body(route, location);
    render_page(header_routes, body.as_str(), TITLE, style)
}

/// Sets a body into a page.
pub fn render_page(header_routes: &RouteMap, body: &str, title: &str, style: &str) -> (html: String)
    ensures
        html@ == page_html(sorted_names(header_routes@), body@, title@, style@),
{
    let header = render_navbar(header_routes);
    let mut html = String::from_str(PAGE_OPEN);
    html.append(style);
    html.append(PAGE_STYLED);
    html.append(title);
    html.append(PAGE_TITLED);
    html.append(header.as_str());
    html.append(PAGE_HEADED);
    html.append(body);
    html.append(PAGE_CLOSE);
    html
}

/// Renders the navigation bar over the names of `header_routes`.
pub fn render_navbar(header_routes: &RouteMap) -> (html: String)
    ensures
        html@ == navbar_html(sorted_names(header_routes@)),
{
    let top_level_routes = header_routes.keys();
    let ghost names = sorted_names(header_routes@);
    let mut links = String::new();
    let mut i: usize = 0;
    assert(names.skip(0) =~= names);
    while i < top_level_routes.len()
        invariant
            i <= top_level_routes.len(),
            names == texts(top_level_routes@),
            nav_links(names) == links@ + nav_links(names.skip(i as int)),
        decreases top_level_routes.len() - i,
    {
        let ghost rest = names.skip(i as int);
        let key = top_level_routes[i].as_str();
        assert(rest.skip(1) =~= names.skip(i + 1));
        // `index` is left out: the link home stands for it.
        if !same_text(key, "index") {
            let mut href = String::from_str("/");
            href.append(key);
            let link = render_link(href.as_str(), key);
            links.append(link.as_str());
        }
        i += 1;
    }
    let mut html = String::from_str("<nav>");
    html.append(render_link("/", "Home").as_str());
    html.append(links.as_str());
    html.append("</nav>");
    html
}

/// Renders the body of a route: a page as it is, a directory as a list of
/// links to its children below `location`.
pub fn render_body(route: &Route, location: &str) -> (html: String)
    ensures
        html@ == body_html(route@, location@),
{
    match route {
        Route::Page(body) => body.clone(),
        Route::Directory(map) => {
            let sub_routes = map.keys();
            let ghost names = sorted_names(map@);
            let mut links = String::new();
            let mut i: usize = 0;
            assert(names.skip(0) =~= names);
            while i < sub_routes.len()
                invariant
                    i <= sub_routes.len(),
                    names == texts(sub_routes@),
                    listing_items(names, location@) == links@ + listing_items(
                        names.skip(i as int),
                        location@,
                    ),
                decreases sub_routes.len() - i,
            {
                let ghost rest = names.skip(i as int);
                let key = sub_routes[i].as_str();
                assert(rest.skip(1) =~= names.skip(i + 1));
                let mut href = String::from_str(location);
                href.append("/");
                href.append(key);
                let link = render_link(href.as_str(), key);
                links.append("<li>");
                links.append(link.as_str());
                links.append("</li>");
                i += 1;
            }
            let mut html = String::from_str("<ul>");
            html.append(links.as_str());
            html.append("</ul>");
            html
        },
    }
}

/// Renders an HTML link.
pub fn render_link(href: &str, title: &str) -> (html: String)
    ensures
        html@ == link_html(href@, title@),
{
    let title = strip_underscores(title);
    let mut html = String::from_str("<a href=\"");
    html.append(href);
    html.append("\">");
    html.append(title.as_str());
    html.append("</a>");
    html
}

/// Turns a name of the form `one_two_three` into `one two three`.
pub fn strip_underscores(text: &str) -> (words: String)
    ensures
        words@ == readable(text@),
{
    let chars = to_chars(text);
    let ghost all = spaced(text@);
    let mut end: usize = chars.len();
    assert(all.take(end as int) =~= all);
    while end > 0 && (chars[end - 1] == '_' || white_space(chars[end - 1]))
        invariant
            end <= chars.len(),
            chars@ == text@,
            all == spaced(text@),
            trim_end(all) == trim_end(all.take(end as int)),
        decreases end,
    {
        assert(all.take(end as int).drop_last() =~= all.take(end - 1));
        end -= 1;
    }
    let mut words = String::new();
    let mut i: usize = 0;
    while i < end
        invariant
            i <= end <= chars.len(),
            chars@ == text@,
            all == spaced(text@),
            words@ == all.take(i as int),
        decreases end - i,
    {
        let c = chars[i];
        words.push(
            if c == '_' {
                ' '
            } else {
                c
            },
        );
        i += 1;
    }
    words
}

} // verus!
