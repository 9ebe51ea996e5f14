use miniserve::markup::{render_source, Markup};
use miniserve::md_parser::parse_md;
use miniserve::router::{parse_route, Route, RouteMap};
use miniserve::server::Server;
use miniserve::site::{
    file_extension, file_stem, load_entry, load_routes_from_disk, BuildError, BuildErrorKind,
    FileText, SiteDir, SiteEntry, SiteNode,
};

fn file(name: &str, text: &str) -> SiteEntry {
    SiteEntry {
        name: Some(name.to_string()),
        node: SiteNode::File(FileText::Text(text.to_string())),
    }
}

fn dir(name: &str, entries: Vec<SiteEntry>) -> SiteEntry {
    SiteEntry {
        name: Some(name.to_string()),
        node: SiteNode::Directory(SiteDir { entries, complete: true }),
    }
}

fn root(entries: Vec<SiteEntry>) -> SiteDir {
    SiteDir { entries, complete: true }
}

fn failure(kind: BuildErrorKind, path: &str) -> Result<RouteMap, BuildError> {
    Err(BuildError { kind, path: path.to_string() })
}

fn small_site() -> SiteDir {
    root(vec![
        file("index.md", "# Home"),
        file("about.md", "About us"),
        dir("posts", vec![file("first.md", "- one\n- two")]),
    ])
}

#[test]
fn tree_mirrors_the_directory() {
    let tree = load_routes_from_disk(&small_site(), "site", Markup::Blocks).unwrap();
    assert_eq!(
        tree.keys(),
        vec!["about".to_string(), "index".to_string(), "posts".to_string()]
    );
    match tree.get("posts") {
        Some(Route::Directory(posts)) => assert_eq!(posts.keys(), vec!["first".to_string()]),
        other => panic!("posts is {:?}", other),
    }
    assert_eq!(
        parse_route("/posts/first", &tree),
        Some(Route::Page(parse_md("- one\n- two".to_string())))
    );
    assert_eq!(
        parse_route("/posts/first", &tree),
        Some(Route::Page("<ul><li> one</li><li> two</li>".to_string()))
    );
    assert_eq!(
        parse_route("/", &tree),
        Some(Route::Page("<h1>Home</h1>".to_string()))
    );
}

#[test]
fn two_builds_of_one_snapshot_agree() {
    let first = load_routes_from_disk(&small_site(), "site", Markup::Blocks);
    let second = load_routes_from_disk(&small_site(), "site", Markup::Blocks);
    assert_eq!(first, second);
}

#[test]
fn order_of_the_listing_does_not_matter() {
    let shuffled = root(vec![
        dir("posts", vec![file("first.md", "- one\n- two")]),
        file("about.md", "About us"),
        file("index.md", "# Home"),
    ]);
    assert_eq!(
        load_routes_from_disk(&shuffled, "site", Markup::Blocks),
        load_routes_from_disk(&small_site(), "site", Markup::Blocks)
    );
}

#[test]
fn other_files_are_left_out() {
    let site = root(vec![
        file("index.md", "x"),
        file("logo.png", "binary"),
        file("notes.txt", "text"),
        file("README", "text"),
        file(".md", "hidden"),
        file("upper.MD", "text"),
        SiteEntry { name: Some("broken.png".to_string()), node: SiteNode::File(FileText::NotText) },
        SiteEntry { name: Some("gone.css".to_string()), node: SiteNode::File(FileText::Unreadable) },
    ]);
    let tree = load_routes_from_disk(&site, "site", Markup::Blocks).unwrap();
    assert_eq!(tree.keys(), vec!["index".to_string()]);
}

#[test]
fn tree_without_index_is_built_and_not_served() {
    let site = root(vec![file("about.md", "About")]);
    let tree = load_routes_from_disk(&site, "site", Markup::Blocks);
    assert!(tree.is_ok());
    assert!(Server::new(&site, "site", Markup::Blocks, "").is_none());
    assert!(Server::new(&small_site(), "site", Markup::Blocks, "").is_some());
    assert!(Server::new(&root(Vec::new()), "site", Markup::Blocks, "").is_none());
}

#[test]
fn index_may_be_a_directory() {
    let site = root(vec![dir("index", Vec::new())]);
    assert!(Server::new(&site, "site", Markup::Blocks, "").is_some());
}

#[test]
fn failed_build_is_not_served() {
    let site = SiteDir { entries: vec![file("index.md", "x")], complete: false };
    assert!(Server::new(&site, "site", Markup::Blocks, "").is_none());
}

#[test]
fn unreadable_directory_fails_the_build() {
    let site = SiteDir { entries: Vec::new(), complete: false };
    assert_eq!(
        load_routes_from_disk(&site, "site", Markup::Blocks),
        failure(BuildErrorKind::UnreadableDirectory, "site")
    );
}

#[test]
fn failure_below_fails_the_whole_build() {
    let site = root(vec![
        file("index.md", "x"),
        SiteEntry {
            name: Some("posts".to_string()),
            node: SiteNode::Directory(SiteDir { entries: Vec::new(), complete: false }),
        },
    ]);
    assert_eq!(
        load_routes_from_disk(&site, "site", Markup::Blocks),
        failure(BuildErrorKind::UnreadableDirectory, "site/posts")
    );
}

#[test]
fn entry_without_a_name_fails_the_build() {
    let site = root(vec![SiteEntry {
        name: None,
        node: SiteNode::File(FileText::Text(String::new())),
    }]);
    assert_eq!(
        load_routes_from_disk(&site, "site", Markup::Blocks),
        failure(BuildErrorKind::UnresolvableName, "site")
    );
    let dots = root(vec![dir("..", Vec::new())]);
    assert_eq!(
        load_routes_from_disk(&dots, "site", Markup::Blocks),
        failure(BuildErrorKind::UnresolvableName, "site/..")
    );
}

#[test]
fn entry_that_cannot_be_examined_fails_the_build() {
    let site = root(vec![SiteEntry { name: Some("x.md".to_string()), node: SiteNode::Unknown }]);
    assert_eq!(
        load_routes_from_disk(&site, "site", Markup::Blocks),
        failure(BuildErrorKind::UnreadableEntry, "site/x.md")
    );
}

#[test]
fn page_that_cannot_be_read_fails_the_build() {
    let site = root(vec![
        file("index.md", "x"),
        SiteEntry { name: Some("a.md".to_string()), node: SiteNode::File(FileText::Unreadable) },
    ]);
    assert_eq!(
        load_routes_from_disk(&site, "/srv", Markup::Blocks),
        failure(BuildErrorKind::UnreadableFile, "/srv/a.md")
    );
    let site = root(vec![SiteEntry {
        name: Some("a.md".to_string()),
        node: SiteNode::File(FileText::NotText),
    }]);
    assert_eq!(
        load_routes_from_disk(&site, "/srv", Markup::Blocks),
        failure(BuildErrorKind::NotText, "/srv/a.md")
    );
}

#[test]
fn two_entries_with_one_route_name_fail_the_build() {
    let site = root(vec![file("about.md", "x"), dir("about", Vec::new())]);
    assert_eq!(
        load_routes_from_disk(&site, "site", Markup::Blocks),
        failure(BuildErrorKind::NameCollision, "site/about")
    );
    let site = root(vec![dir("a.b", Vec::new()), file("a.md", "x")]);
    assert_eq!(
        load_routes_from_disk(&site, "site", Markup::Blocks),
        failure(BuildErrorKind::NameCollision, "site/a.md")
    );
    let fine = root(vec![file("about.md", "x"), file("about.txt", "y")]);
    assert!(load_routes_from_disk(&fine, "site", Markup::Blocks).is_ok());
}

#[test]
fn first_failure_in_order_is_reported() {
    let site = SiteDir {
        entries: vec![
            file("ok.md", "x"),
            SiteEntry { name: Some("b.md".to_string()), node: SiteNode::Unknown },
            SiteEntry { name: None, node: SiteNode::Unknown },
        ],
        complete: false,
    };
    assert_eq!(
        load_routes_from_disk(&site, "site", Markup::Blocks),
        failure(BuildErrorKind::UnreadableEntry, "site/b.md")
    );
}

#[test]
fn one_entry_at_a_time() {
    assert_eq!(
        load_entry(&file("a.b.md", "# T"), "d", Markup::Blocks),
        Ok(Some(("a.b".to_string(), Route::Page("<h1>T</h1>".to_string()))))
    );
    assert_eq!(load_entry(&file("a.txt", "# T"), "d", Markup::Blocks), Ok(None));
    assert_eq!(
        load_entry(&dir("sub.dir", Vec::new()), "d", Markup::Blocks),
        Ok(Some(("sub".to_string(), Route::Directory(RouteMap::new()))))
    );
}

#[test]
fn stems_and_extensions() {
    assert_eq!(file_stem("index.md"), Some("index".to_string()));
    assert_eq!(file_stem("archive.tar.gz"), Some("archive.tar".to_string()));
    assert_eq!(file_stem("README"), Some("README".to_string()));
    assert_eq!(file_stem(".hidden"), Some(".hidden".to_string()));
    assert_eq!(file_stem(".hidden.md"), Some(".hidden".to_string()));
    assert_eq!(file_stem("dot."), Some("dot".to_string()));
    assert_eq!(file_stem("..."), Some("..".to_string()));
    assert_eq!(file_stem(""), None);
    assert_eq!(file_stem("."), None);
    assert_eq!(file_stem(".."), None);
    assert_eq!(file_stem("a/b.md"), None);
    assert_eq!(file_extension("index.md"), Some("md".to_string()));
    assert_eq!(file_extension("archive.tar.gz"), Some("gz".to_string()));
    assert_eq!(file_extension("README"), None);
    assert_eq!(file_extension(".hidden"), None);
    assert_eq!(file_extension("dot."), Some(String::new()));
    assert_eq!(file_extension(""), None);
}

#[test]
fn stems_and_extensions_are_those_of_the_standard_library() {
    for name in [
        "index.md", "a.b.c", "README", ".hidden", ".hidden.md", "dot.", "...", "..a", "a..b",
        "é.md", "x",
    ] {
        let path = std::path::Path::new(name);
        assert_eq!(
            file_stem(name),
            path.file_stem().map(|s| s.to_str().unwrap().to_string()),
            "stem of {:?}",
            name
        );
        assert_eq!(
            file_extension(name),
            path.extension().map(|s| s.to_str().unwrap().to_string()),
            "extension of {:?}",
            name
        );
    }
}

#[test]
fn common_mark_pages_come_from_the_markdown_crate() {
    assert_eq!(render_source(Markup::CommonMark, "# Hi *there*"), "<h1>Hi <em>there</em></h1>");
    assert_eq!(
        render_source(Markup::CommonMark, "# Hi *there*"),
        markdown::to_html("# Hi *there*")
    );
    assert_eq!(render_source(Markup::Blocks, "# Hi *there*"), "<h1>Hi *there*</h1>");
    let site = root(vec![file("index.md", "some *text*")]);
    let tree = load_routes_from_disk(&site, "site", Markup::CommonMark).unwrap();
    assert_eq!(
        tree.get("index"),
        Some(&Route::Page("<p>some <em>text</em></p>".to_string()))
    );
}
