//! Building the content tree from a snapshot of a directory.
//!
//! The snapshot holds what a scan of the file system found, failures
//! included, as plain values. The builder walks it in order: a directory
//! becomes a `Route::Directory`, a file with the extension `md` becomes a
//! `Route::Page` with its rendered text, any other file is left out. The
//! first failure ends the build, and the error names the path at which it
//! came.

use crate::markup::{render_source, rendered, Markup};
use crate::router::{Route, RouteMap, RouteView, Tree};
use crate::text::{same_text, substring, to_chars};
use vstd::prelude::*;

verus! {

/// What reading a file gave.
#[derive(Debug, PartialEq, Eq)]
pub enum FileText {
    /// The whole file, as text.
    Text(String),
    /// The file could not be read.
    Unreadable,
    /// The file was read and is not valid text.
    NotText,
}

/// What stands behind a directory entry.
#[derive(Debug, PartialEq, Eq)]
pub enum SiteNode {
    /// The entry could not be examined.
    Unknown,
    /// A directory, with what its own scan found.
    Directory(SiteDir),
    /// A file, with what reading it gave.
    File(FileText),
}

/// One entry of a directory.
#[derive(Debug, PartialEq, Eq)]
pub struct SiteEntry {
    /// The entry's file name, where it is valid text.
    pub name: Option<String>,
    pub node: SiteNode,
}

/// What the scan of one directory found.
#[derive(Debug, PartialEq, Eq)]
pub struct SiteDir {
    /// The entries that were read, in the order in which they came.
    pub entries: Vec<SiteEntry>,
    /// Whether the listing was read to its end. Where it is not, the
    /// directory could not be opened or the listing broke off.
    pub complete: bool,
}

/// Why a build failed.
#[derive(Clone, Copy, Debug, PartialEq, Eq, Structural)]
pub enum BuildErrorKind {
    /// A directory could not be listed, or not to its end.
    UnreadableDirectory,
    /// An entry could not be examined.
    UnreadableEntry,
    /// An entry has no name from which a route name can be taken.
    UnresolvableName,
    /// A page's file could not be read.
    UnreadableFile,
    /// A page's file is not valid text.
    NotText,
    /// Two entries of one directory give the same route name.
    NameCollision,
}

/// A failed build: what went wrong, and at which path.
#[derive(Debug, PartialEq, Eq)]
pub struct BuildError {
    pub kind: BuildErrorKind,
    pub path: String,
}

/// A failure as the builder's contract speaks of it: its kind and its path.
pub type Failure = (BuildErrorKind, Seq<char>);

impl View for BuildError {
    type V = Failure;

    open spec fn view(&self) -> Failure {
        (self.kind, self.path@)
    }
}

/// Position of the last dot of a name, or -1 where it has none.
pub open spec fn last_dot(name: Seq<char>) -> int
    decreases name.len(),
{
    if name.len() == 0 {
        -1
    } else if name.last() == '.' {
        name.len() - 1
    } else {
        last_dot(name.drop_last())
    }
}

/// Whether a text is the name of one file or directory: not empty, not one
/// of the two dot names, and without a slash.
pub open spec fn is_file_name(name: Seq<char>) -> bool {
    &&& name.len() > 0
    &&& name != seq!['.']
    &&& name != seq!['.', '.']
    &&& !name.contains('/')
}

/// The stem of a file name: the name up to its last dot. A name without a
/// dot, or whose only dot is its first character, is its own stem.
pub open spec fn stem_of(name: Seq<char>) -> Seq<char> {
    let dot = last_dot(name);
    if dot <= 0 {
        name
    } else {
        name.take(dot)
    }
}

/// The extension of a file name: what follows its last dot, where the name
/// has a dot that is not its first character.
pub open spec fn extension_of(name: Seq<char>) -> Option<Seq<char>> {
    let dot = last_dot(name);
    if dot <= 0 {
        None
    } else {
        Some(name.skip(dot + 1))
    }
}

/// Whether a file with this name is the source of a page.
pub open spec fn is_page_source(name: Seq<char>) -> bool {
    extension_of(name) == Some("md"@)
}

/// The path of an entry called `name` in the directory at `dir_path`.
pub open spec fn entry_path(dir_path: Seq<char>, name: Seq<char>) -> Seq<char> {
    dir_path + "/"@ + name
}

/// The route that an entry adds to the tree, if it adds one: `Ok(None)` for
/// a file that is no page source.
pub open spec fn entry_route(entry: SiteEntry, dir_path: Seq<char>, markup: Markup) -> Result<
    Option<RouteView>,
    Failure,
>
    decreases entry, 0nat,
{
    match entry.name {
        None => Err((BuildErrorKind::UnresolvableName, dir_path)),
        Some(name) => {
            let path = entry_path(dir_path, name@);
            if !is_file_name(name@) {
                Err((BuildErrorKind::UnresolvableName, path))
            } else {
                match entry.node {
                    SiteNode::Unknown => Err((BuildErrorKind::UnreadableEntry, path)),
                    SiteNode::Directory(sub) => match tree_of(sub, path, markup) {
                        Ok(tree) => Ok(Some(RouteView::Directory(tree))),
                        Err(failure) => Err(failure),
                    },
                    SiteNode::File(text) => if !is_page_source(name@) {
                        Ok(None)
                    } else {
                        match text {
                            FileText::Unreadable => Err((BuildErrorKind::UnreadableFile, path)),
                            FileText::NotText => Err((BuildErrorKind::NotText, path)),
                            FileText::Text(source) => Ok(
                                Some(RouteView::Page(rendered(markup, source@))),
                            ),
                        }
                    },
                }
            }
        },
    }
}

/// The tree after the given entries were added to `tree` one by one. An
/// entry whose route name is already taken fails the build.
pub open spec fn add_entries(
    tree: Tree,
    entries: Seq<SiteEntry>,
    dir_path: Seq<char>,
    markup: Markup,
) -> Result<Tree, Failure>
    decreases entries, 1nat,
{
    if entries.len() == 0 {
        Ok(tree)
    } else {
        let entry = entries[0];
        match entry_route(entry, dir_path, markup) {
            Err(failure) => Err(failure),
            Ok(None) => add_entries(tree, entries.skip(1), dir_path, markup),
            Ok(Some(route)) => {
                let name = entry.name->0@;
                if tree.contains_key(stem_of(name)) {
                    Err((BuildErrorKind::NameCollision, entry_path(dir_path, name)))
                } else {
                    add_entries(
                        tree.insert(stem_of(name), route),
                        entries.skip(1),
                        dir_path,
                        markup,
                    )
                }
            },
        }
    }
}

/// The tree of a directory snapshot: its entries added to an empty tree in
/// order; a listing that was not read to its end fails after them.
pub open spec fn tree_of(dir: SiteDir, path: Seq<char>, markup: Markup) -> Result<Tree, Failure>
    decreases dir, 2nat,
{
    match add_entries(Map::empty(), dir.entries@, path, markup) {
        Err(failure) => Err(failure),
        Ok(tree) => if dir.complete {
            Ok(tree)
        } else {
            Err((BuildErrorKind::UnreadableDirectory, path))
        },
    }
}

/// Whether entry `i` of `entries` adds `route` to the tree under `stem`.
pub open spec fn adds_route(
    entries: Seq<SiteEntry>,
    i: int,
    dir_path: Seq<char>,
    markup: Markup,
    stem: Seq<char>,
    route: RouteView,
) -> bool {
    &&& 0 <= i < entries.len()
    &&& entry_route(entries[i], dir_path, markup) == Ok::<Option<RouteView>, Failure>(Some(route))
    &&& entries[i].name matches Some(name) && stem == stem_of(name@)
}

/// A tree that was built from entries holds each entry's route under the
/// entry's stem, keeps what it held before, and holds nothing else.
pub proof fn lemma_add_entries(
    tree: Tree,
    entries: Seq<SiteEntry>,
    dir_path: Seq<char>,
    markup: Markup,
    built: Tree,
)
    requires
        add_entries(tree, entries, dir_path, markup) == Ok::<Tree, Failure>(built),
    ensures
        forall|k: Seq<char>| #[trigger]
            tree.contains_key(k) ==> built.contains_key(k) && built[k] == tree[k],
        forall|i: int, stem: Seq<char>, route: RouteView| #[trigger]
            adds_route(entries, i, dir_path, markup, stem, route) ==> built.contains_key(stem)
                && built[stem] == route,
        forall|k: Seq<char>| #[trigger]
            built.contains_key(k) ==> tree.contains_key(k) || exists|i: int|
                adds_route(entries, i, dir_path, markup, k, built[k]),
    decreases entries.len(),
{
    if entries.len() > 0 {
        let entry = entries[0];
        let rest = entries.skip(1);
        let next = match entry_route(entry, dir_path, markup) {
            Ok(Some(route)) => tree.insert(stem_of(entry.name->0@), route),
            _ => tree,
        };
        lemma_add_entries(next, rest, dir_path, markup, built);
        assert forall|k: Seq<char>| #[trigger] tree.contains_key(k) implies built.contains_key(k)
            && built[k] == tree[k] by {
            assert(next.contains_key(k) && next[k] == tree[k]);
        }
        assert forall|i: int, stem: Seq<char>, route: RouteView| #[trigger]
            adds_route(entries, i, dir_path, markup, stem, route) implies built.contains_key(stem)
            && built[stem] == route by {
            if i > 0 {
                assert(adds_route(rest, i - 1, dir_path, markup, stem, route));
            } else {
                assert(next.contains_key(stem));
            }
        }
        assert forall|k: Seq<char>| #[trigger] built.contains_key(k) implies tree.contains_key(k)
            || exists|i: int| adds_route(entries, i, dir_path, markup, k, built[k]) by {
            if !tree.contains_key(k) {
                if next.contains_key(k) {
                    assert(adds_route(entries, 0, dir_path, markup, k, built[k]));
                } else {
                    let i = choose|i: int| adds_route(rest, i, dir_path, markup, k, built[k]);
                    assert(adds_route(entries, i + 1, dir_path, markup, k, built[k]));
                }
            }
        }
    }
}

/// The tree of a directory holds exactly the routes of its entries, each
/// under its entry's stem: a page for each page source, with the HTML that
/// rendering gives, and a directory for each directory.
pub proof fn lemma_tree_holds_entries(dir: SiteDir, path: Seq<char>, markup: Markup, built: Tree)
    requires
        tree_of(dir, path, markup) == Ok::<Tree, Failure>(built),
    ensures
        dir.complete,
        forall|i: int, stem: Seq<char>, route: RouteView| #[trigger]
            adds_route(dir.entries@, i, path, markup, stem, route) ==> built.contains_key(stem)
                && built[stem] == route,
        forall|k: Seq<char>| #[trigger]
            built.contains_key(k) ==> exists|i: int|
                adds_route(dir.entries@, i, path, markup, k, built[k]),
{
    lemma_add_entries(Map::empty(), dir.entries@, path, markup, built);
}

/// What the outcome of loading one entry stands for.
pub open spec fn loaded_view(loaded: Result<Option<(String, Route)>, BuildError>) -> Result<
    Option<RouteView>,
    Failure,
> {
    match loaded {
        Ok(Some(named)) => Ok(Some(named.1@)),
        Ok(None) => Ok(None),
        Err(error) => Err(error@),
    }
}

/// What the outcome of a build stands for.
pub open spec fn built_view(built: Result<RouteMap, BuildError>) -> Result<Tree, Failure> {
    match built {
        Ok(route_map) => Ok(route_map@),
        Err(error) => Err(error@),
    }
}

/// Position of the last dot in `chars`, if there is one.
fn find_last_dot(chars: &Vec<char>) -> (dot: Option<usize>)
    ensures
        dot matches Some(at) ==> at == last_dot(chars@) && at < chars.len(),
        dot is None ==> last_dot(chars@) == -1,
{
    let mut end: usize = chars.len();
    assert(chars@.take(end as int) =~= chars@);
    while end > 0
        invariant
            end <= chars.len(),
            last_dot(chars@) == last_dot(chars@.take(end as int)),
        decreases end,
    {
        let ghost head = chars@.take(end as int);
        assert(head.drop_last() =~= chars@.take(end - 1));
        if chars[end - 1] == '.' {
            return Some(end - 1);
        }
        end -= 1;
    }
    None
}

/// The stem of a file name, where the text is the name of one file or
/// directory.
pub fn file_stem(name: &str) -> (stem: Option<String>)
    ensures
        stem is Some <==> is_file_name(name@),
        stem matches Some(s) ==> s@ == stem_of(name@),
{
    let chars = to_chars(name);
    if chars.len() == 0 {
        return None;
    }
    if chars.len() == 1 && chars[0] == '.' {
        assert(name@ =~= seq!['.']);
        return None;
    }
    if chars.len() == 2 && chars[0] == '.' && chars[1] == '.' {
        assert(name@ =~= seq!['.', '.']);
        return None;
    }
    let mut i: usize = 0;
    while i < chars.len()
        invariant
            i <= chars.len(),
            chars@ == name@,
            forall|k: int| 0 <= k < i ==> name@[k] != '/',
        decreases chars.len() - i,
    {
        if chars[i] == '/' {
            return None;
        }
        i += 1;
    }
    let stem = match find_last_dot(&chars) {
        Some(dot) => if dot == 0 {
            substring(&chars, 0, chars.len())
        } else {
            substring(&chars, 0, dot)
        },
        None => substring(&chars, 0, chars.len()),
    };
    Some(stem)
}

/// The extension of a file name, where it has one.
pub fn file_extension(name: &str) -> (extension: Option<String>)
    ensures
        extension is Some <==> extension_of(name@) is Some,
        extension matches Some(e) ==> extension_of(name@) == Some(e@),
{
    let chars = to_chars(name);
    match find_last_dot(&chars) {
        Some(dot) => if dot == 0 {
            None
        } else {
            let extension = substring(&chars, dot + 1, chars.len());
            Some(extension)
        },
        None => None,
    }
}

/// The path of the entry called `name` in the directory at `dir_path`.
fn join_path(dir_path: &str, name: &str) -> (path: String)
    ensures
        path@ == entry_path(dir_path@, name@),
{
    let mut path = String::from_str(dir_path);
    path.append("/");
    path.append(name);
    path
}

/// The route that one entry of the directory at `dir_path` adds to the
/// tree, with the name under which it is added; nothing for a file that is
/// no page source.
pub fn load_entry(entry: &SiteEntry, dir_path: &str, markup: Markup) -> (loaded: Result<
    Option<(String, Route)>,
    BuildError,
>)
    ensures
        entry_route(*entry, dir_path@, markup) == loaded_view(loaded),
        loaded matches Ok(Some(named)) ==> entry.name is Some && named.0@ == stem_of(
            entry.name->0@,
        ),
    decreases entry,
{
    let name = match &entry.name {
        Some(name) => name.as_str(),
        None => {
            return Err(
                BuildError {
                    kind: BuildErrorKind::UnresolvableName,
                    path: String::from_str(dir_path),
                },
            );
        },
    };
    let path = join_path(dir_path, name);
    let file_name = match file_stem(name) {
        Some(stem) => stem,
        None => {
            return Err(BuildError { kind: BuildErrorKind::UnresolvableName, path });
        },
    };
    match &entry.node {
        SiteNode::Unknown => Err(BuildError { kind: BuildErrorKind::UnreadableEntry, path }),
        SiteNode::Directory(sub) => {
            // A directory that fails fails the whole build.
            match load_routes_from_disk(sub, path.as_str(), markup) {
                Ok(sub_routes) => Ok(Some((file_name, Route::Directory(sub_routes)))),
                Err(error) => Err(error),
            }
        },
        SiteNode::File(text) => {
            let is_page = match file_extension(name) {
                Some(ext) => same_text(ext.as_str(), "md"),
                None => false,
            };
            if !is_page {
                return Ok(None);
            }
            match text {
                FileText::Unreadable => Err(
                    BuildError { kind: BuildErrorKind::UnreadableFile, path },
                ),
                FileText::NotText => Err(BuildError { kind: BuildErrorKind::NotText, path }),
                FileText::Text(markdown) => {
                    let html = render_source(markup, markdown.as_str());
                    Ok(Some((file_name, Route::Page(html))))
                },
            }
        },
    }
}

/// Builds the content tree of the directory whose snapshot is `dir` and
/// whose path is `path`.
pub fn load_routes_from_disk(dir: &SiteDir, path: &str, markup: Markup) -> (built: Result<
    RouteMap,
    BuildError,
>)
    ensures
        tree_of(*dir, path@, markup) == built_view(built),
    decreases dir,
{
    let mut route_map = RouteMap::new();
    let mut i: usize = 0;
    assert(dir.entries@.skip(0) =~= dir.entries@);
    while i < dir.entries.len()
        invariant
            i <= dir.entries.len(),
            add_entries(Map::empty(), dir.entries@, path@, markup) == add_entries(
                route_map@,
                dir.entries@.skip(i as int),
                path@,
                markup,
            ),
        decreases dir.entries.len() - i,
    {
        let entry = &dir.entries[i];
        let ghost rest = dir.entries@.skip(i as int);
        proof {
            assert(rest.skip(1) =~= dir.entries@.skip(i + 1));
        }
        match load_entry(entry, path, markup) {
            Err(error) => {
                return Err(error);
            },
            Ok(None) => {},
            Ok(Some((file_name, route))) => {
                if route_map.contains_key(file_name.as_str()) {
                    // An entry that gave a route has a name.
                    let name = match &entry.name {
                        Some(name) => name.as_str(),
                        None => "",
                    };
                    return Err(
                        BuildError {
                            kind: BuildErrorKind::NameCollision,
                            path: join_path(path, name),
                        },
                    );
                }
                route_map.insert(file_name, route);
            },
        }
        i += 1;
    }
    if !dir.complete {
        return Err(
            BuildError { kind: BuildErrorKind::UnreadableDirectory, path: String::from_str(path) },
        );
    }
    Ok(route_map)
}

} // verus!
