//! The content tree and the resolution of slash-delimited paths in it.
//!
//! A `Route` is a rendered page or a directory of named routes. A `RouteMap`
//! is one directory: a finite map from names to routes that keeps its names
//! in increasing order, so that walking it is deterministic.

use crate::text::{
    lemma_lex_irreflexive, lemma_lex_total, lemma_lex_transitive, lemma_split_without_match, lex_lt,
    rank, same_text, split, split_on, texts, Rank,
};
use vstd::prelude::*;

verus! {

/// A resource of the site.
#[derive(Debug, PartialEq, Eq)]
pub enum Route {
    /// A single page, as its HTML.
    Page(String),
    /// A directory of further routes.
    Directory(RouteMap),
}

/// One directory of the content tree: routes by name, no name twice, the
/// names in increasing order.
#[derive(Debug, PartialEq, Eq)]
pub struct RouteMap {
    entries: Vec<(String, Route)>,
}

/// What a `Route` stands for: a page's HTML, or a map from names to what
/// the children stand for.
pub ghost enum RouteView {
    Page(Seq<char>),
    Directory(Map<Seq<char>, RouteView>),
}

/// A directory as the contracts speak of it: what its children stand for, by
/// name.
pub type Tree = Map<Seq<char>, RouteView>;

/// The names of a run of entries, in order.
spec fn names_of(entries: Seq<(String, Route)>) -> Seq<Seq<char>> {
    entries.map_values(|e: (String, Route)| e.0@)
}

/// Whether the names stand in strictly increasing order.
pub open spec fn increasing(names: Seq<Seq<char>>) -> bool {
    forall|i: int, j: int|
        0 <= i < j < names.len() ==> lex_lt(#[trigger] names[i], #[trigger] names[j])
}

/// The map that a run of entries stands for; of two entries with one name
/// the later one counts.
spec fn entries_map(entries: Seq<(String, Route)>) -> Tree
    decreases entries,
{
    if entries.len() == 0 {
        Map::empty()
    } else {
        entries_map(entries.drop_last()).insert(entries.last().0@, entries.last().1@)
    }
}

impl View for Route {
    type V = RouteView;

    open spec fn view(&self) -> RouteView
        decreases self,
    {
        match self {
            Route::Page(html) => RouteView::Page(html@),
            Route::Directory(map) => RouteView::Directory(map@),
        }
    }
}

impl View for RouteMap {
    type V = Tree;

    closed spec fn view(&self) -> Tree
        decreases self,
    {
        entries_map(self.entries@)
    }
}

/// The keys of `entries_map` are the entries' names, and where no name
/// occurs twice each name is mapped to its own entry's route.
proof fn lemma_entries_map(entries: Seq<(String, Route)>)
    ensures
        forall|k: Seq<char>|
            #![trigger entries_map(entries).contains_key(k)]
            entries_map(entries).contains_key(k) <==> names_of(entries).contains(k),
        increasing(names_of(entries)) ==> forall|i: int|
            0 <= i < entries.len() ==> #[trigger] entries_map(entries)[names_of(entries)[i]]
                == entries[i].1@,
    decreases entries.len(),
{
    let names = names_of(entries);
    if entries.len() > 0 {
        let front = entries.drop_last();
        let last = entries.last();
        lemma_entries_map(front);
        assert(entries_map(entries) == entries_map(front).insert(last.0@, last.1@));
        assert(names_of(front) =~= names.drop_last());
        assert forall|k: Seq<char>|
            #![trigger entries_map(entries).contains_key(k)]
            entries_map(entries).contains_key(k) <==> names.contains(k) by {
            if names.contains(k) {
                let i = choose|i: int| 0 <= i < names.len() && names[i] == k;
                if i < names.len() - 1 {
                    assert(names_of(front)[i] == k);
                }
            }
            if entries_map(entries).contains_key(k) && k != last.0@ {
                let i = choose|i: int|
                    0 <= i < names_of(front).len() && names_of(front)[i] == k;
                assert(names[i] == k);
            }
            if k == last.0@ {
                assert(names[names.len() - 1] == k);
            }
        }
        if increasing(names) {
            assert(increasing(names_of(front)));
            assert forall|i: int| 0 <= i < entries.len() implies #[trigger] entries_map(
                entries,
            )[names[i]] == entries[i].1@ by {
                if i < entries.len() - 1 {
                    assert(lex_lt(names[i], names[names.len() - 1]));
                    lemma_lex_irreflexive(names[i]);
                    assert(names_of(front)[i] == names[i]);
                    assert(entries_map(front)[names_of(front)[i]] == front[i].1@);
                }
            }
        }
    }
}

/// Whether `names` holds exactly the keys of `tree`.
pub open spec fn lists_keys(tree: Tree, names: Seq<Seq<char>>) -> bool {
    forall|k: Seq<char>|
        #![trigger tree.contains_key(k)]
        #![trigger names.contains(k)]
        tree.contains_key(k) <==> names.contains(k)
}

/// The keys of a tree in increasing order. For a tree with finitely many
/// keys there is exactly one such sequence.
pub open spec fn sorted_names(tree: Tree) -> Seq<Seq<char>> {
    choose|names: Seq<Seq<char>>| increasing(names) && lists_keys(tree, names)
}

/// Two increasing sequences with the same elements are the same sequence.
pub proof fn lemma_increasing_unique(a: Seq<Seq<char>>, b: Seq<Seq<char>>)
    requires
        increasing(a),
        increasing(b),
        forall|k: Seq<char>|
            #![trigger a.contains(k)]
            #![trigger b.contains(k)]
            a.contains(k) <==> b.contains(k),
    ensures
        a == b,
    decreases a.len(),
{
    if a.len() == 0 {
        if b.len() > 0 {
            assert(b.contains(b[0]));
            assert(a.contains(b[0]));
        }
        assert(a =~= b);
    } else {
        let x = a.last();
        assert(a.contains(x));
        assert(b.contains(x));
        let j = choose|j: int| 0 <= j < b.len() && b[j] == x;
        let y = b.last();
        assert(b.contains(y));
        assert(a.contains(y));
        let i = choose|i: int| 0 <= i < a.len() && a[i] == y;
        lemma_lex_irreflexive(x);
        lemma_lex_total(x, y);
        if j < b.len() - 1 {
            assert(lex_lt(b[j], b[b.len() - 1]));
            if i < a.len() - 1 {
                assert(lex_lt(a[i], a[a.len() - 1]));
            }
        }
        assert(x == y);
        let a0 = a.drop_last();
        let b0 = b.drop_last();
        assert forall|k: Seq<char>|
            #![trigger a0.contains(k)]
            #![trigger b0.contains(k)]
            a0.contains(k) <==> b0.contains(k) by {
            lemma_lex_irreflexive(k);
            if a0.contains(k) {
                let p = choose|p: int| 0 <= p < a0.len() && a0[p] == k;
                assert(lex_lt(a[p], a[a.len() - 1]));
                assert(a.contains(k));
                assert(b.contains(k));
                let q = choose|q: int| 0 <= q < b.len() && b[q] == k;
                assert(b0[q] == k);
            }
            if b0.contains(k) {
                let q = choose|q: int| 0 <= q < b0.len() && b0[q] == k;
                assert(lex_lt(b[q], b[b.len() - 1]));
                assert(b.contains(k));
                assert(a.contains(k));
                let p = choose|p: int| 0 <= p < a.len() && a[p] == k;
                assert(a0[p] == k);
            }
        }
        lemma_increasing_unique(a0, b0);
        assert(a =~= a0.push(x));
        assert(b =~= b0.push(y));
    }
}

impl RouteMap {
    #[verifier::type_invariant]
    spec fn ordered(&self) -> bool {
        increasing(names_of(self.entries@))
    }

    /// An empty directory.
    pub fn new() -> (map: Self)
        ensures
            map@ == Tree::empty(),
    {
        let map = RouteMap { entries: Vec::new() };
        assert(names_of(map.entries@) =~= Seq::<Seq<char>>::empty());
        map
    }

    /// The names of the directory in increasing order: the keys of the
    /// directory's map, each once.
    pub fn keys(&self) -> (keys: Vec<String>)
        ensures
            texts(keys@) == sorted_names(self@),
            increasing(sorted_names(self@)),
            lists_keys(self@, sorted_names(self@)),
    {
        proof {
            use_type_invariant(self);
            lemma_entries_map(self.entries@);
            assert(self@ == entries_map(self.entries@));
            let names = names_of(self.entries@);
            assert(increasing(names) && lists_keys(self@, names));
            lemma_increasing_unique(names, sorted_names(self@));
        }
        let mut keys: Vec<String> = Vec::new();
        let mut i: usize = 0;
        while i < self.entries.len()
            invariant
                i <= self.entries.len(),
                texts(keys@) == names_of(self.entries@).take(i as int),
            decreases self.entries.len() - i,
        {
            let ghost before = keys@;
            let name = self.entries[i].0.clone();
            assert(name@ == self.entries@[i as int].0@);
            keys.push(name);
            assert(texts(keys@) =~= texts(before).push(name@));
            assert(texts(keys@) =~= names_of(self.entries@).take(i + 1));
            i += 1;
        }
        assert(names_of(self.entries@).take(i as int) =~= names_of(self.entries@));
        keys
    }

    /// Where `name` stands among the entries, or where it would have to be
    /// put: every entry before `at` comes before `name`, and the entry at
    /// `at`, if there is one, is `name`'s own or comes after it.
    fn position(&self, name: &str) -> (found: (usize, bool))
        ensures
            found.0 <= self.entries.len(),
            forall|i: int|
                0 <= i < found.0 ==> lex_lt(#[trigger] names_of(self.entries@)[i], name@),
            found.1 ==> found.0 < self.entries.len() && names_of(self.entries@)[found.0 as int]
                == name@,
            !found.1 ==> forall|i: int|
                found.0 <= i < self.entries.len() ==> lex_lt(
                    name@,
                    #[trigger] names_of(self.entries@)[i],
                ),
    {
        proof {
            use_type_invariant(self);
        }
        let ghost names = names_of(self.entries@);
        let mut at: usize = 0;
        while at < self.entries.len()
            invariant
                at <= self.entries.len(),
                names == names_of(self.entries@),
                increasing(names),
                forall|i: int| 0 <= i < at ==> lex_lt(#[trigger] names[i], name@),
            decreases self.entries.len() - at,
        {
            match rank(self.entries[at].0.as_str(), name) {
                Rank::Before => {},
                Rank::Same => {
                    return (at, true);
                },
                Rank::After => {
                    assert forall|i: int| at <= i < self.entries.len() implies lex_lt(
                        name@,
                        #[trigger] names[i],
                    ) by {
                        if i > at {
                            assert(lex_lt(names[at as int], names[i]));
                            lemma_lex_transitive(name@, names[at as int], names[i]);
                        }
                    }
                    return (at, false);
                },
            }
            at += 1;
        }
        (at, false)
    }

    /// Whether the directory has a route under `name`.
    pub fn contains_key(&self, name: &str) -> (found: bool)
        ensures
            found == self@.contains_key(name@),
    {
        self.get(name).is_some()
    }

    /// The route under `name`, where the directory has one.
    pub fn get(&self, name: &str) -> (route: Option<&Route>)
        ensures
            route is Some <==> self@.contains_key(name@),
            route matches Some(r) ==> r@ == self@[name@],
    {
        proof {
            use_type_invariant(self);
            lemma_entries_map(self.entries@);
            assert(self@ == entries_map(self.entries@));
        }
        let (at, found) = self.position(name);
        let ghost names = names_of(self.entries@);
        if found {
            assert(names.contains(name@));
            assert(self@[names[at as int]] == self.entries@[at as int].1@);
            Some(&self.entries[at].1)
        } else {
            proof {
                if names.contains(name@) {
                    let i = choose|i: int| 0 <= i < names.len() && names[i] == name@;
                    lemma_lex_irreflexive(name@);
                }
            }
            None
        }
    }

    /// Puts `route` under `name`, in place of the route that stood there if
    /// there was one, and hands that one back.
    pub fn insert(&mut self, name: String, route: Route) -> (previous: Option<Route>)
        ensures
            final(self)@ == old(self)@.insert(name@, route@),
            previous is Some <==> old(self)@.contains_key(name@),
            previous matches Some(r) ==> r@ == old(self)@[name@],
    {
        proof {
            use_type_invariant(&*self);
            lemma_entries_map(self.entries@);
            assert(self@ == entries_map(self.entries@));
        }
        let (at, found) = self.position(name.as_str());
        let ghost before = self.entries@;
        let ghost names = names_of(before);
        let ghost entry = (name, route);
        let mut entries: Vec<(String, Route)> = Vec::new();
        core::mem::swap(&mut entries, &mut self.entries);
        let previous = if found {
            let old_entry = entries.remove(at);
            entries.insert(at, (name, route));
            proof {
                assert(entries@ =~= before.update(at as int, entry));
                assert(names_of(entries@) =~= names);
                assert(old_entry == before[at as int]);
                assert(entries_map(before)[names[at as int]] == before[at as int].1@);
            }
            Some(old_entry.1)
        } else {
            entries.insert(at, (name, route));
            proof {
                let after = names_of(entries@);
                assert(after =~= names.insert(at as int, entry.0@));
                assert forall|i: int, j: int| 0 <= i < j < after.len() implies lex_lt(
                    #[trigger] after[i],
                    #[trigger] after[j],
                ) by {
                    if i < at && j > at {
                        assert(lex_lt(names[i], names[j - 1]));
                    } else if i < at && j < at {
                        assert(lex_lt(names[i], names[j]));
                    } else if i > at {
                        assert(lex_lt(names[i - 1], names[j - 1]));
                    }
                }
                if names.contains(entry.0@) {
                    let i = choose|i: int| 0 <= i < names.len() && names[i] == entry.0@;
                    lemma_lex_irreflexive(entry.0@);
                }
            }
            None
        };
        proof {
            let after = entries@;
            lemma_entries_map(after);
            let wanted = entries_map(before).insert(entry.0@, entry.1@);
            assert(names_of(after)[at as int] == entry.0@);
            assert(entries_map(after)[names_of(after)[at as int]] == after[at as int].1@);
            assert forall|k: Seq<char>|
                #![trigger entries_map(after).contains_key(k)]
                entries_map(after).contains_key(k) <==> wanted.contains_key(k) by {
                if names_of(after).contains(k) {
                    let i = choose|i: int| 0 <= i < after.len() && names_of(after)[i] == k;
                    if i != at {
                        let o = if found || i < at {
                            i
                        } else {
                            i - 1
                        };
                        assert(names[o] == k);
                    }
                }
                if names.contains(k) {
                    let o = choose|o: int| 0 <= o < names.len() && names[o] == k;
                    let i = if found || o < at {
                        o
                    } else {
                        o + 1
                    };
                    assert(names_of(after)[i] == k);
                }
            }
            assert forall|k: Seq<char>| #[trigger]
                entries_map(after).contains_key(k) implies entries_map(after)[k] == wanted[k] by {
                let i = choose|i: int| 0 <= i < after.len() && names_of(after)[i] == k;
                assert(entries_map(after)[names_of(after)[i]] == after[i].1@);
                if i != at {
                    let o = if found || i < at {
                        i
                    } else {
                        i - 1
                    };
                    assert(names[o] == k);
                    assert(entries_map(before)[names[o]] == before[o].1@);
                    if found {
                        assert(lex_lt(names[i], names[at as int]) || lex_lt(
                            names[at as int],
                            names[i],
                        ));
                        lemma_lex_irreflexive(k);
                    } else {
                        lemma_lex_irreflexive(k);
                    }
                }
            }
            assert(entries_map(after) =~= wanted);
        }
        self.entries = entries;
        previous
    }
}

impl Clone for Route {
    fn clone(&self) -> (copy: Self)
        ensures
            copy@ == self@,
        decreases self,
    {
        match self {
            Route::Page(html) => Route::Page(html.clone()),
            Route::Directory(map) => Route::Directory(map.clone()),
        }
    }
}

impl Clone for RouteMap {
    fn clone(&self) -> (copy: Self)
        ensures
            copy@ == self@,
        decreases self,
    {
        proof {
            use_type_invariant(self);
        }
        let mut entries: Vec<(String, Route)> = Vec::new();
        let mut i: usize = 0;
        while i < self.entries.len()
            invariant
                i <= self.entries.len(),
                entries.len() == i,
                names_of(entries@) == names_of(self.entries@).take(i as int),
                entries_map(entries@) == entries_map(self.entries@.take(i as int)),
            decreases self.entries.len() - i,
        {
            let name = self.entries[i].0.clone();
            let route = self.entries[i].1.clone();
            let ghost before = entries@;
            entries.push((name, route));
            proof {
                assert(entries@.drop_last() =~= before);
                assert(self.entries@.take(i + 1).drop_last() =~= self.entries@.take(i as int));
                assert(names_of(entries@) =~= names_of(self.entries@).take(i + 1));
            }
            i += 1;
        }
        proof {
            assert(self.entries@.take(i as int) =~= self.entries@);
            assert(names_of(self.entries@).take(i as int) =~= names_of(self.entries@));
        }
        RouteMap { entries }
    }
}

/// The one redirect: the bare root stands for its index.
pub open spec fn redirected(path: Seq<char>) -> Seq<char> {
    if path == "/"@ {
        "/index"@
    } else {
        path
    }
}

/// The parts that are not empty, in order.
pub open spec fn non_empty(parts: Seq<Seq<char>>) -> Seq<Seq<char>>
    decreases parts.len(),
{
    if parts.len() == 0 {
        Seq::empty()
    } else if parts[0].len() == 0 {
        non_empty(parts.skip(1))
    } else {
        seq![parts[0]] + non_empty(parts.skip(1))
    }
}

/// The segments of a request path: after the redirect, what stands between
/// the slashes, empty pieces left out.
pub open spec fn segments(path: Seq<char>) -> Seq<Seq<char>> {
    non_empty(split_on(redirected(path), "/"@))
}

/// Walks `segs` down from the directory `children`. A missing name ends the
/// walk with nothing; a page ends it with that page, whatever segments are
/// left; when the segments run out the directory reached is the result.
pub open spec fn walk(children: Tree, segs: Seq<Seq<char>>) -> Option<RouteView>
    decreases segs.len(),
{
    if segs.len() == 0 {
        Some(RouteView::Directory(children))
    } else if !children.contains_key(segs[0]) {
        None
    } else {
        match children[segs[0]] {
            RouteView::Page(html) => Some(RouteView::Page(html)),
            RouteView::Directory(sub) => walk(sub, segs.skip(1)),
        }
    }
}

/// What a request path resolves to in the tree rooted at `children`.
pub open spec fn resolve(children: Tree, path: Seq<char>) -> Option<RouteView> {
    walk(children, segments(path))
}

/// The directory that `segs` leads to through directories alone, if each
/// segment names one.
pub open spec fn dir_at(children: Tree, segs: Seq<Seq<char>>) -> Option<Tree>
    decreases segs.len(),
{
    if segs.len() == 0 {
        Some(children)
    } else if !children.contains_key(segs[0]) {
        None
    } else {
        match children[segs[0]] {
            RouteView::Page(_) => None,
            RouteView::Directory(sub) => dir_at(sub, segs.skip(1)),
        }
    }
}

/// Whether the walk along `segs` breaks off at segment `k`: the segments
/// before it lead to a directory, and that directory has no child named by
/// segment `k`.
pub open spec fn absent_at(children: Tree, segs: Seq<Seq<char>>, k: int) -> bool {
    &&& 0 <= k < segs.len()
    &&& dir_at(children, segs.take(k)) matches Some(dir) && !dir.contains_key(segs[k])
}

/// Whether the walk along `segs` meets a page at segment `k`.
pub open spec fn page_at(children: Tree, segs: Seq<Seq<char>>, k: int, html: Seq<char>) -> bool {
    &&& 0 <= k < segs.len()
    &&& dir_at(children, segs.take(k)) matches Some(dir) && dir.contains_key(segs[k])
        && dir[segs[k]] == RouteView::Page(html)
}

/// Whether a path is present in the tree: its walk breaks off nowhere.
pub open spec fn present(children: Tree, path: Seq<char>) -> bool {
    forall|k: int| !#[trigger] absent_at(children, segments(path), k)
}

/// A walk that breaks off at a missing name yields nothing.
pub proof fn lemma_absent_walk(children: Tree, segs: Seq<Seq<char>>, k: int)
    requires
        absent_at(children, segs, k),
    ensures
        walk(children, segs) is None,
    decreases segs.len(),
{
    if k == 0 {
        assert(segs.take(0).len() == 0);
    } else {
        let head = segs.take(k);
        assert(head[0] == segs[0]);
        assert(head.skip(1) =~= segs.skip(1).take(k - 1));
        match children[segs[0]] {
            RouteView::Page(_) => {},
            RouteView::Directory(sub) => {
                lemma_absent_walk(sub, segs.skip(1), k - 1);
            },
        }
    }
}

/// A walk that yields nothing broke off at a missing name.
pub proof fn lemma_failed_walk(children: Tree, segs: Seq<Seq<char>>) -> (k: int)
    requires
        walk(children, segs) is None,
    ensures
        absent_at(children, segs, k),
    decreases segs.len(),
{
    if !children.contains_key(segs[0]) {
        assert(segs.take(0).len() == 0);
        0
    } else {
        match children[segs[0]] {
            RouteView::Page(_) => 0,
            RouteView::Directory(sub) => {
                let inner = lemma_failed_walk(sub, segs.skip(1));
                let head = segs.take(inner + 1);
                assert(head[0] == segs[0]);
                assert(head.skip(1) =~= segs.skip(1).take(inner));
                inner + 1
            },
        }
    }
}

/// A page met on the way ends the walk: the result is that page, and the
/// segments after it are not looked at.
pub proof fn lemma_page_ends_walk(children: Tree, segs: Seq<Seq<char>>, k: int, html: Seq<char>)
    requires
        page_at(children, segs, k, html),
    ensures
        walk(children, segs) == Some(RouteView::Page(html)),
    decreases segs.len(),
{
    if k == 0 {
        assert(segs.take(0).len() == 0);
    } else {
        let head = segs.take(k);
        assert(head[0] == segs[0]);
        assert(head.skip(1) =~= segs.skip(1).take(k - 1));
        match children[segs[0]] {
            RouteView::Page(_) => {},
            RouteView::Directory(sub) => {
                lemma_page_ends_walk(sub, segs.skip(1), k - 1, html);
            },
        }
    }
}

/// Where the segments run out at a directory, the walk yields that
/// directory with all its children, unchanged.
pub proof fn lemma_directory_verbatim(children: Tree, segs: Seq<Seq<char>>, dir: Tree)
    requires
        dir_at(children, segs) == Some(dir),
    ensures
        walk(children, segs) == Some(RouteView::Directory(dir)),
    decreases segs.len(),
{
    if segs.len() > 0 {
        match children[segs[0]] {
            RouteView::Page(_) => {},
            RouteView::Directory(sub) => {
                lemma_directory_verbatim(sub, segs.skip(1), dir);
            },
        }
    }
}

/// A path resolves to something exactly when it is present in the tree.
pub proof fn lemma_resolve_present(children: Tree, path: Seq<char>)
    ensures
        resolve(children, path) is None <==> !present(children, path),
{
    let segs = segments(path);
    if walk(children, segs) is None {
        let k = lemma_failed_walk(children, segs);
        assert(absent_at(children, segs, k));
    } else {
        assert forall|k: int| !#[trigger] absent_at(children, segs, k) by {
            if absent_at(children, segs, k) {
                lemma_absent_walk(children, segs, k);
            }
        }
    }
}

/// The root resolves to what its index resolves to; where the tree has an
/// `index` at the top, that is the index itself.
pub proof fn lemma_root_is_index(children: Tree)
    ensures
        resolve(children, "/"@) == resolve(children, "/index"@),
        children.contains_key("index"@) ==> resolve(children, "/"@) == Some(children["index"@]),
{
    reveal_strlit("/");
    reveal_strlit("/index");
    reveal_strlit("index");
    let path = "/index"@;
    let slash = "/"@;
    let name = "index"@;
    assert(redirected(slash) == path && redirected(path) == path);
    // The path is cut at its first character, and nowhere else.
    assert(path.take(1) =~= slash);
    assert(path.take(0) =~= Seq::<char>::empty());
    assert(path.skip(1) =~= name);
    lemma_split_without_match(name, slash);
    let parts = split_on(path, slash);
    assert(parts =~= seq![Seq::<char>::empty(), name]);
    assert(parts.skip(1) =~= seq![name]);
    assert(parts.skip(1).skip(1) =~= Seq::<Seq<char>>::empty());
    assert(non_empty(parts.skip(1).skip(1)) =~= Seq::<Seq<char>>::empty());
    assert(non_empty(parts.skip(1)) =~= seq![name]);
    assert(non_empty(parts) =~= seq![name]);
    let segs = segments(slash);
    assert(segs == seq![name]);
    if children.contains_key(name) {
        match children[name] {
            RouteView::Page(_) => {},
            RouteView::Directory(sub) => {
                assert(segs.skip(1).len() == 0);
                assert(walk(sub, segs.skip(1)) == Some(RouteView::Directory(sub)));
            },
        }
    }
}

/// Resolves a slash-delimited path in the tree rooted at `base_routes`:
/// the page or directory it points to, or nothing where a segment names no
/// child.
pub fn parse_route(route: &str, base_routes: &RouteMap) -> (found: Option<Route>)
    ensures
        found is Some <==> resolve(base_routes@, route@) is Some,
        found matches Some(r) ==> resolve(base_routes@, route@) == Some(r@),
        found is None <==> !present(base_routes@, route@),
{
    proof {
        lemma_resolve_present(base_routes@, route@);
    }
    // The one redirect; no other rewriting is done.
    let path = if same_text(route, "/") {
        "/index"
    } else {
        route
    };
    let parts = split(path, "/");
    let mut current_route_map = base_routes;
    let mut i: usize = 0;
    assert(texts(parts@).skip(0) =~= texts(parts@));
    while i < parts.len()
        invariant
            i <= parts.len(),
            resolve(base_routes@, route@) is None <==> !present(base_routes@, route@),
            resolve(base_routes@, route@) == walk(
                current_route_map@,
                non_empty(texts(parts@).skip(i as int)),
            ),
        decreases parts.len() - i,
    {
        let ghost rest = texts(parts@).skip(i as int);
        let part = parts[i].as_str();
        proof {
            assert(rest[0] == part@);
            assert(rest.skip(1) =~= texts(parts@).skip(i + 1));
            assert((seq![part@] + non_empty(rest.skip(1))).skip(1) =~= non_empty(rest.skip(1)));
        }
        if !part.is_empty() {
            match current_route_map.get(part) {
                Some(route) => match route {
                    Route::Page(_) => {
                        return Some(route.clone());
                    },
                    Route::Directory(sub_routes) => {
                        current_route_map = sub_routes;
                    },
                },
                None => {
                    return None;
                },
            }
        }
        i += 1;
    }
    Some(Route::Directory(current_route_map.clone()))
}

} // verus!
