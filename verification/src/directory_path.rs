//! The path of a file or directory, and its place under a root directory.
use crate::path::{
    components, is_absolute, is_child_name, is_descendant_of, is_link, join_names, joined,
    lemma_joined_names, lemma_names_after, names_after, parent_name, path_entries, pushed,
    relative_text, remainder, split_path, starts_with, SEPARATOR,
};
use crate::text::{last_char, lemma_views_push, views};
use vstd::prelude::*;
use vstd::string::StringExecFns;

verus! {

/// A path does not begin with the directory that it was held against.
#[derive(Clone, Copy, Debug, PartialEq, Eq, Structural)]
pub struct NotUnderRoot;

/// The path of a file or directory, as text.
#[derive(Debug)]
pub struct DirectoryPath {
    inner: String,
}

impl View for DirectoryPath {
    type V = Seq<char>;

    /// The text of the path.
    closed spec fn view(&self) -> Seq<char> {
        self.inner@
    }
}

/// Whether `shorter` holds the first strings of `longer`, in order.
fn is_prefix(shorter: &Vec<String>, longer: &Vec<String>) -> (found: bool)
    ensures
        found == views(shorter@).is_prefix_of(views(longer@)),
{
    if shorter.len() > longer.len() {
        return false;
    }
    let mut i: usize = 0;
    while i < shorter.len()
        invariant
            i <= shorter.len() <= longer.len(),
            forall|j: int| 0 <= j < i ==> shorter@[j]@ == longer@[j]@,
        decreases shorter.len() - i,
    {
        if shorter[i] != longer[i] {
            assert(views(shorter@)[i as int] != views(longer@)[i as int]);
            return false;
        }
        i += 1;
    }
    assert(views(shorter@) =~= views(longer@).subrange(0, shorter@.len() as int));
    true
}

/// The strings of `all` from position `from` on.
fn tail(all: &Vec<String>, from: usize) -> (rest: Vec<String>)
    requires
        from <= all.len(),
    ensures
        views(rest@) == views(all@).skip(from as int),
{
    let mut rest: Vec<String> = Vec::new();
    let mut i: usize = from;
    while i < all.len()
        invariant
            from <= i <= all.len(),
            views(rest@) == views(all@).subrange(from as int, i as int),
        decreases all.len() - i,
    {
        let item = all[i].clone();
        proof {
            lemma_views_push(rest@, item);
        }
        rest.push(item);
        i += 1;
    }
    rest
}

impl DirectoryPath {
    /// The path with the given text.
    pub fn new(path: String) -> (made: DirectoryPath)
        ensures
            made@ == path@,
    {
        DirectoryPath { inner: path }
    }

    /// The path with the given text.
    pub fn from_str(path_str: &str) -> (made: DirectoryPath)
        ensures
            made@ == path_str@,
    {
        DirectoryPath { inner: path_str.to_string() }
    }

    /// The text of the path.
    pub fn as_path(&self) -> (text: &str)
        ensures
            text@ == self@,
    {
        self.inner.as_str()
    }

    /// The text of the path. A path is held as text, so there always is one.
    pub fn to_str(&self) -> (text: Option<&str>)
        ensures
            text matches Some(t) && t@ == self@,
    {
        Some(self.inner.as_str())
    }

    /// The path of the child of this directory that has the given name.
    pub fn child(&self, name: &str) -> (made: DirectoryPath)
        ensures
            made@ == pushed(self@, name@),
    {
        let mut text = self.inner.clone();
        let in_name = match last_char(self.inner.as_str()) {
            Some(c) => c != SEPARATOR,
            None => false,
        };
        if in_name {
            text.push(SEPARATOR);
        }
        text.append(name);
        DirectoryPath { inner: text }
    }

    /// What follows `base` in this path, as a path of its own; an error where
    /// this path does not begin with `base`.
    pub fn strip_prefix(&self, base: &str) -> (rest: Result<String, NotUnderRoot>)
        ensures
            rest is Ok <==> starts_with(self@, base@),
            rest matches Ok(text) ==> text@ == joined(Seq::empty(), remainder(self@, base@)),
    {
        let mine = path_entries(self.as_path());
        let theirs = path_entries(base);
        if is_prefix(&theirs, &mine) {
            let rest = tail(&mine, theirs.len());
            let start = String::new();
            assert(views(theirs@).len() == theirs@.len());
            Ok(join_names(start.as_str(), &rest))
        } else {
            Err(NotUnderRoot)
        }
    }
}

/// The path of `path` as seen from `root`: a separator, then the names that
/// follow `root` in `path`, with one separator between two. An error where
/// `path` does not begin with `root`, entry by entry.
///
/// Where `path` lies in `root`, the result is a path that a link may hold.
pub fn relative_path(path: &str, root: &str) -> (link: Result<String, NotUnderRoot>)
    ensures
        link is Ok <==> starts_with(path@, root@),
        link matches Ok(text) ==> text@ == relative_text(path@, root@) && is_absolute(text@),
        link matches Ok(text) ==> components(text@) == names_after(path@, root@),
        link matches Ok(text) ==> (names_after(path@, root@).len() == 0 ==> text@
            == seq![SEPARATOR]),
        link matches Ok(text) ==> (is_descendant_of(path@, root@) ==> is_link(text@)),
{
    let mine = path_entries(path);
    let theirs = path_entries(root);
    if !is_prefix(&theirs, &mine) {
        return Err(NotUnderRoot);
    }
    let names = split_path(path);
    let skipped = split_path(root).len();
    proof {
        lemma_names_after(path@, root@);
        lemma_relative_text(path@, root@);
        assert(views(names@).len() == names@.len());
    }
    let rest = tail(&names, skipped);
    let mut start = String::new();
    start.push(SEPARATOR);
    Ok(join_names(start.as_str(), &rest))
}

/// The relative path of a path that begins with the root starts with the
/// separator, and its names are those that follow the root. Where the path
/// lies in the root, it is a path that a link may hold, and its names are
/// all that follows the root.
pub proof fn lemma_relative_text(path: Seq<char>, root: Seq<char>)
    requires
        starts_with(path, root),
    ensures
        is_absolute(relative_text(path, root)),
        components(relative_text(path, root)) == names_after(path, root),
        names_after(path, root).len() == 0 ==> relative_text(path, root) == seq![SEPARATOR],
        is_descendant_of(path, root) ==> is_link(relative_text(path, root)) && remainder(path, root)
            == names_after(path, root),
{
    let start = seq![SEPARATOR];
    let rest = names_after(path, root);
    lemma_names_after(path, root);
    lemma_joined_names(start, rest);
    assert(components(start) == Seq::<Seq<char>>::empty()) by {
        assert(start.drop_last() == Seq::<char>::empty());
        assert(components(Seq::<char>::empty()) == Seq::<Seq<char>>::empty());
    }
    assert(components(start) + rest == rest);
    if is_descendant_of(path, root) {
        if is_absolute(path) != is_absolute(root) {
            let mark = seq![SEPARATOR];
            assert(remainder(path, root)[0] == mark);
            assert(mark.contains(mark[0]));
            assert(is_child_name(remainder(path, root)[0]));
        }
        if rest.contains(parent_name()) {
            let i = choose|i: int| 0 <= i < rest.len() && rest[i] == parent_name();
            assert(is_child_name(remainder(path, root)[i]));
        }
    }
}

} // verus!
