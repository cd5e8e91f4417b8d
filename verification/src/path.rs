//! Paths as text, and what a path names: whether it starts at the file
//! system's root, and the names that follow, in order.
use crate::text::{first_char, last_char, lemma_views_concat, lemma_views_push, views};
use vstd::prelude::*;
use vstd::string::StringExecFns;

verus! {

/// The character that separates the names of a path.
pub const SEPARATOR: char = '/';

/// A path that starts at the root of the file system.
pub open spec fn is_absolute(text: Seq<char>) -> bool {
    text.len() > 0 && text[0] == SEPARATOR
}

/// The text ends inside a name: it is not empty and its last character is
/// no separator.
pub open spec fn ends_in_name(text: Seq<char>) -> bool {
    text.len() > 0 && text.last() != SEPARATOR
}

/// The names of a path: its maximal runs of characters other than the
/// separator, from left to right. Read from the end: a separator adds
/// nothing, any other character lengthens the name that the text before it
/// ends in, or starts a new one.
pub open spec fn components(text: Seq<char>) -> Seq<Seq<char>>
    decreases text.len(),
{
    if text.len() == 0 {
        Seq::empty()
    } else {
        let before = components(text.drop_last());
        if text.last() == SEPARATOR {
            before
        } else if ends_in_name(text.drop_last()) {
            before.drop_last().push(before.last().push(text.last()))
        } else {
            before.push(seq![text.last()])
        }
    }
}

/// One name of a path: not empty, and without a separator.
pub open spec fn is_name(name: Seq<char>) -> bool {
    name.len() > 0 && !name.contains(SEPARATOR)
}

/// A text that ends in a name has at least one name, and its last name is
/// not empty.
pub proof fn lemma_ends_in_name(text: Seq<char>)
    requires
        ends_in_name(text),
    ensures
        components(text).len() > 0,
        components(text).last().len() > 0,
        components(text).last().last() == text.last(),
    decreases text.len(),
{
    if ends_in_name(text.drop_last()) {
        lemma_ends_in_name(text.drop_last());
    }
}

/// Every component is a name.
pub proof fn lemma_components_are_names(text: Seq<char>)
    ensures
        forall|i: int| 0 <= i < components(text).len() ==> is_name(#[trigger] components(text)[i]),
    decreases text.len(),
{
    if text.len() > 0 {
        let init = text.drop_last();
        lemma_components_are_names(init);
        let before = components(init);
        if text.last() != SEPARATOR && ends_in_name(init) {
            lemma_ends_in_name(init);
            let grown = before.last().push(text.last());
            assert forall|j: int| 0 <= j < grown.len() implies grown[j] != SEPARATOR by {
                if j < before.last().len() {
                    assert(before.last().contains(before.last()[j]));
                }
            }
        }
    }
}

/// A separator at the end names nothing.
pub proof fn lemma_components_push_separator(text: Seq<char>)
    ensures
        components(text.push(SEPARATOR)) == components(text),
{
    assert(text.push(SEPARATOR).drop_last() == text);
}

/// A name appended where no name is under way is one more component.
pub proof fn lemma_components_append_name(text: Seq<char>, name: Seq<char>)
    requires
        !ends_in_name(text),
        is_name(name),
    ensures
        components(text + name) == components(text).push(name),
    decreases name.len(),
{
    let init = name.drop_last();
    let whole = text + name;
    assert(whole.drop_last() == text + init);
    assert(name.contains(name.last()));
    if init.len() == 0 {
        assert(text + init == text);
        assert(name == seq![name.last()]);
    } else {
        assert forall|j: int| 0 <= j < init.len() implies init[j] != SEPARATOR by {
            assert(name.contains(name[j]));
        }
        lemma_components_append_name(text, init);
        assert(name.contains(init.last()));
        assert((text + init).last() == init.last());
        assert(init.push(name.last()) == name);
        assert(components(text).push(init).drop_last() == components(text));
    }
}

/// `text` with `name` put behind it as one more name: a separator goes
/// between them where `text` ends in a name.
pub open spec fn pushed(text: Seq<char>, name: Seq<char>) -> Seq<char> {
    if ends_in_name(text) {
        text.push(SEPARATOR) + name
    } else {
        text + name
    }
}

/// `text` with each of `names` put behind it in turn.
pub open spec fn joined(text: Seq<char>, names: Seq<Seq<char>>) -> Seq<char>
    decreases names.len(),
{
    if names.len() == 0 {
        text
    } else {
        pushed(joined(text, names.drop_last()), names.last())
    }
}

/// Pushing a name adds it to the components and leaves the start of the
/// path as it was.
pub proof fn lemma_pushed_name(text: Seq<char>, name: Seq<char>)
    requires
        is_name(name),
    ensures
        components(pushed(text, name)) == components(text).push(name),
        is_absolute(pushed(text, name)) == is_absolute(text),
        ends_in_name(pushed(text, name)),
{
    assert(name.contains(name.last()));
    assert(name.contains(name[0]));
    if ends_in_name(text) {
        lemma_components_push_separator(text);
        lemma_components_append_name(text.push(SEPARATOR), name);
    } else {
        lemma_components_append_name(text, name);
    }
}

/// Joining names onto a path adds them to its components and leaves the
/// start of the path as it was.
pub proof fn lemma_joined_names(text: Seq<char>, names: Seq<Seq<char>>)
    requires
        forall|i: int| 0 <= i < names.len() ==> is_name(#[trigger] names[i]),
    ensures
        components(joined(text, names)) == components(text) + names,
        is_absolute(joined(text, names)) == is_absolute(text),
    decreases names.len(),
{
    if names.len() == 0 {
        assert(components(text) + names == components(text));
    } else {
        let init = names.drop_last();
        lemma_joined_names(text, init);
        lemma_pushed_name(joined(text, init), names.last());
        assert((components(text) + init).push(names.last()) == components(text) + names);
    }
}

/// What a path consists of: a lone separator first where the path is
/// absolute, then its names.
pub open spec fn entries(text: Seq<char>) -> Seq<Seq<char>> {
    if is_absolute(text) {
        seq![seq![SEPARATOR]] + components(text)
    } else {
        components(text)
    }
}

/// `path` begins with all of `base`, taken entry by entry: `/srv/www2` does
/// not begin with `/srv/www`.
pub open spec fn starts_with(path: Seq<char>, base: Seq<char>) -> bool {
    entries(base).is_prefix_of(entries(path))
}

/// The entries of `path` that follow those of `base`.
pub open spec fn remainder(path: Seq<char>, base: Seq<char>) -> Seq<Seq<char>> {
    entries(path).skip(entries(base).len() as int)
}

/// The name that stands for the parent directory.
pub open spec fn parent_name() -> Seq<char> {
    seq!['.', '.']
}

/// A name that leads downwards: a name other than that of the parent
/// directory.
pub open spec fn is_child_name(name: Seq<char>) -> bool {
    is_name(name) && name != parent_name()
}

/// `path` lies in `root`, or is `root`: it begins with `root`, and what
/// follows leads only downwards.
pub open spec fn is_descendant_of(path: Seq<char>, root: Seq<char>) -> bool {
    &&& starts_with(path, root)
    &&& forall|i: int|
        0 <= i < remainder(path, root).len() ==> is_child_name(#[trigger] remainder(path, root)[i])
}

/// The names of `path` that follow those of `base`.
pub open spec fn names_after(path: Seq<char>, base: Seq<char>) -> Seq<Seq<char>> {
    components(path).skip(components(base).len() as int)
}

/// The path of `path` as seen from `root`, for a path that begins with
/// `root`: a separator, then the names that follow `root` in it, with one
/// separator between two.
pub open spec fn relative_text(path: Seq<char>, root: Seq<char>) -> Seq<char> {
    joined(seq![SEPARATOR], names_after(path, root))
}

/// In a path that begins with `base`, the names of `base` are the first
/// names of the path. What follows `base` are the names after them, behind
/// the lone separator where only the path is absolute.
pub proof fn lemma_names_after(path: Seq<char>, base: Seq<char>)
    requires
        starts_with(path, base),
    ensures
        components(base).is_prefix_of(components(path)),
        is_absolute(path) == is_absolute(base) ==> remainder(path, base) == names_after(path, base),
        is_absolute(path) != is_absolute(base) ==> remainder(path, base) == seq![seq![SEPARATOR]]
            + names_after(path, base),
        forall|i: int|
            0 <= i < names_after(path, base).len() ==> is_name(#[trigger] names_after(path, base)[i]),
{
    lemma_components_are_names(path);
    lemma_components_are_names(base);
    let mark = seq![SEPARATOR];
    assert(mark.contains(mark[0]));
    let mine = components(path);
    let theirs = components(base);
    if is_absolute(base) {
        assert(entries(base)[0] == mark);
        assert(entries(path)[0] == mark);
        if !is_absolute(path) {
            assert(is_name(mine[0]));
        }
        assert(theirs =~= mine.subrange(0, theirs.len() as int)) by {
            assert forall|i: int| 0 <= i < theirs.len() implies theirs[i] == mine[i] by {
                assert(entries(base)[i + 1] == entries(path)[i + 1]);
            }
        }
        assert(remainder(path, base) =~= names_after(path, base));
    } else if is_absolute(path) {
        if theirs.len() > 0 {
            assert(entries(base)[0] == entries(path)[0]);
            assert(is_name(theirs[0]));
        }
        assert(remainder(path, base) =~= mark_first(names_after(path, base)));
    } else {
        assert(remainder(path, base) =~= names_after(path, base));
    }
    assert forall|i: int| 0 <= i < names_after(path, base).len() implies is_name(
        #[trigger] names_after(path, base)[i],
    ) by {
        assert(names_after(path, base)[i] == mine[i + theirs.len()]);
    }
}

/// The lone separator followed by `names`.
spec fn mark_first(names: Seq<Seq<char>>) -> Seq<Seq<char>> {
    seq![seq![SEPARATOR]] + names
}

/// A path that a link may hold: it starts with the separator and never
/// names a parent directory.
pub open spec fn is_link(text: Seq<char>) -> bool {
    &&& is_absolute(text)
    &&& !components(text).contains(parent_name())
}

/// The names of `path`, in order.
pub fn split_path(path: &str) -> (names: Vec<String>)
    ensures
        views(names@) == components(path@),
{
    let mut names: Vec<String> = Vec::new();
    let mut name = String::new();
    for c in it: path.chars()
        invariant
            it.seq() == path@,
            name@.len() > 0 <==> ends_in_name(path@.take(it.index() as int)),
            components(path@.take(it.index() as int)) == if name@.len() > 0 {
                views(names@).push(name@)
            } else {
                views(names@)
            },
    {
        let ghost seen = path@.take(it.index() as int);
        let ghost next = path@.take(it.index() + 1);
        let ghost done = views(names@);
        let ghost run = name@;
        assert(next.drop_last() == seen);
        assert(next.last() == c);
        if c == SEPARATOR {
            if !name.as_str().is_empty() {
                proof {
                    lemma_views_push(names@, name);
                }
                names.push(name);
                name = String::new();
            }
        } else {
            name.push(c);
            proof {
                if run.len() > 0 {
                    assert(done.push(run).drop_last() == done);
                } else {
                    assert(run.push(c) == seq![c]);
                }
            }
        }
    }
    assert(path@.take(path@.len() as int) == path@);
    if !name.as_str().is_empty() {
        proof {
            lemma_views_push(names@, name);
        }
        names.push(name);
    }
    names
}

/// Whether `path` starts at the root of the file system.
pub fn starts_at_root(path: &str) -> (absolute: bool)
    ensures
        absolute == is_absolute(path@),
{
    match first_char(path) {
        Some(c) => c == SEPARATOR,
        None => false,
    }
}

/// What `path` consists of: a lone separator first where it is absolute,
/// then its names.
pub fn path_entries(path: &str) -> (found: Vec<String>)
    ensures
        views(found@) == entries(path@),
{
    let mut found: Vec<String> = Vec::new();
    if starts_at_root(path) {
        let mut mark = String::new();
        mark.push(SEPARATOR);
        proof {
            lemma_views_push(found@, mark);
            assert(mark@ == seq![SEPARATOR]);
        }
        found.push(mark);
    }
    let mut names = split_path(path);
    proof {
        lemma_views_concat(found@, names@);
    }
    found.append(&mut names);
    found
}

/// `base` with each of `names` put behind it in turn, a separator between
/// two names.
pub fn join_names(base: &str, names: &Vec<String>) -> (text: String)
    ensures
        text@ == joined(base@, views(names@)),
{
    let mut text = base.to_string();
    let mut in_name = match last_char(base) {
        Some(c) => c != SEPARATOR,
        None => false,
    };
    let mut i: usize = 0;
    while i < names.len()
        invariant
            i <= names.len(),
            text@ == joined(base@, views(names@).take(i as int)),
            in_name == ends_in_name(text@),
        decreases names.len() - i,
    {
        proof {
            let upto = views(names@).take(i + 1);
            assert(upto.drop_last() == views(names@).take(i as int));
            assert(upto.last() == names@[i as int]@);
        }
        if in_name {
            text.push(SEPARATOR);
        }
        text.append(names[i].as_str());
        in_name = match last_char(names[i].as_str()) {
            Some(c) => c != SEPARATOR,
            None => false,
        };
        i += 1;
    }
    assert(views(names@).take(names@.len() as int) == views(names@));
    text
}

/// Whether one of the names of `path` is that of the parent directory.
pub fn names_parent(path: &str) -> (found: bool)
    ensures
        found == components(path@).contains(parent_name()),
{
    let names = split_path(path);
    let mut parent = String::new();
    parent.push('.');
    parent.push('.');
    let mut i: usize = 0;
    while i < names.len()
        invariant
            i <= names.len(),
            parent@ == parent_name(),
            views(names@) == components(path@),
            forall|j: int| 0 <= j < i ==> components(path@)[j] != parent_name(),
        decreases names.len() - i,
    {
        assert(views(names@)[i as int] == names@[i as int]@);
        if names[i] == parent {
            return true;
        }
        i += 1;
    }
    assert(views(names@).len() == names@.len());
    false
}

} // verus!
