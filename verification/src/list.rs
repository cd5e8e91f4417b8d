//! The listing of a directory: one entry for each child that can be shown.
use crate::directory_path::{lemma_relative_text, relative_path, DirectoryPath};
use crate::media::{
    extension, extension_of, file_type, file_type_of, guess_media_type, guessed_media_type,
    is_file_kind, lemma_default_top_level, lemma_file_type_kind, top_level, DIRECTORY_FILE_TYPE,
};
use crate::mtime::{get_time, in_date_range, shown_moment, utc_text, MTIME_FORMAT};
use crate::path::{
    entries, is_absolute, is_child_name, is_descendant_of, is_link, lemma_names_after,
    lemma_pushed_name, names_after, names_parent, parent_name, pushed, relative_text, remainder,
    starts_with,
};
use crate::text::text_of;
use vstd::prelude::*;

verus! {

/// The size shown for a directory.
pub const DEFAULT_SIZE: &'static str = "-";

/// What a child of a directory is.
#[derive(Clone, Copy, Debug, PartialEq, Eq, Structural)]
pub enum ChildKind {
    /// A regular file, or anything else that is neither of the others.
    File,
    /// A directory.
    Directory,
    /// A symbolic link, whatever it points to.
    Symlink,
}

/// What the file system tells of a child.
#[derive(Debug)]
pub struct ChildMetadata {
    /// What the child is.
    pub kind: ChildKind,
    /// The size of the child, written for a reader.
    pub size: String,
    /// The moment of its last change, in seconds from the start of 1970,
    /// where the file system tells one.
    pub modified: Option<i64>,
}

/// One child of a directory, as read from the file system.
#[derive(Debug)]
pub struct Child {
    /// The name of the child; none where it is no valid text.
    pub name: Option<String>,
    /// What the file system tells of the child; none where it could not be
    /// asked.
    pub metadata: Option<ChildMetadata>,
}

/// One entry of a listing, as the contracts speak of it.
pub struct EntryView {
    pub name: Seq<char>,
    pub size: Seq<char>,
    pub file_type: Seq<char>,
    pub mtime: Seq<char>,
    pub is_dir: bool,
    pub is_symlink: bool,
    pub path: Seq<char>,
    pub ext: Seq<char>,
}

/// One entry of a listing: a child of the directory listed.
#[derive(Debug)]
pub struct ListingEntry {
    name: String,
    size: String,
    file_type: String,
    mtime: String,
    is_dir: bool,
    is_symlink: bool,
    path: String,
    ext: String,
}

/// What holds of every entry: its link starts with the separator and never
/// names a parent directory, its extension is that of its name, and a
/// directory is no symbolic link and has the size and kind of a directory.
pub open spec fn is_sound_entry(entry: EntryView) -> bool {
    &&& is_link(entry.path)
    &&& entry.ext == extension(entry.name)
    &&& entry.is_dir ==> !entry.is_symlink && entry.size == DEFAULT_SIZE@ && entry.file_type
        == DIRECTORY_FILE_TYPE@
}

impl View for ListingEntry {
    type V = EntryView;

    closed spec fn view(&self) -> EntryView {
        EntryView {
            name: self.name@,
            size: self.size@,
            file_type: self.file_type@,
            mtime: self.mtime@,
            is_dir: self.is_dir,
            is_symlink: self.is_symlink,
            path: self.path@,
            ext: self.ext@,
        }
    }
}

/// The link to the child of `dir` that has the given name, as seen from
/// `root`: the relative path of the child. None where the path of the child
/// does not begin with `root`, or a name that follows `root` in it is that
/// of the parent directory.
pub open spec fn link_for(dir: Seq<char>, root: Seq<char>, name: Seq<char>) -> Option<Seq<char>> {
    let path = pushed(dir, name);
    if starts_with(path, root) && !names_after(path, root).contains(parent_name()) {
        Some(relative_text(path, root))
    } else {
        None
    }
}

/// The entry that a listing of `dir` under `root` shows for `child`, if it
/// shows one, given the time of its last change as written and the guess at
/// its media type. A child without a name or without metadata is left out,
/// and so is one that has no link, or whose time could not be written.
pub open spec fn entry_with(
    dir: Seq<char>,
    root: Seq<char>,
    child: Child,
    mtime: Option<Seq<char>>,
    guess: Option<Seq<char>>,
) -> Option<EntryView> {
    match (child.name, child.metadata, mtime) {
        (Some(name), Some(metadata), Some(mtime)) => match link_for(dir, root, name@) {
            Some(path) => {
                let is_dir = metadata.kind == ChildKind::Directory;
                Some(
                    EntryView {
                        name: name@,
                        size: if is_dir {
                            DEFAULT_SIZE@
                        } else {
                            metadata.size@
                        },
                        file_type: file_type(is_dir, guess),
                        mtime,
                        is_dir,
                        is_symlink: metadata.kind == ChildKind::Symlink,
                        path,
                        ext: extension(name@),
                    },
                )
            },
            None => None,
        },
        _ => None,
    }
}

/// The time of the last change of `child` as a listing shows it: none
/// where the child has no metadata, or the time cannot be written.
pub open spec fn mtime_for(child: Child, now: i64) -> Option<Seq<char>> {
    match child.metadata {
        Some(metadata) => utc_text(shown_moment(metadata.modified, now) as int, MTIME_FORMAT@),
        None => None,
    }
}

/// The guess at the media type of `child`, from the extension of its name.
pub open spec fn guess_for(child: Child) -> Option<Seq<char>> {
    match child.name {
        Some(name) => guessed_media_type(extension(name@)),
        None => None,
    }
}

/// The entry that a listing of `dir` under `root` shows for `child`, if it
/// shows one.
pub open spec fn entry_for(dir: Seq<char>, root: Seq<char>, child: Child, now: i64) -> Option<
    EntryView,
> {
    entry_with(dir, root, child, mtime_for(child, now), guess_for(child))
}

/// The entries that a listing of `dir` under `root` shows for `children`:
/// one for each child that can be shown, in the order of the children.
pub open spec fn entries_for(dir: Seq<char>, root: Seq<char>, children: Seq<Child>, now: i64) -> Seq<
    EntryView,
>
    decreases children.len(),
{
    if children.len() == 0 {
        Seq::empty()
    } else {
        let before = entries_for(dir, root, children.drop_last(), now);
        match entry_for(dir, root, children.last(), now) {
            Some(entry) => before.push(entry),
            None => before,
        }
    }
}

/// Whether a listing of `dir` under `root` shows `child`: it has a name and
/// metadata, there is a link to it, and the moment that is shown for it lies
/// within the dates that can be written.
pub open spec fn shows(dir: Seq<char>, root: Seq<char>, child: Child, now: i64) -> bool {
    match (child.name, child.metadata) {
        (Some(name), Some(metadata)) => link_for(dir, root, name@) is Some && in_date_range(
            shown_moment(metadata.modified, now),
        ),
        _ => false,
    }
}

/// The number of `children` that a listing of `dir` under `root` shows.
pub open spec fn shown_count(dir: Seq<char>, root: Seq<char>, children: Seq<Child>, now: i64) -> nat
    decreases children.len(),
{
    if children.len() == 0 {
        0
    } else {
        let before = shown_count(dir, root, children.drop_last(), now);
        if shows(dir, root, children.last(), now) {
            before + 1
        } else {
            before
        }
    }
}

/// The kind of an entry is told: it is not empty, and it is that of a
/// directory for a directory alone.
pub open spec fn has_kind(entry: EntryView) -> bool {
    entry.file_type.len() > 0 && (entry.file_type == DIRECTORY_FILE_TYPE@ <==> entry.is_dir)
}

/// The entries of a vector, as the contracts speak of them.
pub open spec fn entry_views(entries: Seq<ListingEntry>) -> Seq<EntryView> {
    entries.map_values(|entry: ListingEntry| entry@)
}

impl ListingEntry {
    #[verifier::type_invariant]
    spec fn is_sound(&self) -> bool {
        is_sound_entry(self@)
    }

    /// The entry for one child of `dir`, which is listed under the root
    /// `home`, given the time of its last change as written and the guess at
    /// the media type of a file. None where the child cannot be shown: it
    /// has no name or no metadata, its path does not begin with `home` or
    /// leads up by a name behind it, or there is no time to show.
    pub fn from_parts(
        child: &Child,
        dir: &DirectoryPath,
        home: &str,
        mtime: Option<String>,
        guess: Option<String>,
    ) -> (made: Option<ListingEntry>)
        ensures
            match made {
                Some(entry) => entry_with(dir@, home@, *child, text_of(mtime), text_of(guess))
                    == Some(entry@),
                None => entry_with(dir@, home@, *child, text_of(mtime), text_of(guess)) is None,
            },
    {
        let name = match &child.name {
            Some(name) => name.clone(),
            None => {
                return None;
            },
        };
        let metadata = match &child.metadata {
            Some(metadata) => metadata,
            None => {
                return None;
            },
        };
        let mtime = match mtime {
            Some(mtime) => mtime,
            None => {
                return None;
            },
        };
        let path = match relative_path(dir.child(name.as_str()).as_path(), home) {
            Ok(path) => path,
            Err(_) => {
                return None;
            },
        };
        if names_parent(path.as_str()) {
            return None;
        }
        let is_dir = match metadata.kind {
            ChildKind::Directory => true,
            _ => false,
        };
        let is_symlink = match metadata.kind {
            ChildKind::Symlink => true,
            _ => false,
        };
        let ext = extension_of(name.as_str());
        let size = if is_dir {
            DEFAULT_SIZE.to_string()
        } else {
            metadata.size.clone()
        };
        let file_type = file_type_of(is_dir, guess);
        Some(ListingEntry { name, size, file_type, mtime, is_dir, is_symlink, path, ext })
    }

    /// The entry for one child of `dir`, which is listed under the root
    /// `home`. None where the child cannot be shown. `now` stands in where
    /// the child has no time of its own.
    pub fn from_child(child: &Child, dir: &DirectoryPath, home: &str, now: i64) -> (made: Option<
        ListingEntry,
    >)
        ensures
            match made {
                Some(entry) => entry_for(dir@, home@, *child, now) == Some(entry@),
                None => entry_for(dir@, home@, *child, now) is None,
            },
            made is Some <==> shows(dir@, home@, *child, now),
            made matches Some(entry) ==> has_kind(entry@),
    {
        let mtime = match &child.metadata {
            Some(metadata) => get_time(metadata.modified, now),
            None => None,
        };
        let guess = match &child.name {
            Some(name) => guess_media_type(extension_of(name.as_str()).as_str()),
            None => None,
        };
        proof {
            lemma_file_type_kind(
                child.metadata is Some && child.metadata->Some_0.kind == ChildKind::Directory,
                text_of(guess),
            );
        }
        ListingEntry::from_parts(child, dir, home, mtime, guess)
    }

    /// The name of the child.
    pub fn name(&self) -> (text: &str)
        ensures
            text@ == self@.name,
    {
        self.name.as_str()
    }

    /// The size of the child, written for a reader; `-` for a directory.
    pub fn size(&self) -> (text: &str)
        ensures
            text@ == self@.size,
    {
        self.size.as_str()
    }

    /// The kind of the child: `directory`, or the top level of the media
    /// type of a file.
    pub fn file_type(&self) -> (text: &str)
        ensures
            text@ == self@.file_type,
    {
        self.file_type.as_str()
    }

    /// The time of the last change of the child.
    pub fn mtime(&self) -> (text: &str)
        ensures
            text@ == self@.mtime,
    {
        self.mtime.as_str()
    }

    /// Whether the child is a directory.
    pub fn is_dir(&self) -> (answer: bool)
        ensures
            answer == self@.is_dir,
    {
        self.is_dir
    }

    /// Whether the child is a symbolic link.
    pub fn is_symlink(&self) -> (answer: bool)
        ensures
            answer == self@.is_symlink,
    {
        self.is_symlink
    }

    /// The path of the child as seen from the root: where its link leads.
    pub fn path(&self) -> (text: &str)
        ensures
            text@ == self@.path,
            is_link(text@),
    {
        proof {
            use_type_invariant(self);
        }
        self.path.as_str()
    }

    /// The extension of the name of the child; empty where it has none.
    pub fn ext(&self) -> (text: &str)
        ensures
            text@ == self@.ext,
            text@ == extension(self@.name),
    {
        proof {
            use_type_invariant(self);
        }
        self.ext.as_str()
    }
}

/// Why a directory cannot be listed.
#[derive(Debug)]
pub enum ListError {
    /// The directory could not be read; the words are those of the file
    /// system.
    EnumerationFailed(String),
    /// The path of the directory does not begin with the root.
    NotUnderRoot,
}

impl ListError {
    /// The status that a server answers this error with: 404 for a directory
    /// outside the root, 400 for one that could not be read.
    pub fn status_code(&self) -> (code: u16)
        ensures
            code == match self {
                ListError::EnumerationFailed(_) => 400u16,
                ListError::NotUnderRoot => 404u16,
            },
    {
        match self {
            ListError::EnumerationFailed(_) => 400,
            ListError::NotUnderRoot => 404,
        }
    }
}

/// A listing, as the contracts speak of it.
pub struct ContextView {
    pub path: Seq<char>,
    pub items: Seq<EntryView>,
}

/// A listing: the path of a directory as seen from the root, and its
/// entries in the order in which the file system gave its children.
#[derive(Debug)]
pub struct ListingContext {
    path: String,
    items: Vec<ListingEntry>,
}

impl View for ListingContext {
    type V = ContextView;

    closed spec fn view(&self) -> ContextView {
        ContextView { path: self.path@, items: entry_views(self.items@) }
    }
}

impl ListingContext {
    #[verifier::type_invariant]
    spec fn is_sound(&self) -> bool {
        is_absolute(self.path@)
    }

    /// The path of the directory as seen from the root. It starts with the
    /// separator.
    pub fn path(&self) -> (text: &str)
        ensures
            text@ == self@.path,
            is_absolute(text@),
    {
        proof {
            use_type_invariant(self);
        }
        self.path.as_str()
    }

    /// The entries, in the order of the children.
    pub fn items(&self) -> (entries: &Vec<ListingEntry>)
        ensures
            entry_views(entries@) == self@.items,
    {
        &self.items
    }
}

/// Every entry that a listing shows is sound.
pub proof fn lemma_entry_for_is_sound(dir: Seq<char>, root: Seq<char>, child: Child, now: i64)
    ensures
        entry_for(dir, root, child, now) matches Some(entry) ==> is_sound_entry(entry),
{
    if let Some(entry) = entry_for(dir, root, child, now) {
        lemma_relative_text(pushed(dir, child.name->Some_0@), root);
    }
}

/// A file whose extension tells nothing has the kind `application`, the top
/// level of the default media type: its kind is never empty.
pub proof fn lemma_unguessed_kind(dir: Seq<char>, root: Seq<char>, child: Child, now: i64)
    ensures
        entry_for(dir, root, child, now) matches Some(entry) ==> (!entry.is_dir
            && guessed_media_type(entry.ext) is None ==> entry.file_type == "application"@
            && entry.file_type.len() == 11),
{
    lemma_default_top_level();
}

/// Kind and size tell a directory from a file. Where the guess has a top
/// level that is the kind of a file, and the size of a file is written with
/// some text other than that of a directory, an entry has a kind and a size
/// that are not empty, and they are those of a directory for a directory
/// alone.
pub proof fn lemma_entry_kind_and_size(
    dir: Seq<char>,
    root: Seq<char>,
    child: Child,
    mtime: Option<Seq<char>>,
    guess: Option<Seq<char>>,
)
    requires
        guess matches Some(media) ==> is_file_kind(top_level(media)),
        child.metadata matches Some(metadata) ==> metadata.size@.len() > 0 && metadata.size@
            != DEFAULT_SIZE@,
    ensures
        entry_with(dir, root, child, mtime, guess) matches Some(entry) ==> {
            &&& has_kind(entry)
            &&& entry.size.len() > 0
            &&& entry.size == DEFAULT_SIZE@ <==> entry.is_dir
        },
{
    reveal_strlit("-");
    if let Some(entry) = entry_with(dir, root, child, mtime, guess) {
        lemma_file_type_kind(entry.is_dir, guess);
    }
}

/// A child of a directory that lies in the root has a link, where its name
/// is one that leads downwards: the link is the relative path of the
/// directory followed by the name, and the child lies in the root too.
pub proof fn lemma_child_link(dir: Seq<char>, root: Seq<char>, name: Seq<char>)
    requires
        is_descendant_of(dir, root),
        is_child_name(name),
    ensures
        link_for(dir, root, name) == Some(pushed(relative_text(dir, root), name)),
        is_descendant_of(pushed(dir, name), root),
{
    let path = pushed(dir, name);
    lemma_pushed_name(dir, name);
    lemma_names_after(dir, root);
    lemma_relative_text(dir, root);
    assert(entries(path) == entries(dir).push(name));
    assert(entries(root).is_prefix_of(entries(path)));
    assert(remainder(path, root) == remainder(dir, root).push(name));
    assert(names_after(path, root) == names_after(dir, root).push(name));
    assert(names_after(path, root).drop_last() == names_after(dir, root));
    if names_after(path, root).contains(parent_name()) {
        let i = choose|i: int|
            0 <= i < names_after(path, root).len() && names_after(path, root)[i] == parent_name();
        if i < names_after(dir, root).len() {
            assert(is_child_name(remainder(dir, root)[i]));
        }
    }
}

/// The link of an entry is the path of the listing followed by the name of
/// the entry, where the directory listed lies in the root and the name is
/// one that leads downwards.
pub proof fn lemma_entry_link(dir: Seq<char>, root: Seq<char>, child: Child, now: i64)
    requires
        is_descendant_of(dir, root),
        child.name matches Some(name) && is_child_name(name@),
    ensures
        entry_for(dir, root, child, now) matches Some(entry) ==> entry.path == pushed(
            relative_text(dir, root),
            entry.name,
        ),
{
    lemma_child_link(dir, root, child.name->Some_0@);
}

/// A child that was read: it has a name and metadata.
pub open spec fn is_readable(child: Child) -> bool {
    child.name is Some && child.metadata is Some
}

/// The number of `children` that were read.
pub open spec fn readable_count(children: Seq<Child>) -> nat
    decreases children.len(),
{
    if children.len() == 0 {
        0
    } else if is_readable(children.last()) {
        readable_count(children.drop_last()) + 1
    } else {
        readable_count(children.drop_last())
    }
}

/// A listing has one entry for each child that was read, and none for any
/// other. This holds for a directory that lies in the root, where the name
/// of each child that was read leads downwards and its time can be written.
pub proof fn lemma_entries_count(dir: Seq<char>, root: Seq<char>, children: Seq<Child>, now: i64)
    requires
        is_descendant_of(dir, root),
        forall|i: int|
            0 <= i < children.len() && is_readable(#[trigger] children[i]) ==> is_child_name(
                children[i].name->Some_0@,
            ) && mtime_for(children[i], now) is Some,
    ensures
        entries_for(dir, root, children, now).len() == readable_count(children),
    decreases children.len(),
{
    if children.len() > 0 {
        let init = children.drop_last();
        assert forall|i: int| 0 <= i < init.len() && is_readable(#[trigger] init[i]) implies is_child_name(
            init[i].name->Some_0@,
        ) && mtime_for(init[i], now) is Some by {
            assert(init[i] == children[i]);
        }
        lemma_entries_count(dir, root, init, now);
        let last = children[children.len() - 1];
        if is_readable(last) {
            lemma_child_link(dir, root, last.name->Some_0@);
        }
    }
}

/// A listing shows each child that was read, and no other. This holds for
/// a directory that lies in the root, where the name of each child that was
/// read leads downwards and the moment shown for it lies within the dates
/// that can be written.
pub proof fn lemma_shown_count(dir: Seq<char>, root: Seq<char>, children: Seq<Child>, now: i64)
    requires
        is_descendant_of(dir, root),
        forall|i: int|
            0 <= i < children.len() && is_readable(#[trigger] children[i]) ==> is_child_name(
                children[i].name->Some_0@,
            ) && in_date_range(shown_moment(children[i].metadata->Some_0.modified, now)),
    ensures
        shown_count(dir, root, children, now) == readable_count(children),
    decreases children.len(),
{
    if children.len() > 0 {
        let init = children.drop_last();
        assert forall|i: int| 0 <= i < init.len() && is_readable(#[trigger] init[i]) implies is_child_name(
            init[i].name->Some_0@,
        ) && in_date_range(shown_moment(init[i].metadata->Some_0.modified, now)) by {
            assert(init[i] == children[i]);
        }
        lemma_shown_count(dir, root, init, now);
        let last = children[children.len() - 1];
        if is_readable(last) {
            lemma_child_link(dir, root, last.name->Some_0@);
        }
    }
}

/// The entries for the children of `path`, which is listed under the root
/// `home`: one for each child that can be shown, in the order of the
/// children. `read` is what reading the directory gave: its children, or
/// the words of the file system on why it could not be read, which are
/// handed on.
pub fn readdir(path: &DirectoryPath, home: &str, read: Result<Vec<Child>, String>, now: i64) -> (found:
    Result<Vec<ListingEntry>, String>)
    ensures
        match read {
            Ok(children) => found matches Ok(entries) && entry_views(entries@) == entries_for(
                path@,
                home@,
                children@,
                now,
            ),
            Err(reason) => found matches Err(words) && words@ == reason@,
        },
        found matches Ok(entries) ==> read matches Ok(children) && entries@.len() == shown_count(
            path@,
            home@,
            children@,
            now,
        ),
        found matches Ok(entries) ==> forall|i: int|
            0 <= i < entries@.len() ==> has_kind(#[trigger] entries@[i]@),
{
    let children = match read {
        Ok(children) => children,
        Err(reason) => {
            return Err(reason);
        },
    };
    let mut entries: Vec<ListingEntry> = Vec::new();
    let mut i: usize = 0;
    while i < children.len()
        invariant
            i <= children.len(),
            entry_views(entries@) == entries_for(path@, home@, children@.take(i as int), now),
            entries@.len() == shown_count(path@, home@, children@.take(i as int), now),
            forall|j: int| 0 <= j < entries@.len() ==> has_kind(#[trigger] entries@[j]@),
        decreases children.len() - i,
    {
        assert(children@.take(i + 1).drop_last() == children@.take(i as int));
        assert(children@.take(i + 1).last() == children@[i as int]);
        match ListingEntry::from_child(&children[i], path, home, now) {
            Some(entry) => {
                assert(entry_views(entries@.push(entry)) == entry_views(entries@).push(entry@));
                entries.push(entry);
            },
            None => {},
        }
        i += 1;
    }
    assert(children@.take(children@.len() as int) == children@);
    Ok(entries)
}

/// The listing of the directory `path` under the root `home`. `read` is
/// what reading the directory gave, `now` the present moment in seconds
/// from the start of 1970.
///
/// A directory that could not be read gives `EnumerationFailed`, one whose
/// path does not begin with `home` gives `NotUnderRoot`. A child that cannot
/// be shown is left out and fails nothing.
pub fn list(path: &DirectoryPath, home: &str, read: Result<Vec<Child>, String>, now: i64) -> (listing:
    Result<ListingContext, ListError>)
    ensures
        match read {
            Err(reason) => listing matches Err(ListError::EnumerationFailed(words)) && words@
                == reason@,
            Ok(children) => if starts_with(path@, home@) {
                listing matches Ok(context) && context@ == (ContextView {
                    path: relative_text(path@, home@),
                    items: entries_for(path@, home@, children@, now),
                }) && context@.items.len() == shown_count(path@, home@, children@, now)
            } else {
                listing matches Err(ListError::NotUnderRoot)
            },
        },
        listing matches Ok(context) ==> forall|i: int|
            0 <= i < context@.items.len() ==> has_kind(#[trigger] context@.items[i]),
{
    match readdir(path, home, read, now) {
        Ok(items) => match relative_path(path.as_path(), home) {
            Ok(path) => {
                assert forall|i: int| 0 <= i < entry_views(items@).len() implies has_kind(
                    #[trigger] entry_views(items@)[i],
                ) by {
                    assert(entry_views(items@)[i] == items@[i]@);
                }
                Ok(ListingContext { path, items })
            },
            Err(_) => Err(ListError::NotUnderRoot),
        },
        Err(reason) => Err(ListError::EnumerationFailed(reason)),
    }
}

} // verus!
