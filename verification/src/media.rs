//! The kind of a file, from the extension of its name.
use crate::text::{chars_of, string_of, text_of};
use vstd::prelude::*;

verus! {

/// The kind shown for a directory.
pub const DIRECTORY_FILE_TYPE: &'static str = "directory";

/// The media type of a file whose extension tells nothing.
pub const DEFAULT_MIME_TYPE: &'static str = "application/unknown";

/// The first media type that the table of `mime_guess` holds for a file
/// extension, if it holds one.
pub uninterp spec fn guessed_media_type(extension: Seq<char>) -> Option<Seq<char>>;

/// The kind of a file: a text that is not empty and is not the kind shown
/// for a directory.
pub open spec fn is_file_kind(kind: Seq<char>) -> bool {
    kind.len() > 0 && kind != DIRECTORY_FILE_TYPE@
}

/// `mime_guess::from_ext(..).first_raw()`: the first media type that the
/// crate's table holds for the extension, looked up without regard to the
/// case of its letters. There is none for the empty extension. Every media
/// type of the table has a top level before its `/`, one of `application`,
/// `audio`, `chemical`, `drawing`, `font`, `image`, `message`, `model`,
/// `text`, `video`, `x-conference` and `x-world`.
#[verifier::external_body]
pub(crate) fn guess_media_type(extension: &str) -> (guess: Option<String>)
    ensures
        text_of(guess) == guessed_media_type(extension@),
        extension@.len() == 0 ==> guess is None,
        guess matches Some(media) ==> is_file_kind(top_level(media@)),
{
    match mime_guess::from_ext(extension).first_raw() {
        Some(media) => Some(media.to_string()),
        None => None,
    }
}

/// The position of the last dot of `name`; -1 where it has none.
pub open spec fn last_dot(name: Seq<char>) -> int
    decreases name.len(),
{
    if name.len() == 0 {
        -1
    } else if name.last() == '.' {
        name.len() - 1
    } else {
        last_dot(name.drop_last())
    }
}

/// The extension of a file name: what follows its last dot. A name without
/// a dot has none, nor has one whose only dot comes first; then this is the
/// empty text.
pub open spec fn extension(name: Seq<char>) -> Seq<char> {
    if last_dot(name) <= 0 {
        Seq::empty()
    } else {
        name.skip(last_dot(name) + 1)
    }
}

/// The number of characters of `media` before its first `/`: all of them
/// where it has none.
pub open spec fn top_level_len(media: Seq<char>) -> nat
    decreases media.len(),
{
    if media.len() == 0 || media[0] == '/' {
        0
    } else {
        1 + top_level_len(media.skip(1))
    }
}

/// The top level of a media type: in `text/plain` it is `text`.
pub open spec fn top_level(media: Seq<char>) -> Seq<char> {
    media.take(top_level_len(media) as int)
}

/// The kind of a file or directory: a fixed word for a directory, else the
/// top level of the media type guessed from the extension, and that of the
/// default media type where there is no guess.
pub open spec fn file_type(is_dir: bool, guess: Option<Seq<char>>) -> Seq<char> {
    if is_dir {
        DIRECTORY_FILE_TYPE@
    } else {
        match guess {
            Some(media) => top_level(media),
            None => top_level(DEFAULT_MIME_TYPE@),
        }
    }
}

/// The top level of the default media type is `application`.
pub proof fn lemma_default_top_level()
    ensures
        top_level(DEFAULT_MIME_TYPE@) == "application"@,
        top_level(DEFAULT_MIME_TYPE@).len() == 11,
{
    reveal_strlit("application/unknown");
    reveal_strlit("application");
    let media = DEFAULT_MIME_TYPE@;
    lemma_top_level_len(media, 11);
}

/// The kind of a directory is that of a directory alone: a file has a kind
/// that is not empty and differs from it, where the top level of the guess
/// does.
pub proof fn lemma_file_type_kind(is_dir: bool, guess: Option<Seq<char>>)
    requires
        guess matches Some(media) ==> is_file_kind(top_level(media)),
    ensures
        file_type(is_dir, guess).len() > 0,
        file_type(is_dir, guess) == DIRECTORY_FILE_TYPE@ <==> is_dir,
{
    lemma_default_top_level();
    reveal_strlit("directory");
    reveal_strlit("application");
    if !is_dir && guess is None {
        assert("application"@[0] != "directory"@[0]);
    }
}

/// Where the first `/` of `media` stands at `at`, or `media` has none and
/// `at` is its length, its top level has `at` characters.
pub proof fn lemma_top_level_len(media: Seq<char>, at: int)
    requires
        0 <= at <= media.len(),
        forall|i: int| 0 <= i < at ==> media[i] != '/',
        at < media.len() ==> media[at] == '/',
    ensures
        top_level_len(media) == at,
    decreases media.len(),
{
    if at > 0 {
        lemma_top_level_len(media.skip(1), at - 1);
    }
}

/// The extension of a file name.
pub fn extension_of(name: &str) -> (found: String)
    ensures
        found@ == extension(name@),
{
    let chars = chars_of(name);
    let mut dot: usize = 0;
    let mut seen = false;
    let mut i: usize = 0;
    while i < chars.len()
        invariant
            i <= chars.len(),
            seen ==> dot < i,
            last_dot(chars@.take(i as int)) == if seen {
                dot as int
            } else {
                -1
            },
        decreases chars.len() - i,
    {
        assert(chars@.take(i + 1).drop_last() == chars@.take(i as int));
        if chars[i] == '.' {
            dot = i;
            seen = true;
        }
        i += 1;
    }
    assert(chars@.take(chars@.len() as int) == chars@);
    if seen && dot > 0 {
        string_of(&chars, dot + 1, chars.len())
    } else {
        String::new()
    }
}

/// The top level of a media type.
pub fn top_level_type(media: &str) -> (top: String)
    ensures
        top@ == top_level(media@),
{
    let chars = chars_of(media);
    let mut at: usize = 0;
    while at < chars.len() && chars[at] != '/'
        invariant
            at <= chars.len(),
            forall|i: int| 0 <= i < at ==> chars@[i] != '/',
        decreases chars.len() - at,
    {
        at += 1;
    }
    proof {
        lemma_top_level_len(chars@, at as int);
    }
    string_of(&chars, 0, at)
}

/// The kind of a file or directory, from a guess at its media type.
pub fn file_type_of(is_dir: bool, guess: Option<String>) -> (kind: String)
    ensures
        kind@ == file_type(is_dir, text_of(guess)),
        !is_dir && guess is None ==> kind@ == "application"@,
{
    proof {
        lemma_default_top_level();
    }
    if is_dir {
        DIRECTORY_FILE_TYPE.to_string()
    } else {
        match guess {
            Some(media) => top_level_type(media.as_str()),
            None => top_level_type(DEFAULT_MIME_TYPE),
        }
    }
}

} // verus!
