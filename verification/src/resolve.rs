//! From the segments of a request to a path under the root.
use crate::directory_path::{lemma_relative_text, DirectoryPath};
use crate::path::{
    components, entries, is_child_name, is_descendant_of, join_names, joined,
    lemma_joined_names, relative_text, remainder,
};
use crate::segment::{
    decoded_segment, lemma_decoded_plain_text, percent_decode, segment_check, validate_segment,
    SegmentCheck, SegmentError,
};
use crate::text::{lemma_views_push, views};
use vstd::prelude::*;

verus! {

/// The segments of a request name no path: one of them is refused.
#[derive(Clone, Copy, Debug, PartialEq, Eq, Structural)]
pub struct InvalidPath {
    /// The position of the first segment that is refused.
    pub index: usize,
    /// Why it is refused.
    pub reason: SegmentError,
}

impl InvalidPath {
    /// The status that a server answers a request for such segments with.
    pub fn status_code(&self) -> (code: u16)
        ensures
            code == 400,
    {
        400
    }
}

/// The names that raw segments lead down by, starting from nothing: each
/// segment is decoded and checked; a name is added at the end, `..` takes the
/// last name away where there is one, and the first segment that is refused
/// ends it all. An empty segment names nothing.
pub open spec fn accumulated(segments: Seq<Seq<char>>, backslash_separates: bool) -> Result<
    Seq<Seq<char>>,
    InvalidPath,
>
    decreases segments.len(),
{
    if segments.len() == 0 {
        Ok(Seq::empty())
    } else {
        let index = (segments.len() - 1) as usize;
        match accumulated(segments.drop_last(), backslash_separates) {
            Err(error) => Err(error),
            Ok(names) => match decoded_segment(segments.last()) {
                None => Err(InvalidPath { index, reason: SegmentError::InvalidEncoding }),
                Some(text) => match segment_check(text, backslash_separates) {
                    SegmentCheck::Reject(reason) => Err(InvalidPath { index, reason }),
                    SegmentCheck::Parent => Ok(
                        if names.len() > 0 {
                            names.drop_last()
                        } else {
                            names
                        },
                    ),
                    SegmentCheck::Accept => Ok(
                        if text.len() > 0 {
                            names.push(text)
                        } else {
                            names
                        },
                    ),
                },
            },
        }
    }
}

/// Whatever segments lead down by are names, and none of them is that of
/// the parent directory.
pub proof fn lemma_accumulated_leads_down(
    segments: Seq<Seq<char>>,
    backslash_separates: bool,
    names: Seq<Seq<char>>,
)
    requires
        accumulated(segments, backslash_separates) == Ok::<Seq<Seq<char>>, InvalidPath>(names),
    ensures
        forall|i: int| 0 <= i < names.len() ==> is_child_name(#[trigger] names[i]),
    decreases segments.len(),
{
    if segments.len() > 0 {
        let before = accumulated(segments.drop_last(), backslash_separates)->Ok_0;
        lemma_accumulated_leads_down(segments.drop_last(), backslash_separates, before);
        let text = decoded_segment(segments.last())->Some_0;
        assert forall|i: int| 0 <= i < names.len() implies is_child_name(#[trigger] names[i]) by {
            if i < before.len() {
                assert(names[i] == before[i]);
            } else {
                assert(names[i] == text);
            }
        }
    }
}

/// Why a raw segment is refused, if it is: it does not decode, or the check
/// refuses what it stands for.
pub open spec fn refusal(segment: Seq<char>, backslash_separates: bool) -> Option<SegmentError> {
    match decoded_segment(segment) {
        None => Some(SegmentError::InvalidEncoding),
        Some(text) => match segment_check(text, backslash_separates) {
            SegmentCheck::Reject(reason) => Some(reason),
            _ => None,
        },
    }
}

/// A raw segment that holds nothing forbidden.
pub open spec fn is_allowed(segment: Seq<char>, backslash_separates: bool) -> bool {
    refusal(segment, backslash_separates) is None
}

/// Where segments lead nowhere, the error names the first segment that is
/// refused, and says why it is.
pub proof fn lemma_accumulated_error(segments: Seq<Seq<char>>, backslash_separates: bool)
    requires
        segments.len() <= usize::MAX,
    ensures
        accumulated(segments, backslash_separates) matches Err(error) ==> {
            &&& error.index < segments.len()
            &&& refusal(segments[error.index as int], backslash_separates) == Some(error.reason)
            &&& forall|i: int|
                0 <= i < error.index ==> is_allowed(#[trigger] segments[i], backslash_separates)
        },
    decreases segments.len(),
{
    if segments.len() > 0 {
        let init = segments.drop_last();
        lemma_accumulated_error(init, backslash_separates);
        if let Err(error) = accumulated(segments, backslash_separates) {
            if accumulated(init, backslash_separates) is Ok {
                assert forall|i: int| 0 <= i < error.index implies is_allowed(
                    #[trigger] segments[i],
                    backslash_separates,
                ) by {
                    if !is_allowed(segments[i], backslash_separates) {
                        lemma_refused_fails(init, i, backslash_separates);
                    }
                }
            } else {
                assert forall|i: int| 0 <= i < error.index implies is_allowed(
                    #[trigger] segments[i],
                    backslash_separates,
                ) by {
                    assert(init[i] == segments[i]);
                }
            }
        }
    }
}

/// One refused segment is enough for segments to lead nowhere.
pub proof fn lemma_refused_fails(segments: Seq<Seq<char>>, at: int, backslash_separates: bool)
    requires
        0 <= at < segments.len(),
        !is_allowed(segments[at], backslash_separates),
    ensures
        accumulated(segments, backslash_separates) is Err,
    decreases segments.len(),
{
    if at < segments.len() - 1 {
        lemma_refused_fails(segments.drop_last(), at, backslash_separates);
    }
}

/// Segments that all decode, and of which the check refuses none, lead
/// somewhere, however many of them ask for the parent.
pub proof fn lemma_accumulated_succeeds(segments: Seq<Seq<char>>, backslash_separates: bool)
    requires
        forall|i: int|
            0 <= i < segments.len() ==> is_allowed(#[trigger] segments[i], backslash_separates),
    ensures
        accumulated(segments, backslash_separates) is Ok,
    decreases segments.len(),
{
    if segments.len() > 0 {
        let init = segments.drop_last();
        assert forall|i: int| 0 <= i < init.len() implies is_allowed(
            #[trigger] init[i],
            backslash_separates,
        ) by {
            assert(init[i] == segments[i]);
        }
        lemma_accumulated_succeeds(init, backslash_separates);
        assert(is_allowed(segments[segments.len() - 1], backslash_separates));
    }
}

/// Resolving never leaves the root: segments that all decode, and of which
/// the check refuses none, resolve to a path that lies in the root, however
/// many of them ask for the parent.
pub proof fn lemma_resolved_lies_in_root(
    segments: Seq<Seq<char>>,
    root: Seq<char>,
    backslash_separates: bool,
)
    requires
        forall|i: int|
            0 <= i < segments.len() ==> is_allowed(#[trigger] segments[i], backslash_separates),
    ensures
        accumulated(segments, backslash_separates) matches Ok(names) && is_descendant_of(
            joined(root, names),
            root,
        ),
{
    lemma_accumulated_succeeds(segments, backslash_separates);
    let names = accumulated(segments, backslash_separates)->Ok_0;
    lemma_accumulated_leads_down(segments, backslash_separates, names);
    lemma_joined_is_descendant(root, names);
}

/// A path made by joining names that lead downwards onto a root lies in
/// that root, and the names are what follows the root in it.
pub proof fn lemma_joined_is_descendant(root: Seq<char>, names: Seq<Seq<char>>)
    requires
        forall|i: int| 0 <= i < names.len() ==> is_child_name(#[trigger] names[i]),
    ensures
        is_descendant_of(joined(root, names), root),
        remainder(joined(root, names), root) == names,
        entries(joined(root, names)) == entries(root) + names,
{
    lemma_joined_names(root, names);
    let whole = joined(root, names);
    assert(entries(whole) == entries(root) + names);
    assert(entries(whole).subrange(0, entries(root).len() as int) == entries(root));
    assert(entries(whole).skip(entries(root).len() as int) == names);
}

impl DirectoryPath {
    /// The path under `root` that the raw segments of a request name.
    ///
    /// Each segment is percent-decoded and checked in turn. A name is added
    /// to those gathered so far, `..` takes the last of them away, and does
    /// nothing where none is left. The names that remain are joined onto
    /// `root`, so the path lies in `root` whatever the segments hold. The
    /// first segment that is refused makes the whole request invalid.
    pub fn from_segments(segments: &Vec<String>, root: &str, backslash_separates: bool) -> (resolved:
        Result<DirectoryPath, InvalidPath>)
        ensures
            match accumulated(views(segments@), backslash_separates) {
                Ok(names) => resolved matches Ok(path) && path@ == joined(root@, names),
                Err(error) => resolved matches Err(found) && found == error,
            },
            resolved matches Ok(path) ==> is_descendant_of(path@, root@),
    {
        let mut names: Vec<String> = Vec::new();
        let mut index: usize = 0;
        assert(views(segments@).take(0) == Seq::<Seq<char>>::empty());
        assert(views(names@) == Seq::<Seq<char>>::empty());
        while index < segments.len()
            invariant
                index <= segments.len(),
                accumulated(views(segments@).take(index as int), backslash_separates) == Ok::<
                    Seq<Seq<char>>,
                    InvalidPath,
                >(views(names@)),
            decreases segments.len() - index,
        {
            let ghost upto = views(segments@).take(index + 1);
            assert(upto.drop_last() == views(segments@).take(index as int));
            assert(upto.last() == segments@[index as int]@);
            let decoded = match percent_decode(segments[index].as_str()) {
                Ok(text) => text,
                Err(reason) => {
                    proof {
                        lemma_accumulated_fails(views(segments@), index + 1, backslash_separates);
                    }
                    return Err(InvalidPath { index, reason });
                },
            };
            match validate_segment(decoded.as_str(), backslash_separates) {
                SegmentCheck::Reject(reason) => {
                    proof {
                        lemma_accumulated_fails(views(segments@), index + 1, backslash_separates);
                    }
                    return Err(InvalidPath { index, reason });
                },
                SegmentCheck::Parent => {
                    if names.len() > 0 {
                        assert(views(names@).drop_last() == views(names@.drop_last()));
                        names.pop();
                    }
                },
                SegmentCheck::Accept => {
                    if !decoded.as_str().is_empty() {
                        proof {
                            lemma_views_push(names@, decoded);
                        }
                        names.push(decoded);
                    }
                },
            }
            index += 1;
        }
        proof {
            assert(views(segments@).take(segments@.len() as int) == views(segments@));
            lemma_accumulated_leads_down(views(segments@), backslash_separates, views(names@));
            lemma_joined_is_descendant(root@, views(names@));
        }
        Ok(DirectoryPath::new(join_names(root, &names)))
    }
}

/// Once the first segments are refused, so is the whole sequence, for the
/// same reason.
pub proof fn lemma_accumulated_fails(segments: Seq<Seq<char>>, upto: int, backslash_separates: bool)
    requires
        0 <= upto <= segments.len(),
        accumulated(segments.take(upto), backslash_separates) is Err,
    ensures
        accumulated(segments, backslash_separates) == accumulated(
            segments.take(upto),
            backslash_separates,
        ),
    decreases segments.len() - upto,
{
    if upto < segments.len() {
        assert(segments.take(upto + 1).drop_last() == segments.take(upto));
        lemma_accumulated_fails(segments, upto + 1, backslash_separates);
    } else {
        assert(segments.take(upto) == segments);
    }
}

/// A name that the resolver takes as it stands: decoding leaves it as it
/// is, and the check accepts it.
pub open spec fn passes_unchanged(name: Seq<char>, backslash_separates: bool) -> bool {
    &&& decoded_segment(name) == Some(name)
    &&& segment_check(name, backslash_separates) == SegmentCheck::Accept
}

/// A name without `%` that the check accepts is taken as it stands.
pub proof fn lemma_plain_name_passes(name: Seq<char>, backslash_separates: bool)
    requires
        !name.contains('%'),
        segment_check(name, backslash_separates) == SegmentCheck::Accept,
    ensures
        passes_unchanged(name, backslash_separates),
{
    lemma_decoded_plain_text(name);
}

/// Names that the resolver takes as they stand lead down by themselves.
pub proof fn lemma_accumulated_unchanged(names: Seq<Seq<char>>, backslash_separates: bool)
    requires
        forall|i: int|
            0 <= i < names.len() ==> names[i].len() > 0 && passes_unchanged(
                #[trigger] names[i],
                backslash_separates,
            ),
    ensures
        accumulated(names, backslash_separates) == Ok::<Seq<Seq<char>>, InvalidPath>(names),
    decreases names.len(),
{
    if names.len() > 0 {
        let init = names.drop_last();
        assert forall|i: int| 0 <= i < init.len() implies init[i].len() > 0 && passes_unchanged(
            #[trigger] init[i],
            backslash_separates,
        ) by {
            assert(init[i] == names[i]);
        }
        lemma_accumulated_unchanged(init, backslash_separates);
        assert(passes_unchanged(names[names.len() - 1], backslash_separates));
        assert(init.push(names.last()) == names);
    } else {
        assert(names == Seq::<Seq<char>>::empty());
    }
}

/// Resolving undoes what `relative_path` does. For a path `dir` that lies
/// in `root`, take its relative path, split it at the separators and resolve
/// the names against `root`: the result names what `dir` names, entry by
/// entry. This holds where the resolver takes each name between `root` and
/// `dir` as it stands.
pub proof fn lemma_resolve_undoes_relative(
    dir: Seq<char>,
    root: Seq<char>,
    backslash_separates: bool,
)
    requires
        is_descendant_of(dir, root),
        forall|i: int|
            0 <= i < remainder(dir, root).len() ==> passes_unchanged(
                #[trigger] remainder(dir, root)[i],
                backslash_separates,
            ),
    ensures
        accumulated(components(relative_text(dir, root)), backslash_separates) matches Ok(names)
            && entries(joined(root, names)) == entries(dir),
{
    let names = remainder(dir, root);
    assert forall|i: int| 0 <= i < names.len() implies names[i].len() > 0 && passes_unchanged(
        #[trigger] names[i],
        backslash_separates,
    ) by {
        assert(is_child_name(names[i]));
    }
    lemma_relative_text(dir, root);
    lemma_accumulated_unchanged(names, backslash_separates);
    lemma_joined_is_descendant(root, names);
    assert(entries(root) + names == entries(dir));
}

} // verus!
