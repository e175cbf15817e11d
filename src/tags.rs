use std::cmp::Ordering;
use vstd::prelude::*;

use crate::version::{compare, parse_spec, regex_matches, render, DwVersion, VERSION_PATTERN};

verus! {

/// A tag that counts as a version: it has the shape of [`VERSION_PATTERN`]
/// and can be read.
pub open spec fn is_version_tag(t: Seq<char>) -> bool {
    regex_matches(VERSION_PATTERN@, t) && parse_spec(t) is Some
}

/// The greatest version among the tags that count as versions; of several
/// equal ones, the last. `None` when no tag counts.
pub fn latest_version(tags: &Vec<String>) -> (r: Option<DwVersion>)
    ensures
        r is None <==> forall|i: int| 0 <= i < tags@.len() ==> !is_version_tag(#[trigger] tags@[i]@),
        r is Some ==> exists|i: int|
            0 <= i < tags@.len() && is_version_tag(#[trigger] tags@[i]@) && parse_spec(tags@[i]@)
                == Some(r->0@) && forall|j: int|
                i < j < tags@.len() && is_version_tag(#[trigger] tags@[j]@) ==> compare(
                    parse_spec(tags@[j]@)->0,
                    r->0@,
                ) == Ordering::Less,
        r is Some ==> forall|j: int|
            0 <= j < tags@.len() && is_version_tag(#[trigger] tags@[j]@) ==> compare(
                parse_spec(tags@[j]@)->0,
                r->0@,
            ) != Ordering::Greater,
{
    let mut best: Option<DwVersion> = None;
    let ghost mut at: int = 0;
    let mut i: usize = 0;
    while i < tags.len()
        invariant
            i <= tags@.len(),
            best is None <==> forall|k: int| 0 <= k < i ==> !is_version_tag(#[trigger] tags@[k]@),
            best is Some ==> 0 <= at < i && is_version_tag(tags@[at]@) && parse_spec(tags@[at]@)
                == Some(best->0@),
            best is Some ==> forall|j: int|
                at < j < i && is_version_tag(#[trigger] tags@[j]@) ==> compare(
                    parse_spec(tags@[j]@)->0,
                    best->0@,
                ) == Ordering::Less,
            best is Some ==> forall|j: int|
                0 <= j < i && is_version_tag(#[trigger] tags@[j]@) ==> compare(
                    parse_spec(tags@[j]@)->0,
                    best->0@,
                ) != Ordering::Greater,
        decreases tags@.len() - i,
    {
        let t = tags[i].as_str();
        assert(tags@[i as int]@ == t@);
        if DwVersion::is_valid_version(t) {
            match DwVersion::parse(t) {
                Some(v) => {
                    let replace = match &best {
                        None => true,
                        Some(b) => match v.cmp(b) {
                            Ordering::Less => false,
                            _ => true,
                        },
                    };
                    if replace {
                        best = Some(v);
                        proof {
                            at = i as int;
                        }
                    }
                },
                None => {},
            }
        }
        i = i + 1;
    }
    proof {
        if best is Some {
            assert(is_version_tag(tags@[at]@));
        }
    }
    best
}

/// A tag whose build segment cannot be read; with `shaped_only`, only one
/// that also has the shape of [`VERSION_PATTERN`].
pub open spec fn unreadable_tag(t: Seq<char>, shaped_only: bool) -> bool {
    parse_spec(t) is None && (shaped_only ==> regex_matches(VERSION_PATTERN@, t))
}

/// The index of the first unreadable tag, if any.
pub fn first_unreadable_tag(tags: &Vec<String>, shaped_only: bool) -> (r: Option<usize>)
    ensures
        r is Some ==> r->0 < tags@.len() && unreadable_tag(tags@[r->0 as int]@, shaped_only),
        r is Some ==> forall|j: int|
            0 <= j < r->0 ==> !unreadable_tag(#[trigger] tags@[j]@, shaped_only),
        r is None ==> forall|j: int|
            0 <= j < tags@.len() ==> !unreadable_tag(#[trigger] tags@[j]@, shaped_only),
{
    let mut i: usize = 0;
    while i < tags.len()
        invariant
            i <= tags@.len(),
            forall|j: int| 0 <= j < i ==> !unreadable_tag(#[trigger] tags@[j]@, shaped_only),
        decreases tags@.len() - i,
    {
        let t = tags[i].as_str();
        assert(tags@[i as int]@ == t@);
        if DwVersion::parse(t).is_none() {
            if !shaped_only || DwVersion::is_valid_version(t) {
                return Some(i);
            }
        }
        i = i + 1;
    }
    None
}

/// Whether some tag reads as a version whose text is `tag`.
pub fn tag_exists(tags: &Vec<String>, tag: &str) -> (r: bool)
    ensures
        r <==> exists|i: int|
            0 <= i < tags@.len() && parse_spec(#[trigger] tags@[i]@) is Some && render(
                parse_spec(tags@[i]@)->0,
            ) == tag@,
{
    let wanted = tag.to_owned();
    let mut i: usize = 0;
    while i < tags.len()
        invariant
            i <= tags@.len(),
            wanted@ == tag@,
            forall|k: int|
                0 <= k < i ==> !(parse_spec(#[trigger] tags@[k]@) is Some && render(
                    parse_spec(tags@[k]@)->0,
                ) == tag@),
        decreases tags@.len() - i,
    {
        let t = tags[i].as_str();
        assert(tags@[i as int]@ == t@);
        match DwVersion::parse(t) {
            Some(v) => {
                let text = v.to_string();
                if text == wanted {
                    return true;
                }
            },
            None => {},
        }
        i = i + 1;
    }
    false
}

/// Why a version asked for by hand cannot be tagged.
#[derive(Debug, Clone, Copy, PartialEq, Eq, Structural)]
pub enum TagError {
    /// It does not have the shape of [`VERSION_PATTERN`], or cannot be read.
    InvalidVersion,
    /// A tag already reads as this very text.
    AlreadyExists,
}

/// The version to tag when `tag` is asked for by hand: an error when it is
/// not a valid version, else when a tag already reads as it.
pub fn requested_version(tags: &Vec<String>, tag: &str) -> (r: Result<DwVersion, TagError>)
    ensures
        r == Err::<DwVersion, TagError>(TagError::InvalidVersion) <==> !is_version_tag(tag@),
        r == Err::<DwVersion, TagError>(TagError::AlreadyExists) <==> is_version_tag(tag@) && exists|i: int|
            0 <= i < tags@.len() && parse_spec(#[trigger] tags@[i]@) is Some && render(
                parse_spec(tags@[i]@)->0,
            ) == tag@,
        r is Ok ==> parse_spec(tag@) == Some(r->Ok_0@),
{
    let v = match DwVersion::from(tag) {
        Some(v) => v,
        None => return Err(TagError::InvalidVersion),
    };
    if tag_exists(tags, tag) {
        return Err(TagError::AlreadyExists);
    }
    Ok(v)
}

} // verus!
