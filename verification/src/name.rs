//! A file name and its two parts: the base name, or stem, and the extension.

use crate::text::{
    chars_of, find_last, last_occurrence, lemma_last_occurrence, lemma_last_occurrence_is, occurs_at,
};
use vstd::prelude::*;

verus! {

/// The dot, as text.
pub open spec fn dot() -> Seq<char> {
    seq!['.']
}

/// The name that stands for the parent directory.
pub open spec fn parent_name() -> Seq<char> {
    seq!['.', '.']
}

/// The position of the dot that sets the extension off: the last dot of the
/// name, unless the name starts with it or is `..`.
pub open spec fn extension_dot(name: Seq<char>) -> Option<int> {
    match last_occurrence(name, dot()) {
        Some(at) => if at > 0 && name != parent_name() {
            Some(at)
        } else {
            None
        },
        None => None,
    }
}

/// What follows the last dot of the name; none where `extension_dot` finds
/// no dot.
pub open spec fn extension_of(name: Seq<char>) -> Option<Seq<char>> {
    match extension_dot(name) {
        Some(at) => Some(name.subrange(at + 1, name.len() as int)),
        None => None,
    }
}

/// The name without its extension and the dot before it.
pub open spec fn stem_of(name: Seq<char>) -> Seq<char> {
    match extension_dot(name) {
        Some(at) => name.subrange(0, at),
        None => name,
    }
}

/// Whether `text` holds a dot.
pub open spec fn has_dot(text: Seq<char>) -> bool {
    exists|i: int| 0 <= i < text.len() && text[i] == '.'
}

/// A stem and an extension joined by a dot come apart again as they were,
/// where the stem is not empty, the extension holds no dot and the whole is
/// not `..`.
pub proof fn lemma_name_parts(stem: Seq<char>, extension: Seq<char>)
    requires
        stem.len() > 0,
        !has_dot(extension),
        stem + dot() + extension != parent_name(),
    ensures
        extension_of(stem + dot() + extension) == Some(extension),
        stem_of(stem + dot() + extension) == stem,
{
    let name = stem + dot() + extension;
    let at = stem.len() as int;
    assert(name.subrange(at, at + 1) =~= dot());
    assert forall|j: int| at < j implies !occurs_at(name, dot(), j) by {
        if occurs_at(name, dot(), j) {
            assert(name.subrange(j, j + 1)[0] == '.');
        }
    }
    lemma_last_occurrence_is(name, dot(), at);
}

/// An extension holds no dot, and a name with an extension is its stem, a
/// dot and its extension.
pub proof fn lemma_extension_parts(name: Seq<char>)
    requires
        extension_of(name) is Some,
    ensures
        !has_dot(extension_of(name)->0),
        stem_of(name).len() > 0,
        name == stem_of(name) + dot() + extension_of(name)->0,
{
    let cut = extension_dot(name)->0;
    let extension = extension_of(name)->0;
    lemma_last_occurrence(name, dot());
    if has_dot(extension) {
        let i = choose|i: int| 0 <= i < extension.len() && extension[i] == '.';
        assert(name.subrange(cut + 1 + i, cut + 1 + i + 1) =~= dot());
        assert(occurs_at(name, dot(), cut + 1 + i));
    }
    assert(name.subrange(cut, cut + 1)[0] == '.');
    assert(name =~= stem_of(name) + dot() + extension);
}

/// The position of the dot that sets the extension of `name` off.
pub fn find_extension_dot(name: &Vec<char>) -> (found: Option<usize>)
    ensures
        match found {
            Some(at) => extension_dot(name@) == Some(at as int) && 0 < at < name.len(),
            None => extension_dot(name@) is None,
        },
{
    let mut pattern: Vec<char> = Vec::new();
    pattern.push('.');
    proof {
        lemma_last_occurrence(name@, dot());
    }
    match find_last(name, &pattern) {
        Some(at) => {
            let is_parent = name.len() == 2 && name[0] == '.' && name[1] == '.';
            assert(is_parent == (name@ =~= parent_name()));
            if at > 0 && !is_parent {
                Some(at)
            } else {
                None
            }
        },
        None => None,
    }
}

/// The extension of the file name, if it has one.
pub fn file_extension(name: &str) -> (extension: Option<String>)
    ensures
        match extension {
            Some(text) => extension_of(name@) == Some(text@),
            None => extension_of(name@) is None,
        },
{
    let chars = chars_of(name);
    match find_extension_dot(&chars) {
        Some(at) => Some(name.substring_char(at + 1, chars.len()).to_owned()),
        None => None,
    }
}

/// The file name without its extension.
pub fn file_stem(name: &str) -> (stem: String)
    ensures
        stem@ == stem_of(name@),
{
    let chars = chars_of(name);
    match find_extension_dot(&chars) {
        Some(at) => name.substring_char(0, at).to_owned(),
        None => name.to_owned(),
    }
}

} // verus!
