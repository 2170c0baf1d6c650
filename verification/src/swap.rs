//! The renaming itself: a base name is split at the last separator, the two
//! pieces are trimmed and exchanged, and the extension is put back.

use crate::config::{ConfigView, RenameConfig};
use crate::name::{
    dot, extension_of, find_extension_dot, has_dot, lemma_extension_parts, lemma_name_parts,
    stem_of,
};
use crate::text::{
    chars_of, find_last, is_blank, last_occurrence, lemma_last_occurrence,
    lemma_last_occurrence_is, lemma_trim_end_skips, lemma_trim_is_tight, lemma_trim_start_skips,
    occurs_at, trim, trim_range, trim_start,
};
use vstd::prelude::*;

verus! {

/// Why a file keeps its name.
#[derive(Clone, Copy, Debug, PartialEq, Eq, Structural)]
pub enum SkipReason {
    /// The file has no extension, or one that is not asked for.
    ExtensionMismatch,
    /// The base name does not come apart into two pieces that both hold
    /// more than white space.
    NotSplittable,
}

/// What becomes of one file.
#[derive(Debug, PartialEq, Eq)]
pub enum RenameOutcome {
    /// The file gets this name, in the directory where it is.
    Renamed { new_name: String },
    /// The file keeps its name.
    Skipped { reason: SkipReason },
}

/// A `RenameOutcome` as plain values.
pub enum OutcomeView {
    Renamed { new_name: Seq<char> },
    Skipped { reason: SkipReason },
}

impl View for RenameOutcome {
    type V = OutcomeView;

    open spec fn view(&self) -> OutcomeView {
        match self {
            RenameOutcome::Renamed { new_name } => OutcomeView::Renamed { new_name: new_name@ },
            RenameOutcome::Skipped { reason } => OutcomeView::Skipped { reason: *reason },
        }
    }
}

/// What stands before and after the last `separator` of `stem`.
pub open spec fn split_last(stem: Seq<char>, separator: Seq<char>) -> Option<
    (Seq<char>, Seq<char>),
> {
    match last_occurrence(stem, separator) {
        Some(at) => Some(
            (stem.subrange(0, at), stem.subrange(at + separator.len(), stem.len() as int)),
        ),
        None => None,
    }
}

/// Two pieces with the join separator between them, padded on both sides.
pub open spec fn joined(
    first: Seq<char>,
    second: Seq<char>,
    padding: Seq<char>,
    separator: Seq<char>,
) -> Seq<char> {
    first + padding + separator + padding + second
}

/// The base name with its two pieces exchanged: what stood after the last
/// split separator comes first. None where the separator does not occur, or
/// where a piece holds nothing but white space.
pub open spec fn swapped_stem(stem: Seq<char>, settings: ConfigView) -> Option<Seq<char>> {
    match split_last(stem, settings.split_separator) {
        Some((before, after)) => if trim(before).len() > 0 && trim(after).len() > 0 {
            Some(joined(trim(after), trim(before), settings.padding, settings.join_separator))
        } else {
            None
        },
        None => None,
    }
}

/// What becomes of the file called `name`.
pub open spec fn outcome_of(name: Seq<char>, settings: ConfigView) -> OutcomeView {
    match extension_of(name) {
        Some(extension) => if settings.extensions.contains(extension) {
            match swapped_stem(stem_of(name), settings) {
                Some(stem) => OutcomeView::Renamed { new_name: stem + dot() + extension },
                None => OutcomeView::Skipped { reason: SkipReason::NotSplittable },
            }
        } else {
            OutcomeView::Skipped { reason: SkipReason::ExtensionMismatch }
        },
        None => OutcomeView::Skipped { reason: SkipReason::ExtensionMismatch },
    }
}

/// Exchanges the two pieces of a base name.
pub fn swap_stem(stem: &str, config: &RenameConfig) -> (swapped: Option<String>)
    ensures
        match swapped {
            Some(text) => swapped_stem(stem@, config@) == Some(text@),
            None => swapped_stem(stem@, config@) is None,
        },
{
    let chars = chars_of(stem);
    let separator = chars_of(config.split_separator());
    match find_last(&chars, &separator) {
        Some(at) => {
            let before = trim_range(&chars, 0, at);
            let after = trim_range(&chars, at + separator.len(), chars.len());
            if before.0 < before.1 && after.0 < after.1 {
                let mut text = String::new();
                text.append(stem.substring_char(after.0, after.1));
                text.append(config.padding());
                text.append(config.join_separator());
                text.append(config.padding());
                text.append(stem.substring_char(before.0, before.1));
                Some(text)
            } else {
                None
            }
        },
        None => None,
    }
}

/// Decides what becomes of the file called `name`.
pub fn plan_rename(name: &str, config: &RenameConfig) -> (outcome: RenameOutcome)
    ensures
        outcome@ == outcome_of(name@, config@),
{
    let chars = chars_of(name);
    match find_extension_dot(&chars) {
        Some(at) => {
            let extension = name.substring_char(at + 1, chars.len());
            if config.matches_extension(extension) {
                match swap_stem(name.substring_char(0, at), config) {
                    Some(stem) => {
                        let mut new_name = stem;
                        new_name.append(".");
                        new_name.append(extension);
                        proof {
                            reveal_strlit(".");
                            assert("."@ =~= dot());
                        }
                        RenameOutcome::Renamed { new_name }
                    },
                    None => RenameOutcome::Skipped { reason: SkipReason::NotSplittable },
                }
            } else {
                RenameOutcome::Skipped { reason: SkipReason::ExtensionMismatch }
            }
        },
        None => RenameOutcome::Skipped { reason: SkipReason::ExtensionMismatch },
    }
}

/// A base name made of `before`, the separator and `after`, where the
/// separator does not occur again behind `before`, comes apart into these
/// two pieces and no others, however often `before` holds the separator.
pub proof fn law_split_last(before: Seq<char>, after: Seq<char>, separator: Seq<char>)
    requires
        forall|j: int|
            before.len() < j ==> !occurs_at(before + separator + after, separator, j),
    ensures
        split_last(before + separator + after, separator) == Some((before, after)),
{
    let stem = before + separator + after;
    let at = before.len() as int;
    assert(stem.subrange(at, at + separator.len()) =~= separator);
    lemma_last_occurrence_is(stem, separator, at);
    assert(stem.subrange(0, at) =~= before);
    assert(stem.subrange(at + separator.len(), stem.len() as int) =~= after);
}

/// A name made of `before`, the split separator, `after`, a dot and a
/// wanted extension, where the separator does not occur again behind
/// `before`, gets `after` and `before`, trimmed and exchanged, around the
/// padded join separator, and keeps its extension. `before` may itself hold
/// the separator: the split is at its last occurrence.
pub proof fn law_swap(
    before: Seq<char>,
    after: Seq<char>,
    extension: Seq<char>,
    settings: ConfigView,
)
    requires
        settings.extensions.contains(extension),
        !has_dot(extension),
        trim(before).len() > 0,
        trim(after).len() > 0,
        forall|j: int|
            before.len() < j ==> !occurs_at(
                before + settings.split_separator + after,
                settings.split_separator,
                j,
            ),
    ensures
        outcome_of(before + settings.split_separator + after + dot() + extension, settings) == (
        OutcomeView::Renamed {
            new_name: joined(
                trim(after),
                trim(before),
                settings.padding,
                settings.join_separator,
            ) + dot() + extension,
        }),
{
    let stem = before + settings.split_separator + after;
    law_split_last(before, after, settings.split_separator);
    lemma_trim_is_tight(before);
    lemma_trim_is_tight(after);
    lemma_name_parts(stem, extension);
}

/// A file without an extension, or with one that is not asked for, keeps
/// its name, whatever its base name is.
pub proof fn law_wrong_extension(name: Seq<char>, settings: ConfigView)
    requires
        extension_of(name) matches Some(extension) ==> !settings.extensions.contains(extension),
    ensures
        outcome_of(name, settings) == (OutcomeView::Skipped {
            reason: SkipReason::ExtensionMismatch,
        }),
{
}

/// A file with a wanted extension whose base name does not hold the split
/// separator keeps its name.
pub proof fn law_no_separator(name: Seq<char>, settings: ConfigView)
    requires
        extension_of(name) matches Some(extension) && settings.extensions.contains(extension),
        forall|j: int| !occurs_at(stem_of(name), settings.split_separator, j),
    ensures
        outcome_of(name, settings) == (OutcomeView::Skipped { reason: SkipReason::NotSplittable }),
{
    lemma_last_occurrence(stem_of(name), settings.split_separator);
}

/// A file that is renamed keeps its extension, so the new name is taken up
/// by the next run as the old one was by this.
pub proof fn law_extension_kept(name: Seq<char>, new_name: Seq<char>, settings: ConfigView)
    requires
        outcome_of(name, settings) == (OutcomeView::Renamed { new_name }),
    ensures
        extension_of(new_name) == extension_of(name),
        extension_of(new_name) matches Some(extension) && settings.extensions.contains(extension),
{
    let (before, after) = split_last(stem_of(name), settings.split_separator)->0;
    lemma_extension_parts(name);
    lemma_trim_is_tight(before);
    lemma_trim_is_tight(after);
    lemma_name_parts(swapped_stem(stem_of(name), settings)->0, extension_of(name)->0);
}

/// Whether the base name of `name` has the shape that a renaming gives: two
/// pieces without white space at their ends, and between them the split
/// separator with the padding on both sides.
pub open spec fn is_padded(name: Seq<char>, settings: ConfigView) -> bool {
    match split_last(stem_of(name), settings.split_separator) {
        Some((before, after)) => {
            &&& before == trim(before) + settings.padding
            &&& after == settings.padding + trim(after)
        },
        None => false,
    }
}

/// Where the join separator stands in the new base name once the pieces of
/// `name` are exchanged: behind the second piece, trimmed, and the padding.
pub open spec fn joint_after_swap(name: Seq<char>, settings: ConfigView) -> nat {
    match split_last(stem_of(name), settings.split_separator) {
        Some((before, after)) => trim(after).len() + settings.padding.len(),
        None => 0,
    }
}

/// Renaming a file twice gives it its first name back, where the pieces
/// are joined by the separator that splits them, the padding is white
/// space, the name had the shape that a renaming gives, and the separator
/// stands in the new name nowhere behind the place where the pieces were
/// joined.
pub proof fn law_swap_twice(name: Seq<char>, new_name: Seq<char>, settings: ConfigView)
    requires
        settings.join_separator == settings.split_separator,
        is_blank(settings.padding),
        outcome_of(name, settings) == (OutcomeView::Renamed { new_name }),
        is_padded(name, settings),
        forall|j: int|
            joint_after_swap(name, settings) < j ==> !occurs_at(
                stem_of(new_name),
                settings.split_separator,
                j,
            ),
    ensures
        outcome_of(new_name, settings) == (OutcomeView::Renamed { new_name: name }),
{
    let separator = settings.split_separator;
    let padding = settings.padding;
    let stem = stem_of(name);
    let extension = extension_of(name)->0;
    let (before, after) = split_last(stem, separator)->0;
    let first = trim(before);
    let second = trim(after);
    lemma_extension_parts(name);

    // The stem is its two pieces around the separator.
    lemma_last_occurrence(stem, separator);
    assert(stem =~= before + separator + after);

    // The pieces of the new name, trimmed, are the pieces of the old one.
    lemma_trim_is_tight(before);
    lemma_trim_is_tight(after);
    let new_before = second + padding;
    let new_after = padding + first;
    assert(trim(new_before) == second) by {
        assert(trim_start(new_before) == new_before);
        lemma_trim_end_skips(second, padding);
    }
    assert(trim(new_after) == first) by {
        lemma_trim_start_skips(padding, first);
    }
    let new_stem = joined(second, first, padding, separator);
    assert(new_stem =~= new_before + separator + new_after);
    lemma_name_parts(new_stem, extension);
    law_swap(new_before, new_after, extension, settings);
    assert(joined(first, second, padding, separator) =~= stem);
}

} // verus!
