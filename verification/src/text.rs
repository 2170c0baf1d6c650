//! Operations on sequences of characters: decoding a string, searching for
//! the last occurrence of a pattern, trimming, dropping a character.

use vstd::prelude::*;

verus! {

/// Whether `c` has the Unicode `White_Space` property, as
/// `char::is_whitespace` reports it.
pub uninterp spec fn white_space(c: char) -> bool;

/// Calls `char::is_whitespace`. The contract only gives the answer its name:
/// the table of code points behind it is the standard library's.
#[verifier::external_body]
pub(crate) fn is_white_space(c: char) -> (b: bool)
    ensures
        b == white_space(c),
{
    c.is_whitespace()
}

/// Whether `pattern` stands in `text` at position `at`.
pub open spec fn occurs_at(text: Seq<char>, pattern: Seq<char>, at: int) -> bool {
    &&& 0 <= at
    &&& at + pattern.len() <= text.len()
    &&& text.subrange(at, at + pattern.len()) == pattern
}

/// The greatest position up to `from` at which `pattern` stands in `text`.
pub open spec fn last_occurrence_upto(text: Seq<char>, pattern: Seq<char>, from: int) -> Option<int>
    decreases from + 1,
{
    if from < 0 {
        None
    } else if occurs_at(text, pattern, from) {
        Some(from)
    } else {
        last_occurrence_upto(text, pattern, from - 1)
    }
}

/// The greatest position at which `pattern` stands in `text`, if it stands
/// there at all.
pub open spec fn last_occurrence(text: Seq<char>, pattern: Seq<char>) -> Option<int> {
    last_occurrence_upto(text, pattern, text.len() - pattern.len())
}

/// `text` without its leading white space.
pub open spec fn trim_start(text: Seq<char>) -> Seq<char>
    decreases text.len(),
{
    if text.len() > 0 && white_space(text.first()) {
        trim_start(text.drop_first())
    } else {
        text
    }
}

/// `text` without its trailing white space.
pub open spec fn trim_end(text: Seq<char>) -> Seq<char>
    decreases text.len(),
{
    if text.len() > 0 && white_space(text.last()) {
        trim_end(text.drop_last())
    } else {
        text
    }
}

/// `text` without its leading and trailing white space.
pub open spec fn trim(text: Seq<char>) -> Seq<char> {
    trim_end(trim_start(text))
}

/// Whether `text` holds nothing but white space.
pub open spec fn is_blank(text: Seq<char>) -> bool {
    forall|i: int| 0 <= i < text.len() ==> white_space(#[trigger] text[i])
}

/// Whether `text` neither starts nor ends with white space.
pub open spec fn is_tight(text: Seq<char>) -> bool {
    text.len() > 0 ==> !white_space(text.first()) && !white_space(text.last())
}

/// `text` with every `dropped` taken out.
pub open spec fn without(text: Seq<char>, dropped: char) -> Seq<char> {
    text.filter(|c: char| c != dropped)
}

/// What `last_occurrence_upto` finds is an occurrence, nothing stands between
/// it and `from`, and it finds nothing only where nothing stands up to `from`.
pub proof fn lemma_last_occurrence_upto(text: Seq<char>, pattern: Seq<char>, from: int)
    ensures
        match last_occurrence_upto(text, pattern, from) {
            Some(at) => {
                &&& at <= from
                &&& occurs_at(text, pattern, at)
                &&& forall|j: int| at < j <= from ==> !occurs_at(text, pattern, j)
            },
            None => forall|j: int| j <= from ==> !occurs_at(text, pattern, j),
        },
    decreases from + 1,
{
    if from >= 0 && !occurs_at(text, pattern, from) {
        lemma_last_occurrence_upto(text, pattern, from - 1);
    }
}

/// `last_occurrence` gives an occurrence after which there is no other, and
/// gives none only where the pattern does not occur.
pub proof fn lemma_last_occurrence(text: Seq<char>, pattern: Seq<char>)
    ensures
        match last_occurrence(text, pattern) {
            Some(at) => {
                &&& occurs_at(text, pattern, at)
                &&& forall|j: int| at < j ==> !occurs_at(text, pattern, j)
            },
            None => forall|j: int| !occurs_at(text, pattern, j),
        },
{
    lemma_last_occurrence_upto(text, pattern, text.len() - pattern.len());
}

/// An occurrence after which there is no other is the one that
/// `last_occurrence` gives.
pub proof fn lemma_last_occurrence_is(text: Seq<char>, pattern: Seq<char>, at: int)
    requires
        occurs_at(text, pattern, at),
        forall|j: int| at < j ==> !occurs_at(text, pattern, j),
    ensures
        last_occurrence(text, pattern) == Some(at),
{
    lemma_last_occurrence(text, pattern);
}

/// Leading white space does not survive `trim_start`.
pub proof fn lemma_trim_start_skips(blank: Seq<char>, text: Seq<char>)
    requires
        is_blank(blank),
    ensures
        trim_start(blank + text) == trim_start(text),
    decreases blank.len(),
{
    if blank.len() > 0 {
        assert((blank + text).drop_first() =~= blank.drop_first() + text);
        assert(is_blank(blank.drop_first()));
        lemma_trim_start_skips(blank.drop_first(), text);
    }
}

/// Trailing white space does not survive `trim_end`.
pub proof fn lemma_trim_end_skips(text: Seq<char>, blank: Seq<char>)
    requires
        is_blank(blank),
    ensures
        trim_end(text + blank) == trim_end(text),
    decreases blank.len(),
{
    if blank.len() > 0 {
        assert((text + blank).drop_last() =~= text + blank.drop_last());
        assert(is_blank(blank.drop_last()));
        lemma_trim_end_skips(text, blank.drop_last());
    }
}

/// `trim_start` gives a suffix of the text that does not start with white
/// space.
pub proof fn lemma_trim_start_is_suffix(text: Seq<char>)
    ensures
        trim_start(text).len() <= text.len(),
        trim_start(text) == text.subrange(text.len() - trim_start(text).len(), text.len() as int),
        trim_start(text).len() > 0 ==> !white_space(trim_start(text).first()),
    decreases text.len(),
{
    if text.len() > 0 && white_space(text.first()) {
        lemma_trim_start_is_suffix(text.drop_first());
    }
}

/// `trim_end` gives a prefix of the text that does not end with white space.
pub proof fn lemma_trim_end_is_prefix(text: Seq<char>)
    ensures
        trim_end(text).len() <= text.len(),
        trim_end(text) == text.subrange(0, trim_end(text).len() as int),
        trim_end(text).len() > 0 ==> !white_space(trim_end(text).last()),
    decreases text.len(),
{
    if text.len() > 0 && white_space(text.last()) {
        lemma_trim_end_is_prefix(text.drop_last());
    }
}

/// What `trim` gives neither starts nor ends with white space.
pub proof fn lemma_trim_is_tight(text: Seq<char>)
    ensures
        is_tight(trim(text)),
        trim(text).len() <= text.len(),
{
    lemma_trim_start_is_suffix(text);
    lemma_trim_end_is_prefix(trim_start(text));
}

/// The characters of `s`, in order.
pub fn chars_of(s: &str) -> (chars: Vec<char>)
    ensures
        chars@ == s@,
{
    broadcast use vstd::string::group_string_axioms;

    let mut chars: Vec<char> = Vec::new();
    for c in it: s.chars()
        invariant
            it.seq() == s@,
            chars@ == s@.take(it.index() as int),
    {
        chars.push(c);
    }
    chars
}

/// Whether the two texts are the same.
pub fn same_text(a: &Vec<char>, b: &Vec<char>) -> (same: bool)
    ensures
        same == (a@ == b@),
{
    if a.len() != b.len() {
        return false;
    }
    let mut i: usize = 0;
    while i < a.len()
        invariant
            i <= a.len(),
            a.len() == b.len(),
            forall|j: int| 0 <= j < i ==> a@[j] == b@[j],
        decreases a.len() - i,
    {
        if a[i] != b[i] {
            return false;
        }
        i += 1;
    }
    assert(a@ =~= b@);
    true
}

/// Whether `pattern` stands in `text` at position `at`.
pub fn stands_at(text: &Vec<char>, pattern: &Vec<char>, at: usize) -> (found: bool)
    ensures
        found == occurs_at(text@, pattern@, at as int),
{
    if pattern.len() > text.len() || at > text.len() - pattern.len() {
        return false;
    }
    let mut k: usize = 0;
    while k < pattern.len()
        invariant
            k <= pattern.len(),
            at + pattern.len() <= text.len(),
            forall|j: int| 0 <= j < k ==> text@[at + j] == pattern@[j],
        decreases pattern.len() - k,
    {
        if text[at + k] != pattern[k] {
            return false;
        }
        k += 1;
    }
    assert(text@.subrange(at as int, at + pattern.len()) =~= pattern@);
    true
}

/// The position of the last occurrence of `pattern` in `text`.
pub fn find_last(text: &Vec<char>, pattern: &Vec<char>) -> (found: Option<usize>)
    ensures
        match found {
            Some(at) => {
                &&& last_occurrence(text@, pattern@) == Some(at as int)
                &&& at + pattern.len() <= text.len()
            },
            None => last_occurrence(text@, pattern@) is None,
        },
{
    if pattern.len() > text.len() {
        return None;
    }
    let mut at: usize = text.len() - pattern.len();
    loop
        invariant
            at + pattern.len() <= text.len(),
            last_occurrence(text@, pattern@) == last_occurrence_upto(text@, pattern@, at as int),
        decreases at,
    {
        if stands_at(text, pattern, at) {
            return Some(at);
        }
        if at == 0 {
            assert(last_occurrence_upto(text@, pattern@, -1) is None);
            return None;
        }
        at -= 1;
    }
}

/// The bounds of what `trim` keeps of `text` between `from` and `to`.
pub fn trim_range(text: &Vec<char>, from: usize, to: usize) -> (kept: (usize, usize))
    requires
        from <= to <= text.len(),
    ensures
        from <= kept.0 <= kept.1 <= to,
        text@.subrange(kept.0 as int, kept.1 as int) == trim(text@.subrange(from as int, to as int)),
        is_blank(text@.subrange(from as int, kept.0 as int)),
        is_blank(text@.subrange(kept.1 as int, to as int)),
{
    let mut start: usize = from;
    while start < to && is_white_space(text[start])
        invariant
            from <= start <= to <= text.len(),
            trim_start(text@.subrange(from as int, to as int)) == trim_start(
                text@.subrange(start as int, to as int),
            ),
            is_blank(text@.subrange(from as int, start as int)),
        decreases to - start,
    {
        assert(is_blank(text@.subrange(from as int, start + 1))) by {
            assert forall|j: int| 0 <= j < start - from implies white_space(
                #[trigger] text@.subrange(from as int, start + 1)[j],
            ) by {
                assert(text@.subrange(from as int, start as int)[j] == text@[from + j]);
            }
        }
        assert(text@.subrange(start as int, to as int).drop_first() =~= text@.subrange(
            start + 1,
            to as int,
        ));
        start += 1;
    }
    let mut end: usize = to;
    while end > start && is_white_space(text[end - 1])
        invariant
            start <= end <= to <= text.len(),
            trim_end(text@.subrange(start as int, to as int)) == trim_end(
                text@.subrange(start as int, end as int),
            ),
            is_blank(text@.subrange(end as int, to as int)),
        decreases end - start,
    {
        assert(is_blank(text@.subrange(end - 1, to as int))) by {
            assert forall|j: int| 0 < j < to - (end - 1) implies white_space(
                #[trigger] text@.subrange(end - 1, to as int)[j],
            ) by {
                assert(text@.subrange(end as int, to as int)[j - 1] == text@[end + j - 1]);
            }
        }
        assert(text@.subrange(start as int, end as int).drop_last() =~= text@.subrange(
            start as int,
            end - 1,
        ));
        end -= 1;
    }
    (start, end)
}

/// `s` with every `dropped` taken out.
pub fn strip_char(s: &str, dropped: char) -> (out: String)
    ensures
        out@ == without(s@, dropped),
{
    let chars = chars_of(s);
    let mut out = String::new();
    let mut i: usize = 0;
    assert(without(Seq::<char>::empty(), dropped) =~= Seq::<char>::empty()) by {
        reveal(Seq::filter);
    }
    while i < chars.len()
        invariant
            i <= chars.len(),
            chars@ == s@,
            out@ == without(s@.take(i as int), dropped),
        decreases chars.len() - i,
    {
        proof {
            let keep = |c: char| c != dropped;
            assert(s@.take(i + 1) =~= s@.take(i as int) + seq![s@[i as int]]);
            Seq::filter_distributes_over_add(s@.take(i as int), seq![s@[i as int]], keep);
            reveal_with_fuel(Seq::filter, 2);
        }
        if chars[i] != dropped {
            out.append(s.substring_char(i, i + 1));
        }
        i += 1;
    }
    assert(s@.take(chars.len() as int) =~= s@);
    out
}

} // verus!
