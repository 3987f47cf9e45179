//! References of the form `Book.Chapter.Verse`, as verse tags carry them.

use crate::text::{chars_of, parse_u32_range, parse_u32_spec, string_of_range};
use vstd::prelude::*;

verus! {

/// The position of the first `.` in `s`, or the length of `s` if it has none.
pub open spec fn first_dot(s: Seq<char>) -> int
    decreases s.len(),
{
    if s.len() == 0 {
        0
    } else if s[0] == '.' {
        0
    } else {
        1 + first_dot(s.drop_first())
    }
}

/// A run of characters without a dot, followed by a dot or by the end, ends
/// where the first dot is.
proof fn lemma_first_dot_is(s: Seq<char>, k: int)
    requires
        0 <= k <= s.len(),
        forall|j: int| 0 <= j < k ==> s[j] != '.',
        k < s.len() ==> s[k] == '.',
    ensures
        first_dot(s) == k,
    decreases k,
{
    if k > 0 {
        let t = s.drop_first();
        assert forall|j: int| 0 <= j < k - 1 implies t[j] != '.' by {
            assert(t[j] == s[j + 1]);
        }
        if k - 1 < t.len() {
            assert(t[k - 1] == s[k]);
        }
        lemma_first_dot_is(t, k - 1);
    }
}

/// A reference as its parts: the book code, the chapter and the verse.
pub ghost struct ReferenceView {
    pub book: Seq<char>,
    pub chapter: u32,
    pub verse: u32,
}

/// What a reference text denotes. The text is cut at its dots into exactly
/// three segments: the first is the book code, the second the chapter, the
/// third the verse. Chapter and verse are unsigned decimal numbers. A text
/// with fewer or more than three segments, or with a second or third segment
/// that is no such number, denotes nothing.
pub open spec fn osis_reference(s: Seq<char>) -> Option<ReferenceView> {
    let i = first_dot(s);
    if i >= s.len() {
        None
    } else {
        let after_book = s.skip(i + 1);
        let j = first_dot(after_book);
        if j >= after_book.len() {
            None
        } else {
            let after_chapter = after_book.skip(j + 1);
            if first_dot(after_chapter) < after_chapter.len() {
                None
            } else {
                match (parse_u32_spec(after_book.take(j)), parse_u32_spec(after_chapter)) {
                    (Some(chapter), Some(verse)) => Some(
                        ReferenceView { book: s.take(i), chapter, verse },
                    ),
                    _ => None,
                }
            }
        }
    }
}

/// The position of the first `.` at or after `from`, or the length of the
/// text.
fn find_dot(chars: &Vec<char>, from: usize) -> (at: usize)
    requires
        from <= chars.len(),
    ensures
        from <= at <= chars.len(),
        at - from == first_dot(chars@.skip(from as int)),
{
    let mut at: usize = from;
    while at < chars.len() && chars[at] != '.'
        invariant
            from <= at <= chars.len(),
            forall|j: int| from <= j < at ==> chars@[j] != '.',
        decreases chars.len() - at,
    {
        at += 1;
    }
    proof {
        let rest = chars@.skip(from as int);
        assert forall|j: int| 0 <= j < at - from implies rest[j] != '.' by {
            assert(rest[j] == chars@[j + from]);
        }
        if at - from < rest.len() {
            assert(rest[at - from] == chars@[at as int]);
        }
        lemma_first_dot_is(rest, at - from);
    }
    at
}

/// A reference read from its text.
pub struct OsisReference {
    pub book: String,
    pub chapter: u32,
    pub verse: u32,
}

impl View for OsisReference {
    type V = ReferenceView;

    open spec fn view(&self) -> ReferenceView {
        ReferenceView { book: self.book@, chapter: self.chapter, verse: self.verse }
    }
}

/// The view of an optional reference.
pub open spec fn opt_reference(r: Option<OsisReference>) -> Option<ReferenceView> {
    match r {
        Some(reference) => Some(reference@),
        None => None,
    }
}

/// Reads a reference from the characters of its text.
pub fn parse_osis_chars(chars: &Vec<char>) -> (r: Option<OsisReference>)
    ensures
        opt_reference(r) == osis_reference(chars@),
{
    let n = chars.len();
    let i = find_dot(chars, 0);
    assert(chars@.skip(0) == chars@);
    if i >= n {
        return None;
    }
    let j = find_dot(chars, i + 1);
    let ghost after_book = chars@.skip(i + 1);
    if j >= n {
        return None;
    }
    let k = find_dot(chars, j + 1);
    let ghost after_chapter = after_book.skip(j - i);
    assert(after_chapter == chars@.skip(j + 1));
    if k < n {
        return None;
    }
    proof {
        assert(after_book.take(j - (i + 1)) == chars@.subrange(i + 1, j as int));
        assert(after_chapter == chars@.subrange(j + 1, n as int));
        assert(chars@.take(i as int) == chars@.subrange(0, i as int));
    }
    let chapter = parse_u32_range(chars, i + 1, j);
    let verse = parse_u32_range(chars, j + 1, n);
    match (chapter, verse) {
        (Some(chapter), Some(verse)) => Some(
            OsisReference { book: string_of_range(chars, 0, i), chapter, verse },
        ),
        _ => None,
    }
}

/// Reads a reference of the form `Book.Chapter.Verse`.
pub fn parse_osis(osis: &str) -> (r: Option<OsisReference>)
    ensures
        opt_reference(r) == osis_reference(osis@),
{
    let chars = chars_of(osis);
    parse_osis_chars(&chars)
}

} // verus!
