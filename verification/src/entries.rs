//! The entries of a flat index: the order of their ids, and the lines of an
//! index that is written one entry to a line.
//!
//! Entries that come without an order of their own are put in the order of
//! their ids, which is the order of strings.

use crate::index::LegacyEntry;
use crate::text::{chars_of, copy_range, trimmed};
use vstd::prelude::*;

verus! {

// ---------------------------------------------------------------------------
// The order of texts
// ---------------------------------------------------------------------------

/// `a` comes no later than `b` in the order of dictionaries over code
/// points, which is the order of strings.
pub open spec fn text_le(a: Seq<char>, b: Seq<char>) -> bool
    decreases a.len(),
{
    if a.len() == 0 {
        true
    } else if b.len() == 0 {
        false
    } else if a[0] != b[0] {
        a[0] < b[0]
    } else {
        text_le(a.drop_first(), b.drop_first())
    }
}

/// Of two texts, one comes no later than the other.
pub proof fn lemma_text_le_total(a: Seq<char>, b: Seq<char>)
    ensures
        text_le(a, b) || text_le(b, a),
    decreases a.len(),
{
    if a.len() > 0 && b.len() > 0 && a[0] == b[0] {
        lemma_text_le_total(a.drop_first(), b.drop_first());
    }
}

/// The order of texts is transitive.
pub proof fn lemma_text_le_transitive(a: Seq<char>, b: Seq<char>, c: Seq<char>)
    requires
        text_le(a, b),
        text_le(b, c),
    ensures
        text_le(a, c),
    decreases a.len(),
{
    if a.len() > 0 {
        if a[0] == b[0] && b[0] == c[0] {
            lemma_text_le_transitive(a.drop_first(), b.drop_first(), c.drop_first());
        }
    }
}

proof fn lemma_text_le_skip(a: Seq<char>, b: Seq<char>, k: int)
    requires
        0 <= k <= a.len(),
        k <= b.len(),
        a.take(k) == b.take(k),
    ensures
        text_le(a, b) == text_le(a.skip(k), b.skip(k)),
    decreases k,
{
    if k == 0 {
        assert(a.skip(0) == a);
        assert(b.skip(0) == b);
    } else {
        assert(a[0] == a.take(k)[0]);
        assert(b[0] == b.take(k)[0]);
        let x = a.drop_first();
        let y = b.drop_first();
        assert(x.take(k - 1) =~= a.take(k).drop_first());
        assert(y.take(k - 1) =~= b.take(k).drop_first());
        lemma_text_le_skip(x, y, k - 1);
        assert(x.skip(k - 1) == a.skip(k));
        assert(y.skip(k - 1) == b.skip(k));
    }
}

/// Whether `a` comes no later than `b`.
pub fn no_later(a: &str, b: &str) -> (r: bool)
    ensures
        r == text_le(a@, b@),
{
    let x = chars_of(a);
    let y = chars_of(b);
    let mut i: usize = 0;
    while i < x.len() && i < y.len() && x[i] == y[i]
        invariant
            i <= x.len(),
            i <= y.len(),
            x@.take(i as int) == y@.take(i as int),
        decreases x.len() - i,
    {
        assert(x@.take(i + 1) == x@.take(i as int).push(x@[i as int]));
        assert(y@.take(i + 1) == y@.take(i as int).push(y@[i as int]));
        i += 1;
    }
    proof {
        lemma_text_le_skip(x@, y@, i as int);
        if i < x.len() {
            assert(x@.skip(i as int)[0] == x@[i as int]);
        }
        if i < y.len() {
            assert(y@.skip(i as int)[0] == y@[i as int]);
        }
    }
    if i == x.len() {
        true
    } else if i == y.len() {
        false
    } else {
        x[i] < y[i]
    }
}

// ---------------------------------------------------------------------------
// Entries in the order of their ids
// ---------------------------------------------------------------------------

/// A list in the order of its ids with one more entry put in: behind the
/// last entry whose id comes no later than that of the new one.
pub open spec fn insert_sorted(sorted: Seq<LegacyEntry>, entry: LegacyEntry) -> Seq<LegacyEntry>
    decreases sorted.len(),
{
    if sorted.len() == 0 {
        seq![entry]
    } else if text_le(sorted.last().id@, entry.id@) {
        sorted.push(entry)
    } else {
        insert_sorted(sorted.drop_last(), entry).push(sorted.last())
    }
}

/// The entries in the order of their ids; entries with the same id keep the
/// order in which they came.
pub open spec fn sorted_by_id(entries: Seq<LegacyEntry>) -> Seq<LegacyEntry>
    decreases entries.len(),
{
    if entries.len() == 0 {
        Seq::empty()
    } else {
        insert_sorted(sorted_by_id(entries.drop_last()), entries.last())
    }
}

/// Each entry's id comes no later than the ids of the entries behind it.
pub open spec fn ordered_by_id(entries: Seq<LegacyEntry>) -> bool {
    forall|i: int, j: int|
        0 <= i < j < entries.len() ==> text_le(
            (#[trigger] entries[i]).id@,
            (#[trigger] entries[j]).id@,
        )
}

proof fn lemma_insert_sorted_at(sorted: Seq<LegacyEntry>, entry: LegacyEntry, p: int)
    requires
        0 <= p <= sorted.len(),
        forall|j: int| p <= j < sorted.len() ==> !text_le((#[trigger] sorted[j]).id@, entry.id@),
        p > 0 ==> text_le(sorted[p - 1].id@, entry.id@),
    ensures
        insert_sorted(sorted, entry) == sorted.insert(p, entry),
    decreases sorted.len() - p,
{
    if p == sorted.len() {
        if sorted.len() == 0 {
            assert(seq![entry] =~= sorted.insert(p, entry));
        } else {
            assert(sorted.push(entry) =~= sorted.insert(p, entry));
        }
    } else {
        let front = sorted.drop_last();
        assert(!text_le(sorted[sorted.len() - 1].id@, entry.id@));
        assert forall|j: int| p <= j < front.len() implies !text_le(
            (#[trigger] front[j]).id@,
            entry.id@,
        ) by {
            assert(front[j] == sorted[j]);
        }
        if p > 0 {
            assert(front[p - 1] == sorted[p - 1]);
        }
        lemma_insert_sorted_at(front, entry, p);
        assert(front.insert(p, entry).push(sorted.last()) =~= sorted.insert(p, entry));
    }
}

/// Putting an entry into an ordered list leaves the list ordered, and adds
/// the entry to what the list holds.
pub proof fn lemma_insert_sorted(sorted: Seq<LegacyEntry>, entry: LegacyEntry)
    requires
        ordered_by_id(sorted),
    ensures
        ordered_by_id(insert_sorted(sorted, entry)),
        insert_sorted(sorted, entry).to_multiset() == sorted.to_multiset().insert(entry),
        insert_sorted(sorted, entry).len() == sorted.len() + 1,
    decreases sorted.len(),
{
    broadcast use vstd::seq_lib::group_to_multiset_ensures;

    let out = insert_sorted(sorted, entry);
    if sorted.len() == 0 {
        assert(sorted =~= Seq::<LegacyEntry>::empty());
        assert(seq![entry] =~= Seq::<LegacyEntry>::empty().push(entry));
    } else if text_le(sorted.last().id@, entry.id@) {
        assert forall|i: int, j: int| 0 <= i < j < out.len() implies text_le(
            (#[trigger] out[i]).id@,
            (#[trigger] out[j]).id@,
        ) by {
            if j == sorted.len() {
                if i < sorted.len() - 1 {
                    assert(text_le(sorted[i].id@, sorted[sorted.len() - 1].id@));
                    lemma_text_le_transitive(sorted[i].id@, sorted.last().id@, entry.id@);
                }
            } else {
                assert(text_le(sorted[i].id@, sorted[j].id@));
            }
        }
    } else {
        let front = sorted.drop_last();
        let last = sorted.last();
        assert forall|i: int, j: int| 0 <= i < j < front.len() implies text_le(
            (#[trigger] front[i]).id@,
            (#[trigger] front[j]).id@,
        ) by {
            assert(text_le(sorted[i].id@, sorted[j].id@));
        }
        lemma_insert_sorted(front, entry);
        let inner = insert_sorted(front, entry);
        assert(sorted =~= front.push(last));
        // Every entry of `inner` is one of `front` or the new entry; all of
        // them come no later than `last`.
        lemma_text_le_total(last.id@, entry.id@);
        assert forall|i: int| 0 <= i < inner.len() implies text_le(
            (#[trigger] inner[i]).id@,
            last.id@,
        ) by {
            assert(inner.to_multiset().count(inner[i]) > 0);
            if inner[i] != entry {
                assert(front.to_multiset().count(inner[i]) > 0);
                let k = choose|k: int| 0 <= k < front.len() && front[k] == inner[i];
                assert(text_le(sorted[k].id@, sorted[sorted.len() - 1].id@));
            }
        }
        assert forall|i: int, j: int| 0 <= i < j < out.len() implies text_le(
            (#[trigger] out[i]).id@,
            (#[trigger] out[j]).id@,
        ) by {
            if j < inner.len() {
                assert(text_le(inner[i].id@, inner[j].id@));
            }
        }
        assert(out.to_multiset() =~= sorted.to_multiset().insert(entry));
    }
}

/// The entries in the order of their ids are ordered, and hold exactly what
/// the entries hold.
pub proof fn lemma_sorted_by_id(entries: Seq<LegacyEntry>)
    ensures
        ordered_by_id(sorted_by_id(entries)),
        sorted_by_id(entries).to_multiset() == entries.to_multiset(),
        sorted_by_id(entries).len() == entries.len(),
    decreases entries.len(),
{
    broadcast use vstd::seq_lib::group_to_multiset_ensures;

    if entries.len() == 0 {
        assert(entries =~= Seq::<LegacyEntry>::empty());
    } else {
        lemma_sorted_by_id(entries.drop_last());
        lemma_insert_sorted(sorted_by_id(entries.drop_last()), entries.last());
        assert(entries =~= entries.drop_last().push(entries.last()));
    }
}

/// Puts the entries in the order of their ids; entries with the same id keep
/// the order in which they came.
pub fn sort_entries(entries: Vec<LegacyEntry>) -> (sorted: Vec<LegacyEntry>)
    ensures
        sorted@ == sorted_by_id(entries@),
{
    let ghost all = entries@;
    let mut input = entries;
    let mut sorted: Vec<LegacyEntry> = Vec::new();
    let ghost mut done: int = 0;
    proof {
        assert(all.take(0) =~= Seq::<LegacyEntry>::empty());
        assert(input@ == all.skip(0));
    }
    while input.len() > 0
        invariant
            0 <= done <= all.len(),
            input@ == all.skip(done),
            sorted@ == sorted_by_id(all.take(done)),
        decreases input@.len(),
    {
        let entry = input.remove(0);
        proof {
            assert(entry == all[done]);
            assert(input@ == all.skip(done + 1));
            assert(all.take(done + 1).drop_last() == all.take(done));
            assert(all.take(done + 1).last() == entry);
        }
        let mut p: usize = sorted.len();
        while p > 0 && !no_later(sorted[p - 1].id.as_str(), entry.id.as_str())
            invariant
                p <= sorted@.len(),
                forall|j: int|
                    p <= j < sorted@.len() ==> !text_le((#[trigger] sorted@[j]).id@, entry.id@),
            decreases p,
        {
            p -= 1;
        }
        proof {
            lemma_insert_sorted_at(sorted@, entry, p as int);
            done = done + 1;
        }
        sorted.insert(p, entry);
    }
    assert(all.take(done) == all);
    sorted
}

// ---------------------------------------------------------------------------
// Entries written one to a line
// ---------------------------------------------------------------------------

/// The position of the first line feed in `s`, or the length of `s` if it
/// has none.
pub open spec fn first_line_end(s: Seq<char>) -> int
    decreases s.len(),
{
    if s.len() == 0 {
        0
    } else if s[0] == '\n' {
        0
    } else {
        1 + first_line_end(s.drop_first())
    }
}

/// A line that may hold an entry: it begins with `{` and ends with `}`.
pub open spec fn is_object_line(line: Seq<char>) -> bool {
    line.len() > 0 && line.first() == '{' && line.last() == '}'
}

/// The lines of a text that may hold an entry: each stretch between line
/// feeds, trimmed, that begins with `{` and ends with `}`.
pub open spec fn object_lines_of(s: Seq<char>) -> Seq<Seq<char>>
    decreases s.len(),
{
    let end = first_line_end(s);
    let line = trimmed(
        if 0 <= end < s.len() {
            s.take(end)
        } else {
            s
        },
    );
    let head = if is_object_line(line) {
        seq![line]
    } else {
        Seq::empty()
    };
    if 0 <= end < s.len() {
        head + object_lines_of(s.skip(end + 1))
    } else {
        head
    }
}

proof fn lemma_first_line_end_is(s: Seq<char>, k: int)
    requires
        0 <= k <= s.len(),
        forall|j: int| 0 <= j < k ==> s[j] != '\n',
        k < s.len() ==> s[k] == '\n',
    ensures
        first_line_end(s) == k,
    decreases k,
{
    if k > 0 {
        let t = s.drop_first();
        assert forall|j: int| 0 <= j < k - 1 implies t[j] != '\n' by {
            assert(t[j] == s[j + 1]);
        }
        if k - 1 < t.len() {
            assert(t[k - 1] == s[k]);
        }
        lemma_first_line_end_is(t, k - 1);
    }
}

/// The lines of a text that may hold an entry.
pub fn object_lines(text: &str) -> (lines: Vec<String>)
    ensures
        lines@.len() == object_lines_of(text@).len(),
        forall|i: int| 0 <= i < lines@.len() ==> (#[trigger] lines@[i])@ == object_lines_of(
            text@,
        )[i],
{
    let chars = chars_of(text);
    let n = chars.len();
    let mut lines: Vec<String> = Vec::new();
    let ghost mut found: Seq<Seq<char>> = Seq::empty();
    let mut start: usize = 0;
    proof {
        assert(chars@.skip(0) == chars@);
        assert(found + object_lines_of(chars@) == object_lines_of(chars@));
    }
    loop
        invariant_except_break
            object_lines_of(text@) == found + object_lines_of(chars@.skip(start as int)),
        invariant
            start <= n == chars.len(),
            chars@ == text@,
            lines@.len() == found.len(),
            forall|i: int| 0 <= i < lines@.len() ==> (#[trigger] lines@[i])@ == found[i],
        ensures
            object_lines_of(text@) == found,
        decreases n - start,
    {
        let mut end: usize = start;
        while end < n && chars[end] != '\n'
            invariant
                start <= end <= n == chars.len(),
                forall|j: int| start <= j < end ==> chars@[j] != '\n',
            decreases n - end,
        {
            end += 1;
        }
        let ghost rest = chars@.skip(start as int);
        proof {
            assert forall|j: int| 0 <= j < end - start implies rest[j] != '\n' by {
                assert(rest[j] == chars@[j + start]);
            }
            if end - start < rest.len() {
                assert(rest[end - start] == chars@[end as int]);
            }
            lemma_first_line_end_is(rest, end - start);
            assert(rest.take(end - start) == chars@.subrange(start as int, end as int));
            if end == n {
                assert(rest.take(end - start) == rest);
            }
        }
        let piece = copy_range(&chars, start, end);
        let line = crate::text::trim(&piece);
        let ghost before = found;
        let ghost head = if is_object_line(line@) {
            seq![line@]
        } else {
            Seq::<Seq<char>>::empty()
        };
        let trimmed_chars = chars_of(line.as_str());
        let m = trimmed_chars.len();
        let keep = m > 0 && trimmed_chars[0] == '{' && trimmed_chars[m - 1] == '}';
        assert(keep == is_object_line(line@));
        if keep {
            proof {
                found = found.push(line@);
            }
            lines.push(line);
        }
        assert(found =~= before + head);
        if end == n {
            proof {
                assert(object_lines_of(rest) == head);
            }
            break;
        }
        proof {
            let tail = object_lines_of(chars@.skip(end + 1));
            assert(rest.skip(end - start + 1) == chars@.skip(end + 1));
            assert(object_lines_of(rest) == head + tail);
            assert(before + (head + tail) =~= (before + head) + tail);
        }
        start = end + 1;
    }
    lines
}

/// The entries among the outcomes of decoding lines one by one: those of the
/// lines that could be decoded, in the order of the lines.
pub open spec fn decoded_entries(outcomes: Seq<Option<LegacyEntry>>) -> Seq<LegacyEntry>
    decreases outcomes.len(),
{
    if outcomes.len() == 0 {
        Seq::empty()
    } else {
        match outcomes.last() {
            Some(entry) => decoded_entries(outcomes.drop_last()).push(entry),
            None => decoded_entries(outcomes.drop_last()),
        }
    }
}

/// The entries of the lines that could be decoded. `outcomes` holds, for each
/// line that may hold an entry, the entry that was decoded from it, or `None`
/// where the line holds none. Such lines are passed over.
pub fn entries_of_lines(outcomes: Vec<Option<LegacyEntry>>) -> (entries: Vec<LegacyEntry>)
    ensures
        entries@ == decoded_entries(outcomes@),
{
    let ghost all = outcomes@;
    let mut input = outcomes;
    let mut entries: Vec<LegacyEntry> = Vec::new();
    let ghost mut done: int = 0;
    proof {
        assert(all.take(0) =~= Seq::<Option<LegacyEntry>>::empty());
        assert(input@ == all.skip(0));
    }
    while input.len() > 0
        invariant
            0 <= done <= all.len(),
            input@ == all.skip(done),
            entries@ == decoded_entries(all.take(done)),
        decreases input@.len(),
    {
        let outcome = input.remove(0);
        proof {
            assert(outcome == all[done]);
            assert(input@ == all.skip(done + 1));
            assert(all.take(done + 1).drop_last() == all.take(done));
            assert(all.take(done + 1).last() == outcome);
            done = done + 1;
        }
        match outcome {
            Some(entry) => {
                entries.push(entry);
            },
            None => {},
        }
    }
    assert(all.take(done) == all);
    entries
}

} // verus!
