//! Abbreviations for translations that come without one.
//!
//! A few well-known names have a fixed abbreviation. Any other name is
//! abbreviated by the first letters of its first three significant words; a
//! name without a significant word by its first three characters.

use crate::text::{
    ascii_upper, chars_of, contains_str, contains_text, same_chars, split_words, string_of,
    string_of_range, to_ascii_upper, uppercase, words,
};
use vstd::prelude::*;

verus! {

/// The abbreviation of a well-known translation: the first line of the table
/// whose phrase stands in the name.
pub open spec fn known_abbreviation(name: Seq<char>) -> Option<Seq<char>> {
    if contains_text(name, "King James"@) {
        Some("KJV"@)
    } else if contains_text(name, "New International"@) {
        Some("NIV"@)
    } else if contains_text(name, "New King James"@) {
        Some("NKJV"@)
    } else if contains_text(name, "English Standard"@) {
        Some("ESV"@)
    } else if contains_text(name, "New American"@) {
        Some("NASB"@)
    } else if contains_text(name, "Revised Standard"@) {
        Some("RSV"@)
    } else if contains_text(name, "American Standard"@) {
        Some("ASV"@)
    } else if contains_text(name, "New Living"@) {
        Some("NLT"@)
    } else {
        None
    }
}

/// A word that does not count towards an abbreviation.
pub open spec fn is_stopword(word: Seq<char>) -> bool {
    word == "Bible"@ || word == "Version"@ || word == "Translation"@ || word == "The"@ || word
        == "of"@ || word == "and"@
}

/// A word that counts towards an abbreviation.
pub open spec fn significant() -> spec_fn(Seq<char>) -> bool {
    |word: Seq<char>| !is_stopword(word)
}

/// At most the first `n` items of a sequence.
pub open spec fn first_n<A>(s: Seq<A>, n: int) -> Seq<A> {
    if s.len() <= n {
        s
    } else {
        s.take(n)
    }
}

/// The upper-case first letter of a word.
pub open spec fn initial() -> spec_fn(Seq<char>) -> char {
    |word: Seq<char>| ascii_upper(word[0])
}

/// The first three significant words of a name.
pub open spec fn leading_words(name: Seq<char>) -> Seq<Seq<char>> {
    first_n(words(name).filter(significant()), 3)
}

/// The abbreviation of a translation's name.
pub open spec fn abbreviation_of(name: Seq<char>) -> Seq<char> {
    match known_abbreviation(name) {
        Some(abbreviation) => abbreviation,
        None => if leading_words(name).len() == 0 {
            uppercase(first_n(name, 3))
        } else {
            leading_words(name).map_values(initial())
        },
    }
}

fn known(name: &Vec<char>) -> (r: Option<&'static str>)
    ensures
        match r {
            Some(abbreviation) => known_abbreviation(name@) == Some(abbreviation@),
            None => known_abbreviation(name@).is_none(),
        },
{
    if contains_str(name, "King James") {
        Some("KJV")
    } else if contains_str(name, "New International") {
        Some("NIV")
    } else if contains_str(name, "New King James") {
        Some("NKJV")
    } else if contains_str(name, "English Standard") {
        Some("ESV")
    } else if contains_str(name, "New American") {
        Some("NASB")
    } else if contains_str(name, "Revised Standard") {
        Some("RSV")
    } else if contains_str(name, "American Standard") {
        Some("ASV")
    } else if contains_str(name, "New Living") {
        Some("NLT")
    } else {
        None
    }
}

fn is_word(word: &Vec<char>, literal: &str) -> (r: bool)
    ensures
        r == (word@ == literal@),
{
    let chars = chars_of(literal);
    same_chars(word, &chars)
}

fn stopword(word: &Vec<char>) -> (r: bool)
    ensures
        r == is_stopword(word@),
{
    is_word(word, "Bible") || is_word(word, "Version") || is_word(word, "Translation") || is_word(
        word,
        "The",
    ) || is_word(word, "of") || is_word(word, "and")
}

/// The abbreviation of a translation's name.
pub fn extract_abbreviation(name: &str) -> (abbreviation: String)
    ensures
        abbreviation@ == abbreviation_of(name@),
{
    let chars = chars_of(name);
    match known(&chars) {
        Some(abbreviation) => {
            return abbreviation.to_owned();
        },
        None => {},
    }
    let list = split_words(&chars);
    let ghost all = words(name@);
    let ghost keep = significant();
    let mut letters: Vec<char> = Vec::new();
    let mut i: usize = 0;
    proof {
        assert(all.take(0) =~= Seq::<Seq<char>>::empty());
        assert(Seq::<Seq<char>>::empty().filter(keep) =~= Seq::<Seq<char>>::empty()) by {
            reveal(Seq::filter);
        }
        assert(letters@ =~= first_n(all.take(0).filter(keep), 3).map_values(initial()));
    }
    while i < list.len()
        invariant
            i <= list.len(),
            chars@ == name@,
            all == words(name@),
            keep == significant(),
            list@.len() == all.len(),
            forall|k: int| 0 <= k < list@.len() ==> (#[trigger] list@[k])@ == all[k],
            letters@ == first_n(all.take(i as int).filter(keep), 3).map_values(initial()),
            letters@.len() <= 3,
        decreases list.len() - i,
    {
        let word = &list[i];
        let ghost seen = all.take(i as int).filter(keep);
        proof {
            assert(word@ == all[i as int]);
            assert(all.take(i + 1) == all.take(i as int).push(all[i as int]));
            all.take(i as int).lemma_filter_push(all[i as int], keep);
            lemma_words_not_empty(name@, i as int);
        }
        if !stopword(word) && letters.len() < 3 {
            letters.push(to_ascii_upper(word[0]));
            proof {
                let grown = seen.push(word@);
                assert(seen.len() < 3);
                assert(first_n(grown, 3) == grown);
                assert(letters@ =~= first_n(grown, 3).map_values(initial()));
            }
        } else {
            proof {
                if !is_stopword(word@) {
                    let grown = seen.push(word@);
                    assert(seen.len() >= 3);
                    assert(first_n(grown, 3) =~= first_n(seen, 3));
                }
            }
        }
        i += 1;
    }
    assert(all.take(i as int) == all);
    if letters.len() == 0 {
        let n: usize = if chars.len() < 3 {
            chars.len()
        } else {
            3
        };
        let head = string_of_range(&chars, 0, n);
        assert(head@ == first_n(name@, 3));
        head.as_str().to_uppercase()
    } else {
        string_of(&letters)
    }
}

/// Every word of a text has at least one character.
pub proof fn lemma_words_not_empty(s: Seq<char>, i: int)
    requires
        0 <= i < words(s).len(),
    ensures
        words(s)[i].len() > 0,
    decreases s.len(),
{
    if s.len() == 0 {
    } else if crate::text::is_white_space(s[0]) {
        lemma_words_not_empty(s.drop_first(), i);
    } else {
        let n = crate::text::word_len(s) as int;
        if 0 < n <= s.len() {
            if i > 0 {
                lemma_words_not_empty(s.skip(n), i - 1);
            }
        }
    }
}

} // verus!
