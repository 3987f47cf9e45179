//! Identifiers and keys that are made of a text and numbers tell their parts
//! apart: the identifier of a verse names one verse, and the key of a
//! chapter names one chapter of one book of one translation.

use crate::data::chapter_key;
use crate::markup::verse_id;
use crate::text::{all_digits, decimal, digit_char, digit_value, digits_value, is_digit};
use vstd::prelude::*;

verus! {

/// The decimal text of a number is made of digits, has at least one, and
/// writes the number.
pub proof fn lemma_decimal(n: nat)
    ensures
        decimal(n).len() > 0,
        all_digits(decimal(n)),
        digits_value(decimal(n)) == n,
    decreases n,
{
    let d = (n % 10) as nat;
    assert(is_digit(digit_char(d)) && digit_value(digit_char(d)) == d) by {
        assert(d < 10);
        assert(digit_char(d) == ((d + 48) as u8) as char);
    }
    if n < 10 {
        assert(decimal(n) == seq![digit_char(n)]);
        assert(decimal(n).drop_last() =~= Seq::<char>::empty());
        assert(digits_value(decimal(n).drop_last()) == 0);
    } else {
        lemma_decimal(n / 10);
        let front = decimal(n / 10);
        let text = decimal(n);
        assert(text == front.push(digit_char(d)));
        assert(text.drop_last() =~= front);
        assert(text.last() == digit_char(d));
        assert forall|i: int| 0 <= i < text.len() implies is_digit(#[trigger] text[i]) by {
            if i < front.len() {
                assert(text[i] == front[i]);
            }
        }
    }
}

/// Two numbers with the same decimal text are the same number.
pub proof fn lemma_decimal_is_injective(a: nat, b: nat)
    requires
        decimal(a) == decimal(b),
    ensures
        a == b,
{
    lemma_decimal(a);
    lemma_decimal(b);
}

/// A text, a separator that is no digit, and digits: whoever reads the
/// whole knows the text and the digits.
pub proof fn lemma_split_at_separator(
    front_a: Seq<char>,
    digits_a: Seq<char>,
    front_b: Seq<char>,
    digits_b: Seq<char>,
    separator: char,
)
    requires
        !is_digit(separator),
        all_digits(digits_a),
        all_digits(digits_b),
        front_a + seq![separator] + digits_a == front_b + seq![separator] + digits_b,
    ensures
        front_a == front_b,
        digits_a == digits_b,
{
    let left = front_a + seq![separator] + digits_a;
    let right = front_b + seq![separator] + digits_b;
    assert(left.len() == front_a.len() + 1 + digits_a.len());
    assert(right.len() == front_b.len() + 1 + digits_b.len());
    if digits_a.len() < digits_b.len() {
        let i = front_a.len() as int;
        assert(left[i] == separator);
        assert(right[i] == digits_b[i - front_b.len() - 1]);
        assert(is_digit(digits_b[i - front_b.len() - 1]));
    } else if digits_b.len() < digits_a.len() {
        let i = front_b.len() as int;
        assert(right[i] == separator);
        assert(left[i] == digits_a[i - front_a.len() - 1]);
        assert(is_digit(digits_a[i - front_a.len() - 1]));
    }
    assert(front_a.len() == front_b.len());
    assert(front_a =~= left.take(front_a.len() as int));
    assert(front_b =~= right.take(front_b.len() as int));
    assert(digits_a =~= left.skip(front_a.len() as int + 1));
    assert(digits_b =~= right.skip(front_b.len() as int + 1));
}

/// The key of a chapter names one chapter of one book of one translation.
pub proof fn lemma_chapter_key_is_injective(
    translation_a: Seq<char>,
    book_a: u32,
    chapter_a: u32,
    translation_b: Seq<char>,
    book_b: u32,
    chapter_b: u32,
)
    requires
        chapter_key(translation_a, book_a, chapter_a) == chapter_key(
            translation_b,
            book_b,
            chapter_b,
        ),
    ensures
        translation_a == translation_b,
        book_a == book_b,
        chapter_a == chapter_b,
{
    lemma_decimal(book_a as nat);
    lemma_decimal(book_b as nat);
    lemma_decimal(chapter_a as nat);
    lemma_decimal(chapter_b as nat);
    lemma_split_at_separator(
        translation_a + seq!['_'] + decimal(book_a as nat),
        decimal(chapter_a as nat),
        translation_b + seq!['_'] + decimal(book_b as nat),
        decimal(chapter_b as nat),
        '_',
    );
    lemma_split_at_separator(
        translation_a,
        decimal(book_a as nat),
        translation_b,
        decimal(book_b as nat),
        '_',
    );
}

/// The identifier of a verse names one verse of one chapter of one book of
/// one translation.
pub proof fn lemma_verse_id_is_injective(
    translation_a: Seq<char>,
    book_a: u32,
    chapter_a: u32,
    verse_a: u32,
    translation_b: Seq<char>,
    book_b: u32,
    chapter_b: u32,
    verse_b: u32,
)
    requires
        verse_id(translation_a, book_a, chapter_a, verse_a) == verse_id(
            translation_b,
            book_b,
            chapter_b,
            verse_b,
        ),
    ensures
        translation_a == translation_b,
        book_a == book_b,
        chapter_a == chapter_b,
        verse_a == verse_b,
{
    lemma_decimal(book_a as nat);
    lemma_decimal(book_b as nat);
    lemma_decimal(chapter_a as nat);
    lemma_decimal(chapter_b as nat);
    lemma_decimal(verse_a as nat);
    lemma_decimal(verse_b as nat);
    lemma_split_at_separator(
        translation_a + seq![':'] + decimal(book_a as nat) + seq![':'] + decimal(chapter_a as nat),
        decimal(verse_a as nat),
        translation_b + seq![':'] + decimal(book_b as nat) + seq![':'] + decimal(chapter_b as nat),
        decimal(verse_b as nat),
        ':',
    );
    lemma_split_at_separator(
        translation_a + seq![':'] + decimal(book_a as nat),
        decimal(chapter_a as nat),
        translation_b + seq![':'] + decimal(book_b as nat),
        decimal(chapter_b as nat),
        ':',
    );
    lemma_split_at_separator(
        translation_a,
        decimal(book_a as nat),
        translation_b,
        decimal(book_b as nat),
        ':',
    );
}

} // verus!
