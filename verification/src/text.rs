//! Character-level helpers: conversions between strings and character
//! vectors, decimal numbers, whitespace handling and substring search.
//!
//! Everything is stated over `Seq<char>`, the view of a string.

use vstd::prelude::*;

verus! {

/// `String::push`: the character is appended at the end; nothing else changes.
pub assume_specification[ String::push ](s: &mut String, ch: char)
    ensures
        final(s)@ == old(s)@.push(ch),
;

/// The Unicode lowercase form of a text.
pub uninterp spec fn lowercase(s: Seq<char>) -> Seq<char>;

/// `str::to_lowercase`: the result depends on the characters of the text only.
pub assume_specification[ str::to_lowercase ](s: &str) -> (r: String)
    ensures
        r@ == lowercase(s@),
;

/// The Unicode uppercase form of a text.
pub uninterp spec fn uppercase(s: Seq<char>) -> Seq<char>;

/// `str::to_uppercase`: the result depends on the characters of the text only.
pub assume_specification[ str::to_uppercase ](s: &str) -> (r: String)
    ensures
        r@ == uppercase(s@),
;

/// The characters of `s`, in order.
pub fn chars_of(s: &str) -> (v: Vec<char>)
    ensures
        v@ == s@,
{
    broadcast use vstd::string::group_string_axioms;

    let mut v: Vec<char> = Vec::new();
    for c in it: s.chars()
        invariant
            it.seq() == s@,
            v@ == it.seq().take(it.index() as int),
    {
        v.push(c);
    }
    v
}

/// The string made of `chars[from..to]`.
pub fn string_of_range(chars: &Vec<char>, from: usize, to: usize) -> (s: String)
    requires
        from <= to <= chars.len(),
    ensures
        s@ == chars@.subrange(from as int, to as int),
{
    let mut s = String::new();
    let mut i: usize = from;
    while i < to
        invariant
            from <= i <= to <= chars.len(),
            s@ == chars@.subrange(from as int, i as int),
        decreases to - i,
    {
        s.push(chars[i]);
        i += 1;
    }
    s
}

/// The string made of `chars`.
pub fn string_of(chars: &Vec<char>) -> (s: String)
    ensures
        s@ == chars@,
{
    let s = string_of_range(chars, 0, chars.len());
    assert(chars@.subrange(0, chars.len() as int) == chars@);
    s
}

/// A copy of the characters `chars[from..to]`.
pub fn copy_range(chars: &Vec<char>, from: usize, to: usize) -> (v: Vec<char>)
    requires
        from <= to <= chars.len(),
    ensures
        v@ == chars@.subrange(from as int, to as int),
{
    let mut v: Vec<char> = Vec::new();
    let mut i: usize = from;
    while i < to
        invariant
            from <= i <= to <= chars.len(),
            v@ == chars@.subrange(from as int, i as int),
        decreases to - i,
    {
        v.push(chars[i]);
        i += 1;
    }
    v
}

/// Whether two character sequences are the same.
pub fn same_chars(a: &Vec<char>, b: &Vec<char>) -> (r: bool)
    ensures
        r == (a@ == b@),
{
    if a.len() != b.len() {
        return false;
    }
    let mut i: usize = 0;
    while i < a.len()
        invariant
            i <= a.len(),
            a.len() == b.len(),
            a@.take(i as int) == b@.take(i as int),
        decreases a.len() - i,
    {
        if a[i] != b[i] {
            return false;
        }
        assert(a@.take(i + 1) == a@.take(i as int).push(a@[i as int]));
        assert(b@.take(i + 1) == b@.take(i as int).push(b@[i as int]));
        i += 1;
    }
    assert(a@.take(a.len() as int) == a@);
    assert(b@.take(b.len() as int) == b@);
    true
}

/// Whether two texts are the same.
pub fn same_text(a: &str, b: &str) -> (r: bool)
    ensures
        r == (a@ == b@),
{
    let left = chars_of(a);
    let right = chars_of(b);
    same_chars(&left, &right)
}

// ---------------------------------------------------------------------------
// Decimal numbers
// ---------------------------------------------------------------------------

/// An ASCII decimal digit.
pub open spec fn is_digit(c: char) -> bool {
    '0' <= c <= '9'
}

/// The value of a decimal digit; 0 for any other character.
pub open spec fn digit_value(c: char) -> nat {
    if is_digit(c) {
        (c as u32 - 48) as nat
    } else {
        0
    }
}

/// Every character is a decimal digit.
pub open spec fn all_digits(s: Seq<char>) -> bool {
    forall|i: int| 0 <= i < s.len() ==> is_digit(#[trigger] s[i])
}

/// The number that a sequence of decimal digits writes, most significant first.
pub open spec fn digits_value(s: Seq<char>) -> nat
    decreases s.len(),
{
    if s.len() == 0 {
        0
    } else {
        digits_value(s.drop_last()) * 10 + digit_value(s.last())
    }
}

/// The part of a number's text after an optional leading `+`.
pub open spec fn unsigned_part(s: Seq<char>) -> Seq<char> {
    if s.len() > 0 && s[0] == '+' {
        s.drop_first()
    } else {
        s
    }
}

/// What a text denotes as an unsigned 32-bit number: an optional `+`, then one
/// or more decimal digits and nothing else, the value no larger than `u32::MAX`.
pub open spec fn parse_u32_spec(s: Seq<char>) -> Option<u32> {
    let digits = unsigned_part(s);
    if digits.len() > 0 && all_digits(digits) && digits_value(digits) <= u32::MAX {
        Some(digits_value(digits) as u32)
    } else {
        None
    }
}

/// A longer digit sequence never writes a smaller number than its prefix.
pub proof fn lemma_digits_value_prefix(s: Seq<char>, k: int)
    requires
        0 <= k <= s.len(),
    ensures
        digits_value(s.take(k)) <= digits_value(s),
    decreases s.len() - k,
{
    if k == s.len() {
        assert(s.take(k) == s);
    } else {
        lemma_digits_value_prefix(s.drop_last(), k);
        assert(s.drop_last().take(k) == s.take(k));
    }
}

/// Reads `chars[from..to]` as an unsigned 32-bit decimal number.
pub fn parse_u32_range(chars: &Vec<char>, from: usize, to: usize) -> (r: Option<u32>)
    requires
        from <= to <= chars.len(),
    ensures
        r == parse_u32_spec(chars@.subrange(from as int, to as int)),
{
    let ghost text = chars@.subrange(from as int, to as int);
    let start: usize = if from < to && chars[from] == '+' {
        from + 1
    } else {
        from
    };
    let ghost digits = unsigned_part(text);
    assert(digits == chars@.subrange(start as int, to as int));
    if start == to {
        return None;
    }
    let mut acc: u64 = 0;
    let mut i: usize = start;
    while i < to
        invariant
            start <= i <= to <= chars.len(),
            from <= to,
            start < to,
            digits == chars@.subrange(start as int, to as int),
            digits == unsigned_part(chars@.subrange(from as int, to as int)),
            all_digits(digits.take(i - start)),
            acc == digits_value(digits.take(i - start)),
            acc <= u32::MAX,
        decreases to - i,
    {
        let c = chars[i];
        assert(c == digits[i - start]);
        if !(c >= '0' && c <= '9') {
            assert(!is_digit(digits[i - start]));
            return None;
        }
        let d: u64 = (c as u32 - 48) as u64;
        let ghost prefix = digits.take(i - start + 1);
        assert(prefix.drop_last() == digits.take(i - start));
        assert(prefix.last() == c);
        assert(digits_value(prefix) == acc * 10 + d);
        assert(all_digits(prefix)) by {
            assert forall|j: int| 0 <= j < prefix.len() implies is_digit(#[trigger] prefix[j]) by {
                if j < i - start {
                    assert(prefix[j] == digits.take(i - start)[j]);
                }
            }
        }
        acc = acc * 10 + d;
        if acc > 0xffff_ffff {
            proof {
                lemma_digits_value_prefix(digits, i - start + 1);
            }
            return None;
        }
        i += 1;
    }
    assert(digits.take(to - start) == digits);
    Some(acc as u32)
}

/// The character of a decimal digit.
pub open spec fn digit_char(d: nat) -> char
    recommends
        d < 10,
{
    ((d + 48) as u8) as char
}

/// The decimal text of a number, without sign or leading zeros.
pub open spec fn decimal(n: nat) -> Seq<char>
    decreases n,
{
    if n < 10 {
        seq![digit_char(n)]
    } else {
        decimal(n / 10).push(digit_char(n % 10))
    }
}

/// Appends the decimal text of `n` to `s`.
pub fn push_decimal(s: &mut String, n: u64)
    ensures
        final(s)@ == old(s)@ + decimal(n as nat),
    decreases n,
{
    if n >= 10 {
        push_decimal(s, n / 10);
    }
    let d: u8 = (n % 10) as u8;
    s.push((d + 48) as char);
    proof {
        if n < 10 {
            assert(final(s)@ == old(s)@ + seq![digit_char(n as nat)]);
        } else {
            assert(final(s)@ == old(s)@ + decimal((n / 10) as nat).push(digit_char((n % 10) as nat)));
        }
    }
}

/// Appends the characters of `t` to `s`.
pub fn push_text(s: &mut String, t: &str)
    ensures
        final(s)@ == old(s)@ + t@,
{
    let chars = chars_of(t);
    let mut i: usize = 0;
    while i < chars.len()
        invariant
            i <= chars.len(),
            chars@ == t@,
            s@ == old(s)@ + chars@.take(i as int),
        decreases chars.len() - i,
    {
        s.push(chars[i]);
        assert(chars@.take(i + 1) == chars@.take(i as int).push(chars@[i as int]));
        i += 1;
    }
    assert(chars@.take(chars.len() as int) == chars@);
}

// ---------------------------------------------------------------------------
// Whitespace
// ---------------------------------------------------------------------------

/// Whether a character carries the Unicode `White_Space` property: the
/// controls U+0009 to U+000D, the space, U+0085, U+00A0, U+1680, U+2000 to
/// U+200A, U+2028, U+2029, U+202F, U+205F and U+3000.
pub open spec fn is_white_space(c: char) -> bool {
    let n = c as u32;
    ||| 0x09 <= n <= 0x0d
    ||| n == 0x20
    ||| n == 0x85
    ||| n == 0xa0
    ||| n == 0x1680
    ||| 0x2000 <= n <= 0x200a
    ||| n == 0x2028
    ||| n == 0x2029
    ||| n == 0x202f
    ||| n == 0x205f
    ||| n == 0x3000
}

/// Whether a character is whitespace.
pub fn is_whitespace(c: char) -> (b: bool)
    ensures
        b == is_white_space(c),
{
    let n: u32 = c as u32;
    (0x09 <= n && n <= 0x0d) || n == 0x20 || n == 0x85 || n == 0xa0 || n == 0x1680 || (0x2000 <= n
        && n <= 0x200a) || n == 0x2028 || n == 0x2029 || n == 0x202f || n == 0x205f || n == 0x3000
}

/// `s` without its leading whitespace.
pub open spec fn trim_start_spec(s: Seq<char>) -> Seq<char>
    decreases s.len(),
{
    if s.len() > 0 && is_white_space(s[0]) {
        trim_start_spec(s.drop_first())
    } else {
        s
    }
}

/// `s` without its trailing whitespace.
pub open spec fn trim_end_spec(s: Seq<char>) -> Seq<char>
    decreases s.len(),
{
    if s.len() > 0 && is_white_space(s.last()) {
        trim_end_spec(s.drop_last())
    } else {
        s
    }
}

/// `s` without leading and trailing whitespace.
pub open spec fn trimmed(s: Seq<char>) -> Seq<char> {
    trim_end_spec(trim_start_spec(s))
}

proof fn lemma_trim_start_skip(s: Seq<char>, k: int)
    requires
        0 <= k <= s.len(),
        forall|j: int| 0 <= j < k ==> is_white_space(#[trigger] s[j]),
    ensures
        trim_start_spec(s) == trim_start_spec(s.skip(k)),
    decreases k,
{
    if k == 0 {
        assert(s.skip(0) == s);
    } else {
        assert(is_white_space(s[0]));
        let t = s.drop_first();
        assert forall|j: int| 0 <= j < k - 1 implies is_white_space(#[trigger] t[j]) by {
            assert(t[j] == s[j + 1]);
        }
        lemma_trim_start_skip(t, k - 1);
        assert(t.skip(k - 1) == s.skip(k));
    }
}

proof fn lemma_trim_end_take(s: Seq<char>, k: int)
    requires
        0 <= k <= s.len(),
        forall|j: int| k <= j < s.len() ==> is_white_space(#[trigger] s[j]),
    ensures
        trim_end_spec(s) == trim_end_spec(s.take(k)),
    decreases s.len() - k,
{
    if k == s.len() {
        assert(s.take(k) == s);
    } else {
        assert(is_white_space(s.last()));
        let t = s.drop_last();
        assert forall|j: int| k <= j < t.len() implies is_white_space(#[trigger] t[j]) by {
            assert(t[j] == s[j]);
        }
        lemma_trim_end_take(t, k);
        assert(t.take(k) == s.take(k));
    }
}

/// The text without leading and trailing whitespace.
pub fn trim(chars: &Vec<char>) -> (s: String)
    ensures
        s@ == trimmed(chars@),
{
    let n = chars.len();
    let mut lo: usize = 0;
    while lo < n && is_whitespace(chars[lo])
        invariant
            lo <= n == chars.len(),
            forall|j: int| 0 <= j < lo ==> is_white_space(#[trigger] chars@[j]),
        decreases n - lo,
    {
        lo += 1;
    }
    let mut hi: usize = n;
    while hi > lo && is_whitespace(chars[hi - 1])
        invariant
            lo <= hi <= n == chars.len(),
            forall|j: int| hi <= j < n ==> is_white_space(#[trigger] chars@[j]),
        decreases hi,
    {
        hi -= 1;
    }
    proof {
        let rest = chars@.skip(lo as int);
        lemma_trim_start_skip(chars@, lo as int);
        if rest.len() > 0 {
            assert(rest[0] == chars@[lo as int]);
        }
        assert(trim_start_spec(chars@) == rest);
        assert forall|j: int| hi - lo <= j < rest.len() implies is_white_space(
            #[trigger] rest[j],
        ) by {
            assert(rest[j] == chars@[j + lo]);
        }
        lemma_trim_end_take(rest, hi - lo);
        let kept = rest.take(hi - lo);
        if kept.len() > 0 {
            assert(kept.last() == chars@[hi - 1]);
        }
        assert(trim_end_spec(kept) == kept);
        assert(kept == chars@.subrange(lo as int, hi as int));
    }
    string_of_range(chars, lo, hi)
}

/// The length of the longest prefix of `s` that holds no whitespace.
pub open spec fn word_len(s: Seq<char>) -> nat
    decreases s.len(),
{
    if s.len() > 0 && !is_white_space(s[0]) {
        1 + word_len(s.drop_first())
    } else {
        0
    }
}

/// The words of `s`: its maximal runs of characters that are not whitespace,
/// in order.
pub open spec fn words(s: Seq<char>) -> Seq<Seq<char>>
    decreases s.len(),
{
    if s.len() == 0 {
        Seq::empty()
    } else if is_white_space(s[0]) {
        words(s.drop_first())
    } else {
        let n = word_len(s) as int;
        if 0 < n <= s.len() {
            seq![s.take(n)] + words(s.skip(n))
        } else {
            Seq::empty()
        }
    }
}

proof fn lemma_words_skip_space(s: Seq<char>, k: int)
    requires
        0 <= k <= s.len(),
        forall|j: int| 0 <= j < k ==> is_white_space(#[trigger] s[j]),
    ensures
        words(s) == words(s.skip(k)),
    decreases k,
{
    if k == 0 {
        assert(s.skip(0) == s);
    } else {
        assert(is_white_space(s[0]));
        let t = s.drop_first();
        assert forall|j: int| 0 <= j < k - 1 implies is_white_space(#[trigger] t[j]) by {
            assert(t[j] == s[j + 1]);
        }
        lemma_words_skip_space(t, k - 1);
        assert(t.skip(k - 1) == s.skip(k));
    }
}

proof fn lemma_word_len_run(s: Seq<char>, k: int)
    requires
        0 <= k <= s.len(),
        forall|j: int| 0 <= j < k ==> !is_white_space(#[trigger] s[j]),
        k < s.len() ==> is_white_space(s[k]),
    ensures
        word_len(s) == k,
    decreases k,
{
    if k > 0 {
        let t = s.drop_first();
        assert forall|j: int| 0 <= j < k - 1 implies !is_white_space(#[trigger] t[j]) by {
            assert(t[j] == s[j + 1]);
        }
        if k - 1 < t.len() {
            assert(t[k - 1] == s[k]);
        }
        lemma_word_len_run(t, k - 1);
    }
}

/// Splits a text into its words.
pub fn split_words(chars: &Vec<char>) -> (out: Vec<Vec<char>>)
    ensures
        out@.len() == words(chars@).len(),
        forall|i: int| 0 <= i < out@.len() ==> (#[trigger] out@[i])@ == words(chars@)[i],
{
    let n = chars.len();
    let mut out: Vec<Vec<char>> = Vec::new();
    let ghost mut done: Seq<Seq<char>> = Seq::empty();
    let mut i: usize = 0;
    proof {
        assert(chars@.skip(0) == chars@);
        assert(done + words(chars@) == words(chars@));
    }
    loop
        invariant_except_break
            words(chars@) == done + words(chars@.skip(i as int)),
        invariant
            i <= n == chars.len(),
            out@.len() == done.len(),
            forall|k: int| 0 <= k < out@.len() ==> (#[trigger] out@[k])@ == done[k],
        ensures
            words(chars@) == done,
        decreases n - i,
    {
        let start = i;
        while i < n && is_whitespace(chars[i])
            invariant
                start <= i <= n == chars.len(),
                forall|j: int| start <= j < i ==> is_white_space(#[trigger] chars@[j]),
            decreases n - i,
        {
            i += 1;
        }
        let ghost rest = chars@.skip(start as int);
        let ghost t = chars@.skip(i as int);
        proof {
            assert forall|j: int| 0 <= j < i - start implies is_white_space(#[trigger] rest[j]) by {
                assert(rest[j] == chars@[j + start]);
            }
            lemma_words_skip_space(rest, i - start);
            assert(rest.skip(i - start) == t);
        }
        if i == n {
            proof {
                assert(words(t) == Seq::<Seq<char>>::empty());
                assert(done + Seq::<Seq<char>>::empty() == done);
            }
            break;
        }
        let word_start = i;
        while i < n && !is_whitespace(chars[i])
            invariant
                word_start <= i <= n == chars.len(),
                forall|j: int| word_start <= j < i ==> !is_white_space(#[trigger] chars@[j]),
            decreases n - i,
        {
            i += 1;
        }
        let word = copy_range(chars, word_start, i);
        proof {
            let len = i - word_start;
            assert(t[0] == chars@[word_start as int]);
            assert(len > 0);
            assert forall|j: int| 0 <= j < len implies !is_white_space(#[trigger] t[j]) by {
                assert(t[j] == chars@[j + word_start]);
            }
            if len < t.len() {
                assert(t[len] == chars@[i as int]);
            }
            lemma_word_len_run(t, len);
            assert(t.take(len) == chars@.subrange(word_start as int, i as int));
            assert(t.skip(len) == chars@.skip(i as int));
            assert(words(t) == seq![t.take(len)] + words(t.skip(len)));
            assert(done + (seq![word@] + words(chars@.skip(i as int))) == done.push(word@) + words(
                chars@.skip(i as int),
            ));
            done = done.push(word@);
        }
        out.push(word);
    }
    out
}

// ---------------------------------------------------------------------------
// Substrings
// ---------------------------------------------------------------------------

/// `pattern` stands in `s` at position `i`.
pub open spec fn occurs_at(s: Seq<char>, pattern: Seq<char>, i: int) -> bool {
    0 <= i && i + pattern.len() <= s.len() && s.subrange(i, i + pattern.len()) == pattern
}

/// `pattern` stands somewhere in `s`.
pub open spec fn contains_text(s: Seq<char>, pattern: Seq<char>) -> bool {
    exists|i: int| occurs_at(s, pattern, i)
}

fn matches_at(s: &Vec<char>, pattern: &Vec<char>, at: usize) -> (r: bool)
    requires
        at + pattern.len() <= s.len(),
    ensures
        r == occurs_at(s@, pattern@, at as int),
{
    let m = pattern.len();
    let mut j: usize = 0;
    while j < m
        invariant
            j <= m == pattern.len(),
            at + m <= s.len(),
            s@.subrange(at as int, at + j) == pattern@.take(j as int),
        decreases m - j,
    {
        if s[at + j] != pattern[j] {
            proof {
                if occurs_at(s@, pattern@, at as int) {
                    assert(s@.subrange(at as int, at + m)[j as int] == pattern@[j as int]);
                }
            }
            return false;
        }
        assert(s@.subrange(at as int, at + j + 1) == s@.subrange(at as int, at + j).push(
            s@[at + j],
        ));
        assert(pattern@.take(j + 1) == pattern@.take(j as int).push(pattern@[j as int]));
        j += 1;
    }
    assert(pattern@.take(m as int) == pattern@);
    true
}

/// Whether `pattern` stands somewhere in `s`.
pub fn contains(s: &Vec<char>, pattern: &Vec<char>) -> (r: bool)
    ensures
        r == contains_text(s@, pattern@),
{
    let n = s.len();
    let m = pattern.len();
    if m == 0 {
        assert(s@.subrange(0, 0) == pattern@);
        assert(occurs_at(s@, pattern@, 0));
        return true;
    }
    if m > n {
        return false;
    }
    let mut i: usize = 0;
    while i <= n - m
        invariant
            0 < m <= n,
            n == s.len(),
            m == pattern.len(),
            i <= n - m + 1,
            forall|k: int| 0 <= k < i ==> !occurs_at(s@, pattern@, k),
        decreases n - m + 1 - i,
    {
        if matches_at(s, pattern, i) {
            return true;
        }
        i += 1;
    }
    false
}

/// Whether the text `s` holds the literal `pattern`.
pub fn contains_str(s: &Vec<char>, pattern: &str) -> (r: bool)
    ensures
        r == contains_text(s@, pattern@),
{
    let p = chars_of(pattern);
    contains(s, &p)
}

/// The upper-case form of an ASCII letter; any other character is unchanged.
pub open spec fn ascii_upper(c: char) -> char {
    if 'a' <= c <= 'z' {
        ((c as u32 - 32) as u8) as char
    } else {
        c
    }
}

/// The upper-case form of an ASCII letter; any other character is unchanged.
pub fn to_ascii_upper(c: char) -> (r: char)
    ensures
        r == ascii_upper(c),
{
    if c >= 'a' && c <= 'z' {
        ((c as u32 - 32) as u8) as char
    } else {
        c
    }
}

} // verus!
