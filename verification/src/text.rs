//! Text primitives of the configuration language: splitting at a delimiter
//! and reading unsigned decimal numbers.
//!
//! Every contract speaks of a string by its sequence of characters.

use vstd::prelude::*;
use vstd::std_specs::iter::IteratorSpec;

verus! {

/// Position of the first `c` in `s`; the length of `s` where there is none.
pub open spec fn first_index(s: Seq<char>, c: char) -> int
    decreases s.len(),
{
    if s.len() == 0 {
        0
    } else if s[0] == c {
        0
    } else {
        1 + first_index(s.drop_first(), c)
    }
}

/// What stands before the first `c` in `s`; all of `s` where there is none.
pub open spec fn head_of(s: Seq<char>, c: char) -> Seq<char> {
    s.take(first_index(s, c))
}

/// What stands behind the first `c` in `s`; meant for an `s` that holds `c`.
pub open spec fn tail_of(s: Seq<char>, c: char) -> Seq<char> {
    s.skip(first_index(s, c) + 1)
}

/// The pieces of `s` between the occurrences of `c`, in order. There is one
/// more piece than there are occurrences, and a piece may be empty.
pub open spec fn split_on(s: Seq<char>, c: char) -> Seq<Seq<char>>
    decreases s.len(),
{
    let i = first_index(s, c);
    if 0 <= i < s.len() {
        seq![s.take(i)] + split_on(s.skip(i + 1), c)
    } else {
        seq![s]
    }
}

/// Splitting gives at least one piece.
pub proof fn lemma_split_on_len(s: Seq<char>, c: char)
    ensures
        split_on(s, c).len() >= 1,
{
}

/// `first_index` is the least position that holds `c`.
pub proof fn lemma_first_index(s: Seq<char>, c: char)
    ensures
        0 <= first_index(s, c) <= s.len(),
        forall|j: int| 0 <= j < first_index(s, c) ==> s[j] != c,
        first_index(s, c) < s.len() ==> s[first_index(s, c)] == c,
        first_index(s, c) < s.len() <==> s.contains(c),
    decreases s.len(),
{
    if s.len() == 0 {
    } else if s[0] == c {
    } else {
        let rest = s.drop_first();
        lemma_first_index(rest, c);
        let i = first_index(rest, c);
        assert forall|j: int| 0 <= j < i + 1 implies s[j] != c by {
            if j > 0 {
                assert(s[j] == rest[j - 1]);
            }
        }
        if i < rest.len() {
            assert(s[i + 1] == rest[i]);
        }
        if s.contains(c) {
            let k = choose|k: int| 0 <= k < s.len() && s[k] == c;
            assert(rest[k - 1] == s[k]);
        }
    }
}

/// A position that holds `c` with no `c` before it is the first.
pub proof fn lemma_first_index_at(s: Seq<char>, c: char, i: int)
    requires
        0 <= i <= s.len(),
        forall|j: int| 0 <= j < i ==> s[j] != c,
        i < s.len() ==> s[i] == c,
    ensures
        first_index(s, c) == i,
{
    lemma_first_index(s, c);
}

/// A string cut at a delimiter that its head does not hold was cut at the
/// first one: the two parts are `head_of` and `tail_of`.
pub proof fn lemma_split_unique(s: Seq<char>, c: char, head: Seq<char>, tail: Seq<char>)
    requires
        s == head + seq![c] + tail,
        !head.contains(c),
    ensures
        s.contains(c),
        head == head_of(s, c),
        tail == tail_of(s, c),
{
    let i = head.len() as int;
    assert(s[i] == c);
    assert forall|j: int| 0 <= j < i implies s[j] != c by {
        assert(s[j] == head[j]);
    }
    lemma_first_index_at(s, c, i);
    assert(head =~= s.take(i));
    assert(tail =~= s.skip(i + 1));
}

/// What `head_of` and `tail_of` cut off puts the string together again.
pub proof fn lemma_split_join(s: Seq<char>, c: char)
    requires
        s.contains(c),
    ensures
        s == head_of(s, c) + seq![c] + tail_of(s, c),
        !head_of(s, c).contains(c),
{
    lemma_first_index(s, c);
    let i = first_index(s, c);
    assert(s =~= s.take(i) + seq![c] + s.skip(i + 1));
    if s.take(i).contains(c) {
        let k = choose|k: int| 0 <= k < s.take(i).len() && s.take(i)[k] == c;
        assert(s[k] == c);
    }
}

/// The characters of `s`, in order.
pub fn chars_of(s: &str) -> (chars: Vec<char>)
    ensures
        chars@ == s@,
{
    let mut chars: Vec<char> = Vec::new();
    for c in it: s.chars()
        invariant
            it.seq() == s@,
            chars@ == s@.take(it.index() as int),
    {
        chars.push(c);
    }
    chars
}

/// Splits `s` at the first `delimiter`, which belongs to neither part.
/// `None` where `s` holds no `delimiter`.
pub fn split_once<'a>(s: &'a str, delimiter: char) -> (parts: Option<(&'a str, &'a str)>)
    ensures
        parts is Some <==> s@.contains(delimiter),
        parts matches Some((head, tail)) ==> head@ == head_of(s@, delimiter) && tail@ == tail_of(
            s@,
            delimiter,
        ),
{
    let chars = chars_of(s);
    let n = chars.len();
    let mut i: usize = 0;
    while i < n
        invariant
            chars@ == s@,
            n == chars@.len(),
            0 <= i <= n,
            forall|j: int| 0 <= j < i ==> s@[j] != delimiter,
        decreases n - i,
    {
        if chars[i] == delimiter {
            proof {
                lemma_first_index_at(s@, delimiter, i as int);
                lemma_first_index(s@, delimiter);
            }
            let head = s.substring_char(0, i);
            let tail = s.substring_char(i + 1, n);
            return Some((head, tail));
        }
        i += 1;
    }
    proof {
        lemma_first_index_at(s@, delimiter, n as int);
        lemma_first_index(s@, delimiter);
    }
    None
}

/// The character sequences of the strings in `strings`.
pub open spec fn texts_of(strings: Seq<String>) -> Seq<Seq<char>> {
    Seq::new(strings.len(), |i: int| strings[i]@)
}

/// The character sequences of the pieces in `pieces`.
pub open spec fn views_of(pieces: Seq<&str>) -> Seq<Seq<char>> {
    Seq::new(pieces.len(), |i: int| pieces[i]@)
}

/// Splits `s` at every `delimiter`. The pieces come in order, empty ones
/// included: a string without `delimiter` is its own single piece.
pub fn split_all<'a>(s: &'a str, delimiter: char) -> (pieces: Vec<&'a str>)
    ensures
        views_of(pieces@) == split_on(s@, delimiter),
{
    let chars = chars_of(s);
    let n = chars.len();
    let mut pieces: Vec<&'a str> = Vec::new();
    let mut start: usize = 0;
    let mut i: usize = 0;
    assert(s@.skip(0) == s@);
    assert(views_of(pieces@) + split_on(s@, delimiter) == split_on(s@, delimiter));
    while i < n
        invariant
            chars@ == s@,
            n == chars@.len(),
            0 <= start <= i <= n,
            forall|j: int| start <= j < i ==> s@[j] != delimiter,
            views_of(pieces@) + split_on(s@.skip(start as int), delimiter) == split_on(
                s@,
                delimiter,
            ),
        decreases n - i,
    {
        if chars[i] == delimiter {
            let piece = s.substring_char(start, i);
            proof {
                let rest = s@.skip(start as int);
                lemma_first_index_at(rest, delimiter, i - start);
                assert(rest.take(i - start) == piece@);
                assert(rest.skip(i - start + 1) == s@.skip(i + 1));
                assert(views_of(pieces@.push(piece)) == views_of(pieces@) + seq![piece@]);
            }
            pieces.push(piece);
            start = i + 1;
        }
        i += 1;
    }
    let piece = s.substring_char(start, n);
    proof {
        let rest = s@.skip(start as int);
        lemma_first_index_at(rest, delimiter, n - start);
        assert(rest == piece@);
        assert(views_of(pieces@.push(piece)) == views_of(pieces@) + seq![piece@]);
    }
    pieces.push(piece);
    pieces
}

/// A decimal digit.
pub open spec fn is_digit(c: char) -> bool {
    '0' <= c && c <= '9'
}

/// The number that a decimal digit stands for.
pub open spec fn digit_value(c: char) -> int {
    c as int - '0' as int
}

/// The number that a sequence of decimal digits writes; zero for none.
pub open spec fn decimal_value(digits: Seq<char>) -> int
    decreases digits.len(),
{
    if digits.len() == 0 {
        0
    } else {
        10 * decimal_value(digits.drop_last()) + digit_value(digits.last())
    }
}

/// `s` without a leading plus sign.
pub open spec fn unsigned_digits(s: Seq<char>) -> Seq<char> {
    if s.len() > 0 && s[0] == '+' {
        s.drop_first()
    } else {
        s
    }
}

/// Whether every character of `s` is a decimal digit.
pub open spec fn all_digits(s: Seq<char>) -> bool {
    forall|i: int| 0 <= i < s.len() ==> is_digit(#[trigger] s[i])
}

/// Whether `s` writes a non-negative integer: one digit or more, behind at
/// most one plus sign. Leading zeros are allowed; a minus sign is not.
pub open spec fn is_decimal(s: Seq<char>) -> bool {
    unsigned_digits(s).len() > 0 && all_digits(unsigned_digits(s))
}

/// The 64-bit number that `s` writes, if it writes one that fits.
pub open spec fn decimal_u64(s: Seq<char>) -> Option<u64> {
    if is_decimal(s) && decimal_value(unsigned_digits(s)) <= u64::MAX {
        Some(decimal_value(unsigned_digits(s)) as u64)
    } else {
        None
    }
}

/// A number does not shrink as digits are written behind it.
pub proof fn lemma_decimal_value_prefix(digits: Seq<char>, k: int)
    requires
        all_digits(digits),
        0 <= k <= digits.len(),
    ensures
        0 <= decimal_value(digits.take(k)) <= decimal_value(digits),
    decreases digits.len() - k,
{
    if k == digits.len() {
        assert(digits.take(k) == digits);
        lemma_decimal_value_nonnegative(digits);
    } else {
        lemma_decimal_value_prefix(digits, k + 1);
        let longer = digits.take(k + 1);
        assert(longer.drop_last() == digits.take(k));
        assert(is_digit(digits[k]));
        assert(longer.last() == digits[k]);
    }
}

/// A sequence of digits writes no negative number.
pub proof fn lemma_decimal_value_nonnegative(digits: Seq<char>)
    requires
        all_digits(digits),
    ensures
        0 <= decimal_value(digits),
    decreases digits.len(),
{
    if digits.len() > 0 {
        let shorter = digits.drop_last();
        assert forall|i: int| 0 <= i < shorter.len() implies is_digit(#[trigger] shorter[i]) by {
            assert(shorter[i] == digits[i]);
        }
        lemma_decimal_value_nonnegative(shorter);
        assert(is_digit(digits[digits.len() - 1]));
    }
}

/// The digit that writes a number below ten.
pub open spec fn digit_char(d: int) -> char {
    ('0' as int + d) as u8 as char
}

/// The usual way to write `n`: in decimal digits, without a sign and without
/// leading zeros.
pub open spec fn decimal_text(n: nat) -> Seq<char>
    decreases n,
{
    if n < 10 {
        seq![digit_char(n as int)]
    } else {
        decimal_text(n / 10).push(digit_char((n % 10) as int))
    }
}

/// A number written in the usual way is read back as itself.
pub proof fn lemma_decimal_text_reads_back(n: nat)
    ensures
        decimal_text(n).len() > 0,
        all_digits(decimal_text(n)),
        unsigned_digits(decimal_text(n)) == decimal_text(n),
        is_decimal(decimal_text(n)),
        decimal_value(decimal_text(n)) == n,
        n <= u64::MAX ==> decimal_u64(decimal_text(n)) == Some(n as u64),
    decreases n,
{
    let text = decimal_text(n);
    if n < 10 {
        assert(text.drop_last() == Seq::<char>::empty());
        assert(decimal_value(text.drop_last()) == 0);
        assert(is_digit(text[0]));
        assert(digit_value(text.last()) == n);
    } else {
        lemma_decimal_text_reads_back(n / 10);
        let front = decimal_text(n / 10);
        let last = digit_char((n % 10) as int);
        assert(is_digit(last));
        assert(digit_value(last) == n % 10);
        assert(text.drop_last() == front);
        assert(text.last() == last);
        assert(decimal_value(text) == 10 * decimal_value(front) + digit_value(last));
        assert(text[0] == front[0]);
        assert(is_digit(front[0]));
        assert forall|i: int| 0 <= i < text.len() implies is_digit(#[trigger] text[i]) by {
            if i < front.len() {
                assert(text[i] == front[i]);
            }
        }
    }
}

/// Text with anything but digits behind an optional plus sign is no number.
/// So text with a minus sign is none: negative numbers are refused.
pub proof fn lemma_not_decimal(s: Seq<char>, i: int)
    requires
        0 <= i < s.len(),
        !is_digit(s[i]),
        i > 0 || s[0] != '+',
    ensures
        !is_decimal(s),
        decimal_u64(s) is None,
{
    let digits = unsigned_digits(s);
    if s[0] == '+' {
        assert(digits[i - 1] == s[i]);
    } else {
        assert(digits[i] == s[i]);
    }
}

/// Reads an unsigned decimal number of at most 64 bits: digits, behind at
/// most one plus sign. `None` for anything else, and for a number too large.
pub fn parse_u64(s: &str) -> (number: Option<u64>)
    ensures
        number == decimal_u64(s@),
{
    let chars = chars_of(s);
    let n = chars.len();
    let start: usize = if n > 0 && chars[0] == '+' {
        1
    } else {
        0
    };
    if start == n {
        return None;
    }
    let ghost digits = unsigned_digits(s@);
    assert(digits == s@.skip(start as int));
    let mut value: u64 = 0;
    let mut i: usize = start;
    while i < n
        invariant
            chars@ == s@,
            n == chars@.len(),
            digits == unsigned_digits(s@),
            digits == s@.skip(start as int),
            start <= i <= n,
            all_digits(digits.take(i - start)),
            value == decimal_value(digits.take(i - start)),
        decreases n - i,
    {
        let c = chars[i];
        assert(c == digits[i - start]);
        if c < '0' || c > '9' {
            return None;
        }
        let digit: u64 = (c as u32 - '0' as u32) as u64;
        proof {
            let longer = digits.take(i - start + 1);
            assert(longer.drop_last() == digits.take(i - start));
            assert(longer.last() == c);
            assert(digit == digit_value(c));
            assert(is_digit(c));
            assert forall|j: int| 0 <= j < longer.len() implies is_digit(#[trigger] longer[j]) by {
                if j < longer.len() - 1 {
                    assert(longer[j] == digits.take(i - start)[j]);
                }
            }
            if all_digits(digits) {
                lemma_decimal_value_prefix(digits, i - start + 1);
            }
        }
        let scaled = match value.checked_mul(10) {
            Some(scaled) => scaled,
            None => {
                return None;
            },
        };
        value = match scaled.checked_add(digit) {
            Some(sum) => sum,
            None => {
                return None;
            },
        };
        i += 1;
    }
    assert(digits.take(n - start) == digits);
    Some(value)
}

/// Whether two strings hold the same characters.
pub fn same_text(a: &str, b: &str) -> (same: bool)
    ensures
        same == (a@ == b@),
{
    let left = chars_of(a);
    let right = chars_of(b);
    if left.len() != right.len() {
        return false;
    }
    let n = left.len();
    let mut i: usize = 0;
    while i < n
        invariant
            left@ == a@,
            right@ == b@,
            n == left@.len(),
            n == right@.len(),
            0 <= i <= n,
            forall|j: int| 0 <= j < i ==> a@[j] == b@[j],
        decreases n - i,
    {
        if left[i] != right[i] {
            return false;
        }
        i += 1;
    }
    assert(a@ =~= b@);
    true
}

} // verus!
