//! Classes of bytes and the lexical form of each kind of token.

use vstd::prelude::*;
use vstd::string::*;

verus! {

pub open spec fn is_digit(b: u8) -> bool {
    '0' as u8 <= b <= '9' as u8
}

pub open spec fn is_lower(b: u8) -> bool {
    'a' as u8 <= b <= 'z' as u8
}

pub open spec fn is_upper(b: u8) -> bool {
    'A' as u8 <= b <= 'Z' as u8
}

pub open spec fn is_letter(b: u8) -> bool {
    is_lower(b) || is_upper(b)
}

/// A byte that may stand inside a name: a letter, a digit or `_`.
pub open spec fn is_word(b: u8) -> bool {
    is_letter(b) || is_digit(b) || b == '_' as u8
}

/// The value of a digit of a base up to sixteen, or sixteen for any other
/// byte.
pub open spec fn digit_value(b: u8) -> int {
    if is_digit(b) {
        b - '0' as u8
    } else if 'a' as u8 <= b <= 'f' as u8 {
        b - 'a' as u8 + 10
    } else if 'A' as u8 <= b <= 'F' as u8 {
        b - 'A' as u8 + 10
    } else {
        16
    }
}

/// Every byte of `s` is a digit of base `radix`.
pub open spec fn all_digits(s: Seq<u8>, radix: int) -> bool {
    forall|i: int| 0 <= i < s.len() ==> digit_value(#[trigger] s[i]) < radix
}

/// The number that the digits `s` write in base `radix`, most significant
/// digit first.
pub open spec fn number_value(s: Seq<u8>, radix: int) -> int
    decreases s.len(),
{
    if s.len() == 0 {
        0
    } else {
        number_value(s.drop_last(), radix) * radix + digit_value(s.last())
    }
}

/// The number that `s` writes in base `radix`, where `s` is one digit or
/// more and the number fits in 64 bits.
pub open spec fn decode_number(s: Seq<u8>, radix: int) -> Option<u64> {
    if s.len() > 0 && all_digits(s, radix) && number_value(s, radix) <= u64::MAX {
        Some(number_value(s, radix) as u64)
    } else {
        None
    }
}

/// The first place at or after `from` where `s` holds no decimal digit.
pub open spec fn digits_end(s: Seq<u8>, from: int) -> int
    decreases s.len() - from,
{
    if 0 <= from < s.len() && is_digit(s[from]) {
        digits_end(s, from + 1)
    } else {
        from
    }
}

/// The form of a floating-point literal: digits, a dot, digits, and then
/// nothing more or an `e`, a sign and digits.
pub open spec fn float_form(s: Seq<u8>) -> bool {
    let dot = digits_end(s, 0);
    let frac = digits_end(s, dot + 1);
    let exp = digits_end(s, frac + 2);
    &&& 0 < dot < s.len()
    &&& s[dot] == '.' as u8
    &&& dot + 1 < frac
    &&& frac == s.len() || {
        &&& frac + 2 < exp == s.len()
        &&& s[frac] == 'e' as u8
        &&& (s[frac + 1] == '+' as u8 || s[frac + 1] == '-' as u8)
    }
}

/// The bytes of a text of ASCII characters.
pub open spec fn bytes_of(word: Seq<char>) -> Seq<u8> {
    Seq::new(word.len(), |i: int| word[i] as u8)
}

/// Whether two byte strings are the same.
pub fn bytes_equal(a: &[u8], b: &[u8]) -> (r: bool)
    ensures
        r == (a@ == b@),
{
    if a.len() != b.len() {
        return false;
    }
    let mut i: usize = 0;
    while i < a.len()
        invariant
            a@.len() == b@.len(),
            0 <= i <= a@.len(),
            forall|j: int| 0 <= j < i ==> a@[j] == b@[j],
        decreases a@.len() - i,
    {
        if a[i] != b[i] {
            return false;
        }
        i += 1;
    }
    assert(a@ =~= b@);
    true
}

/// Whether the bytes `s` spell `word`.
pub fn text_is(s: &[u8], word: &str) -> (r: bool)
    requires
        is_ascii(word),
    ensures
        r == (s@ == bytes_of(word@)),
{
    broadcast use is_ascii_spec_bytes;

    bytes_equal(s, word.as_bytes())
}

pub fn byte_is_digit(b: u8) -> (r: bool)
    ensures
        r == is_digit(b),
{
    '0' as u8 <= b && b <= '9' as u8
}

pub fn byte_is_letter(b: u8) -> (r: bool)
    ensures
        r == is_letter(b),
{
    ('a' as u8 <= b && b <= 'z' as u8) || ('A' as u8 <= b && b <= 'Z' as u8)
}

pub fn byte_is_word(b: u8) -> (r: bool)
    ensures
        r == is_word(b),
{
    byte_is_letter(b) || byte_is_digit(b) || b == '_' as u8
}

/// The value of `b` as a digit, sixteen where it is none.
pub fn byte_digit_value(b: u8) -> (r: u8)
    ensures
        r == digit_value(b),
{
    if byte_is_digit(b) {
        b - '0' as u8
    } else if 'a' as u8 <= b && b <= 'f' as u8 {
        b - 'a' as u8 + 10
    } else if 'A' as u8 <= b && b <= 'F' as u8 {
        b - 'A' as u8 + 10
    } else {
        16
    }
}

/// Digits of a valid base never write a negative number, and a longer
/// numeral is never smaller than the numeral it extends.
pub proof fn lemma_number_value_grows(s: Seq<u8>, radix: int, k: int)
    requires
        1 <= radix,
        0 <= k <= s.len(),
    ensures
        0 <= number_value(s.take(k), radix) <= number_value(s, radix),
    decreases s.len(),
{
    if k == s.len() {
        assert(s.take(k) =~= s);
        if s.len() > 0 {
            lemma_number_value_grows(s.drop_last(), radix, k - 1);
            assert(number_value(s.drop_last(), radix) * radix >= 0) by (nonlinear_arith)
                requires
                    number_value(s.drop_last(), radix) >= 0,
                    radix >= 1,
            ;
        }
    } else {
        lemma_number_value_grows(s.drop_last(), radix, k);
        assert(s.drop_last().take(k) =~= s.take(k));
        let v = number_value(s.drop_last(), radix);
        assert(v * radix >= v) by (nonlinear_arith)
            requires
                v >= 0,
                radix >= 1,
        ;
    }
}

/// Reads `s` as a number in base `radix`.
pub fn parse_number(s: &[u8], radix: u64) -> (r: Option<u64>)
    requires
        2 <= radix <= 16,
    ensures
        r == decode_number(s@, radix as int),
{
    if s.len() == 0 {
        return None;
    }
    let mut acc: u64 = 0;
    let mut i: usize = 0;
    while i < s.len()
        invariant
            2 <= radix <= 16,
            0 <= i <= s@.len(),
            all_digits(s@.take(i as int), radix as int),
            acc == number_value(s@.take(i as int), radix as int),
        decreases s@.len() - i,
    {
        let d = byte_digit_value(s[i]);
        if d as u64 >= radix {
            return None;
        }
        proof {
            assert(s@.take(i + 1).drop_last() =~= s@.take(i as int));
            lemma_number_value_grows(s@, radix as int, i + 1);
        }
        let shifted = match acc.checked_mul(radix) {
            Some(v) => v,
            None => {
                return None;
            },
        };
        acc = match shifted.checked_add(d as u64) {
            Some(v) => v,
            None => {
                return None;
            },
        };
        i += 1;
    }
    assert(s@.take(i as int) =~= s@);
    Some(acc)
}

/// The first place at or after `from` where `s` holds no decimal digit.
pub fn scan_digits(s: &[u8], from: usize) -> (r: usize)
    requires
        from <= s@.len(),
    ensures
        r == digits_end(s@, from as int),
        from <= r <= s@.len(),
{
    let mut i = from;
    while i < s.len() && byte_is_digit(s[i])
        invariant
            from <= i <= s@.len(),
            digits_end(s@, i as int) == digits_end(s@, from as int),
        decreases s@.len() - i,
    {
        i += 1;
    }
    i
}

/// Whether `s` has the form of a floating-point literal.
pub fn is_float(s: &[u8]) -> (r: bool)
    ensures
        r == float_form(s@),
{
    let n = s.len();
    let dot = scan_digits(s, 0);
    if dot == 0 || dot >= n || s[dot] != '.' as u8 {
        return false;
    }
    let frac = scan_digits(s, dot + 1);
    if frac <= dot + 1 {
        return false;
    }
    if frac == n {
        return true;
    }
    if n - frac < 3 || s[frac] != 'e' as u8 {
        return false;
    }
    if s[frac + 1] != '+' as u8 && s[frac + 1] != '-' as u8 {
        return false;
    }
    let exp = scan_digits(s, frac + 2);
    exp == n
}

/// The form of a decimal numeral: one digit or more.
pub open spec fn int_form(s: Seq<u8>) -> bool {
    s.len() > 0 && forall|i: int| 0 <= i < s.len() ==> is_digit(#[trigger] s[i])
}

/// The form of a numeral with a base marker: `0`, the marker, and one digit
/// or more of the base.
pub open spec fn radix_form(s: Seq<u8>, marker: u8, radix: int) -> bool {
    &&& s.len() >= 3
    &&& s[0] == '0' as u8
    &&& s[1] == marker
    &&& all_digits(s.skip(2), radix)
}

/// The place at or after `i` of the first quote `q` that no backslash
/// escapes, or the length of `s` where there is none. A backslash escapes
/// the byte behind it, whatever it is.
pub open spec fn closing_quote(s: Seq<u8>, q: u8, i: int) -> int
    decreases s.len() - i,
{
    if i < 0 || i >= s.len() {
        s.len() as int
    } else if s[i] == '\\' as u8 {
        if i + 1 < s.len() {
            closing_quote(s, q, i + 2)
        } else {
            s.len() as int
        }
    } else if s[i] == q {
        i
    } else {
        closing_quote(s, q, i + 1)
    }
}

/// The form of a literal in quotes: it begins with the quote `q`, and the
/// first quote behind that which no backslash escapes is its last byte.
pub open spec fn quoted_form(s: Seq<u8>, q: u8) -> bool {
    s.len() >= 2 && s[0] == q && closing_quote(s, q, 1) == s.len() - 1
}

/// Whether `s` holds three dashes from `i` on.
pub open spec fn dashes_at(s: Seq<u8>, i: int) -> bool {
    &&& 0 <= i
    &&& i + 3 <= s.len()
    &&& s[i] == '-' as u8
    &&& s[i + 1] == '-' as u8
    &&& s[i + 2] == '-' as u8
}

/// The form of a block comment: three dashes, any text, and the first
/// three dashes behind the opening ones.
pub open spec fn block_comment_form(s: Seq<u8>) -> bool {
    &&& s.len() >= 6
    &&& dashes_at(s, 0)
    &&& dashes_at(s, s.len() - 3)
    &&& forall|i: int| 3 <= i < s.len() - 3 ==> !#[trigger] dashes_at(s, i)
}

/// The form of a line comment: two dashes, not three, and the rest of the
/// line.
pub open spec fn line_comment_form(s: Seq<u8>) -> bool {
    &&& s.len() >= 2
    &&& s[0] == '-' as u8
    &&& s[1] == '-' as u8
    &&& !dashes_at(s, 0)
    &&& forall|i: int| 0 <= i < s.len() ==> #[trigger] s[i] != '\n' as u8
}

/// The form of a comment of either kind.
pub open spec fn comment_form(s: Seq<u8>) -> bool {
    block_comment_form(s) || line_comment_form(s)
}

/// Whether every byte of `s` from `from` on may stand inside a name.
pub open spec fn word_from(s: Seq<u8>, from: int) -> bool {
    forall|i: int| from <= i < s.len() ==> is_word(#[trigger] s[i])
}

/// The form of an identifier: a lower-case letter, then letters, digits
/// and `_`.
pub open spec fn identifier_form(s: Seq<u8>) -> bool {
    s.len() > 0 && is_lower(s[0]) && word_from(s, 1)
}

/// The form of the name of a user's type: an upper-case letter, then
/// letters, digits and `_`.
pub open spec fn user_type_form(s: Seq<u8>) -> bool {
    s.len() > 0 && is_upper(s[0]) && word_from(s, 1)
}

/// The place behind the array markers `[]` that `s` holds from `i` on.
pub open spec fn array_prefix_end(s: Seq<u8>, i: int) -> int
    decreases s.len() - i,
{
    if 0 <= i && i + 1 < s.len() && s[i] == '[' as u8 && s[i + 1] == ']' as u8 {
        array_prefix_end(s, i + 2)
    } else {
        i
    }
}

/// The digits that `digits_end` passes over are digits, and it stops at
/// the end of `s` or at a byte that is none.
pub proof fn lemma_digits_end(s: Seq<u8>, from: int)
    requires
        0 <= from <= s.len(),
    ensures
        from <= digits_end(s, from) <= s.len(),
        forall|i: int| from <= i < digits_end(s, from) ==> is_digit(#[trigger] s[i]),
        digits_end(s, from) < s.len() ==> !is_digit(s[digits_end(s, from)]),
    decreases s.len() - from,
{
    if from < s.len() && is_digit(s[from]) {
        lemma_digits_end(s, from + 1);
    }
}

/// Whether `s` is a decimal numeral.
pub fn is_int(s: &[u8]) -> (r: bool)
    ensures
        r == int_form(s@),
{
    proof {
        lemma_digits_end(s@, 0);
    }
    s.len() > 0 && scan_digits(s, 0) == s.len()
}

/// Whether `s` is a numeral of base `radix` behind `0` and `marker`.
pub fn is_radix(s: &[u8], marker: u8, radix: u8) -> (r: bool)
    ensures
        r == radix_form(s@, marker, radix as int),
{
    if s.len() < 3 || s[0] != '0' as u8 || s[1] != marker {
        return false;
    }
    let mut i: usize = 2;
    while i < s.len()
        invariant
            2 <= i <= s@.len(),
            forall|j: int| 2 <= j < i ==> digit_value(#[trigger] s@[j]) < radix,
        decreases s@.len() - i,
    {
        if byte_digit_value(s[i]) >= radix {
            assert(s@.skip(2)[i - 2] == s@[i as int]);
            return false;
        }
        i += 1;
    }
    assert forall|j: int| 0 <= j < s@.skip(2).len() implies digit_value(
        #[trigger] s@.skip(2)[j],
    ) < radix by {
        assert(s@.skip(2)[j] == s@[j + 2]);
    }
    true
}

/// The place of the first quote `q` at or after `from` that no backslash
/// escapes, or the length of `s`.
pub fn find_closing_quote(s: &[u8], q: u8, from: usize) -> (r: usize)
    requires
        from <= s@.len(),
    ensures
        r == closing_quote(s@, q, from as int),
        from <= r <= s@.len(),
{
    let n = s.len();
    let mut i: usize = from;
    while i < n
        invariant
            n == s@.len(),
            from <= i <= n,
            closing_quote(s@, q, i as int) == closing_quote(s@, q, from as int),
        decreases n - i,
    {
        if s[i] == '\\' as u8 {
            if n - i < 2 {
                return n;
            }
            i += 2;
        } else if s[i] == q {
            return i;
        } else {
            i += 1;
        }
    }
    n
}

/// Whether `s` is a literal in quotes `q`.
pub fn is_quoted(s: &[u8], q: u8) -> (r: bool)
    ensures
        r == quoted_form(s@, q),
{
    s.len() >= 2 && s[0] == q && find_closing_quote(s, q, 1) == s.len() - 1
}

/// Whether `s` holds three dashes from `i` on.
pub fn has_dashes_at(s: &[u8], i: usize) -> (r: bool)
    ensures
        r == dashes_at(s@, i as int),
{
    s.len() >= 3 && i <= s.len() - 3 && s[i] == '-' as u8 && s[i + 1] == '-' as u8 && s[i + 2]
        == '-' as u8
}

/// Whether `s` is a block comment.
pub fn is_block_comment(s: &[u8]) -> (r: bool)
    ensures
        r == block_comment_form(s@),
{
    let n = s.len();
    if n < 6 || !has_dashes_at(s, 0) || !has_dashes_at(s, n - 3) {
        return false;
    }
    let mut i: usize = 3;
    while i < n - 3
        invariant
            n == s@.len(),
            n >= 6,
            3 <= i <= n - 3,
            forall|j: int| 3 <= j < i ==> !#[trigger] dashes_at(s@, j),
        decreases n - i,
    {
        if has_dashes_at(s, i) {
            return false;
        }
        i += 1;
    }
    true
}

/// Whether `s` is a line comment.
pub fn is_line_comment(s: &[u8]) -> (r: bool)
    ensures
        r == line_comment_form(s@),
{
    let n = s.len();
    if n < 2 || s[0] != '-' as u8 || s[1] != '-' as u8 || has_dashes_at(s, 0) {
        return false;
    }
    let mut i: usize = 0;
    while i < n
        invariant
            n == s@.len(),
            0 <= i <= n,
            forall|j: int| 0 <= j < i ==> #[trigger] s@[j] != '\n' as u8,
        decreases n - i,
    {
        if s[i] == '\n' as u8 {
            return false;
        }
        i += 1;
    }
    true
}

/// Whether every byte of `s` from `from` on may stand inside a name.
pub fn is_word_from(s: &[u8], from: usize) -> (r: bool)
    ensures
        r == word_from(s@, from as int),
{
    let mut i: usize = from;
    while i < s.len()
        invariant
            from <= i,
            forall|j: int| from <= j < i && j < s@.len() ==> is_word(#[trigger] s@[j]),
        decreases s@.len() - i,
    {
        if !byte_is_word(s[i]) {
            return false;
        }
        i += 1;
    }
    true
}

/// Whether `s` is an identifier.
pub fn is_identifier(s: &[u8]) -> (r: bool)
    ensures
        r == identifier_form(s@),
{
    s.len() > 0 && 'a' as u8 <= s[0] && s[0] <= 'z' as u8 && is_word_from(s, 1)
}

/// Whether `s` is the name of a user's type.
pub fn is_user_type(s: &[u8]) -> (r: bool)
    ensures
        r == user_type_form(s@),
{
    s.len() > 0 && 'A' as u8 <= s[0] && s[0] <= 'Z' as u8 && is_word_from(s, 1)
}

/// The place behind the array markers that `s` begins with.
pub fn skip_array_prefix(s: &[u8]) -> (r: usize)
    ensures
        r == array_prefix_end(s@, 0),
        r <= s@.len(),
{
    let n = s.len();
    let mut i: usize = 0;
    while n - i >= 2 && s[i] == '[' as u8 && s[i + 1] == ']' as u8
        invariant
            n == s@.len(),
            0 <= i <= n,
            array_prefix_end(s@, i as int) == array_prefix_end(s@, 0),
        decreases n - i,
    {
        i += 2;
    }
    i
}

} // verus!
