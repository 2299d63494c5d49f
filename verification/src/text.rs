//! Character-level scanning: white space, words, lines, decimal numbers.
//!
//! Every scanner works on a window `[lo, hi)` of one sequence of characters,
//! so that callers can cut a text into pieces without copying it. What a
//! scanner finds is defined on the same window that it is given.

use vstd::prelude::*;
use vstd::std_specs::iter::IteratorSpec;
use vstd::utf8::{decode_utf8, valid_utf8};

verus! {

/// True for the characters that carry the Unicode property `White_Space`.
pub open spec fn is_white_space(c: char) -> bool {
    let n = c as u32;
    ||| 0x0009 <= n <= 0x000D
    ||| n == 0x0020
    ||| n == 0x0085
    ||| n == 0x00A0
    ||| n == 0x1680
    ||| 0x2000 <= n <= 0x200A
    ||| n == 0x2028
    ||| n == 0x2029
    ||| n == 0x202F
    ||| n == 0x205F
    ||| n == 0x3000
}

/// Tells whether `c` is white space.
pub fn is_whitespace(c: char) -> (r: bool)
    ensures
        r == is_white_space(c),
{
    let n: u32 = c as u32;
    (0x0009 <= n && n <= 0x000D) || n == 0x0020 || n == 0x0085 || n == 0x00A0 || n == 0x1680 || (
    0x2000 <= n && n <= 0x200A) || n == 0x2028 || n == 0x2029 || n == 0x202F || n == 0x205F || n
        == 0x3000
}

/// The first index in `[lo, hi)` at which `s` holds `c`, or `hi` if there is none.
pub open spec fn find_char(s: Seq<char>, c: char, lo: int, hi: int) -> int
    decreases hi - lo,
{
    if lo < hi && s[lo] != c {
        find_char(s, c, lo + 1, hi)
    } else {
        lo
    }
}

/// The first index in `[lo, hi)` at which `s` holds no white space, or `hi`.
pub open spec fn skip_white(s: Seq<char>, lo: int, hi: int) -> int
    decreases hi - lo,
{
    if lo < hi && is_white_space(s[lo]) {
        skip_white(s, lo + 1, hi)
    } else {
        lo
    }
}

/// The first index in `[lo, hi)` at which `s` holds white space, or `hi`.
pub open spec fn skip_word(s: Seq<char>, lo: int, hi: int) -> int
    decreases hi - lo,
{
    if lo < hi && !is_white_space(s[lo]) {
        skip_word(s, lo + 1, hi)
    } else {
        lo
    }
}

/// The end of `[lo, hi)` once the white space at its end is cut off.
pub open spec fn trim_back(s: Seq<char>, lo: int, hi: int) -> int
    decreases hi - lo,
{
    if lo < hi && is_white_space(s[hi - 1]) {
        trim_back(s, lo, hi - 1)
    } else {
        hi
    }
}

/// The window `[lo, hi)` of `s` without the white space at both ends.
pub open spec fn trimmed(s: Seq<char>, lo: int, hi: int) -> Seq<char> {
    let a = skip_white(s, lo, hi);
    s.subrange(a, trim_back(s, a, hi))
}

/// What `find_char` finds: an index in the window at which the character
/// stands, or the end of the window; before it the character stands nowhere.
pub proof fn lemma_find_char_bounds(s: Seq<char>, c: char, lo: int, hi: int)
    requires
        lo <= hi,
    ensures
        lo <= find_char(s, c, lo, hi) <= hi,
        find_char(s, c, lo, hi) < hi ==> s[find_char(s, c, lo, hi)] == c,
        forall|i: int| lo <= i < find_char(s, c, lo, hi) ==> s[i] != c,
    decreases hi - lo,
{
    if lo < hi && s[lo] != c {
        lemma_find_char_bounds(s, c, lo + 1, hi);
    }
}

/// What `skip_white` finds: the first index in the window that holds no
/// white space, or the end of the window.
pub proof fn lemma_skip_white_bounds(s: Seq<char>, lo: int, hi: int)
    requires
        lo <= hi,
    ensures
        lo <= skip_white(s, lo, hi) <= hi,
        skip_white(s, lo, hi) < hi ==> !is_white_space(s[skip_white(s, lo, hi)]),
        forall|i: int| lo <= i < skip_white(s, lo, hi) ==> is_white_space(s[i]),
    decreases hi - lo,
{
    if lo < hi && is_white_space(s[lo]) {
        lemma_skip_white_bounds(s, lo + 1, hi);
    }
}

/// What `trim_back` finds: the end of the window without the white space at
/// its end.
pub proof fn lemma_trim_back_bounds(s: Seq<char>, lo: int, hi: int)
    requires
        lo <= hi,
    ensures
        lo <= trim_back(s, lo, hi) <= hi,
        lo < trim_back(s, lo, hi) ==> !is_white_space(s[trim_back(s, lo, hi) - 1]),
        forall|i: int| trim_back(s, lo, hi) <= i < hi ==> is_white_space(s[i]),
    decreases hi - lo,
{
    if lo < hi && is_white_space(s[hi - 1]) {
        lemma_trim_back_bounds(s, lo, hi - 1);
    }
}

/// Finds the first `c` in `text[lo..hi]`; gives `hi` when there is none.
pub fn find_in(text: &Vec<char>, c: char, lo: usize, hi: usize) -> (at: usize)
    requires
        lo <= hi <= text@.len(),
    ensures
        at == find_char(text@, c, lo as int, hi as int),
        lo <= at <= hi,
{
    let mut i: usize = lo;
    while i < hi && text[i] != c
        invariant
            lo <= i <= hi <= text@.len(),
            find_char(text@, c, i as int, hi as int) == find_char(text@, c, lo as int, hi as int),
        decreases hi - i,
    {
        i = i + 1;
    }
    i
}

/// Skips the white space at the start of `text[lo..hi]`.
pub fn skip_white_in(text: &Vec<char>, lo: usize, hi: usize) -> (at: usize)
    requires
        lo <= hi <= text@.len(),
    ensures
        at == skip_white(text@, lo as int, hi as int),
        lo <= at <= hi,
{
    let mut i: usize = lo;
    while i < hi && is_whitespace(text[i])
        invariant
            lo <= i <= hi <= text@.len(),
            skip_white(text@, i as int, hi as int) == skip_white(text@, lo as int, hi as int),
        decreases hi - i,
    {
        i = i + 1;
    }
    i
}

/// Skips the characters at the start of `text[lo..hi]` that are no white space.
pub fn skip_word_in(text: &Vec<char>, lo: usize, hi: usize) -> (at: usize)
    requires
        lo <= hi <= text@.len(),
    ensures
        at == skip_word(text@, lo as int, hi as int),
        lo <= at <= hi,
{
    let mut i: usize = lo;
    while i < hi && !is_whitespace(text[i])
        invariant
            lo <= i <= hi <= text@.len(),
            skip_word(text@, i as int, hi as int) == skip_word(text@, lo as int, hi as int),
        decreases hi - i,
    {
        i = i + 1;
    }
    i
}

/// Cuts the white space off both ends of `text[lo..hi]` and gives the window
/// that is left.
pub fn trim_in(text: &Vec<char>, lo: usize, hi: usize) -> (window: (usize, usize))
    requires
        lo <= hi <= text@.len(),
    ensures
        lo <= window.0 <= window.1 <= hi,
        window.0 == skip_white(text@, lo as int, hi as int),
        window.1 == trim_back(text@, window.0 as int, hi as int),
        text@.subrange(window.0 as int, window.1 as int) == trimmed(text@, lo as int, hi as int),
{
    let a = skip_white_in(text, lo, hi);
    let mut b: usize = hi;
    while a < b && is_whitespace(text[b - 1])
        invariant
            a <= b <= hi <= text@.len(),
            trim_back(text@, a as int, b as int) == trim_back(text@, a as int, hi as int),
        decreases b - a,
    {
        b = b - 1;
    }
    (a, b)
}

/// The number that the decimal digits of `s` spell; `s` holds digits only.
pub open spec fn digits_value(s: Seq<char>) -> nat
    decreases s.len(),
{
    if s.len() == 0 {
        0
    } else {
        digits_value(s.drop_last()) * 10 + (s.last() as u32 - '0' as u32) as nat
    }
}

/// True when every character of `s` is one of `0` to `9`.
pub open spec fn all_digits(s: Seq<char>) -> bool {
    forall|i: int| 0 <= i < s.len() ==> '0' <= #[trigger] s[i] <= '9'
}

/// The digits of `s`: `s` itself, or `s` without one leading `+`.
pub open spec fn unsigned_digits(s: Seq<char>) -> Seq<char> {
    if s.len() > 0 && s[0] == '+' {
        s.skip(1)
    } else {
        s
    }
}

/// What `s` means as an unsigned decimal number: an optional `+`, then at least
/// one digit and nothing else, the whole no larger than `usize::MAX`.
pub open spec fn decimal_usize(s: Seq<char>) -> Option<usize> {
    let d = unsigned_digits(s);
    if d.len() > 0 && all_digits(d) && digits_value(d) <= usize::MAX {
        Some(digits_value(d) as usize)
    } else {
        None
    }
}

/// The digits at the front of a number spell no more than the number.
pub proof fn lemma_digits_value_grows(s: Seq<char>, n: int)
    requires
        0 <= n <= s.len(),
    ensures
        digits_value(s.take(n)) <= digits_value(s),
    decreases s.len() - n,
{
    if n < s.len() {
        lemma_digits_value_grows(s, n + 1);
        assert(s.take(n + 1).drop_last() =~= s.take(n));
    } else {
        assert(s.take(n) =~= s);
    }
}

/// Reads `text[lo..hi]` as an unsigned decimal number.
pub fn parse_usize_in(text: &Vec<char>, lo: usize, hi: usize) -> (r: Option<usize>)
    requires
        lo <= hi <= text@.len(),
    ensures
        r == decimal_usize(text@.subrange(lo as int, hi as int)),
{
    let ghost s = text@.subrange(lo as int, hi as int);
    let start: usize = if lo < hi && text[lo] == '+' {
        lo + 1
    } else {
        lo
    };
    let ghost d = unsigned_digits(s);
    assert(d =~= text@.subrange(start as int, hi as int));
    if start == hi {
        return None;
    }
    let mut value: usize = 0;
    let mut i: usize = start;
    while i < hi
        invariant
            lo <= start <= i <= hi <= text@.len(),
            start < hi,
            d == text@.subrange(start as int, hi as int),
            d == unsigned_digits(text@.subrange(lo as int, hi as int)),
            all_digits(d.take(i - start)),
            value == digits_value(d.take(i - start)),
        decreases hi - i,
    {
        let c = text[i];
        let ghost prefix = d.take(i - start + 1);
        proof {
            assert(prefix.drop_last() =~= d.take(i - start));
            assert(prefix.last() == c);
        }
        if !('0' <= c && c <= '9') {
            assert(d[i - start] == c);
            return None;
        }
        let digit: usize = (c as u32 - '0' as u32) as usize;
        let grown = match value.checked_mul(10) {
            Some(tens) => tens.checked_add(digit),
            None => None,
        };
        match grown {
            Some(v) => {
                value = v;
            },
            None => {
                proof {
                    assert(digits_value(prefix) > usize::MAX);
                    lemma_digits_value_grows(d, i - start + 1);
                }
                return None;
            },
        }
        proof {
            assert forall|k: int| 0 <= k < prefix.len() implies '0' <= #[trigger] prefix[k]
                <= '9' by {
                if k < i - start {
                    assert(prefix[k] == d.take(i - start)[k]);
                }
            }
        }
        i = i + 1;
    }
    assert(d.take(hi - start) =~= d);
    Some(value)
}

/// The character of the decimal digit `d`.
pub open spec fn digit_char(d: nat) -> char {
    ((48 + d) as u8) as char
}

/// The decimal digits of `n`, without leading zeros.
pub open spec fn decimal_digits(n: nat) -> Seq<char>
    decreases n,
{
    if n < 10 {
        seq![digit_char(n)]
    } else {
        decimal_digits(n / 10).push(digit_char(n % 10))
    }
}

/// Appends the decimal digits of `n` to `s`.
pub fn push_decimal(s: &mut String, n: usize)
    ensures
        final(s)@ == old(s)@ + decimal_digits(n as nat),
    decreases n,
{
    if n >= 10 {
        push_decimal(s, n / 10);
    }
    let d: u8 = (n % 10) as u8;
    push_char(s, (48 + d) as char);
    assert(final(s)@ =~= old(s)@ + decimal_digits(n as nat));
}

/// What `String::from_utf8_lossy` makes of `bytes`.
pub uninterp spec fn utf8_lossy(bytes: Seq<u8>) -> Seq<char>;

/// The word `s` in lower case, as `str::to_lowercase` gives it.
pub uninterp spec fn lowercase(s: Seq<char>) -> Seq<char>;

/// The word `s` in upper case, as `str::to_uppercase` gives it.
pub uninterp spec fn uppercase(s: Seq<char>) -> Seq<char>;

/// The text that `bytes` stand for: what they encode where they are valid
/// UTF-8, and else what lossy decoding makes of them.
pub open spec fn decoded(bytes: Seq<u8>) -> Seq<char> {
    if valid_utf8(bytes) {
        decode_utf8(bytes)
    } else {
        utf8_lossy(bytes)
    }
}

/// Calls `String::from_utf8_lossy`, which decodes UTF-8 and puts U+FFFD in
/// place of what is no UTF-8. The result is a function of the bytes alone, and
/// bytes that are valid UTF-8 decode to the text they encode.
#[verifier::external_body]
pub(crate) fn decode_lossy(bytes: &[u8]) -> (text: String)
    ensures
        text@ == utf8_lossy(bytes@),
        valid_utf8(bytes@) ==> text@ == decode_utf8(bytes@),
{
    String::from_utf8_lossy(bytes).into_owned()
}

/// Calls `String::from_utf8`, which accepts exactly the byte sequences that
/// are valid UTF-8 and gives the text they encode.
#[verifier::external_body]
pub(crate) fn decode_strict(bytes: Vec<u8>) -> (text: Option<String>)
    ensures
        text is Some <==> valid_utf8(bytes@),
        text matches Some(t) ==> t@ == decode_utf8(bytes@),
{
    String::from_utf8(bytes).ok()
}

/// Calls `str::to_lowercase`; the result is a function of the text alone.
#[verifier::external_body]
pub(crate) fn to_lowercase(s: &str) -> (lower: String)
    ensures
        lower@ == lowercase(s@),
{
    s.to_lowercase()
}

/// Calls `str::to_uppercase`; the result is a function of the text alone.
#[verifier::external_body]
pub(crate) fn to_uppercase(s: &str) -> (upper: String)
    ensures
        upper@ == uppercase(s@),
{
    s.to_uppercase()
}

/// Calls `String::push`, which appends one character.
#[verifier::external_body]
pub(crate) fn push_char(s: &mut String, c: char)
    ensures
        final(s)@ == old(s)@.push(c),
{
    s.push(c)
}

/// The characters of `s`, one by one.
pub fn chars_of(s: &str) -> (chars: Vec<char>)
    ensures
        chars@ == s@,
{
    broadcast use vstd::string::group_string_axioms;

    let mut chars: Vec<char> = Vec::new();
    let mut rest = s.chars();
    let ghost mut done: int = 0;
    loop
        invariant
            0 <= done <= s@.len(),
            chars@ == s@.take(done),
            rest.remaining() == s@.skip(done),
            rest.obeys_prophetic_iter_laws(),
        ensures
            done == s@.len(),
        decreases s@.len() - done,
    {
        match rest.next() {
            Some(c) => {
                chars.push(c);
                proof {
                    done = done + 1;
                }
            },
            None => {
                break ;
            },
        }
    }
    chars
}

/// The text `text[lo..hi]` as a `String`.
pub fn string_of(text: &Vec<char>, lo: usize, hi: usize) -> (s: String)
    requires
        lo <= hi <= text@.len(),
    ensures
        s@ == text@.subrange(lo as int, hi as int),
{
    let mut s = String::new();
    let mut i: usize = lo;
    while i < hi
        invariant
            lo <= i <= hi <= text@.len(),
            s@ == text@.subrange(lo as int, i as int),
        decreases hi - i,
    {
        push_char(&mut s, text[i]);
        i = i + 1;
    }
    s
}

/// Tells whether two texts hold the same characters.
pub fn same_text(a: &str, b: &str) -> (same: bool)
    ensures
        same == (a@ == b@),
{
    let x = chars_of(a);
    let y = chars_of(b);
    if x.len() != y.len() {
        return false;
    }
    let mut i: usize = 0;
    while i < x.len()
        invariant
            i <= x.len(),
            x.len() == y.len(),
            x@ == a@,
            y@ == b@,
            x@.take(i as int) == y@.take(i as int),
        decreases x.len() - i,
    {
        if x[i] != y[i] {
            return false;
        }
        assert(x@.take(i + 1) =~= x@.take(i as int).push(x@[i as int]));
        assert(y@.take(i + 1) =~= y@.take(i as int).push(y@[i as int]));
        i = i + 1;
    }
    assert(x@.take(x.len() as int) =~= x@);
    assert(y@.take(y.len() as int) =~= y@);
    true
}

/// Tells whether `text` begins with `prefix`.
pub fn starts_with(text: &str, prefix: &str) -> (begins: bool)
    ensures
        begins == prefix@.is_prefix_of(text@),
{
    let x = chars_of(text);
    let y = chars_of(prefix);
    if y.len() > x.len() {
        return false;
    }
    let mut i: usize = 0;
    while i < y.len()
        invariant
            i <= y.len() <= x.len(),
            x@ == text@,
            y@ == prefix@,
            x@.take(i as int) == y@.take(i as int),
        decreases y.len() - i,
    {
        if x[i] != y[i] {
            assert(x@.subrange(0, y.len() as int)[i as int] != y@[i as int]);
            return false;
        }
        assert(x@.take(i + 1) =~= x@.take(i as int).push(x@[i as int]));
        assert(y@.take(i + 1) =~= y@.take(i as int).push(y@[i as int]));
        i = i + 1;
    }
    assert(y@.take(y.len() as int) =~= y@);
    assert(x@.take(y.len() as int) =~= x@.subrange(0, y.len() as int));
    true
}

} // verus!
