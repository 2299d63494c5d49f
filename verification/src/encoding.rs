//! Where the end of a head lies in encoded text: in UTF-8 the bytes of
//! carriage return and line feed stand for these two characters and for
//! nothing else.

use crate::grammar::blank_line_at;
use crate::parser::terminator_at;
use vstd::prelude::*;
use vstd::utf8::{
    char_is_scalar, encode_scalar, encode_utf8, has_width_1_encoding, has_width_2_encoding,
    has_width_3_encoding, is_scalar,
};

verus! {

/// The bytes of one encoded character: a character below 128 is its own
/// single byte, and every byte of another character is 128 or more.
pub proof fn lemma_scalar_bytes(scalar: u32)
    requires
        is_scalar(scalar),
    ensures
        encode_scalar(scalar).len() >= 1,
        has_width_1_encoding(scalar) ==> encode_scalar(scalar) == seq![scalar as u8] && scalar
            == (scalar as u8) as u32,
        !has_width_1_encoding(scalar) ==> forall|k: int|
            0 <= k < encode_scalar(scalar).len() ==> #[trigger] encode_scalar(scalar)[k] >= 0x80,
{
    assert(forall|x: u8| #[trigger] (0x80u8 | x) >= 0x80) by (bit_vector);
    assert(forall|x: u8| #[trigger] (0xC0u8 | x) >= 0x80) by (bit_vector);
    assert(forall|x: u8| #[trigger] (0xE0u8 | x) >= 0x80) by (bit_vector);
    assert(forall|x: u8| #[trigger] (0xF0u8 | x) >= 0x80) by (bit_vector);
    if has_width_1_encoding(scalar) {
        assert(scalar & 0x7F == scalar) by (bit_vector)
            requires
                scalar <= 0x7F,
        ;
        assert(encode_scalar(scalar) =~= seq![scalar as u8]);
    } else if has_width_2_encoding(scalar) {
        let e = encode_scalar(scalar);
        assert(e.len() == 2);
        assert(e[0] >= 0x80 && e[1] >= 0x80);
    } else if has_width_3_encoding(scalar) {
        let e = encode_scalar(scalar);
        assert(e.len() == 3);
        assert(e[0] >= 0x80 && e[1] >= 0x80 && e[2] >= 0x80);
    } else {
        let e = encode_scalar(scalar);
        assert(e.len() == 4);
        assert(e[0] >= 0x80 && e[1] >= 0x80 && e[2] >= 0x80 && e[3] >= 0x80);
    }
}

/// A text put behind another is encoded as the two encodings, one behind the
/// other.
pub proof fn lemma_encoding_of_joined_text(a: Seq<char>, b: Seq<char>)
    ensures
        encode_utf8(a + b) == encode_utf8(a) + encode_utf8(b),
    decreases a.len(),
{
    if a.len() == 0 {
        assert(a + b =~= b);
        assert(encode_utf8(a) + encode_utf8(b) =~= encode_utf8(b));
    } else {
        lemma_encoding_of_joined_text(a.drop_first(), b);
        assert((a + b).drop_first() =~= a.drop_first() + b);
        assert((a + b)[0] == a[0]);
        assert(encode_utf8(a + b) =~= encode_utf8(a) + encode_utf8(b));
    }
}

/// Where an encoded text begins with a byte below 128, the text begins with
/// the character of that code, and the rest of the bytes encode the rest of
/// the text.
pub proof fn lemma_low_first_byte(text: Seq<char>, byte: u8)
    requires
        encode_utf8(text).len() > 0,
        encode_utf8(text)[0] == byte,
        byte < 0x80,
    ensures
        text.len() > 0,
        text[0] as u32 == byte as u32,
        encode_utf8(text).skip(1) == encode_utf8(text.drop_first()),
{
    if text.len() > 0 {
        let scalar = text[0] as u32;
        char_is_scalar(text[0]);
        lemma_scalar_bytes(scalar);
        let e = encode_scalar(scalar);
        let all = encode_utf8(text);
        assert(all == e + encode_utf8(text.drop_first()));
        assert(all[0] == e[0]);
        assert(e =~= seq![scalar as u8]);
        assert(all.skip(1) =~= encode_utf8(text.drop_first()));
    }
}

/// CR LF CR LF in an encoded text stands for these four characters: where
/// the four bytes start at `at`, the four characters start at an index of
/// the text whose characters before it are encoded in `at` bytes.
pub proof fn lemma_terminator_is_blank_line(text: Seq<char>, at: int)
    requires
        terminator_at(encode_utf8(text), at),
    ensures
        exists|i: int| #[trigger]
            blank_line_at(text, i) && encode_utf8(text.take(i)).len() == at,
    decreases text.len(),
{
    let all = encode_utf8(text);
    assert(text.len() > 0);
    let scalar = text[0] as u32;
    char_is_scalar(text[0]);
    lemma_scalar_bytes(scalar);
    let e = encode_scalar(scalar);
    let rest = text.drop_first();
    let tail = encode_utf8(rest);
    assert(all == e + tail);
    if at >= e.len() {
        let shifted = at - e.len();
        assert(terminator_at(tail, shifted)) by {
            assert(tail[shifted] == all[at]);
            assert(tail[shifted + 1] == all[at + 1]);
            assert(tail[shifted + 2] == all[at + 2]);
            assert(tail[shifted + 3] == all[at + 3]);
        }
        lemma_terminator_is_blank_line(rest, shifted);
        let i = choose|i: int| #[trigger]
            blank_line_at(rest, i) && encode_utf8(rest.take(i)).len() == shifted;
        assert(blank_line_at(text, i + 1)) by {
            assert(text[i + 1] == rest[i]);
            assert(text[i + 2] == rest[i + 1]);
            assert(text[i + 3] == rest[i + 2]);
            assert(text[i + 4] == rest[i + 3]);
        }
        let front = text.take(i + 1);
        assert(front.drop_first() =~= rest.take(i));
        assert(front[0] == text[0]);
        assert(encode_utf8(front) == e + encode_utf8(rest.take(i)));
    } else {
        assert(all[at] == e[at]);
        assert(has_width_1_encoding(scalar));
        assert(at == 0);
        lemma_low_first_byte(text, 13);
        let one = text.drop_first();
        assert(encode_utf8(one)[0] == all[1]);
        lemma_low_first_byte(one, 10);
        let two = one.drop_first();
        assert(encode_utf8(two)[0] == encode_utf8(one)[1]);
        assert(encode_utf8(one)[1] == all[2]);
        lemma_low_first_byte(two, 13);
        let three = two.drop_first();
        assert(encode_utf8(three)[0] == encode_utf8(two)[1]);
        assert(encode_utf8(two)[1] == encode_utf8(one)[2]);
        assert(encode_utf8(one)[2] == all[3]);
        lemma_low_first_byte(three, 10);
        vstd::utf8::char_u32_cast('\r', 13);
        vstd::utf8::char_u32_cast('\n', 10);
        vstd::utf8::char_u32_cast(text[0], 13);
        vstd::utf8::char_u32_cast(one[0], 10);
        vstd::utf8::char_u32_cast(two[0], 13);
        vstd::utf8::char_u32_cast(three[0], 10);
        assert(text[0] == '\r');
        assert(text[1] == one[0] && one[0] == '\n');
        assert(text[2] == two[0] && two[0] == '\r');
        assert(text[3] == three[0] && three[0] == '\n');
        assert(blank_line_at(text, 0));
        assert(text.take(0) =~= Seq::<char>::empty());
    }
}

/// A text that ends with carriage return, line feed, carriage return, line
/// feed is encoded in bytes that end with CR LF CR LF, and the text before
/// these characters in the bytes before these bytes.
pub proof fn lemma_blank_line_at_end(text: Seq<char>)
    requires
        blank_line_at(text, text.len() - 4),
    ensures
        encode_utf8(text).len() >= 4,
        terminator_at(encode_utf8(text), encode_utf8(text).len() - 4),
        encode_utf8(text.take(text.len() - 4)).len() == encode_utf8(text).len() - 4,
{
    let n = text.len() as int;
    let front = text.take(n - 4);
    let end = seq!['\r', '\n', '\r', '\n'];
    assert(text =~= front + end);
    lemma_encoding_of_joined_text(front, end);
    let e = encode_utf8(end);
    assert(e =~= seq![13u8, 10u8, 13u8, 10u8]) by {
        vstd::utf8::is_ascii_chars_encode_utf8(end);
        assert(e[0] == '\r' as u8);
        assert(e[1] == '\n' as u8);
        assert(e[2] == '\r' as u8);
        assert(e[3] == '\n' as u8);
    }
    let all = encode_utf8(text);
    let m = encode_utf8(front).len() as int;
    assert(all[m] == e[0] && all[m + 1] == e[1] && all[m + 2] == e[2] && all[m + 3] == e[3]);
}

} // verus!
