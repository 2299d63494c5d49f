//! The round trip of a request: written out as bytes and read from a
//! connection, it comes back as it was.

use crate::connection::{run, RunModel};
use crate::delivery::{
    all_filled, feed_all, is_complete_request, joined, lemma_whole_request_is_read,
    lemma_whole_request_parses, request_in,
};
use crate::grammar::{
    are_fields, blank_line_at, head_text, is_word, lemma_head_ends_at_blank_line,
    lemma_head_reads_back, with_fields,
};
use crate::parser::{
    find_terminator, fresh, lemma_find_terminator, terminator_at, StepModel, HEAD_ALLOWANCE,
};
use crate::request::{declared_length, HeadModel, OutcomeModel, RequestModel};
use crate::text::decoded;
use vstd::prelude::*;
use crate::encoding::{lemma_blank_line_at_end, lemma_terminator_is_blank_line};
use vstd::utf8::{encode_utf8, encode_utf8_decode_utf8, encode_utf8_valid_utf8};

verus! {

/// The bytes of a request: its head written out and encoded, and its body.
pub open spec fn request_bytes(
    method: Seq<char>,
    path: Seq<char>,
    fields: Seq<(Seq<char>, Seq<char>)>,
    body: Seq<u8>,
) -> Seq<u8> {
    encode_utf8(head_text(method, path, fields)) + body
}

/// The request that is read back: method and path as they were written, the
/// headers with the fields set, and the body.
pub open spec fn request_of(
    method: Seq<char>,
    path: Seq<char>,
    fields: Seq<(Seq<char>, Seq<char>)>,
    body: Seq<u8>,
) -> RequestModel {
    RequestModel { method, path, headers: with_fields(Map::empty(), fields), body }
}

/// True when a request can be written out and read back: method and path
/// are words, the fields can stand in header lines, the headers declare the
/// length of the body, the body is no longer than it may be, and the whole is
/// no longer than what a head may take beyond the largest body.
pub open spec fn is_well_formed(
    max_body_size: nat,
    method: Seq<char>,
    path: Seq<char>,
    fields: Seq<(Seq<char>, Seq<char>)>,
    body: Seq<u8>,
) -> bool {
    &&& is_word(method)
    &&& is_word(path)
    &&& are_fields(fields)
    &&& declared_length(with_fields(Map::empty(), fields)) == body.len()
    &&& body.len() <= max_body_size
    &&& request_bytes(method, path, fields, body).len() <= max_body_size + HEAD_ALLOWANCE
}

/// True when the first CR LF CR LF in the bytes of the request is the end of
/// its head.
pub open spec fn head_ends_first(
    method: Seq<char>,
    path: Seq<char>,
    fields: Seq<(Seq<char>, Seq<char>)>,
    body: Seq<u8>,
) -> bool {
    find_terminator(request_bytes(method, path, fields, body), 0) + 4 == encode_utf8(
        head_text(method, path, fields),
    ).len()
}

/// The bytes of a well-formed request are one whole request, with the head
/// that was written.
pub proof fn lemma_request_is_complete(
    max_body_size: nat,
    method: Seq<char>,
    path: Seq<char>,
    fields: Seq<(Seq<char>, Seq<char>)>,
    body: Seq<u8>,
)
    requires
        is_well_formed(max_body_size, method, path, fields, body),
    ensures
        is_complete_request(
            max_body_size,
            request_bytes(method, path, fields, body),
            encode_utf8(head_text(method, path, fields)).len() as int,
            HeadModel { method, path, headers: with_fields(Map::empty(), fields) },
        ),
        request_in(
            request_bytes(method, path, fields, body),
            encode_utf8(head_text(method, path, fields)).len() as int,
            HeadModel { method, path, headers: with_fields(Map::empty(), fields) },
        ) == request_of(method, path, fields, body),
{
    let text = head_text(method, path, fields);
    let head_bytes = encode_utf8(text);
    let bytes = request_bytes(method, path, fields, body);
    let head_len = head_bytes.len() as int;
    lemma_head_ends_first(method, path, fields, body);
    encode_utf8_valid_utf8(text);
    encode_utf8_decode_utf8(text);
    assert(bytes.take(head_len) =~= head_bytes);
    assert(decoded(head_bytes) == text);
    lemma_head_reads_back(method, path, fields);
    assert(bytes.skip(head_len) =~= body);
    lemma_find_terminator(bytes, 0);
}

/// The round trip, read after read: a well-formed request, alone on a
/// connection, is read to its last byte and comes back with its method, its
/// path, its headers by trimmed lower-case name, and its body.
pub proof fn lemma_request_round_trip(
    max_body_size: nat,
    method: Seq<char>,
    path: Seq<char>,
    fields: Seq<(Seq<char>, Seq<char>)>,
    body: Seq<u8>,
)
    requires
        is_well_formed(max_body_size, method, path, fields, body),
    ensures
        run(fresh(max_body_size), request_bytes(method, path, fields, body)) == (RunModel {
            outcome: OutcomeModel::Success(request_of(method, path, fields, body)),
            consumed: request_bytes(method, path, fields, body).len(),
        }),
{
    lemma_request_is_complete(max_body_size, method, path, fields, body);
    lemma_whole_request_parses(
        max_body_size,
        request_bytes(method, path, fields, body),
        encode_utf8(head_text(method, path, fields)).len() as int,
        HeadModel { method, path, headers: with_fields(Map::empty(), fields) },
    );
}

/// The round trip, chunk by chunk: however the bytes of a well-formed
/// request are cut into chunks that are not empty, the parser that is fed
/// them gives the request back.
pub proof fn lemma_request_round_trip_in_chunks(
    max_body_size: nat,
    method: Seq<char>,
    path: Seq<char>,
    fields: Seq<(Seq<char>, Seq<char>)>,
    body: Seq<u8>,
    chunks: Seq<Seq<u8>>,
)
    requires
        is_well_formed(max_body_size, method, path, fields, body),
        all_filled(chunks),
        joined(chunks) == request_bytes(method, path, fields, body),
    ensures
        feed_all(fresh(max_body_size), chunks) == StepModel::Done(
            OutcomeModel::Success(request_of(method, path, fields, body)),
        ),
{
    lemma_request_is_complete(max_body_size, method, path, fields, body);
    lemma_whole_request_is_read(
        max_body_size,
        request_bytes(method, path, fields, body),
        encode_utf8(head_text(method, path, fields)).len() as int,
        HeadModel { method, path, headers: with_fields(Map::empty(), fields) },
        chunks,
    );
}

/// The head of a request ends at the first CR LF CR LF of its bytes: no
/// CR LF CR LF comes before the one that ends the head written out.
pub proof fn lemma_head_ends_first(
    method: Seq<char>,
    path: Seq<char>,
    fields: Seq<(Seq<char>, Seq<char>)>,
    body: Seq<u8>,
)
    requires
        is_word(method),
        is_word(path),
        are_fields(fields),
    ensures
        head_ends_first(method, path, fields, body),
{
    let text = head_text(method, path, fields);
    let head_bytes = encode_utf8(text);
    let bytes = request_bytes(method, path, fields, body);
    let n = text.len() as int;
    let m = head_bytes.len() as int;
    lemma_head_ends_at_blank_line(method, path, fields);
    lemma_blank_line_at_end(text);
    assert(terminator_at(bytes, m - 4)) by {
        assert(terminator_at(head_bytes, m - 4));
        assert(bytes[m - 4] == head_bytes[m - 4]);
        assert(bytes[m - 3] == head_bytes[m - 3]);
        assert(bytes[m - 2] == head_bytes[m - 2]);
        assert(bytes[m - 1] == head_bytes[m - 1]);
    }
    assert forall|j: int| 0 <= j < m - 4 implies !terminator_at(bytes, j) by {
        if terminator_at(bytes, j) {
            assert(terminator_at(head_bytes, j)) by {
                assert(bytes[j] == head_bytes[j]);
                assert(bytes[j + 1] == head_bytes[j + 1]);
                assert(bytes[j + 2] == head_bytes[j + 2]);
                assert(bytes[j + 3] == head_bytes[j + 3]);
            }
            lemma_terminator_is_blank_line(text, j);
            let i = choose|i: int| #[trigger]
                blank_line_at(text, i) && encode_utf8(text.take(i)).len() == j;
            assert(i + 4 == n);
        }
    }
    lemma_find_terminator(bytes, 0);
    let found = find_terminator(bytes, 0);
    if found > m - 4 {
        assert(!terminator_at(bytes, m - 4));
    }
}

} // verus!
