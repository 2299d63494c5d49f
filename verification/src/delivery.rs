//! A complete request is read whole, however it arrives: the laws that tie
//! the steps of the parser to the bytes of one request.

use crate::connection::{chunk_len, next_arrival, run, RunModel, READ_CHUNK};
use crate::parser::{
    find_terminator, fresh, lemma_find_terminator, step, terminator_at, ArrivalModel,
    ParserModel, StageModel, StepModel, HEAD_ALLOWANCE,
};
use crate::request::{declared_length, head_of, HeadModel, OutcomeModel, RequestModel};
use crate::text::decoded;
use vstd::prelude::*;

verus! {

/// The chunks put together, in their order.
pub open spec fn joined(chunks: Seq<Seq<u8>>) -> Seq<u8>
    decreases chunks.len(),
{
    if chunks.len() == 0 {
        Seq::empty()
    } else {
        joined(chunks.drop_last()) + chunks.last()
    }
}

/// True when no chunk is empty.
pub open spec fn all_filled(chunks: Seq<Seq<u8>>) -> bool {
    forall|i: int| 0 <= i < chunks.len() ==> (#[trigger] chunks[i]).len() > 0
}

/// Where the parser stands once the chunks have arrived, one after the other:
/// it goes on while it asks for more, and stays where the request ended.
pub open spec fn feed_all(parser: ParserModel, chunks: Seq<Seq<u8>>) -> StepModel
    decreases chunks.len(),
{
    if chunks.len() == 0 {
        StepModel::More(parser)
    } else {
        match feed_all(parser, chunks.drop_last()) {
            StepModel::More(next) => step(next, ArrivalModel::Data(chunks.last())),
            StepModel::Done(outcome) => StepModel::Done(outcome),
        }
    }
}

/// True when `bytes` are one whole request and nothing else, with the head
/// `head` in their first `head_len` bytes: the first CR LF CR LF ends the
/// head, the head reads as `head`, and what follows has the length that the
/// head declares and is no longer than a body may be.
pub open spec fn is_complete_request(
    max_body_size: nat,
    bytes: Seq<u8>,
    head_len: int,
    head: HeadModel,
) -> bool {
    &&& 4 <= head_len <= bytes.len()
    &&& find_terminator(bytes, 0) + 4 == head_len
    &&& head_of(decoded(bytes.take(head_len))) == Some(head)
    &&& declared_length(head.headers) == bytes.len() - head_len
    &&& bytes.len() - head_len <= max_body_size
}

/// The request that `bytes` hold: the head `head`, and as its body what
/// follows the head.
pub open spec fn request_in(bytes: Seq<u8>, head_len: int, head: HeadModel) -> RequestModel {
    RequestModel {
        method: head.method,
        path: head.path,
        headers: head.headers,
        body: bytes.skip(head_len),
    }
}

/// Where the parser stands when the first `arrived` bytes of the whole
/// request `bytes` have arrived.
pub open spec fn progress(
    max_body_size: nat,
    bytes: Seq<u8>,
    head_len: int,
    head: HeadModel,
    arrived: int,
) -> ParserModel {
    if arrived < head_len {
        ParserModel { max_body_size, stage: StageModel::Head { buffer: bytes.take(arrived) } }
    } else {
        ParserModel {
            max_body_size,
            stage: StageModel::Body {
                head,
                declared: (bytes.len() - head_len) as nat,
                body: bytes.subrange(head_len, arrived),
            },
        }
    }
}

/// In the first `end` bytes of `bytes`, CR LF CR LF is found where it is
/// found first in `bytes`, if it lies within them, and not at all if not.
pub proof fn lemma_terminator_in_prefix(bytes: Seq<u8>, end: int)
    requires
        0 <= end <= bytes.len(),
        find_terminator(bytes, 0) < bytes.len(),
    ensures
        find_terminator(bytes.take(end), 0) == (if find_terminator(bytes, 0) + 4 <= end {
            find_terminator(bytes, 0)
        } else {
            end
        }),
{
    let first = find_terminator(bytes, 0);
    let part = bytes.take(end);
    let found = find_terminator(part, 0);
    lemma_find_terminator(bytes, 0);
    lemma_find_terminator(part, 0);
    if found < end {
        assert(terminator_at(part, found));
        assert(terminator_at(bytes, found));
    }
    if first + 4 <= end {
        assert(terminator_at(part, first));
    }
}

/// One more chunk of a whole request: from where the parser stands after the
/// first `arrived` bytes, the next `count` bytes bring it to where it stands
/// after `arrived + count` bytes, or end the request well if they are its
/// last.
pub proof fn lemma_next_chunk(
    max_body_size: nat,
    bytes: Seq<u8>,
    head_len: int,
    head: HeadModel,
    arrived: int,
    count: int,
)
    requires
        is_complete_request(max_body_size, bytes, head_len, head),
        0 <= arrived,
        0 < count,
        arrived + count <= bytes.len(),
        arrived < head_len ==> arrived + count <= max_body_size + HEAD_ALLOWANCE,
    ensures
        step(
            progress(max_body_size, bytes, head_len, head, arrived),
            ArrivalModel::Data(bytes.subrange(arrived, arrived + count)),
        ) == (if arrived + count < bytes.len() {
            StepModel::More(progress(max_body_size, bytes, head_len, head, arrived + count))
        } else {
            StepModel::Done(OutcomeModel::Success(request_in(bytes, head_len, head)))
        }),
{
    let chunk = bytes.subrange(arrived, arrived + count);
    let end = arrived + count;
    if arrived < head_len {
        let grown = bytes.take(arrived) + chunk;
        assert(grown =~= bytes.take(end));
        lemma_terminator_in_prefix(bytes, end);
        if head_len <= end {
            assert(grown.subrange(0, head_len) =~= bytes.take(head_len));
            assert(grown.subrange(head_len, grown.len() as int) =~= bytes.subrange(head_len, end));
            if end == bytes.len() {
                assert(bytes.subrange(head_len, end) =~= bytes.skip(head_len));
            }
        }
    } else {
        let grown = bytes.subrange(head_len, arrived) + chunk;
        assert(grown =~= bytes.subrange(head_len, end));
        if end == bytes.len() {
            assert(bytes.subrange(head_len, end) =~= bytes.skip(head_len));
        }
    }
}

/// The first chunks put together are the first bytes of all chunks put
/// together.
pub proof fn lemma_joined_prefix(chunks: Seq<Seq<u8>>, count: int)
    requires
        0 <= count <= chunks.len(),
    ensures
        joined(chunks.take(count)).len() <= joined(chunks).len(),
        joined(chunks.take(count)) == joined(chunks).take(joined(chunks.take(count)).len() as int),
        all_filled(chunks) && count < chunks.len() ==> joined(chunks.take(count)).len() < joined(
            chunks,
        ).len(),
    decreases chunks.len() - count,
{
    if count == chunks.len() {
        assert(chunks.take(count) =~= chunks);
        assert(joined(chunks).take(joined(chunks).len() as int) =~= joined(chunks));
    } else {
        lemma_joined_prefix(chunks, count + 1);
        let longer = chunks.take(count + 1);
        assert(longer.drop_last() =~= chunks.take(count));
        assert(longer.last() == chunks[count]);
        let short = joined(chunks.take(count));
        assert(short =~= joined(longer).take(short.len() as int));
        assert(short =~= joined(chunks).take(short.len() as int));
    }
}

/// After some but not all chunks of a whole request, the parser stands where
/// the bytes that have arrived bring it.
proof fn lemma_some_chunks(
    max_body_size: nat,
    bytes: Seq<u8>,
    head_len: int,
    head: HeadModel,
    chunks: Seq<Seq<u8>>,
    count: int,
)
    requires
        is_complete_request(max_body_size, bytes, head_len, head),
        all_filled(chunks),
        joined(chunks) == bytes,
        bytes.len() <= max_body_size + HEAD_ALLOWANCE,
        0 <= count < chunks.len(),
    ensures
        feed_all(fresh(max_body_size), chunks.take(count)) == StepModel::More(
            progress(
                max_body_size,
                bytes,
                head_len,
                head,
                joined(chunks.take(count)).len() as int,
            ),
        ),
    decreases count,
{
    if count == 0 {
        assert(chunks.take(0) =~= Seq::<Seq<u8>>::empty());
        assert(bytes.take(0) =~= Seq::<u8>::empty());
    } else {
        lemma_some_chunks(max_body_size, bytes, head_len, head, chunks, count - 1);
        let now = chunks.take(count);
        let before = chunks.take(count - 1);
        assert(now.drop_last() =~= before);
        assert(now.last() == chunks[count - 1]);
        lemma_joined_prefix(chunks, count - 1);
        lemma_joined_prefix(chunks, count);
        let arrived = joined(before).len() as int;
        let end = joined(now).len() as int;
        assert(chunks[count - 1] =~= bytes.subrange(arrived, end)) by {
            let whole = joined(now);
            assert(whole == joined(before) + chunks[count - 1]);
            assert(whole == bytes.take(end));
            assert(joined(before) == bytes.take(arrived));
            assert(end == arrived + chunks[count - 1].len());
            assert forall|i: int| 0 <= i < chunks[count - 1].len() implies chunks[count - 1][i]
                == bytes.subrange(arrived, end)[i] by {
                assert(whole[arrived + i] == chunks[count - 1][i]);
            }
        }
        lemma_next_chunk(max_body_size, bytes, head_len, head, arrived, end - arrived);
    }
}

/// A whole request is read, however it is cut into chunks: where the chunks
/// are not empty, make up one whole request and nothing else, and are no
/// longer together than what a head may take beyond the largest body, the
/// parser asks for more until the last chunk has arrived, and then gives the
/// request with its head and, byte for byte, its body.
pub proof fn lemma_whole_request_is_read(
    max_body_size: nat,
    bytes: Seq<u8>,
    head_len: int,
    head: HeadModel,
    chunks: Seq<Seq<u8>>,
)
    requires
        is_complete_request(max_body_size, bytes, head_len, head),
        all_filled(chunks),
        joined(chunks) == bytes,
        bytes.len() <= max_body_size + HEAD_ALLOWANCE,
    ensures
        feed_all(fresh(max_body_size), chunks) == StepModel::Done(
            OutcomeModel::Success(request_in(bytes, head_len, head)),
        ),
        forall|count: int|
            0 <= count < chunks.len() ==> #[trigger] feed_all(
                fresh(max_body_size),
                chunks.take(count),
            ) is More,
{
    assert(chunks.len() > 0) by {
        if chunks.len() == 0 {
            assert(joined(chunks).len() == 0);
        }
    }
    let last = chunks.len() - 1;
    lemma_some_chunks(max_body_size, bytes, head_len, head, chunks, last);
    assert(chunks.take(last) =~= chunks.drop_last());
    lemma_joined_prefix(chunks, last);
    let arrived = joined(chunks.drop_last()).len() as int;
    assert(chunks.last() =~= bytes.subrange(arrived, bytes.len() as int)) by {
        assert(bytes == joined(chunks.drop_last()) + chunks.last());
        assert(joined(chunks.drop_last()) == bytes.take(arrived));
        assert(bytes.len() == arrived + chunks.last().len());
        assert forall|i: int| 0 <= i < chunks.last().len() implies chunks.last()[i]
            == bytes.subrange(arrived, bytes.len() as int)[i] by {
            assert(bytes[arrived + i] == chunks.last()[i]);
        }
    }
    lemma_next_chunk(max_body_size, bytes, head_len, head, arrived, bytes.len() - arrived);
    assert forall|count: int| 0 <= count < chunks.len() implies #[trigger] feed_all(
        fresh(max_body_size),
        chunks.take(count),
    ) is More by {
        lemma_some_chunks(max_body_size, bytes, head_len, head, chunks, count);
    }
}

/// What is left of a whole request is read to its end.
proof fn lemma_rest_is_read(
    max_body_size: nat,
    bytes: Seq<u8>,
    head_len: int,
    head: HeadModel,
    arrived: int,
)
    requires
        is_complete_request(max_body_size, bytes, head_len, head),
        bytes.len() <= max_body_size + HEAD_ALLOWANCE,
        0 <= arrived < bytes.len(),
    ensures
        run(progress(max_body_size, bytes, head_len, head, arrived), bytes.skip(arrived))
            == (RunModel {
            outcome: OutcomeModel::Success(request_in(bytes, head_len, head)),
            consumed: (bytes.len() - arrived) as nat,
        }),
    decreases bytes.len() - arrived,
{
    let input = bytes.skip(arrived);
    let taken = chunk_len(input, READ_CHUNK as nat) as int;
    assert(input.take(taken) =~= bytes.subrange(arrived, arrived + taken));
    lemma_next_chunk(max_body_size, bytes, head_len, head, arrived, taken);
    if arrived + taken < bytes.len() {
        assert(input.skip(taken) =~= bytes.skip(arrived + taken));
        lemma_rest_is_read(max_body_size, bytes, head_len, head, arrived + taken);
    }
}

/// On a connection that holds one whole request and nothing else, no longer
/// than what a head may take beyond the largest body, the request is read
/// to its last byte and comes back with its head and, byte for byte, its
/// body.
pub proof fn lemma_whole_request_parses(
    max_body_size: nat,
    bytes: Seq<u8>,
    head_len: int,
    head: HeadModel,
)
    requires
        is_complete_request(max_body_size, bytes, head_len, head),
        bytes.len() <= max_body_size + HEAD_ALLOWANCE,
    ensures
        run(fresh(max_body_size), bytes) == (RunModel {
            outcome: OutcomeModel::Success(request_in(bytes, head_len, head)),
            consumed: bytes.len(),
        }),
{
    assert(bytes.skip(0) =~= bytes);
    assert(bytes.take(0) =~= Seq::<u8>::empty());
    lemma_rest_is_read(max_body_size, bytes, head_len, head, 0);
}

/// True when the parser awaits the body length that its head declares.
pub open spec fn is_consistent(parser: ParserModel) -> bool {
    match parser.stage {
        StageModel::Head { .. } => true,
        StageModel::Body { head, declared, .. } => declared == declared_length(head.headers),
    }
}

/// True when the body of `request` has the length that its headers declare,
/// or they declare none.
pub open spec fn has_declared_length(request: RequestModel) -> bool {
    declared_length(request.headers) == 0 || request.body.len() == declared_length(
        request.headers,
    )
}

/// A step keeps the parser consistent, and a request that it gives has the
/// length that its headers declare.
pub proof fn lemma_step_keeps_consistent(parser: ParserModel, arrival: ArrivalModel)
    requires
        is_consistent(parser),
    ensures
        step(parser, arrival) matches StepModel::More(next) ==> is_consistent(next),
        step(parser, arrival) matches StepModel::Done(OutcomeModel::Success(request))
            ==> has_declared_length(request),
{
}

/// Every request that is read from a connection has a body of the length
/// that its headers declare, where they declare one.
pub proof fn lemma_read_request_has_declared_length(parser: ParserModel, input: Seq<u8>)
    requires
        is_consistent(parser),
    ensures
        run(parser, input).outcome matches OutcomeModel::Success(request) ==> has_declared_length(
            request,
        ),
    decreases input.len(),
{
    let taken = chunk_len(input, READ_CHUNK as nat);
    lemma_step_keeps_consistent(parser, next_arrival(input));
    match step(parser, next_arrival(input)) {
        StepModel::Done(outcome) => {},
        StepModel::More(next) => {
            if taken > 0 {
                lemma_read_request_has_declared_length(next, input.skip(taken as int));
            }
        },
    }
}

/// True when the part of a body that the parser holds is within its limit.
pub open spec fn is_within_limit(parser: ParserModel) -> bool {
    match parser.stage {
        StageModel::Head { .. } => true,
        StageModel::Body { body, .. } => body.len() <= parser.max_body_size,
    }
}

/// A step keeps the limit of the parser and keeps what it holds of a body
/// within it, and a request that it gives has a body within the limit.
pub proof fn lemma_step_keeps_within_limit(parser: ParserModel, arrival: ArrivalModel)
    requires
        is_within_limit(parser),
    ensures
        step(parser, arrival) matches StepModel::More(next) ==> is_within_limit(next)
            && next.max_body_size == parser.max_body_size,
        step(parser, arrival) matches StepModel::Done(OutcomeModel::Success(request))
            ==> request.body.len() <= parser.max_body_size,
{
}

/// No request that is read from a connection has a body over the limit,
/// whatever the connection holds and however the body is spread over the
/// reads.
pub proof fn lemma_read_body_is_within_limit(parser: ParserModel, input: Seq<u8>)
    requires
        is_within_limit(parser),
    ensures
        run(parser, input).outcome matches OutcomeModel::Success(request) ==> request.body.len()
            <= parser.max_body_size,
    decreases input.len(),
{
    let taken = chunk_len(input, READ_CHUNK as nat);
    lemma_step_keeps_within_limit(parser, next_arrival(input));
    match step(parser, next_arrival(input)) {
        StepModel::Done(outcome) => {},
        StepModel::More(next) => {
            if taken > 0 {
                lemma_read_body_is_within_limit(next, input.skip(taken as int));
            }
        },
    }
}

/// The bytes `bytes` with `count` more bytes behind them.
pub open spec fn padded(bytes: Seq<u8>, count: nat) -> Seq<u8> {
    bytes + Seq::new(count, |i: int| 0u8)
}

/// What is left of a request whose body is cut short is read to its end, and
/// the request ends as incomplete.
proof fn lemma_short_rest_is_read(
    max_body_size: nat,
    bytes: Seq<u8>,
    whole: Seq<u8>,
    head_len: int,
    head: HeadModel,
    arrived: int,
)
    requires
        is_complete_request(max_body_size, whole, head_len, head),
        head_len <= bytes.len() < whole.len(),
        bytes == whole.take(bytes.len() as int),
        bytes.len() <= max_body_size + HEAD_ALLOWANCE,
        0 <= arrived <= bytes.len(),
    ensures
        run(progress(max_body_size, whole, head_len, head, arrived), bytes.skip(arrived))
            == (RunModel {
            outcome: OutcomeModel::IncompleteBody,
            consumed: (bytes.len() - arrived) as nat,
        }),
    decreases bytes.len() - arrived,
{
    let input = bytes.skip(arrived);
    let taken = chunk_len(input, READ_CHUNK as nat) as int;
    if arrived < bytes.len() {
        assert(input.take(taken) =~= whole.subrange(arrived, arrived + taken));
        lemma_next_chunk(max_body_size, whole, head_len, head, arrived, taken);
        assert(input.skip(taken) =~= bytes.skip(arrived + taken));
        lemma_short_rest_is_read(max_body_size, bytes, whole, head_len, head, arrived + taken);
    }
}

/// A body that is cut short: on a connection that holds a head and then
/// fewer bytes than the head declares before the peer closes, the request
/// ends as incomplete once every byte is read.
pub proof fn lemma_short_body_is_incomplete(
    max_body_size: nat,
    bytes: Seq<u8>,
    head_len: int,
    head: HeadModel,
)
    requires
        4 <= head_len <= bytes.len(),
        find_terminator(bytes, 0) + 4 == head_len,
        head_of(decoded(bytes.take(head_len))) == Some(head),
        bytes.len() - head_len < declared_length(head.headers) <= max_body_size,
        bytes.len() <= max_body_size + HEAD_ALLOWANCE,
    ensures
        run(fresh(max_body_size), bytes) == (RunModel {
            outcome: OutcomeModel::IncompleteBody,
            consumed: bytes.len(),
        }),
{
    let missing = (declared_length(head.headers) - (bytes.len() - head_len)) as nat;
    let whole = padded(bytes, missing);
    assert(whole.take(bytes.len() as int) =~= bytes);
    assert(whole.take(head_len) =~= bytes.take(head_len));
    lemma_find_terminator(bytes, 0);
    lemma_find_terminator(whole, 0);
    assert(terminator_at(whole, head_len - 4)) by {
        assert(terminator_at(bytes, head_len - 4));
    }
    let found = find_terminator(whole, 0);
    if found < head_len - 4 {
        assert(terminator_at(whole, found));
        assert(terminator_at(bytes, found));
    }
    if found > head_len - 4 {
        assert(!terminator_at(whole, head_len - 4));
    }
    assert(bytes.skip(0) =~= bytes);
    assert(whole.take(0) =~= Seq::<u8>::empty());
    lemma_short_rest_is_read(max_body_size, bytes, whole, head_len, head, 0);
}

/// The head that grows too large: whatever has arrived, a chunk that brings
/// the bytes of a head that is not yet read to more than the largest body
/// and the allowance for the head together ends the request as too large.
pub proof fn lemma_oversized_head_is_refused(max_body_size: nat, buffer: Seq<u8>, chunk: Seq<u8>)
    requires
        chunk.len() > 0,
        buffer.len() + chunk.len() > max_body_size + HEAD_ALLOWANCE,
    ensures
        step(
            ParserModel { max_body_size, stage: StageModel::Head { buffer } },
            ArrivalModel::Data(chunk),
        ) == StepModel::Done(OutcomeModel::TooLarge),
{
}

/// Where what has arrived of a head lies within the limit and holds no
/// CR LF CR LF, the parser asks for more and keeps it all.
pub proof fn lemma_open_head_waits(max_body_size: nat, buffer: Seq<u8>, chunk: Seq<u8>)
    requires
        chunk.len() > 0,
        buffer.len() + chunk.len() <= max_body_size + HEAD_ALLOWANCE,
        find_terminator(buffer + chunk, 0) == buffer.len() + chunk.len(),
    ensures
        step(
            ParserModel { max_body_size, stage: StageModel::Head { buffer } },
            ArrivalModel::Data(chunk),
        ) == StepModel::More(
            ParserModel { max_body_size, stage: StageModel::Head { buffer: buffer + chunk } },
        ),
{
}

/// The number of bytes read before a head without end is refused: the first
/// multiple of the size of a read that is more than the limit.
pub open spec fn refusal_point(max_body_size: nat) -> nat {
    ((((max_body_size + HEAD_ALLOWANCE) / 512) + 1) * 512) as nat
}

/// A head that does not end within the limit is refused: on a connection
/// whose bytes hold no CR LF CR LF before the read that passes the largest
/// body and the allowance for the head together, that read ends the request
/// as too large.
pub proof fn lemma_endless_head_is_refused(max_body_size: nat, input: Seq<u8>)
    requires
        input.len() >= refusal_point(max_body_size),
        find_terminator(input.take(refusal_point(max_body_size) - READ_CHUNK), 0)
            == refusal_point(max_body_size) - READ_CHUNK,
    ensures
        run(fresh(max_body_size), input) == (RunModel {
            outcome: OutcomeModel::TooLarge,
            consumed: refusal_point(max_body_size),
        }),
{
    assert(input.skip(0) =~= input);
    assert(input.take(0) =~= Seq::<u8>::empty());
    lemma_refusal_point(max_body_size);
    lemma_endless_head_from(max_body_size, input, 0);
}

/// The point of refusal is a multiple of the size of a read, lies beyond the
/// limit, and is the first such multiple.
pub proof fn lemma_refusal_point(max_body_size: nat)
    ensures
        refusal_point(max_body_size) > max_body_size + HEAD_ALLOWANCE,
        refusal_point(max_body_size) - READ_CHUNK <= max_body_size + HEAD_ALLOWANCE,
        refusal_point(max_body_size) % (READ_CHUNK as nat) == 0,
{
}

/// A head without end, from a read on: the reads go on to the point of
/// refusal.
proof fn lemma_endless_head_from(max_body_size: nat, input: Seq<u8>, arrived: int)
    requires
        input.len() >= refusal_point(max_body_size),
        find_terminator(input.take(refusal_point(max_body_size) - READ_CHUNK), 0)
            == refusal_point(max_body_size) - READ_CHUNK,
        0 <= arrived < refusal_point(max_body_size),
        arrived % (READ_CHUNK as int) == 0,
        refusal_point(max_body_size) > max_body_size + HEAD_ALLOWANCE,
        refusal_point(max_body_size) - READ_CHUNK <= max_body_size + HEAD_ALLOWANCE,
        refusal_point(max_body_size) % (READ_CHUNK as nat) == 0,
    ensures
        run(
            ParserModel {
                max_body_size,
                stage: StageModel::Head { buffer: input.take(arrived) },
            },
            input.skip(arrived),
        ) == (RunModel {
            outcome: OutcomeModel::TooLarge,
            consumed: (refusal_point(max_body_size) - arrived) as nat,
        }),
    decreases refusal_point(max_body_size) - arrived,
{
    let point = refusal_point(max_body_size) as int;
    let size = READ_CHUNK as int;
    let rest = input.skip(arrived);
    assert(arrived + size <= point) by {
        assert(arrived % 512 == 0 && point % 512 == 0 && arrived < point ==> arrived + 512
            <= point);
    }
    let chunk = rest.take(size);
    assert(chunk_len(rest, READ_CHUNK as nat) == size);
    let grown = input.take(arrived) + chunk;
    assert(grown =~= input.take(arrived + size));
    if arrived + size == point {
        lemma_oversized_head_is_refused(max_body_size, input.take(arrived), chunk);
    } else {
        let calm = input.take(point - size);
        assert(grown =~= calm.take(arrived + size));
        lemma_no_terminator_in_prefix(calm, arrived + size);
        lemma_open_head_waits(max_body_size, input.take(arrived), chunk);
        assert(rest.skip(size) =~= input.skip(arrived + size));
        assert((arrived + size) % 512 == 0);
        lemma_endless_head_from(max_body_size, input, arrived + size);
    }
}

/// Bytes that hold no CR LF CR LF hold none in their first `end` bytes.
pub proof fn lemma_no_terminator_in_prefix(bytes: Seq<u8>, end: int)
    requires
        0 <= end <= bytes.len(),
        find_terminator(bytes, 0) == bytes.len(),
    ensures
        find_terminator(bytes.take(end), 0) == end,
{
    let part = bytes.take(end);
    lemma_find_terminator(bytes, 0);
    lemma_find_terminator(part, 0);
    let found = find_terminator(part, 0);
    if found < end {
        assert(terminator_at(part, found));
        assert(terminator_at(bytes, found));
    }
}

} // verus!
