//! The incremental request parser. It reads nothing itself: the caller reads
//! the connection and hands over what arrived, one arrival at a time, until the
//! parser says how the request ended.

use crate::request::{
    declared_length, head_of, parse_head, HeadModel, OutcomeModel, ParseOutcome, ParsedRequest,
    RequestHead, RequestModel,
};
use crate::text::{chars_of, decode_lossy, decoded};
use vstd::prelude::*;

verus! {

/// What one read of the connection gave.
pub enum Arrival {
    /// Bytes arrived. No bytes at all mean that the peer has closed.
    Data(Vec<u8>),
    /// The peer has closed the connection.
    Closed,
    /// The read failed.
    Failed,
}

/// What one read of the connection gave, as plain values.
pub enum ArrivalModel {
    Data(Seq<u8>),
    Closed,
    Failed,
}

impl View for Arrival {
    type V = ArrivalModel;

    open spec fn view(&self) -> ArrivalModel {
        match self {
            Arrival::Data(bytes) => ArrivalModel::Data(bytes@),
            Arrival::Closed => ArrivalModel::Closed,
            Arrival::Failed => ArrivalModel::Failed,
        }
    }
}

/// Where the parser stands, as plain values.
pub enum StageModel {
    /// The head is not complete; `buffer` holds what has arrived.
    Head { buffer: Seq<u8> },
    /// The head is read and declares `declared` bytes of body; `body` holds
    /// what has arrived of them.
    Body { head: HeadModel, declared: nat, body: Seq<u8> },
}

/// The parser as plain values: its limit on the body size and its stage.
pub struct ParserModel {
    pub max_body_size: nat,
    pub stage: StageModel,
}

/// What the parser asks for after an arrival, as plain values.
pub enum StepModel {
    More(ParserModel),
    Done(OutcomeModel),
}

/// The room that the head may take beyond the limit on the body.
pub const HEAD_ALLOWANCE: usize = 8192;

/// True when the four bytes CR LF CR LF start at index `i` of `bytes`.
pub open spec fn terminator_at(bytes: Seq<u8>, i: int) -> bool {
    &&& 0 <= i
    &&& i + 4 <= bytes.len()
    &&& bytes[i] == 13
    &&& bytes[i + 1] == 10
    &&& bytes[i + 2] == 13
    &&& bytes[i + 3] == 10
}

/// The first index from `lo` on at which CR LF CR LF starts, or the length of
/// `bytes` if it starts nowhere from `lo` on.
pub open spec fn find_terminator(bytes: Seq<u8>, lo: int) -> int
    decreases bytes.len() - lo,
{
    if 0 <= lo && lo + 4 <= bytes.len() {
        if terminator_at(bytes, lo) {
            lo
        } else {
            find_terminator(bytes, lo + 1)
        }
    } else {
        bytes.len() as int
    }
}

/// The step that follows once the head is read: more of the body is awaited
/// while it is shorter than declared; else the request ends.
pub open spec fn settle(max_body_size: nat, head: HeadModel, declared: nat, body: Seq<u8>)
    -> StepModel {
    if body.len() < declared {
        StepModel::More(
            ParserModel { max_body_size, stage: StageModel::Body { head, declared, body } },
        )
    } else {
        StepModel::Done(finish(head, declared, body))
    }
}

/// How a request ends when no more of its body will be read: well if the
/// body has exactly the declared length, and well with whatever followed the
/// head as its body if no length is declared, which a declared length of 0
/// stands for.
pub open spec fn finish(head: HeadModel, declared: nat, body: Seq<u8>) -> OutcomeModel {
    if declared == 0 || body.len() == declared {
        OutcomeModel::Success(
            RequestModel { method: head.method, path: head.path, headers: head.headers, body },
        )
    } else {
        OutcomeModel::IncompleteBody
    }
}

/// The step that the bytes `grown`, all that has arrived of a head so far,
/// lead to. Over the limit the request is too large, whether or not the head
/// is complete. A complete head is decoded and read, and what follows its
/// empty line is the start of the body, which is held to the limit on the
/// body as every later part of it is.
pub open spec fn head_step(max_body_size: nat, grown: Seq<u8>) -> StepModel {
    let at = find_terminator(grown, 0);
    if grown.len() > max_body_size + HEAD_ALLOWANCE {
        StepModel::Done(OutcomeModel::TooLarge)
    } else if at < grown.len() {
        match head_of(decoded(grown.subrange(0, at + 4))) {
            Some(head) => body_step(
                max_body_size,
                head,
                declared_length(head.headers),
                grown.subrange(at + 4, grown.len() as int),
            ),
            None => StepModel::Done(OutcomeModel::Malformed),
        }
    } else {
        StepModel::More(ParserModel { max_body_size, stage: StageModel::Head { buffer: grown } })
    }
}

/// The step that the bytes `grown`, all that has arrived of a body so far,
/// lead to.
pub open spec fn body_step(max_body_size: nat, head: HeadModel, declared: nat, grown: Seq<u8>)
    -> StepModel {
    if grown.len() > max_body_size {
        StepModel::Done(OutcomeModel::TooLarge)
    } else {
        settle(max_body_size, head, declared, grown)
    }
}

/// The step that `arrival` leads to from `parser`.
pub open spec fn step(parser: ParserModel, arrival: ArrivalModel) -> StepModel {
    match parser.stage {
        StageModel::Head { buffer } => match arrival {
            ArrivalModel::Failed => StepModel::Done(OutcomeModel::Malformed),
            ArrivalModel::Closed => StepModel::Done(OutcomeModel::ConnectionClosed),
            ArrivalModel::Data(chunk) => if chunk.len() == 0 {
                StepModel::Done(OutcomeModel::ConnectionClosed)
            } else {
                head_step(parser.max_body_size, buffer + chunk)
            },
        },
        StageModel::Body { head, declared, body } => match arrival {
            ArrivalModel::Failed => StepModel::Done(OutcomeModel::Malformed),
            ArrivalModel::Closed => StepModel::Done(finish(head, declared, body)),
            ArrivalModel::Data(chunk) => if chunk.len() == 0 {
                StepModel::Done(finish(head, declared, body))
            } else {
                body_step(parser.max_body_size, head, declared, body + chunk)
            },
        },
    }
}

/// What `find_terminator` finds: an index at which CR LF CR LF starts, or
/// the length of the bytes; before it, from `lo` on, CR LF CR LF starts
/// nowhere.
pub proof fn lemma_find_terminator(bytes: Seq<u8>, lo: int)
    requires
        0 <= lo,
    ensures
        find_terminator(bytes, lo) == bytes.len() || (lo <= find_terminator(bytes, lo)
            && terminator_at(bytes, find_terminator(bytes, lo))),
        forall|j: int| lo <= j < find_terminator(bytes, lo) ==> !terminator_at(bytes, j),
    decreases bytes.len() - lo,
{
    if lo + 4 <= bytes.len() && !terminator_at(bytes, lo) {
        lemma_find_terminator(bytes, lo + 1);
    }
}

/// The search may begin later where CR LF CR LF starts nowhere in between.
pub proof fn lemma_find_terminator_from(bytes: Seq<u8>, lo: int, mid: int)
    requires
        0 <= lo <= mid,
        forall|j: int| lo <= j < mid ==> !terminator_at(bytes, j),
    ensures
        find_terminator(bytes, lo) == find_terminator(bytes, mid),
    decreases mid - lo,
{
    if lo < mid {
        lemma_find_terminator_from(bytes, lo + 1, mid);
    }
}

/// Finds the first CR LF CR LF that starts at `lo` or later.
fn find_terminator_in(bytes: &Vec<u8>, lo: usize) -> (at: usize)
    requires
        lo <= bytes@.len(),
    ensures
        at == find_terminator(bytes@, lo as int),
        at == bytes@.len() || at + 4 <= bytes@.len(),
{
    let n = bytes.len();
    let mut i: usize = lo;
    while i < n && n - i >= 4
        invariant
            n == bytes@.len(),
            lo <= i <= n,
            find_terminator(bytes@, i as int) == find_terminator(bytes@, lo as int),
        decreases n - i,
    {
        if bytes[i] == 13 && bytes[i + 1] == 10 && bytes[i + 2] == 13 && bytes[i + 3] == 10 {
            return i;
        }
        i = i + 1;
    }
    n
}

/// Where the parser stands.
enum Stage {
    Head { buffer: Vec<u8> },
    Body { head: RequestHead, declared: usize, body: Vec<u8> },
}

impl View for Stage {
    type V = StageModel;

    closed spec fn view(&self) -> StageModel {
        match self {
            Stage::Head { buffer } => StageModel::Head { buffer: buffer@ },
            Stage::Body { head, declared, body } => StageModel::Body {
                head: head@,
                declared: *declared as nat,
                body: body@,
            },
        }
    }
}

/// The parser of one request.
pub struct RequestParser {
    max_body_size: usize,
    stage: Stage,
}

/// What the parser asks for after an arrival.
pub enum Step {
    /// The request is not complete: read again and hand over what arrives.
    More(RequestParser),
    /// The request has ended.
    Done(ParseOutcome),
}

impl View for RequestParser {
    type V = ParserModel;

    closed spec fn view(&self) -> ParserModel {
        ParserModel { max_body_size: self.max_body_size as nat, stage: self.stage@ }
    }
}

impl View for Step {
    type V = StepModel;

    open spec fn view(&self) -> StepModel {
        match self {
            Step::More(parser) => StepModel::More(parser@),
            Step::Done(outcome) => StepModel::Done(outcome@),
        }
    }
}

/// The parser before anything has arrived.
pub open spec fn fresh(max_body_size: nat) -> ParserModel {
    ParserModel { max_body_size, stage: StageModel::Head { buffer: Seq::empty() } }
}

impl RequestParser {
    /// While the head is awaited, what has arrived holds no CR LF CR LF.
    #[verifier::type_invariant]
    spec fn unfinished(&self) -> bool {
        match self.stage {
            Stage::Head { buffer } => find_terminator(buffer@, 0) == buffer@.len(),
            Stage::Body { .. } => true,
        }
    }

    /// A parser for one request whose body may have up to `max_body_size` bytes.
    pub fn new(max_body_size: usize) -> (parser: RequestParser)
        ensures
            parser@ == fresh(max_body_size as nat),
    {
        RequestParser { max_body_size, stage: Stage::Head { buffer: Vec::new() } }
    }

    /// Takes what one read of the connection gave, and says whether the request
    /// has ended and how.
    pub fn feed(self, arrival: Arrival) -> (next: Step)
        ensures
            next@ == step(self@, arrival@),
    {
        proof {
            use_type_invariant(&self);
        }
        let max = self.max_body_size;
        match self.stage {
            Stage::Head { buffer } => match arrival {
                Arrival::Failed => Step::Done(ParseOutcome::Malformed),
                Arrival::Closed => Step::Done(ParseOutcome::ConnectionClosed),
                Arrival::Data(chunk) => {
                    if chunk.len() == 0 {
                        Step::Done(ParseOutcome::ConnectionClosed)
                    } else {
                        read_head(max, buffer, chunk)
                    }
                },
            },
            Stage::Body { head, declared, body } => match arrival {
                Arrival::Failed => Step::Done(ParseOutcome::Malformed),
                Arrival::Closed => Step::Done(conclude(head, declared, body)),
                Arrival::Data(chunk) => {
                    if chunk.len() == 0 {
                        Step::Done(conclude(head, declared, body))
                    } else {
                        let mut body = body;
                        let mut chunk = chunk;
                        body.append(&mut chunk);
                        if body.len() > max {
                            Step::Done(ParseOutcome::TooLarge)
                        } else {
                            await_body(max, head, declared, body)
                        }
                    }
                },
            },
        }
    }
}

/// Ends a request whose body will not grow any more.
fn conclude(head: RequestHead, declared: usize, body: Vec<u8>) -> (outcome: ParseOutcome)
    ensures
        outcome@ == finish(head@, declared as nat, body@),
{
    if declared == 0 || body.len() == declared {
        ParseOutcome::Success(
            ParsedRequest { method: head.method, path: head.path, headers: head.headers, body },
        )
    } else {
        ParseOutcome::IncompleteBody
    }
}

/// Goes on to await the body, or ends the request if the body is all there.
fn await_body(max_body_size: usize, head: RequestHead, declared: usize, body: Vec<u8>) -> (next:
    Step)
    ensures
        next@ == settle(max_body_size as nat, head@, declared as nat, body@),
{
    if body.len() < declared {
        Step::More(RequestParser { max_body_size, stage: Stage::Body { head, declared, body } })
    } else {
        Step::Done(conclude(head, declared, body))
    }
}

/// Adds `chunk` to a head that holds no CR LF CR LF yet, and reads the head if
/// it is complete now.
fn read_head(max_body_size: usize, buffer: Vec<u8>, chunk: Vec<u8>) -> (next: Step)
    requires
        find_terminator(buffer@, 0) == buffer@.len(),
    ensures
        next@ == head_step(max_body_size as nat, buffer@ + chunk@),
{
    let ghost before = buffer@;
    let ghost grown = buffer@ + chunk@;
    let seen = buffer.len();
    let mut buffer = buffer;
    let mut chunk = chunk;
    buffer.append(&mut chunk);
    let over = if max_body_size > usize::MAX - HEAD_ALLOWANCE {
        false
    } else {
        buffer.len() > max_body_size + HEAD_ALLOWANCE
    };
    if over {
        return Step::Done(ParseOutcome::TooLarge);
    }
    let from: usize = if seen >= 3 {
        seen - 3
    } else {
        0
    };
    let at = find_terminator_in(&buffer, from);
    proof {
        lemma_find_terminator(before, 0);
        assert forall|j: int| 0 <= j < from implies !terminator_at(grown, j) by {
            assert(!terminator_at(before, j));
        }
        lemma_find_terminator_from(grown, 0, from as int);
    }
    if at < buffer.len() {
        let end = at + 4;
        let body = buffer.split_off(end);
        let text = decode_lossy(buffer.as_slice());
        let chars = chars_of(text.as_str());
        match parse_head(&chars) {
            Some(head) => {
                let declared = head.content_length();
                if body.len() > max_body_size {
                    Step::Done(ParseOutcome::TooLarge)
                } else {
                    await_body(max_body_size, head, declared, body)
                }
            },
            None => Step::Done(ParseOutcome::Malformed),
        }
    } else {
        Step::More(RequestParser { max_body_size, stage: Stage::Head { buffer } })
    }
}

} // verus!
