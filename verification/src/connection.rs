//! A connection held in memory, and the reading of one request from it.

use crate::parser::{fresh, step, Arrival, ArrivalModel, ParserModel, RequestParser, Step, StepModel};
use crate::request::{OutcomeModel, ParseOutcome};
use crate::response::{page_bytes, send_error_page, ErrorPage, PageModel};
use vstd::prelude::*;
use vstd::slice::{slice_subrange, slice_to_vec};

verus! {

/// The most bytes that one read of a connection asks for.
pub const READ_CHUNK: usize = 512;

/// A connection held in memory: the bytes that the peer sends before it
/// closes, of which a prefix has been read, and the bytes written to the peer.
pub struct Connection {
    incoming: Vec<u8>,
    position: usize,
    outgoing: Vec<u8>,
}

impl Connection {
    /// The bytes that are still to be read.
    pub closed spec fn unread(&self) -> Seq<u8> {
        if self.position <= self.incoming@.len() {
            self.incoming@.subrange(self.position as int, self.incoming@.len() as int)
        } else {
            Seq::empty()
        }
    }

    /// The bytes written so far.
    pub closed spec fn sent(&self) -> Seq<u8> {
        self.outgoing@
    }

    /// A connection on which the peer sends `incoming` and then closes.
    pub fn new(incoming: Vec<u8>) -> (connection: Connection)
        ensures
            connection.unread() == incoming@,
            connection.sent() == Seq::<u8>::empty(),
    {
        let connection = Connection { incoming, position: 0, outgoing: Vec::new() };
        assert(connection.unread() =~= incoming@);
        connection
    }

    /// Reads the next bytes, at most `limit` of them. No bytes come back once
    /// everything is read, or when `limit` is 0.
    pub fn read(&mut self, limit: usize) -> (chunk: Vec<u8>)
        ensures
            chunk@ == old(self).unread().take(chunk_len(old(self).unread(), limit as nat) as int),
            final(self).unread() == old(self).unread().skip(chunk@.len() as int),
            final(self).sent() == old(self).sent(),
    {
        let left = if self.position <= self.incoming.len() {
            self.incoming.len() - self.position
        } else {
            0
        };
        let n = if left < limit {
            left
        } else {
            limit
        };
        if n == 0 {
            assert(self.unread().skip(0) =~= self.unread());
            assert(self.unread().take(0) =~= Seq::<u8>::empty());
            return Vec::new();
        }
        let chunk = slice_to_vec(
            slice_subrange(self.incoming.as_slice(), self.position, self.position + n),
        );
        self.position = self.position + n;
        assert(chunk@ =~= old(self).unread().take(n as int));
        assert(self.unread() =~= old(self).unread().skip(n as int));
        chunk
    }

    /// The number of bytes that are still to be read.
    pub fn remaining(&self) -> (count: usize)
        ensures
            count == self.unread().len(),
    {
        if self.position <= self.incoming.len() {
            self.incoming.len() - self.position
        } else {
            0
        }
    }

    /// The bytes written so far.
    pub fn written(&self) -> (bytes: &Vec<u8>)
        ensures
            bytes@ == self.sent(),
    {
        &self.outgoing
    }

    /// Writes `bytes`.
    pub fn write_all(&mut self, bytes: &Vec<u8>)
        ensures
            final(self).sent() == old(self).sent() + bytes@,
            final(self).unread() == old(self).unread(),
    {
        let mut copy = slice_to_vec(bytes.as_slice());
        self.outgoing.append(&mut copy);
    }
}

/// The number of bytes that a read for at most `limit` bytes takes of `input`.
pub open spec fn chunk_len(input: Seq<u8>, limit: nat) -> nat {
    if input.len() < limit {
        input.len()
    } else {
        limit
    }
}

/// What the next read gives when `input` is still to be read.
pub open spec fn next_arrival(input: Seq<u8>) -> ArrivalModel {
    if input.len() == 0 {
        ArrivalModel::Closed
    } else {
        ArrivalModel::Data(input.take(chunk_len(input, READ_CHUNK as nat) as int))
    }
}

/// How a request ended, and how many bytes were read for it.
pub struct RunModel {
    pub outcome: OutcomeModel,
    pub consumed: nat,
}

/// The reading of one request by `parser` from a connection on which `input`
/// is still to come before the peer closes: read after read, until the parser
/// says that the request has ended.
pub open spec fn run(parser: ParserModel, input: Seq<u8>) -> RunModel
    decreases input.len(),
{
    let taken = chunk_len(input, READ_CHUNK as nat);
    match step(parser, next_arrival(input)) {
        StepModel::Done(outcome) => RunModel { outcome, consumed: taken },
        StepModel::More(next) => if taken == 0 {
            RunModel { outcome: OutcomeModel::ConnectionClosed, consumed: 0 }
        } else {
            let rest = run(next, input.skip(taken as int));
            RunModel { outcome: rest.outcome, consumed: taken + rest.consumed }
        },
    }
}

/// The page that the parser itself sends when a request ends in `outcome`:
/// one for a request that is too large, one for a body that is not complete,
/// none otherwise.
pub open spec fn parser_page(outcome: OutcomeModel) -> Option<PageModel> {
    match outcome {
        OutcomeModel::TooLarge => Some(
            PageModel {
                code: 413,
                title: "Payload Too Large"@,
                message: "The request is too large."@,
            },
        ),
        OutcomeModel::IncompleteBody => Some(
            PageModel { code: 400, title: "Bad Request"@, message: "Incomplete body"@ },
        ),
        _ => None,
    }
}

/// The page that the parser itself sends when a request ends in `outcome`.
pub fn parser_reply(outcome: &ParseOutcome) -> (page: Option<ErrorPage>)
    ensures
        match page {
            Some(p) => parser_page(outcome@) == Some(p@),
            None => parser_page(outcome@) is None,
        },
{
    match outcome {
        ParseOutcome::TooLarge => Some(
            ErrorPage {
                code: 413,
                title: "Payload Too Large",
                message: "The request is too large.",
            },
        ),
        ParseOutcome::IncompleteBody => Some(
            ErrorPage { code: 400, title: "Bad Request", message: "Incomplete body" },
        ),
        _ => None,
    }
}

/// True when `after` is `before` with what the parser sends for `outcome`
/// written behind it.
pub open spec fn replied(before: Seq<u8>, after: Seq<u8>, outcome: OutcomeModel) -> bool {
    match parser_page(outcome) {
        Some(page) => exists|date: Seq<char>| after == before + #[trigger] page_bytes(page, date),
        None => after == before,
    }
}

/// Reads one request from `stream`, in reads of at most 512 bytes, and writes
/// to `stream` the page that the parser owes when the request is too large
/// or its body is not complete.
pub fn parse_request(stream: &mut Connection, max_body_size: usize) -> (outcome: ParseOutcome)
    ensures
        outcome@ == run(fresh(max_body_size as nat), old(stream).unread()).outcome,
        final(stream).unread() == old(stream).unread().skip(
            run(fresh(max_body_size as nat), old(stream).unread()).consumed as int,
        ),
        replied(old(stream).sent(), final(stream).sent(), outcome@),
{
    let ghost start = stream.unread();
    let ghost whole = run(fresh(max_body_size as nat), start);
    let mut parser = RequestParser::new(max_body_size);
    let ghost mut read: nat = 0;
    assert(start.skip(0) =~= start);
    loop
        invariant
            read <= start.len(),
            start == old(stream).unread(),
            stream.unread() == start.skip(read as int),
            stream.sent() == old(stream).sent(),
            whole == run(fresh(max_body_size as nat), start),
            whole.outcome == run(parser@, stream.unread()).outcome,
            whole.consumed == read + run(parser@, stream.unread()).consumed,
        decreases start.len() - read,
    {
        let ghost input = stream.unread();
        let chunk = stream.read(READ_CHUNK);
        let arrival = if chunk.len() == 0 {
            Arrival::Closed
        } else {
            Arrival::Data(chunk)
        };
        assert(arrival@ == next_arrival(input));
        match parser.feed(arrival) {
            Step::More(next) => {
                proof {
                    let taken = chunk_len(input, READ_CHUNK as nat);
                    assert(taken > 0);
                    assert(start.skip(read as int).skip(taken as int) =~= start.skip(
                        (read + taken) as int,
                    ));
                    read = read + taken;
                }
                parser = next;
            },
            Step::Done(outcome) => {
                proof {
                    let taken = chunk_len(input, READ_CHUNK as nat);
                    assert(start.skip(read as int).skip(taken as int) =~= start.skip(
                        (read + taken) as int,
                    ));
                }
                send_parser_page(&mut stream.outgoing, &outcome);
                return outcome;
            },
        }
    }
}

/// Writes to `stream` the page that the parser owes when a request ends in
/// `outcome`, dated now: nothing unless the request is too large or its body
/// is not complete.
pub fn send_parser_page(stream: &mut Vec<u8>, outcome: &ParseOutcome)
    ensures
        replied(old(stream)@, final(stream)@, outcome@),
{
    match parser_reply(outcome) {
        Some(page) => {
            send_error_page(stream, &page);
            proof {
                let date = choose|date: Seq<char>|
                    final(stream)@ == old(stream)@ + #[trigger] page_bytes(page@, date);
                assert(final(stream)@ == old(stream)@ + page_bytes(
                    parser_page(outcome@).unwrap(),
                    date,
                ));
            }
        },
        None => {},
    }
}

} // verus!
