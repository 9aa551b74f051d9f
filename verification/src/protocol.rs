//! The exchange protocol: one request/response interaction per stream. The
//! framing, the server's answer to a query, the client's reading of a
//! response, and the connection retry policy are all plain functions here;
//! the stream reads and writes around them happen outside this crate.

use vstd::prelude::*;
use vstd::utf8::{valid_utf8, decode_utf8, encode_utf8};
use crate::error::PoofError;
use crate::registry::TicketRegistry;
use crate::ticket::{Ticket, ResponseCode, enc_ticket, spec_parse_ticket};

verus! {

/// How many times a failed connection attempt is retried.
pub const CONNECT_RETRIES: usize = 3;

/// The fixed pause between connection attempts, in milliseconds; no backoff
/// growth, no jitter.
pub const CONNECT_RETRY_DELAY_MS: u64 = 2000;

/// A 32-bit length in big-endian byte order, as the wire carries it.
pub open spec fn be32(n: u32) -> Seq<u8> {
    seq![
        ((n >> 24) & 0xff) as u8,
        ((n >> 16) & 0xff) as u8,
        ((n >> 8) & 0xff) as u8,
        (n & 0xff) as u8,
    ]
}

/// The number a big-endian 4-byte prefix carries.
pub open spec fn from_be32(b0: u8, b1: u8, b2: u8, b3: u8) -> u32 {
    ((b0 as u32) << 24) | ((b1 as u32) << 16) | ((b2 as u32) << 8) | (b3 as u32)
}

/// The 4-byte length prefix is lossless: reading the four bytes back gives
/// the length that was framed.
pub proof fn lemma_be32_round_trip(n: u32)
    ensures
        from_be32(be32(n)[0], be32(n)[1], be32(n)[2], be32(n)[3]) == n,
{
    let b0 = ((n >> 24) & 0xff) as u8;
    let b1 = ((n >> 16) & 0xff) as u8;
    let b2 = ((n >> 8) & 0xff) as u8;
    let b3 = (n & 0xff) as u8;
    assert((((b0 as u32) << 24) | ((b1 as u32) << 16) | ((b2 as u32) << 8) | (b3 as u32)) == n)
        by (bit_vector)
        requires
            b0 == ((n >> 24) & 0xff) as u8,
            b1 == ((n >> 16) & 0xff) as u8,
            b2 == ((n >> 8) & 0xff) as u8,
            b3 == (n & 0xff) as u8,
    ;
}

/// Appends a 32-bit length in big-endian byte order.
pub fn encode_u32_be_into(out: &mut Vec<u8>, n: u32)
    ensures
        final(out)@ == old(out)@ + be32(n),
{
    out.push(((n >> 24) & 0xff) as u8);
    out.push(((n >> 16) & 0xff) as u8);
    out.push(((n >> 8) & 0xff) as u8);
    out.push((n & 0xff) as u8);
    proof {
        assert(final(out)@ =~= old(out)@ + be32(n));
    }
}

/// A request frame: a 4-byte length prefix holding the byte count of the
/// query, then exactly that many UTF-8 bytes.
pub open spec fn enc_request(q: Seq<char>) -> Seq<u8> {
    be32(encode_utf8(q).len() as u32) + encode_utf8(q)
}

/// Frames a query for the wire.
pub fn encode_request(query: &String) -> (r: Vec<u8>)
    requires
        encode_utf8(query@).len() <= u32::MAX,
    ensures
        r@ == enc_request(query@),
{
    let bytes = query.as_str().as_bytes_vec();
    let mut out: Vec<u8> = Vec::new();
    encode_u32_be_into(&mut out, bytes.len() as u32);
    let mut k: usize = 0;
    while k < bytes.len()
        invariant
            k <= bytes.len(),
            out@ == be32(bytes@.len() as u32) + bytes@.take(k as int),
        decreases bytes.len() - k,
    {
        proof {
            assert(bytes@.take(k as int + 1) =~= bytes@.take(k as int).push(bytes@[k as int]));
        }
        out.push(bytes[k]);
        k = k + 1;
    }
    proof {
        assert(bytes@.take(bytes@.len() as int) =~= bytes@);
    }
    out
}

/// A response frame: the response-code byte, a 4-byte length prefix, then
/// the body.
pub open spec fn enc_response(code: ResponseCode, body: Seq<u8>) -> Seq<u8> {
    seq![code.spec_byte()] + be32(body.len() as u32) + body
}

/// Frames a response for the wire.
pub fn encode_response(code: ResponseCode, body: &Vec<u8>) -> (r: Vec<u8>)
    requires
        body@.len() <= u32::MAX,
    ensures
        r@ == enc_response(code, body@),
{
    let mut out: Vec<u8> = Vec::new();
    out.push(code.to_u8());
    encode_u32_be_into(&mut out, body.len() as u32);
    let mut k: usize = 0;
    while k < body.len()
        invariant
            k <= body.len(),
            out@ == seq![code.spec_byte()] + be32(body@.len() as u32) + body@.take(k as int),
        decreases body.len() - k,
    {
        proof {
            assert(body@.take(k as int + 1) =~= body@.take(k as int).push(body@[k as int]));
        }
        out.push(body[k]);
        k = k + 1;
    }
    proof {
        assert(body@.take(body@.len() as int) =~= body@);
    }
    out
}

/// The server's answer to one received query: the short-circuit for a
/// zero-length query comes first and never consults the registry; an invalid
/// UTF-8 query is a protocol error that aborts the exchange; otherwise the
/// registry decides between a serialized ticket and an empty not-found body.
pub fn server_response(reg: &TicketRegistry, query_len: u32, query_bytes: Vec<u8>) -> (r: Result<
    (ResponseCode, Vec<u8>),
    PoofError,
>)
    requires
        query_bytes@.len() == query_len as nat,
    ensures
        query_len == 0 ==> (r matches Ok(p) && p.0 is Error && p.1@.len() == 0),
        query_len != 0 && !valid_utf8(query_bytes@) ==> (r matches Err(e) && e is Protocol),
        query_len != 0 && valid_utf8(query_bytes@) ==> ({
            let q = decode_utf8(query_bytes@);
            if reg@.contains_key(q) {
                r matches Ok(p) && p.0 is Okay && p.1@ == enc_ticket(reg@[q]@)
            } else {
                r matches Ok(p) && p.0 is NotFound && p.1@.len() == 0
            }
        }),
{
    if query_len == 0 {
        return Ok((ResponseCode::Error, Vec::new()));
    }
    let query = match crate::codec::string_from_utf8(query_bytes) {
        Some(q) => q,
        None => {
            return Err(
                PoofError::Protocol { message: "Query is not valid UTF-8".to_owned() },
            );
        },
    };
    match reg.lookup(&query) {
        Some(ticket) => {
            let body = ticket.encode();
            Ok((ResponseCode::Okay, body))
        },
        None => Ok((ResponseCode::NotFound, Vec::new())),
    }
}

/// The terminal outcome of one catch exchange, as the client reads it from
/// the response-code byte and the body.
#[derive(Debug)]
pub enum CatchOutcome {
    /// The server held the ticket: hand its digest to the blob store.
    Download(Ticket),
    /// The server does not hold a ticket for the query; nothing is fetched.
    NotFound,
    /// The server reported an error for this exchange; nothing is fetched.
    ServerError,
    /// A malformed response code or body; the exchange is aborted, nothing
    /// is fetched, and nothing is retried.
    ProtocolViolation,
}

/// The client's reading of a response: the code byte picks the outcome, an
/// unrecognized code or an undecodable ticket body is a protocol violation,
/// and only a well-formed `Okay` response triggers a download.
pub fn client_evaluate(code_byte: u8, body: &Vec<u8>) -> (r: CatchOutcome)
    ensures
        code_byte == 0 ==> (match spec_parse_ticket(body@) {
            Some(tv) => r matches CatchOutcome::Download(t) && t@ == tv,
            None => r is ProtocolViolation,
        }),
        code_byte == 1 ==> r is NotFound,
        code_byte == 2 ==> r is ServerError,
        code_byte > 2 ==> r is ProtocolViolation,
{
    match ResponseCode::from_u8(code_byte) {
        Some(ResponseCode::Okay) => match Ticket::decode(body) {
            Some(t) => CatchOutcome::Download(t),
            None => CatchOutcome::ProtocolViolation,
        },
        Some(ResponseCode::NotFound) => CatchOutcome::NotFound,
        Some(ResponseCode::Error) => CatchOutcome::ServerError,
        None => CatchOutcome::ProtocolViolation,
    }
}

/// End-to-end: when the server holds a ticket for the query, the body it
/// serves decodes on the client to exactly that ticket, digest included.
pub proof fn lemma_exchange_ok(m: Map<Seq<char>, Ticket>, q: Seq<char>)
    requires
        m.contains_key(q),
        crate::ticket::ticket_bounded(m[q]@),
    ensures
        spec_parse_ticket(enc_ticket(m[q]@)) == Some(m[q]@),
{
    crate::ticket::lemma_ticket_round_trip(m[q]@);
}

/// What the client does after a failed connection attempt.
#[derive(Debug, PartialEq, Eq, Structural)]
pub enum ConnectDecision {
    /// Try again after the fixed delay.
    Retry { next_attempts: usize, delay_ms: u64 },
    /// Retries are exhausted: surface the final error.
    GiveUp,
}

/// The bounded-retry policy for connection establishment: up to `retries`
/// further attempts separated by the fixed delay, then give up. It covers
/// only connection setup, never in-stream failures.
pub fn connect_failure_decision(attempts: usize, retries: usize) -> (r: ConnectDecision)
    ensures
        attempts < retries ==> r == (ConnectDecision::Retry {
            next_attempts: (attempts + 1) as usize,
            delay_ms: CONNECT_RETRY_DELAY_MS,
        }),
        attempts >= retries ==> r is GiveUp,
{
    if attempts < retries {
        ConnectDecision::Retry { next_attempts: attempts + 1, delay_ms: CONNECT_RETRY_DELAY_MS }
    } else {
        ConnectDecision::GiveUp
    }
}

} // verus!
