//! Tickets bind a short query code to a content digest, and response codes
//! classify the server's answer to one exchange.

use vstd::prelude::*;
use vstd::utf8::encode_utf8;
use crate::codec::{
    enc_str, enc_opt_str, at, spec_parse_str, spec_parse_opt_str, lemma_at_split,
    lemma_parse_str_of_enc, lemma_parse_opt_str_of_enc, encode_str_into, encode_opt_str_into,
    parse_str, parse_opt_str,
};

verus! {

/// The abstract value of a [`Ticket`].
pub struct TicketView {
    pub hash: Seq<char>,
    pub query: Seq<char>,
    pub filename: Option<Seq<char>>,
}

/// An in-memory record binding a query code to a content digest and an
/// optional filename. Tickets live only for the lifetime of the serving
/// process and are never persisted.
#[derive(Debug)]
pub struct Ticket {
    pub hash: String,
    pub query: String,
    pub filename: Option<String>,
}

impl Clone for Ticket {
    /// A clone carries the same hash, query and filename.
    fn clone(&self) -> (r: Self)
        ensures
            r == *self,
    {
        Ticket {
            hash: self.hash.clone(),
            query: self.query.clone(),
            filename: match &self.filename {
                Some(f) => Some(f.clone()),
                None => None,
            },
        }
    }
}

impl View for Ticket {
    type V = TicketView;

    open spec fn view(&self) -> TicketView {
        TicketView {
            hash: self.hash@,
            query: self.query@,
            filename: match self.filename {
                Some(f) => Some(f@),
                None => None,
            },
        }
    }
}

impl Ticket {
    /// Creates a ticket for a content digest given in its canonical string
    /// form; the query code is the digest's first six characters.
    pub fn new(hash: String) -> (t: Ticket)
        requires
            hash@.len() >= 6,
        ensures
            t@.hash == hash@,
            t@.query == hash@.subrange(0, 6),
            t@.filename is None,
    {
        let query = Self::generate_query(hash.as_str());
        Ticket { hash, query, filename: None }
    }

    /// The query code of a digest string: its first six characters.
    pub fn generate_query(hash: &str) -> (q: String)
        requires
            hash@.len() >= 6,
        ensures
            q@ == hash@.subrange(0, 6),
    {
        hash.substring_char(0, 6).to_owned()
    }

    /// Replaces the optional filename, keeping digest and query.
    pub fn with_filename(self, filename: Option<String>) -> (t: Ticket)
        ensures
            t@.hash == self@.hash,
            t@.query == self@.query,
            t@.filename == (match filename {
                Some(f) => Some(f@),
                None => None::<Seq<char>>,
            }),
    {
        Ticket { filename, ..self }
    }
}

/// The wire body of a ticket: its three fields, one after the other.
pub open spec fn enc_ticket(t: TicketView) -> Seq<u8> {
    enc_str(t.hash) + enc_str(t.query) + enc_opt_str(t.filename)
}

/// Parses a whole buffer as a ticket body; trailing bytes are refused.
pub open spec fn spec_parse_ticket(b: Seq<u8>) -> Option<TicketView> {
    match spec_parse_str(b, 0) {
        None => None,
        Some((hash, i)) => match spec_parse_str(b, i) {
            None => None,
            Some((query, j)) => match spec_parse_opt_str(b, j) {
                None => None,
                Some((filename, k)) => if k == b.len() {
                    Some(TicketView { hash, query, filename })
                } else {
                    None
                },
            },
        },
    }
}

/// A ticket whose fields are small enough to frame, which holds of every
/// ticket a process can build.
pub open spec fn ticket_bounded(t: TicketView) -> bool {
    &&& encode_utf8(t.hash).len() <= u64::MAX
    &&& encode_utf8(t.query).len() <= u64::MAX
    &&& (t.filename matches Some(f) ==> encode_utf8(f).len() <= u64::MAX)
}

impl Ticket {
    /// Serializes the ticket for the wire.
    pub fn encode(&self) -> (r: Vec<u8>)
        ensures
            r@ == enc_ticket(self@),
    {
        let mut out: Vec<u8> = Vec::new();
        encode_str_into(&mut out, &self.hash);
        encode_str_into(&mut out, &self.query);
        encode_opt_str_into(&mut out, &self.filename);
        proof {
            assert(out@ =~= enc_ticket(self@));
        }
        out
    }

    /// Deserializes a wire body; returns `None` on any malformed buffer.
    pub fn decode(b: &Vec<u8>) -> (r: Option<Ticket>)
        ensures
            match spec_parse_ticket(b@) {
                Some(v) => r matches Some(t) && t@ == v,
                None => r is None,
            },
    {
        match parse_str(b, 0) {
            None => None,
            Some((hash, i)) => match parse_str(b, i) {
                None => None,
                Some((query, j)) => match parse_opt_str(b, j) {
                    None => None,
                    Some((filename, k)) => {
                        if k == b.len() {
                            Some(Ticket { hash, query, filename })
                        } else {
                            None
                        }
                    },
                },
            },
        }
    }
}

/// Serialize-then-deserialize of a ticket, filename present or not, yields an
/// identical ticket.
pub proof fn lemma_ticket_round_trip(t: TicketView)
    requires
        ticket_bounded(t),
    ensures
        spec_parse_ticket(enc_ticket(t)) == Some(t),
{
    let b = enc_ticket(t);
    assert(b =~= enc_str(t.hash) + (enc_str(t.query) + enc_opt_str(t.filename)));
    assert(b.subrange(0, b.len() as int) =~= b);
    lemma_at_split(b, 0, enc_str(t.hash), enc_str(t.query) + enc_opt_str(t.filename));
    let i = enc_str(t.hash).len() as int;
    lemma_at_split(b, i, enc_str(t.query), enc_opt_str(t.filename));
    let j = i + enc_str(t.query).len();
    lemma_parse_str_of_enc(b, 0, t.hash);
    lemma_parse_str_of_enc(b, i, t.query);
    lemma_parse_opt_str_of_enc(b, j, t.filename);
}

/// The one-byte wire code that classifies a response.
#[derive(Debug, Clone, Copy, PartialEq, Eq, Structural)]
pub enum ResponseCode {
    Okay,
    NotFound,
    Error,
}

impl ResponseCode {
    /// The spec-level wire byte of a response code.
    pub open spec fn spec_byte(self) -> u8 {
        match self {
            ResponseCode::Okay => 0,
            ResponseCode::NotFound => 1,
            ResponseCode::Error => 2,
        }
    }

    /// Decodes a wire byte; unrecognized values decode to `None`, never to a
    /// crash or to an unconstructed value.
    pub fn from_u8(value: u8) -> (r: Option<ResponseCode>)
        ensures
            r == (if value == 0 {
                Some(ResponseCode::Okay)
            } else if value == 1 {
                Some(ResponseCode::NotFound)
            } else if value == 2 {
                Some(ResponseCode::Error)
            } else {
                None::<ResponseCode>
            }),
    {
        match value {
            0 => Some(ResponseCode::Okay),
            1 => Some(ResponseCode::NotFound),
            2 => Some(ResponseCode::Error),
            _ => None,
        }
    }

    /// Encodes a response code as its wire byte.
    pub fn to_u8(&self) -> (b: u8)
        ensures
            b == self.spec_byte(),
    {
        match self {
            ResponseCode::Okay => 0,
            ResponseCode::NotFound => 1,
            ResponseCode::Error => 2,
        }
    }
}

/// Decoding a response code's own wire byte yields that code back: the wire
/// encoding of response codes is lossless.
pub proof fn lemma_response_code_round_trip(c: ResponseCode)
    ensures
        c.spec_byte() == 0 || c.spec_byte() == 1 || c.spec_byte() == 2,
        (if c.spec_byte() == 0 {
            Some(ResponseCode::Okay)
        } else if c.spec_byte() == 1 {
            Some(ResponseCode::NotFound)
        } else {
            Some(ResponseCode::Error)
        }) == Some(c),
{
}

} // verus!
