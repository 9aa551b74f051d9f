//! The ticket registry: a process-lifetime, concurrency-safe map from query
//! code to ticket, backed by dashmap's concurrent associative container.
//! Entries are servable until process exit; a later insertion with the same
//! query silently replaces the earlier one.

use vstd::prelude::*;
use crate::ticket::Ticket;

verus! {

#[verifier::external_type_specification]
#[verifier::external_body]
#[verifier::reject_recursive_types(K)]
#[verifier::reject_recursive_types(V)]
#[verifier::reject_recursive_types(S)]
pub struct ExDashMap<K, V, S>(dashmap::DashMap<K, V, S>);

/// The concrete concurrent container behind the registry.
pub type TicketMap = dashmap::DashMap<String, Ticket>;

/// What the concurrent map holds: each query code's ticket.
pub uninterp spec fn dash_contents(m: TicketMap) -> Map<Seq<char>, Ticket>;

/// Relies on `dashmap::DashMap::insert`: the entry under the key is written,
/// replacing any earlier entry under the same key.
#[verifier::external_body]
fn dash_insert(m: &mut TicketMap, query: String, ticket: Ticket)
    ensures
        dash_contents(*final(m)) == dash_contents(*old(m)).insert(query@, ticket),
{
    m.insert(query, ticket);
}

/// Relies on `dashmap::DashMap::get`: the entry under the key, if present.
#[verifier::external_body]
fn dash_get(m: &TicketMap, query: &String) -> (r: Option<Ticket>)
    ensures
        r == (if dash_contents(*m).contains_key(query@) {
            Some(dash_contents(*m)[query@])
        } else {
            None::<Ticket>
        }),
{
    match m.get(query) {
        Some(entry) => Some(entry.value().clone()),
        None => None,
    }
}

/// The in-memory map from query code to ticket that the serving process
/// answers exchanges from.
pub struct TicketRegistry {
    map: TicketMap,
}

impl View for TicketRegistry {
    type V = Map<Seq<char>, Ticket>;

    closed spec fn view(&self) -> Map<Seq<char>, Ticket> {
        dash_contents(self.map)
    }
}

impl TicketRegistry {
    /// An empty registry. Relies on `dashmap::DashMap::new`: a fresh map
    /// holds nothing.
    #[verifier::external_body]
    pub fn new() -> (r: TicketRegistry)
        ensures
            r@.dom() == Set::<Seq<char>>::empty(),
    {
        TicketRegistry { map: dashmap::DashMap::new() }
    }

    /// Inserts a ticket under a query code, overwriting any existing entry
    /// for the same code.
    pub fn insert(&mut self, query: String, ticket: Ticket)
        ensures
            final(self)@ == old(self)@.insert(query@, ticket),
    {
        dash_insert(&mut self.map, query, ticket);
    }

    /// Looks a query code up; read-only.
    pub fn lookup(&self, query: &String) -> (r: Option<Ticket>)
        ensures
            r == (if self@.contains_key(query@) {
                Some(self@[query@])
            } else {
                None::<Ticket>
            }),
    {
        dash_get(&self.map, query)
    }

    /// The compute step of a drop: builds the ticket for a content digest
    /// given in its canonical string form, and registers it under its query
    /// code, the digest's first six characters.
    pub fn register_drop(&mut self, hash: String, filename: Option<String>) -> (t: Ticket)
        requires
            hash@.len() >= 6,
        ensures
            t@.hash == hash@,
            t@.query == hash@.subrange(0, 6),
            t@.filename == (match filename {
                Some(f) => Some(f@),
                None => None::<Seq<char>>,
            }),
            final(self)@ == old(self)@.insert(hash@.subrange(0, 6), t),
    {
        let ticket = Ticket::new(hash).with_filename(filename);
        let query = ticket.query.clone();
        let t = ticket.clone();
        self.insert(query, ticket);
        t
    }
}

/// A ticket registered under its own query code is found by an immediate
/// lookup of that code, and it is the very ticket that was registered.
pub proof fn lemma_drop_then_lookup(m: Map<Seq<char>, Ticket>, t: Ticket)
    ensures
        m.insert(t@.query, t).contains_key(t@.query),
        m.insert(t@.query, t)[t@.query] == t,
{
}

} // verus!
