//! Stream tickets: short-lived grants that let a client fetch one upstream
//! stream through the proxy without seeing the headers that the upstream
//! needs.

use vstd::prelude::*;
use std::collections::HashMap;
use crate::ticket_id::{hex_digits, law_ticket_id_names_its_number, parse_ticket_id, ticket_id_text, ticket_number};

verus! {

broadcast use vstd::std_specs::hash::group_hash_axioms;

/// How long a ticket stays valid: four hours, in nanoseconds.
pub const TICKET_LIFETIME_NANOS: u64 = 14_400_000_000_000;

/// The abstract content of a header list.
pub open spec fn pairs_view(h: Seq<(String, String)>) -> Seq<(Seq<char>, Seq<char>)> {
    h.map_values(|p: (String, String)| (p.0@, p.1@))
}

/// A copy of a header list.
pub fn clone_pairs(h: &Vec<(String, String)>) -> (r: Vec<(String, String)>)
    ensures
        r@ == h@,
{
    let mut r: Vec<(String, String)> = Vec::new();
    let mut i: usize = 0;
    while i < h.len()
        invariant
            i <= h.len(),
            r@ == h@.take(i as int),
        decreases h.len() - i,
    {
        let (name, value) = &h[i];
        r.push((name.clone(), value.clone()));
        i = i + 1;
        assert(r@ =~= h@.take(i as int));
    }
    assert(h@.take(h.len() as int) =~= h@);
    r
}

/// A grant to fetch `url` with `headers`, made at `created_at` (nanoseconds
/// on the server's monotonic clock).
#[derive(Clone, Debug)]
pub struct StreamTicket {
    pub url: String,
    pub headers: Vec<(String, String)>,
    pub created_at: u64,
}

/// The number `j` steps on from `start`, wrapping around past the largest
/// ticket number.
pub open spec fn counted_on(start: u128, j: int) -> int {
    if start as int + j < 0x1_0000_0000_0000_0000_0000_0000_0000_0000 {
        start as int + j
    } else {
        start as int + j - 0x1_0000_0000_0000_0000_0000_0000_0000_0000
    }
}

/// The abstract content of a ticket.
pub struct TicketView {
    pub url: Seq<char>,
    pub headers: Seq<(Seq<char>, Seq<char>)>,
    pub created_at: u64,
}

impl View for StreamTicket {
    type V = TicketView;

    open spec fn view(&self) -> TicketView {
        TicketView { url: self.url@, headers: pairs_view(self.headers@), created_at: self.created_at }
    }
}

impl StreamTicket {
    /// A copy of this ticket.
    pub fn duplicate(&self) -> (c: StreamTicket)
        ensures
            c@ == self@,
    {
        let headers = clone_pairs(&self.headers);
        StreamTicket { url: self.url.clone(), headers, created_at: self.created_at }
    }
}

/// How long ago, in nanoseconds, something made at `created_at` was made;
/// zero if `now` is earlier (as `Instant::elapsed` saturates).
pub open spec fn ticket_age(created_at: u64, now: u64) -> int {
    if now >= created_at {
        now - created_at
    } else {
        0
    }
}

/// A lookup at `now` refuses the ticket as expired.
pub open spec fn ticket_expired(t: TicketView, now: u64) -> bool {
    ticket_age(t.created_at, now) > TICKET_LIFETIME_NANOS
}

/// A sweep at `now` keeps the ticket.
pub open spec fn ticket_retained(t: TicketView, now: u64) -> bool {
    ticket_age(t.created_at, now) < TICKET_LIFETIME_NANOS
}

/// Why a ticket could not be used.
#[derive(PartialEq, Eq, Structural, Debug, Clone, Copy)]
pub enum TicketError {
    /// No ticket has that identifier.
    NotFound,
    /// The ticket is older than its lifetime.
    Expired,
}

impl TicketError {
    /// The HTTP status that answers this refusal.
    pub fn status(&self) -> (s: u16)
        ensures
            s == (match self {
                TicketError::NotFound => 404u16,
                TicketError::Expired => 410u16,
            }),
    {
        match self {
            TicketError::NotFound => 404,
            TicketError::Expired => 410,
        }
    }

    /// The message that answers this refusal.
    pub fn message(&self) -> (m: String)
        ensures
            m@ == (match self {
                TicketError::NotFound => "Stream ticket invalid or expired"@,
                TicketError::Expired => "Stream ticket expired"@,
            }),
    {
        match self {
            TicketError::NotFound => String::from_str("Stream ticket invalid or expired"),
            TicketError::Expired => String::from_str("Stream ticket expired"),
        }
    }
}

/// What a lookup of identifier `id` at `now` answers.
pub open spec fn resolve_spec(store: Map<u128, TicketView>, id: Seq<char>, now: u64) -> Result<
    TicketView,
    TicketError,
> {
    match ticket_number(id) {
        Some(n) => if !store.contains_key(n) {
            Err(TicketError::NotFound)
        } else if ticket_expired(store[n], now) {
            Err(TicketError::Expired)
        } else {
            Ok(store[n])
        },
        None => Err(TicketError::NotFound),
    }
}

/// All issued tickets, by ticket number.
pub struct TicketStore {
    tickets: HashMap<u128, StreamTicket>,
}

impl View for TicketStore {
    type V = Map<u128, TicketView>;

    closed spec fn view(&self) -> Map<u128, TicketView> {
        self.tickets@.map_values(|t: StreamTicket| t@)
    }
}

/// `rand::random::<u128>()`: a number drawn from the thread-local generator.
/// Nothing is promised of its value.
#[verifier::external_body]
fn random_ticket_number() -> u128 {
    rand::random::<u128>()
}

impl TicketStore {
    /// An empty store.
    pub fn new() -> (s: TicketStore)
        ensures
            s@ == Map::<u128, TicketView>::empty(),
    {
        let s = TicketStore { tickets: HashMap::new() };
        assert(s@ =~= Map::<u128, TicketView>::empty());
        s
    }

    /// The number of tickets held.
    pub fn len(&self) -> (n: usize)
        ensures
            n == self@.len(),
    {
        proof {
            assert(self@.dom() =~= self.tickets@.dom());
        }
        self.tickets.len()
    }

    /// Stores `ticket` under ticket number `n`, replacing any ticket held
    /// under it, and returns the ticket's identifier.
    pub fn issue_with_number(&mut self, n: u128, ticket: StreamTicket) -> (id: String)
        ensures
            final(self)@ == old(self)@.insert(n, ticket@),
            id@ == hex_digits(n as nat),
    {
        let ghost t = ticket@;
        self.tickets.insert(n, ticket);
        assert(self@ =~= old(self)@.insert(n, t));
        ticket_id_text(n)
    }

    /// A ticket number that no held ticket has: `start`, or if that is
    /// taken, the first free number after it (counting on from `start`,
    /// wrapping around).
    pub fn free_number(&self, start: u128) -> (n: u128)
        ensures
            !self@.contains_key(n),
            !self@.contains_key(start) ==> n == start,
    {
        proof {
            assert(self@.dom() =~= self.tickets@.dom());
        }
        let len = self.tickets.len();
        let mut c = start;
        let mut i: usize = 0;
        let ghost mut seen: Set<u128> = Set::empty();
        loop
            invariant
                i <= len,
                len == self.tickets@.len(),
                self@.dom() == self.tickets@.dom(),
                seen.finite(),
                seen.len() == i,
                seen.subset_of(self.tickets@.dom()),
                c as int == counted_on(start, i as int),
                forall|x: u128|
                    #[trigger] seen.contains(x) ==> exists|j: int|
                        0 <= j < i && x as int == #[trigger] counted_on(start, j),
                i == 0 ==> c == start,
                i > 0 ==> self.tickets@.contains_key(start),
            decreases len - i,
        {
            if !self.tickets.contains_key(&c) {
                return c;
            }
            proof {
                if seen.contains(c) {
                    let j = choose|j: int|
                        0 <= j < i && c as int == #[trigger] counted_on(start, j);
                    assert(false);
                }
                let old_seen = seen;
                seen = seen.insert(c);
                assert forall|x: u128| #[trigger] seen.contains(x) implies exists|j: int|
                    0 <= j < i + 1 && x as int == #[trigger] counted_on(start, j) by {
                    if x != c {
                        assert(old_seen.contains(x));
                    }
                }
            }
            if i == len {
                proof {
                    vstd::set_lib::lemma_len_subset(seen, self.tickets@.dom());
                    assert(false);
                }
                return c;
            }
            c = if c == u128::MAX {
                0
            } else {
                c + 1
            };
            i = i + 1;
        }
    }

    /// Stores `ticket` under a fresh ticket number, drawn at random (and
    /// moved on to the next free number in the rare case that it is taken),
    /// and returns the ticket's identifier. No held ticket is replaced.
    pub fn issue(&mut self, ticket: StreamTicket) -> (id: String)
        ensures
            exists|n: u128|
                #![trigger hex_digits(n as nat)]
                !old(self)@.contains_key(n) && final(self)@ == old(self)@.insert(n, ticket@) && id@
                    == hex_digits(n as nat),
    {
        let n = self.free_number(random_ticket_number());
        self.issue_with_number(n, ticket)
    }

    /// The ticket that identifier `id` names, if it is held and not expired
    /// at `now`.
    pub fn resolve(&self, id: &str, now: u64) -> (r: Result<StreamTicket, TicketError>)
        ensures
            match r {
                Ok(t) => resolve_spec(self@, id@, now) == Ok::<TicketView, TicketError>(t@),
                Err(e) => resolve_spec(self@, id@, now) == Err::<TicketView, TicketError>(e),
            },
    {
        match parse_ticket_id(id) {
            Some(n) => {
                match self.tickets.get(&n) {
                    Some(t) => {
                        if now >= t.created_at && now - t.created_at > TICKET_LIFETIME_NANOS {
                            Err(TicketError::Expired)
                        } else {
                            Ok(t.duplicate())
                        }
                    },
                    None => Err(TicketError::NotFound),
                }
            },
            None => Err(TicketError::NotFound),
        }
    }

    /// Drops every ticket that is not younger than its lifetime at `now`.
    pub fn purge_expired(&mut self, now: u64)
        ensures
            final(self)@ == old(self)@.restrict(
                old(self)@.dom().filter(|n: u128| ticket_retained(old(self)@[n], now)),
            ),
    {
        let ghost start = self.tickets@;
        let mut stale: Vec<u128> = Vec::new();
        for k in it: self.tickets.keys()
            invariant
                self.tickets@ == start,
                it.seq().unref().to_set() == start.dom(),
                forall|j: int|
                    0 <= j < stale.len() ==> start.contains_key(#[trigger] stale@[j])
                        && !ticket_retained(start[stale@[j]]@, now),
                forall|j: int|
                    0 <= j < it.index() ==> ticket_retained(start[*#[trigger] it.seq()[j]]@, now)
                        || stale@.contains(*it.seq()[j]),
        {
            assert(*k == *it.seq()[it.index() as int]);
            let ghost old_stale = stale@;
            match self.tickets.get(k) {
                Some(t) => {
                    if !(now < t.created_at || now - t.created_at < TICKET_LIFETIME_NANOS) {
                        stale.push(*k);
                        assert(stale@[stale.len() - 1] == *k);
                        assert forall|x: u128| old_stale.contains(x) implies stale@.contains(x) by {
                            let w = choose|w: int| 0 <= w < old_stale.len() && #[trigger] old_stale[w] == x;
                            assert(stale@[w] == x);
                        }
                    }
                },
                None => {
                    assert(it.seq().unref().contains(*k));
                },
            }
        }
        let mut i: usize = 0;
        while i < stale.len()
            invariant
                i <= stale.len(),
                forall|j: int|
                    0 <= j < stale.len() ==> start.contains_key(#[trigger] stale@[j])
                        && !ticket_retained(start[stale@[j]]@, now),
                forall|n: u128| start.contains_key(n) && !ticket_retained(start[n]@, now) ==> stale@.contains(n),
                forall|n: u128|
                    #[trigger] self.tickets@.contains_key(n) <==> (start.contains_key(n)
                        && !stale@.take(i as int).contains(n)),
                forall|n: u128| #[trigger] self.tickets@.contains_key(n) ==> self.tickets@[n] == start[n],
            decreases stale.len() - i,
        {
            let k = stale[i];
            let ghost before = self.tickets@;
            self.tickets.remove(&k);
            assert(self.tickets@ == before.remove(k));
            i = i + 1;
            assert forall|n: u128| #[trigger] self.tickets@.contains_key(n) <==> (start.contains_key(n)
                && !stale@.take(i as int).contains(n)) by {
                assert(stale@.take(i as int) =~= stale@.take(i - 1).push(k));
                assert(before.contains_key(n) <==> (start.contains_key(n) && !stale@.take(i - 1).contains(n)));
                if stale@.take(i - 1).contains(n) {
                    let w = choose|w: int| 0 <= w < i - 1 && #[trigger] stale@.take(i - 1)[w] == n;
                    assert(stale@.take(i as int)[w] == n);
                }
                if n == k {
                    assert(stale@.take(i as int)[i - 1] == n);
                }
                if stale@.take(i as int).contains(n) && n != k {
                    let w = choose|w: int| 0 <= w < i && #[trigger] stale@.take(i as int)[w] == n;
                    assert(w < i - 1);
                    assert(stale@.take(i - 1)[w] == n);
                }
            }
        }
        assert(stale@.take(stale.len() as int) =~= stale@);
        assert(self@ =~= old(self)@.restrict(
            old(self)@.dom().filter(|n: u128| ticket_retained(old(self)@[n], now)),
        ));
    }
}

/// The store that a sweep at `now` leaves.
pub open spec fn purged(store: Map<u128, TicketView>, now: u64) -> Map<u128, TicketView> {
    store.restrict(store.dom().filter(|n: u128| ticket_retained(store[n], now)))
}

/// A sweep at `now` changes no lookup at `now` of a ticket younger than its
/// lifetime, never brings back a refused identifier, and leaves no ticket
/// that a lookup at `now` would refuse as expired.
pub proof fn law_purge_keeps_live_tickets(store: Map<u128, TicketView>, id: Seq<char>, now: u64)
    ensures
        resolve_spec(store, id, now) matches Ok(t) && ticket_retained(t, now) ==> resolve_spec(
            purged(store, now),
            id,
            now,
        ) == resolve_spec(store, id, now),
        resolve_spec(store, id, now) is Err ==> resolve_spec(purged(store, now), id, now)
            == Err::<TicketView, TicketError>(TicketError::NotFound),
        resolve_spec(purged(store, now), id, now) != Err::<TicketView, TicketError>(
            TicketError::Expired,
        ),
{
}

/// Issuing a ticket under a free number leaves every other identifier
/// resolving as before, and the store grows by one.
pub proof fn law_issue_keeps_other_tickets(
    store: Map<u128, TicketView>,
    n: u128,
    t: TicketView,
    id: Seq<char>,
    now: u64,
)
    requires
        store.dom().finite(),
        !store.contains_key(n),
    ensures
        id != hex_digits(n as nat) ==> resolve_spec(store.insert(n, t), id, now) == resolve_spec(
            store,
            id,
            now,
        ),
        store.insert(n, t).len() == store.len() + 1,
{
    if id != hex_digits(n as nat) {
        if ticket_number(id) == Some(n) {
            let m = choose|m: u128| hex_digits(m as nat) == id;
            crate::ticket_id::lemma_hex_digits_injective(m as nat, n as nat);
        }
    }
}

/// Every held ticket is what its identifier resolves to while it is not
/// expired, and is refused as expired afterwards.
pub proof fn law_held_ticket_resolves(store: Map<u128, TicketView>, n: u128, now: u64)
    requires
        store.contains_key(n),
    ensures
        resolve_spec(store, hex_digits(n as nat), now) == if ticket_expired(store[n], now) {
            Err::<TicketView, TicketError>(TicketError::Expired)
        } else {
            Ok(store[n])
        },
{
    law_ticket_id_names_its_number(n);
}

/// A ticket issued under number `n` is what its identifier resolves to
/// while it is not expired, and is refused as expired afterwards.
pub proof fn law_resolve_after_issue(store: Map<u128, TicketView>, n: u128, t: TicketView, now: u64)
    ensures
        resolve_spec(store.insert(n, t), hex_digits(n as nat), now) == if ticket_expired(t, now) {
            Err::<TicketView, TicketError>(TicketError::Expired)
        } else {
            Ok(t)
        },
{
    law_ticket_id_names_its_number(n);
}

} // verus!
