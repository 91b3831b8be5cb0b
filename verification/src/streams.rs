//! Stream listings: each upstream mirror of a release is handed to the
//! client as a proxy URL that carries a fresh stream ticket.

use vstd::prelude::*;
use crate::providers::ProviderKind;
use crate::text::{chars_of, contains, contains_in, ends_with, ends_with_in};
use crate::ticket_id::{hex_digits, lemma_hex_digits_injective};
use crate::tickets::{
    clone_pairs, law_held_ticket_resolves, pairs_view, resolve_spec, ticket_expired, StreamTicket,
    TicketError, TicketStore, TicketView,
};

verus! {

/// One place from which an upstream release can be fetched.
pub struct Mirror {
    pub label: String,
    pub resolver_url: String,
    pub headers: Vec<(String, String)>,
    pub direct_file: bool,
}

/// A release as an upstream provider reports it.
pub struct Release {
    pub provider: ProviderKind,
    pub filename: String,
    pub quality: Option<String>,
    pub codec: Option<String>,
    pub language: Option<String>,
    pub size_bytes: Option<u64>,
    pub season: Option<usize>,
    pub episode: Option<usize>,
    pub mirrors: Vec<Mirror>,
    pub resource_id: Option<String>,
}

/// A mirror as the gateway hands it to clients.
#[derive(Clone, Debug)]
pub struct WebSourceMirror {
    pub label: String,
    pub resolver_url: String,
    pub proxy_url: String,
    pub direct_file: bool,
}

/// A release as the gateway hands it to clients.
#[derive(Clone, Debug)]
pub struct WebRelease {
    pub provider: ProviderKind,
    pub filename: String,
    pub quality: Option<String>,
    pub codec: Option<String>,
    pub language: Option<String>,
    pub size_bytes: Option<u64>,
    pub season: Option<usize>,
    pub episode: Option<usize>,
    pub mirrors: Vec<WebSourceMirror>,
    pub resource_id: Option<String>,
}

/// The URL points at a DASH manifest: it ends in `.mpd` or has a `/dash/`
/// segment.
pub open spec fn is_dash_url(url: Seq<char>) -> bool {
    ends_with(url, ".mpd"@) || contains(url, "/dash/"@)
}

/// The proxy URL of ticket `ticket_id` under `base_url`; for a DASH stream
/// it names the manifest file.
pub open spec fn stream_proxy_url(base_url: Seq<char>, ticket_id: Seq<char>, dash: bool) -> Seq<char> {
    base_url + "/api/v1/stream/proxy/"@ + ticket_id + if dash {
        "/manifest.mpd"@
    } else {
        Seq::<char>::empty()
    }
}

/// The ticket that a mirror is handed out under at `now`.
pub open spec fn mirror_ticket(m: Mirror, now: u64) -> TicketView {
    TicketView { url: m.resolver_url@, headers: pairs_view(m.headers@), created_at: now }
}

/// `w` is mirror `m` handed out under ticket identifier `ticket_id`.
pub open spec fn web_mirror_of(m: Mirror, w: WebSourceMirror, ticket_id: Seq<char>, base_url: Seq<char>) -> bool {
    &&& w.label == m.label
    &&& w.resolver_url == m.resolver_url
    &&& w.proxy_url@ == stream_proxy_url(base_url, ticket_id, is_dash_url(m.resolver_url@))
    &&& w.direct_file == m.direct_file
}

/// `w` is release `r` handed out with its mirrors under ticket numbers `ns`.
pub open spec fn web_release_of(r: Release, w: WebRelease, ns: Seq<u128>, base_url: Seq<char>) -> bool {
    &&& w.provider == r.provider
    &&& w.filename == r.filename
    &&& w.quality == r.quality
    &&& w.codec == r.codec
    &&& w.language == r.language
    &&& w.size_bytes == r.size_bytes
    &&& w.season == r.season
    &&& w.episode == r.episode
    &&& w.resource_id == r.resource_id
    &&& ns.len() == r.mirrors@.len()
    &&& w.mirrors@.len() == r.mirrors@.len()
    &&& forall|j: int|
        0 <= j < ns.len() ==> web_mirror_of(
            r.mirrors@[j],
            #[trigger] w.mirrors@[j],
            hex_digits(ns[j] as nat),
            base_url,
        )
}

/// The store after inserting `entries` in order.
pub open spec fn insert_entries(store: Map<u128, TicketView>, entries: Seq<(u128, TicketView)>) -> Map<
    u128,
    TicketView,
>
    decreases entries.len(),
{
    if entries.len() == 0 {
        store
    } else {
        insert_entries(store, entries.drop_last()).insert(entries.last().0, entries.last().1)
    }
}

/// The tickets that handing out release `r` under numbers `ns` at `now`
/// stores, in order.
pub open spec fn release_entries(r: Release, ns: Seq<u128>, now: u64) -> Seq<(u128, TicketView)> {
    Seq::new(ns.len(), |j: int| (ns[j], mirror_ticket(r.mirrors@[j], now)))
}

/// The tickets that handing out releases `rs` under numbers `nss` at `now`
/// stores, in order.
pub open spec fn all_entries(rs: Seq<Release>, nss: Seq<Seq<u128>>, now: u64) -> Seq<(u128, TicketView)>
    decreases rs.len(),
{
    if rs.len() == 0 || nss.len() == 0 {
        Seq::empty()
    } else {
        all_entries(rs.drop_last(), nss.drop_last(), now) + release_entries(rs.last(), nss.last(), now)
    }
}

/// Handing out release `r` under numbers `ns` took the store from `before`
/// to `after` without replacing a held ticket: the numbers were free and
/// pairwise distinct, each now holds its mirror's ticket, and every ticket
/// held before is still held unchanged.
pub open spec fn issued_fresh(
    before: Map<u128, TicketView>,
    after: Map<u128, TicketView>,
    r: Release,
    ns: Seq<u128>,
    now: u64,
) -> bool {
    &&& forall|j: int|
        0 <= j < ns.len() ==> !before.contains_key(#[trigger] ns[j]) && after.contains_key(ns[j])
            && after[ns[j]] == mirror_ticket(r.mirrors@[j], now)
    &&& forall|j: int, k: int| 0 <= j < k < ns.len() ==> #[trigger] ns[j] != #[trigger] ns[k]
    &&& forall|m: u128| #[trigger] before.contains_key(m) ==> after.contains_key(m) && after[m] == before[m]
}

/// Handing out releases `rs` under numbers `nss` took the store from
/// `before` to `after` without replacing a held ticket: all numbers were
/// free and pairwise distinct, each now holds its mirror's ticket, and
/// every ticket held before is still held unchanged.
pub open spec fn all_issued_fresh(
    before: Map<u128, TicketView>,
    after: Map<u128, TicketView>,
    rs: Seq<Release>,
    nss: Seq<Seq<u128>>,
    now: u64,
) -> bool {
    &&& forall|i: int, j: int|
        0 <= i < nss.len() && 0 <= j < nss[i].len() ==> !before.contains_key(#[trigger] nss[i][j])
            && after.contains_key(nss[i][j]) && after[nss[i][j]] == mirror_ticket(rs[i].mirrors@[j], now)
    &&& forall|i1: int, j1: int, i2: int, j2: int|
        0 <= i1 < nss.len() && 0 <= j1 < nss[i1].len() && 0 <= i2 < nss.len() && 0 <= j2
            < nss[i2].len() && (i1 != i2 || j1 != j2) ==> #[trigger] nss[i1][j1] != #[trigger] nss[i2][j2]
    &&& forall|m: u128| #[trigger] before.contains_key(m) ==> after.contains_key(m) && after[m] == before[m]
}

/// After releases are handed out, every mirror's identifier is its own:
/// identifiers of different mirrors differ, and each resolves to its
/// mirror's ticket (URL, headers, time of issue) until that expires.
pub proof fn law_published_mirrors_resolve(
    before: Map<u128, TicketView>,
    after: Map<u128, TicketView>,
    rs: Seq<Release>,
    nss: Seq<Seq<u128>>,
    now: u64,
    later: u64,
)
    requires
        all_issued_fresh(before, after, rs, nss, now),
    ensures
        forall|i: int, j: int|
            0 <= i < nss.len() && 0 <= j < nss[i].len() ==> resolve_spec(
                after,
                hex_digits(#[trigger] nss[i][j] as nat),
                later,
            ) == if ticket_expired(mirror_ticket(rs[i].mirrors@[j], now), later) {
                Err::<TicketView, TicketError>(TicketError::Expired)
            } else {
                Ok(mirror_ticket(rs[i].mirrors@[j], now))
            },
        forall|i1: int, j1: int, i2: int, j2: int|
            0 <= i1 < nss.len() && 0 <= j1 < nss[i1].len() && 0 <= i2 < nss.len() && 0 <= j2
                < nss[i2].len() && (i1 != i2 || j1 != j2) ==> hex_digits(#[trigger] nss[i1][j1] as nat)
                != hex_digits(#[trigger] nss[i2][j2] as nat),
{
    assert forall|i: int, j: int| 0 <= i < nss.len() && 0 <= j < nss[i].len() implies resolve_spec(
        after,
        hex_digits(#[trigger] nss[i][j] as nat),
        later,
    ) == if ticket_expired(mirror_ticket(rs[i].mirrors@[j], now), later) {
        Err::<TicketView, TicketError>(TicketError::Expired)
    } else {
        Ok(mirror_ticket(rs[i].mirrors@[j], now))
    } by {
        law_held_ticket_resolves(after, nss[i][j], later);
    }
    assert forall|i1: int, j1: int, i2: int, j2: int|
        0 <= i1 < nss.len() && 0 <= j1 < nss[i1].len() && 0 <= i2 < nss.len() && 0 <= j2 < nss[i2].len()
            && (i1 != i2 || j1 != j2) implies hex_digits(#[trigger] nss[i1][j1] as nat) != hex_digits(
        #[trigger] nss[i2][j2] as nat,
    ) by {
        if hex_digits(nss[i1][j1] as nat) == hex_digits(nss[i2][j2] as nat) {
            lemma_hex_digits_injective(nss[i1][j1] as nat, nss[i2][j2] as nat);
        }
    }
}

pub proof fn lemma_insert_entries_append(
    store: Map<u128, TicketView>,
    a: Seq<(u128, TicketView)>,
    b: Seq<(u128, TicketView)>,
)
    ensures
        insert_entries(store, a + b) == insert_entries(insert_entries(store, a), b),
    decreases b.len(),
{
    if b.len() == 0 {
        assert(a + b =~= a);
    } else {
        assert((a + b).drop_last() =~= a + b.drop_last());
        lemma_insert_entries_append(store, a, b.drop_last());
    }
}

/// The URL points at a DASH manifest.
pub fn is_dash(url: &str) -> (b: bool)
    ensures
        b == is_dash_url(url@),
{
    let u = chars_of(url);
    let mpd = chars_of(".mpd");
    let dash = chars_of("/dash/");
    ends_with_in(&u, &mpd) || contains_in(&u, &dash)
}

/// The proxy URL of ticket `ticket_id` under `base_url`.
pub fn make_stream_proxy_url(base_url: &str, ticket_id: &str, dash: bool) -> (u: String)
    ensures
        u@ == stream_proxy_url(base_url@, ticket_id@, dash),
{
    let mut u = String::from_str(base_url);
    u.append("/api/v1/stream/proxy/");
    u.append(ticket_id);
    if dash {
        u.append("/manifest.mpd");
    }
    assert(u@ =~= stream_proxy_url(base_url@, ticket_id@, dash));
    u
}

fn clone_text(o: &Option<String>) -> (r: Option<String>)
    ensures
        r == *o,
{
    match o {
        Some(s) => Some(s.clone()),
        None => None,
    }
}

impl TicketStore {
    /// Hands out mirror `m` at `now`: stores a ticket for it under a fresh
    /// number and returns the mirror with its proxy URL.
    pub fn publish_mirror(&mut self, m: &Mirror, base_url: &str, now: u64) -> (w: WebSourceMirror)
        ensures
            exists|n: u128|
                #![trigger hex_digits(n as nat)]
                !old(self)@.contains_key(n) && final(self)@ == old(self)@.insert(n, mirror_ticket(*m, now))
                    && web_mirror_of(*m, w, hex_digits(n as nat), base_url@),
    {
        let ticket = StreamTicket { url: m.resolver_url.clone(), headers: clone_pairs(&m.headers), created_at: now };
        assert(ticket@ == mirror_ticket(*m, now));
        let id = self.issue(ticket);
        let dash = is_dash(m.resolver_url.as_str());
        let proxy_url = make_stream_proxy_url(base_url, id.as_str(), dash);
        WebSourceMirror {
            label: m.label.clone(),
            resolver_url: m.resolver_url.clone(),
            proxy_url,
            direct_file: m.direct_file,
        }
    }

    /// Hands out release `r` at `now`: each mirror gets a ticket under a
    /// fresh number, in order.
    pub fn publish_release(&mut self, r: &Release, base_url: &str, now: u64) -> (w: WebRelease)
        ensures
            exists|ns: Seq<u128>|
                web_release_of(*r, w, ns, base_url@) && final(self)@ == insert_entries(
                    old(self)@,
                    release_entries(*r, ns, now),
                ) && issued_fresh(old(self)@, final(self)@, *r, ns, now),
    {
        let mut mirrors: Vec<WebSourceMirror> = Vec::new();
        let ghost mut ns: Seq<u128> = Seq::empty();
        let mut j: usize = 0;
        while j < r.mirrors.len()
            invariant
                j <= r.mirrors@.len(),
                ns.len() == j,
                mirrors@.len() == j,
                forall|k: int|
                    0 <= k < j ==> web_mirror_of(
                        r.mirrors@[k],
                        #[trigger] mirrors@[k],
                        hex_digits(ns[k] as nat),
                        base_url@,
                    ),
                self@ == insert_entries(old(self)@, release_entries(*r, ns, now)),
                issued_fresh(old(self)@, self@, *r, ns, now),
            decreases r.mirrors@.len() - j,
        {
            let ghost before = self@;
            let wm = self.publish_mirror(&r.mirrors[j], base_url, now);
            let ghost n = choose|n: u128|
                #![trigger hex_digits(n as nat)]
                !before.contains_key(n) && self@ == before.insert(n, mirror_ticket(r.mirrors@[j as int], now))
                    && web_mirror_of(r.mirrors@[j as int], wm, hex_digits(n as nat), base_url@);
            mirrors.push(wm);
            proof {
                let old_ns = ns;
                ns = ns.push(n);
                assert(release_entries(*r, ns, now).drop_last() =~= release_entries(*r, old_ns, now));
                assert forall|k: int| 0 <= k < ns.len() implies !old(self)@.contains_key(#[trigger] ns[k])
                    && self@.contains_key(ns[k]) && self@[ns[k]] == mirror_ticket(r.mirrors@[k], now) by {
                    if k < old_ns.len() {
                        assert(ns[k] == old_ns[k]);
                        assert(before.contains_key(old_ns[k]));
                    } else {
                        if old(self)@.contains_key(n) {
                            assert(before.contains_key(n));
                        }
                    }
                }
                assert forall|a: int, b: int| 0 <= a < b < ns.len() implies #[trigger] ns[a] != #[trigger] ns[b] by {
                    if b < old_ns.len() {
                        assert(ns[a] == old_ns[a] && ns[b] == old_ns[b]);
                    } else {
                        assert(ns[a] == old_ns[a]);
                        assert(before.contains_key(old_ns[a]));
                    }
                }
                assert forall|m: u128| #[trigger] old(self)@.contains_key(m) implies self@.contains_key(m)
                    && self@[m] == old(self)@[m] by {
                    assert(before.contains_key(m));
                }
            }
            j = j + 1;
        }
        let w = WebRelease {
            provider: r.provider,
            filename: r.filename.clone(),
            quality: clone_text(&r.quality),
            codec: clone_text(&r.codec),
            language: clone_text(&r.language),
            size_bytes: r.size_bytes,
            season: r.season,
            episode: r.episode,
            mirrors,
            resource_id: clone_text(&r.resource_id),
        };
        assert(web_release_of(*r, w, ns, base_url@));
        w
    }

    /// Hands out releases `rs` at `now`, in order.
    pub fn publish_releases(&mut self, rs: &Vec<Release>, base_url: &str, now: u64) -> (ws: Vec<WebRelease>)
        ensures
            ws@.len() == rs@.len(),
            exists|nss: Seq<Seq<u128>>|
                {
                    &&& nss.len() == rs@.len()
                    &&& forall|i: int|
                        0 <= i < rs@.len() ==> web_release_of(rs@[i], #[trigger] ws@[i], nss[i], base_url@)
                    &&& final(self)@ == insert_entries(old(self)@, all_entries(rs@, nss, now))
                    &&& all_issued_fresh(old(self)@, final(self)@, rs@, nss, now)
                },
    {
        let mut ws: Vec<WebRelease> = Vec::new();
        let ghost mut nss: Seq<Seq<u128>> = Seq::empty();
        let mut i: usize = 0;
        while i < rs.len()
            invariant
                i <= rs@.len(),
                nss.len() == i,
                ws@.len() == i,
                forall|k: int| 0 <= k < i ==> web_release_of(rs@[k], #[trigger] ws@[k], nss[k], base_url@),
                self@ == insert_entries(old(self)@, all_entries(rs@.take(i as int), nss, now)),
                all_issued_fresh(old(self)@, self@, rs@, nss, now),
            decreases rs@.len() - i,
        {
            let ghost before = self@;
            let w = self.publish_release(&rs[i], base_url, now);
            let ghost ns = choose|ns: Seq<u128>|
                web_release_of(rs@[i as int], w, ns, base_url@) && self@ == insert_entries(
                    before,
                    release_entries(rs@[i as int], ns, now),
                ) && issued_fresh(before, self@, rs@[i as int], ns, now);
            ws.push(w);
            proof {
                let old_nss = nss;
                nss = nss.push(ns);
                assert forall|a: int, b: int| 0 <= a < nss.len() && 0 <= b < nss[a].len() implies !old(
                    self,
                )@.contains_key(#[trigger] nss[a][b]) && self@.contains_key(nss[a][b]) && self@[nss[a][b]]
                    == mirror_ticket(rs@[a].mirrors@[b], now) by {
                    if a < old_nss.len() {
                        assert(nss[a] == old_nss[a]);
                        assert(before.contains_key(old_nss[a][b]));
                    } else {
                        assert(nss[a] == ns);
                        assert(!before.contains_key(ns[b]));
                        if old(self)@.contains_key(ns[b]) {
                            assert(before.contains_key(ns[b]));
                        }
                    }
                }
                assert forall|i1: int, j1: int, i2: int, j2: int|
                    0 <= i1 < nss.len() && 0 <= j1 < nss[i1].len() && 0 <= i2 < nss.len() && 0 <= j2
                        < nss[i2].len() && (i1 != i2 || j1 != j2) implies #[trigger] nss[i1][j1]
                    != #[trigger] nss[i2][j2] by {
                    if i1 < old_nss.len() && i2 < old_nss.len() {
                        assert(nss[i1] == old_nss[i1] && nss[i2] == old_nss[i2]);
                    } else if i1 < old_nss.len() {
                        assert(nss[i1] == old_nss[i1] && nss[i2] == ns);
                        assert(before.contains_key(old_nss[i1][j1]));
                    } else if i2 < old_nss.len() {
                        assert(nss[i2] == old_nss[i2] && nss[i1] == ns);
                        assert(before.contains_key(old_nss[i2][j2]));
                    } else {
                        assert(nss[i1] == ns && nss[i2] == ns);
                        if j1 < j2 {
                            assert(ns[j1] != ns[j2]);
                        } else {
                            assert(ns[j2] != ns[j1]);
                        }
                    }
                }
                assert forall|m: u128| #[trigger] old(self)@.contains_key(m) implies self@.contains_key(m)
                    && self@[m] == old(self)@[m] by {
                    assert(before.contains_key(m));
                }
                assert(rs@.take(i + 1).drop_last() =~= rs@.take(i as int));
                assert(nss.drop_last() =~= old_nss);
                lemma_insert_entries_append(
                    old(self)@,
                    all_entries(rs@.take(i as int), old_nss, now),
                    release_entries(rs@[i as int], ns, now),
                );
            }
            i = i + 1;
        }
        assert(rs@.take(rs@.len() as int) =~= rs@);
        ws
    }
}

} // verus!
