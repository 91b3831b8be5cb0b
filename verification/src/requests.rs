//! The gateway's API requests: their query parameters, the defaults that
//! fill them in, and the error answers.

use vstd::prelude::*;
use crate::providers::{advertised_provider_names, advertised_providers, cleaned_id, clean_id, parse_provider, provider_selected, ProviderKind};
use crate::text::{all_whitespace, chars_equal, chars_of, is_whitespace_char};

verus! {

/// `?q=` of a suggestion request.
pub struct SuggestQuery {
    pub q: Option<String>,
}

/// `?q=&provider=&page=` of a search request.
pub struct SearchQuery {
    pub q: String,
    pub provider: Option<String>,
    pub page: Option<usize>,
}

/// `?tab=&page=` of a homepage request.
pub struct HomepageQuery {
    pub tab: Option<String>,
    pub page: Option<usize>,
}

/// `?provider=` of a details request.
pub struct DetailsQuery {
    pub provider: Option<String>,
}

/// `?provider=&season=&episode=` of a stream listing request.
pub struct StreamsQuery {
    pub provider: Option<String>,
    pub season: Option<usize>,
    pub episode: Option<usize>,
}

/// `?ticket=&file=` of a stream proxy request.
pub struct TicketQuery {
    pub ticket: String,
    pub file: Option<String>,
}

/// `?resource_id=` of a subtitle listing request.
pub struct SubtitlesQuery {
    pub resource_id: Option<String>,
}

/// `?url=` of a subtitle proxy request.
pub struct SubtitleProxyQuery {
    pub url: String,
}

/// The answer to `GET /health`.
pub struct SimpleHealthResponse {
    pub status: String,
    pub version: String,
    pub service: String,
}

/// The answer to `GET /api/v1/health`.
pub struct HealthResponse {
    pub status: String,
    pub version: String,
    pub providers: Vec<String>,
}

/// An error answer: an HTTP status and a message.
pub struct ApiError {
    pub status: u16,
    pub message: String,
}

/// The view of an optional string.
pub open spec fn opt_view(o: Option<String>) -> Option<Seq<char>> {
    match o {
        Some(s) => Some(s@),
        None => None,
    }
}

/// The answer to `GET /health`.
pub fn simple_health(version: &str) -> (r: SimpleHealthResponse)
    ensures
        r.status@ == "healthy"@,
        r.version@ == version@,
        r.service@ == "cinevault_server"@,
{
    SimpleHealthResponse {
        status: String::from_str("healthy"),
        version: String::from_str(version),
        service: String::from_str("cinevault_server"),
    }
}

/// The answer to `GET /api/v1/health`.
pub fn health(version: &str) -> (r: HealthResponse)
    ensures
        r.status@ == "ok"@,
        r.version@ == version@,
        r.providers@.map_values(|s: String| s@) == advertised_provider_names(),
{
    HealthResponse {
        status: String::from_str("ok"),
        version: String::from_str(version),
        providers: advertised_providers(),
    }
}

/// The term to look suggestions up for: none when `q` is missing or only
/// white space (the answer is then an empty list).
pub open spec fn suggest_term(q: Option<Seq<char>>) -> Option<Seq<char>> {
    match q {
        Some(t) => if all_whitespace(t) {
            None
        } else {
            Some(t)
        },
        None => None,
    }
}

impl SuggestQuery {
    /// The term to look suggestions up for, if any.
    pub fn term(&self) -> (r: Option<String>)
        ensures
            opt_view(r) == suggest_term(opt_view(self.q)),
    {
        match &self.q {
            None => None,
            Some(t) => {
                let cs = chars_of(t.as_str());
                let mut i: usize = 0;
                while i < cs.len()
                    invariant
                        i <= cs.len(),
                        cs@ == t@,
                        self.q == Some(*t),
                        forall|j: int| 0 <= j < i ==> crate::text::is_whitespace(#[trigger] cs@[j]),
                    decreases cs.len() - i,
                {
                    if !is_whitespace_char(cs[i]) {
                        assert(!all_whitespace(t@)) by {
                            assert(!crate::text::is_whitespace(t@[i as int]));
                        }
                        return Some(t.clone());
                    }
                    i = i + 1;
                }
                None
            },
        }
    }
}

/// What a search asks the catalogue for.
pub struct SearchPlan {
    pub provider: ProviderKind,
    pub query: String,
    pub page: usize,
}

impl SearchQuery {
    /// The search to run: the selected provider, the query, and page 1
    /// unless another is asked for.
    pub fn plan(&self) -> (p: SearchPlan)
        ensures
            p.provider == provider_selected(opt_view(self.provider)),
            p.query@ == self.q@,
            p.page == (match self.page {
                Some(n) => n,
                None => 1,
            }),
    {
        let provider = match &self.provider {
            Some(s) => parse_provider(Some(s.as_str())),
            None => parse_provider(None),
        };
        let page = match self.page {
            Some(n) => n,
            None => 1,
        };
        SearchPlan { provider, query: self.q.clone(), page }
    }
}

/// The catalogue tab that a `tab` parameter names: `all` and `featured`
/// are tab 2, `movie` and `movies` tab 1, `tv` and `series` tab 3, and
/// anything else is taken as a tab id; no parameter means tab 2.
pub open spec fn tab_id_for(tab: Option<Seq<char>>) -> Seq<char> {
    match tab {
        None => "2"@,
        Some(t) => if t == "all"@ || t == "featured"@ {
            "2"@
        } else if t == "movie"@ || t == "movies"@ {
            "1"@
        } else if t == "tv"@ || t == "series"@ {
            "3"@
        } else {
            t
        },
    }
}

/// What a homepage request asks the catalogue for.
pub struct HomepagePlan {
    pub tab_id: String,
    pub page: usize,
}

fn is_word(t: &[char], w: &str) -> (b: bool)
    ensures
        b == (t@ == w@),
{
    let wc = chars_of(w);
    chars_equal(t, &wc)
}

impl HomepageQuery {
    /// The homepage tab and page to fetch (page 1 unless another is asked
    /// for).
    pub fn plan(&self) -> (p: HomepagePlan)
        ensures
            p.tab_id@ == tab_id_for(opt_view(self.tab)),
            p.page == (match self.page {
                Some(n) => n,
                None => 1,
            }),
    {
        let tab_id = match &self.tab {
            None => String::from_str("2"),
            Some(t) => {
                let tc = chars_of(t.as_str());
                if is_word(&tc, "all") || is_word(&tc, "featured") {
                    String::from_str("2")
                } else if is_word(&tc, "movie") || is_word(&tc, "movies") {
                    String::from_str("1")
                } else if is_word(&tc, "tv") || is_word(&tc, "series") {
                    String::from_str("3")
                } else {
                    t.clone()
                }
            },
        };
        let page = match self.page {
            Some(n) => n,
            None => 1,
        };
        HomepagePlan { tab_id, page }
    }
}

/// What a details request asks the catalogue for.
pub struct DetailsPlan {
    pub provider: ProviderKind,
    pub id: String,
}

impl DetailsQuery {
    /// The details lookup for media `id`: the selected provider and the id
    /// without its prefix.
    pub fn plan(&self, id: &str) -> (p: DetailsPlan)
        ensures
            p.provider == provider_selected(opt_view(self.provider)),
            p.id@ == cleaned_id(id@),
    {
        let provider = match &self.provider {
            Some(s) => parse_provider(Some(s.as_str())),
            None => parse_provider(None),
        };
        DetailsPlan { provider, id: clean_id(id) }
    }
}

/// How a catalogue lookup failed.
pub enum LookupFailure {
    /// The media does not exist.
    NotFound,
    /// Anything else, with its description.
    Other(String),
}

/// The answer to a failed details lookup: 404 for missing media, else 500
/// with the failure's description.
pub fn details_error(f: LookupFailure) -> (e: ApiError)
    ensures
        match f {
            LookupFailure::NotFound => e.status == 404 && e.message@ == "Media not found"@,
            LookupFailure::Other(m) => e.status == 500 && e.message == m,
        },
{
    match f {
        LookupFailure::NotFound => ApiError { status: 404, message: String::from_str("Media not found") },
        LookupFailure::Other(m) => ApiError { status: 500, message: m },
    }
}

/// The answer to a failed upstream call: 500 with its description.
pub fn internal_error(message: String) -> (e: ApiError)
    ensures
        e.status == 500,
        e.message == message,
{
    ApiError { status: 500, message }
}

/// The answer when the upstream could not be reached: 502, with what was
/// being fetched and why it failed.
pub fn bad_gateway(what: &str, detail: &str) -> (e: ApiError)
    ensures
        e.status == 502,
        e.message@ == what@ + " failed: "@ + detail@,
{
    let mut message = String::from_str(what);
    message.append(" failed: ");
    message.append(detail);
    ApiError { status: 502, message }
}

/// The upstream that lists streams: every provider but the add-ons.
#[derive(PartialEq, Eq, Structural, Debug, Clone, Copy)]
pub enum StreamSource {
    MovieBox,
    FourKHdHub,
    CircleFtp,
    DhakaFlix,
}

/// The provider that a stream source belongs to.
pub open spec fn source_provider(s: StreamSource) -> ProviderKind {
    match s {
        StreamSource::MovieBox => ProviderKind::MovieBox,
        StreamSource::FourKHdHub => ProviderKind::FourKHdHub,
        StreamSource::CircleFtp => ProviderKind::BdixCircleFtp,
        StreamSource::DhakaFlix => ProviderKind::BdixDhakaFlix,
    }
}

/// The answer when 4KHDHub is asked for but not configured.
pub fn fourk_unavailable() -> (e: ApiError)
    ensures
        e.status == 503,
        e.message@ == "4KHDHub not available"@,
{
    ApiError { status: 503, message: String::from_str("4KHDHub not available") }
}

/// Where a stream listing comes from.
pub struct StreamsPlan {
    pub source: StreamSource,
    pub id: String,
    pub season: usize,
    pub episode: usize,
}

/// The stream listing for media `id`: refused for the add-on provider and
/// for 4KHDHub when it is not available; MovieBox is asked with the id
/// without its prefix, the others with the id as given; season and episode
/// default to 0.
pub open spec fn streams_plan_for(
    id: Seq<char>,
    provider: Option<Seq<char>>,
    fourk_available: bool,
) -> Result<(ProviderKind, Seq<char>), (u16, Seq<char>)> {
    let p = provider_selected(provider);
    if p == ProviderKind::Addons {
        Err((400u16, "Addons streams not directly resolvable"@))
    } else if p == ProviderKind::FourKHdHub && !fourk_available {
        Err((503u16, "4KHDHub not available"@))
    } else if p == ProviderKind::MovieBox {
        Ok((p, cleaned_id(id)))
    } else {
        Ok((p, id))
    }
}

impl StreamsQuery {
    /// The stream listing to fetch for media `id`, or why there is none.
    pub fn plan(&self, id: &str, fourk_available: bool) -> (r: Result<StreamsPlan, ApiError>)
        ensures
            match streams_plan_for(id@, opt_view(self.provider), fourk_available) {
                Ok((p, i)) => r matches Ok(plan) && source_provider(plan.source) == p && plan.id@ == i && plan.season == (
                match self.season {
                    Some(n) => n,
                    None => 0,
                }) && plan.episode == (match self.episode {
                    Some(n) => n,
                    None => 0,
                }),
                Err((s, m)) => r matches Err(e) && e.status == s && e.message@ == m,
            },
    {
        let provider = match &self.provider {
            Some(s) => parse_provider(Some(s.as_str())),
            None => parse_provider(None),
        };
        let season = match self.season {
            Some(n) => n,
            None => 0,
        };
        let episode = match self.episode {
            Some(n) => n,
            None => 0,
        };
        match provider {
            ProviderKind::Addons => Err(
                ApiError { status: 400, message: String::from_str("Addons streams not directly resolvable") },
            ),
            ProviderKind::FourKHdHub => {
                if fourk_available {
                    Ok(StreamsPlan { source: StreamSource::FourKHdHub, id: String::from_str(id), season, episode })
                } else {
                    Err(fourk_unavailable())
                }
            },
            ProviderKind::MovieBox => Ok(
                StreamsPlan { source: StreamSource::MovieBox, id: clean_id(id), season, episode },
            ),
            ProviderKind::BdixCircleFtp => Ok(
                StreamsPlan { source: StreamSource::CircleFtp, id: String::from_str(id), season, episode },
            ),
            ProviderKind::BdixDhakaFlix => Ok(
                StreamsPlan { source: StreamSource::DhakaFlix, id: String::from_str(id), season, episode },
            ),
        }
    }
}

/// What a subtitle listing asks the catalogue for.
pub struct SubtitlesPlan {
    pub id: String,
    pub resource_id: String,
}

impl SubtitlesQuery {
    /// The subtitle lookup for media `id`: the id without its prefix, and
    /// the resource id (empty when absent).
    pub fn plan(&self, id: &str) -> (p: SubtitlesPlan)
        ensures
            p.id@ == cleaned_id(id@),
            p.resource_id@ == (match self.resource_id {
                Some(r) => r@,
                None => Seq::<char>::empty(),
            }),
    {
        let resource_id = match &self.resource_id {
            Some(r) => r.clone(),
            None => String::new(),
        };
        SubtitlesPlan { id: clean_id(id), resource_id }
    }
}

} // verus!
