//! The catalogue providers that the gateway can reach, and how a request
//! names one.

use vstd::prelude::*;
use crate::text::{ascii_lower, ascii_lower_char, ascii_lower_char_exec, chars_equal, chars_of, starts_with, starts_with_in, string_of};

verus! {

/// A catalogue provider.
#[derive(PartialEq, Eq, Structural, Debug, Clone, Copy)]
pub enum ProviderKind {
    MovieBox,
    FourKHdHub,
    BdixCircleFtp,
    BdixDhakaFlix,
    Addons,
}

/// The provider that a (non-default) provider name selects: the name is
/// compared without regard to ASCII case, and an unknown name selects
/// MovieBox.
pub open spec fn provider_named(name: Seq<char>) -> ProviderKind {
    let l = ascii_lower(name);
    if l == "moviebox"@ || l == "mb"@ {
        ProviderKind::MovieBox
    } else if l == "fourkhdhub"@ || l == "4k"@ {
        ProviderKind::FourKHdHub
    } else if l == "circleftp"@ || l == "circle"@ {
        ProviderKind::BdixCircleFtp
    } else if l == "dhakaflix"@ {
        ProviderKind::BdixDhakaFlix
    } else if l == "addons"@ {
        ProviderKind::Addons
    } else {
        ProviderKind::MovieBox
    }
}

/// The provider that an optional `provider` query parameter selects; an
/// absent one selects MovieBox.
pub open spec fn provider_selected(kind: Option<Seq<char>>) -> ProviderKind {
    match kind {
        Some(name) => provider_named(name),
        None => ProviderKind::MovieBox,
    }
}

/// The name under which a provider prints itself (its `Debug` form).
pub open spec fn provider_display_name(p: ProviderKind) -> Seq<char> {
    match p {
        ProviderKind::MovieBox => "MovieBox"@,
        ProviderKind::FourKHdHub => "FourKHdHub"@,
        ProviderKind::BdixCircleFtp => "BdixCircleFtp"@,
        ProviderKind::BdixDhakaFlix => "BdixDhakaFlix"@,
        ProviderKind::Addons => "Addons"@,
    }
}

/// All providers, in the order in which the gateway lists them.
pub open spec fn all_providers() -> Seq<ProviderKind> {
    seq![
        ProviderKind::MovieBox,
        ProviderKind::FourKHdHub,
        ProviderKind::BdixCircleFtp,
        ProviderKind::BdixDhakaFlix,
        ProviderKind::Addons,
    ]
}

/// The provider names that the health report advertises.
pub open spec fn advertised_provider_names() -> Seq<Seq<char>> {
    seq!["moviebox"@, "fourkhdhub"@, "circleftp"@, "dhakaflix"@, "addons"@]
}

/// `s` lower-cased in ASCII.
pub fn ascii_lowercase(s: &str) -> (r: String)
    ensures
        r@ == ascii_lower(s@),
{
    let cs = chars_of(s);
    let mut out: Vec<char> = Vec::new();
    let mut i: usize = 0;
    while i < cs.len()
        invariant
            i <= cs.len(),
            out@ == ascii_lower(cs@.take(i as int)),
        decreases cs.len() - i,
    {
        out.push(ascii_lower_char_exec(cs[i]));
        i = i + 1;
        assert(out@ =~= ascii_lower(cs@.take(i as int)));
    }
    assert(cs@.take(cs.len() as int) =~= cs@);
    string_of(&out)
}

fn is_name(l: &[char], name: &str) -> (b: bool)
    ensures
        b == (l@ == name@),
{
    let n = chars_of(name);
    chars_equal(l, &n)
}

/// The provider that an optional `provider` query parameter selects.
pub fn parse_provider(kind: Option<&str>) -> (p: ProviderKind)
    ensures
        p == provider_selected(match kind {
            Some(k) => Some(k@),
            None => None,
        }),
{
    match kind {
        None => ProviderKind::MovieBox,
        Some(k) => {
            let lower = ascii_lowercase(k);
            let l = chars_of(lower.as_str());
            if is_name(&l, "moviebox") || is_name(&l, "mb") {
                ProviderKind::MovieBox
            } else if is_name(&l, "fourkhdhub") || is_name(&l, "4k") {
                ProviderKind::FourKHdHub
            } else if is_name(&l, "circleftp") || is_name(&l, "circle") {
                ProviderKind::BdixCircleFtp
            } else if is_name(&l, "dhakaflix") {
                ProviderKind::BdixDhakaFlix
            } else if is_name(&l, "addons") {
                ProviderKind::Addons
            } else {
                ProviderKind::MovieBox
            }
        },
    }
}

impl ProviderKind {
    /// All providers, in the order in which the gateway lists them.
    pub fn all() -> (v: Vec<ProviderKind>)
        ensures
            v@ == all_providers(),
    {
        let v = vec![
            ProviderKind::MovieBox,
            ProviderKind::FourKHdHub,
            ProviderKind::BdixCircleFtp,
            ProviderKind::BdixDhakaFlix,
            ProviderKind::Addons,
        ];
        assert(v@ =~= all_providers());
        v
    }

    /// The name under which the provider is listed.
    pub fn display_name(&self) -> (s: String)
        ensures
            s@ == provider_display_name(*self),
    {
        match self {
            ProviderKind::MovieBox => String::from_str("MovieBox"),
            ProviderKind::FourKHdHub => String::from_str("FourKHdHub"),
            ProviderKind::BdixCircleFtp => String::from_str("BdixCircleFtp"),
            ProviderKind::BdixDhakaFlix => String::from_str("BdixDhakaFlix"),
            ProviderKind::Addons => String::from_str("Addons"),
        }
    }

    /// The identifier under which the provider is listed: its name,
    /// lower-cased.
    pub fn id(&self) -> (s: String)
        ensures
            s@ == ascii_lower(provider_display_name(*self)),
    {
        let name = self.display_name();
        ascii_lowercase(name.as_str())
    }
}

/// The provider names that the health report advertises.
pub fn advertised_providers() -> (v: Vec<String>)
    ensures
        v@.map_values(|s: String| s@) == advertised_provider_names(),
{
    let v = vec![
        String::from_str("moviebox"),
        String::from_str("fourkhdhub"),
        String::from_str("circleftp"),
        String::from_str("dhakaflix"),
        String::from_str("addons"),
    ];
    assert(v@.map_values(|s: String| s@) =~= advertised_provider_names());
    v
}

/// A media identifier without its `mb-` or, failing that, `c-` prefix.
pub open spec fn cleaned_id(id: Seq<char>) -> Seq<char> {
    if starts_with(id, "mb-"@) {
        id.skip("mb-"@.len() as int)
    } else if starts_with(id, "c-"@) {
        id.skip("c-"@.len() as int)
    } else {
        id
    }
}

/// `id` without its `mb-` or, failing that, `c-` prefix.
pub fn clean_id(id: &str) -> (r: String)
    ensures
        r@ == cleaned_id(id@),
{
    let cs = chars_of(id);
    let mb = chars_of("mb-");
    let c = chars_of("c-");
    if starts_with_in(&cs, &mb) {
        let rest = crate::text::slice_chars(&cs, mb.len(), cs.len());
        assert(rest@ =~= id@.skip("mb-"@.len() as int));
        string_of(&rest)
    } else if starts_with_in(&cs, &c) {
        let rest = crate::text::slice_chars(&cs, c.len(), cs.len());
        assert(rest@ =~= id@.skip("c-"@.len() as int));
        string_of(&rest)
    } else {
        string_of(&cs)
    }
}

/// Each advertised provider name selects a different provider, and
/// together they select every provider, in listing order.
pub proof fn law_advertised_names_select_all_providers()
    ensures
        forall|i: int|
            0 <= i < 5 ==> provider_named(#[trigger] advertised_provider_names()[i]) == all_providers()[i],
{
    reveal_strlit("moviebox");
    reveal_strlit("fourkhdhub");
    reveal_strlit("circleftp");
    reveal_strlit("dhakaflix");
    reveal_strlit("addons");
    reveal_strlit("mb");
    reveal_strlit("4k");
    reveal_strlit("circle");
    assert(ascii_lower("moviebox"@) =~= "moviebox"@);
    assert(ascii_lower("fourkhdhub"@) =~= "fourkhdhub"@);
    assert(ascii_lower("circleftp"@) =~= "circleftp"@);
    assert(ascii_lower("dhakaflix"@) =~= "dhakaflix"@);
    assert(ascii_lower("addons"@) =~= "addons"@);
    assert("circleftp"@ != "moviebox"@ && "circleftp"@ != "mb"@);
    assert("circleftp"@ != "fourkhdhub"@ && "circleftp"@ != "4k"@);
    assert("circleftp"@[0] != "dhakaflix"@[0]);
    assert(provider_named(advertised_provider_names()[2]) == ProviderKind::BdixCircleFtp);
    assert("dhakaflix"@[0] != "circleftp"@[0]);
    assert(provider_named(advertised_provider_names()[3]) == ProviderKind::BdixDhakaFlix);
    assert(provider_named(advertised_provider_names()[0]) == ProviderKind::MovieBox);
    assert(provider_named(advertised_provider_names()[1]) == ProviderKind::FourKHdHub);
    assert("addons"@[0] != "circle"@[0]);
    assert(provider_named(advertised_provider_names()[4]) == ProviderKind::Addons);
    assert forall|i: int| 0 <= i < 5 implies provider_named(#[trigger] advertised_provider_names()[i])
        == all_providers()[i] by {
        if i == 0 {} else if i == 1 {} else if i == 2 {} else if i == 3 {} else {}
    }
}

/// Cleaning an id removes exactly one known prefix: `mb-` if the id starts
/// with it, else `c-`; any other id, dashes and all, is kept as it is.
pub proof fn law_clean_id_removes_one_known_prefix(id: Seq<char>, rest: Seq<char>)
    ensures
        cleaned_id(seq!['m', 'b', '-'] + rest) == rest,
        cleaned_id(seq!['c', '-'] + rest) == rest,
        !(id.len() >= 3 && id[0] == 'm' && id[1] == 'b' && id[2] == '-') && !(id.len() >= 2
            && id[0] == 'c' && id[1] == '-') ==> cleaned_id(id) == id,
{
    reveal_strlit("mb-");
    reveal_strlit("c-");
    let a = seq!['m', 'b', '-'] + rest;
    assert(a.take(3) =~= "mb-"@);
    assert(a.skip(3) =~= rest);
    let b = seq!['c', '-'] + rest;
    assert(b.take(2) =~= "c-"@);
    assert(b.skip(2) =~= rest);
    if starts_with(b, "mb-"@) {
        assert(b.take(3)[0] == 'm');
    }
    if id.len() >= 3 && starts_with(id, "mb-"@) {
        assert(id.take(3)[0] == id[0] && id.take(3)[1] == id[1] && id.take(3)[2] == id[2]);
    }
    if id.len() >= 2 && starts_with(id, "c-"@) {
        assert(id.take(2)[0] == id[0] && id.take(2)[1] == id[1]);
    }
}

/// Provider names are compared without regard to ASCII case.
pub proof fn law_provider_names_ignore_case(name: Seq<char>)
    ensures
        provider_named(name) == provider_named(ascii_lower(name)),
{
    assert(ascii_lower(ascii_lower(name)) =~= ascii_lower(name));
}

/// The identifier under which a provider is listed selects that provider,
/// except for the two BDIX providers, whose listed identifiers
/// (`bdixcircleftp`, `bdixdhakaflix`) select MovieBox.
pub proof fn law_listed_id_selects_provider(p: ProviderKind)
    requires
        p != ProviderKind::BdixCircleFtp,
        p != ProviderKind::BdixDhakaFlix,
    ensures
        provider_named(ascii_lower(provider_display_name(p))) == p,
{
    reveal_strlit("MovieBox");
    reveal_strlit("FourKHdHub");
    reveal_strlit("Addons");
    reveal_strlit("moviebox");
    reveal_strlit("fourkhdhub");
    reveal_strlit("addons");
    reveal_strlit("mb");
    reveal_strlit("4k");
    reveal_strlit("circleftp");
    reveal_strlit("circle");
    reveal_strlit("dhakaflix");
    match p {
        ProviderKind::MovieBox => {
            assert(ascii_lower("MovieBox"@) =~= "moviebox"@);
            assert(ascii_lower("moviebox"@) =~= "moviebox"@);
        },
        ProviderKind::FourKHdHub => {
            assert(ascii_lower("FourKHdHub"@) =~= "fourkhdhub"@);
            assert(ascii_lower("fourkhdhub"@) =~= "fourkhdhub"@);
        },
        ProviderKind::Addons => {
            assert(ascii_lower("Addons"@) =~= "addons"@);
            assert(ascii_lower("addons"@) =~= "addons"@);
            assert("addons"@[0] != "circle"@[0]);
        },
        _ => {},
    }
}

} // verus!
