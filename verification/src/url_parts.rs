//! The parts of a parsed link that the routing and gate logic read.

use vstd::prelude::*;

verus! {

/// Scheme, host and decoded query pairs of a link parsed by the `url` crate.
pub struct UrlParts {
    pub scheme: String,
    pub host: Option<String>,
    pub query: Vec<(String, String)>,
}

pub open spec fn opt_string_view(s: Option<String>) -> Option<Seq<char>> {
    match s {
        Some(x) => Some(x@),
        None => None,
    }
}

pub open spec fn pairs_view(v: Seq<(String, String)>) -> Seq<(Seq<char>, Seq<char>)> {
    v.map_values(|p: (String, String)| (p.0@, p.1@))
}

impl View for UrlParts {
    type V = (Seq<char>, Option<Seq<char>>, Seq<(Seq<char>, Seq<char>)>);

    open spec fn view(&self) -> Self::V {
        (self.scheme@, opt_string_view(self.host), pairs_view(self.query@))
    }
}

/// What `url::Url::parse` makes of a text: its scheme, its host (if it has
/// one) and its percent-decoded query pairs, or nothing when it is no
/// absolute URL.
pub uninterp spec fn parsed_url(input: Seq<char>) -> Option<
    (Seq<char>, Option<Seq<char>>, Seq<(Seq<char>, Seq<char>)>),
>;

/// Calls `url::Url::parse` and reads `scheme`, `host_str` and `query_pairs`
/// of the result.  The contract names the outcome and states one fact of it:
/// a text without `:` has no scheme and, parsed without a base, fails.  URL
/// parsing itself (WHATWG rules, IDNA host processing, percent-decoding) is
/// not restated here.
#[verifier::external_body]
pub(crate) fn parse_url(input: &str) -> (r: Option<UrlParts>)
    ensures
        match r {
            Some(p) => parsed_url(input@) == Some(p@),
            None => parsed_url(input@) is None,
        },
        !input@.contains(':') ==> r is None,
{
    match url::Url::parse(input) {
        Ok(u) => Some(UrlParts {
            scheme: u.scheme().to_string(),
            host: u.host_str().map(|h| h.to_string()),
            query: u.query_pairs().map(|(k, v)| (k.into_owned(), v.into_owned())).collect(),
        }),
        Err(_) => None,
    }
}

} // verus!
