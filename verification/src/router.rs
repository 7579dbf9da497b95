//! Which tool downloads a dropped link or text.

use vstd::prelude::*;
use vstd::utf8::*;
use vstd::string::StringSliceAdditionalSpecFns;
use crate::text::{contains_bytes, holds, to_lowercase, unicode_lowercase};
use crate::url_parts::{parse_url, parsed_url};

verus! {

/// The record pools that are reached through the pool sidecar.
#[derive(Debug, Clone, Copy, PartialEq, Eq, Structural)]
pub enum Pool {
    BpmSupreme,
    ClubKillers,
    LiveDjService,
}

/// The tool that handles a dropped input.
#[derive(Debug, Clone, PartialEq)]
pub enum DownloadSource {
    YtDlp,
    Spotdl,
    QobuzDlp,
    Pool(Pool),
    Search(String),
}

/// The tool for a (lowercased) host name, when one is known for it.
pub open spec fn host_source(host: Seq<u8>) -> Option<DownloadSource> {
    if holds(host, "youtube.com".spec_bytes()) || holds(host, "youtu.be".spec_bytes()) {
        Some(DownloadSource::YtDlp)
    } else if holds(host, "soundcloud.com".spec_bytes()) {
        Some(DownloadSource::YtDlp)
    } else if holds(host, "spotify.com".spec_bytes()) {
        Some(DownloadSource::Spotdl)
    } else if holds(host, "qobuz.com".spec_bytes()) {
        Some(DownloadSource::QobuzDlp)
    } else if holds(host, "bpmsupreme.com".spec_bytes()) {
        Some(DownloadSource::Pool(Pool::BpmSupreme))
    } else if holds(host, "clubkillers.com".spec_bytes()) {
        Some(DownloadSource::Pool(Pool::ClubKillers))
    } else if holds(host, "livedjservice.com".spec_bytes()) {
        Some(DownloadSource::Pool(Pool::LiveDjService))
    } else {
        None
    }
}

/// The routing rules, host by host: any host that holds `youtube.com`,
/// `youtu.be` or `soundcloud.com` (so `m.youtube.com` and
/// `music.youtube.com` too) goes to yt-dlp; otherwise one holding
/// `spotify.com` to spotdl, then `qobuz.com` to qobuz-dlp, then the three
/// record pools; a host holding none of these names has no tool.
pub proof fn law_host_rules(h: Seq<u8>)
    ensures
        holds(h, "youtube.com".spec_bytes()) ==> host_source(h) == Some(DownloadSource::YtDlp),
        holds(h, "youtu.be".spec_bytes()) ==> host_source(h) == Some(DownloadSource::YtDlp),
        holds(h, "soundcloud.com".spec_bytes()) ==> host_source(h) == Some(DownloadSource::YtDlp),
        ({
            let video = holds(h, "youtube.com".spec_bytes()) || holds(h, "youtu.be".spec_bytes())
                || holds(h, "soundcloud.com".spec_bytes());
            let spotify = holds(h, "spotify.com".spec_bytes());
            let qobuz = holds(h, "qobuz.com".spec_bytes());
            let bpm = holds(h, "bpmsupreme.com".spec_bytes());
            let ck = holds(h, "clubkillers.com".spec_bytes());
            let ldj = holds(h, "livedjservice.com".spec_bytes());
            &&& !video && spotify ==> host_source(h) == Some(DownloadSource::Spotdl)
            &&& !video && !spotify && qobuz ==> host_source(h) == Some(DownloadSource::QobuzDlp)
            &&& !video && !spotify && !qobuz && bpm ==> host_source(h) == Some(
                DownloadSource::Pool(Pool::BpmSupreme),
            )
            &&& !video && !spotify && !qobuz && !bpm && ck ==> host_source(h) == Some(
                DownloadSource::Pool(Pool::ClubKillers),
            )
            &&& !video && !spotify && !qobuz && !bpm && !ck && ldj ==> host_source(h) == Some(
                DownloadSource::Pool(Pool::LiveDjService),
            )
            &&& !video && !spotify && !qobuz && !bpm && !ck && !ldj ==> host_source(h) is None
        }),
{
}

/// The tool for a host name, if one is known for it.
pub fn source_for_host(host: &str) -> (r: Option<DownloadSource>)
    ensures
        r == host_source(host.spec_bytes()),
{
    let h = host.as_bytes();
    if contains_bytes(h, "youtube.com".as_bytes()) || contains_bytes(h, "youtu.be".as_bytes()) {
        Some(DownloadSource::YtDlp)
    } else if contains_bytes(h, "soundcloud.com".as_bytes()) {
        Some(DownloadSource::YtDlp)
    } else if contains_bytes(h, "spotify.com".as_bytes()) {
        Some(DownloadSource::Spotdl)
    } else if contains_bytes(h, "qobuz.com".as_bytes()) {
        Some(DownloadSource::QobuzDlp)
    } else if contains_bytes(h, "bpmsupreme.com".as_bytes()) {
        Some(DownloadSource::Pool(Pool::BpmSupreme))
    } else if contains_bytes(h, "clubkillers.com".as_bytes()) {
        Some(DownloadSource::Pool(Pool::ClubKillers))
    } else if contains_bytes(h, "livedjservice.com".as_bytes()) {
        Some(DownloadSource::Pool(Pool::LiveDjService))
    } else {
        None
    }
}

/// The lowercased host of an input that parses as a link (an empty host
/// when the link has none).
pub open spec fn input_host(input: Seq<char>) -> Option<Seq<u8>> {
    match parsed_url(input) {
        Some(p) => Some(
            encode_utf8(
                unicode_lowercase(
                    match p.1 {
                        Some(h) => h,
                        None => Seq::<char>::empty(),
                    },
                ),
            ),
        ),
        None => None,
    }
}

/// The tool that the routing rules pick for an input, or `None` for a search.
pub open spec fn routed_source(input: Seq<char>) -> Option<DownloadSource> {
    match input_host(input) {
        Some(h) => host_source(h),
        None => None,
    }
}

/// Picks the tool for a dropped input by the host of its link; input that
/// is no link (text without a `:` never is), or a link to any other host,
/// becomes a search for the input itself.
pub fn route(input: &str) -> (r: DownloadSource)
    ensures
        match routed_source(input@) {
            Some(s) => r == s,
            None => r matches DownloadSource::Search(q) && q@ == input@,
        },
        r matches DownloadSource::Search(q) ==> q@ == input@,
        !input@.contains(':') ==> (r matches DownloadSource::Search(q) && q@ == input@),
{
    if let Some(parts) = parse_url(input) {
        let host = match parts.host {
            Some(h) => h,
            None => String::new(),
        };
        let lower = to_lowercase(host.as_str());
        if let Some(s) = source_for_host(lower.as_str()) {
            return s;
        }
    }
    DownloadSource::Search(input.to_owned())
}

} // verus!
