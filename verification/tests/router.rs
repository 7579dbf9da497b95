use djdrop::router::{route, source_for_host, DownloadSource, Pool};

#[test] fn routes_youtube() { assert_eq!(route("https://www.youtube.com/watch?v=abc"), DownloadSource::YtDlp); }
#[test] fn routes_youtu_be() { assert_eq!(route("https://youtu.be/abc"), DownloadSource::YtDlp); }
#[test] fn routes_soundcloud() { assert_eq!(route("https://soundcloud.com/artist/track"), DownloadSource::YtDlp); }
#[test] fn routes_spotify() { assert_eq!(route("https://open.spotify.com/track/abc"), DownloadSource::Spotdl); }
#[test] fn routes_qobuz() { assert_eq!(route("https://www.qobuz.com/album/abc"), DownloadSource::QobuzDlp); }
#[test] fn routes_bpmsupreme() { assert_eq!(route("https://app.bpmsupreme.com/track/123"), DownloadSource::Pool(Pool::BpmSupreme)); }
#[test] fn routes_clubkillers() { assert_eq!(route("https://www.clubkillers.com/track/abc"), DownloadSource::Pool(Pool::ClubKillers)); }
#[test] fn routes_livedjservice() { assert_eq!(route("https://www.livedjservice.com/track/abc"), DownloadSource::Pool(Pool::LiveDjService)); }
#[test] fn routes_plain_text_to_search() { assert_eq!(route("Kendrick Lamar HUMBLE"), DownloadSource::Search("Kendrick Lamar HUMBLE".into())); }
#[test] fn routes_unknown_url_to_search() { assert_eq!(route("https://example.com/audio"), DownloadSource::Search("https://example.com/audio".into())); }

#[test]
fn routing_ignores_host_case_and_paths() {
    assert_eq!(route("HTTPS://WWW.YOUTUBE.COM/watch"), DownloadSource::YtDlp);
    assert_eq!(route("https://example.com/youtube.com"), DownloadSource::Search("https://example.com/youtube.com".into()));
    assert_eq!(route("mailto:someone@spotify.com"), DownloadSource::Search("mailto:someone@spotify.com".into()));
    assert_eq!(source_for_host("m.soundcloud.com"), Some(DownloadSource::YtDlp));
    assert_eq!(source_for_host(""), None);
}
