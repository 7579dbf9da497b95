use djdrop::downloader::{
    newest_file_among, plan_download, qobuz_args, record_output_line, spotdl_args,
    ytdlp_args, ytdlp_outcome, ytdlp_progress_text, DownloadPlan, DownloadTool, FileCandidate,
};
use djdrop::router::{DownloadSource, Pool};

fn parse_ytdlp_progress(line: &str) -> Option<u8> {
    ytdlp_progress_text(line).and_then(|t| t.parse::<f64>().ok()).map(|f| f as u8)
}

#[test]
fn ytdlp_args_include_mp3_flags() {
    let args = ytdlp_args("https://youtube.com/watch?v=x", "/tmp/out");
    assert!(args.contains(&"--audio-format".to_string()));
    assert!(args.contains(&"mp3".to_string()));
    assert!(args.contains(&"--audio-quality".to_string()));
    assert!(args.contains(&"0".to_string()));
    assert!(args.contains(&"-P".to_string()));
    assert!(args.contains(&"/tmp/out".to_string()));
}

#[test]
fn spotdl_args_include_320k() {
    let args = spotdl_args("https://open.spotify.com/track/x", "/tmp/out");
    assert!(args.contains(&"320k".to_string()));
    assert!(args.contains(&"mp3".to_string()));
}

#[test]
fn qobuz_args_include_url() {
    let args = qobuz_args("https://www.qobuz.com/album/x", "/tmp/out");
    assert!(args.contains(&"https://www.qobuz.com/album/x".to_string()));
}

#[test]
fn parse_progress_extracts_percent() {
    assert_eq!(parse_ytdlp_progress("[download]  42.3% of 5.00MiB"), Some(42));
    assert_eq!(parse_ytdlp_progress("[download] 100% of 5.00MiB"), Some(100));
    assert_eq!(parse_ytdlp_progress("[info] Writing thumbnail"), None);
}

#[test]
fn progress_text_cases() {
    assert_eq!(ytdlp_progress_text("  [download]   7.0%%  of x\n"), Some("7.0".to_string()));
    assert_eq!(ytdlp_progress_text("[download]"), None);
    assert_eq!(ytdlp_progress_text("[download]Destination: a.mp3"), Some("a.mp3".to_string()));
    assert_eq!(ytdlp_progress_text("[download]x 5%"), Some("5".to_string()));
}

#[test]
fn argument_lists_are_exact() {
    assert_eq!(
        ytdlp_args("u", "d"),
        vec!["-x", "--audio-format", "mp3", "--audio-quality", "0", "-P", "d", "--print",
             "after_move:filepath", "--no-playlist", "u"]
    );
    assert_eq!(spotdl_args("u", "d"), vec!["download", "u", "--output", "d", "--format", "mp3", "--bitrate", "320k"]);
    assert_eq!(qobuz_args("u", "d"), vec!["u", "-d", "d"]);
    assert_eq!(DownloadTool::QobuzDlp.args("u", "d"), vec!["u", "-d", "d"]);
    assert_eq!(DownloadTool::Spotdl.program(), "spotdl");
    assert_eq!(DownloadTool::YtDlp.source_label(), "youtube");
    assert_eq!(DownloadTool::QobuzDlp.exit_error(), "qobuz-dlp exited with error");
}

#[test]
fn download_plans() {
    assert_eq!(plan_download(&DownloadSource::YtDlp, "u"), DownloadPlan::Run(DownloadTool::YtDlp, "u".to_string()));
    assert_eq!(plan_download(&DownloadSource::Spotdl, "u"), DownloadPlan::Run(DownloadTool::Spotdl, "u".to_string()));
    assert_eq!(plan_download(&DownloadSource::QobuzDlp, "u"), DownloadPlan::Run(DownloadTool::QobuzDlp, "u".to_string()));
    assert_eq!(
        plan_download(&DownloadSource::Pool(Pool::ClubKillers), "u"),
        DownloadPlan::Fail("pool sidecar not connected".to_string())
    );
    assert_eq!(
        plan_download(&DownloadSource::Search("Kendrick Lamar HUMBLE".to_string()), "Kendrick Lamar HUMBLE"),
        DownloadPlan::Run(DownloadTool::YtDlp, "ytsearch1:Kendrick Lamar HUMBLE".to_string())
    );
}

#[test]
fn output_keeps_last_nonempty_line() {
    let mut p = String::new();
    record_output_line(&mut p, "/music/a.mp3\n");
    record_output_line(&mut p, "   ");
    assert_eq!(p, "/music/a.mp3");
    record_output_line(&mut p, " /music/b.mp3 ");
    assert_eq!(p, "/music/b.mp3");
    assert_eq!(ytdlp_outcome(false, "/x"), Err("yt-dlp exited with error".to_string()));
    assert_eq!(ytdlp_outcome(true, ""), Err("yt-dlp did not report output filepath".to_string()));
    assert_eq!(ytdlp_outcome(true, "/x"), Ok(()));
}

fn cand(path: &str, ext: &str, t: Option<i128>) -> FileCandidate {
    FileCandidate { path: path.to_string(), extension: ext.to_string(), modified: t }
}

#[test]
fn newest_matching_file_is_picked() {
    let files = vec![
        cand("a.mp3", "mp3", Some(10)),
        cand("b.flac", "flac", Some(30)),
        cand("c.MP3", "MP3", Some(20)),
        cand("d.txt", "txt", Some(99)),
        cand("e.mp3", "mp3", None),
    ];
    assert_eq!(newest_file_among(&files, &["mp3"]), Ok("c.MP3".to_string()));
    assert_eq!(newest_file_among(&files, &["flac", "mp3"]), Ok("b.flac".to_string()));
    let ties = vec![cand("x.mp3", "mp3", Some(5)), cand("y.mp3", "mp3", Some(5))];
    assert_eq!(newest_file_among(&ties, &["mp3"]), Ok("y.mp3".to_string()));
    assert_eq!(newest_file_among(&files, &["wav"]), Err("no audio file found in output dir".to_string()));
    assert_eq!(newest_file_among(&Vec::new(), &["mp3"]), Err("no audio file found in output dir".to_string()));
}
