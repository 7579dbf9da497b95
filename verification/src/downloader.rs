//! Download planning: which program runs with which arguments, how its
//! output is read, and which file it produced.

use vstd::prelude::*;
use crate::router::DownloadSource;
use vstd::utf8::*;
use vstd::string::StringSliceAdditionalSpecFns;
use crate::text::{
    split_whitespace, starts_with, starts_with_bytes, strip_trailing, strip_trailing_char, words,
    append_str, is_white_space, is_whitespace, str_eq, to_lowercase, trim, trim_chars,
    unicode_lowercase,
};

verus! {

/// Download progress of a queued item.
pub struct ProgressPayload {
    pub id: String,
    pub percent: u8,
}

/// A finished download.
pub struct DonePayload {
    pub id: String,
    pub file_path: String,
    pub track_name: String,
    pub source: String,
}

/// A failed download.
pub struct ErrorPayload {
    pub id: String,
    pub message: String,
}

/// The views of a list of strings.
pub open spec fn string_views(v: Seq<String>) -> Seq<Seq<char>> {
    v.map_values(|s: String| s@)
}

/// yt-dlp's arguments.
pub open spec fn ytdlp_arg_list(url: Seq<char>, output_dir: Seq<char>) -> Seq<Seq<char>> {
    seq![
        "-x"@,
        "--audio-format"@,
        "mp3"@,
        "--audio-quality"@,
        "0"@,
        "-P"@,
        output_dir,
        "--print"@,
        "after_move:filepath"@,
        "--no-playlist"@,
        url,
    ]
}

/// spotdl's arguments.
pub open spec fn spotdl_arg_list(url: Seq<char>, output_dir: Seq<char>) -> Seq<Seq<char>> {
    seq![
        "download"@,
        url,
        "--output"@,
        output_dir,
        "--format"@,
        "mp3"@,
        "--bitrate"@,
        "320k"@,
    ]
}

/// qobuz-dlp's arguments.
pub open spec fn qobuz_arg_list(url: Seq<char>, output_dir: Seq<char>) -> Seq<Seq<char>> {
    seq![url, "-d"@, output_dir]
}

/// Arguments of yt-dlp: extract the audio as MP3 at the best quality into
/// `output_dir`, print the final file path, and fetch a single video.
pub fn ytdlp_args(url: &str, output_dir: &str) -> (r: Vec<String>)
    ensures
        string_views(r@) == ytdlp_arg_list(url@, output_dir@),
{
    let mut v: Vec<String> = Vec::new();
    v.push("-x".to_owned());
    v.push("--audio-format".to_owned());
    v.push("mp3".to_owned());
    v.push("--audio-quality".to_owned());
    v.push("0".to_owned());
    v.push("-P".to_owned());
    v.push(output_dir.to_owned());
    v.push("--print".to_owned());
    v.push("after_move:filepath".to_owned());
    v.push("--no-playlist".to_owned());
    v.push(url.to_owned());
    proof {
        assert(string_views(v@) =~= seq![
            "-x"@,
            "--audio-format"@,
            "mp3"@,
            "--audio-quality"@,
            "0"@,
            "-P"@,
            output_dir@,
            "--print"@,
            "after_move:filepath"@,
            "--no-playlist"@,
            url@,
        ]);
    }
    v
}

/// Arguments of spotdl: download `url` into `output_dir` as 320k MP3.
pub fn spotdl_args(url: &str, output_dir: &str) -> (r: Vec<String>)
    ensures
        string_views(r@) == spotdl_arg_list(url@, output_dir@),
{
    let mut v: Vec<String> = Vec::new();
    v.push("download".to_owned());
    v.push(url.to_owned());
    v.push("--output".to_owned());
    v.push(output_dir.to_owned());
    v.push("--format".to_owned());
    v.push("mp3".to_owned());
    v.push("--bitrate".to_owned());
    v.push("320k".to_owned());
    proof {
        assert(string_views(v@) =~= seq![
            "download"@,
            url@,
            "--output"@,
            output_dir@,
            "--format"@,
            "mp3"@,
            "--bitrate"@,
            "320k"@,
        ]);
    }
    v
}

/// Arguments of qobuz-dlp: download `url` into `output_dir`.  The account
/// is handed over in the environment, never as an argument.
pub fn qobuz_args(url: &str, output_dir: &str) -> (r: Vec<String>)
    ensures
        string_views(r@) == qobuz_arg_list(url@, output_dir@),
{
    let mut v: Vec<String> = Vec::new();
    v.push(url.to_owned());
    v.push("-d".to_owned());
    v.push(output_dir.to_owned());
    proof {
        assert(string_views(v@) =~= seq![url@, "-d"@, output_dir@]);
    }
    v
}

/// The download programs.
#[derive(Debug, Clone, Copy, PartialEq, Eq, Structural)]
pub enum DownloadTool {
    YtDlp,
    Spotdl,
    QobuzDlp,
}

impl DownloadTool {
    /// The program's name.
    pub open spec fn program_spec(self) -> Seq<char> {
        match self {
            DownloadTool::YtDlp => "yt-dlp"@,
            DownloadTool::Spotdl => "spotdl"@,
            DownloadTool::QobuzDlp => "qobuz-dlp"@,
        }
    }

    /// The program's name.
    pub fn program(&self) -> (r: &'static str)
        ensures
            r@ == self.program_spec(),
    {
        match self {
            DownloadTool::YtDlp => "yt-dlp",
            DownloadTool::Spotdl => "spotdl",
            DownloadTool::QobuzDlp => "qobuz-dlp",
        }
    }

    /// The source named in the finished-download report.
    pub fn source_label(&self) -> (r: &'static str)
        ensures
            r@ == match self {
                DownloadTool::YtDlp => "youtube"@,
                DownloadTool::Spotdl => "spotify"@,
                DownloadTool::QobuzDlp => "qobuz"@,
            },
    {
        match self {
            DownloadTool::YtDlp => "youtube",
            DownloadTool::Spotdl => "spotify",
            DownloadTool::QobuzDlp => "qobuz",
        }
    }

    /// The program's arguments for a download of `url` into `output_dir`.
    pub fn args(&self, url: &str, output_dir: &str) -> (r: Vec<String>)
        ensures
            string_views(r@) == match self {
                DownloadTool::YtDlp => ytdlp_arg_list(url@, output_dir@),
                DownloadTool::Spotdl => spotdl_arg_list(url@, output_dir@),
                DownloadTool::QobuzDlp => qobuz_arg_list(url@, output_dir@),
            },
    {
        match self {
            DownloadTool::YtDlp => ytdlp_args(url, output_dir),
            DownloadTool::Spotdl => spotdl_args(url, output_dir),
            DownloadTool::QobuzDlp => qobuz_args(url, output_dir),
        }
    }

    /// The error reported when the program exits unsuccessfully.
    pub fn exit_error(&self) -> (r: String)
        ensures
            r@ == self.program_spec() + " exited with error"@,
    {
        let mut m = self.program().to_owned();
        append_str(&mut m, " exited with error");
        m
    }
}

/// The programs that are run, by name: `yt-dlp` for links to yt-dlp's sites
/// and for searches, `spotdl` and `qobuz-dlp`; and a failed yt-dlp run is
/// reported in the same words whether `ytdlp_outcome` or the tool's
/// `exit_error` reports it.
pub proof fn law_tool_programs()
    ensures
        DownloadTool::YtDlp.program_spec() == "yt-dlp"@,
        DownloadTool::Spotdl.program_spec() == "spotdl"@,
        DownloadTool::QobuzDlp.program_spec() == "qobuz-dlp"@,
        DownloadTool::YtDlp.program_spec() + " exited with error"@ == "yt-dlp exited with error"@,
{
    reveal_strlit("yt-dlp");
    reveal_strlit(" exited with error");
    reveal_strlit("yt-dlp exited with error");
    assert("yt-dlp"@ + " exited with error"@ =~= "yt-dlp exited with error"@);
}

/// What to do with a dropped input once its source is known.
#[derive(Debug, PartialEq)]
pub enum DownloadPlan {
    /// Run `tool` on this link or query.
    Run(DownloadTool, String),
    /// Report this error.
    Fail(String),
}

/// Plans the download of `input` from `source`: links go to their tool as
/// they are, a search becomes yt-dlp's `ytsearch1:` query for the first
/// hit, and record pools fail because their sidecar is not connected.
pub fn plan_download(source: &DownloadSource, input: &str) -> (r: DownloadPlan)
    ensures
        match source {
            DownloadSource::YtDlp => r matches DownloadPlan::Run(DownloadTool::YtDlp, u) && u@
                == input@,
            DownloadSource::Spotdl => r matches DownloadPlan::Run(DownloadTool::Spotdl, u) && u@
                == input@,
            DownloadSource::QobuzDlp => r matches DownloadPlan::Run(DownloadTool::QobuzDlp, u)
                && u@ == input@,
            DownloadSource::Pool(_) => r matches DownloadPlan::Fail(m) && m@
                == "pool sidecar not connected"@,
            DownloadSource::Search(q) => r matches DownloadPlan::Run(DownloadTool::YtDlp, u) && u@
                == "ytsearch1:"@ + q@,
        },
{
    match source {
        DownloadSource::YtDlp => DownloadPlan::Run(DownloadTool::YtDlp, input.to_owned()),
        DownloadSource::Spotdl => DownloadPlan::Run(DownloadTool::Spotdl, input.to_owned()),
        DownloadSource::QobuzDlp => DownloadPlan::Run(DownloadTool::QobuzDlp, input.to_owned()),
        DownloadSource::Pool(_) => DownloadPlan::Fail("pool sidecar not connected".to_owned()),
        DownloadSource::Search(q) => {
            let mut u = "ytsearch1:".to_owned();
            append_str(&mut u, q.as_str());
            DownloadPlan::Run(DownloadTool::YtDlp, u)
        },
    }
}

/// Keeps the last non-empty line that yt-dlp printed, without surrounding
/// whitespace: that line is the downloaded file's path.
pub fn record_output_line(file_path: &mut String, line: &str)
    ensures
        trim_chars(line@).len() > 0 ==> final(file_path)@ == trim_chars(line@),
        trim_chars(line@).len() == 0 ==> final(file_path)@ == old(file_path)@,
        final(file_path)@ == recorded_path(old(file_path)@, seq![line@]),
{
    proof {
        reveal_with_fuel(recorded_path, 2);
        assert(seq![line@].drop_last() =~= Seq::<Seq<char>>::empty());
    }
    let t = trim(line);
    if !t.is_empty() {
        *file_path = t.to_owned();
    }
}

/// What `record_output_line` leaves in a path that held `start` once it has
/// been fed `lines` in order.
pub open spec fn recorded_path(start: Seq<char>, lines: Seq<Seq<char>>) -> Seq<char>
    decreases lines.len(),
{
    if lines.len() == 0 {
        start
    } else {
        let t = trim_chars(lines.last());
        if t.len() > 0 {
            t
        } else {
            recorded_path(start, lines.drop_last())
        }
    }
}

/// Feeding the lines one call at a time is feeding them all at once.
pub proof fn law_recorded_path_step(start: Seq<char>, lines: Seq<Seq<char>>, line: Seq<char>)
    ensures
        recorded_path(start, lines.push(line)) == recorded_path(
            recorded_path(start, lines),
            seq![line],
        ),
{
    reveal_with_fuel(recorded_path, 2);
    assert(lines.push(line).drop_last() =~= lines);
    assert(seq![line].drop_last() =~= Seq::<Seq<char>>::empty());
}

/// After a run of output lines the recorded path is the last line that is
/// not blank, without surrounding whitespace.
pub proof fn law_recorded_path_is_last_line(start: Seq<char>, lines: Seq<Seq<char>>, i: int)
    requires
        0 <= i < lines.len(),
        trim_chars(lines[i]).len() > 0,
        forall|j: int| i < j < lines.len() ==> #[trigger] trim_chars(lines[j]).len() == 0,
    ensures
        recorded_path(start, lines) == trim_chars(lines[i]),
    decreases lines.len(),
{
    if i < lines.len() - 1 {
        assert(trim_chars(lines[lines.len() - 1]).len() == 0);
        let init = lines.drop_last();
        assert forall|j: int| i < j < init.len() implies #[trigger] trim_chars(init[j]).len() == 0 by {
            assert(init[j] == lines[j]);
            assert(trim_chars(lines[j]).len() == 0);
        }
        law_recorded_path_is_last_line(start, init, i);
    }
}

/// Blank lines leave the recorded path as it was.
pub proof fn law_blank_lines_keep_the_path(start: Seq<char>, lines: Seq<Seq<char>>)
    requires
        forall|j: int| 0 <= j < lines.len() ==> #[trigger] trim_chars(lines[j]).len() == 0,
    ensures
        recorded_path(start, lines) == start,
    decreases lines.len(),
{
    if lines.len() > 0 {
        let init = lines.drop_last();
        assert(trim_chars(lines[lines.len() - 1]).len() == 0);
        assert forall|j: int| 0 <= j < init.len() implies #[trigger] trim_chars(init[j]).len() == 0 by {
            assert(init[j] == lines[j]);
            assert(trim_chars(lines[j]).len() == 0);
        }
        law_blank_lines_keep_the_path(start, init);
    }
}

/// How a yt-dlp run ended: a failed exit is an error, and so is a run that
/// printed no file path.
pub fn ytdlp_outcome(exited_ok: bool, file_path: &str) -> (r: Result<(), String>)
    ensures
        !exited_ok ==> (r matches Err(m) && m@ == "yt-dlp exited with error"@),
        exited_ok && file_path@.len() == 0 ==> (r matches Err(m) && m@
            == "yt-dlp did not report output filepath"@),
        exited_ok && file_path@.len() > 0 ==> r is Ok,
{
    if !exited_ok {
        return Err("yt-dlp exited with error".to_owned());
    }
    if file_path.is_empty() {
        return Err("yt-dlp did not report output filepath".to_owned());
    }
    Ok(())
}

/// The percentage text of a yt-dlp progress line: the line, without
/// surrounding whitespace, must start with `[download]`; its second word,
/// without trailing `%` signs, is the percentage.
pub open spec fn progress_text_spec(line: Seq<char>) -> Option<Seq<char>> {
    let t = trim_chars(line);
    if !starts_with(encode_utf8(t), "[download]".spec_bytes()) {
        None
    } else if words(t).len() < 2 {
        None
    } else {
        Some(strip_trailing(words(t)[1], '%'))
    }
}

/// The percentage written in a yt-dlp progress line such as
/// `[download]  42.3% of 5.00MiB` (here `42.3`); other lines have none.
pub fn ytdlp_progress_text(line: &str) -> (r: Option<String>)
    ensures
        match r {
            Some(t) => progress_text_spec(line@) == Some(t@),
            None => progress_text_spec(line@) is None,
        },
{
    let t = trim(line);
    if !starts_with_bytes(t.as_bytes(), "[download]".as_bytes()) {
        return None;
    }
    let ws = split_whitespace(t);
    if ws.len() < 2 {
        return None;
    }
    proof {
        assert(ws@.map_values(|w: String| w@)[1] == ws@[1]@);
    }
    Some(strip_trailing_char(ws[1].as_str(), '%'))
}

/// A file found in the output folder: its path, its extension as written
/// (empty when it has none), and its modification time in nanoseconds
/// relative to the Unix epoch when that could be read.
pub struct FileCandidate {
    pub path: String,
    pub extension: String,
    pub modified: Option<i128>,
}

/// The order of modification times: an unknown time comes before any known one.
pub open spec fn time_le(a: Option<i128>, b: Option<i128>) -> bool {
    match (a, b) {
        (None, _) => true,
        (Some(_), None) => false,
        (Some(x), Some(y)) => x <= y,
    }
}

fn time_le_exec(a: Option<i128>, b: Option<i128>) -> (r: bool)
    ensures
        r == time_le(a, b),
{
    match (a, b) {
        (None, _) => true,
        (Some(_), None) => false,
        (Some(x), Some(y)) => x <= y,
    }
}

/// The candidate's lowercased extension is one of `exts`.
pub open spec fn is_wanted(c: FileCandidate, exts: Seq<Seq<char>>) -> bool {
    exts.contains(unicode_lowercase(c.extension@))
}

/// `j` is the newest wanted candidate, and the last of them among equally new ones.
pub open spec fn is_newest(files: Seq<FileCandidate>, exts: Seq<Seq<char>>, j: int) -> bool {
    &&& 0 <= j < files.len()
    &&& is_wanted(files[j], exts)
    &&& forall|k: int|
        0 <= k < files.len() && is_wanted(files[k], exts) ==> time_le(
            files[k].modified,
            files[j].modified,
        )
    &&& forall|k: int|
        j < k < files.len() && is_wanted(files[k], exts) ==> !time_le(
            files[j].modified,
            files[k].modified,
        )
}

fn is_wanted_exec(c: &FileCandidate, exts: &[&str]) -> (r: bool)
    ensures
        r == is_wanted(*c, exts@.map_values(|e: &str| e@)),
{
    let lower = to_lowercase(c.extension.as_str());
    let ghost ev = exts@.map_values(|e: &str| e@);
    let mut i: usize = 0;
    while i < exts.len()
        invariant
            i <= exts@.len(),
            ev == exts@.map_values(|e: &str| e@),
            lower@ == unicode_lowercase(c.extension@),
            forall|k: int| 0 <= k < i ==> ev[k] != lower@,
        decreases exts@.len() - i,
    {
        if str_eq(exts[i], lower.as_str()) {
            proof {
                assert(ev[i as int] == lower@);
            }
            return true;
        }
        i = i + 1;
    }
    false
}

/// The newest of the files whose extension (lowercased) is one of `exts`;
/// among equally new ones the last.  It is an error when there is none.
pub fn newest_file_among(files: &Vec<FileCandidate>, exts: &[&str]) -> (r: Result<String, String>)
    ensures
        match r {
            Ok(p) => exists|j: int|
                is_newest(files@, exts@.map_values(|e: &str| e@), j) && p@ == files@[j].path@,
            Err(m) => m@ == "no audio file found in output dir"@ && forall|k: int|
                0 <= k < files@.len() ==> !is_wanted(files@[k], exts@.map_values(|e: &str| e@)),
        },
{
    let ghost ev = exts@.map_values(|e: &str| e@);
    let mut best: Option<usize> = None;
    let mut i: usize = 0;
    while i < files.len()
        invariant
            i <= files@.len(),
            ev == exts@.map_values(|e: &str| e@),
            match best {
                None => forall|k: int| 0 <= k < i ==> !is_wanted(files@[k], ev),
                Some(j) => {
                    &&& j < i
                    &&& is_wanted(files@[j as int], ev)
                    &&& forall|k: int|
                        0 <= k < i && is_wanted(files@[k], ev) ==> time_le(
                            files@[k].modified,
                            files@[j as int].modified,
                        )
                    &&& forall|k: int|
                        j < k < i && is_wanted(files@[k], ev) ==> !time_le(
                            files@[j as int].modified,
                            files@[k].modified,
                        )
                },
            },
        decreases files@.len() - i,
    {
        if is_wanted_exec(&files[i], exts) {
            match best {
                None => {
                    best = Some(i);
                },
                Some(j) => {
                    if time_le_exec(files[j].modified, files[i].modified) {
                        best = Some(i);
                    }
                },
            }
        }
        i = i + 1;
    }
    match best {
        Some(j) => {
            let p = files[j].path.clone();
            proof {
                assert(is_newest(files@, ev, j as int));
            }
            Ok(p)
        },
        None => Err("no audio file found in output dir".to_owned()),
    }
}

} // verus!
