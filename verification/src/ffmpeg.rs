//! What ffmpeg, ffprobe, ffplay and mpv print, and what they are run with.
use vstd::prelude::*;

use crate::graph::chapter::{opt_seconds, Chapter, ChapterView, Seconds, SecondsView};
use crate::graph::project::{ProbeResult, ProbeView};
use crate::graph::stream::{StreamInfo, StreamKind, StreamView};
use crate::text::{append_texts, begins, cat2, cat3, chars_of, contains, contains_spec, first_is, group_views, has_char, opt_copy, opt_text, signed_decimal, signed_number, split, split_spec, text_of, trim_start, trim_start_spec, views, words, words_spec};

verus! {

// ---------------------------------------------------------------------
// Listings
// ---------------------------------------------------------------------

/// Whether a line is the divider between a listing's legend and its entries:
/// a run of dashes, whose length differs between listings.
pub open spec fn divider(line: Seq<char>) -> bool {
    first_is(trim_start_spec(line), '-')
}

/// Whether a line is the divider between a listing's legend and its entries.
pub fn is_listing_divider(line: &str) -> (r: bool)
    ensures
        r == divider(line@),
{
    let t = trim_start(line);
    begins(t.as_str(), '-')
}

/// The kind that an encoder's flags begin with, for those that are offered.
pub open spec fn flag_kind(flags: Seq<char>) -> Option<StreamKind> {
    if first_is(flags, 'V') {
        Some(StreamKind::Video)
    } else if first_is(flags, 'A') {
        Some(StreamKind::Audio)
    } else if first_is(flags, 'S') {
        Some(StreamKind::Subtitle)
    } else {
        None
    }
}

/// The encoder that a line of the listing names.
pub open spec fn encoder_entry(line: Seq<char>) -> Option<(Seq<char>, StreamKind)> {
    let fields = words_spec(line);
    if fields.len() < 2 {
        None
    } else {
        match flag_kind(fields[0]) {
            Some(kind) => Some((fields[1], kind)),
            None => None,
        }
    }
}

/// The muxer that a line of the listing names: its flags hold an 'E'.
pub open spec fn muxer_entry(line: Seq<char>) -> Option<Seq<char>> {
    let fields = words_spec(line);
    if fields.len() < 2 || !fields[0].contains('E') {
        None
    } else {
        Some(fields[1])
    }
}

/// Whether one of the first `n` lines is the divider.
pub open spec fn divided(lines: Seq<Seq<char>>, n: int) -> bool
    decreases n,
{
    n > 0 && (divided(lines, n - 1) || divider(lines[n - 1]))
}

/// The encoders that the first `n` lines name behind the divider.
pub open spec fn encoders_upto(lines: Seq<Seq<char>>, n: int) -> Seq<(Seq<char>, StreamKind)>
    decreases n,
{
    if n <= 0 {
        Seq::empty()
    } else {
        let p = encoders_upto(lines, n - 1);
        if divided(lines, n - 1) {
            match encoder_entry(lines[n - 1]) {
                Some(e) => p.push(e),
                None => p,
            }
        } else {
            p
        }
    }
}

/// The muxers that the first `n` lines name behind the divider.
pub open spec fn muxers_upto(lines: Seq<Seq<char>>, n: int) -> Seq<Seq<char>>
    decreases n,
{
    if n <= 0 {
        Seq::empty()
    } else {
        let p = muxers_upto(lines, n - 1);
        if divided(lines, n - 1) {
            match muxer_entry(lines[n - 1]) {
                Some(name) => p.push(name),
                None => p,
            }
        } else {
            p
        }
    }
}

/// The views of a list of encoders.
pub open spec fn encoder_views(s: Seq<(String, StreamKind)>) -> Seq<(Seq<char>, StreamKind)> {
    Seq::new(s.len(), |i: int| (s[i].0@, s[i].1))
}

/// The encoders that `ffmpeg -encoders` lists, with what each encodes. Only
/// the first two fields of a line are read, so it does not matter how many
/// flag columns this build of ffmpeg prints.
pub fn parse_encoders(text: &str) -> (r: Vec<(String, StreamKind)>)
    ensures
        ({
            let lines = split_spec(text@, '\n');
            encoder_views(r@) == encoders_upto(lines, lines.len() as int)
        }),
{
    let lines = split(text, '\n');
    let ghost all = views(lines@);
    let mut started = false;
    let mut encoders: Vec<(String, StreamKind)> = Vec::new();
    let mut i: usize = 0;
    assert(encoder_views(encoders@) == Seq::<(Seq<char>, StreamKind)>::empty());
    while i < lines.len()
        invariant
            i <= lines@.len(),
            all == views(lines@),
            started == divided(all, i as int),
            encoder_views(encoders@) == encoders_upto(all, i as int),
        decreases lines@.len() - i,
    {
        let line = lines[i].as_str();
        assert(line@ == all[i as int]);
        if !started {
            if is_listing_divider(line) {
                started = true;
            }
        } else {
            let fields = words(line);
            if fields.len() >= 2 {
                let flags = fields[0].as_str();
                assert(flags@ == words_spec(line@)[0]);
                let kind = if begins(flags, 'V') {
                    Some(StreamKind::Video)
                } else if begins(flags, 'A') {
                    Some(StreamKind::Audio)
                } else if begins(flags, 'S') {
                    Some(StreamKind::Subtitle)
                } else {
                    None
                };
                if let Some(kind) = kind {
                    let ghost before = encoders@;
                    encoders.push((fields[1].clone(), kind));
                    assert(encoder_views(encoders@) == encoder_views(before).push(
                        (words_spec(line@)[1], kind),
                    ));
                }
            }
        }
        i += 1;
    }
    encoders
}

/// The muxers that `ffmpeg -muxers` lists.
pub fn parse_muxers(text: &str) -> (r: Vec<String>)
    ensures
        ({
            let lines = split_spec(text@, '\n');
            views(r@) == muxers_upto(lines, lines.len() as int)
        }),
{
    let lines = split(text, '\n');
    let ghost all = views(lines@);
    let mut started = false;
    let mut muxers: Vec<String> = Vec::new();
    let mut i: usize = 0;
    assert(views(muxers@) == Seq::<Seq<char>>::empty());
    while i < lines.len()
        invariant
            i <= lines@.len(),
            all == views(lines@),
            started == divided(all, i as int),
            views(muxers@) == muxers_upto(all, i as int),
        decreases lines@.len() - i,
    {
        broadcast use group_views;

        let line = lines[i].as_str();
        assert(line@ == all[i as int]);
        if !started {
            if is_listing_divider(line) {
                started = true;
            }
        } else {
            let fields = words(line);
            if fields.len() >= 2 {
                assert(fields@[0]@ == words_spec(line@)[0]);
                if has_char(fields[0].as_str(), 'E') {
                    muxers.push(fields[1].clone());
                }
            }
        }
        i += 1;
    }
    muxers
}

/// Whether `ffmpeg -decoders` lists the teletext decoder.
pub fn decoders_include_teletext(decoders_output: &str) -> (r: bool)
    ensures
        r == contains_spec(decoders_output@, "libzvbi_teletextdec"@),
{
    contains(decoders_output, "libzvbi_teletextdec")
}

/// Whether a display is there to open a window on: X11's or Wayland's.
pub fn has_display_from(has_display_var: bool, has_wayland_display_var: bool) -> (r: bool)
    ensures
        r == (has_display_var || has_wayland_display_var),
{
    has_display_var || has_wayland_display_var
}

/// Which program to run for a tool: the one of that name in a chosen
/// directory, or else the name alone, for the search path to resolve.
pub open spec fn binary_path(name: Seq<char>, dir: Option<Seq<char>>) -> Seq<char> {
    match dir {
        Some(d) => if d.len() == 0 || (name.len() > 0 && name[0] == '/') {
            name
        } else if d.last() == '/' {
            d + name
        } else {
            d + "/"@ + name
        },
        None => name,
    }
}

/// Which program to run for a tool.
pub fn binary_from(name: &str, ffmpeg_dir: Option<&str>) -> (r: String)
    ensures
        r@ == binary_path(
            name@,
            match ffmpeg_dir {
                Some(d) => Some(d@),
                None => None,
            },
        ),
{
    match ffmpeg_dir {
        Some(d) => {
            let v = chars_of(d);
            if v.len() == 0 || begins(name, '/') {
                name.to_owned()
            } else if v[v.len() - 1] == '/' {
                cat2(d, name)
            } else {
                cat3(d, "/", name)
            }
        },
        None => name.to_owned(),
    }
}

// ---------------------------------------------------------------------
// Log lines
// ---------------------------------------------------------------------

/// How severe ffmpeg says that a log line is.
#[derive(Clone, Copy, PartialEq, Eq, Debug, Structural)]
pub enum LogSeverity {
    Warning,
    Error,
}

/// How severe a log line is, by the level tag that it carries.
pub open spec fn severity(line: Seq<char>) -> Option<LogSeverity> {
    if contains_spec(line, "[warning]"@) {
        Some(LogSeverity::Warning)
    } else if contains_spec(line, "[error]"@) || contains_spec(line, "[fatal]"@) || contains_spec(
        line,
        "[panic]"@,
    ) {
        Some(LogSeverity::Error)
    } else {
        None
    }
}

/// How severe a log line is, by the level tag that it carries.
pub fn classify_log_line(line: &str) -> (r: Option<LogSeverity>)
    ensures
        r == severity(line@),
{
    if contains(line, "[warning]") {
        Some(LogSeverity::Warning)
    } else if contains(line, "[error]") || contains(line, "[fatal]") || contains(line, "[panic]") {
        Some(LogSeverity::Error)
    } else {
        None
    }
}

// ---------------------------------------------------------------------
// Probing
// ---------------------------------------------------------------------

/// A stream as ffprobe reports it.
pub struct ProbeStream {
    pub index: usize,
    pub codec_type: String,
    pub codec_name: Option<String>,
    pub language: Option<String>,
}

pub struct ProbeStreamView {
    pub index: usize,
    pub codec_type: Seq<char>,
    pub codec_name: Option<Seq<char>>,
    pub language: Option<Seq<char>>,
}

impl View for ProbeStream {
    type V = ProbeStreamView;

    open spec fn view(&self) -> ProbeStreamView {
        ProbeStreamView {
            index: self.index,
            codec_type: self.codec_type@,
            codec_name: opt_text(self.codec_name),
            language: opt_text(self.language),
        }
    }
}

/// A chapter as ffprobe reports it; a time that does not read as a number is
/// `None`.
pub struct ProbeChapter {
    pub start: Option<Seconds>,
    pub end: Option<Seconds>,
    pub title: Option<String>,
}

pub struct ProbeChapterView {
    pub start: Option<SecondsView>,
    pub end: Option<SecondsView>,
    pub title: Option<Seq<char>>,
}

impl View for ProbeChapter {
    type V = ProbeChapterView;

    open spec fn view(&self) -> ProbeChapterView {
        ProbeChapterView {
            start: opt_seconds(self.start),
            end: opt_seconds(self.end),
            title: opt_text(self.title),
        }
    }
}

/// The stream that ffprobe reports.
pub open spec fn probed_stream(s: ProbeStreamView) -> StreamView {
    StreamView {
        index: s.index,
        kind: StreamKind::of_codec_type_spec(s.codec_type),
        codec: match s.codec_name {
            Some(name) => name,
            None => "?"@,
        },
        lang: s.language,
    }
}

/// Those of the first `n` chapters that have both times.
pub open spec fn probed_chapters_upto(s: Seq<ProbeChapterView>, n: int) -> Seq<ChapterView>
    decreases n,
{
    if n <= 0 {
        Seq::empty()
    } else {
        let p = probed_chapters_upto(s, n - 1);
        match (s[n - 1].start, s[n - 1].end) {
            (Some(start), Some(end)) => p.push(
                ChapterView {
                    start_secs: start,
                    end_secs: end,
                    title: match s[n - 1].title {
                        Some(t) => t,
                        None => Seq::empty(),
                    },
                    imported: false,
                },
            ),
            _ => p,
        }
    }
}

/// What ffprobe's report says of a file.
pub open spec fn probed(streams: Seq<ProbeStreamView>, chapters: Seq<ProbeChapterView>) -> ProbeView {
    ProbeView {
        streams: Seq::new(streams.len(), |i: int| probed_stream(streams[i])),
        chapters: probed_chapters_upto(chapters, chapters.len() as int),
    }
}

/// What ffprobe's report says of a file. It is an error for it to report
/// neither streams nor chapters.
pub fn probe_report(path: &str, streams: &Vec<ProbeStream>, chapters: &Vec<ProbeChapter>) -> (r:
    Result<ProbeResult, String>)
    ensures
        match r {
            Ok(p) => (streams@.len() > 0 || chapters@.len() > 0) && p@ == probed(
                views(streams@),
                views(chapters@),
            ),
            Err(e) => streams@.len() == 0 && chapters@.len() == 0 && e@
                == "ffprobe found no streams or chapters in '"@ + path@ + "'"@,
        },
{
    if streams.len() == 0 && chapters.len() == 0 {
        return Err(cat3("ffprobe found no streams or chapters in '", path, "'"));
    }
    let mut out_streams: Vec<StreamInfo> = Vec::new();
    let mut i: usize = 0;
    while i < streams.len()
        invariant
            i <= streams@.len(),
            out_streams@.len() == i,
            forall|k: int|
                0 <= k < i ==> (#[trigger] out_streams@[k])@ == probed_stream(views(streams@)[k]),
        decreases streams@.len() - i,
    {
        let s = &streams[i];
        let codec = match &s.codec_name {
            Some(name) => name.clone(),
            None => "?".to_owned(),
        };
        out_streams.push(
            StreamInfo {
                index: s.index,
                kind: StreamKind::of_codec_type(s.codec_type.as_str()),
                codec,
                lang: opt_copy(&s.language),
            },
        );
        i += 1;
    }
    let mut out_chapters: Vec<Chapter> = Vec::new();
    let mut k: usize = 0;
    assert(views(out_chapters@) == Seq::<ChapterView>::empty());
    while k < chapters.len()
        invariant
            k <= chapters@.len(),
            views(out_chapters@) == probed_chapters_upto(views(chapters@), k as int),
        decreases chapters@.len() - k,
    {
        broadcast use group_views;

        let c = &chapters[k];
        if let Some(start) = &c.start {
            if let Some(end) = &c.end {
                let title = match &c.title {
                    Some(t) => t.clone(),
                    None => String::new(),
                };
                out_chapters.push(Chapter::new(start.clone(), end.clone(), title));
            }
        }
        k += 1;
    }
    let r = ProbeResult { streams: out_streams, chapters: out_chapters };
    assert(r@ =~= probed(views(streams@), views(chapters@)));
    Ok(r)
}

/// Every stream is reported as what it is: by its own index, as the kind that
/// its codec type names, with its codec and its language.
pub proof fn reported_streams_are_probed(
    streams: Seq<ProbeStreamView>,
    chapters: Seq<ProbeChapterView>,
    i: int,
)
    requires
        0 <= i < streams.len(),
    ensures
        ({
            let all = probed(streams, chapters).streams;
            let s = all[i];
            let reported = streams[i];
            &&& all.len() == streams.len()
            &&& s.index == reported.index
            &&& s.lang == reported.language
            &&& reported.codec_name matches Some(name) ==> s.codec == name
            &&& s.kind == StreamKind::Video <==> reported.codec_type == "video"@
            &&& s.kind == StreamKind::Audio <==> reported.codec_type == "audio"@
            &&& s.kind == StreamKind::Subtitle <==> reported.codec_type == "subtitle"@
            &&& s.kind != StreamKind::Chapter
        }),
{
    reveal_strlit("video");
    reveal_strlit("audio");
    reveal_strlit("subtitle");
    assert("video"@[0] == 'v' && "audio"@[0] == 'a' && "subtitle"@[0] == 's');
}

/// Whether a reported chapter has both of its times.
pub open spec fn timed(c: ProbeChapterView) -> bool {
    c.start is Some && c.end is Some
}

proof fn lemma_chapters_probed(s: Seq<ProbeChapterView>, n: int) -> (at: Seq<int>)
    requires
        0 <= n <= s.len(),
    ensures
        at.len() == probed_chapters_upto(s, n).len(),
        forall|k: int|
            0 <= k < at.len() ==> 0 <= #[trigger] at[k] < n && timed(s[at[k]]) && same_chapter(
                probed_chapters_upto(s, n)[k],
                s[at[k]],
            ),
        forall|k: int, l: int| 0 <= k < l < at.len() ==> #[trigger] at[k] < #[trigger] at[l],
        forall|j: int| 0 <= j < n && timed(#[trigger] s[j]) ==> at.contains(j),
    decreases n,
{
    if n == 0 {
        Seq::empty()
    } else {
        let before = lemma_chapters_probed(s, n - 1);
        let old = probed_chapters_upto(s, n - 1);
        let now = probed_chapters_upto(s, n);
        if timed(s[n - 1]) {
            let at = before.push(n - 1);
            assert forall|k: int| 0 <= k < at.len() implies 0 <= #[trigger] at[k] < n && timed(
                s[at[k]],
            ) && same_chapter(now[k], s[at[k]]) by {
                if k < before.len() {
                    assert(at[k] == before[k]);
                    assert(now[k] == old[k]);
                }
            }
            assert forall|j: int| 0 <= j < n && timed(#[trigger] s[j]) implies at.contains(j) by {
                if j < n - 1 {
                    let k = choose|k: int| 0 <= k < before.len() && before[k] == j;
                    assert(at[k] == j);
                } else {
                    assert(at[before.len() as int] == j);
                }
            }
            at
        } else {
            before
        }
    }
}

/// A probed chapter says what was reported: it starts at the reported start,
/// ends at the reported end, and has the reported title, or none.
pub open spec fn same_chapter(c: ChapterView, reported: ProbeChapterView) -> bool {
    &&& reported.start == Some(c.start_secs)
    &&& reported.end == Some(c.end_secs)
    &&& c.title == (match reported.title {
        Some(t) => t,
        None => Seq::empty(),
    })
    &&& !c.imported
}

/// The chapters of a file are the reported ones that have both times, each
/// with its own times and title, in the order in which they were reported.
pub proof fn reported_chapters_are_probed(
    streams: Seq<ProbeStreamView>,
    chapters: Seq<ProbeChapterView>,
) -> (at: Seq<int>)
    ensures
        at.len() == probed(streams, chapters).chapters.len(),
        forall|k: int|
            0 <= k < at.len() ==> 0 <= #[trigger] at[k] < chapters.len() && same_chapter(
                probed(streams, chapters).chapters[k],
                chapters[at[k]],
            ),
        forall|k: int, l: int| 0 <= k < l < at.len() ==> #[trigger] at[k] < #[trigger] at[l],
        forall|j: int| 0 <= j < chapters.len() && timed(#[trigger] chapters[j]) ==> at.contains(j),
{
    lemma_chapters_probed(chapters, chapters.len() as int)
}

// ---------------------------------------------------------------------
// Players
// ---------------------------------------------------------------------

/// Whether a character can stand in ffplay's position.
pub open spec fn position_char(c: char) -> bool {
    ('0' <= c && c <= '9') || c == '.'
}

/// The first position from `i` on of a character that ends ffplay's position.
pub open spec fn position_end(s: Seq<char>, i: int) -> Option<int>
    decreases s.len() - i,
{
    if i >= s.len() {
        None
    } else if !position_char(s[i]) {
        Some(i)
    } else {
        position_end(s, i + 1)
    }
}

/// The number that a fragment of ffplay's status output begins with; `None`
/// for any other output.
pub open spec fn position_text(fragment: Seq<char>) -> Option<Seq<char>> {
    let s = trim_start_spec(fragment);
    match position_end(s, 0) {
        Some(end) => if end == 0 {
            None
        } else {
            Some(s.subrange(0, end))
        },
        None => None,
    }
}

/// The number that a fragment of ffplay's status output begins with; `None`
/// for any other output.
pub fn ffplay_position_text(fragment: &str) -> (r: Option<String>)
    ensures
        opt_text(r) == position_text(fragment@),
{
    let t = trim_start(fragment);
    let v = chars_of(t.as_str());
    let mut i: usize = 0;
    while i < v.len()
        invariant
            i <= v@.len(),
            v@ == trim_start_spec(fragment@),
            position_end(v@, 0) == position_end(v@, i as int),
        decreases v@.len() - i,
    {
        let c = v[i];
        let part = ('0' <= c && c <= '9') || c == '.';
        if !part {
            if i == 0 {
                return None;
            }
            return Some(text_of(&v, 0, i));
        }
        i += 1;
    }
    None
}

/// The arguments that scrub a file in mpv: with its commands on a socket,
/// from a start time on, in a window of its own or else in the terminal.
pub open spec fn mpv_scrub_args_spec(
    path: Seq<char>,
    socket: Seq<char>,
    start: Seq<char>,
    headless: bool,
) -> Seq<Seq<char>> {
    seq!["--input-ipc-server="@ + socket, "--start="@ + start] + (if headless {
        seq!["--vo=tct"@, "--input-terminal=no"@]
    } else {
        seq!["--title=tff scrub"@]
    }) + seq![path]
}

/// The arguments that scrub a file in mpv.
pub fn mpv_scrub_args(path: &str, socket: &str, start: &Seconds, headless: bool) -> (r: Vec<String>)
    ensures
        views(r@) == mpv_scrub_args_spec(path@, socket@, start@.text, headless),
{
    let mut args = vec![
        cat2("--input-ipc-server=", socket),
        cat2("--start=", start.text.as_str()),
    ];
    if headless {
        args.push("--vo=tct".to_owned());
        args.push("--input-terminal=no".to_owned());
    } else {
        args.push("--title=tff scrub".to_owned());
    }
    args.push(path.to_owned());
    assert(views(args@) == mpv_scrub_args_spec(path@, socket@, start@.text, headless));
    args
}

/// The arguments that scrub a file in ffplay, from a start time on.
pub fn ffplay_scrub_args(path: &str, start: &Seconds) -> (r: Vec<String>)
    ensures
        views(r@) == seq![
            "-hide_banner"@,
            "-window_title"@,
            "tff scrub"@,
            "-ss"@,
            start@.text,
            path@,
        ],
{
    let args = vec![
        "-hide_banner".to_owned(),
        "-window_title".to_owned(),
        "tff scrub".to_owned(),
        "-ss".to_owned(),
        start.text.clone(),
        path.to_owned(),
    ];
    assert(views(args@) == seq![
        "-hide_banner"@,
        "-window_title"@,
        "tff scrub"@,
        "-ss"@,
        start@.text,
        path@,
    ]);
    args
}

// ---------------------------------------------------------------------
// Running the tools
// ---------------------------------------------------------------------

/// The arguments that ffprobe reports a file's streams and chapters with, as
/// JSON.
pub fn probe_args(path: &str) -> (r: Vec<String>)
    ensures
        views(r@) == seq![
            "-v"@,
            "error"@,
            "-show_streams"@,
            "-show_chapters"@,
            "-of"@,
            "json"@,
            path@,
        ],
{
    let args = vec![
        "-v".to_owned(),
        "error".to_owned(),
        "-show_streams".to_owned(),
        "-show_chapters".to_owned(),
        "-of".to_owned(),
        "json".to_owned(),
        path.to_owned(),
    ];
    assert(views(args@) == seq![
        "-v"@,
        "error"@,
        "-show_streams"@,
        "-show_chapters"@,
        "-of"@,
        "json"@,
        path@,
    ]);
    args
}

/// The arguments that mpv plays a preview with: in a window of its own, or
/// else in the terminal.
pub fn play_mpv_args(path: &str, headless: bool) -> (r: Vec<String>)
    ensures
        views(r@) == seq![
            if headless {
                "--vo=tct"@
            } else {
                "--title=tff preview"@
            },
            path@,
        ],
{
    let how = if headless {
        "--vo=tct"
    } else {
        "--title=tff preview"
    };
    let args = vec![how.to_owned(), path.to_owned()];
    assert(views(args@) == seq![how@, path@]);
    args
}

/// The arguments that ffplay plays a preview with, to its end.
pub fn play_args(path: &str) -> (r: Vec<String>)
    ensures
        views(r@) == seq![
            "-hide_banner"@,
            "-autoexit"@,
            "-window_title"@,
            "tff preview"@,
            path@,
        ],
{
    let args = vec![
        "-hide_banner".to_owned(),
        "-autoexit".to_owned(),
        "-window_title".to_owned(),
        "tff preview".to_owned(),
        path.to_owned(),
    ];
    assert(views(args@) == seq![
        "-hide_banner"@,
        "-autoexit"@,
        "-window_title"@,
        "tff preview"@,
        path@,
    ]);
    args
}

/// The arguments that ffmpeg is run with for a command line: with each log
/// line tagged with its level, as `classify_log_line` reads it.
pub fn run_args(args: &Vec<String>) -> (r: Vec<String>)
    ensures
        views(r@) == seq!["-loglevel"@, "level"@] + views(args@),
{
    let mut all = vec!["-loglevel".to_owned(), "level".to_owned()];
    assert(views(all@) == seq!["-loglevel"@, "level"@]);
    append_texts(&mut all, args);
    all
}

/// What a line that ends a run starts with. The exit code follows.
pub open spec fn done_mark() -> Seq<char> {
    "__DONE__"@
}

/// The line that ends a run, by its exit code. A run that was ended by a
/// signal has none.
pub fn done_line(code: Option<i32>) -> (r: String)
    ensures
        r@ == done_mark() + signed_decimal(
            match code {
                Some(c) => c as int,
                None => -1,
            },
        ),
{
    let n: i64 = match code {
        Some(c) => c as i64,
        None => -1,
    };
    let text = signed_number(n);
    cat2("__DONE__", text.as_str())
}

/// A listing without a divider names nothing.
pub proof fn listing_without_divider_is_empty(lines: Seq<Seq<char>>, n: int)
    requires
        0 <= n <= lines.len(),
        forall|i: int| 0 <= i < lines.len() ==> !divider(#[trigger] lines[i]),
    ensures
        !divided(lines, n),
        encoders_upto(lines, n).len() == 0,
        muxers_upto(lines, n).len() == 0,
    decreases n,
{
    if n > 0 {
        listing_without_divider_is_empty(lines, n - 1);
    }
}

} // verus!
