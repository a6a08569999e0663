use tff::ffmpeg::{
    binary_from, classify_log_line, decoders_include_teletext, done_line, ffplay_position_text,
    ffplay_scrub_args, has_display_from, is_listing_divider, mpv_scrub_args, parse_encoders,
    parse_muxers, play_args, play_mpv_args, probe_args, probe_report, run_args, LogSeverity,
    ProbeChapter, ProbeStream,
};
use tff::graph::chapter::Seconds;
use tff::graph::stream::StreamKind;
use tff::player::{
    is_reply, mpv_frame_step, mpv_get_time_pos, mpv_seek_absolute, mpv_seek_relative,
    mpv_set_pause, mpv_toggle_pause, read_positions, CommandArg, CONNECT_TRIES,
};

fn seconds(text: &str, millis: i64) -> Seconds {
    Seconds { text: text.to_string(), millis }
}

#[test]
fn encoder_listing_is_parsed() {
    let text = "Encoders:\n V..... = Video\n A..... = Audio\n ------\n \
        V....D libx264              H.264\n A....D aac     AAC\r\n S..... srt  SubRip\n \
        D..... odd  nothing\n V.....\n\n VF libx265 wide\n";
    let found = parse_encoders(text);
    assert_eq!(
        found,
        vec![
            ("libx264".to_string(), StreamKind::Video),
            ("aac".to_string(), StreamKind::Audio),
            ("srt".to_string(), StreamKind::Subtitle),
            ("libx265".to_string(), StreamKind::Video),
        ]
    );
    assert!(parse_encoders("V..... libx264 H.264\n").is_empty(), "no divider, no entries");
    assert!(is_listing_divider("  --"));
    assert!(!is_listing_divider(" V--"));
}

#[test]
fn muxer_listing_is_parsed() {
    let text = "File formats:\n D. = Demuxing supported\n .E = Muxing supported\n --\n  \
        E matroska        Matroska\n DE mp4   MP4\n D  mov  QuickTime\n  E\n";
    assert_eq!(parse_muxers(text), vec!["matroska".to_string(), "mp4".to_string()]);
}

#[test]
fn teletext_and_displays_are_found() {
    assert!(decoders_include_teletext(" S..... libzvbi_teletextdec Libzvbi\n"));
    assert!(!decoders_include_teletext(" S..... srt SubRip\n"));
    assert!(has_display_from(true, false));
    assert!(has_display_from(false, true));
    assert!(!has_display_from(false, false));
}

#[test]
fn binaries_come_from_the_chosen_directory() {
    assert_eq!(binary_from("ffmpeg", None), "ffmpeg");
    for dir in ["/opt/ffmpeg", "/opt/ffmpeg/", "", "rel", "/"] {
        let expected =
            std::path::Path::new(dir).join("ffmpeg").to_string_lossy().into_owned();
        assert_eq!(binary_from("ffmpeg", Some(dir)), expected);
    }
}

#[test]
fn log_lines_are_classified_by_their_tag() {
    assert_eq!(classify_log_line("[mp4 @ 0x1] [warning] odd"), Some(LogSeverity::Warning));
    assert_eq!(classify_log_line("[error] bad"), Some(LogSeverity::Error));
    assert_eq!(classify_log_line("[fatal] worse"), Some(LogSeverity::Error));
    assert_eq!(classify_log_line("[panic] worst"), Some(LogSeverity::Error));
    assert_eq!(classify_log_line("an error, untagged"), None);
    assert_eq!(classify_log_line("[warning] before [error]"), Some(LogSeverity::Warning));
}

fn probe_stream(index: usize, codec_type: &str, codec_name: Option<&str>) -> ProbeStream {
    ProbeStream {
        index,
        codec_type: codec_type.to_string(),
        codec_name: codec_name.map(|s| s.to_string()),
        language: None,
    }
}

#[test]
fn probe_reports_are_read() {
    let streams = vec![
        probe_stream(0, "video", Some("h264")),
        probe_stream(1, "audio", Some("aac")),
        probe_stream(2, "subtitle", Some("srt")),
        probe_stream(3, "data", None),
    ];
    let chapters = vec![
        ProbeChapter {
            start: Some(seconds("0", 0)),
            end: Some(seconds("1.5", 1500)),
            title: Some("One".to_string()),
        },
        ProbeChapter { start: None, end: Some(seconds("2", 2000)), title: None },
        ProbeChapter { start: Some(seconds("2", 2000)), end: Some(seconds("3", 3000)), title: None },
    ];
    let Ok(found) = probe_report("in.mkv", &streams, &chapters) else { panic!("a probe") };
    let kinds: Vec<StreamKind> = found.streams.iter().map(|s| s.kind).collect();
    assert_eq!(
        kinds,
        vec![StreamKind::Video, StreamKind::Audio, StreamKind::Subtitle, StreamKind::Other]
    );
    assert_eq!(found.streams[3].codec, "?");
    assert_eq!(found.chapters.len(), 2, "a chapter without a time is left out");
    assert_eq!(found.chapters[0].title, "One");
    assert_eq!(found.chapters[1].title, "");
    assert!(!found.chapters[0].imported);

    let Err(e) = probe_report("in.mkv", &Vec::new(), &Vec::new()) else { panic!("nothing there") };
    assert_eq!(e, "ffprobe found no streams or chapters in 'in.mkv'");
}

#[test]
fn ffplay_positions_are_read() {
    assert_eq!(ffplay_position_text("   5.12 A-V: -0.021 fd=   0").as_deref(), Some("5.12"));
    assert_eq!(ffplay_position_text("nan M-V"), None);
    assert_eq!(ffplay_position_text("5.12"), None);
    assert_eq!(ffplay_position_text(""), None);
}

#[test]
fn players_get_their_arguments() {
    assert_eq!(
        mpv_scrub_args("in.mp4", "/tmp/s", &seconds("1.5", 1500), false),
        vec!["--input-ipc-server=/tmp/s", "--start=1.5", "--title=tff scrub", "in.mp4"]
    );
    assert_eq!(
        mpv_scrub_args("in.mp4", "/tmp/s", &seconds("0", 0), true),
        vec!["--input-ipc-server=/tmp/s", "--start=0", "--vo=tct", "--input-terminal=no", "in.mp4"]
    );
    assert_eq!(
        ffplay_scrub_args("in.mp4", &seconds("2", 2000)),
        vec!["-hide_banner", "-window_title", "tff scrub", "-ss", "2", "in.mp4"]
    );
}

#[test]
fn tools_get_their_arguments() {
    assert_eq!(
        probe_args("in.mkv"),
        vec!["-v", "error", "-show_streams", "-show_chapters", "-of", "json", "in.mkv"]
    );
    assert_eq!(play_mpv_args("p.mkv", false), vec!["--title=tff preview", "p.mkv"]);
    assert_eq!(play_mpv_args("p.mkv", true), vec!["--vo=tct", "p.mkv"]);
    assert_eq!(
        play_args("p.mkv"),
        vec!["-hide_banner", "-autoexit", "-window_title", "tff preview", "p.mkv"]
    );
    let args = vec!["-y".to_string(), "out.mkv".to_string()];
    assert_eq!(run_args(&args), vec!["-loglevel", "level", "-y", "out.mkv"]);
    assert_eq!(done_line(Some(0)), "__DONE__0");
    assert_eq!(done_line(Some(-22)), "__DONE__-22");
    assert_eq!(done_line(None), "__DONE__-1");
}

fn spelled(command: Vec<CommandArg>) -> Vec<String> {
    command
        .into_iter()
        .map(|a| match a {
            CommandArg::Word(w) => w,
            CommandArg::Time(t) => t.text,
            CommandArg::Switch(b) => format!("{b}"),
        })
        .collect()
}

#[test]
fn mpv_gets_its_commands() {
    assert_eq!(spelled(mpv_toggle_pause()), vec!["cycle", "pause"]);
    assert_eq!(spelled(mpv_set_pause(true)), vec!["set_property", "pause", "true"]);
    assert_eq!(spelled(mpv_frame_step(true)), vec!["frame-step"]);
    assert_eq!(spelled(mpv_frame_step(false)), vec!["frame-back-step"]);
    assert_eq!(spelled(mpv_seek_relative(true)), vec!["seek", "1", "relative+exact"]);
    assert_eq!(spelled(mpv_seek_relative(false)), vec!["seek", "-1", "relative+exact"]);
    assert_eq!(
        spelled(mpv_seek_absolute(&seconds("7.5", 7500))),
        vec!["seek", "7.5", "absolute"]
    );
    assert_eq!(spelled(mpv_get_time_pos()), vec!["get_property", "time-pos"]);
}

/// The pieces in which ffplay's output arrives do not matter.
#[test]
fn positions_are_read_piece_by_piece() {
    let output = "ffplay version 7\n  nan M-V\r   0.50 A-V\r   1.25 A-V\r   2.0";
    let (all, rest) = read_positions("", output);
    assert_eq!(all, vec!["0.50", "1.25"]);
    assert_eq!(rest, "   2.0");
    for cut in 0..output.len() {
        let (mut first, pending) = read_positions("", &output[..cut]);
        let (second, end) = read_positions(&pending, &output[cut..]);
        first.extend(second);
        assert_eq!(first, all);
        assert_eq!(end, rest);
    }
}

/// mpv's blank lines and events are passed over, and the socket is waited for.
#[test]
fn replies_are_told_from_events() {
    assert!(is_reply(false, None));
    assert!(!is_reply(false, Some("pause")));
    assert!(!is_reply(true, None));
    assert!(!is_reply(true, Some("pause")));
    assert_eq!(CONNECT_TRIES, 20);
}
