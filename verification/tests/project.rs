use tff::app::{App, Mode, Request};
use tff::fields::FieldMap;
use tff::graph::chapter::{
    chapters_ffmetadata, escape_ffmetadata, format_time, time_fields, Chapter, Seconds,
};
use tff::graph::node::{FilterName, ModifierKind};
use tff::graph::project::{load_project, LoadResult, ProbeResult, PROJECT_FORMAT_VERSION};
use tff::graph::stream::{StreamInfo, StreamKind};
use tff::graph::wire::{Endpoint, Target};
use tff::graph::Graph;

fn seconds(text: &str, millis: i64) -> Seconds {
    Seconds { text: text.to_string(), millis }
}

fn stream(index: usize, kind: StreamKind) -> StreamInfo {
    StreamInfo { index, kind, codec: "h264".to_string(), lang: Some("eng".to_string()) }
}

fn chapter() -> Chapter {
    Chapter::new(seconds("0", 0), seconds("9", 9000), "One".to_string())
}

fn sample() -> Graph {
    let mut graph = Graph::new();
    let out = graph.outputs[0].id;
    let id = graph.add_input("in.mkv".to_string(), vec![stream(0, StreamKind::Video)], vec![chapter()]);
    let trim = graph
        .add_modifier(ModifierKind::Filter { name: FilterName::Trim, fields: FieldMap::new() });
    graph.connect(Endpoint::Stream { node: id, stream_idx: 0 }, Target::ModifierIn(trim));
    graph.connect(Endpoint::ModifierOut(trim), Target::Output(out));
    graph.inputs[0].pos = (4, 9);
    graph
}

fn probed() -> ProbeResult {
    ProbeResult { streams: vec![stream(0, StreamKind::Video)], chapters: vec![chapter()] }
}

/// A saved graph is read back as it was.
#[test]
fn saved_graph_is_read_back() {
    let graph = sample();
    let file = graph.to_project_file();
    assert_eq!(file.version, PROJECT_FORMAT_VERSION);
    assert_eq!(file.inputs[0].streams.len(), 1, "the chapters' entry is not saved");
    let Ok(LoadResult { graph: back, missing_inputs }) =
        load_project("p.json", file, vec![Some(probed())])
    else {
        panic!("a readable project")
    };
    assert!(missing_inputs.is_empty());
    assert_eq!(back.next_id, graph.next_id);
    assert_eq!(back.wires, graph.wires);
    assert_eq!(back.inputs[0].id, graph.inputs[0].id);
    assert_eq!(back.inputs[0].pos, (4, 9));
    assert_eq!(back.inputs[0].streams.len(), 2);
    assert_eq!(back.inputs[0].streams[1].kind, StreamKind::Chapter);
    assert_eq!(back.outputs[0].path, "output.mkv");
    assert!(matches!(
        back.modifiers[0].kind,
        ModifierKind::Filter { name: FilterName::Trim, .. }
    ));
}

/// Files that are gone are reported, and what was known of them stays.
#[test]
fn missing_inputs_keep_what_was_saved() {
    let file = sample().to_project_file();
    let Ok(LoadResult { graph, missing_inputs }) = load_project("p.json", file, vec![None]) else {
        panic!("a readable project")
    };
    assert_eq!(missing_inputs, vec!["in.mkv".to_string()]);
    assert_eq!(graph.inputs[0].streams.len(), 2);
    assert_eq!(graph.inputs[0].streams[0].codec, "h264");
    assert_eq!(graph.inputs[0].chapters.len(), 1);
}

#[test]
fn other_versions_are_refused() {
    let mut file = sample().to_project_file();
    file.version = PROJECT_FORMAT_VERSION + 1;
    let Err(e) = load_project("p.json", file, vec![None]) else { panic!("a refusal") };
    assert!(e.contains("p.json"), "{e}");
}

#[test]
fn editor_saves_and_loads_projects() {
    let mut app = App::new(Vec::new(), Vec::new(), false);
    assert!(matches!(app.start_save_project(), Request::ListPaths(_)));
    assert!(matches!(app.mode, Mode::TextInput { .. }));
    app.cancel_text_input();
    app.project_saved("p.json", Ok(()));
    assert!(app.log.last().unwrap().contains("p.json"));
    app.project_saved("p.json", Err("disk full".to_string()));
    assert!(app.log.last().unwrap().contains("disk full"));

    assert!(matches!(app.start_load_project(), Request::ListPaths(_)));
    app.cancel_text_input();
    let file = sample().to_project_file();
    app.project_loaded("p.json", load_project("p.json", file, vec![None]));
    assert_eq!(app.graph.inputs.len(), 1);
    assert!(app.log.iter().any(|l| l.contains("in.mkv")), "{:?}", app.log);
    app.project_loaded("q.json", Err("not a project".to_string()));
    assert!(app.log.last().unwrap().contains("not a project"));
    assert_eq!(app.graph.inputs.len(), 1, "what is open stays open");
}

// ---------------------------------------------------------------------
// Times and chapters
// ---------------------------------------------------------------------

/// The worth of a time's fields, a base of sixty apart.
fn worth(input: &str) -> Option<f64> {
    let mut secs = 0.0;
    for field in time_fields(input)? {
        secs = secs * 60.0 + field.parse::<f64>().ok()?;
    }
    Some(secs)
}

#[test]
fn times_are_read_by_their_fields() {
    assert_eq!(worth("12.5"), Some(12.5));
    assert_eq!(worth(" 1:30 "), Some(90.0));
    assert_eq!(worth("01:02:03.5"), Some(3723.5));
    assert_eq!(worth(""), None);
    assert_eq!(worth("1:2:3:4"), None);
    assert_eq!(worth("1:"), None);
    assert_eq!(worth(":30"), None);
    assert_eq!(worth("soon"), None);
}

/// A formatted time reads as the time it was made of.
#[test]
fn formatted_times_read_back() {
    for millis in [0i64, 1, 999, 1000, 59_999, 61_500, 3_600_000, 359_999_999, 360_000_000] {
        let secs = millis as f64 / 1000.0;
        let text = format_time(&seconds(&format!("{secs}"), millis));
        let back = worth(&text).unwrap();
        assert_eq!((back * 1000.0).round() as i64, millis, "{text}");
    }
    assert_eq!(format_time(&seconds("3723.5", 3_723_500)), "01:02:03.500");
    assert_eq!(format_time(&seconds("-5", -5000)), "00:00:00");
    assert_eq!(format_time(&seconds("360000", 360_000_000)), "100:00:00");
}

#[test]
fn chapters_are_written_as_ffmetadata() {
    let chapters = vec![
        Chapter::new(seconds("0", 0), seconds("1.5", 1500), "a=b;c#d\\e\nf".to_string()),
        Chapter::imported(seconds("1.5", 1500), seconds("3", 3000), "Two".to_string()),
    ];
    assert_eq!(
        chapters_ffmetadata(&chapters),
        ";FFMETADATA1\n[CHAPTER]\nTIMEBASE=1/1000\nSTART=0\nEND=1500\n\
         title=a\\=b\\;c\\#d\\\\e\\\nf\n[CHAPTER]\nTIMEBASE=1/1000\nSTART=1500\nEND=3000\n\
         title=Two\n"
    );
    assert_eq!(escape_ffmetadata("plain"), "plain");
    assert_eq!(chapters_ffmetadata(&Vec::new()), ";FFMETADATA1\n");
}

/// What was escaped can be read back: a backslash makes the next character
/// plain.
#[test]
fn escaped_titles_read_back() {
    for title in ["plain", "a=b", "\\", "\\=\n;#", "x\\\\y"] {
        let mut back = String::new();
        let escaped = escape_ffmetadata(title);
        let mut chars = escaped.chars();
        while let Some(c) = chars.next() {
            back.push(if c == '\\' { chars.next().unwrap() } else { c });
        }
        assert_eq!(back, title);
    }
}
