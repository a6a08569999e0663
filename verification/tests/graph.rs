use tff::fields::{FieldMap, FlagSet};
use tff::graph::args::ChapterFile;
use tff::graph::chapter::{Chapter, ChapterSource, Seconds};
use tff::graph::node::{FilterName, ModifierKind, Numeral};
use tff::graph::resolve::Resolved;
use tff::graph::stream::{Codec, StreamInfo, StreamKind};
use tff::graph::wire::{Endpoint, EndpointSet, NodeId, Target};
use tff::graph::Graph;

fn stream(index: usize, kind: StreamKind, codec: &str) -> StreamInfo {
    StreamInfo { index, kind, codec: codec.to_string(), lang: None }
}

fn video_stream() -> Vec<StreamInfo> {
    vec![stream(0, StreamKind::Video, "h264")]
}

fn video_audio_streams() -> Vec<StreamInfo> {
    vec![stream(0, StreamKind::Video, "h264"), stream(1, StreamKind::Audio, "aac")]
}

fn metadata_fields(pairs: &[(&str, &str)]) -> FieldMap {
    let mut fields = FieldMap::new();
    for (k, v) in pairs {
        fields.insert(k.to_string(), v.to_string());
    }
    fields
}

fn disposition_set(flags: &[&str]) -> FlagSet {
    let mut set = FlagSet::new();
    for f in flags {
        set.insert(f.to_string());
    }
    set
}

fn encode(name: &str) -> ModifierKind {
    ModifierKind::Convert(Codec::Encode(name.to_string()))
}

fn add_input(graph: &mut Graph, path: &str, streams: Vec<StreamInfo>) -> NodeId {
    graph.add_input(path.to_string(), streams, Vec::new())
}

fn args_of(graph: &Graph) -> Vec<String> {
    graph.build_ffmpeg_args(&Vec::new(), &Vec::new())
}

fn seconds(text: &str, millis: i64) -> Seconds {
    Seconds { text: text.to_string(), millis }
}

// ---------------------------------------------------------------------
// Connections, chains and command lines
// ---------------------------------------------------------------------

/// A direct input -> output wire, with no modifier in between, should
/// resolve to a plain stream copy.
#[test]
fn direct_wire_resolves_to_stream_copy() {
    let mut graph = Graph::new();
    let out = graph.outputs[0].id;
    let id = add_input(&mut graph, "in.mp4", video_stream());
    let src = Endpoint::Stream { node: id, stream_idx: 0 };
    graph.connect(src, Target::Output(out));

    let resolved = graph.resolve(src).expect("direct wire should resolve");
    let Resolved::Stream { from_node, from_stream_idx, .. } = &resolved else {
        panic!("expected a single stream");
    };
    assert_eq!(*from_node, id);
    assert_eq!(*from_stream_idx, 0);
    assert_eq!(*resolved.codec(), Codec::Copy);
    assert!(resolved.metadata().is_empty());

    let args = args_of(&graph);
    assert!(args.contains(&"-c".to_string()) && args.contains(&"copy".to_string()));
    assert!(!args.iter().any(|a| a.starts_with("-c:")), "no per-stream override expected: {args:?}");
}

/// Routing a stream through a Convert modifier should make that codec show
/// up as a per-stream override in the built ffmpeg args.
#[test]
fn convert_modifier_sets_codec_override() {
    let mut graph = Graph::new();
    let out = graph.outputs[0].id;
    let id = add_input(&mut graph, "in.mp4", video_stream());
    let modifier = graph.add_modifier(encode("libx265"));

    let src = Endpoint::Stream { node: id, stream_idx: 0 };
    graph.connect(src, Target::ModifierIn(modifier));
    graph.connect(Endpoint::ModifierOut(modifier), Target::Output(out));

    let resolved = graph.resolve(Endpoint::ModifierOut(modifier)).unwrap();
    assert_eq!(*resolved.codec(), Codec::Encode("libx265".to_string()));

    let args = args_of(&graph);
    let joined = args.join(" ");
    assert!(
        joined.contains("-c:0 libx265"),
        "expected the convert node's codec as an override: {joined}"
    );
}

/// A Metadata modifier's language/title should show up as -metadata:s:N
/// arguments.
#[test]
fn metadata_modifier_sets_language_and_title_override() {
    let mut graph = Graph::new();
    let out = graph.outputs[0].id;
    let id = add_input(&mut graph, "in.mp4", video_stream());
    let modifier = graph.add_modifier(ModifierKind::Metadata {
        fields: metadata_fields(&[("language", "eng"), ("title", "Director's Commentary")]),
    });

    let src = Endpoint::Stream { node: id, stream_idx: 0 };
    graph.connect(src, Target::ModifierIn(modifier));
    graph.connect(Endpoint::ModifierOut(modifier), Target::Output(out));

    let args = args_of(&graph);
    let joined = args.join(" ");
    assert!(joined.contains("-metadata:s:0 language=eng"), "{joined}");
    assert!(joined.contains("-metadata:s:0 title=Director's Commentary"), "{joined}");
}

/// Chaining a Convert node into a Metadata node should combine both
/// effects on the same resolved connection.
#[test]
fn chain_of_convert_then_metadata_combines_both_effects() {
    let mut graph = Graph::new();
    let out = graph.outputs[0].id;
    let id = add_input(&mut graph, "in.mp4", video_stream());
    let convert = graph.add_modifier(encode("libx265"));
    let metadata = graph
        .add_modifier(ModifierKind::Metadata { fields: metadata_fields(&[("language", "jpn")]) });

    let src = Endpoint::Stream { node: id, stream_idx: 0 };
    graph.connect(src, Target::ModifierIn(convert));
    graph.connect(Endpoint::ModifierOut(convert), Target::ModifierIn(metadata));
    graph.connect(Endpoint::ModifierOut(metadata), Target::Output(out));

    let resolved = graph.resolve(Endpoint::ModifierOut(metadata)).unwrap();
    assert_eq!(*resolved.codec(), Codec::Encode("libx265".to_string()));
    assert_eq!(resolved.metadata().get("language"), Some("jpn"));
}

/// When two modifiers of the same kind sit in a chain, the one closer to
/// the output should win.
#[test]
fn closest_to_output_modifier_wins_on_conflicting_fields() {
    let mut graph = Graph::new();
    let out = graph.outputs[0].id;
    let id = add_input(&mut graph, "in.mp4", video_stream());
    let first = graph.add_modifier(encode("libx264"));
    let second = graph.add_modifier(encode("libx265"));

    let src = Endpoint::Stream { node: id, stream_idx: 0 };
    graph.connect(src, Target::ModifierIn(first));
    graph.connect(Endpoint::ModifierOut(first), Target::ModifierIn(second));
    graph.connect(Endpoint::ModifierOut(second), Target::Output(out));

    let resolved = graph.resolve(Endpoint::ModifierOut(second)).unwrap();
    assert_eq!(
        *resolved.codec(),
        Codec::Encode("libx265".to_string()),
        "the modifier closer to the output should win"
    );
}

/// A modifier with nothing feeding its input is a broken chain -- resolving
/// from its output should fail gracefully, and such a connection should be
/// skipped when building ffmpeg args.
#[test]
fn broken_chain_resolves_to_none_and_is_skipped_in_args() {
    let mut graph = Graph::new();
    let out = graph.outputs[0].id;
    let modifier = graph.add_modifier(encode("libx265"));
    // Connect the modifier's output straight to the output, but never wire
    // anything into the modifier's own input.
    graph.connect(Endpoint::ModifierOut(modifier), Target::Output(out));

    assert!(graph.resolve(Endpoint::ModifierOut(modifier)).is_none());

    let args = args_of(&graph);
    assert!(
        !args.contains(&"output.mkv".to_string()),
        "an output with only a broken chain should be skipped"
    );
}

/// A cycle (two modifiers feeding each other) must never hang or panic.
#[test]
fn cyclic_chain_does_not_panic_or_hang() {
    let mut graph = Graph::new();
    let a = graph.add_modifier(ModifierKind::Convert(Codec::Copy));
    let b = graph.add_modifier(ModifierKind::Convert(Codec::Copy));
    graph.connect(Endpoint::ModifierOut(a), Target::ModifierIn(b));
    graph.connect(Endpoint::ModifierOut(b), Target::ModifierIn(a));

    assert!(graph.resolve(Endpoint::ModifierOut(a)).is_none());
    assert!(graph.resolve(Endpoint::ModifierOut(b)).is_none());
}

/// A modifier's input accepts only one connection: wiring a new source in
/// should replace whatever was feeding it before.
#[test]
fn connecting_into_a_modifier_input_replaces_any_existing_wire() {
    let mut graph = Graph::new();
    let modifier = graph.add_modifier(ModifierKind::Convert(Codec::Copy));
    let a = add_input(&mut graph, "a.mp4", video_stream());
    let b = add_input(&mut graph, "b.mp4", video_stream());

    graph.connect(Endpoint::Stream { node: a, stream_idx: 0 }, Target::ModifierIn(modifier));
    graph.connect(Endpoint::Stream { node: b, stream_idx: 0 }, Target::ModifierIn(modifier));

    let incoming = graph.incoming(Target::ModifierIn(modifier));
    assert_eq!(incoming.len(), 1, "only the most recent connection should remain");
    assert_eq!(graph.wires[incoming[0]].from, Endpoint::Stream { node: b, stream_idx: 0 });
}

/// Connecting the exact same (source, target) pair twice should toggle it
/// off.
#[test]
fn connecting_the_same_pair_twice_toggles_it_off() {
    let mut graph = Graph::new();
    let out = graph.outputs[0].id;
    let id = add_input(&mut graph, "in.mp4", video_stream());
    let src = Endpoint::Stream { node: id, stream_idx: 0 };

    graph.connect(src, Target::Output(out));
    assert_eq!(graph.wires.len(), 1);
    graph.connect(src, Target::Output(out));
    assert!(graph.wires.is_empty());
}

/// Removing a modifier should drop both its incoming wire and any outgoing
/// ones, leaving the rest of the graph untouched.
#[test]
fn removing_a_modifier_prunes_its_wires_only() {
    let mut graph = Graph::new();
    let out = graph.outputs[0].id;
    let id = add_input(&mut graph, "in.mp4", video_audio_streams());
    let modifier = graph.add_modifier(ModifierKind::Convert(Codec::Copy));

    graph.connect(Endpoint::Stream { node: id, stream_idx: 0 }, Target::ModifierIn(modifier));
    graph.connect(Endpoint::ModifierOut(modifier), Target::Output(out));
    // An unrelated direct connection that should survive the removal.
    graph.connect(Endpoint::Stream { node: id, stream_idx: 1 }, Target::Output(out));
    assert_eq!(graph.wires.len(), 3);

    graph.remove_modifier(modifier);

    assert_eq!(graph.wires.len(), 1, "only the unrelated wire should remain: {:?}", graph.wires);
    assert_eq!(graph.wires[0].from, Endpoint::Stream { node: id, stream_idx: 1 });
}

/// Stream specifiers like -c:0 are scoped to the current output section, so
/// with two outputs each getting their own Convert node, both sections
/// should independently start at -c:0.
#[test]
fn ffmpeg_args_use_local_stream_indices_per_output_section() {
    let mut graph = Graph::new();
    let out1 = graph.outputs[0].id;
    let out2 = graph.add_output();
    let id = add_input(&mut graph, "in.mp4", video_stream());
    let c1 = graph.add_modifier(encode("libx264"));
    let c2 = graph.add_modifier(encode("libx265"));

    let src = Endpoint::Stream { node: id, stream_idx: 0 };
    graph.connect(src, Target::ModifierIn(c1));
    graph.connect(Endpoint::ModifierOut(c1), Target::Output(out1));
    graph.connect(src, Target::ModifierIn(c2));
    graph.connect(Endpoint::ModifierOut(c2), Target::Output(out2));

    let args = args_of(&graph);
    let joined = args.join(" ");
    assert!(joined.contains("-c:0 libx264"), "{joined}");
    assert!(joined.contains("-c:0 libx265"), "{joined}");
    assert!(!joined.contains("-c:1"), "each section has only one stream: {joined}");
}

/// Outputs with nothing resolvable mapped to them should be omitted
/// entirely.
#[test]
fn ffmpeg_args_skip_outputs_with_no_resolvable_connection() {
    let mut graph = Graph::new();
    graph.add_output(); // second output, left empty
    let id = add_input(&mut graph, "in.mp4", video_stream());
    let out = graph.outputs[0].id;
    graph.connect(Endpoint::Stream { node: id, stream_idx: 0 }, Target::Output(out));

    let args = args_of(&graph);
    assert!(args.contains(&"output.mkv".to_string()));
    assert!(
        !args.contains(&"output2.mkv".to_string()),
        "empty output should not appear: {args:?}"
    );
}

/// The whole command line of a graph with a bit of everything.
#[test]
fn command_line_of_a_whole_graph() {
    let mut graph = Graph::new();
    let out = graph.outputs[0].id;
    let id = add_input(&mut graph, "in.mp4", video_audio_streams());
    let convert = graph.add_modifier(encode("libx265"));
    let flags = graph.add_modifier(ModifierKind::Disposition { flags: disposition_set(&["forced"]) });
    graph.connect(Endpoint::Stream { node: id, stream_idx: 0 }, Target::ModifierIn(convert));
    graph.connect(Endpoint::ModifierOut(convert), Target::Output(out));
    graph.connect(Endpoint::Stream { node: id, stream_idx: 1 }, Target::ModifierIn(flags));
    graph.connect(Endpoint::ModifierOut(flags), Target::Output(out));
    graph.outputs[0].container = Some("matroska".to_string());
    graph.outputs[0].extra_args.insert("shortest".to_string(), String::new());
    graph.inputs[0].extra_args.insert("ss".to_string(), "10".to_string());

    let joined = args_of(&graph).join(" ");
    assert!(joined.starts_with("-y -ss 10 -i in.mp4 "), "{joined}");
    assert!(joined.contains("-map 0:0"), "{joined}");
    assert!(joined.contains("-map 0:1"), "{joined}");
    assert!(joined.contains("-c:0 libx265"), "{joined}");
    assert!(joined.contains("-c:1 copy"), "{joined}");
    assert!(joined.contains("-disposition:1 forced"), "{joined}");
    assert!(joined.contains("-f matroska"), "{joined}");
    assert!(joined.contains("-shortest"), "{joined}");
    assert!(joined.ends_with(" output.mkv"), "{joined}");
}

/// An empty set of flags clears all of them.
#[test]
fn empty_disposition_clears_every_flag() {
    let mut graph = Graph::new();
    let out = graph.outputs[0].id;
    let id = add_input(&mut graph, "in.mp4", video_stream());
    let flags = graph.add_modifier(ModifierKind::Disposition { flags: FlagSet::new() });
    graph.connect(Endpoint::Stream { node: id, stream_idx: 0 }, Target::ModifierIn(flags));
    graph.connect(Endpoint::ModifierOut(flags), Target::Output(out));
    let joined = args_of(&graph).join(" ");
    assert!(joined.contains("-disposition:0 0"), "{joined}");
}

/// A preview targets the given path, caps the render, honors the chain, and
/// needs something mapped.
#[test]
fn preview_of_an_output_is_capped_and_goes_elsewhere() {
    let mut graph = Graph::new();
    let out = graph.outputs[0].id;
    let unconnected_out = graph.add_output();
    let id = add_input(&mut graph, "source.mp4", video_audio_streams());
    let modifier = graph
        .add_modifier(ModifierKind::Metadata { fields: metadata_fields(&[("language", "eng")]) });
    graph.connect(Endpoint::Stream { node: id, stream_idx: 0 }, Target::ModifierIn(modifier));
    graph.connect(Endpoint::ModifierOut(modifier), Target::Output(out));

    let none: Vec<ChapterFile> = Vec::new();
    let numerals: Vec<Numeral> = Vec::new();
    assert!(graph.build_preview_args(unconnected_out, "preview.mkv", 2, &none, &numerals).is_none());
    assert!(graph.build_preview_args(999, "preview.mkv", 2, &none, &numerals).is_none());
    let args = graph.build_preview_args(out, "preview.mkv", 2, &none, &numerals).expect("resolvable");
    let joined = args.join(" ");
    assert!(joined.contains("-metadata:s:0 language=eng"), "{joined}");
    assert!(joined.contains("-t 2"), "{joined}");
    assert!(joined.ends_with("preview.mkv"), "{joined}");
    assert!(!args.contains(&"output.mkv".to_string()), "{joined}");
}

/// A wire from a node that is gone maps nothing, and an output without a
/// `-map` is left out, as is its preview.
#[test]
fn dangling_wire_writes_nothing() {
    let mut graph = Graph::new();
    let out = graph.outputs[0].id;
    graph.connect(Endpoint::Stream { node: 99, stream_idx: 0 }, Target::Output(out));
    assert_eq!(args_of(&graph), vec!["-y"]);
    let none: Vec<ChapterFile> = Vec::new();
    let numerals: Vec<Numeral> = Vec::new();
    assert!(graph.build_preview_args(out, "preview.mkv", 2, &none, &numerals).is_none());
}

/// So does one from a stream that its input does not have, through a filter
/// or not; what else is mapped stays.
#[test]
fn missing_streams_leave_other_outputs_alone() {
    let mut graph = Graph::new();
    let out = graph.outputs[0].id;
    let other = graph.add_output();
    let id = add_input(&mut graph, "source.mp4", video_stream());
    let scale = graph.add_modifier(filter(FilterName::Scale, &[("width", "640")]));
    graph.connect(Endpoint::Stream { node: id, stream_idx: 7 }, Target::ModifierIn(scale));
    graph.connect(Endpoint::ModifierOut(scale), Target::Output(out));
    graph.connect(Endpoint::Stream { node: id, stream_idx: 0 }, Target::Output(other));
    let path = graph.outputs[1].path.clone();
    assert_eq!(
        args_of(&graph),
        vec!["-y", "-i", "source.mp4", "-map", "0:0", "-c", "copy", path.as_str()]
    );
}

/// Whether every input of a modifier that joins nothing, and every chapters
/// slot, holds at most one wire.
fn one_wire_per_slot(graph: &Graph) -> bool {
    graph.modifiers.iter().all(|m| {
        matches!(m.kind, ModifierKind::Concat) || graph.incoming(Target::ModifierIn(m.id)).len() <= 1
    }) && graph.outputs.iter().all(|o| graph.incoming(Target::OutputChapters(o.id)).len() <= 1)
}

/// A slot for one wire never holds two: a second wire takes the place of the
/// first, and swapping or removing adds none.
#[test]
fn single_slots_hold_one_wire() {
    let mut graph = Graph::new();
    assert!(one_wire_per_slot(&graph));
    let out = graph.outputs[0].id;
    let id = add_input(&mut graph, "source.mp4", video_audio_streams());
    let convert = graph.add_modifier(encode("libx264"));
    let to = Target::ModifierIn(convert);
    graph.connect(Endpoint::Stream { node: id, stream_idx: 0 }, to);
    graph.connect(Endpoint::Stream { node: id, stream_idx: 1 }, to);
    let held = graph.incoming(to);
    assert_eq!(held.len(), 1);
    assert!(graph.wires[held[0]].from == Endpoint::Stream { node: id, stream_idx: 1 });

    graph.connect(Endpoint::ModifierOut(convert), Target::Output(out));
    graph.connect(Endpoint::Stream { node: id, stream_idx: 0 }, Target::Output(out));
    assert_eq!(graph.incoming(Target::Output(out)).len(), 2);
    graph.swap_wires(0, 2);
    assert!(one_wire_per_slot(&graph));
    graph.remove_wire_at(0);
    assert!(one_wire_per_slot(&graph));
    graph.remove_modifier(convert);
    assert!(one_wire_per_slot(&graph));
    assert!(graph.incoming(to).is_empty());
}

// ---------------------------------------------------------------------
// Filters, trims and joined streams
// ---------------------------------------------------------------------

fn filter(name: FilterName, pairs: &[(&str, &str)]) -> ModifierKind {
    ModifierKind::Filter { name, fields: metadata_fields(pairs) }
}

#[test]
fn filter_expressions_of_every_kind() {
    let numerals = vec![Numeral {
        text: "1.5".to_string(),
        millis: 1500,
        padded: "3.5".to_string(),
    }];
    let none: Vec<Numeral> = Vec::new();
    let f = metadata_fields(&[("seconds", "1.5")]);
    assert_eq!(
        FilterName::Shift.expression(StreamKind::Audio, &f, &numerals).as_deref(),
        Some("adelay=delays=1500:all=1")
    );
    assert_eq!(FilterName::Shift.expression(StreamKind::Audio, &f, &none), None);
    assert_eq!(
        FilterName::Shift.expression(StreamKind::Video, &f, &numerals).as_deref(),
        Some("setpts=PTS+(1.5)/TB")
    );
    let f = metadata_fields(&[("factor", "0.5")]);
    assert_eq!(
        FilterName::Volume.expression(StreamKind::Audio, &f, &none).as_deref(),
        Some("volume=volume=0.5")
    );
    let f = metadata_fields(&[("width", "1280")]);
    assert_eq!(
        FilterName::Scale.expression(StreamKind::Video, &f, &none).as_deref(),
        Some("scale=w=1280:h=-1")
    );
    for (direction, expected) in [
        ("90cw", "transpose=dir=1"),
        ("90ccw", "transpose=dir=2"),
        ("180", "transpose=dir=1,transpose=dir=1"),
    ] {
        let f = metadata_fields(&[("direction", direction)]);
        assert_eq!(
            FilterName::Rotate.expression(StreamKind::Video, &f, &none).as_deref(),
            Some(expected)
        );
    }
    let f = metadata_fields(&[("direction", "sideways")]);
    assert_eq!(FilterName::Rotate.expression(StreamKind::Video, &f, &none), None);
}

/// A filter with nothing set does nothing.
#[test]
fn unconfigured_filters_have_no_expression() {
    let empty = FieldMap::new();
    let none: Vec<Numeral> = Vec::new();
    for name in [
        FilterName::Shift,
        FilterName::Volume,
        FilterName::Scale,
        FilterName::Crop,
        FilterName::Fade,
        FilterName::Rotate,
        FilterName::Trim,
    ] {
        for kind in [StreamKind::Video, StreamKind::Audio] {
            assert_eq!(name.expression(kind, &empty, &none), None, "{}", name.label());
        }
    }
}

#[test]
fn filters_apply_to_the_kinds_they_are_for() {
    assert!(FilterName::Volume.applies_to(StreamKind::Audio));
    assert!(!FilterName::Volume.applies_to(StreamKind::Video));
    assert!(FilterName::Scale.applies_to(StreamKind::Video));
    assert!(!FilterName::Scale.applies_to(StreamKind::Audio));
    assert!(FilterName::Trim.applies_to(StreamKind::Audio));
    assert!(FilterName::Trim.applies_to(StreamKind::Video));
    assert!(!FilterName::Trim.applies_to(StreamKind::Subtitle));
    assert_eq!(FilterName::Rotate.value_options("direction").unwrap(), vec!["90cw", "90ccw", "180"]);
    assert_eq!(FilterName::Fade.value_options("type").unwrap(), vec!["in", "out"]);
    assert!(FilterName::Scale.value_options("width").is_none());
    assert_eq!(FilterName::Trim.fields(), vec!["start", "end"]);
}

/// A filtered stream goes through the filter graph and is re-encoded.
#[test]
fn filtered_stream_goes_through_the_filtergraph() {
    let mut graph = Graph::new();
    let out = graph.outputs[0].id;
    let id = add_input(&mut graph, "in.mp4", video_stream());
    let scale = graph.add_modifier(filter(FilterName::Scale, &[("width", "640")]));
    graph.connect(Endpoint::Stream { node: id, stream_idx: 0 }, Target::ModifierIn(scale));
    graph.connect(Endpoint::ModifierOut(scale), Target::Output(out));
    let args = args_of(&graph);
    let joined = args.join(" ");
    let at = args.iter().position(|a| a == "-filter_complex").expect("a filtergraph");
    assert!(args[at + 1].contains("[0:0]scale=w=640:h=-1["), "{joined}");
    assert!(!joined.contains("-c copy"), "{joined}");
}

/// The texts whose worth a command line needs, in the order of the nodes.
#[test]
fn numeral_texts_are_those_of_delays_and_trim_ends() {
    let mut graph = Graph::new();
    graph.add_modifier(filter(FilterName::Shift, &[("seconds", "1.5")]));
    graph.add_modifier(filter(FilterName::Scale, &[("width", "640")]));
    graph.add_modifier(filter(FilterName::Trim, &[("start", "2"), ("end", "9")]));
    assert_eq!(graph.numeral_texts(), vec!["1.5".to_string(), "9".to_string()]);
}

/// A trimmed stream gets an input of its own that seeks near its window, with
/// a cushion of two seconds behind the end.
#[test]
fn trimmed_stream_gets_a_seeked_input() {
    let mut graph = Graph::new();
    let out = graph.outputs[0].id;
    let id = add_input(&mut graph, "in.mp4", video_stream());
    let trim = graph.add_modifier(filter(FilterName::Trim, &[("start", "60"), ("end", "70")]));
    graph.connect(Endpoint::Stream { node: id, stream_idx: 0 }, Target::ModifierIn(trim));
    graph.connect(Endpoint::ModifierOut(trim), Target::Output(out));
    let numerals = vec![Numeral { text: "70".to_string(), millis: 70000, padded: "72".to_string() }];
    let joined = graph.build_ffmpeg_args(&Vec::new(), &numerals).join(" ");
    assert!(joined.contains("-i in.mp4"), "{joined}");
    assert!(joined.contains("72"), "{joined}");
    assert!(joined.contains("[1:0]"), "{joined}");
    assert!(joined.contains("trim=start=60:end=70"), "{joined}");
}

/// Streams of the same kind are joined in the order of their wires; a mix
/// resolves to nothing.
#[test]
fn concat_joins_streams_of_one_kind() {
    let mut graph = Graph::new();
    let out = graph.outputs[0].id;
    let a = add_input(&mut graph, "a.mp4", video_audio_streams());
    let b = add_input(&mut graph, "b.mp4", video_audio_streams());
    let concat = graph.add_modifier(ModifierKind::Concat);
    graph.connect(Endpoint::Stream { node: a, stream_idx: 0 }, Target::ModifierIn(concat));
    graph.connect(Endpoint::Stream { node: b, stream_idx: 0 }, Target::ModifierIn(concat));
    graph.connect(Endpoint::ModifierOut(concat), Target::Output(out));
    assert_eq!(graph.incoming(Target::ModifierIn(concat)).len(), 2);

    let resolved = graph.resolve(Endpoint::ModifierOut(concat)).expect("same kind");
    assert_eq!(graph.resolved_stream_kind(&resolved), Some(StreamKind::Video));
    let (label, source) = graph.resolved_label_and_source(&resolved);
    assert_eq!(label, "concat[video] of 2 segments");
    assert_eq!(source, None);
    let Resolved::Concat { segments, .. } = &resolved else { panic!("expected a concat") };
    assert_eq!(segments.len(), 2);
    let joined = args_of(&graph).join(" ");
    assert!(joined.contains("concat=n=2:v=1:a=0"), "{joined}");

    graph.connect(Endpoint::Stream { node: b, stream_idx: 1 }, Target::ModifierIn(concat));
    assert!(graph.resolve(Endpoint::ModifierOut(concat)).is_none());
}

#[test]
fn resolved_stream_is_shown_with_its_file() {
    let mut graph = Graph::new();
    let id = add_input(&mut graph, "/films/in.mp4", video_stream());
    let src = Endpoint::Stream { node: id, stream_idx: 0 };
    let resolved = graph.resolve(src).unwrap();
    let (label, source) = graph.resolved_label_and_source(&resolved);
    assert_eq!(label, "v:0 h264");
    assert_eq!(source.as_deref(), Some("[0] in.mp4"));
    assert_eq!(graph.endpoint_stream_kind(src), Some(StreamKind::Video));
    assert_eq!(graph.endpoint_stream_kind(Endpoint::Stream { node: id, stream_idx: 7 }), None);
    assert_eq!(graph.endpoint_stream_kind(Endpoint::Stream { node: 99, stream_idx: 0 }), None);
}

// ---------------------------------------------------------------------
// Nodes
// ---------------------------------------------------------------------

#[test]
fn outputs_get_default_paths_and_inputs_are_renumbered() {
    let mut graph = Graph::new();
    assert_eq!(graph.outputs[0].path, "output.mkv");
    graph.add_output();
    graph.add_output();
    assert_eq!(graph.outputs[1].path, "output2.mkv");
    assert_eq!(graph.outputs[2].path, "output3.mkv");

    let a = add_input(&mut graph, "a.mp4", video_stream());
    let b = add_input(&mut graph, "b.mp4", video_stream());
    let out = graph.outputs[0].id;
    graph.connect(Endpoint::Stream { node: a, stream_idx: 0 }, Target::Output(out));
    graph.connect(Endpoint::Stream { node: b, stream_idx: 0 }, Target::Output(out));
    assert_eq!(graph.inputs[1].file_index, 1);
    graph.remove_input(a);
    assert_eq!(graph.inputs.len(), 1);
    assert_eq!(graph.inputs[0].id, b);
    assert_eq!(graph.inputs[0].file_index, 0);
    assert_eq!(graph.wires.len(), 1);
    graph.remove_output(out);
    assert!(graph.wires.is_empty());
    assert!(graph.input(a).is_none());
    assert!(graph.output(out).is_none());
}

/// Chapters show up as one more stream, which can be wired to an output's
/// chapters or into a chapter node.
#[test]
fn chapters_are_one_more_stream_and_have_their_own_slot() {
    let mut graph = Graph::new();
    let out = graph.outputs[0].id;
    let chapters = vec![
        Chapter::new(seconds("0", 0), seconds("10", 10_000), "One".to_string()),
        Chapter::new(seconds("10", 10_000), seconds("20", 20_000), "Two".to_string()),
    ];
    let id = graph.add_input("in.mkv".to_string(), video_stream(), chapters);
    assert_eq!(graph.inputs[0].streams.len(), 2);
    assert_eq!(graph.inputs[0].streams[1].kind, StreamKind::Chapter);
    assert_eq!(graph.inputs[0].streams[1].codec, "2");

    graph.connect(Endpoint::Stream { node: id, stream_idx: 0 }, Target::Output(out));
    graph.connect(Endpoint::Stream { node: id, stream_idx: 1 }, Target::OutputChapters(out));
    assert_eq!(
        graph.output_chapters(out),
        Some(ChapterSource::FromInput { input_file_index: 0 })
    );
    let joined = args_of(&graph).join(" ");
    assert!(joined.contains("-map_chapters 0"), "{joined}");

    let edit = graph.add_modifier(ModifierKind::ChapterEdit { chapters: Vec::new() });
    graph.connect(Endpoint::ModifierOut(edit), Target::OutputChapters(out));
    assert_eq!(graph.incoming(Target::OutputChapters(out)).len(), 1, "one source of chapters");
    assert_eq!(graph.output_chapters(out), Some(ChapterSource::Edited { modifier_id: edit }));
    assert!(graph.resolve(Endpoint::ModifierOut(edit)).is_none(), "chapters are no stream");
    let files = vec![ChapterFile { modifier: edit, path: "/tmp/c.ffmeta".to_string() }];
    let joined = graph.build_ffmpeg_args(&files, &Vec::new()).join(" ");
    assert!(joined.contains("-i /tmp/c.ffmeta"), "{joined}");
    assert!(joined.contains("-map_chapters 1"), "{joined}");
}

#[test]
fn codec_and_stream_labels() {
    assert_eq!(Codec::Encode("libx265".to_string()).label(), "x265");
    assert_eq!(Codec::Encode("libopus".to_string()).label(), "opus");
    assert_eq!(Codec::Encode("flac".to_string()).label(), "flac");
    assert_eq!(Codec::Copy.label(), "copy");
    assert_eq!(Codec::Copy.ffmpeg_name(), None);
    assert_eq!(Codec::Encode("flac".to_string()).ffmpeg_name(), Some("flac"));
    let names: Vec<String> = Codec::curated_fallback(StreamKind::Audio)
        .iter()
        .map(|c| c.ffmpeg_name().unwrap().to_string())
        .collect();
    assert_eq!(names, vec!["aac", "libmp3lame", "libopus", "flac"]);
    assert!(Codec::curated_fallback(StreamKind::Other).is_empty());
    assert_eq!(StreamKind::Subtitle.noun(), "subtitle");
    let s = StreamInfo {
        index: 1,
        kind: StreamKind::Audio,
        codec: "aac".to_string(),
        lang: Some("eng".to_string()),
    };
    assert!(s.label().contains("a:1 aac"), "{}", s.label());
    assert!(s.label().contains("eng"), "{}", s.label());
}

/// Two streams that are trimmed to the same window share an input; another
/// window gets one of its own.
#[test]
fn equal_windows_share_an_input() {
    let mut graph = Graph::new();
    let out = graph.outputs[0].id;
    let id = add_input(&mut graph, "in.mp4", video_audio_streams());
    for (stream_idx, end) in [(0, "9"), (1, "9"), (0, "8")] {
        let trim = graph.add_modifier(filter(FilterName::Trim, &[("start", "2"), ("end", end)]));
        graph.connect(Endpoint::Stream { node: id, stream_idx }, Target::ModifierIn(trim));
        graph.connect(Endpoint::ModifierOut(trim), Target::Output(out));
    }
    let args = args_of(&graph);
    assert_eq!(args.iter().filter(|a| *a == "-copyts").count(), 2);
    let joined = args.join(" ");
    assert!(joined.contains("[1:0]trim=start=2:end=9"), "{joined}");
    assert!(joined.contains("[1:1]atrim=start=2:end=9"), "{joined}");
    assert!(joined.contains("[2:0]trim=start=2:end=8"), "{joined}");
}

/// A table of numerals that says more than is asked for changes nothing.
#[test]
fn further_numerals_change_nothing() {
    let mut graph = Graph::new();
    let out = graph.outputs[0].id;
    let id = add_input(&mut graph, "in.mp4", video_audio_streams());
    let shift = graph.add_modifier(filter(FilterName::Shift, &[("seconds", "1.5")]));
    graph.connect(Endpoint::Stream { node: id, stream_idx: 1 }, Target::ModifierIn(shift));
    graph.connect(Endpoint::ModifierOut(shift), Target::Output(out));
    let numeral = |text: &str, millis: i64, padded: &str| Numeral {
        text: text.to_string(),
        millis,
        padded: padded.to_string(),
    };
    let listed = vec![numeral("1.5", 1500, "3.5")];
    let more = vec![numeral("2", 2000, "4"), numeral("1.5", 1500, "3.5")];
    let args = graph.build_ffmpeg_args(&Vec::new(), &listed);
    assert_eq!(args, graph.build_ffmpeg_args(&Vec::new(), &more));
    assert!(args.iter().any(|a| a.contains("adelay=delays=1500:all=1")), "{args:?}");
}

fn listed(set: &EndpointSet) -> Vec<Endpoint> {
    (0..set.len()).map(|i| set.at(i)).collect()
}

/// Endpoint sets hold each endpoint once, streams first, in order.
#[test]
fn endpoint_sets_are_ordered_sets() {
    let port = |node: usize, stream_idx: usize| Endpoint::Stream { node, stream_idx };
    let mut set = EndpointSet::new();
    for e in [Endpoint::ModifierOut(1), port(2, 1), port(2, 0), port(1, 5), port(2, 1)] {
        set.insert(e);
    }
    assert_eq!(
        listed(&set),
        vec![port(1, 5), port(2, 0), port(2, 1), Endpoint::ModifierOut(1)]
    );
    set.remove(port(2, 0));
    assert!(!set.contains(port(2, 0)));
    set.insert_range(3, 1, 3);
    assert_eq!(
        listed(&set),
        vec![
            port(1, 5),
            port(2, 1),
            port(3, 1),
            port(3, 2),
            Endpoint::ModifierOut(1)
        ]
    );
    set.remove_input(3);
    assert_eq!(set.len(), 3);
    let taken = set.take();
    assert!(set.is_empty());
    assert_eq!(taken.len(), 3);
}

/// Each entry of the filtergraph has a label of its own.
#[test]
fn filtergraph_labels_differ() {
    let mut graph = Graph::new();
    let out = graph.outputs[0].id;
    let id = add_input(&mut graph, "in.mp4", video_audio_streams());
    for (stream_idx, kind) in [
        (0, filter(FilterName::Scale, &[("width", "640")])),
        (1, filter(FilterName::Volume, &[("factor", "2")])),
    ] {
        let m = graph.add_modifier(kind);
        graph.connect(Endpoint::Stream { node: id, stream_idx }, Target::ModifierIn(m));
        graph.connect(Endpoint::ModifierOut(m), Target::Output(out));
    }
    let args = args_of(&graph);
    let at = args.iter().position(|a| a == "-filter_complex").unwrap();
    assert_eq!(args[at + 1], "[0:0]scale=w=640:h=-1[f0];[0:1]volume=volume=2[f1]");
    assert!(args.windows(2).any(|w| w == ["-map", "[f0]"]));
    assert!(args.windows(2).any(|w| w == ["-map", "[f1]"]));
}
