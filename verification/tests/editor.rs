use tff::app::picker::{extra_arg_label, filtered_indices};
use tff::app::render::Playback;
use tff::app::scrub::{Player, SeekAction};
use tff::app::{
    App, ChapterTimeField, ExtraArgsTarget, Focus, Mode, PickerEntry, PickerKind, Request,
    ScrubBackend, ScrubSession, TextTarget,
};
use tff::app::chapters::ChapterColumn;
use tff::fields::{FieldMap, FlagSet};
use tff::graph::chapter::{Chapter, Seconds};
use tff::graph::node::{FilterName, ModifierKind};
use tff::graph::project::ProbeResult;
use tff::graph::stream::{Codec, StreamInfo, StreamKind};
use tff::graph::wire::{Endpoint, NodeId, Target};
use tff::line::{Key, KeyCode};
use tff::player::CommandArg;

fn stream(index: usize, kind: StreamKind, codec: &str) -> StreamInfo {
    StreamInfo { index, kind, codec: codec.to_string(), lang: None }
}

fn video_stream() -> Vec<StreamInfo> {
    vec![stream(0, StreamKind::Video, "h264")]
}

fn metadata_fields(pairs: &[(&str, &str)]) -> FieldMap {
    let mut fields = FieldMap::new();
    for (k, v) in pairs {
        fields.insert(k.to_string(), v.to_string());
    }
    fields
}

fn disposition_set(flags: &[&str]) -> FlagSet {
    let mut set = FlagSet::new();
    for f in flags {
        set.insert(f.to_string());
    }
    set
}

fn new_app() -> App {
    App::new(Vec::new(), Vec::new(), false)
}

fn add_input(app: &mut App, path: &str, streams: Vec<StreamInfo>) -> NodeId {
    app.graph.add_input(path.to_string(), streams, Vec::new())
}

fn seconds(text: &str, millis: i64) -> Seconds {
    Seconds { text: text.to_string(), millis }
}

fn plain(code: KeyCode) -> Key {
    Key { code, modifiers: 0 }
}

fn shift(code: KeyCode) -> Key {
    Key { code, modifiers: 1 }
}

fn control(code: KeyCode) -> Key {
    Key { code, modifiers: 2 }
}

fn press(app: &mut App, key: Key) -> Request {
    app.handle_key(key, None, None)
}

fn type_text(app: &mut App, text: &str) {
    for c in text.chars() {
        app.text_input_handle_key(plain(KeyCode::Char(c)));
    }
}

fn select_option(app: &mut App, value: Option<&str>) {
    if let Mode::Picker { options, selected, .. } = &mut app.mode {
        *selected = options.iter().position(|o| o.value.as_deref() == value).unwrap();
    } else {
        panic!("expected picker mode");
    }
}

fn last_line(app: &App) -> &str {
    app.log.last().unwrap()
}

fn focus_modifier(app: &mut App, id: NodeId) {
    let idx = app.graph.modifiers.iter().position(|m| m.id == id).unwrap();
    app.focus = Focus::Modifier(idx);
}

fn is_nothing(r: &Request) -> bool {
    matches!(r, Request::Nothing)
}

// ---------------------------------------------------------------------
// Arming and connecting, adding, editing and deleting nodes
// ---------------------------------------------------------------------

/// Arming an input stream, then focusing a modifier and pressing 'c'
/// should wire the stream into that modifier's input and clear armed
/// state.
#[test]
fn toggle_connect_wires_armed_stream_into_focused_modifier() {
    let mut app = new_app();
    let id = add_input(&mut app, "in.mp4", video_stream());
    let modifier = app.graph.add_modifier(ModifierKind::Convert(Codec::Copy));

    app.focus = Focus::Input(0);
    app.row_idx = 0;
    app.toggle_connect(); // arm the stream
    assert!(!app.armed.is_empty());

    focus_modifier(&mut app, modifier);
    app.toggle_connect(); // connect

    assert!(app.armed.is_empty());
    let incoming = app.graph.incoming(Target::ModifierIn(modifier));
    assert_eq!(incoming.len(), 1);
    assert_eq!(app.graph.wires[incoming[0]].from, Endpoint::Stream { node: id, stream_idx: 0 });
}

/// Once a modifier's input is fed, focusing it and pressing 'c' with
/// nothing else armed should arm *its* output.
#[test]
fn toggle_connect_arms_a_connected_modifiers_output() {
    let mut app = new_app();
    let id = add_input(&mut app, "in.mp4", video_stream());
    let modifier = app.graph.add_modifier(ModifierKind::Convert(Codec::Copy));
    app.graph.connect(Endpoint::Stream { node: id, stream_idx: 0 }, Target::ModifierIn(modifier));

    focus_modifier(&mut app, modifier);
    app.toggle_connect();

    assert_eq!(app.armed.len(), 1);
    assert_eq!(app.armed.at(0), Endpoint::ModifierOut(modifier));
}

/// Pressing 'c' twice on the same modifier with nothing else armed should
/// arm then disarm it.
#[test]
fn toggle_connect_twice_on_same_modifier_disarms() {
    let mut app = new_app();
    let modifier = app.graph.add_modifier(ModifierKind::Convert(Codec::Copy));

    focus_modifier(&mut app, modifier);
    app.toggle_connect();
    assert!(!app.armed.is_empty());
    app.toggle_connect();
    assert!(app.armed.is_empty());
}

/// 'd' on an input port disconnects it from everything downstream (bulk);
/// 'd' on a modifier or output row disconnects just that one selected
/// connection (precise).
#[test]
fn disconnect_is_bulk_on_input_and_precise_elsewhere() {
    let mut app = new_app();
    let out1 = app.graph.outputs[0].id;
    let out2 = app.graph.add_output();
    let id = add_input(&mut app, "in.mp4", video_stream());
    let src = Endpoint::Stream { node: id, stream_idx: 0 };
    app.graph.connect(src, Target::Output(out1));
    app.graph.connect(src, Target::Output(out2));
    assert_eq!(app.graph.wires.len(), 2);

    // Precise: disconnecting via the out2 row only removes that one wire.
    let out2_idx = app.graph.outputs.iter().position(|o| o.id == out2).unwrap();
    app.focus = Focus::Output(out2_idx);
    app.row_idx = 0;
    app.disconnect_focused();
    assert_eq!(app.graph.wires.len(), 1);
    assert_eq!(app.graph.wires[0].to, Target::Output(out1));

    // Reconnect, then verify the bulk path from the input side.
    app.graph.connect(src, Target::Output(out2));
    assert_eq!(app.graph.wires.len(), 2);
    app.focus = Focus::Input(0);
    app.row_idx = 0;
    app.disconnect_focused();
    assert!(app.graph.wires.is_empty());
}

/// The add-node picker: confirming "convert" should add a Convert modifier
/// node (defaulting to Copy) and focus it.
#[test]
fn add_modifier_picker_confirm_convert_creates_and_focuses_node() {
    let mut app = new_app();
    app.open_add_node_picker();
    select_option(&mut app, Some("convert"));
    app.picker_confirm();

    assert_eq!(app.graph.modifiers.len(), 1);
    assert!(matches!(app.graph.modifiers[0].kind, ModifierKind::Convert(Codec::Copy)));
    assert!(matches!(app.focus, Focus::Modifier(0)));
}

/// Confirming "metadata" should add a Metadata node with both fields unset.
#[test]
fn add_modifier_picker_confirm_metadata_creates_node() {
    let mut app = new_app();
    app.open_add_node_picker();
    select_option(&mut app, Some("metadata"));
    app.picker_confirm();

    assert_eq!(app.graph.modifiers.len(), 1);
    assert!(matches!(
        &app.graph.modifiers[0].kind,
        ModifierKind::Metadata { fields } if fields.is_empty()
    ));
}

/// Every other entry of the add-node picker adds what it says.
#[test]
fn add_node_picker_offers_every_kind() {
    for (value, name) in [
        ("disposition", "disposition"),
        ("chapters", "chapters"),
        ("shift", "shift"),
        ("volume", "volume"),
        ("scale", "scale"),
        ("crop", "crop"),
        ("fade", "fade"),
        ("rotate", "rotate"),
        ("trim", "trim"),
        ("concat", "concat"),
    ] {
        let mut app = new_app();
        app.open_add_node_picker();
        select_option(&mut app, Some(value));
        assert!(is_nothing(&app.picker_confirm()));
        assert_eq!(app.graph.modifiers.len(), 1);
        assert_eq!(app.graph.modifiers[0].kind.short_label(), name);
        assert_eq!(last_line(&app), format!("added {name} node"));
    }
    let mut app = new_app();
    app.open_add_node_picker();
    select_option(&mut app, Some("output"));
    app.picker_confirm();
    assert_eq!(app.graph.outputs.len(), 2);
    app.open_add_node_picker();
    select_option(&mut app, Some("input"));
    let request = app.picker_confirm();
    assert!(matches!(request, Request::ListPaths(p) if p.is_empty()));
    assert!(matches!(&app.mode, Mode::TextInput { target: TextTarget::NewInputPath, .. }));
}

/// 'e' on a connected Convert node should open the codec picker, scoped to
/// the kind of stream actually flowing into it, with the current codec
/// preselected.
#[test]
fn activate_modifier_opens_codec_picker_for_connected_convert_node() {
    let mut app = new_app();
    let id = add_input(&mut app, "in.mp4", video_stream());
    let modifier =
        app.graph.add_modifier(ModifierKind::Convert(Codec::Encode("libx265".to_string())));
    app.graph.connect(Endpoint::Stream { node: id, stream_idx: 0 }, Target::ModifierIn(modifier));
    focus_modifier(&mut app, modifier);

    app.activate_modifier();

    let Mode::Picker { kind, options, selected, .. } = &app.mode else {
        panic!("expected picker mode");
    };
    assert!(matches!(kind, PickerKind::Codec { .. }));
    assert!(
        options.iter().any(|o| o.value.as_deref() == Some("libx264")),
        "should offer video encoders"
    );
    assert!(
        !options.iter().any(|o| o.value.as_deref() == Some("aac")),
        "should not offer audio encoders"
    );
    assert_eq!(options[*selected].value.as_deref(), Some("libx265"));
}

/// 'e' on a Convert node with nothing feeding it should refuse.
#[test]
fn activate_modifier_refuses_codec_picker_when_unconnected() {
    let mut app = new_app();
    let modifier = app.graph.add_modifier(ModifierKind::Convert(Codec::Copy));
    focus_modifier(&mut app, modifier);

    app.activate_modifier();

    assert!(matches!(app.mode, Mode::Normal));
    assert!(last_line(&app).contains("connect this node's input first"));
}

/// 'e' on a Metadata node should open a picker listing the curated fields,
/// each showing its current value (or "(not set)"), with a "custom key..."
/// entry at the end.
#[test]
fn activate_modifier_on_metadata_opens_key_picker_with_current_values() {
    let mut app = new_app();
    let modifier = app
        .graph
        .add_modifier(ModifierKind::Metadata { fields: metadata_fields(&[("language", "eng")]) });
    focus_modifier(&mut app, modifier);

    app.activate_modifier();

    let Mode::Picker { kind, options, .. } = &app.mode else {
        panic!("expected picker mode");
    };
    assert!(matches!(kind, PickerKind::MetadataKey { .. }));
    let displays: Vec<&String> = options.iter().map(|o| &o.display).collect();
    assert!(options.iter().any(|o| o.display == "language: eng"), "{displays:?}");
    assert!(options.iter().any(|o| o.display == "title: (not set)"));
    assert!(options.iter().any(|o| o.display == "handler_name: (not set)"));
    assert_eq!(
        options.last().unwrap().display,
        "custom key…",
        "custom-key escape hatch should be last"
    );
    assert!(options.last().unwrap().value.is_none());
}

/// 'e' on a Disposition node should open a picker listing every curated
/// flag with a checkbox reflecting whether it's currently set.
#[test]
fn activate_modifier_on_disposition_opens_flag_picker_with_checkboxes() {
    let mut app = new_app();
    let modifier =
        app.graph.add_modifier(ModifierKind::Disposition { flags: disposition_set(&["forced"]) });
    focus_modifier(&mut app, modifier);

    app.activate_modifier();

    let Mode::Picker { kind, options, .. } = &app.mode else {
        panic!("expected picker mode");
    };
    assert!(matches!(kind, PickerKind::DispositionFlags { .. }));
    let displays: Vec<&String> = options.iter().map(|o| &o.display).collect();
    assert!(options.iter().any(|o| o.display == "[x] forced"), "{displays:?}");
    assert!(options.iter().any(|o| o.display == "[ ] default"), "{displays:?}");
}

/// Confirming a disposition flag should toggle it in the graph and keep the
/// picker open with the checkbox flipped. Toggling the same flag again
/// should turn it back off.
#[test]
fn disposition_picker_confirm_toggles_flag_and_stays_open() {
    let mut app = new_app();
    let modifier = app.graph.add_modifier(ModifierKind::Disposition { flags: FlagSet::new() });
    focus_modifier(&mut app, modifier);
    app.activate_modifier();

    let Mode::Picker { options, .. } = &app.mode else { panic!("expected picker mode") };
    let default_row = options.iter().position(|o| o.display == "[ ] default").unwrap();
    // Move onto "default"'s row (picker opens with row 0 selected).
    app.picker_move(default_row as isize);

    app.picker_confirm();

    assert!(matches!(app.mode, Mode::Picker { .. }), "picker should stay open after toggling");
    let Some(m) = app.graph.modifier(modifier) else { panic!("modifier disappeared") };
    let ModifierKind::Disposition { flags } = &m.kind else { panic!("wrong kind") };
    assert!(flags.contains("default"), "flag should now be set");
    let Mode::Picker { options, .. } = &app.mode else { unreachable!() };
    assert!(
        options.iter().any(|o| o.display == "[x] default"),
        "checkbox should reflect the toggle"
    );

    app.picker_confirm(); // toggle it back off

    let Some(m) = app.graph.modifier(modifier) else { panic!("modifier disappeared") };
    let ModifierKind::Disposition { flags } = &m.kind else { panic!("wrong kind") };
    assert!(!flags.contains("default"), "flag should be cleared again");
}

/// Selecting a curated key from the metadata picker should open a value
/// text input, pre-filled with the current value if one is set.
#[test]
fn metadata_key_picker_confirm_opens_prefilled_value_input() {
    let mut app = new_app();
    let modifier = app
        .graph
        .add_modifier(ModifierKind::Metadata { fields: metadata_fields(&[("language", "eng")]) });
    focus_modifier(&mut app, modifier);

    app.activate_modifier();
    select_option(&mut app, Some("language"));
    app.picker_confirm();

    let Mode::TextInput { target, .. } = &app.mode else {
        panic!("expected text input mode");
    };
    assert!(matches!(
        target,
        TextTarget::ModifierMetadataValue { modifier: m, key } if *m == modifier && key == "language"
    ));
    assert_eq!(app.typed_text().unwrap(), "eng", "should pre-fill the current value");
}

/// Selecting an unset curated key should open an empty value input.
#[test]
fn metadata_key_picker_confirm_on_unset_field_opens_empty_input() {
    let mut app = new_app();
    let modifier = app.graph.add_modifier(ModifierKind::Metadata { fields: FieldMap::new() });
    focus_modifier(&mut app, modifier);

    app.activate_modifier();
    select_option(&mut app, Some("title"));
    app.picker_confirm();

    assert!(app.typed_text().expect("expected text input mode").is_empty());
}

/// Choosing "custom key..." should first prompt for the key name, then
/// (after confirming that) open the value prompt for whatever key was
/// typed.
#[test]
fn metadata_custom_key_flow_prompts_for_key_then_value() {
    let mut app = new_app();
    let modifier = app.graph.add_modifier(ModifierKind::Metadata { fields: FieldMap::new() });
    focus_modifier(&mut app, modifier);

    app.activate_modifier();
    select_option(&mut app, None);
    app.picker_confirm();
    assert!(matches!(
        &app.mode,
        Mode::TextInput { target: TextTarget::ModifierCustomKey(m), .. } if *m == modifier
    ));

    type_text(&mut app, "rotate");
    app.confirm_text_input(None, None);

    let Mode::TextInput { target, .. } = &app.mode else {
        panic!("expected the value prompt to open next");
    };
    assert!(matches!(
        target,
        TextTarget::ModifierMetadataValue { modifier: m, key } if *m == modifier && key == "rotate"
    ));
    assert!(app.typed_text().unwrap().is_empty());

    type_text(&mut app, "90");
    app.confirm_text_input(None, None);

    let ModifierKind::Metadata { fields } = &app.graph.modifier_mut(modifier).unwrap().kind else {
        unreachable!()
    };
    assert_eq!(fields.get("rotate"), Some("90"));
}

/// Confirming a field's value text input should set it (or, for an empty
/// value, clear/remove it from the map).
#[test]
fn confirm_text_input_sets_and_clears_a_chosen_metadata_field() {
    let mut app = new_app();
    let modifier = app.graph.add_modifier(ModifierKind::Metadata { fields: FieldMap::new() });
    focus_modifier(&mut app, modifier);

    let pick = |app: &mut App, key: &str| {
        app.activate_modifier();
        select_option(app, Some(key));
        app.picker_confirm();
    };

    pick(&mut app, "language");
    type_text(&mut app, "fra");
    app.confirm_text_input(None, None);
    let ModifierKind::Metadata { fields } = &app.graph.modifier_mut(modifier).unwrap().kind else {
        unreachable!()
    };
    assert_eq!(fields.get("language"), Some("fra"));

    pick(&mut app, "title");
    type_text(&mut app, "Behind the Scenes");
    app.confirm_text_input(None, None);
    let ModifierKind::Metadata { fields } = &app.graph.modifier_mut(modifier).unwrap().kind else {
        unreachable!()
    };
    assert_eq!(fields.get("title"), Some("Behind the Scenes"));
    assert_eq!(fields.len(), 2, "both fields should coexist");

    // Clearing: re-pick "language" (buffer pre-fills with "fra"), empty it,
    // then confirm -- the key should be removed from the map entirely.
    pick(&mut app, "language");
    for _ in 0.."fra".len() {
        app.text_input_handle_key(plain(KeyCode::Backspace));
    }
    app.confirm_text_input(None, None);
    let ModifierKind::Metadata { fields } = &app.graph.modifier_mut(modifier).unwrap().kind else {
        unreachable!()
    };
    assert!(fields.get("language").is_none(), "empty input should remove the key");
    assert_eq!(fields.len(), 1, "title should be unaffected");
}

/// Deleting a focused modifier should remove it and its wires, without
/// touching sibling modifiers or nodes.
#[test]
fn delete_focused_node_on_modifier_removes_it() {
    let mut app = new_app();
    let out = app.graph.outputs[0].id;
    let id = add_input(&mut app, "in.mp4", video_stream());
    let modifier = app.graph.add_modifier(ModifierKind::Convert(Codec::Copy));
    app.graph.connect(Endpoint::Stream { node: id, stream_idx: 0 }, Target::ModifierIn(modifier));
    app.graph.connect(Endpoint::ModifierOut(modifier), Target::Output(out));

    focus_modifier(&mut app, modifier);
    app.delete_focused_node();

    assert!(app.graph.modifiers.is_empty());
    assert!(app.graph.wires.is_empty());
}

/// The app should always keep at least one output -- ffmpeg needs
/// somewhere to write to -- so deleting the last one should refuse.
#[test]
fn delete_focused_node_refuses_to_remove_last_output() {
    let mut app = new_app();
    assert_eq!(app.graph.outputs.len(), 1);
    app.focus = Focus::Output(0);

    app.delete_focused_node();

    assert_eq!(app.graph.outputs.len(), 1);
    assert!(last_line(&app).contains("can't remove the last output"));
}

/// Adding an output node focuses it, positioned after every input and
/// modifier in tab order.
#[test]
fn add_output_node_appends_and_focuses_it() {
    let mut app = new_app();
    app.graph.add_modifier(ModifierKind::Convert(Codec::Copy));

    app.add_output_node();

    assert_eq!(app.graph.outputs.len(), 2);
    assert!(matches!(app.focus, Focus::Output(1)));
}

/// Picker escape/search machinery is generic over picker kind -- verify it
/// through the modifier-based codec picker.
#[test]
fn picker_search_and_escape_work_through_convert_modifier_flow() {
    let mut app = new_app();
    let id = add_input(&mut app, "in.mp4", video_stream());
    let modifier = app.graph.add_modifier(ModifierKind::Convert(Codec::Copy));
    app.graph.connect(Endpoint::Stream { node: id, stream_idx: 0 }, Target::ModifierIn(modifier));
    focus_modifier(&mut app, modifier);

    app.activate_modifier();
    app.picker_start_search();
    for c in "265".chars() {
        app.picker_search_char(c);
    }
    app.picker_confirm_search();
    app.picker_confirm();

    let ModifierKind::Convert(codec) = &app.graph.modifier_mut(modifier).unwrap().kind else {
        unreachable!()
    };
    assert_eq!(*codec, Codec::Encode("libx265".to_string()));

    // Escape semantics: open again, apply a filter, first Esc clears it.
    app.activate_modifier();
    app.picker_start_search();
    app.picker_search_char('x');
    app.picker_confirm_search();
    app.picker_escape();
    assert!(matches!(app.mode, Mode::Picker { .. }), "first Esc should only clear the filter");
    app.picker_escape();
    assert!(matches!(app.mode, Mode::Normal), "second Esc should close the picker");
}

/// 'f' with an input node focused should decline rather than silently doing
/// nothing unexplained.
#[test]
fn container_picker_refuses_without_a_focused_output() {
    let mut app = new_app();
    add_input(&mut app, "in.mp4", video_stream());
    app.focus = Focus::Input(0);

    app.open_container_picker();

    assert!(matches!(app.mode, Mode::Normal));
    assert!(last_line(&app).contains("focus an output"));
}

/// Confirming a container choice should set an explicit -f override and,
/// for a recognized common container, rewrite the output path's extension
/// for convenience -- and that override should actually reach ffmpeg's args.
#[test]
fn container_picker_confirm_sets_override_and_rewrites_known_extension() {
    let mut app = new_app(); // focus defaults to Focus::Output(0)
    let out = app.graph.outputs[0].id;
    let id = add_input(&mut app, "in.mp4", video_stream());
    app.graph.connect(Endpoint::Stream { node: id, stream_idx: 0 }, Target::Output(out));

    app.open_container_picker();
    select_option(&mut app, Some("webm"));
    app.picker_confirm();

    assert_eq!(app.graph.outputs[0].container.as_deref(), Some("webm"));
    assert_eq!(app.graph.outputs[0].path, "output.webm");
    assert!(app
        .graph
        .build_ffmpeg_args(&Vec::new(), &Vec::new())
        .windows(2)
        .any(|w| w == ["-f", "webm"]));

    app.open_container_picker();
    select_option(&mut app, None);
    app.picker_confirm();
    assert_eq!(app.graph.outputs[0].container, None);
    assert_eq!(app.graph.outputs[0].path, "output.webm");
    assert!(last_line(&app).contains("output container set to auto"));
}

/// The pure filter predicate: case-insensitive substring match, empty query
/// matches everything.
#[test]
fn filtered_indices_matches_case_insensitive_substring() {
    let options = vec![
        PickerEntry { display: "copy (no re-encode)".to_string(), value: None },
        PickerEntry { display: "libx264".to_string(), value: Some("libx264".to_string()) },
        PickerEntry { display: "libx265".to_string(), value: Some("libx265".to_string()) },
        PickerEntry { display: "libvpx-vp9".to_string(), value: Some("libvpx-vp9".to_string()) },
    ];

    assert_eq!(filtered_indices(&options, ""), vec![0, 1, 2, 3]);
    assert_eq!(filtered_indices(&options, "X26"), vec![1, 2], "should be case-insensitive");
    assert_eq!(filtered_indices(&options, "vp9"), vec![3]);
    assert!(filtered_indices(&options, "nonexistent").is_empty());
}

/// 'p' with an input or modifier focused (rather than an output) should
/// refuse with a hint instead of silently doing nothing.
#[test]
fn start_preview_requires_an_output_focused() {
    let mut app = new_app();
    let id = add_input(&mut app, "in.mp4", video_stream());
    let idx = app.graph.inputs.iter().position(|n| n.id == id).unwrap();
    app.focus = Focus::Input(idx);

    assert!(is_nothing(&app.start_preview()));

    assert!(!app.running);
    assert!(last_line(&app).contains("focus an output node first"));
}

/// 'p' on a focused output with nothing mapped to it should refuse with a
/// hint, the same way 'r' does for a graph with no wires at all.
#[test]
fn start_preview_requires_something_mapped_to_the_output() {
    let mut app = new_app();
    app.focus = Focus::Output(0);

    assert!(matches!(app.start_preview(), Request::Preview));
    assert!(app.run_preview("/tmp/p.mkv", &Vec::new(), &Vec::new()).is_none());

    assert!(!app.running);
    assert!(last_line(&app).contains("nothing mapped"));
}

/// 'p' while a render or another preview is already in flight should
/// refuse rather than stomp on it with a second concurrent ffmpeg job.
#[test]
fn start_preview_refuses_while_a_job_is_already_running() {
    let mut app = new_app();
    let out = app.graph.outputs[0].id;
    let id = add_input(&mut app, "in.mp4", video_stream());
    app.graph.connect(Endpoint::Stream { node: id, stream_idx: 0 }, Target::Output(out));
    app.focus = Focus::Output(0);

    assert!(matches!(app.start_preview(), Request::Preview));
    let name = app.preview_name().unwrap();
    assert_eq!(name, format!("tff-preview-{out}.mkv"));
    let args = app.run_preview("/tmp/tff-preview.mkv", &Vec::new(), &Vec::new()).unwrap();
    assert!(args.windows(2).any(|w| w == ["-t", "20"]));
    assert_eq!(args.last().unwrap(), "/tmp/tff-preview.mkv");
    assert!(app.running, "first preview should have started a job");
    assert_eq!(app.status, "rendering 20s preview...");
    let log_len = app.log.len();

    assert!(is_nothing(&app.start_preview()));
    assert_eq!(app.log.len(), log_len + 1);
    assert!(last_line(&app).contains("already running"));
    assert!(is_nothing(&app.start_render()), "nor a render");
}

// ---------------------------------------------------------------------
// Rendering
// ---------------------------------------------------------------------

#[test]
fn render_needs_a_wire_and_shows_its_command_line() {
    let mut app = new_app();
    assert!(is_nothing(&app.start_render()));
    assert!(last_line(&app).contains("nothing mapped yet"));
    let out = app.graph.outputs[0].id;
    let id = add_input(&mut app, "in.mp4", video_stream());
    app.graph.connect(Endpoint::Stream { node: id, stream_idx: 0 }, Target::Output(out));
    assert!(matches!(app.start_render(), Request::Render));
    let args = app.run_render(&Vec::new(), &Vec::new());
    assert!(app.running);
    assert_eq!(app.status, "running ffmpeg...");
    assert_eq!(last_line(&app), format!("$ ffmpeg {}", args.join(" ")));
}

#[test]
fn finished_runs_are_reported() {
    let mut app = new_app();
    app.running = true;
    app.poll_ffmpeg(&vec!["frame=1".to_string()]);
    assert_eq!(last_line(&app), "frame=1");
    assert!(app.running);
    app.poll_ffmpeg(&vec!["frame=2".to_string(), "__DONE__1".to_string(), "late".to_string()]);
    assert!(!app.running);
    assert_eq!(app.status, "ffmpeg exited with code 1");
    assert!(app.log.contains(&"late".to_string()));
    assert_eq!(last_line(&app), "ffmpeg exited with code 1");

    app.running = true;
    app.preview_target = Some("/tmp/p.mkv".to_string());
    app.poll_ffmpeg(&vec!["__DONE__0".to_string()]);
    assert_eq!(app.status, "preview ready");
    assert_eq!(app.take_preview().as_deref(), Some("/tmp/p.mkv"));
    assert_eq!(app.take_preview(), None);

    app.running = true;
    app.preview_target = Some("/tmp/p.mkv".to_string());
    app.poll_ffmpeg(&vec!["__DONE__234".to_string()]);
    assert_eq!(app.status, "preview render failed (exit code 234)");
    assert_eq!(app.preview_ready, None);
}

#[test]
fn previews_are_played_by_what_there_is() {
    let mut app = new_app();
    assert_eq!(app.play_preview(true, true, "p"), Playback::Mpv);
    assert_eq!(last_line(&app), "$ mpv p");
    assert_eq!(app.play_preview(true, false, "p"), Playback::Ffplay);
    assert_eq!(last_line(&app), "$ ffplay p");
    assert_eq!(app.play_preview(false, true, "p"), Playback::Terminal);
    assert_eq!(app.play_preview(false, false, "p"), Playback::Nothing);
    assert!(app.status.contains("can't play the preview"));
    app.playback_failed(Playback::Mpv, "gone");
    assert_eq!(app.status, "couldn't launch mpv: gone");
    app.playback_failed(Playback::Ffplay, "gone");
    assert_eq!(app.status, "couldn't launch ffplay: gone");
    app.playback_failed(Playback::Terminal, "gone");
    assert_eq!(app.status, "couldn't play preview via mpv: gone");
}

#[test]
fn chapter_nodes_with_chapters_need_files() {
    let mut app = new_app();
    let empty = app.graph.add_modifier(ModifierKind::ChapterEdit { chapters: Vec::new() });
    let full = app.graph.add_modifier(ModifierKind::ChapterEdit {
        chapters: vec![Chapter::new(seconds("0", 0), seconds("1.5", 1500), "A=B".to_string())],
    });
    let texts = app.graph.chapter_texts();
    assert_eq!(texts.len(), 1);
    assert_ne!(texts[0].modifier, empty);
    assert_eq!(texts[0].modifier, full);
    assert_eq!(texts[0].name, format!("tff-chapters-{full}.ffmeta"));
    assert!(texts[0].content.starts_with(";FFMETADATA1"));
    assert!(texts[0].content.contains("title=A\\=B"));
    app.chapter_file_failed("disk full");
    assert_eq!(last_line(&app), "couldn't write chapter metadata: disk full");
}

// ---------------------------------------------------------------------
// Keys
// ---------------------------------------------------------------------

#[test]
fn control_c_quits_in_every_mode() {
    let mut app = new_app();
    press(&mut app, plain(KeyCode::Char('a')));
    assert!(matches!(app.mode, Mode::Picker { .. }));
    press(&mut app, control(KeyCode::Char('c')));
    assert!(app.should_quit);
    let mut app = new_app();
    press(&mut app, plain(KeyCode::Char('q')));
    assert!(app.should_quit);
}

#[test]
fn tab_goes_round_and_back() {
    let mut app = new_app();
    add_input(&mut app, "in.mp4", video_stream());
    app.graph.add_modifier(ModifierKind::Concat);
    assert_eq!(app.focus, Focus::Output(0));
    press(&mut app, plain(KeyCode::Tab));
    assert_eq!(app.focus, Focus::Input(0));
    press(&mut app, plain(KeyCode::Tab));
    assert_eq!(app.focus, Focus::Modifier(0));
    press(&mut app, plain(KeyCode::BackTab));
    assert_eq!(app.focus, Focus::Input(0));
    press(&mut app, plain(KeyCode::BackTab));
    assert_eq!(app.focus, Focus::Output(0));
}

fn app_with_ports(n: usize) -> App {
    let mut app = new_app();
    let streams = (0..n).map(|i| stream(i, StreamKind::Audio, "aac")).collect();
    add_input(&mut app, "in.mkv", streams);
    app.focus = Focus::Input(0);
    app
}

fn selected_rows(app: &App) -> Vec<usize> {
    (0..app.selected.len())
        .map(|i| match app.selected.at(i) {
            Endpoint::Stream { stream_idx, .. } => stream_idx,
            Endpoint::ModifierOut(_) => panic!("only streams are selected"),
        })
        .collect()
}

#[test]
fn space_selects_and_unselects() {
    let mut app = app_with_ports(3);
    press(&mut app, plain(KeyCode::Down));
    press(&mut app, plain(KeyCode::Char(' ')));
    assert_eq!(selected_rows(&app), vec![1]);
    press(&mut app, plain(KeyCode::Char(' ')));
    assert!(app.selected.is_empty());
    press(&mut app, control(KeyCode::Char('a')));
    assert_eq!(selected_rows(&app), vec![0, 1, 2]);
    press(&mut app, plain(KeyCode::Esc));
    assert!(app.selected.is_empty());
}

#[test]
fn range_selection_grows_and_shrinks() {
    let mut app = app_with_ports(5);
    press(&mut app, plain(KeyCode::Down));
    press(&mut app, shift(KeyCode::Down));
    press(&mut app, shift(KeyCode::Down));
    assert_eq!(selected_rows(&app), vec![1, 2, 3]);
    press(&mut app, shift(KeyCode::Up));
    assert_eq!(selected_rows(&app), vec![1, 2]);
    press(&mut app, shift(KeyCode::Up));
    press(&mut app, shift(KeyCode::Up));
    press(&mut app, shift(KeyCode::Up));
    assert_eq!(selected_rows(&app), vec![0, 1]);
    assert_eq!(app.row_idx, 0);
}

/// Whatever other key is pressed, the next range starts at the cursor.
#[test]
fn other_keys_start_the_range_anew() {
    let keys = [
        plain(KeyCode::Esc),
        plain(KeyCode::Char('c')),
        plain(KeyCode::Char('d')),
        plain(KeyCode::Char('l')),
        plain(KeyCode::Left),
        plain(KeyCode::PageUp),
        shift(KeyCode::Right),
        control(KeyCode::Up),
        control(KeyCode::Char('a')),
        plain(KeyCode::Char('a')),
        plain(KeyCode::Other),
    ];
    for key in keys {
        let mut app = app_with_ports(5);
        press(&mut app, shift(KeyCode::Down));
        press(&mut app, shift(KeyCode::Down));
        assert_eq!(app.selection_anchor, Some(0));
        press(&mut app, key);
        assert_eq!(app.selection_anchor, None, "{key:?}");
        press(&mut app, plain(KeyCode::Esc));
        assert!(matches!(app.mode, Mode::Normal));
        press(&mut app, shift(KeyCode::Down));
        assert_eq!(selected_rows(&app), vec![2, 3], "{key:?}");
    }
    let mut app = app_with_ports(5);
    press(&mut app, shift(KeyCode::Down));
    app.toggle_connect();
    assert_eq!(app.selection_anchor, None);
    press(&mut app, shift(KeyCode::Down));
    app.disconnect_focused();
    assert_eq!(app.selection_anchor, None);
}

#[test]
fn selected_ports_are_armed_and_connected_together() {
    let mut app = app_with_ports(3);
    press(&mut app, control(KeyCode::Char('a')));
    press(&mut app, plain(KeyCode::Char('c')));
    assert_eq!(app.armed.len(), 3);
    assert!(app.selected.is_empty());
    assert!(last_line(&app).starts_with("armed 3 port(s)"));
    app.focus = Focus::Output(0);
    press(&mut app, plain(KeyCode::Char('c')));
    assert_eq!(app.graph.wires.len(), 3);
    assert_eq!(last_line(&app), "connected 3 ports to output");
    press(&mut app, plain(KeyCode::Char('c')));
    assert!(last_line(&app).contains("nothing armed"));

    app.focus = Focus::Input(0);
    press(&mut app, control(KeyCode::Char('a')));
    press(&mut app, plain(KeyCode::Char('d')));
    assert!(app.graph.wires.is_empty());
    assert_eq!(last_line(&app), "disconnected 3 port(s) from everything downstream");
    press(&mut app, control(KeyCode::Char('a')));
    press(&mut app, plain(KeyCode::Char('d')));
    assert_eq!(last_line(&app), "3 port(s) had nothing connected");
}

#[test]
fn a_modifier_takes_one_stream_of_the_right_kind() {
    let mut app = app_with_ports(2);
    let scale = app.graph.add_modifier(ModifierKind::Filter {
        name: FilterName::Scale,
        fields: FieldMap::new(),
    });
    press(&mut app, plain(KeyCode::Char('c')));
    focus_modifier(&mut app, scale);
    press(&mut app, plain(KeyCode::Char('c')));
    assert_eq!(last_line(&app), "scale doesn't accept a audio stream");
    app.focus = Focus::Input(0);
    press(&mut app, control(KeyCode::Char('a')));
    press(&mut app, plain(KeyCode::Char('c')));
    focus_modifier(&mut app, scale);
    press(&mut app, plain(KeyCode::Char('c')));
    assert_eq!(last_line(&app), "can't connect 2 streams to a modifier -- it only accepts one");
    assert!(app.graph.wires.is_empty());
}

#[test]
fn concat_takes_segments_of_one_kind_only() {
    let mut app = new_app();
    let a = add_input(&mut app, "a.mkv", vec![
        stream(0, StreamKind::Video, "h264"),
        stream(1, StreamKind::Audio, "aac"),
        stream(2, StreamKind::Subtitle, "srt"),
    ]);
    let b = add_input(&mut app, "b.mkv", video_stream());
    let concat = app.graph.add_modifier(ModifierKind::Concat);
    app.focus = Focus::Input(0);
    press(&mut app, control(KeyCode::Char('a')));
    press(&mut app, plain(KeyCode::Tab));
    press(&mut app, control(KeyCode::Char('a')));
    press(&mut app, plain(KeyCode::Char('c')));
    focus_modifier(&mut app, concat);
    press(&mut app, plain(KeyCode::Char('c')));
    assert_eq!(
        last_line(&app),
        "added 2/4 segment(s) to concat (rest rejected, see above)"
    );
    assert!(app.log.contains(&"concat doesn't accept a subtitle stream".to_string()));
    assert!(app
        .log
        .contains(&"concat already has a video segment -- can't mix in a audio one".to_string()));
    let at = app.graph.incoming(Target::ModifierIn(concat));
    assert_eq!(app.graph.wires[at[0]].from, Endpoint::Stream { node: a, stream_idx: 0 });
    assert_eq!(app.graph.wires[at[1]].from, Endpoint::Stream { node: b, stream_idx: 0 });

    // Moving the first segment down and up again.
    app.row_idx = 0;
    press(&mut app, control(KeyCode::Down));
    assert_eq!(app.row_idx, 1);
    let at = app.graph.incoming(Target::ModifierIn(concat));
    assert_eq!(app.graph.wires[at[0]].from, Endpoint::Stream { node: b, stream_idx: 0 });
    press(&mut app, control(KeyCode::Up));
    assert_eq!(app.row_idx, 0);
    let at = app.graph.incoming(Target::ModifierIn(concat));
    assert_eq!(app.graph.wires[at[0]].from, Endpoint::Stream { node: a, stream_idx: 0 });

    press(&mut app, plain(KeyCode::Char('e')));
    assert!(last_line(&app).contains("nothing to configure"));
    press(&mut app, plain(KeyCode::Char('d')));
    assert_eq!(last_line(&app), "segment removed from concat");
    assert_eq!(app.graph.incoming(Target::ModifierIn(concat)).len(), 1);
}

#[test]
fn chapters_go_into_the_outputs_chapter_slot() {
    let mut app = new_app();
    let out = app.graph.outputs[0].id;
    let probe = ProbeResult {
        streams: video_stream(),
        chapters: vec![Chapter::new(seconds("0", 0), seconds("9", 9000), "One".to_string())],
    };
    app.input_probed("in.mkv", Ok(probe));
    assert_eq!(app.focus, Focus::Input(0));
    assert_eq!(last_line(&app), "found 1 chapter(s) in in.mkv");
    press(&mut app, control(KeyCode::Char('a')));
    press(&mut app, plain(KeyCode::Char('c')));
    app.focus = Focus::Output(0);
    press(&mut app, plain(KeyCode::Char('c')));
    assert_eq!(app.graph.incoming(Target::Output(out)).len(), 1);
    assert_eq!(app.graph.incoming(Target::OutputChapters(out)).len(), 1);
    assert_eq!(app.row_count(), 2);
    app.row_idx = 1;
    press(&mut app, plain(KeyCode::Char('d')));
    assert_eq!(last_line(&app), "chapters disconnected");
    app.row_idx = 0;
    press(&mut app, plain(KeyCode::Char('d')));
    assert_eq!(last_line(&app), "disconnected");

    app.input_probed("no.mkv", Err("nothing there".to_string()));
    assert_eq!(last_line(&app), "error probing 'no.mkv': nothing there");
}

#[test]
fn chapter_node_imports_what_feeds_it_and_keeps_its_own() {
    let mut app = new_app();
    let probe = ProbeResult {
        streams: video_stream(),
        chapters: vec![Chapter::new(seconds("0", 0), seconds("9", 9000), "One".to_string())],
    };
    app.input_probed("in.mkv", Ok(probe));
    let edit = app.graph.add_modifier(ModifierKind::ChapterEdit {
        chapters: vec![Chapter::new(seconds("0", 0), seconds("5", 5000), "Own".to_string())],
    });
    app.row_idx = 1;
    press(&mut app, plain(KeyCode::Char('c')));
    focus_modifier(&mut app, edit);
    press(&mut app, plain(KeyCode::Char('c')));
    assert_eq!(last_line(&app), "connected");
    let titles = |app: &App| -> Vec<(String, bool)> {
        let ModifierKind::ChapterEdit { chapters } = &app.graph.modifier(edit).unwrap().kind else {
            panic!("a chapter node")
        };
        chapters.iter().map(|c| (c.title.clone(), c.imported)).collect()
    };
    assert_eq!(titles(&app), vec![("Own".to_string(), false), ("One".to_string(), true)]);
    app.focus = Focus::Input(0);
    press(&mut app, plain(KeyCode::Char('x')));
    assert_eq!(last_line(&app), "removed input: in.mkv");
    assert_eq!(titles(&app), vec![("Own".to_string(), false)]);
    assert_eq!(app.focus, Focus::Modifier(0));
}

#[test]
fn chapter_table_is_edited_cell_by_cell() {
    let mut app = new_app();
    let edit = app.graph.add_modifier(ModifierKind::ChapterEdit { chapters: Vec::new() });
    focus_modifier(&mut app, edit);
    press(&mut app, plain(KeyCode::Char('e')));
    assert!(matches!(app.mode, Mode::ChapterTable { row: 0, col: ChapterColumn::Start, .. }));
    press(&mut app, plain(KeyCode::Enter));
    assert_eq!(last_line(&app), "added chapter");
    press(&mut app, plain(KeyCode::Right));
    press(&mut app, plain(KeyCode::Enter));
    assert!(matches!(
        &app.mode,
        Mode::TextInput {
            target: TextTarget::ChapterTime { index: 0, field: ChapterTimeField::End, .. },
            ..
        }
    ));
    assert_eq!(app.typed_text().unwrap(), "00:00:00");
    app.handle_key(plain(KeyCode::Enter), None, Some(seconds("61.5", 61_500)));
    assert_eq!(last_line(&app), "chapter time set to 00:01:01.500");
    assert!(matches!(app.mode, Mode::ChapterTable { row: 0, col: ChapterColumn::End, .. }));
    press(&mut app, plain(KeyCode::Enter));
    app.handle_key(plain(KeyCode::Enter), None, None);
    assert_eq!(
        last_line(&app),
        "couldn't parse '00:01:01.500' as a time -- try seconds (12.5) or HH:MM:SS"
    );
    press(&mut app, plain(KeyCode::Tab));
    assert!(matches!(app.mode, Mode::ChapterTable { row: 0, col: ChapterColumn::Title, .. }));
    press(&mut app, plain(KeyCode::Enter));
    type_text(&mut app, " Intro ");
    press(&mut app, plain(KeyCode::Enter));
    assert_eq!(last_line(&app), "chapter title set");
    {
        let ModifierKind::ChapterEdit { chapters } = &app.graph.modifier(edit).unwrap().kind else {
            panic!("a chapter node")
        };
        assert_eq!(chapters[0].title, "Intro");
        assert_eq!(chapters[0].end_secs.text, "61.5");
    }
    press(&mut app, plain(KeyCode::Tab));
    assert!(matches!(app.mode, Mode::ChapterTable { row: 1, col: ChapterColumn::Start, .. }));
    press(&mut app, plain(KeyCode::BackTab));
    assert!(matches!(app.mode, Mode::ChapterTable { row: 0, col: ChapterColumn::Title, .. }));
    press(&mut app, plain(KeyCode::Enter));
    press(&mut app, plain(KeyCode::Esc));
    assert!(matches!(app.mode, Mode::ChapterTable { row: 0, col: ChapterColumn::Title, .. }));
    press(&mut app, plain(KeyCode::Char('d')));
    assert_eq!(last_line(&app), "chapter deleted");
    press(&mut app, plain(KeyCode::Esc));
    assert!(matches!(app.mode, Mode::Normal));
}

#[test]
fn filter_values_are_listed_or_typed() {
    let mut app = new_app();
    let id = add_input(&mut app, "in.mp4", video_stream());
    let rotate = app.graph.add_modifier(ModifierKind::Filter {
        name: FilterName::Rotate,
        fields: FieldMap::new(),
    });
    focus_modifier(&mut app, rotate);
    press(&mut app, plain(KeyCode::Char('e')));
    assert!(last_line(&app).contains("then 'e' to configure rotate"));
    app.graph.connect(Endpoint::Stream { node: id, stream_idx: 0 }, Target::ModifierIn(rotate));
    press(&mut app, plain(KeyCode::Char('e')));
    select_option(&mut app, Some("direction"));
    press(&mut app, plain(KeyCode::Enter));
    let Mode::Picker { title, options, .. } = &app.mode else { panic!("a list of values") };
    assert_eq!(title, "rotate: direction");
    assert_eq!(options.len(), 4);
    select_option(&mut app, Some("180"));
    press(&mut app, plain(KeyCode::Enter));
    assert_eq!(last_line(&app), "direction set to 180");
    press(&mut app, plain(KeyCode::Char('e')));
    select_option(&mut app, Some("direction"));
    press(&mut app, plain(KeyCode::Enter));
    select_option(&mut app, None);
    press(&mut app, plain(KeyCode::Enter));
    assert_eq!(last_line(&app), "direction cleared");

    let volume = app.graph.add_modifier(ModifierKind::Filter {
        name: FilterName::Volume,
        fields: FieldMap::new(),
    });
    app.graph.connect(Endpoint::Stream { node: id, stream_idx: 0 }, Target::ModifierIn(volume));
    focus_modifier(&mut app, volume);
    press(&mut app, plain(KeyCode::Char('e')));
    assert_eq!(last_line(&app), "volume doesn't apply to video streams");
}

#[test]
fn trim_times_are_stored_as_seconds() {
    let mut app = new_app();
    let id = add_input(&mut app, "in.mp4", video_stream());
    let trim = app.graph.add_modifier(ModifierKind::Filter {
        name: FilterName::Trim,
        fields: FieldMap::new(),
    });
    app.graph.connect(Endpoint::Stream { node: id, stream_idx: 0 }, Target::ModifierIn(trim));
    focus_modifier(&mut app, trim);
    press(&mut app, plain(KeyCode::Char('e')));
    select_option(&mut app, Some("start"));
    press(&mut app, plain(KeyCode::Enter));
    type_text(&mut app, "1:30");
    app.handle_key(plain(KeyCode::Enter), None, Some(seconds("90", 90_000)));
    assert_eq!(last_line(&app), "start set to 00:01:30");
    let ModifierKind::Filter { fields, .. } = &app.graph.modifier(trim).unwrap().kind else {
        unreachable!()
    };
    assert_eq!(fields.get("start"), Some("90"));
    press(&mut app, plain(KeyCode::Char('e')));
    select_option(&mut app, Some("end"));
    press(&mut app, plain(KeyCode::Enter));
    type_text(&mut app, "soon");
    app.handle_key(plain(KeyCode::Enter), None, None);
    assert_eq!(
        last_line(&app),
        "couldn't parse 'soon' as a time -- try seconds (12.5) or HH:MM:SS"
    );
}

#[test]
fn further_options_are_switched_or_typed() {
    let mut app = new_app();
    let out = app.graph.outputs[0].id;
    press(&mut app, plain(KeyCode::Char('e')));
    assert!(matches!(
        &app.mode,
        Mode::Picker { kind: PickerKind::ExtraArgField { target: ExtraArgsTarget::Output(id) }, .. }
            if *id == out
    ));
    select_option(&mut app, Some("shortest"));
    press(&mut app, plain(KeyCode::Enter));
    assert_eq!(last_line(&app), "shortest enabled");
    assert!(matches!(app.mode, Mode::Picker { .. }), "a switch leaves the list open");
    assert_eq!(app.graph.outputs[0].extra_args.get("shortest"), Some(""));
    press(&mut app, plain(KeyCode::Enter));
    assert_eq!(last_line(&app), "shortest disabled");
    select_option(&mut app, None);
    press(&mut app, plain(KeyCode::Enter));
    type_text(&mut app, "threads");
    press(&mut app, plain(KeyCode::Enter));
    type_text(&mut app, "4");
    press(&mut app, plain(KeyCode::Enter));
    assert_eq!(last_line(&app), "threads set to 4");
    assert_eq!(app.graph.outputs[0].extra_args.get("threads"), Some("4"));
}

#[test]
fn nodes_are_duplicated_with_their_sources() {
    let mut app = new_app();
    let out = app.graph.outputs[0].id;
    let id = add_input(&mut app, "in.mp4", video_stream());
    let convert =
        app.graph.add_modifier(ModifierKind::Convert(Codec::Encode("libx265".to_string())));
    app.graph.connect(Endpoint::Stream { node: id, stream_idx: 0 }, Target::ModifierIn(convert));
    app.graph.connect(Endpoint::ModifierOut(convert), Target::Output(out));

    focus_modifier(&mut app, convert);
    press(&mut app, plain(KeyCode::Char('y')));
    assert_eq!(last_line(&app), "duplicated modifier node");
    assert_eq!(app.focus, Focus::Modifier(1));
    let copy = app.graph.modifiers[1].id;
    assert_eq!(app.graph.modifiers[1].pos.0, app.graph.modifiers[0].pos.0 + 2);
    let at = app.graph.incoming(Target::ModifierIn(copy));
    assert_eq!(at.len(), 1);
    assert_eq!(app.graph.wires[at[0]].from, Endpoint::Stream { node: id, stream_idx: 0 });
    assert!(app.graph.outgoing(Endpoint::ModifierOut(copy)).is_empty());

    app.focus = Focus::Output(0);
    press(&mut app, plain(KeyCode::Char('y')));
    assert_eq!(app.graph.outputs[1].path, "output-copy.mkv");
    let copy = app.graph.outputs[1].id;
    assert_eq!(app.graph.incoming(Target::Output(copy)).len(), 1);
    app.focus = Focus::Output(0);
    press(&mut app, plain(KeyCode::Char('y')));
    assert_eq!(app.graph.outputs[2].path, "output-copy2.mkv");

    app.focus = Focus::Input(0);
    press(&mut app, plain(KeyCode::Char('y')));
    assert_eq!(app.graph.inputs.len(), 2);
    assert_eq!(app.graph.inputs[1].path, "in.mp4");
    assert_eq!(app.graph.inputs[1].file_index, 1);
    assert_eq!(app.graph.inputs[1].streams.len(), 1);
}

#[test]
fn nodes_move_and_widen_within_bounds() {
    let mut app = app_with_ports(1);
    app.graph.inputs[0].pos = (1, 5);
    press(&mut app, plain(KeyCode::Char('h')));
    press(&mut app, plain(KeyCode::Char('j')));
    assert_eq!(app.graph.inputs[0].pos, (0, 7));
    press(&mut app, plain(KeyCode::Char('l')));
    press(&mut app, plain(KeyCode::Char('k')));
    assert_eq!(app.graph.inputs[0].pos, (2, 5));
    app.graph.inputs[0].width = 15;
    press(&mut app, shift(KeyCode::Left));
    assert_eq!(app.graph.inputs[0].width, 14);
    press(&mut app, shift(KeyCode::Left));
    assert_eq!(app.graph.inputs[0].width, 14);
    app.graph.inputs[0].width = 199;
    press(&mut app, shift(KeyCode::Right));
    assert_eq!(app.graph.inputs[0].width, 200);
}

#[test]
fn node_text_scrolls_to_its_end() {
    let mut app = app_with_ports(1);
    app.graph.inputs[0].width = 14;
    let lines = vec!["short".to_string(), "a line of twenty-two c".to_string()];
    assert!(matches!(press(&mut app, plain(KeyCode::Right)), Request::ScrollNodeText(true)));
    app.scroll_node_text(true, "title", &lines);
    assert_eq!(app.text_scroll, 4);
    app.scroll_node_text(true, "title", &lines);
    app.scroll_node_text(true, "title", &lines);
    assert_eq!(app.text_scroll, 10);
    app.scroll_node_text(false, "title", &lines);
    assert_eq!(app.text_scroll, 6);
    press(&mut app, plain(KeyCode::Tab));
    assert_eq!(app.text_scroll, 0);
    assert!(matches!(press(&mut app, control(KeyCode::Left)), Request::ScrollLogSideways(false)));
    assert!(matches!(press(&mut app, plain(KeyCode::PageUp)), Request::ScrollLog(false)));
}

/// A line that is longer than a scroll position can say still scrolls.
#[test]
fn very_long_node_text_scrolls() {
    let mut app = app_with_ports(1);
    app.graph.inputs[0].width = 14;
    let lines = vec!["x".repeat(65_540)];
    app.scroll_node_text(true, "title", &lines);
    assert_eq!(app.text_scroll, 4);
    app.text_scroll = 65_520;
    app.scroll_node_text(true, "title", &lines);
    assert_eq!(app.text_scroll, 65_523);
}

#[test]
fn picker_wraps_among_the_options_shown() {
    let mut app = new_app();
    app.open_container_picker();
    press(&mut app, plain(KeyCode::Char('/')));
    for c in "M".chars() {
        press(&mut app, plain(KeyCode::Char(c)));
    }
    press(&mut app, plain(KeyCode::Enter));
    let Mode::Picker { options, query, .. } = &app.mode else { panic!("a picker") };
    let shown = filtered_indices(options, query);
    assert!(shown.len() >= 3);
    let count = shown.len();
    press(&mut app, plain(KeyCode::Char('k')));
    assert!(matches!(&app.mode, Mode::Picker { selected, .. } if *selected == count - 1));
    press(&mut app, plain(KeyCode::Char('j')));
    assert!(matches!(&app.mode, Mode::Picker { selected: 0, .. }));
    press(&mut app, plain(KeyCode::Char('/')));
    press(&mut app, plain(KeyCode::Char('w')));
    press(&mut app, plain(KeyCode::Backspace));
    assert!(matches!(&app.mode, Mode::Picker { query, searching: true, .. } if query.is_empty()));
}

/// Found encoders come first by the curated order, then by name; others of
/// the curated list are left out.
#[test]
fn discovered_encoders_extend_the_curated_ones() {
    let encoders = vec![
        ("libx265".to_string(), StreamKind::Video),
        ("av1_qsv".to_string(), StreamKind::Video),
        ("aac".to_string(), StreamKind::Audio),
        ("libx264".to_string(), StreamKind::Video),
        ("a64multi".to_string(), StreamKind::Video),
    ];
    let mut app = App::new(encoders, vec!["matroska".to_string()], false);
    let id = add_input(&mut app, "in.mp4", video_stream());
    let convert = app.graph.add_modifier(ModifierKind::Convert(Codec::Copy));
    app.graph.connect(Endpoint::Stream { node: id, stream_idx: 0 }, Target::ModifierIn(convert));
    focus_modifier(&mut app, convert);
    app.activate_modifier();
    let Mode::Picker { options, selected, .. } = &app.mode else { panic!("a picker") };
    let names: Vec<&str> = options.iter().filter_map(|o| o.value.as_deref()).collect();
    assert_eq!(names, vec!["libx264", "libx265", "a64multi", "av1_qsv"]);
    assert_eq!(*selected, 0);
    assert_eq!(app.log.len(), 1);
    assert_eq!(new_app().log.len(), 2, "a hint where nothing was discovered");
}

// ---------------------------------------------------------------------
// Scrubbing
// ---------------------------------------------------------------------

fn app_with_trim() -> (App, NodeId) {
    let mut app = new_app();
    let id = add_input(&mut app, "in.mp4", video_stream());
    let trim = app.graph.add_modifier(ModifierKind::Filter {
        name: FilterName::Trim,
        fields: metadata_fields(&[("start", "12")]),
    });
    app.graph.connect(Endpoint::Stream { node: id, stream_idx: 0 }, Target::ModifierIn(trim));
    focus_modifier(&mut app, trim);
    (app, trim)
}

#[test]
fn scrub_needs_a_trim_node_with_a_single_source() {
    let mut app = new_app();
    assert!(is_nothing(&press(&mut app, plain(KeyCode::Char('s')))));
    assert_eq!(last_line(&app), "focus a trim node first, then 's' to scrub");
    let concat = app.graph.add_modifier(ModifierKind::Concat);
    focus_modifier(&mut app, concat);
    press(&mut app, plain(KeyCode::Char('s')));
    assert_eq!(last_line(&app), "only a trim node can be scrubbed");
    let trim = app.graph.add_modifier(ModifierKind::Filter {
        name: FilterName::Trim,
        fields: FieldMap::new(),
    });
    focus_modifier(&mut app, trim);
    press(&mut app, plain(KeyCode::Char('s')));
    assert_eq!(last_line(&app), "connect a stream to this node first, then 's' to scrub");
    app.graph.connect(Endpoint::ModifierOut(concat), Target::ModifierIn(trim));
    press(&mut app, plain(KeyCode::Char('s')));
    assert_eq!(last_line(&app), "broken chain -- fix the connection first");
    let id = add_input(&mut app, "in.mp4", video_stream());
    app.graph.connect(Endpoint::Stream { node: id, stream_idx: 0 }, Target::ModifierIn(concat));
    press(&mut app, plain(KeyCode::Char('s')));
    assert!(last_line(&app).starts_with("can't scrub a concatenated source"));

    let (mut app, trim) = app_with_trim();
    assert!(matches!(press(&mut app, plain(KeyCode::Char('s'))), Request::Scrub));
    let Ok(source) = app.scrub_source() else { panic!("there is a source") };
    assert_eq!(source.modifier_id, trim);
    assert_eq!(source.path, "in.mp4");
    assert_eq!(source.start.as_deref(), Some("12"));
}

#[test]
fn scrub_player_is_the_best_there_is() {
    let mut app = new_app();
    assert_eq!(app.choose_player(true, true), Some(Player::Mpv { headless: false }));
    assert_eq!(app.choose_player(false, true), Some(Player::Mpv { headless: true }));
    assert_eq!(app.choose_player(true, false), Some(Player::Ffplay));
    assert_eq!(app.choose_player(false, false), None);
    assert!(last_line(&app).starts_with("can't scrub -- no display available"));
}

#[test]
fn scrub_keys_reach_mpv_and_marks_reach_the_node() {
    let (mut app, trim) = app_with_trim();
    app.scrub_started(ScrubSession {
        modifier_id: trim,
        path: "in.mp4".to_string(),
        backend: ScrubBackend::Mpv { socket_path: "/tmp/s.sock".to_string(), headless: true },
    });
    assert!(app.scrub_is_headless_mpv());
    assert!(matches!(app.mode, Mode::Scrub));
    assert!(matches!(press(&mut app, plain(KeyCode::Char(' '))), Request::ScrubPlayPause));
    assert!(matches!(press(&mut app, plain(KeyCode::Left)), Request::ScrubStepFrame(false)));
    assert!(matches!(press(&mut app, plain(KeyCode::Char('l'))), Request::ScrubStepFrame(true)));
    assert!(matches!(press(&mut app, shift(KeyCode::Right)), Request::ScrubSeekRelative(true)));
    assert!(matches!(press(&mut app, plain(KeyCode::Char('i'))), Request::ScrubMark(true)));
    app.mark_scrub_point("start", Ok(seconds("3.25", 3250)));
    assert_eq!(last_line(&app), "start marked at 00:00:03.250");
    app.mark_scrub_point("end", Err("no answer".to_string()));
    assert_eq!(last_line(&app), "couldn't read the current position: no answer");
    let ModifierKind::Filter { fields, .. } = &app.graph.modifier(trim).unwrap().kind else {
        unreachable!()
    };
    assert_eq!(fields.get("start"), Some("3.25"));
    assert_eq!(fields.get("end"), None);

    press(&mut app, plain(KeyCode::Char('g')));
    type_text(&mut app, "7");
    let request = app.handle_key(plain(KeyCode::Enter), None, Some(seconds("7", 7000)));
    assert!(matches!(request, Request::ScrubSeekTo(t) if t.text == "7"));
    assert!(matches!(app.mode, Mode::Scrub));
    app.scrub_command_failed("broken pipe");
    assert_eq!(last_line(&app), "scrub command failed: broken pipe");
    assert!(matches!(press(&mut app, plain(KeyCode::Esc)), Request::ScrubClose));
    assert!(app.scrub.is_none());
    assert!(matches!(app.mode, Mode::Normal));
}

/// mpv is moved by a command, ffplay by starting it anew on the same file.
#[test]
fn players_are_moved_to_a_time() {
    let (mut app, trim) = app_with_trim();
    let to = seconds("7.5", 7500);
    assert!(matches!(app.scrub_seek_absolute(&to), SeekAction::Nothing));
    app.scrub_started(ScrubSession {
        modifier_id: trim,
        path: "in.mp4".to_string(),
        backend: ScrubBackend::Mpv { socket_path: "/tmp/s.sock".to_string(), headless: false },
    });
    let SeekAction::Command(command) = app.scrub_seek_absolute(&to) else {
        panic!("expected a command");
    };
    assert_eq!(command.len(), 3);
    assert!(matches!(&command[0], CommandArg::Word(w) if w == "seek"));
    assert!(matches!(&command[1], CommandArg::Time(t) if t.text == "7.5" && t.millis == 7500));
    assert!(matches!(&command[2], CommandArg::Word(w) if w == "absolute"));
    app.scrub_started(ScrubSession {
        modifier_id: trim,
        path: "in.mp4".to_string(),
        backend: ScrubBackend::Ffplay,
    });
    assert!(matches!(app.scrub_seek_absolute(&to), SeekAction::Restart(p) if p == "in.mp4"));
}

#[test]
fn ffplay_takes_no_commands() {
    let (mut app, trim) = app_with_trim();
    app.scrub_started(ScrubSession {
        modifier_id: trim,
        path: "in.mp4".to_string(),
        backend: ScrubBackend::Ffplay,
    });
    assert!(!app.scrub_is_headless_mpv());
    assert!(is_nothing(&press(&mut app, plain(KeyCode::Char(' ')))));
    assert!(last_line(&app).starts_with("ffplay has no remote control"));
    app.ffplay_restarted(&seconds("5", 5000), Ok(()));
    assert_eq!(last_line(&app), "jumped to 00:00:05");
    app.ffplay_restarted(&seconds("5", 5000), Err("gone".to_string()));
    assert_eq!(last_line(&app), "couldn't restart ffplay: gone");
    assert!(tff::app::scrub::ffplay_position(None).is_err());
    assert_eq!(tff::app::scrub::ffplay_position(Some(seconds("1", 1000))).unwrap().text, "1");
    let request = app.headless_scrub_key(control(KeyCode::Char('c')));
    assert!(matches!(request, Request::ScrubClose));
    assert!(app.should_quit);
    app.scrub_failed("no player");
    assert_eq!(last_line(&app), "couldn't start scrubbing: no player");
    assert_eq!(tff::app::scrub::scrub_socket_name(7), "tff-scrub-7.sock");
}

#[test]
fn log_scrolls_by_pages() {
    let mut app = new_app();
    app.log = (0..20).map(|i| format!("line {i}")).collect();
    app.scroll_log(false, 5);
    assert_eq!(app.log_scroll, Some(10));
    app.scroll_log(false, 5);
    app.scroll_log(false, 5);
    app.scroll_log(false, 5);
    assert_eq!(app.log_scroll, Some(0));
    app.scroll_log(true, 5);
    assert_eq!(app.log_scroll, Some(5));
    app.scroll_log(true, 5);
    app.scroll_log(true, 5);
    assert_eq!(app.log_scroll, None, "the end follows the newest lines");
    app.scroll_log_horizontal(true);
    assert_eq!(app.log_hscroll, 8);
    app.scroll_log_horizontal(false);
    app.scroll_log_horizontal(false);
    assert_eq!(app.log_hscroll, 0);
}

#[test]
fn offered_options_have_labels() {
    let input = ExtraArgsTarget::Input(0);
    assert_eq!(extra_arg_label(input, "itsoffset", false), "itsoffset");
    assert_eq!(extra_arg_label(input, "anything", true), "anything");
    for key in ["txt_format", "txt_page", "txt_duration"] {
        assert!(!extra_arg_label(input, key, true).is_empty());
        assert_eq!(extra_arg_label(input, key, false), key);
    }
}
