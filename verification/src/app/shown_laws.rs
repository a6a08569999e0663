//! What the editor shows: labels, names, and what it opens with.
use vstd::prelude::*;

use super::chapters::ChapterColumn;
use super::nodes::{codec_options, encoders_for, input_kind};
use super::picker::{common_containers, extra_args, flags_of, offered};
use super::render::preview_file_name;
use super::session_laws::{lemma_unfiltered, picker_opens_on_the_current_value};
use super::settings::{current_value, lemma_kind, lemma_stored, Store};
use super::{
    AppView, ChapterTimeField, ExtraArgsTarget, Focus, ModeView, PickerKindView, RequestView,
    TargetView,
};
use crate::fields::{
    ascending, field_get, field_get_after_set, field_get_after_unset, field_set, field_unset,
    flag_toggle, keys_of,
};
use crate::graph::node::{disposition_names, KindView};
use crate::graph::opening_laws::lemma_input_at;
use crate::graph::project::{missing_upto, probe_at, ProbeView, SavedView};
use crate::graph::resolve::{base_name, label_and_source, ResolvedView};
use crate::graph::stream::{fallback_names, CodecView, StreamKind, StreamView};
use crate::graph::wire::NodeId;
use crate::graph::GraphView;
use crate::line::{byte_offset, bytes_upto, utf8_width};
use crate::paths::{expand_tilde_spec, scan_dir, typed_dir};
use crate::text::decimal;
use crate::text_laws::{extension_is_behind_the_last_point, lemma_last_before, suffix};

verus! {

// ---------------------------------------------------------------------
// Labels
// ---------------------------------------------------------------------

/// The name of a file is what stands behind the last slash of its path.
pub proof fn file_name_is_behind_the_last_slash(dir: Seq<char>, name: Seq<char>)
    requires
        !name.contains('/'),
    ensures
        base_name(dir + seq!['/'] + name) == name,
        base_name(name) == name,
{
    let p = dir + seq!['/'] + name;
    let at = dir.len() as int;
    lemma_last_before(p, '/', p.len() as int);
    lemma_last_before(name, '/', name.len() as int);
    assert(p[at] == '/');
    assert forall|j: int| at < j < p.len() implies p[j] != '/' by {
        assert(p[j] == name[j - at - 1]);
        assert(name.contains(name[j - at - 1]));
    }
    assert(p.subrange(at + 1, p.len() as int) == name);
    assert forall|j: int| 0 <= j < name.len() implies name[j] != '/' by {
        assert(name.contains(name[j]));
    }
}

/// A mapped stream is shown as what it is in its own file, and with the number
/// and the name of that file.
pub proof fn stream_is_shown_with_its_file(g: GraphView, p: int, r: ResolvedView)
    requires
        g.well_formed(),
        0 <= p < g.inputs.len(),
        r matches ResolvedView::Stream { from_node, from_stream_idx, .. } && from_node
            == g.inputs[p].id && from_stream_idx < g.inputs[p].streams.len(),
    ensures
        r matches ResolvedView::Stream { from_stream_idx, .. } && label_and_source(g, r) == (
            g.inputs[p].streams[from_stream_idx as int].label(),
            Some(
                "["@ + decimal(g.inputs[p].file_index as nat) + "] "@ + base_name(g.inputs[p].path),
            ),
        ),
{
    lemma_input_at(g, p);
}

/// A stream is labelled by the letter of its kind and its index, and then by
/// its codec and its language, where it has one.
pub proof fn streams_are_labelled_by_kind_and_index(s: StreamView)
    ensures
        ({
            let tail = ":"@ + decimal(s.index as nat) + " "@ + s.codec;
            let head = |letter: Seq<char>|
                match s.lang {
                    Some(lang) => letter + tail + " ("@ + lang + ")"@,
                    None => letter + tail,
                };
            &&& s.kind == StreamKind::Video ==> s.label() == head("v"@)
            &&& s.kind == StreamKind::Audio ==> s.label() == head("a"@)
            &&& s.kind == StreamKind::Subtitle ==> s.label() == head("s"@)
            &&& s.kind == StreamKind::Other ==> s.label() == head("?"@)
            &&& s.kind == StreamKind::Chapter ==> s.label() == "chapters: "@ + s.codec
        }),
{
    let letter = s.kind.letter_spec();
    assert(letter + ":"@ + decimal(s.index as nat) + " "@ + s.codec == letter + (":"@ + decimal(
        s.index as nat,
    ) + " "@ + s.codec));
}

/// The file of a preview is named by its output, and is of the type of that
/// output.
pub proof fn preview_is_of_the_type_of_its_output(id: NodeId, a: Seq<char>, e: Seq<char>)
    requires
        a.len() > 0 && a.last() != '/',
        suffix(e),
    ensures
        preview_file_name(id, a + seq!['.'] + e) == "tff-preview-"@ + decimal(id as nat) + "."@ + e,
{
    extension_is_behind_the_last_point(a, e);
}

/// The directory that is listed for a typed path is the one that was typed,
/// with the home directory put in, or the current one where none was.
pub proof fn typed_directory_is_listed(buffer: Seq<char>, home: Option<Seq<char>>)
    ensures
        typed_dir(buffer).len() > 0 ==> scan_dir(buffer, home) == expand_tilde_spec(
            typed_dir(buffer),
            home,
        ),
        typed_dir(buffer).len() == 0 ==> scan_dir(buffer, home) == "."@,
{
}

// ---------------------------------------------------------------------
// Missing files
// ---------------------------------------------------------------------

proof fn lemma_missing(inputs: Seq<SavedView>, probes: Seq<Option<ProbeView>>, n: int) -> (at: Seq<
    int,
>)
    requires
        0 <= n <= inputs.len(),
    ensures
        at.len() == missing_upto(inputs, probes, n).len(),
        forall|k: int|
            0 <= k < at.len() ==> 0 <= #[trigger] at[k] < n && inputs[at[k]].path == missing_upto(
                inputs,
                probes,
                n,
            )[k] && probe_at(probes, at[k]) is None,
        forall|k: int, l: int| 0 <= k < l < at.len() ==> #[trigger] at[k] < #[trigger] at[l],
        forall|i: int| 0 <= i < n && #[trigger] probe_at(probes, i) is None ==> at.contains(i),
    decreases n,
{
    if n == 0 {
        Seq::empty()
    } else {
        let before = lemma_missing(inputs, probes, n - 1);
        if probe_at(probes, n - 1) is None {
            let at = before.push(n - 1);
            assert forall|i: int| 0 <= i < n && #[trigger] probe_at(
                probes,
                i,
            ) is None implies at.contains(i) by {
                if i < n - 1 {
                    let k = choose|k: int| 0 <= k < before.len() && before[k] == i;
                    assert(at[k] == i);
                } else {
                    assert(at[before.len() as int] == i);
                }
            }
            at
        } else {
            before
        }
    }
}

/// The missing files of a project are those of its inputs that could not be
/// probed, in their order.
pub proof fn missing_files_are_those_not_probed(
    inputs: Seq<SavedView>,
    probes: Seq<Option<ProbeView>>,
) -> (at: Seq<int>)
    ensures
        ({
            let missing = missing_upto(inputs, probes, inputs.len() as int);
            &&& at.len() == missing.len()
            &&& forall|k: int|
                0 <= k < at.len() ==> 0 <= #[trigger] at[k] < inputs.len() && inputs[at[k]].path
                    == missing[k] && probe_at(probes, at[k]) is None
            &&& forall|k: int, l: int|
                0 <= k < l < at.len() ==> #[trigger] at[k] < #[trigger] at[l]
            &&& forall|i: int|
                0 <= i < inputs.len() && #[trigger] probe_at(probes, i) is None ==> at.contains(i)
        }),
{
    lemma_missing(inputs, probes, inputs.len() as int)
}

// ---------------------------------------------------------------------
// Cursors
// ---------------------------------------------------------------------

proof fn lemma_bytes_prefix(s: Seq<char>, t: Seq<char>, n: int)
    requires
        0 <= n <= s.len(),
    ensures
        bytes_upto(s + t, n) == bytes_upto(s, n),
    decreases n,
{
    if n > 0 {
        lemma_bytes_prefix(s, t, n - 1);
    }
}

/// A cursor stands as many bytes into a text as the characters before it take:
/// one more character before it moves it by what that takes, and characters
/// behind it do not matter. It stands at the end at most.
pub proof fn offset_counts_the_bytes_before(s: Seq<char>, c: char, t: Seq<char>, beyond: int)
    ensures
        byte_offset(s, 0) == 0,
        byte_offset(s + t, s.len() as int) == byte_offset(s, s.len() as int),
        byte_offset(s.push(c), (s.len() + 1) as int) == byte_offset(s, s.len() as int) + utf8_width(c),
        (c as int) < 0x80 ==> utf8_width(c) == 1,
        0x80 <= (c as int) < 0x800 ==> utf8_width(c) == 2,
        0x800 <= (c as int) < 0x10000 ==> utf8_width(c) == 3,
        0x10000 <= (c as int) ==> utf8_width(c) == 4,
        beyond >= s.len() ==> byte_offset(s, beyond) == byte_offset(s, s.len() as int),
{
    lemma_bytes_prefix(s, t, s.len() as int);
    assert(s.push(c) == s + seq![c]);
    lemma_bytes_prefix(s, seq![c], s.len() as int);
    assert(s.push(c)[s.len() as int] == c);
}

// ---------------------------------------------------------------------
// What opens
// ---------------------------------------------------------------------

/// Editing an output opens its own path in the line.
pub proof fn output_opens_with_its_path(a: AppView, i: usize)
    requires
        a.focus == Focus::Output(i) && i < a.graph.outputs.len(),
    ensures
        ({
            let (b, request) = a.start_edit_output();
            let output = a.graph.outputs[i as int];
            &&& b.mode matches ModeView::TextInput { target, line, .. } && target
                == TargetView::OutputPath(output.id) && line.text == output.path
            &&& request == RequestView::ListPaths(output.path)
            &&& b.graph == a.graph
        }),
{
}

/// A chosen field opens in the line with its own current value.
pub proof fn field_opens_with_its_value(
    a: AppView,
    modifier: NodeId,
    target: ExtraArgsTarget,
    key: Seq<char>,
)
    ensures
        a.choose_entry(PickerKindView::MetadataKey { modifier }, Some(key)).0.mode matches
            ModeView::TextInput { target: t, line, .. } && t == (TargetView::ModifierMetadataValue {
            modifier,
            key,
        }) && line.text == current_value(a.graph, Store::Metadata(modifier), key),
        a.choose_entry(PickerKindView::ExtraArgField { target }, Some(key)).0.mode matches
            ModeView::TextInput { target: t, line, .. } && t == (TargetView::ExtraArgValue {
            target,
            key,
        }) && line.text == current_value(a.graph, Store::ExtraArgs(target), key),
{
}

/// A parameter with listed values opens a list of them for that parameter, and
/// any other one opens in the line with its current value.
pub proof fn parameter_opens_with_its_values(a: AppView, modifier: NodeId, key: Seq<char>)
    requires
        a.graph.modifier(modifier) matches Some(m) && m.kind is Filter,
    ensures
        a.graph.modifier(modifier) matches Some(m) && m.kind matches KindView::Filter {
            name,
            fields,
        } && {
            let b = a.choose_entry(PickerKindView::FilterField { modifier }, Some(key)).0;
            match name.value_options_spec(key) {
                Some(values) => b.mode matches ModeView::Picker { kind, options, .. } && kind == (
                PickerKindView::FilterFieldValue { modifier, key }) && options.len()
                    == values.len() + 1 && forall|i: int|
                    0 <= i < values.len() ==> (#[trigger] options[i + 1]).value == Some(values[i]),
                None => b.mode matches ModeView::TextInput { target, line, .. } && target == (
                TargetView::ModifierFilterValue { modifier, key }) && line.text == current_value(
                    a.graph,
                    Store::Filter(modifier),
                    key,
                ),
            }
        },
{
}

/// 'e' opens what can be set on the focused node: the flags of a disposition,
/// each with whether it is set, or the chapters of a chapter node, at the
/// first one's start.
pub proof fn modifiers_open_what_they_hold(a: AppView, i: usize, k: int)
    requires
        a.focus == Focus::Modifier(i) && i < a.graph.modifiers.len(),
        0 <= k < disposition_names().len(),
    ensures
        ({
            let m = a.graph.modifiers[i as int];
            let b = a.activate_focused();
            &&& b.graph == a.graph
            &&& m.kind matches KindView::Disposition { flags } ==> (b.mode matches ModeView::Picker {
                kind,
                options,
                ..
            } && kind == (PickerKindView::DispositionFlags { modifier: m.id }) && options.len()
                == disposition_names().len() && options[k].value == Some(disposition_names()[k])
                && options[k].display == (if flags.contains(disposition_names()[k]) {
                "[x] "@
            } else {
                "[ ] "@
            }) + disposition_names()[k])
            &&& m.kind is ChapterEdit ==> b.mode == (ModeView::ChapterTable {
                modifier: m.id,
                row: 0,
                col: ChapterColumn::Start,
            })
        }),
{
}

/// 'e' on a convert node that a stream feeds lists the encoders for that kind
/// of stream, for that node, and opens on the encoder that it has, or on
/// copying where it has none.
pub proof fn convert_opens_on_its_codec(a: AppView, i: usize, stream: StreamKind, k: int)
    requires
        a.focus == Focus::Modifier(i) && i < a.graph.modifiers.len(),
        a.graph.modifiers[i as int].kind is Convert,
        input_kind(a.graph, a.graph.modifiers[i as int].id) == Some(stream),
        codec_options(a.available_encoders, stream).len() <= usize::MAX,
        0 < k < codec_options(a.available_encoders, stream).len(),
    ensures
        ({
            let m = a.graph.modifiers[i as int];
            let names = codec_options(a.available_encoders, stream);
            a.activate_focused().mode matches ModeView::Picker { kind, options, selected, .. } && {
                &&& kind == (PickerKindView::Codec { modifier: m.id })
                &&& options == names
                &&& names[k].value is Some && m.kind == KindView::Convert(
                    CodecView::Encode(names[k].value->0),
                ) ==> selected < options.len() && options[selected as int].value == names[k].value
                &&& m.kind == KindView::Convert(CodecView::Copy) ==> selected == 0
                    && options[0].value is None
            }
        }),
{
    let names = offered(
        fallback_names(stream),
        encoders_for(a.available_encoders, stream, a.available_encoders.len() as int),
    );
    picker_opens_on_the_current_value("copy (no re-encode)"@, names, k - 1);
}

/// 'f' on an output lists the containers for that output, and opens on the one
/// that it has, or on none where it has none.
pub proof fn output_opens_on_its_container(a: AppView, i: usize, k: int)
    requires
        a.focus == Focus::Output(i) && i < a.graph.outputs.len(),
        0 <= k < offered(common_containers(), a.available_muxers).len() < usize::MAX,
    ensures
        ({
            let output = a.graph.outputs[i as int];
            let names = offered(common_containers(), a.available_muxers);
            a.graph_char('f', false).0.mode matches ModeView::Picker {
                kind,
                options,
                selected,
                ..
            } && {
                &&& kind == (PickerKindView::Container { output: output.id })
                &&& options.len() == names.len() + 1 && options[k + 1].value == Some(names[k])
                &&& output.container == Some(names[k]) ==> selected < options.len()
                    && options[selected as int].value == Some(names[k])
                &&& output.container is None ==> selected == 0 && options[0].value is None
            }
        }),
{
    let names = offered(common_containers(), a.available_muxers);
    picker_opens_on_the_current_value("auto (infer from file extension)"@, names, k);
}

/// 'e' on an input or an output lists the options of that node, and 'e' on a
/// metadata node its fields.
pub proof fn nodes_open_their_own_options(a: AppView, i: usize)
    ensures
        ({
            let g = a.graph;
            let opened = |f: Focus| (AppView { focus: f, ..a }).activate_focused().mode;
            &&& i < g.inputs.len() ==> (opened(Focus::Input(i)) matches ModeView::Picker {
                kind,
                ..
            } && kind == (PickerKindView::ExtraArgField {
                target: ExtraArgsTarget::Input(g.inputs[i as int].id),
            }))
            &&& i < g.outputs.len() ==> (opened(Focus::Output(i)) matches ModeView::Picker {
                kind,
                ..
            } && kind == (PickerKindView::ExtraArgField {
                target: ExtraArgsTarget::Output(g.outputs[i as int].id),
            }))
            &&& i < g.modifiers.len() && g.modifiers[i as int].kind is Metadata ==> (opened(
                Focus::Modifier(i),
            ) matches ModeView::Picker { kind, .. } && kind == (PickerKindView::MetadataKey {
                modifier: g.modifiers[i as int].id,
            }))
        }),
{
}

/// Enter toggles the flag under the cursor, and the list stays open.
pub proof fn enter_toggles_the_flag_under_the_cursor(a: AppView, modifier: NodeId, flag: Seq<char>)
    requires
        a.mode matches ModeView::Picker { kind, options, selected, query, .. } && kind == (
        PickerKindView::DispositionFlags { modifier }) && selected < options.len() <= usize::MAX
            && query.len() == 0 && options[selected as int].value == Some(flag),
        flags_of(a.graph, modifier) is Some,
    ensures
        ({
            let b = a.picker_confirm().0;
            &&& flags_of(b.graph, modifier) == Some(
                flag_toggle(flags_of(a.graph, modifier)->0, flag),
            )
            &&& b.mode is Picker
        }),
{
    if let ModeView::Picker { options, query, .. } = a.mode {
        assert(query == Seq::<char>::empty());
        lemma_unfiltered(options, options.len() as int);
        let flags = flags_of(a.graph, modifier)->0;
        lemma_kind(
            a.graph,
            modifier,
            KindView::Disposition { flags: flag_toggle(flags, flag) },
        );
    }
}

/// A switch is set where it was not and taken out where it was; it has no
/// value. The other options stay.
pub proof fn toggling_a_switch_changes_it_alone(
    a: AppView,
    target: ExtraArgsTarget,
    key: Seq<char>,
    other: Seq<char>,
)
    requires
        extra_args(a.graph, target) is Some,
        ascending(keys_of(extra_args(a.graph, target)->0)),
    ensures
        ({
            let m = extra_args(a.graph, target)->0;
            let now = extra_args(a.toggle_switch(target, key).graph, target);
            &&& now is Some
            &&& field_get(m, key) is Some ==> field_get(now->0, key) is None
            &&& field_get(m, key) is None ==> field_get(now->0, key) == Some(Seq::<char>::empty())
            &&& other != key ==> field_get(now->0, other) == field_get(m, other)
        }),
{
    let m = extra_args(a.graph, target)->0;
    let at = Store::ExtraArgs(target);
    lemma_stored(a.graph, at, field_unset(m, key));
    lemma_stored(a.graph, at, field_set(m, key, Seq::empty()));
    field_get_after_unset(m, key, other);
    field_get_after_set(m, key, Seq::empty(), other);
}

/// Tab takes over the suggestion under the cursor.
pub proof fn tab_takes_the_suggestion(a: AppView)
    requires
        a.mode matches ModeView::TextInput { suggestions, selected, .. } && selected
            < suggestions.len(),
    ensures
        a.mode matches ModeView::TextInput { target, suggestions, selected, .. } && {
            let (b, request) = a.text_input_accept_suggestion();
            let chosen = suggestions[selected as int];
            &&& b.mode matches ModeView::TextInput { target: t, line, .. } && t == target
                && line.text == chosen && line.cursor == chosen.len()
            &&& request == RequestView::ListPaths(chosen)
        },
{
}

/// A cell of the chapter table that is left without a change is where the
/// table goes on.
pub proof fn cancelled_cell_stays_selected(a: AppView, modifier: NodeId, index: usize)
    requires
        a.mode is TextInput,
    ensures
        a.mode matches ModeView::TextInput { target, .. } && {
            let b = a.cancel_text_input();
            &&& b.graph == a.graph
            &&& target == (TargetView::ChapterTime {
                modifier,
                index,
                field: ChapterTimeField::Start,
            }) ==> b.mode == (ModeView::ChapterTable {
                modifier,
                row: index,
                col: ChapterColumn::Start,
            })
            &&& target == (TargetView::ChapterTime {
                modifier,
                index,
                field: ChapterTimeField::End,
            }) ==> b.mode == (ModeView::ChapterTable {
                modifier,
                row: index,
                col: ChapterColumn::End,
            })
            &&& target == (TargetView::ChapterTitle { modifier, index }) ==> b.mode == (
            ModeView::ChapterTable { modifier, row: index, col: ChapterColumn::Title })
            &&& target is ScrubSeek ==> b.mode is Scrub
        },
{
}

} // verus!
