//! Adding, editing, deleting and duplicating nodes.
use vstd::prelude::*;

use super::chapters::{chapter_edit_modifiers_fed_by_input, fed_by_input, sync_all, sync_upto, ChapterColumn};
use super::picker::{disposition_options, disposition_picker_options, field_options, field_picker_options, fresh_picker, offered, open_picker, options_spec, picker_options, prioritize_and_extend, selected_index, selected_spec};
use super::text_input::{text_input_mode, text_mode};
use super::{App, AppView, EntryView, ExtraArgsTarget, Focus, ModeView, PickerEntry, PickerKind, PickerKindView, Request, RequestView, TargetView, TextTarget};
use crate::graph::chapter::copy_chapters;
use crate::graph::node::{metadata_keys, metadata_keys_for, InputView, KindView, ModifierKind, ModifierView, OutputView};
use crate::graph::project::{copy_media_streams, media_streams};
use crate::graph::resolve::{endpoint_kind, feeds, sources_of};
use crate::graph::stream::{fallback_names, Codec, StreamKind};
use crate::graph::wire::{endpoints_except, endpoints_off_input, Endpoint, NodeId, Target};
use crate::graph::{cell, feed, Graph, GraphView};
use crate::paths::{copied_path, copy_path};
use crate::text::{cat2, cat4, group_views, opt_copy, views};

verus! {

// ---------------------------------------------------------------------
// Adding
// ---------------------------------------------------------------------

/// One line of the list of nodes that can be added.
pub open spec fn addable(display: Seq<char>, value: Seq<char>) -> EntryView {
    EntryView { display, value: Some(value) }
}

fn addable_entry(display: &str, value: &str) -> (r: PickerEntry)
    ensures
        r@ == addable(display@, value@),
{
    PickerEntry { display: display.to_owned(), value: Some(value.to_owned()) }
}

/// The nodes that can be added.
pub open spec fn addable_nodes() -> Seq<EntryView> {
    seq![
        addable("input file..."@, "input"@),
        addable("output"@, "output"@),
        addable("convert (codec)"@, "convert"@),
        addable("metadata (language / title)"@, "metadata"@),
        addable("disposition (default / forced / ...)"@, "disposition"@),
        addable("chapters (add / edit / remove)"@, "chapters"@),
        addable("shift (audio/video sync delay)"@, "shift"@),
        addable("volume"@, "volume"@),
        addable("scale (resize)"@, "scale"@),
        addable("crop"@, "crop"@),
        addable("fade in/out"@, "fade"@),
        addable("rotate (90/180 degrees)"@, "rotate"@),
        addable("trim (cut to a start/end range)"@, "trim"@),
        addable("concat (join same-kind streams end to end)"@, "concat"@),
    ]
}

impl AppView {
    /// Asking for the path of a new input.
    pub open spec fn start_add_input(self) -> (AppView, RequestView) {
        (
            self.enter(text_mode(TargetView::NewInputPath, Seq::empty(), Seq::empty())),
            RequestView::ListPaths(Seq::empty()),
        )
    }

    /// With a new output, focused.
    pub open spec fn add_output_node(self) -> AppView {
        let a = self.with_graph(self.graph.add_output());
        a.set_focus_index(a.node_count() - 1).say("added output node"@)
    }

    /// 'a': the picker of nodes to add.
    pub open spec fn open_add_node_picker(self) -> AppView {
        self.enter(fresh_picker(PickerKindView::NewNode, "add node"@, addable_nodes(), 0))
    }

    /// 'o': the focused output's path, to edit.
    pub open spec fn start_edit_output(self) -> (AppView, RequestView) {
        match self.focus {
            Focus::Output(i) => if (i as int) < self.graph.outputs.len() {
                let output = self.graph.outputs[i as int];
                (
                    self.enter(
                        text_mode(TargetView::OutputPath(output.id), output.path, Seq::empty()),
                    ),
                    RequestView::ListPaths(output.path),
                )
            } else {
                (self, RequestView::Nothing)
            },
            _ => (
                self.say("focus an output node first, then 'o' edits its path"@),
                RequestView::Nothing,
            ),
        }
    }
}

impl App {
    /// Asks for the path of a new input.
    pub fn start_add_input(&mut self) -> (r: Request)
        ensures
            (final(self)@, r@) == old(self)@.start_add_input(),
    {
        let none: Vec<String> = Vec::new();
        assert(views(none@) == Seq::<Seq<char>>::empty());
        self.mode = text_input_mode(TextTarget::NewInputPath, String::new(), none);
        Request::ListPaths(String::new())
    }

    /// Adds an output and focuses it.
    pub fn add_output_node(&mut self)
        requires
            old(self).graph.next_id < usize::MAX,
        ensures
            final(self)@ == old(self)@.add_output_node(),
    {
        self.graph.add_output();
        let count: u128 = self.node_count();
        self.set_focus_index(count - 1);
        self.say("added output node");
    }

    /// 'a': opens a picker of nodes to add: an input file, an output, or any
    /// kind of modifier.
    pub fn open_add_node_picker(&mut self)
        ensures
            final(self)@ == old(self)@.open_add_node_picker(),
    {
        let options = vec![
            addable_entry("input file...", "input"),
            addable_entry("output", "output"),
            addable_entry("convert (codec)", "convert"),
            addable_entry("metadata (language / title)", "metadata"),
            addable_entry("disposition (default / forced / ...)", "disposition"),
            addable_entry("chapters (add / edit / remove)", "chapters"),
            addable_entry("shift (audio/video sync delay)", "shift"),
            addable_entry("volume", "volume"),
            addable_entry("scale (resize)", "scale"),
            addable_entry("crop", "crop"),
            addable_entry("fade in/out", "fade"),
            addable_entry("rotate (90/180 degrees)", "rotate"),
            addable_entry("trim (cut to a start/end range)", "trim"),
            addable_entry("concat (join same-kind streams end to end)", "concat"),
        ];
        assert(views(options@) == addable_nodes());
        self.mode = open_picker(PickerKind::NewNode, "add node".to_owned(), options, 0);
    }

    /// 'o': edits the focused output's path.
    pub fn start_edit_output(&mut self) -> (r: Request)
        ensures
            (final(self)@, r@) == old(self)@.start_edit_output(),
    {
        let i: usize = match self.focus {
            Focus::Output(i) => i,
            _ => {
                self.say("focus an output node first, then 'o' edits its path");
                return Request::Nothing;
            },
        };
        if i >= self.graph.outputs.len() {
            return Request::Nothing;
        }
        let id: NodeId = self.graph.outputs[i].id;
        let path = self.graph.outputs[i].path.clone();
        let none: Vec<String> = Vec::new();
        assert(views(none@) == Seq::<Seq<char>>::empty());
        self.mode = text_input_mode(TextTarget::OutputPath(id), path.clone(), none);
        Request::ListPaths(path)
    }
}

// ---------------------------------------------------------------------
// Editing
// ---------------------------------------------------------------------

/// The kind of stream that flows into a modifier, if one does.
pub open spec fn input_kind(g: GraphView, id: NodeId) -> Option<StreamKind> {
    match feed(g.wires, Target::ModifierIn(id)) {
        Some(from) => endpoint_kind(g, from),
        None => None,
    }
}

/// The names of those of the first `n` encoders that encode `kind`.
pub open spec fn encoders_for(
    encoders: Seq<(Seq<char>, StreamKind)>,
    kind: StreamKind,
    n: int,
) -> Seq<Seq<char>>
    decreases n,
{
    if n <= 0 {
        Seq::empty()
    } else {
        let p = encoders_for(encoders, kind, n - 1);
        if encoders[n - 1].1 == kind {
            p.push(encoders[n - 1].0)
        } else {
            p
        }
    }
}

/// The codecs that a convert node offers for a kind.
pub open spec fn codec_options(
    encoders: Seq<(Seq<char>, StreamKind)>,
    kind: StreamKind,
) -> Seq<EntryView> {
    options_spec(
        "copy (no re-encode)"@,
        offered(fallback_names(kind), encoders_for(encoders, kind, encoders.len() as int)),
    )
}

impl AppView {
    /// 'e' on modifier `m`.
    pub open spec fn edit_modifier(self, m: ModifierView) -> AppView {
        match m.kind {
            KindView::Convert(codec) => match input_kind(self.graph, m.id) {
                None => self.say(
                    "connect this node's input first ('c'), then 'e' to pick a codec"@,
                ),
                Some(kind) => {
                    let options = codec_options(self.available_encoders, kind);
                    self.enter(
                        fresh_picker(
                            PickerKindView::Codec { modifier: m.id },
                            "convert: codec"@,
                            options,
                            selected_spec(options, codec.ffmpeg_name()),
                        ),
                    )
                },
            },
            KindView::Metadata { fields } => self.enter(
                fresh_picker(
                    PickerKindView::MetadataKey { modifier: m.id },
                    "metadata: choose field"@,
                    field_options(fields, metadata_keys(), true),
                    0,
                ),
            ),
            KindView::Disposition { flags } => self.enter(
                fresh_picker(
                    PickerKindView::DispositionFlags { modifier: m.id },
                    "disposition: toggle flags"@,
                    disposition_options(flags),
                    0,
                ),
            ),
            KindView::Filter { name, fields } => match input_kind(self.graph, m.id) {
                None => self.say(
                    "connect this node's input first ('c'), then 'e' to configure "@
                        + name.label_spec(),
                ),
                Some(kind) => if name.applies_spec(kind) {
                    self.enter(
                        fresh_picker(
                            PickerKindView::FilterField { modifier: m.id },
                            name.label_spec() + ": choose field"@,
                            field_options(fields, name.fields_spec(), false),
                            0,
                        ),
                    )
                } else {
                    self.say(
                        name.label_spec() + " doesn't apply to "@ + kind.noun_spec() + " streams"@,
                    )
                },
            },
            KindView::ChapterEdit { .. } => self.enter(
                ModeView::ChapterTable { modifier: m.id, row: 0, col: ChapterColumn::Start },
            ),
            KindView::Concat => self.say(
                "nothing to configure -- arm a stream and 'c' to add/reorder segments"@,
            ),
        }
    }

    /// 'e' on a modifier: its main setting.
    pub open spec fn activate_modifier(self) -> AppView {
        match self.focus {
            Focus::Modifier(i) => if (i as int) < self.graph.modifiers.len() {
                self.edit_modifier(self.graph.modifiers[i as int])
            } else {
                self
            },
            _ => self.say("focus a convert or metadata node, then 'e' edits its setting"@),
        }
    }

    /// 'e': the focused node's main setting, whatever kind of node it is.
    pub open spec fn activate_focused(self) -> AppView {
        match self.focus {
            Focus::Modifier(_) => self.activate_modifier(),
            Focus::Input(i) => if (i as int) < self.graph.inputs.len() {
                self.open_extra_args_picker(
                    ExtraArgsTarget::Input(self.graph.inputs[i as int].id),
                )
            } else {
                self
            },
            Focus::Output(i) => if (i as int) < self.graph.outputs.len() {
                self.open_extra_args_picker(
                    ExtraArgsTarget::Output(self.graph.outputs[i as int].id),
                )
            } else {
                self
            },
        }
    }
}

impl App {
    /// The kind of stream that flows into a modifier, if one does.
    pub fn modifier_input_kind(&self, modifier_id: NodeId) -> (r: Option<StreamKind>)
        ensures
            r == input_kind(self@.graph, modifier_id),
    {
        match self.graph.first_feed(Target::ModifierIn(modifier_id)) {
            Some(from) => self.graph.endpoint_stream_kind(from),
            None => None,
        }
    }

    /// The codecs that a convert node offers for a kind.
    fn codec_picker_options(&self, kind: StreamKind) -> (r: Vec<PickerEntry>)
        ensures
            views(r@) == codec_options(self@.available_encoders, kind),
    {
        let curated = Codec::curated_fallback(kind);
        let mut names: Vec<String> = Vec::new();
        let mut i: usize = 0;
        while i < curated.len()
            invariant
                i <= curated@.len(),
                names@.len() == i,
                curated@.len() == fallback_names(kind).len(),
                forall|k: int|
                    0 <= k < curated@.len() ==> (#[trigger] curated@[k])@
                        == crate::graph::stream::CodecView::Encode(fallback_names(kind)[k]),
                forall|k: int| 0 <= k < i ==> (#[trigger] names@[k])@ == fallback_names(kind)[k],
            decreases curated@.len() - i,
        {
            if let Some(name) = curated[i].ffmpeg_name() {
                names.push(name.to_owned());
            }
            i += 1;
        }
        assert(views(names@) == fallback_names(kind));
        let mut found: Vec<String> = Vec::new();
        let mut k: usize = 0;
        assert(views(found@) == Seq::<Seq<char>>::empty());
        while k < self.available_encoders.len()
            invariant
                k <= self.available_encoders@.len(),
                views(found@) == encoders_for(self@.available_encoders, kind, k as int),
            decreases self.available_encoders@.len() - k,
        {
            broadcast use group_views;

            if self.available_encoders[k].1 == kind {
                found.push(self.available_encoders[k].0.clone());
            }
            k += 1;
        }
        let offer = prioritize_and_extend(&names, &found);
        picker_options("copy (no re-encode)", &offer)
    }

    /// 'e' on a modifier: a picker of codecs for a convert node, of fields for
    /// a metadata or filter node, of flags for a disposition node, and the
    /// table of a chapter node.
    pub fn activate_modifier(&mut self)
        ensures
            final(self)@ == old(self)@.activate_modifier(),
    {
        let i: usize = match self.focus {
            Focus::Modifier(i) => i,
            _ => {
                self.say("focus a convert or metadata node, then 'e' edits its setting");
                return;
            },
        };
        if i >= self.graph.modifiers.len() {
            return;
        }
        assert(self@.graph.modifiers[i as int] == self.graph.modifiers@[i as int]@);
        let mid: NodeId = self.graph.modifiers[i].id;
        match &self.graph.modifiers[i].kind {
            ModifierKind::Convert(current) => {
                let kind = match self.modifier_input_kind(mid) {
                    Some(kind) => kind,
                    None => {
                        self.say("connect this node's input first ('c'), then 'e' to pick a codec");
                        return;
                    },
                };
                let options = self.codec_picker_options(kind);
                let selected: usize = selected_index(&options, current.ffmpeg_name());
                self.mode = open_picker(
                    PickerKind::Codec { modifier: mid },
                    "convert: codec".to_owned(),
                    options,
                    selected,
                );
            },
            ModifierKind::Metadata { fields } => {
                let kind = match self.modifier_input_kind(mid) {
                    Some(kind) => kind,
                    None => StreamKind::Other,
                };
                let keys = metadata_keys_for(kind);
                let options = field_picker_options(fields, &keys, true);
                self.mode = open_picker(
                    PickerKind::MetadataKey { modifier: mid },
                    "metadata: choose field".to_owned(),
                    options,
                    0,
                );
            },
            ModifierKind::Disposition { flags } => {
                let options = disposition_picker_options(flags);
                self.mode = open_picker(
                    PickerKind::DispositionFlags { modifier: mid },
                    "disposition: toggle flags".to_owned(),
                    options,
                    0,
                );
            },
            ModifierKind::Filter { name, fields } => {
                let name = *name;
                let kind = match self.modifier_input_kind(mid) {
                    Some(kind) => kind,
                    None => {
                        let line = cat2(
                            "connect this node's input first ('c'), then 'e' to configure ",
                            name.label(),
                        );
                        self.say(line.as_str());
                        return;
                    },
                };
                if !name.applies_to(kind) {
                    let line = cat4(name.label(), " doesn't apply to ", kind.noun(), " streams");
                    self.say(line.as_str());
                    return;
                }
                let keys = name.fields();
                let options = field_picker_options(fields, &keys, false);
                self.mode = open_picker(
                    PickerKind::FilterField { modifier: mid },
                    cat2(name.label(), ": choose field"),
                    options,
                    0,
                );
            },
            ModifierKind::ChapterEdit { .. } => {
                self.open_chapter_table(mid);
            },
            ModifierKind::Concat => {
                self.say("nothing to configure -- arm a stream and 'c' to add/reorder segments");
            },
        }
    }

    /// 'e': edits the focused node's main setting, whatever kind of node it
    /// is: a modifier's own, or the further options of an input or output.
    pub fn activate_focused(&mut self)
        ensures
            final(self)@ == old(self)@.activate_focused(),
    {
        match self.focus {
            Focus::Modifier(_) => self.activate_modifier(),
            Focus::Input(i) => {
                if i < self.graph.inputs.len() {
                    let id: NodeId = self.graph.inputs[i].id;
                    self.open_extra_args_picker(ExtraArgsTarget::Input(id));
                }
            },
            Focus::Output(i) => {
                if i < self.graph.outputs.len() {
                    let id: NodeId = self.graph.outputs[i].id;
                    self.open_extra_args_picker(ExtraArgsTarget::Output(id));
                }
            },
        }
    }
}

// ---------------------------------------------------------------------
// Removing
// ---------------------------------------------------------------------

/// The smaller of two positions.
pub open spec fn at_most(a: int, b: int) -> int {
    if a < b {
        a
    } else {
        b
    }
}

impl AppView {
    /// Without the input at position `i`. The chapter nodes that it fed lose
    /// what they imported, and nothing of it stays armed or selected.
    pub open spec fn delete_input(self, i: int) -> AppView {
        let node = self.graph.inputs[i];
        let affected = fed_by_input(self.graph, node.id, self.graph.wires.len() as int);
        let graph = sync_upto(self.graph.remove_input(node.id), affected, affected.len() as int);
        let a = AppView {
            graph,
            armed: endpoints_off_input(self.armed, node.id, self.armed.len() as int),
            selected: endpoints_off_input(self.selected, node.id, self.selected.len() as int),
            ..self
        };
        a.say("removed input: "@ + node.path).set_focus_index(
            at_most(i, a.graph.inputs.len() as int),
        )
    }

    /// Without the modifier at position `i`, which does not stay armed.
    pub open spec fn delete_modifier(self, i: int) -> AppView {
        let id = self.graph.modifiers[i].id;
        let a = AppView {
            graph: self.graph.remove_modifier(id),
            armed: endpoints_except(
                self.armed,
                Endpoint::ModifierOut(id),
                self.armed.len() as int,
            ),
            ..self
        };
        a.say("removed modifier node"@).set_focus_index(
            at_most(a.graph.inputs.len() + i, before_last(a.node_count())),
        )
    }

    /// Without the output at position `i`.
    pub open spec fn delete_output(self, i: int) -> AppView {
        let node = self.graph.outputs[i];
        let a = self.with_graph(self.graph.remove_output(node.id));
        a.say("removed output: "@ + node.path).set_focus_index(
            at_most(
                a.graph.inputs.len() + a.graph.modifiers.len() + i,
                before_last(a.node_count()),
            ),
        )
    }

    /// 'x': without the focused node. The last output stays.
    pub open spec fn delete_focused_node(self) -> AppView {
        match self.focus {
            Focus::Input(i) => if (i as int) < self.graph.inputs.len() {
                self.delete_input(i as int)
            } else {
                self
            },
            Focus::Modifier(i) => if (i as int) < self.graph.modifiers.len() {
                self.delete_modifier(i as int)
            } else {
                self
            },
            Focus::Output(i) => if self.graph.outputs.len() <= 1 {
                self.say("can't remove the last output"@)
            } else if (i as int) < self.graph.outputs.len() {
                self.delete_output(i as int)
            } else {
                self
            },
        }
    }
}

/// The position of the last of `n` nodes.
pub open spec fn before_last(n: int) -> int {
    if n > 0 {
        n - 1
    } else {
        0
    }
}

impl App {
    /// Focuses the node at this position, or the last one there is.
    fn focus_at_most(&mut self, idx: u128)
        ensures
            final(self)@ == old(self)@.set_focus_index(
                at_most(idx as int, before_last(old(self)@.node_count())),
            ),
    {
        let count: u128 = self.node_count();
        let last: u128 = if count > 0 {
            count - 1
        } else {
            0
        };
        if idx < last {
            self.set_focus_index(idx);
        } else {
            self.set_focus_index(last);
        }
    }

    /// 'x': removes the focused node. An input or a modifier can always be
    /// removed, an output as long as it is not the last one.
    pub fn delete_focused_node(&mut self)
        ensures
            final(self)@ == old(self)@.delete_focused_node(),
    {
        match self.focus {
            Focus::Input(i) => {
                if i >= self.graph.inputs.len() {
                    return;
                }
                let id: NodeId = self.graph.inputs[i].id;
                let path = self.graph.inputs[i].path.clone();
                let affected = chapter_edit_modifiers_fed_by_input(&self.graph, id);
                self.graph.remove_input(id);
                sync_all(&mut self.graph, &affected);
                self.armed.remove_input(id);
                self.selected.remove_input(id);
                let line = cat2("removed input: ", path.as_str());
                self.say(line.as_str());
                let n: usize = self.graph.inputs.len();
                self.set_focus_index(
                    if i < n {
                        i as u128
                    } else {
                        n as u128
                    },
                );
            },
            Focus::Modifier(i) => {
                if i >= self.graph.modifiers.len() {
                    return;
                }
                let id: NodeId = self.graph.modifiers[i].id;
                self.graph.remove_modifier(id);
                self.armed.remove(Endpoint::ModifierOut(id));
                self.say("removed modifier node");
                let idx: u128 = self.graph.inputs.len() as u128 + i as u128;
                self.focus_at_most(idx);
            },
            Focus::Output(i) => {
                if self.graph.outputs.len() <= 1 {
                    self.say("can't remove the last output");
                    return;
                }
                if i >= self.graph.outputs.len() {
                    return;
                }
                let id: NodeId = self.graph.outputs[i].id;
                let path = self.graph.outputs[i].path.clone();
                self.graph.remove_output(id);
                let line = cat2("removed output: ", path.as_str());
                self.say(line.as_str());
                let idx: u128 = self.graph.inputs.len() as u128 + self.graph.modifiers.len() as u128
                    + i as u128;
                self.focus_at_most(idx);
            },
        }
    }
}

// ---------------------------------------------------------------------
// Duplicating
// ---------------------------------------------------------------------

/// The place of a duplicate: a little below and to the right.
pub open spec fn beside(pos: (i64, i64)) -> (i64, i64) {
    (cell(pos.0 + 2), cell(pos.1 + 2))
}

fn place_beside(pos: (i64, i64)) -> (r: (i64, i64))
    ensures
        r == beside(pos),
{
    let x: i64 = if pos.0 > i64::MAX - 2 {
        i64::MAX
    } else {
        pos.0 + 2
    };
    let y: i64 = if pos.1 > i64::MAX - 2 {
        i64::MAX
    } else {
        pos.1 + 2
    };
    (x, y)
}

/// The graph with the first `n` of these sources connected to a target, one
/// after the other.
pub open spec fn connect_upto(g: GraphView, sources: Seq<Endpoint>, to: Target, n: int) -> GraphView
    decreases n,
{
    if n <= 0 {
        g
    } else {
        connect_upto(g, sources, to, n - 1).connect(sources[n - 1], to)
    }
}

/// Connecting changes wires alone.
pub proof fn lemma_connect_keeps_nodes(g: GraphView, sources: Seq<Endpoint>, to: Target, n: int)
    ensures
        connect_upto(g, sources, to, n) == (GraphView {
            wires: connect_upto(g, sources, to, n).wires,
            ..g
        }),
    decreases n,
{
    if n > 0 {
        lemma_connect_keeps_nodes(g, sources, to, n - 1);
    }
}

/// The graph with all of these sources connected to a target.
pub open spec fn connect_all(g: GraphView, sources: Seq<Endpoint>, to: Target) -> GraphView {
    connect_upto(g, sources, to, sources.len() as int)
}

/// The paths of some outputs.
pub open spec fn output_paths(outputs: Seq<OutputView>) -> Seq<Seq<char>> {
    Seq::new(outputs.len(), |i: int| outputs[i].path)
}

impl GraphView {
    /// The graph with a copy of the input at position `i`.
    pub open spec fn duplicate_input(self, i: int) -> GraphView {
        let node = self.inputs[i];
        let g = self.add_input(
            node.path,
            media_streams(node.streams),
            node.chapters,
        );
        match g.input_at(self.next_id) {
            Some(k) => g.set_input(
                k,
                InputView {
                    extra_args: node.extra_args,
                    pos: beside(node.pos),
                    width: node.width,
                    ..g.inputs[k]
                },
            ),
            None => g,
        }
    }

    /// The graph with a copy of the modifier at position `i`, fed by what
    /// feeds the original.
    pub open spec fn duplicate_modifier(self, i: int) -> GraphView {
        let node = self.modifiers[i];
        let g = self.add_modifier(node.kind);
        let placed = match g.modifier_at(self.next_id) {
            Some(k) => g.set_modifier(
                k,
                ModifierView { pos: beside(node.pos), width: node.width, ..g.modifiers[k] },
            ),
            None => g,
        };
        connect_all(
            placed,
            feeds(self.wires, Target::ModifierIn(node.id)),
            Target::ModifierIn(self.next_id),
        )
    }

    /// The graph with a copy of the output at position `i`, fed by what feeds
    /// the original, and with a path of its own.
    pub open spec fn duplicate_output(self, i: int) -> GraphView {
        let node = self.outputs[i];
        let g = self.add_output();
        let placed = match g.output_at(self.next_id) {
            Some(k) => g.set_output(
                k,
                OutputView {
                    path: copied_path(node.path, output_paths(self.outputs)),
                    container: node.container,
                    extra_args: node.extra_args,
                    pos: beside(node.pos),
                    width: node.width,
                    ..g.outputs[k]
                },
            ),
            None => g,
        };
        let wired = connect_all(
            placed,
            feeds(self.wires, Target::Output(node.id)),
            Target::Output(self.next_id),
        );
        match feed(self.wires, Target::OutputChapters(node.id)) {
            Some(from) => wired.connect(from, Target::OutputChapters(self.next_id)),
            None => wired,
        }
    }
}

impl AppView {
    /// 'y': with a copy of the focused node, which is then focused.
    pub open spec fn duplicate_focused_node(self) -> AppView {
        match self.focus {
            Focus::Input(i) => if (i as int) < self.graph.inputs.len() {
                let a = self.with_graph(self.graph.duplicate_input(i as int));
                a.set_focus_index(a.graph.inputs.len() - 1).say("duplicated input node"@)
            } else {
                self
            },
            Focus::Modifier(i) => if (i as int) < self.graph.modifiers.len() {
                let a = self.with_graph(self.graph.duplicate_modifier(i as int));
                a.set_focus_index(a.graph.inputs.len() + a.graph.modifiers.len() - 1).say(
                    "duplicated modifier node"@,
                )
            } else {
                self
            },
            Focus::Output(i) => if (i as int) < self.graph.outputs.len() {
                let a = self.with_graph(self.graph.duplicate_output(i as int));
                a.set_focus_index(a.node_count() - 1).say("duplicated output node"@)
            } else {
                self
            },
        }
    }
}

/// Connects all of these sources to a target.
pub fn connect_sources(graph: &mut Graph, sources: &Vec<Endpoint>, to: Target)
    ensures
        final(graph)@ == connect_all(old(graph)@, sources@, to),
{
    let mut i: usize = 0;
    while i < sources.len()
        invariant
            i <= sources@.len(),
            graph@ == connect_upto(old(graph)@, sources@, to, i as int),
        decreases sources@.len() - i,
    {
        graph.connect(sources[i], to);
        i += 1;
    }
}

/// The sources that feed a target, in the order of their wires.
pub fn sources_into(graph: &Graph, to: Target) -> (r: Vec<Endpoint>)
    ensures
        r@ == feeds(graph@.wires, to),
{
    let at = graph.incoming(to);
    let mut out: Vec<Endpoint> = Vec::new();
    let mut i: usize = 0;
    while i < at.len()
        invariant
            i <= at@.len(),
            out@ == sources_of(graph@.wires, at@).take(i as int),
            forall|k: int| 0 <= k < at@.len() ==> #[trigger] at@[k] < graph.wires@.len(),
        decreases at@.len() - i,
    {
        out.push(graph.wires[at[i]].from);
        i += 1;
        assert(out@ == sources_of(graph@.wires, at@).take(i as int));
    }
    assert(out@ == sources_of(graph@.wires, at@));
    out
}

impl App {
    /// 'y': duplicates the focused node, with its settings, a little below and
    /// to the right, and focuses the copy. What feeds a modifier or an output
    /// feeds the copy too; what the original feeds is left alone.
    pub fn duplicate_focused_node(&mut self)
        requires
            old(self).graph.next_id < usize::MAX,
        ensures
            final(self)@ == old(self)@.duplicate_focused_node(),
    {
        match self.focus {
            Focus::Input(i) => {
                if i >= self.graph.inputs.len() {
                    return;
                }
                self.duplicate_input(i);
            },
            Focus::Modifier(i) => {
                if i >= self.graph.modifiers.len() {
                    return;
                }
                self.duplicate_modifier(i);
            },
            Focus::Output(i) => {
                if i >= self.graph.outputs.len() {
                    return;
                }
                self.duplicate_output(i);
            },
        }
    }

    fn duplicate_input(&mut self, i: usize)
        requires
            old(self).graph.next_id < usize::MAX,
            i < old(self).graph.inputs@.len(),
        ensures
            final(self)@ == ({
                let a = old(self)@.with_graph(old(self)@.graph.duplicate_input(i as int));
                a.set_focus_index(a.graph.inputs.len() - 1).say("duplicated input node"@)
            }),
    {
        broadcast use group_views;

        let node = &self.graph.inputs[i];
        let path = node.path.clone();
        let streams = copy_media_streams(&node.streams);
        let chapters = copy_chapters(&node.chapters);
        let extra_args = node.extra_args.clone();
        let pos = place_beside(node.pos);
        let width: u16 = node.width;
        let id: NodeId = self.graph.add_input(path, streams, chapters);
        if let Some(copy) = self.graph.input_mut(id) {
            copy.extra_args = extra_args;
            copy.pos = pos;
            copy.width = width;
        }
        assert(self@.graph == old(self)@.graph.duplicate_input(i as int));
        self.set_focus_index((self.graph.inputs.len() - 1) as u128);
        self.say("duplicated input node");
    }

    fn duplicate_modifier(&mut self, i: usize)
        requires
            old(self).graph.next_id < usize::MAX,
            i < old(self).graph.modifiers@.len(),
        ensures
            final(self)@ == ({
                let a = old(self)@.with_graph(old(self)@.graph.duplicate_modifier(i as int));
                a.set_focus_index(a.graph.inputs.len() + a.graph.modifiers.len() - 1).say(
                    "duplicated modifier node"@,
                )
            }),
    {
        broadcast use group_views;

        let node = &self.graph.modifiers[i];
        let kind = node.kind.clone();
        let pos = place_beside(node.pos);
        let width: u16 = node.width;
        let sources = sources_into(&self.graph, Target::ModifierIn(node.id));
        let id: NodeId = self.graph.add_modifier(kind);
        if let Some(copy) = self.graph.modifier_mut(id) {
            copy.pos = pos;
            copy.width = width;
        }
        let ghost placed = self@.graph;
        connect_sources(&mut self.graph, &sources, Target::ModifierIn(id));
        assert(self@.graph == old(self)@.graph.duplicate_modifier(i as int));
        let count: u128 = self.graph.inputs.len() as u128 + self.graph.modifiers.len() as u128;
        proof {
            lemma_connect_keeps_nodes(placed, sources@, Target::ModifierIn(id), sources@.len() as int);
        }
        self.set_focus_index(count - 1);
        self.say("duplicated modifier node");
    }

    fn duplicate_output(&mut self, i: usize)
        requires
            old(self).graph.next_id < usize::MAX,
            i < old(self).graph.outputs@.len(),
        ensures
            final(self)@ == ({
                let a = old(self)@.with_graph(old(self)@.graph.duplicate_output(i as int));
                a.set_focus_index(a.node_count() - 1).say("duplicated output node"@)
            }),
    {
        broadcast use group_views;

        let mut taken: Vec<String> = Vec::new();
        let mut k: usize = 0;
        while k < self.graph.outputs.len()
            invariant
                k <= self.graph.outputs@.len(),
                taken@.len() == k,
                forall|j: int|
                    0 <= j < k ==> (#[trigger] taken@[j])@ == self.graph.outputs@[j].path@,
            decreases self.graph.outputs@.len() - k,
        {
            taken.push(self.graph.outputs[k].path.clone());
            k += 1;
        }
        assert(views(taken@) == output_paths(self@.graph.outputs));
        let node = &self.graph.outputs[i];
        let path = copy_path(node.path.as_str(), &taken);
        let container = opt_copy(&node.container);
        let extra_args = node.extra_args.clone();
        let pos = place_beside(node.pos);
        let width: u16 = node.width;
        let sources = sources_into(&self.graph, Target::Output(node.id));
        let chapter_from = self.graph.first_feed(Target::OutputChapters(node.id));
        let id: NodeId = self.graph.add_output();
        if let Some(copy) = self.graph.output_mut(id) {
            copy.path = path;
            copy.container = container;
            copy.extra_args = extra_args;
            copy.pos = pos;
            copy.width = width;
        }
        let ghost placed = self@.graph;
        connect_sources(&mut self.graph, &sources, Target::Output(id));
        proof {
            lemma_connect_keeps_nodes(placed, sources@, Target::Output(id), sources@.len() as int);
        }
        if let Some(from) = chapter_from {
            self.graph.connect(from, Target::OutputChapters(id));
        }
        assert(self@.graph == old(self)@.graph.duplicate_output(i as int));
        let count: u128 = self.node_count();
        self.set_focus_index(count - 1);
        self.say("duplicated output node");
    }
}

} // verus!
