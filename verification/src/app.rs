//! The editor around the graph, as a state machine: what each key and each
//! reply from outside does to it, and what it asks for in turn.
pub mod behaviour;
pub mod chapters;
pub mod connect;
pub mod editing_laws;
pub mod keys;
pub mod laws;
pub mod navigation;
pub mod nodes;
pub mod picker;
pub mod project;
pub mod render;
pub mod scrub;
pub mod session_laws;
pub mod shown_laws;
pub mod settings;
pub mod text_input;
pub mod wiring_laws;

use vstd::prelude::*;

use crate::ffmpeg::encoder_views;
use crate::graph::chapter::{Seconds, SecondsView};
use crate::graph::stream::StreamKind;
use crate::graph::wire::{Endpoint, EndpointSet, NodeId};
use crate::graph::{Graph, GraphView};
use crate::line::{line_view, LineView};
use crate::text::{group_views, opt_text, views};
use chapters::ChapterColumn;

verus! {

/// Which node has the focus, by its position among its kind.
#[derive(Clone, Copy, Debug, PartialEq, Eq, Structural)]
pub enum Focus {
    Input(usize),
    Modifier(usize),
    Output(usize),
}

/// Which of a chapter's two times is being typed.
#[derive(Clone, Copy, Debug, PartialEq, Eq, Structural)]
pub enum ChapterTimeField {
    Start,
    End,
}

/// Which node's further options are being edited.
#[derive(Clone, Copy, Debug, PartialEq, Eq, Structural)]
pub enum ExtraArgsTarget {
    Input(NodeId),
    Output(NodeId),
}

/// What is being typed.
pub enum TextTarget {
    NewInputPath,
    OutputPath(NodeId),
    /// The value of a metadata field.
    ModifierMetadataValue { modifier: NodeId, key: String },
    /// The name of a metadata field, before its value.
    ModifierCustomKey(NodeId),
    /// The value of a filter's parameter.
    ModifierFilterValue { modifier: NodeId, key: String },
    /// The value of a further option.
    ExtraArgValue { target: ExtraArgsTarget, key: String },
    /// The name of a further option, before its value.
    ExtraArgCustomKey(ExtraArgsTarget),
    ChapterTime { modifier: NodeId, index: usize, field: ChapterTimeField },
    ChapterTitle { modifier: NodeId, index: usize },
    /// The time to jump to while scrubbing.
    ScrubSeek,
    SaveProjectPath,
    LoadProjectPath,
}

#[verifier::ext_equal]
pub enum TargetView {
    NewInputPath,
    OutputPath(NodeId),
    ModifierMetadataValue { modifier: NodeId, key: Seq<char> },
    ModifierCustomKey(NodeId),
    ModifierFilterValue { modifier: NodeId, key: Seq<char> },
    ExtraArgValue { target: ExtraArgsTarget, key: Seq<char> },
    ExtraArgCustomKey(ExtraArgsTarget),
    ChapterTime { modifier: NodeId, index: usize, field: ChapterTimeField },
    ChapterTitle { modifier: NodeId, index: usize },
    ScrubSeek,
    SaveProjectPath,
    LoadProjectPath,
}

impl View for TextTarget {
    type V = TargetView;

    open spec fn view(&self) -> TargetView {
        match self {
            TextTarget::NewInputPath => TargetView::NewInputPath,
            TextTarget::OutputPath(id) => TargetView::OutputPath(*id),
            TextTarget::ModifierMetadataValue { modifier, key } => {
                TargetView::ModifierMetadataValue { modifier: *modifier, key: key@ }
            },
            TextTarget::ModifierCustomKey(id) => TargetView::ModifierCustomKey(*id),
            TextTarget::ModifierFilterValue { modifier, key } => TargetView::ModifierFilterValue {
                modifier: *modifier,
                key: key@,
            },
            TextTarget::ExtraArgValue { target, key } => TargetView::ExtraArgValue {
                target: *target,
                key: key@,
            },
            TextTarget::ExtraArgCustomKey(target) => TargetView::ExtraArgCustomKey(*target),
            TextTarget::ChapterTime { modifier, index, field } => TargetView::ChapterTime {
                modifier: *modifier,
                index: *index,
                field: *field,
            },
            TextTarget::ChapterTitle { modifier, index } => TargetView::ChapterTitle {
                modifier: *modifier,
                index: *index,
            },
            TextTarget::ScrubSeek => TargetView::ScrubSeek,
            TextTarget::SaveProjectPath => TargetView::SaveProjectPath,
            TextTarget::LoadProjectPath => TargetView::LoadProjectPath,
        }
    }
}

impl TargetView {
    /// Whether completions of a path are offered while typing.
    pub open spec fn is_path(self) -> bool {
        match self {
            TargetView::NewInputPath
            | TargetView::OutputPath(_)
            | TargetView::SaveProjectPath
            | TargetView::LoadProjectPath => true,
            _ => false,
        }
    }
}

/// What is being chosen.
pub enum PickerKind {
    /// The codec of a convert node.
    Codec { modifier: NodeId },
    Container { output: NodeId },
    /// The kind of node to add.
    NewNode,
    /// The metadata field to edit.
    MetadataKey { modifier: NodeId },
    /// The disposition flags to toggle. Confirming an entry toggles it and
    /// leaves the picker open.
    DispositionFlags { modifier: NodeId },
    /// The filter parameter to edit.
    FilterField { modifier: NodeId },
    /// The value of a filter parameter that accepts a fixed set of values.
    FilterFieldValue { modifier: NodeId, key: String },
    /// The further option to edit. One that takes no value is toggled and
    /// leaves the picker open.
    ExtraArgField { target: ExtraArgsTarget },
}

#[verifier::ext_equal]
pub enum PickerKindView {
    Codec { modifier: NodeId },
    Container { output: NodeId },
    NewNode,
    MetadataKey { modifier: NodeId },
    DispositionFlags { modifier: NodeId },
    FilterField { modifier: NodeId },
    FilterFieldValue { modifier: NodeId, key: Seq<char> },
    ExtraArgField { target: ExtraArgsTarget },
}

impl View for PickerKind {
    type V = PickerKindView;

    open spec fn view(&self) -> PickerKindView {
        match self {
            PickerKind::Codec { modifier } => PickerKindView::Codec { modifier: *modifier },
            PickerKind::Container { output } => PickerKindView::Container { output: *output },
            PickerKind::NewNode => PickerKindView::NewNode,
            PickerKind::MetadataKey { modifier } => PickerKindView::MetadataKey {
                modifier: *modifier,
            },
            PickerKind::DispositionFlags { modifier } => PickerKindView::DispositionFlags {
                modifier: *modifier,
            },
            PickerKind::FilterField { modifier } => PickerKindView::FilterField {
                modifier: *modifier,
            },
            PickerKind::FilterFieldValue { modifier, key } => PickerKindView::FilterFieldValue {
                modifier: *modifier,
                key: key@,
            },
            PickerKind::ExtraArgField { target } => PickerKindView::ExtraArgField {
                target: *target,
            },
        }
    }
}

/// One line of a picker.
pub struct PickerEntry {
    pub display: String,
    /// What the entry stands for. `None` is the choice that resets, or the one
    /// that asks for a name first.
    pub value: Option<String>,
}

#[verifier::ext_equal]
pub struct EntryView {
    pub display: Seq<char>,
    pub value: Option<Seq<char>>,
}

impl View for PickerEntry {
    type V = EntryView;

    open spec fn view(&self) -> EntryView {
        EntryView { display: self.display@, value: opt_text(self.value) }
    }
}

/// What keys mean at the moment.
pub enum Mode {
    Normal,
    TextInput {
        target: TextTarget,
        input: tui_input::Input,
        /// The paths that the typed one can be completed to.
        suggestions: Vec<String>,
        selected: usize,
    },
    Picker {
        kind: PickerKind,
        title: String,
        options: Vec<PickerEntry>,
        /// A position among the options that match the query.
        selected: usize,
        query: String,
        /// Whether keys go into the query.
        searching: bool,
    },
    /// A chapter node's list as a table. The row behind the last chapter adds
    /// one.
    ChapterTable { modifier: NodeId, row: usize, col: ChapterColumn },
    /// A player is open to find trim points with.
    Scrub,
}

#[verifier::ext_equal]
pub enum ModeView {
    Normal,
    TextInput {
        target: TargetView,
        line: LineView,
        suggestions: Seq<Seq<char>>,
        selected: usize,
    },
    Picker {
        kind: PickerKindView,
        title: Seq<char>,
        options: Seq<EntryView>,
        selected: usize,
        query: Seq<char>,
        searching: bool,
    },
    ChapterTable { modifier: NodeId, row: usize, col: ChapterColumn },
    Scrub,
}

impl View for Mode {
    type V = ModeView;

    open spec fn view(&self) -> ModeView {
        match self {
            Mode::Normal => ModeView::Normal,
            Mode::TextInput { target, input, suggestions, selected } => ModeView::TextInput {
                target: target@,
                line: line_view(*input),
                suggestions: views(suggestions@),
                selected: *selected,
            },
            Mode::Picker { kind, title, options, selected, query, searching } => ModeView::Picker {
                kind: kind@,
                title: title@,
                options: views(options@),
                selected: *selected,
                query: query@,
                searching: *searching,
            },
            Mode::ChapterTable { modifier, row, col } => ModeView::ChapterTable {
                modifier: *modifier,
                row: *row,
                col: *col,
            },
            Mode::Scrub => ModeView::Scrub,
        }
    }
}

/// The player behind a scrub session.
pub enum ScrubBackend {
    /// mpv, which takes commands over a socket; `headless` draws into the
    /// terminal.
    Mpv { socket_path: String, headless: bool },
    /// ffplay, which takes no commands at all.
    Ffplay,
}

pub enum BackendView {
    Mpv { socket_path: Seq<char>, headless: bool },
    Ffplay,
}

impl View for ScrubBackend {
    type V = BackendView;

    open spec fn view(&self) -> BackendView {
        match self {
            ScrubBackend::Mpv { socket_path, headless } => BackendView::Mpv {
                socket_path: socket_path@,
                headless: *headless,
            },
            ScrubBackend::Ffplay => BackendView::Ffplay,
        }
    }
}

/// A player that is open on the file that feeds a trim node.
pub struct ScrubSession {
    pub modifier_id: NodeId,
    pub path: String,
    pub backend: ScrubBackend,
}

pub struct SessionView {
    pub modifier_id: NodeId,
    pub path: Seq<char>,
    pub backend: BackendView,
}

impl View for ScrubSession {
    type V = SessionView;

    open spec fn view(&self) -> SessionView {
        SessionView {
            modifier_id: self.modifier_id,
            path: self.path@,
            backend: self.backend@,
        }
    }
}

/// The view of an optional session.
pub open spec fn opt_session(o: Option<ScrubSession>) -> Option<SessionView> {
    match o {
        Some(s) => Some(s@),
        None => None,
    }
}

/// The editor's state.
pub struct App {
    pub graph: Graph,
    pub focus: Focus,
    /// The selected row of the focused node: a stream of an input, or a
    /// connection of a modifier or an output.
    pub row_idx: usize,
    pub mode: Mode,
    /// Sources that wait to be wired into the node that is focused next.
    pub armed: EndpointSet,
    /// Ports that are picked but not armed yet.
    pub selected: EndpointSet,
    /// The row that a range selection started from. Any key but one that
    /// extends the range resets it.
    pub selection_anchor: Option<usize>,
    /// How many characters the focused node's text is scrolled by.
    pub text_scroll: u16,
    /// The first log line that is shown; `None` follows the newest ones.
    pub log_scroll: Option<usize>,
    /// How many columns the log is scrolled by.
    pub log_hscroll: u16,
    pub log: Vec<String>,
    pub status: String,
    pub running: bool,
    /// The file that the running job renders a preview to, if it does.
    pub preview_target: Option<String>,
    /// A preview that has been rendered and waits to be played.
    pub preview_ready: Option<String>,
    pub should_quit: bool,
    /// What this machine's ffmpeg supports; empty where that is not known.
    pub available_encoders: Vec<(String, StreamKind)>,
    pub available_muxers: Vec<String>,
    pub has_teletext_decoder: bool,
    pub scrub: Option<ScrubSession>,
}

#[verifier::ext_equal]
pub struct AppView {
    pub graph: GraphView,
    pub focus: Focus,
    pub row_idx: usize,
    pub mode: ModeView,
    pub armed: Seq<Endpoint>,
    pub selected: Seq<Endpoint>,
    pub selection_anchor: Option<usize>,
    pub text_scroll: u16,
    pub log_scroll: Option<usize>,
    pub log_hscroll: u16,
    pub log: Seq<Seq<char>>,
    pub status: Seq<char>,
    pub running: bool,
    pub preview_target: Option<Seq<char>>,
    pub preview_ready: Option<Seq<char>>,
    pub should_quit: bool,
    pub available_encoders: Seq<(Seq<char>, StreamKind)>,
    pub available_muxers: Seq<Seq<char>>,
    pub has_teletext_decoder: bool,
    pub scrub: Option<SessionView>,
}

impl View for App {
    type V = AppView;

    open spec fn view(&self) -> AppView {
        AppView {
            graph: self.graph@,
            focus: self.focus,
            row_idx: self.row_idx,
            mode: self.mode@,
            armed: self.armed@,
            selected: self.selected@,
            selection_anchor: self.selection_anchor,
            text_scroll: self.text_scroll,
            log_scroll: self.log_scroll,
            log_hscroll: self.log_hscroll,
            log: views(self.log@),
            status: self.status@,
            running: self.running,
            preview_target: opt_text(self.preview_target),
            preview_ready: opt_text(self.preview_ready),
            should_quit: self.should_quit,
            available_encoders: encoder_views(self.available_encoders@),
            available_muxers: views(self.available_muxers@),
            has_teletext_decoder: self.has_teletext_decoder,
            scrub: opt_session(self.scrub),
        }
    }
}

/// What the editor asks of the program around it.
pub enum Request {
    Nothing,
    /// Complete this path, and hand the completions to `suggestions_listed`.
    ListPaths(String),
    /// Probe this file, and hand the result to `input_probed`.
    Probe(String),
    /// Write the project to this file, and hand the outcome to
    /// `project_saved`.
    SaveProject(String),
    /// Read the project in this file, and hand it to `project_loaded`.
    LoadProject(String),
    /// Write the chapter files, and go on with `run_render`.
    Render,
    /// Write the chapter files, and go on with `run_preview`.
    Preview,
    /// See which players there are, and go on with `start_scrub`.
    Scrub,
    /// Tell the player to play or pause.
    ScrubPlayPause,
    /// Tell the player to step by a frame.
    ScrubStepFrame(bool),
    /// Tell the player to seek by a second.
    ScrubSeekRelative(bool),
    /// Tell the player to seek to a time, or restart it there.
    ScrubSeekTo(Seconds),
    /// Ask the player where it is, and hand the answer to `mark_scrub_point`
    /// for the start or else the end.
    ScrubMark(bool),
    /// End the player.
    ScrubClose,
    /// Scroll the log by a page.
    ScrollLog(bool),
    /// Scroll the log sideways.
    ScrollLogSideways(bool),
    /// Measure the focused node's text, and go on with `scroll_node_text`.
    ScrollNodeText(bool),
}

#[verifier::ext_equal]
pub enum RequestView {
    Nothing,
    ListPaths(Seq<char>),
    Probe(Seq<char>),
    SaveProject(Seq<char>),
    LoadProject(Seq<char>),
    Render,
    Preview,
    Scrub,
    ScrubPlayPause,
    ScrubStepFrame(bool),
    ScrubSeekRelative(bool),
    ScrubSeekTo(SecondsView),
    ScrubMark(bool),
    ScrubClose,
    ScrollLog(bool),
    ScrollLogSideways(bool),
    ScrollNodeText(bool),
}

impl View for Request {
    type V = RequestView;

    open spec fn view(&self) -> RequestView {
        match self {
            Request::Nothing => RequestView::Nothing,
            Request::ListPaths(s) => RequestView::ListPaths(s@),
            Request::Probe(s) => RequestView::Probe(s@),
            Request::SaveProject(s) => RequestView::SaveProject(s@),
            Request::LoadProject(s) => RequestView::LoadProject(s@),
            Request::Render => RequestView::Render,
            Request::Preview => RequestView::Preview,
            Request::Scrub => RequestView::Scrub,
            Request::ScrubPlayPause => RequestView::ScrubPlayPause,
            Request::ScrubStepFrame(b) => RequestView::ScrubStepFrame(*b),
            Request::ScrubSeekRelative(b) => RequestView::ScrubSeekRelative(*b),
            Request::ScrubSeekTo(t) => RequestView::ScrubSeekTo(t@),
            Request::ScrubMark(b) => RequestView::ScrubMark(*b),
            Request::ScrubClose => RequestView::ScrubClose,
            Request::ScrollLog(b) => RequestView::ScrollLog(*b),
            Request::ScrollLogSideways(b) => RequestView::ScrollLogSideways(*b),
            Request::ScrollNodeText(b) => RequestView::ScrollNodeText(*b),
        }
    }
}

impl AppView {
    /// How many nodes the graph has.
    pub open spec fn node_count(self) -> int {
        (self.graph.inputs.len() + self.graph.modifiers.len() + self.graph.outputs.len()) as int
    }

    /// The position of the focused node among all nodes: inputs first, then
    /// modifiers, then outputs.
    pub open spec fn focus_index(self) -> int {
        match self.focus {
            Focus::Input(i) => i as int,
            Focus::Modifier(i) => self.graph.inputs.len() + i,
            Focus::Output(i) => self.graph.inputs.len() + self.graph.modifiers.len() + i,
        }
    }

    /// With the node at this position focused, or the last output where there
    /// is no such node. Its first row is selected, and nothing is left of what
    /// belonged to the node that loses the focus.
    pub open spec fn set_focus_index(self, idx: int) -> AppView {
        let inputs = self.graph.inputs.len() as int;
        let modifiers = self.graph.modifiers.len() as int;
        let outputs = self.graph.outputs.len() as int;
        let focus = if idx < inputs {
            Focus::Input(idx as usize)
        } else if idx < inputs + modifiers {
            Focus::Modifier((idx - inputs) as usize)
        } else {
            let last = if outputs > 0 {
                outputs - 1
            } else {
                0
            };
            let k = idx - inputs - modifiers;
            Focus::Output(
                (if k < last {
                    k
                } else {
                    last
                }) as usize,
            )
        };
        AppView { focus, row_idx: 0, selection_anchor: None, text_scroll: 0, ..self }
    }

    /// With no range selection under way.
    pub open spec fn unanchored(self) -> AppView {
        AppView { selection_anchor: None, ..self }
    }

    /// With one more line in the log.
    pub open spec fn say(self, line: Seq<char>) -> AppView {
        AppView { log: self.log.push(line), ..self }
    }

    /// In another mode.
    pub open spec fn enter(self, mode: ModeView) -> AppView {
        AppView { mode, ..self }
    }

    /// With another graph.
    pub open spec fn with_graph(self, graph: GraphView) -> AppView {
        AppView { graph, ..self }
    }
}

/// `selected` moved by `delta`, round and round through `len` positions.
pub open spec fn turned(selected: usize, delta: int, len: int) -> usize {
    ((selected + delta) % len) as usize
}

/// `selected` moved by `delta`, round and round through `len` positions.
pub fn wrap_around(selected: usize, delta: isize, len: usize) -> (r: usize)
    requires
        len > 0,
    ensures
        r == turned(selected, delta as int, len as int),
        r < len,
{
    let x: i128 = selected as i128 + delta as i128;
    match x.checked_rem_euclid(len as i128) {
        Some(r) => r as usize,
        None => 0,
    }
}

/// The first lines of the log.
pub open spec fn greeting(known: bool) -> Seq<Seq<char>> {
    let hello = seq!["Press 'a' to add an input file, '?' for help."@];
    if known {
        hello
    } else {
        hello.push(
            "couldn't query ffmpeg's encoder/muxer list -- pickers will use a small built-in fallback"@,
        )
    }
}

/// The state that the editor starts in.
pub open spec fn initial(
    encoders: Seq<(Seq<char>, StreamKind)>,
    muxers: Seq<Seq<char>>,
    has_teletext_decoder: bool,
) -> AppView {
    AppView {
        graph: (GraphView {
            inputs: Seq::empty(),
            modifiers: Seq::empty(),
            outputs: Seq::empty(),
            wires: Seq::empty(),
            next_id: 1,
        }).add_output(),
        focus: Focus::Output(0),
        row_idx: 0,
        mode: ModeView::Normal,
        armed: Seq::empty(),
        selected: Seq::empty(),
        selection_anchor: None,
        text_scroll: 0,
        log_scroll: None,
        log_hscroll: 0,
        log: greeting(encoders.len() > 0 && muxers.len() > 0),
        status: Seq::empty(),
        running: false,
        preview_target: None,
        preview_ready: None,
        should_quit: false,
        available_encoders: encoders,
        available_muxers: muxers,
        has_teletext_decoder,
        scrub: None,
    }
}

impl App {
    /// The state that the editor starts in, given what this machine's ffmpeg
    /// supports: empty lists where that could not be found out.
    pub fn new(
        available_encoders: Vec<(String, StreamKind)>,
        available_muxers: Vec<String>,
        has_teletext_decoder: bool,
    ) -> (r: App)
        ensures
            r@ == initial(
                encoder_views(available_encoders@),
                views(available_muxers@),
                has_teletext_decoder,
            ),
    {
        let mut log = vec!["Press 'a' to add an input file, '?' for help.".to_owned()];
        if available_encoders.len() == 0 || available_muxers.len() == 0 {
            log.push(
                "couldn't query ffmpeg's encoder/muxer list -- pickers will use a small built-in fallback".to_owned(),
            );
        }
        assert(views(log@) == greeting(available_encoders@.len() > 0 && available_muxers@.len() > 0));
        App {
            graph: Graph::new(),
            focus: Focus::Output(0),
            row_idx: 0,
            mode: Mode::Normal,
            armed: EndpointSet::new(),
            selected: EndpointSet::new(),
            selection_anchor: None,
            text_scroll: 0,
            log_scroll: None,
            log_hscroll: 0,
            log,
            status: String::new(),
            running: false,
            preview_target: None,
            preview_ready: None,
            should_quit: false,
            available_encoders,
            available_muxers,
            has_teletext_decoder,
            scrub: None,
        }
    }

    /// How many nodes the graph has.
    pub fn node_count(&self) -> (r: u128)
        ensures
            r == self@.node_count(),
            r <= 3 * usize::MAX,
    {
        self.graph.inputs.len() as u128 + self.graph.modifiers.len() as u128
            + self.graph.outputs.len() as u128
    }

    /// The position of the focused node among all nodes.
    pub fn focus_index(&self) -> (r: u128)
        ensures
            r == self@.focus_index(),
            r <= 3 * usize::MAX,
    {
        match self.focus {
            Focus::Input(i) => i as u128,
            Focus::Modifier(i) => self.graph.inputs.len() as u128 + i as u128,
            Focus::Output(i) => self.graph.inputs.len() as u128 + self.graph.modifiers.len() as u128
                + i as u128,
        }
    }

    /// Focuses the node at this position, or the last output where there is
    /// no such node.
    pub fn set_focus_index(&mut self, idx: u128)
        ensures
            final(self)@ == old(self)@.set_focus_index(idx as int),
    {
        let n_inputs = self.graph.inputs.len() as u128;
        let n_modifiers = self.graph.modifiers.len() as u128;
        self.focus = if idx < n_inputs {
            Focus::Input(idx as usize)
        } else if idx < n_inputs + n_modifiers {
            Focus::Modifier((idx - n_inputs) as usize)
        } else {
            let last: u128 = if self.graph.outputs.len() > 0 {
                (self.graph.outputs.len() - 1) as u128
            } else {
                0
            };
            let k = idx - n_inputs - n_modifiers;
            if k < last {
                Focus::Output(k as usize)
            } else {
                Focus::Output(last as usize)
            }
        };
        self.row_idx = 0;
        self.selection_anchor = None;
        self.text_scroll = 0;
    }

    /// Adds a line to the log.
    pub fn say(&mut self, line: &str)
        ensures
            final(self)@ == old(self)@.say(line@),
    {
        broadcast use group_views;

        self.log.push(line.to_owned());
    }
}

} // verus!
