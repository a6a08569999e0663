//! Typing a line: a path, a value, a time.
use vstd::prelude::*;

use super::chapters::{chapter_edit_chapters, chapter_edit_chapters_mut, edit_chapters, set_chapters, ChapterColumn};
use super::settings::{current_value, set_stored, store_of_mut, stored, value_in, Store};
use super::{turned, wrap_around, App, AppView, ChapterTimeField, Mode, ModeView, Request, RequestView, TargetView, TextTarget};
use crate::fields::field_set;
use crate::graph::chapter::{clock, format_time, opt_seconds, ChapterView, Seconds, SecondsView};
use crate::graph::node::{FilterName, KindView, ModifierKind, OutputView};
use crate::graph::project::{ProbeResult, ProbeView};
use crate::graph::wire::NodeId;
use crate::graph::GraphView;
use crate::line::{edit_line, line_value, new_line, sound_edit, Key, LineView};
use crate::paths::{clean_path, clean_path_input};
use crate::text::{cat2, cat3, cat4, decimal, group_views, number, opt_str, same_text, trim, trim_spec, views};

verus! {

/// A line to type into, with the cursor at its end.
pub open spec fn text_mode(target: TargetView, text: Seq<char>, suggestions: Seq<Seq<char>>) -> ModeView {
    ModeView::TextInput { target, line: LineView::fresh(text), suggestions, selected: 0 }
}

/// A line to type into, with the cursor at its end.
pub fn text_input_mode(target: TextTarget, buffer: String, suggestions: Vec<String>) -> (r: Mode)
    ensures
        r@ == text_mode(target@, buffer@, views(suggestions@)),
{
    Mode::TextInput { target, input: new_line(buffer), suggestions, selected: 0 }
}

// ---------------------------------------------------------------------
// Typing
// ---------------------------------------------------------------------

impl AppView {
    /// The text that is being typed.
    pub open spec fn typed_text(self) -> Option<Seq<char>> {
        match self.mode {
            ModeView::TextInput { line, .. } => Some(line.text),
            _ => None,
        }
    }

    /// With another line. Where a path is typed, its completions are asked
    /// for.
    pub open spec fn typed(self, line: LineView) -> (AppView, RequestView) {
        match self.mode {
            ModeView::TextInput { target, suggestions, selected, .. } => (
                self.enter(ModeView::TextInput { target, line, suggestions, selected }),
                if target.is_path() {
                    RequestView::ListPaths(line.text)
                } else {
                    RequestView::Nothing
                },
            ),
            _ => (self, RequestView::Nothing),
        }
    }

    /// Whether a key in the line leads to this state and request: it edits
    /// the line, or leaves it alone where it means nothing to a line.
    pub open spec fn keyed(self, key: Key, after: AppView, request: RequestView) -> bool {
        match self.mode {
            ModeView::TextInput { line, .. } => match key.edit_spec() {
                Some(k) => {
                    &&& (after, request) == self.typed(line.edited(k))
                    &&& sound_edit(line, k, line.edited(k))
                },
                None => (after, request) == self.typed(line),
            },
            _ => (after, request) == (self, RequestView::Nothing),
        }
    }

    /// With these completions of the typed path.
    pub open spec fn suggestions_listed(self, suggestions: Seq<Seq<char>>) -> AppView {
        match self.mode {
            ModeView::TextInput { target, line, .. } => self.enter(
                ModeView::TextInput { target, line, suggestions, selected: 0 },
            ),
            _ => self,
        }
    }

    /// Up or Down: through the completions.
    pub open spec fn text_input_move_suggestion(self, delta: int) -> AppView {
        match self.mode {
            ModeView::TextInput { target, line, suggestions, selected } => if suggestions.len()
                == 0 {
                self
            } else {
                self.enter(
                    ModeView::TextInput {
                        target,
                        line,
                        suggestions,
                        selected: turned(selected, delta, suggestions.len() as int),
                    },
                )
            },
            _ => self,
        }
    }

    /// Tab: the selected completion in place of what was typed, with the
    /// completions of that asked for.
    pub open spec fn text_input_accept_suggestion(self) -> (AppView, RequestView) {
        match self.mode {
            ModeView::TextInput { target, suggestions, selected, .. } => if (selected as int)
                < suggestions.len() {
                let chosen = suggestions[selected as int];
                (
                    self.enter(text_mode(target, chosen, suggestions)),
                    RequestView::ListPaths(chosen),
                )
            } else {
                (self, RequestView::Nothing)
            },
            _ => (self, RequestView::Nothing),
        }
    }

    /// Esc: drops the line. A chapter's cell goes back to its table, the
    /// scrub prompt to the player.
    pub open spec fn cancel_text_input(self) -> AppView {
        match self.mode {
            ModeView::TextInput { target, .. } => match target {
                TargetView::ChapterTime { modifier, index, field } => self.enter(
                    ModeView::ChapterTable { modifier, row: index, col: time_column(field) },
                ),
                TargetView::ChapterTitle { modifier, index } => self.enter(
                    ModeView::ChapterTable { modifier, row: index, col: ChapterColumn::Title },
                ),
                TargetView::ScrubSeek => self.enter(ModeView::Scrub),
                _ => self.enter(ModeView::Normal),
            },
            _ => self.enter(ModeView::Normal),
        }
    }
}

/// The column of one of a chapter's times.
pub open spec fn time_column(field: ChapterTimeField) -> ChapterColumn {
    match field {
        ChapterTimeField::Start => ChapterColumn::Start,
        ChapterTimeField::End => ChapterColumn::End,
    }
}

fn column_of(field: ChapterTimeField) -> (r: ChapterColumn)
    ensures
        r == time_column(field),
{
    match field {
        ChapterTimeField::Start => ChapterColumn::Start,
        ChapterTimeField::End => ChapterColumn::End,
    }
}

impl TextTarget {
    /// Whether completions of a path are offered while typing.
    pub fn is_path(&self) -> (r: bool)
        ensures
            r == self@.is_path(),
    {
        match self {
            TextTarget::NewInputPath
            | TextTarget::OutputPath(_)
            | TextTarget::SaveProjectPath
            | TextTarget::LoadProjectPath => true,
            _ => false,
        }
    }
}

impl App {
    /// The text that is being typed.
    pub fn typed_text(&self) -> (r: Option<String>)
        ensures
            crate::text::opt_text(r) == self@.typed_text(),
    {
        match &self.mode {
            Mode::TextInput { input, .. } => Some(line_value(input)),
            _ => None,
        }
    }

    /// A key for the line: typing, Backspace, Delete, the arrows, Home, End
    /// and whatever else the line editor knows.
    pub fn text_input_handle_key(&mut self, key: Key) -> (r: Request)
        ensures
            old(self)@.keyed(key, final(self)@, r@),
    {
        if let Mode::TextInput { target, input, .. } = &mut self.mode {
            if let Some(k) = key.edit() {
                edit_line(input, k);
            }
            let is_path = target.is_path();
            let request = if is_path {
                Request::ListPaths(line_value(input))
            } else {
                Request::Nothing
            };
            return request;
        }
        Request::Nothing
    }

    /// Takes the completions of the typed path.
    pub fn suggestions_listed(&mut self, list: Vec<String>)
        ensures
            final(self)@ == old(self)@.suggestions_listed(views(list@)),
    {
        if let Mode::TextInput { suggestions, selected, .. } = &mut self.mode {
            *suggestions = list;
            *selected = 0;
        }
    }

    /// Up or Down: moves through the completions.
    pub fn text_input_move_suggestion(&mut self, delta: isize)
        ensures
            final(self)@ == old(self)@.text_input_move_suggestion(delta as int),
    {
        if let Mode::TextInput { suggestions, selected, .. } = &mut self.mode {
            let len: usize = suggestions.len();
            if len == 0 {
                return;
            }
            *selected = wrap_around(*selected, delta, len);
        }
    }

    /// Tab: puts the selected completion in place of what was typed.
    pub fn text_input_accept_suggestion(&mut self) -> (r: Request)
        ensures
            (final(self)@, r@) == old(self)@.text_input_accept_suggestion(),
    {
        if let Mode::TextInput { input, suggestions, selected, .. } = &mut self.mode {
            if *selected < suggestions.len() {
                let chosen = suggestions[*selected].clone();
                *input = new_line(chosen.clone());
                *selected = 0;
                return Request::ListPaths(chosen);
            }
        }
        Request::Nothing
    }

    /// Esc: drops the line.
    pub fn cancel_text_input(&mut self)
        ensures
            final(self)@ == old(self)@.cancel_text_input(),
    {
        let mode = match &self.mode {
            Mode::TextInput { target, .. } => match target {
                TextTarget::ChapterTime { modifier, index, field } => Mode::ChapterTable {
                    modifier: *modifier,
                    row: *index,
                    col: column_of(*field),
                },
                TextTarget::ChapterTitle { modifier, index } => Mode::ChapterTable {
                    modifier: *modifier,
                    row: *index,
                    col: ChapterColumn::Title,
                },
                TextTarget::ScrubSeek => Mode::Scrub,
                _ => Mode::Normal,
            },
            _ => Mode::Normal,
        };
        self.mode = mode;
    }
}

// ---------------------------------------------------------------------
// Confirming
// ---------------------------------------------------------------------

/// The line that tells of a text that is no time.
pub open spec fn not_a_time(text: Seq<char>) -> Seq<char> {
    "couldn't parse '"@ + text + "' as a time -- try seconds (12.5) or HH:MM:SS"@
}

/// Whether modifier `id` is a trim node.
pub open spec fn is_trim(g: GraphView, id: NodeId) -> bool {
    match g.modifier(id) {
        Some(m) => match m.kind {
            KindView::Filter { name, .. } => name == FilterName::Trim,
            _ => false,
        },
        None => false,
    }
}

/// The graph with one of a chapter's times set, where there is such a chapter.
pub open spec fn set_chapter_time(
    g: GraphView,
    id: NodeId,
    index: int,
    field: ChapterTimeField,
    t: SecondsView,
) -> GraphView {
    match edit_chapters(g, id) {
        Some(cs) => if index < cs.len() {
            let c = match field {
                ChapterTimeField::Start => ChapterView { start_secs: t, ..cs[index] },
                ChapterTimeField::End => ChapterView { end_secs: t, ..cs[index] },
            };
            set_chapters(g, id, cs.update(index, c))
        } else {
            g
        },
        None => g,
    }
}

/// The graph with a chapter's title set, where there is such a chapter.
pub open spec fn set_chapter_title(g: GraphView, id: NodeId, index: int, title: Seq<char>) -> GraphView {
    match edit_chapters(g, id) {
        Some(cs) => if index < cs.len() {
            set_chapters(g, id, cs.update(index, ChapterView { title, ..cs[index] }))
        } else {
            g
        },
        None => g,
    }
}

impl AppView {
    /// With the path of an output set, unless the path is empty.
    pub open spec fn set_output_path(self, id: NodeId, path: Seq<char>) -> AppView {
        match self.graph.output_at(id) {
            Some(i) => if path.len() == 0 {
                self
            } else {
                self.with_graph(
                    self.graph.set_output(i, OutputView { path, ..self.graph.outputs[i] }),
                )
            },
            None => self,
        }
    }

    /// With the value of a filter parameter set. The start and the end of a
    /// trim node are times: they are stored as plain seconds, and a text that
    /// is no time changes nothing.
    pub open spec fn set_filter_value(
        self,
        id: NodeId,
        key: Seq<char>,
        value: Seq<char>,
        parsed: Option<SecondsView>,
    ) -> AppView {
        let at = Store::Filter(id);
        match stored(self.graph, at) {
            None => self,
            Some(m) => if value.len() > 0 && is_trim(self.graph, id) && (key == "start"@ || key
                == "end"@) {
                match parsed {
                    Some(t) => self.with_graph(
                        set_stored(self.graph, at, field_set(m, key, t.text)),
                    ).say(key + " set to "@ + clock(t.millis as int)),
                    None => self.say(not_a_time(value)),
                }
            } else {
                self.change(at, key, value)
            },
        }
    }

    /// Back in the chapter table with one of a chapter's times set.
    pub open spec fn confirm_chapter_time(
        self,
        modifier: NodeId,
        index: usize,
        field: ChapterTimeField,
        text: Seq<char>,
        parsed: Option<SecondsView>,
    ) -> AppView {
        let a = match parsed {
            Some(t) => self.with_graph(
                set_chapter_time(self.graph, modifier, index as int, field, t),
            ).say("chapter time set to "@ + clock(t.millis as int)),
            None => self.say(not_a_time(trim_spec(text))),
        };
        a.enter(ModeView::ChapterTable { modifier, row: index, col: time_column(field) })
    }

    /// Asking for a value, once its name is known.
    pub open spec fn ask_value(self, at: Store, target: TargetView, key: Seq<char>) -> AppView {
        if key.len() == 0 {
            self
        } else {
            self.enter(text_mode(target, current_value(self.graph, at, key), Seq::empty()))
        }
    }

    /// What confirming a line that has closed does.
    pub open spec fn confirm_line(
        self,
        target: TargetView,
        text: Seq<char>,
        home: Option<Seq<char>>,
        parsed: Option<SecondsView>,
    ) -> (AppView, RequestView) {
        let path = clean_path(text, home);
        let value = trim_spec(text);
        match target {
            TargetView::NewInputPath => (
                self,
                if path.len() == 0 {
                    RequestView::Nothing
                } else {
                    RequestView::Probe(path)
                },
            ),
            TargetView::OutputPath(id) => (self.set_output_path(id, path), RequestView::Nothing),
            TargetView::ModifierMetadataValue { modifier, key } => (
                self.change(Store::Metadata(modifier), key, value),
                RequestView::Nothing,
            ),
            TargetView::ModifierCustomKey(modifier) => (
                self.ask_value(
                    Store::Metadata(modifier),
                    TargetView::ModifierMetadataValue { modifier, key: value },
                    value,
                ),
                RequestView::Nothing,
            ),
            TargetView::ModifierFilterValue { modifier, key } => (
                self.set_filter_value(modifier, key, value, parsed),
                RequestView::Nothing,
            ),
            TargetView::ExtraArgValue { target, key } => (
                self.change(Store::ExtraArgs(target), key, value),
                RequestView::Nothing,
            ),
            TargetView::ExtraArgCustomKey(target) => (
                self.ask_value(
                    Store::ExtraArgs(target),
                    TargetView::ExtraArgValue { target, key: value },
                    value,
                ),
                RequestView::Nothing,
            ),
            TargetView::ChapterTime { modifier, index, field } => (
                self.confirm_chapter_time(modifier, index, field, text, parsed),
                RequestView::Nothing,
            ),
            TargetView::ChapterTitle { modifier, index } => (
                self.with_graph(
                    set_chapter_title(self.graph, modifier, index as int, value),
                ).say("chapter title set"@).enter(
                    ModeView::ChapterTable { modifier, row: index, col: ChapterColumn::Title },
                ),
                RequestView::Nothing,
            ),
            TargetView::ScrubSeek => match parsed {
                Some(t) => (
                    self.enter(ModeView::Scrub),
                    if self.scrub is Some {
                        RequestView::ScrubSeekTo(t)
                    } else {
                        RequestView::Nothing
                    },
                ),
                None => (
                    self.say(not_a_time(value)).enter(ModeView::Scrub),
                    RequestView::Nothing,
                ),
            },
            TargetView::SaveProjectPath => (
                self,
                if path.len() == 0 {
                    RequestView::Nothing
                } else {
                    RequestView::SaveProject(path)
                },
            ),
            TargetView::LoadProjectPath => (
                self,
                if path.len() == 0 {
                    RequestView::Nothing
                } else {
                    RequestView::LoadProject(path)
                },
            ),
        }
    }

    /// Enter: takes the line. `home` is the user's home directory, `parsed`
    /// the time that the text stands for, if it stands for one.
    pub open spec fn confirm_text_input(
        self,
        home: Option<Seq<char>>,
        parsed: Option<SecondsView>,
    ) -> (AppView, RequestView) {
        match self.mode {
            ModeView::TextInput { target, line, .. } => self.enter(ModeView::Normal).confirm_line(
                target,
                line.text,
                home,
                parsed,
            ),
            _ => (self.enter(ModeView::Normal), RequestView::Nothing),
        }
    }

    /// With the input that was probed, focused; or a line that tells why it
    /// could not be.
    pub open spec fn input_probed(self, path: Seq<char>, result: Result<ProbeView, Seq<char>>) -> AppView {
        match result {
            Ok(probe) => {
                let a = self.with_graph(
                    self.graph.add_input(path, probe.streams, probe.chapters),
                ).say("added input: "@ + path);
                let b = if probe.chapters.len() > 0 {
                    a.say("found "@ + decimal(probe.chapters.len()) + " chapter(s) in "@ + path)
                } else {
                    a
                };
                b.set_focus_index(b.graph.inputs.len() - 1)
            },
            Err(e) => self.say("error probing '"@ + path + "': "@ + e),
        }
    }
}

/// The view of a probe's outcome.
pub open spec fn probe_outcome(r: Result<ProbeResult, String>) -> Result<ProbeView, Seq<char>> {
    match r {
        Ok(p) => Ok(p@),
        Err(e) => Err(e@),
    }
}

impl App {
    fn set_output_path(&mut self, id: NodeId, path: String)
        ensures
            final(self)@ == old(self)@.set_output_path(id, path@),
    {
        broadcast use group_views;

        if !path.as_str().is_empty() {
            if let Some(node) = self.graph.output_mut(id) {
                node.path = path;
            }
        }
    }

    fn say_not_a_time(&mut self, text: &str)
        ensures
            final(self)@ == old(self)@.say(not_a_time(text@)),
    {
        let line = cat3("couldn't parse '", text, "' as a time -- try seconds (12.5) or HH:MM:SS");
        self.say(line.as_str());
    }

    fn set_filter_value(&mut self, id: NodeId, key: String, value: String, parsed: Option<Seconds>)
        ensures
            final(self)@ == old(self)@.set_filter_value(id, key@, value@, opt_seconds(parsed)),
    {
        let is_trim_node = match self.graph.modifier(id) {
            Some(m) => match &m.kind {
                ModifierKind::Filter { name, .. } => *name == FilterName::Trim,
                _ => false,
            },
            None => false,
        };
        let is_time = is_trim_node && (same_text(key.as_str(), "start") || same_text(
            key.as_str(),
            "end",
        ));
        if value.as_str().is_empty() || !is_time {
            self.change(Store::Filter(id), key, value);
            return;
        }
        match parsed {
            Some(t) => {
                let shown = format_time(&t);
                let line = cat3(key.as_str(), " set to ", shown.as_str());
                if let Some(m) = store_of_mut(&mut self.graph, Store::Filter(id)) {
                    m.insert(key, t.text);
                }
                self.say(line.as_str());
            },
            None => {
                self.say_not_a_time(value.as_str());
            },
        }
    }

    fn has_chapter(&self, modifier: NodeId, index: usize) -> (r: bool)
        ensures
            r == (match edit_chapters(self@.graph, modifier) {
                Some(cs) => (index as int) < cs.len(),
                None => false,
            }),
    {
        match chapter_edit_chapters(&self.graph, modifier) {
            Some(cs) => index < cs.len(),
            None => false,
        }
    }

    fn confirm_chapter_time(
        &mut self,
        modifier: NodeId,
        index: usize,
        field: ChapterTimeField,
        text: &str,
        parsed: Option<Seconds>,
    )
        ensures
            final(self)@ == old(self)@.confirm_chapter_time(
                modifier,
                index,
                field,
                text@,
                opt_seconds(parsed),
            ),
    {
        broadcast use group_views;

        match parsed {
            Some(t) => {
                let shown = format_time(&t);
                if self.has_chapter(modifier, index) {
                    if let Some(chapters) = chapter_edit_chapters_mut(&mut self.graph, modifier) {
                        match field {
                            ChapterTimeField::Start => {
                                chapters[index].start_secs = t;
                            },
                            ChapterTimeField::End => {
                                chapters[index].end_secs = t;
                            },
                        }
                    }
                }
                let line = cat2("chapter time set to ", shown.as_str());
                self.say(line.as_str());
            },
            None => {
                let shown = trim(text);
                self.say_not_a_time(shown.as_str());
            },
        }
        self.mode = Mode::ChapterTable { modifier, row: index, col: column_of(field) };
    }

    fn confirm_chapter_title(&mut self, modifier: NodeId, index: usize, title: String)
        ensures
            final(self)@ == old(self)@.with_graph(
                set_chapter_title(old(self)@.graph, modifier, index as int, title@),
            ).say("chapter title set"@).enter(
                ModeView::ChapterTable { modifier, row: index, col: ChapterColumn::Title },
            ),
    {
        broadcast use group_views;

        if self.has_chapter(modifier, index) {
            if let Some(chapters) = chapter_edit_chapters_mut(&mut self.graph, modifier) {
                chapters[index].title = title;
            }
        }
        self.say("chapter title set");
        self.mode = Mode::ChapterTable { modifier, row: index, col: ChapterColumn::Title };
    }

    fn ask_value(&mut self, at: Store, target: TextTarget, key: &str)
        ensures
            final(self)@ == old(self)@.ask_value(at, target@, key@),
    {
        if !key.is_empty() {
            let current = value_in(&self.graph, at, key);
            let none: Vec<String> = Vec::new();
            assert(views(none@) == Seq::<Seq<char>>::empty());
            self.mode = text_input_mode(target, current, none);
        }
    }

    fn confirm_line(
        &mut self,
        target: TextTarget,
        text: &str,
        home: Option<&str>,
        parsed: Option<Seconds>,
    ) -> (r: Request)
        ensures
            (final(self)@, r@) == old(self)@.confirm_line(
                target@,
                text@,
                opt_str(home),
                opt_seconds(parsed),
            ),
    {
        let path = clean_path_input(text, home);
        let value = trim(text);
        match target {
            TextTarget::NewInputPath => {
                if !path.as_str().is_empty() {
                    return Request::Probe(path);
                }
            },
            TextTarget::OutputPath(id) => {
                self.set_output_path(id, path);
            },
            TextTarget::ModifierMetadataValue { modifier, key } => {
                self.change(Store::Metadata(modifier), key, value);
            },
            TextTarget::ModifierCustomKey(modifier) => {
                self.ask_value(
                    Store::Metadata(modifier),
                    TextTarget::ModifierMetadataValue { modifier, key: value.clone() },
                    value.as_str(),
                );
            },
            TextTarget::ModifierFilterValue { modifier, key } => {
                self.set_filter_value(modifier, key, value, parsed);
            },
            TextTarget::ExtraArgValue { target, key } => {
                self.change(Store::ExtraArgs(target), key, value);
            },
            TextTarget::ExtraArgCustomKey(target) => {
                self.ask_value(
                    Store::ExtraArgs(target),
                    TextTarget::ExtraArgValue { target, key: value.clone() },
                    value.as_str(),
                );
            },
            TextTarget::ChapterTime { modifier, index, field } => {
                self.confirm_chapter_time(modifier, index, field, text, parsed);
            },
            TextTarget::ChapterTitle { modifier, index } => {
                self.confirm_chapter_title(modifier, index, value);
            },
            TextTarget::ScrubSeek => {
                self.mode = Mode::Scrub;
                match parsed {
                    Some(t) => {
                        if self.scrub.is_some() {
                            return Request::ScrubSeekTo(t);
                        }
                    },
                    None => {
                        self.say_not_a_time(value.as_str());
                    },
                }
            },
            TextTarget::SaveProjectPath => {
                if !path.as_str().is_empty() {
                    return Request::SaveProject(path);
                }
            },
            TextTarget::LoadProjectPath => {
                if !path.as_str().is_empty() {
                    return Request::LoadProject(path);
                }
            },
        }
        Request::Nothing
    }

    /// Enter: takes the line. `home` is the user's home directory, `parsed`
    /// the time that the text stands for, if it stands for one.
    pub fn confirm_text_input(&mut self, home: Option<&str>, parsed: Option<Seconds>) -> (r: Request)
        ensures
            (final(self)@, r@) == old(self)@.confirm_text_input(
                opt_str(home),
                opt_seconds(parsed),
            ),
    {
        let mut mode = Mode::Normal;
        std::mem::swap(&mut mode, &mut self.mode);
        match mode {
            Mode::TextInput { target, input, .. } => {
                let text = line_value(&input);
                self.confirm_line(target, text.as_str(), home, parsed)
            },
            _ => Request::Nothing,
        }
    }

    /// Takes what the probe of a new input found, or why it failed.
    pub fn input_probed(&mut self, path: &str, result: Result<ProbeResult, String>)
        requires
            result is Ok ==> old(self).graph.next_id < usize::MAX,
        ensures
            final(self)@ == old(self)@.input_probed(path@, probe_outcome(result)),
    {
        match result {
            Ok(probe) => {
                let count: usize = probe.chapters.len();
                self.graph.add_input(path.to_owned(), probe.streams, probe.chapters);
                let line = cat2("added input: ", path);
                self.say(line.as_str());
                if count > 0 {
                    let n = number(count as u128);
                    let line = cat4("found ", n.as_str(), " chapter(s) in ", path);
                    self.say(line.as_str());
                }
                self.set_focus_index((self.graph.inputs.len() - 1) as u128);
            },
            Err(e) => {
                let line = cat4("error probing '", path, "': ", e.as_str());
                self.say(line.as_str());
            },
        }
    }
}

} // verus!
