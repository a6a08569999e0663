//! What each key does, by what keys mean at the moment.
use vstd::prelude::*;

use super::{App, AppView, Mode, ModeView, Request, RequestView};
use crate::graph::chapter::{opt_seconds, Seconds, SecondsView};
use crate::line::{Key, KeyCode};
use crate::text::opt_str;

verus! {

impl AppView {
    /// A key that asks for nothing from outside.
    pub open spec fn only(self) -> (AppView, RequestView) {
        (self, RequestView::Nothing)
    }

    /// A key in the list of a picker.
    pub open spec fn picker_key(self, key: Key) -> (AppView, RequestView) {
        match key.code {
            KeyCode::Up => self.picker_move(-1).only(),
            KeyCode::Down => self.picker_move(1).only(),
            KeyCode::Enter => self.picker_confirm(),
            KeyCode::Esc => self.picker_escape().only(),
            KeyCode::Char(c) => if c == 'k' {
                self.picker_move(-1).only()
            } else if c == 'j' {
                self.picker_move(1).only()
            } else if c == '/' {
                self.picker_start_search().only()
            } else {
                self.only()
            },
            _ => self.only(),
        }
    }

    /// A key in the query of a picker.
    pub open spec fn search_key(self, key: Key) -> AppView {
        match key.code {
            KeyCode::Enter => self.picker_confirm_search(),
            KeyCode::Esc => self.picker_escape(),
            KeyCode::Backspace => self.picker_search_backspace(),
            KeyCode::Char(c) => self.set_query(self.query().push(c)),
            _ => self,
        }
    }

    /// A key in the chapter table.
    pub open spec fn table_key(self, key: Key) -> AppView {
        match key.code {
            KeyCode::Up => self.chapter_table_move_row(false),
            KeyCode::Down => self.chapter_table_move_row(true),
            KeyCode::Left => self.chapter_table_move_col(false),
            KeyCode::Right => self.chapter_table_move_col(true),
            KeyCode::Tab => self.chapter_table_tab(true),
            KeyCode::BackTab => self.chapter_table_tab(false),
            KeyCode::Enter => self.chapter_table_confirm(),
            KeyCode::Esc => self.enter(ModeView::Normal),
            KeyCode::Char(c) => if c == 'k' {
                self.chapter_table_move_row(false)
            } else if c == 'j' {
                self.chapter_table_move_row(true)
            } else if c == 'h' {
                self.chapter_table_move_col(false)
            } else if c == 'l' {
                self.chapter_table_move_col(true)
            } else if c == 'd' {
                self.chapter_table_delete()
            } else {
                self
            },
            _ => self,
        }
    }

    /// A key while a player is open.
    pub open spec fn scrub_key(self, key: Key) -> (AppView, RequestView) {
        match key.code {
            KeyCode::Right => if key.shift_spec() {
                self.scrub_command(RequestView::ScrubSeekRelative(true))
            } else {
                self.scrub_command(RequestView::ScrubStepFrame(true))
            },
            KeyCode::Left => if key.shift_spec() {
                self.scrub_command(RequestView::ScrubSeekRelative(false))
            } else {
                self.scrub_command(RequestView::ScrubStepFrame(false))
            },
            KeyCode::Esc => self.close_scrub(),
            KeyCode::Char(c) => if c == 'l' {
                self.scrub_command(RequestView::ScrubStepFrame(true))
            } else if c == 'h' {
                self.scrub_command(RequestView::ScrubStepFrame(false))
            } else if c == ' ' {
                self.scrub_command(RequestView::ScrubPlayPause)
            } else if c == 'g' {
                self.start_scrub_seek().only()
            } else if c == 'i' {
                self.start_mark(true)
            } else if c == 'o' {
                self.start_mark(false)
            } else if c == 'q' {
                self.close_scrub()
            } else {
                self.only()
            },
            _ => self.only(),
        }
    }

    /// With the scrub session closed.
    pub open spec fn close_scrub(self) -> (AppView, RequestView) {
        (AppView { scrub: None, mode: ModeView::Normal, ..self }, RequestView::ScrubClose)
    }

    /// Asking where the player is.
    pub open spec fn start_mark(self, start: bool) -> (AppView, RequestView) {
        if self.scrub is Some {
            (self, RequestView::ScrubMark(start))
        } else {
            self.only()
        }
    }

    /// With nothing armed or selected.
    pub open spec fn drop_ports(self) -> AppView {
        AppView { armed: Seq::empty(), selected: Seq::empty(), ..self.unanchored() }
    }

    /// A letter, or Space, on the graph.
    pub open spec fn graph_char(self, c: char, control: bool) -> (AppView, RequestView) {
        if c == 'q' {
            (AppView { should_quit: true, ..self }).only()
        } else if c == ' ' {
            self.toggle_port_selection().only()
        } else if c == 'a' && control {
            self.select_all_ports().only()
        } else if c == 's' && control {
            self.start_save_project()
        } else if c == 'o' && control {
            self.start_load_project()
        } else if c == 'h' {
            self.move_focused_node(-1, 0).only()
        } else if c == 'l' {
            self.move_focused_node(1, 0).only()
        } else if c == 'k' {
            self.move_focused_node(0, -1).only()
        } else if c == 'j' {
            self.move_focused_node(0, 1).only()
        } else if c == 'a' {
            self.open_add_node_picker().only()
        } else if c == 'o' {
            self.start_edit_output()
        } else if c == 'c' {
            self.toggle_connect().only()
        } else if c == 'd' {
            self.disconnect_focused().only()
        } else if c == 'e' {
            self.activate_focused().only()
        } else if c == 'f' {
            self.open_container_picker().only()
        } else if c == 'x' {
            self.delete_focused_node().only()
        } else if c == 'y' {
            self.duplicate_focused_node().only()
        } else if c == 'r' {
            self.start_render()
        } else if c == 'p' {
            self.start_preview()
        } else if c == 's' {
            self.start_scrub()
        } else {
            self.only()
        }
    }

    /// Whether there is what a key needs: an id for the node that it may add,
    /// a node for the focus to move to.
    pub open spec fn ready_for(self, key: Key) -> bool {
        match self.mode {
            ModeView::Normal => {
                &&& key.code == KeyCode::Char('y') ==> self.graph.next_id < usize::MAX
                &&& key.code is Tab || key.code is BackTab ==> self.node_count() > 0
            },
            ModeView::Picker { .. } => self.picks_node() ==> self.graph.next_id < usize::MAX,
            _ => true,
        }
    }

    /// A key on the graph.
    pub open spec fn graph_key(self, key: Key) -> (AppView, RequestView) {
        match key.code {
            KeyCode::Tab => self.cycle_focus(true).only(),
            KeyCode::BackTab => self.cycle_focus(false).only(),
            KeyCode::Up => self.vertical_key(key, false).only(),
            KeyCode::Down => self.vertical_key(key, true).only(),
            KeyCode::Left => self.horizontal_key(key, false),
            KeyCode::Right => self.horizontal_key(key, true),
            KeyCode::PageUp => (self, RequestView::ScrollLog(false)),
            KeyCode::PageDown => (self, RequestView::ScrollLog(true)),
            KeyCode::Esc => self.drop_ports().only(),
            KeyCode::Char(c) => self.graph_char(c, key.control_spec()),
            _ => self.only(),
        }
    }

    /// Up or Down on the graph.
    pub open spec fn vertical_key(self, key: Key, forward: bool) -> AppView {
        if key.control_spec() {
            self.move_focused_row(forward)
        } else if key.shift_spec() {
            self.extend_port_selection(forward)
        } else {
            self.cycle_row(forward)
        }
    }

    /// Left or Right on the graph.
    pub open spec fn horizontal_key(self, key: Key, forward: bool) -> (AppView, RequestView) {
        if key.control_spec() {
            (self, RequestView::ScrollLogSideways(forward))
        } else if key.shift_spec() {
            self.resize_focused_node(forward).only()
        } else {
            (self, RequestView::ScrollNodeText(forward))
        }
    }

    /// A key in a line, but for those that the line editor takes: `None`.
    pub open spec fn line_key(
        self,
        key: Key,
        home: Option<Seq<char>>,
        parsed: Option<SecondsView>,
    ) -> Option<(AppView, RequestView)> {
        match key.code {
            KeyCode::Enter => Some(self.confirm_text_input(home, parsed)),
            KeyCode::Esc => Some(self.cancel_text_input().only()),
            KeyCode::Tab => Some(self.text_input_accept_suggestion()),
            KeyCode::Up => Some(self.text_input_move_suggestion(-1).only()),
            KeyCode::Down => Some(self.text_input_move_suggestion(1).only()),
            _ => None,
        }
    }

    /// Whether a key extends a range selection: Shift and Up or Down on the
    /// graph.
    pub open spec fn extends_range(self, key: Key) -> bool {
        &&& self.mode is Normal
        &&& key.code is Up || key.code is Down
        &&& key.shift_spec() && !key.control_spec()
    }

    /// As a key finds it: a range selection goes on only where the key extends
    /// it.
    pub open spec fn settled(self, key: Key) -> AppView {
        if self.extends_range(key) {
            self
        } else {
            self.unanchored()
        }
    }

    /// What a key does, and what it asks for. `None` where the line editor
    /// takes it. Control and 'c' quits in any mode.
    pub open spec fn handle_key(
        self,
        key: Key,
        home: Option<Seq<char>>,
        parsed: Option<SecondsView>,
    ) -> Option<(AppView, RequestView)> {
        let a = self.settled(key);
        if key.control_spec() && key.code == KeyCode::Char('c') {
            Some((AppView { should_quit: true, ..a }).only())
        } else {
            match a.mode {
                ModeView::TextInput { .. } => a.line_key(key, home, parsed),
                ModeView::Picker { searching, .. } => if searching {
                    Some(a.search_key(key).only())
                } else {
                    Some(a.picker_key(key))
                },
                ModeView::ChapterTable { .. } => Some(a.table_key(key).only()),
                ModeView::Normal => Some(a.graph_key(key)),
                ModeView::Scrub => Some(a.scrub_key(key)),
            }
        }
    }
}

impl App {
    fn picker_key(&mut self, key: Key) -> (r: Request)
        requires
            old(self)@.picks_node() ==> old(self).graph.next_id < usize::MAX,
        ensures
            (final(self)@, r@) == old(self)@.picker_key(key),
    {
        match key.code {
            KeyCode::Up | KeyCode::Char('k') => self.picker_move(-1),
            KeyCode::Down | KeyCode::Char('j') => self.picker_move(1),
            KeyCode::Char('/') => self.picker_start_search(),
            KeyCode::Enter => {
                return self.picker_confirm();
            },
            KeyCode::Esc => self.picker_escape(),
            _ => {},
        }
        Request::Nothing
    }

    fn search_key(&mut self, key: Key)
        ensures
            final(self)@ == old(self)@.search_key(key),
    {
        match key.code {
            KeyCode::Enter => self.picker_confirm_search(),
            KeyCode::Esc => self.picker_escape(),
            KeyCode::Backspace => self.picker_search_backspace(),
            KeyCode::Char(c) => self.picker_search_char(c),
            _ => {},
        }
    }

    fn table_key(&mut self, key: Key)
        ensures
            final(self)@ == old(self)@.table_key(key),
    {
        match key.code {
            KeyCode::Up | KeyCode::Char('k') => self.chapter_table_move_row(false),
            KeyCode::Down | KeyCode::Char('j') => self.chapter_table_move_row(true),
            KeyCode::Left | KeyCode::Char('h') => self.chapter_table_move_col(false),
            KeyCode::Right | KeyCode::Char('l') => self.chapter_table_move_col(true),
            KeyCode::Tab => self.chapter_table_tab(true),
            KeyCode::BackTab => self.chapter_table_tab(false),
            KeyCode::Enter => self.chapter_table_confirm(),
            KeyCode::Char('d') => self.chapter_table_delete(),
            KeyCode::Esc => self.chapter_table_close(),
            _ => {},
        }
    }

    /// A key while a player is open, whether it has a window of its own or
    /// draws into the terminal.
    pub fn dispatch_scrub_key(&mut self, key: Key) -> (r: Request)
        ensures
            (final(self)@, r@) == old(self)@.scrub_key(key),
    {
        match key.code {
            KeyCode::Right => if key.shift() {
                self.scrub_seek_relative(true)
            } else {
                self.scrub_step_frame(true)
            },
            KeyCode::Left => if key.shift() {
                self.scrub_seek_relative(false)
            } else {
                self.scrub_step_frame(false)
            },
            KeyCode::Char('l') => self.scrub_step_frame(true),
            KeyCode::Char('h') => self.scrub_step_frame(false),
            KeyCode::Char(' ') => self.scrub_play_pause(),
            KeyCode::Char('g') => {
                self.start_scrub_seek();
                Request::Nothing
            },
            KeyCode::Char('i') => self.start_mark(true),
            KeyCode::Char('o') => self.start_mark(false),
            KeyCode::Esc | KeyCode::Char('q') => self.close_scrub(),
            _ => Request::Nothing,
        }
    }

    /// A key while mpv draws into the terminal: Control and 'c' quits and
    /// closes the session.
    pub fn headless_scrub_key(&mut self, key: Key) -> (r: Request)
        ensures
            (final(self)@, r@) == (if key.control_spec() && key.code == KeyCode::Char('c') {
                (AppView { should_quit: true, ..old(self)@ }).close_scrub()
            } else {
                old(self)@.scrub_key(key)
            }),
    {
        if key.control() && key.code == KeyCode::Char('c') {
            self.should_quit = true;
            return self.close_scrub();
        }
        self.dispatch_scrub_key(key)
    }

    fn graph_char(&mut self, c: char, control: bool) -> (r: Request)
        requires
            c == 'y' ==> old(self).graph.next_id < usize::MAX,
        ensures
            (final(self)@, r@) == old(self)@.graph_char(c, control),
    {
        match c {
            'q' => {
                self.should_quit = true;
            },
            ' ' => self.toggle_port_selection(),
            'a' => if control {
                self.select_all_ports()
            } else {
                self.open_add_node_picker()
            },
            'h' => self.move_focused_node(-1, 0),
            'l' => self.move_focused_node(1, 0),
            'k' => self.move_focused_node(0, -1),
            'j' => self.move_focused_node(0, 1),
            'o' => {
                return if control {
                    self.start_load_project()
                } else {
                    self.start_edit_output()
                };
            },
            'c' => self.toggle_connect(),
            'd' => self.disconnect_focused(),
            'e' => self.activate_focused(),
            'f' => self.open_container_picker(),
            'x' => self.delete_focused_node(),
            'y' => self.duplicate_focused_node(),
            'r' => {
                return self.start_render();
            },
            'p' => {
                return self.start_preview();
            },
            's' => {
                return if control {
                    self.start_save_project()
                } else {
                    self.start_scrub()
                };
            },
            _ => {},
        }
        Request::Nothing
    }

    fn vertical_key(&mut self, key: Key, forward: bool)
        ensures
            final(self)@ == old(self)@.vertical_key(key, forward),
    {
        if key.control() {
            self.move_focused_row(forward);
        } else if key.shift() {
            self.extend_port_selection(forward);
        } else {
            self.cycle_row(forward);
        }
    }

    fn horizontal_key(&mut self, key: Key, forward: bool) -> (r: Request)
        ensures
            (final(self)@, r@) == old(self)@.horizontal_key(key, forward),
    {
        if key.control() {
            Request::ScrollLogSideways(forward)
        } else if key.shift() {
            self.resize_focused_node(forward);
            Request::Nothing
        } else {
            Request::ScrollNodeText(forward)
        }
    }

    fn graph_key(&mut self, key: Key) -> (r: Request)
        requires
            key.code == KeyCode::Char('y') ==> old(self).graph.next_id < usize::MAX,
            key.code is Tab || key.code is BackTab ==> old(self)@.node_count() > 0,
        ensures
            (final(self)@, r@) == old(self)@.graph_key(key),
    {
        match key.code {
            KeyCode::Tab => self.cycle_focus(true),
            KeyCode::BackTab => self.cycle_focus(false),
            KeyCode::Up => self.vertical_key(key, false),
            KeyCode::Down => self.vertical_key(key, true),
            KeyCode::Left => {
                return self.horizontal_key(key, false);
            },
            KeyCode::Right => {
                return self.horizontal_key(key, true);
            },
            KeyCode::PageUp => {
                return Request::ScrollLog(false);
            },
            KeyCode::PageDown => {
                return Request::ScrollLog(true);
            },
            KeyCode::Esc => {
                self.armed.clear();
                self.selected.clear();
                self.selection_anchor = None;
            },
            KeyCode::Char(c) => {
                return self.graph_char(c, key.control());
            },
            _ => {},
        }
        Request::Nothing
    }

    fn extends_range(&self, key: Key) -> (r: bool)
        ensures
            r == self@.extends_range(key),
    {
        match (&self.mode, key.code) {
            (Mode::Normal, KeyCode::Up) | (Mode::Normal, KeyCode::Down) => key.shift()
                && !key.control(),
            _ => false,
        }
    }

    /// What a key does. `home` is the user's home directory; `parsed` is the
    /// time that the typed text stands for, if a text is typed that stands for
    /// one. The request says what to do outside.
    pub fn handle_key(&mut self, key: Key, home: Option<&str>, parsed: Option<Seconds>) -> (r: Request)
        requires
            old(self)@.ready_for(key),
        ensures
            match old(self)@.handle_key(key, opt_str(home), opt_seconds(parsed)) {
                Some(p) => (final(self)@, r@) == p,
                None => old(self)@.settled(key).keyed(key, final(self)@, r@),
            },
    {
        if !self.extends_range(key) {
            self.selection_anchor = None;
        }
        if key.control() && key.code == KeyCode::Char('c') {
            self.should_quit = true;
            return Request::Nothing;
        }
        match &self.mode {
            Mode::TextInput { .. } => match key.code {
                KeyCode::Enter => {
                    return self.confirm_text_input(home, parsed);
                },
                KeyCode::Esc => self.cancel_text_input(),
                KeyCode::Tab => {
                    return self.text_input_accept_suggestion();
                },
                KeyCode::Up => self.text_input_move_suggestion(-1),
                KeyCode::Down => self.text_input_move_suggestion(1),
                _ => {
                    return self.text_input_handle_key(key);
                },
            },
            Mode::Picker { searching, .. } => {
                if *searching {
                    self.search_key(key);
                } else {
                    return self.picker_key(key);
                }
            },
            Mode::ChapterTable { .. } => self.table_key(key),
            Mode::Normal => {
                return self.graph_key(key);
            },
            Mode::Scrub => {
                return self.dispatch_scrub_key(key);
            },
        }
        Request::Nothing
    }
}

} // verus!
