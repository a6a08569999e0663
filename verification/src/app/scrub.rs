//! Finding trim points in a player.
use vstd::prelude::*;

use super::settings::{set_stored, store_of_mut, stored, Store};
use super::text_input::{text_input_mode, text_mode};
use super::{App, AppView, BackendView, Focus, Mode, ModeView, Request, RequestView, ScrubBackend, ScrubSession, SessionView, TargetView, TextTarget};
use crate::fields::{field_get, field_set};
use crate::graph::chapter::{clock, format_time, Seconds, SecondsView};
use crate::graph::node::{FilterName, KindView, ModifierKind};
use crate::graph::resolve::{resolve_spec, Resolved, ResolvedView};
use crate::graph::wire::{NodeId, Target};
use crate::graph::feed;
use crate::player::{mpv_seek_absolute, word, CommandArg, CommandArgView};
use crate::text::{cat2, cat3, decimal, number, opt_owned, opt_text, views};

verus! {

// ---------------------------------------------------------------------
// Starting
// ---------------------------------------------------------------------

/// What a scrub session is opened on: the file that feeds a trim node, and the
/// text of the start that is marked already, if there is one.
pub struct ScrubSource {
    pub modifier_id: NodeId,
    pub path: String,
    pub start: Option<String>,
}

#[verifier::ext_equal]
pub struct ScrubSourceView {
    pub modifier_id: NodeId,
    pub path: Seq<char>,
    pub start: Option<Seq<char>>,
}

impl View for ScrubSource {
    type V = ScrubSourceView;

    open spec fn view(&self) -> ScrubSourceView {
        ScrubSourceView {
            modifier_id: self.modifier_id,
            path: self.path@,
            start: opt_text(self.start),
        }
    }
}

/// Why there is nothing to scrub.
pub enum Refusal {
    /// With a line that tells why.
    Because(&'static str),
    Silent,
}

/// The view of a source, or of the line that tells why there is none.
pub open spec fn source_view(r: Result<ScrubSource, Refusal>) -> Result<
    ScrubSourceView,
    Option<Seq<char>>,
> {
    match r {
        Ok(s) => Ok(s@),
        Err(Refusal::Because(line)) => Err(Some(line@)),
        Err(Refusal::Silent) => Err(None),
    }
}

/// Which player scrubs.
#[derive(Clone, Copy, Debug, PartialEq, Eq, Structural)]
pub enum Player {
    /// mpv, in a window of its own or else in the terminal.
    Mpv { headless: bool },
    /// ffplay, in a window of its own.
    Ffplay,
}

/// Which player scrubs: mpv where it is installed, and else ffplay where there
/// is a display.
pub open spec fn scrub_player(has_display: bool, mpv_installed: bool) -> Option<Player> {
    if mpv_installed {
        Some(Player::Mpv { headless: !has_display })
    } else if has_display {
        Some(Player::Ffplay)
    } else {
        None
    }
}

/// How a player is moved to a time.
pub enum SeekAction {
    /// There is none to move.
    Nothing,
    /// By a command, over mpv's socket.
    Command(Vec<CommandArg>),
    /// By ending it, and starting it anew on this file.
    Restart(String),
}

pub enum SeekActionView {
    Nothing,
    Command(Seq<CommandArgView>),
    Restart(Seq<char>),
}

impl View for SeekAction {
    type V = SeekActionView;

    open spec fn view(&self) -> SeekActionView {
        match self {
            SeekAction::Nothing => SeekActionView::Nothing,
            SeekAction::Command(c) => SeekActionView::Command(views(c@)),
            SeekAction::Restart(path) => SeekActionView::Restart(path@),
        }
    }
}

/// The line that greets a scrub session.
pub open spec fn scrub_greeting(backend: BackendView) -> Seq<char> {
    match backend {
        BackendView::Mpv { headless, .. } => if headless {
            "scrubbing in mpv (no display available) -- space play/pause, h/l or ←/→ step a frame, Shift+←/→ seek 1s, g jump to time, i/o mark start/end, Esc to close"@
        } else {
            "scrubbing in mpv -- if its window takes focus, click back into this terminal to use these keys: space play/pause, h/l or ←/→ step a frame, Shift+←/→ seek 1s, g jump to time, i/o mark start/end, Esc to close"@
        },
        BackendView::Ffplay => "mpv isn't installed -- scrubbing in ffplay instead, which has no remote control: use its own window (space pause, left/right seek 10s, s step forward, no reverse step). Back in this terminal: g jump to time (restarts ffplay), i/o mark start/end, Esc to close"@,
    }
}

impl AppView {
    /// What the focused node lets scrub: a trim node that a single file feeds.
    pub open spec fn scrub_source(self) -> Result<ScrubSourceView, Option<Seq<char>>> {
        let g = self.graph;
        match self.focus {
            Focus::Modifier(i) => if (i as int) < g.modifiers.len() {
                let m = g.modifiers[i as int];
                match m.kind {
                    KindView::Filter { name, fields } => if name == FilterName::Trim {
                        match feed(g.wires, Target::ModifierIn(m.id)) {
                            None => Err(
                                Some("connect a stream to this node first, then 's' to scrub"@),
                            ),
                            Some(from) => match resolve_spec(g, from) {
                                None => Err(Some("broken chain -- fix the connection first"@)),
                                Some(ResolvedView::Concat { .. }) => Err(
                                    Some(
                                        "can't scrub a concatenated source -- trim each segment before concatenating instead"@,
                                    ),
                                ),
                                Some(ResolvedView::Stream { from_node, from_stream_idx, .. }) => {
                                    match g.input(from_node) {
                                        None => Err(None),
                                        Some(input) => if (from_stream_idx as int)
                                            < input.streams.len() {
                                            Ok(
                                                ScrubSourceView {
                                                    modifier_id: m.id,
                                                    path: input.path,
                                                    start: field_get(fields, "start"@),
                                                },
                                            )
                                        } else {
                                            Err(None)
                                        },
                                    }
                                },
                            },
                        }
                    } else {
                        Err(Some("only a trim node can be scrubbed"@))
                    },
                    _ => Err(Some("only a trim node can be scrubbed"@)),
                }
            } else {
                Err(None)
            },
            _ => Err(Some("focus a trim node first, then 's' to scrub"@)),
        }
    }

    /// 's': a scrub session is asked for, unless the focused node has nothing
    /// to scrub.
    pub open spec fn start_scrub(self) -> (AppView, RequestView) {
        match self.scrub_source() {
            Ok(_) => (self, RequestView::Scrub),
            Err(Some(line)) => (self.say(line), RequestView::Nothing),
            Err(None) => (self, RequestView::Nothing),
        }
    }

    /// With a scrub session open.
    pub open spec fn scrub_started(self, session: SessionView) -> AppView {
        (AppView { scrub: Some(session), mode: ModeView::Scrub, ..self }).say(
            scrub_greeting(session.backend),
        )
    }
}

impl App {
    /// What the focused node lets scrub, or why there is nothing to scrub.
    pub fn scrub_source(&self) -> (r: Result<ScrubSource, Refusal>)
        ensures
            source_view(r) == self@.scrub_source(),
    {
        let i: usize = match self.focus {
            Focus::Modifier(i) => i,
            _ => {
                return Err(Refusal::Because("focus a trim node first, then 's' to scrub"));
            },
        };
        if i >= self.graph.modifiers.len() {
            return Err(Refusal::Silent);
        }
        assert(self@.graph.modifiers[i as int] == self.graph.modifiers@[i as int]@);
        let mid: NodeId = self.graph.modifiers[i].id;
        let start = match &self.graph.modifiers[i].kind {
            ModifierKind::Filter { name, fields } => if *name == FilterName::Trim {
                opt_owned(fields.get("start"))
            } else {
                return Err(Refusal::Because("only a trim node can be scrubbed"));
            },
            _ => {
                return Err(Refusal::Because("only a trim node can be scrubbed"));
            },
        };
        let from = match self.graph.first_feed(Target::ModifierIn(mid)) {
            Some(from) => from,
            None => {
                return Err(
                    Refusal::Because("connect a stream to this node first, then 's' to scrub"),
                );
            },
        };
        match self.graph.resolve(from) {
            None => Err(Refusal::Because("broken chain -- fix the connection first")),
            Some(Resolved::Concat { .. }) => Err(
                Refusal::Because(
                    "can't scrub a concatenated source -- trim each segment before concatenating instead",
                ),
            ),
            Some(Resolved::Stream { from_node, from_stream_idx, .. }) => match self.graph.input(
                from_node,
            ) {
                None => Err(Refusal::Silent),
                Some(input) => if from_stream_idx < input.streams.len() {
                    Ok(ScrubSource { modifier_id: mid, path: input.path.clone(), start })
                } else {
                    Err(Refusal::Silent)
                },
            },
        }
    }

    /// 's': asks for a scrub session on the file that feeds the focused trim
    /// node. A source that comes out of a concat node has no single file to
    /// play.
    pub fn start_scrub(&mut self) -> (r: Request)
        ensures
            (final(self)@, r@) == old(self)@.start_scrub(),
    {
        match self.scrub_source() {
            Ok(_) => Request::Scrub,
            Err(Refusal::Because(line)) => {
                self.say(line);
                Request::Nothing
            },
            Err(Refusal::Silent) => Request::Nothing,
        }
    }

    /// Goes on with a scrub session, once it is known which players there
    /// are: returns the one to start.
    pub fn choose_player(&mut self, has_display: bool, mpv_installed: bool) -> (r: Option<Player>)
        ensures
            r == scrub_player(has_display, mpv_installed),
            final(self)@ == (if r is None {
                old(self)@.say(
                    "can't scrub -- no display available and mpv isn't installed (ffplay can't render without a display either)"@,
                )
            } else {
                old(self)@
            }),
    {
        if mpv_installed {
            Some(Player::Mpv { headless: !has_display })
        } else if has_display {
            Some(Player::Ffplay)
        } else {
            self.say(
                "can't scrub -- no display available and mpv isn't installed (ffplay can't render without a display either)",
            );
            None
        }
    }

    /// Takes the session whose player was started.
    pub fn scrub_started(&mut self, session: ScrubSession)
        ensures
            final(self)@ == old(self)@.scrub_started(session@),
    {
        let line = match &session.backend {
            ScrubBackend::Mpv { headless, .. } => if *headless {
                "scrubbing in mpv (no display available) -- space play/pause, h/l or ←/→ step a frame, Shift+←/→ seek 1s, g jump to time, i/o mark start/end, Esc to close"
            } else {
                "scrubbing in mpv -- if its window takes focus, click back into this terminal to use these keys: space play/pause, h/l or ←/→ step a frame, Shift+←/→ seek 1s, g jump to time, i/o mark start/end, Esc to close"
            },
            ScrubBackend::Ffplay => "mpv isn't installed -- scrubbing in ffplay instead, which has no remote control: use its own window (space pause, left/right seek 10s, s step forward, no reverse step). Back in this terminal: g jump to time (restarts ffplay), i/o mark start/end, Esc to close",
        };
        self.scrub = Some(session);
        self.mode = Mode::Scrub;
        self.say(line);
    }

    /// Takes that no player could be started.
    pub fn scrub_failed(&mut self, error: &str)
        ensures
            final(self)@ == old(self)@.say("couldn't start scrubbing: "@ + error@),
    {
        let line = cat2("couldn't start scrubbing: ", error);
        self.say(line.as_str());
    }
}

/// The name of mpv's command socket for a trim node, within the directory for
/// temporary files.
pub fn scrub_socket_name(modifier_id: NodeId) -> (r: String)
    ensures
        r@ == "tff-scrub-"@ + decimal(modifier_id as nat) + ".sock"@,
{
    let n = number(modifier_id as u128);
    cat3("tff-scrub-", n.as_str(), ".sock")
}

// ---------------------------------------------------------------------
// While it is open
// ---------------------------------------------------------------------

impl AppView {
    /// A command for the player: passed on to mpv. ffplay takes none.
    pub open spec fn scrub_command(self, command: RequestView) -> (AppView, RequestView) {
        match self.scrub {
            None => (self, RequestView::Nothing),
            Some(session) => match session.backend {
                BackendView::Mpv { .. } => (self, command),
                BackendView::Ffplay => (
                    self.say(
                        "ffplay has no remote control -- use its own window: space pause, left/right seek, s step forward"@,
                    ),
                    RequestView::Nothing,
                ),
            },
        }
    }

    /// 'g': asking for the time to jump to.
    pub open spec fn start_scrub_seek(self) -> AppView {
        if self.scrub is Some {
            self.enter(text_mode(TargetView::ScrubSeek, Seq::empty(), Seq::empty()))
        } else {
            self
        }
    }

    /// With the trim node's start or end set to where the player is.
    pub open spec fn mark_scrub_point(
        self,
        field: Seq<char>,
        position: Result<SecondsView, Seq<char>>,
    ) -> AppView {
        match self.scrub {
            None => self,
            Some(session) => match position {
                Ok(t) => {
                    let at = Store::Filter(session.modifier_id);
                    match stored(self.graph, at) {
                        Some(m) => self.with_graph(
                            set_stored(self.graph, at, field_set(m, field, t.text)),
                        ).say(field + " marked at "@ + clock(t.millis as int)),
                        None => self,
                    }
                },
                Err(e) => self.say("couldn't read the current position: "@ + e),
            },
        }
    }
}

/// The view of a position, or of why there is none.
pub open spec fn position_view(r: Result<Seconds, String>) -> Result<SecondsView, Seq<char>> {
    match r {
        Ok(t) => Ok(t@),
        Err(e) => Err(e@),
    }
}

/// Where ffplay is, by the last position that it printed.
pub fn ffplay_position(last: Option<Seconds>) -> (r: Result<Seconds, String>)
    ensures
        position_view(r) == (match last {
            Some(t) => Ok::<SecondsView, Seq<char>>(t@),
            None => Err(
                "no position reported by ffplay yet -- give it a moment to start playing"@,
            ),
        }),
{
    match last {
        Some(t) => Ok(t),
        None => Err(
            "no position reported by ffplay yet -- give it a moment to start playing".to_owned(),
        ),
    }
}

impl App {
    fn scrub_command(&mut self, command: Request) -> (r: Request)
        ensures
            (final(self)@, r@) == old(self)@.scrub_command(command@),
    {
        let is_mpv = match &self.scrub {
            None => {
                return Request::Nothing;
            },
            Some(session) => match &session.backend {
                ScrubBackend::Mpv { .. } => true,
                ScrubBackend::Ffplay => false,
            },
        };
        if is_mpv {
            command
        } else {
            self.say(
                "ffplay has no remote control -- use its own window: space pause, left/right seek, s step forward",
            );
            Request::Nothing
        }
    }

    /// Space: plays or pauses.
    pub fn scrub_play_pause(&mut self) -> (r: Request)
        ensures
            (final(self)@, r@) == old(self)@.scrub_command(RequestView::ScrubPlayPause),
    {
        self.scrub_command(Request::ScrubPlayPause)
    }

    /// 'h', 'l' or the arrows: steps by a frame.
    pub fn scrub_step_frame(&mut self, forward: bool) -> (r: Request)
        ensures
            (final(self)@, r@) == old(self)@.scrub_command(RequestView::ScrubStepFrame(forward)),
    {
        self.scrub_command(Request::ScrubStepFrame(forward))
    }

    /// Shift and the arrows: seeks by a second.
    pub fn scrub_seek_relative(&mut self, forward: bool) -> (r: Request)
        ensures
            (final(self)@, r@) == old(self)@.scrub_command(
                RequestView::ScrubSeekRelative(forward),
            ),
    {
        self.scrub_command(Request::ScrubSeekRelative(forward))
    }

    /// 'g': asks for the time to jump to.
    pub fn start_scrub_seek(&mut self)
        ensures
            final(self)@ == old(self)@.start_scrub_seek(),
    {
        if self.scrub.is_some() {
            let none: Vec<String> = Vec::new();
            assert(views(none@) == Seq::<Seq<char>>::empty());
            self.mode = text_input_mode(TextTarget::ScrubSeek, String::new(), none);
        }
    }

    /// How the player is moved to a time: mpv by a command; ffplay, which takes
    /// none, by starting it anew there.
    pub fn scrub_seek_absolute(&self, secs: &Seconds) -> (r: SeekAction)
        ensures
            r@ == (match self@.scrub {
                None => SeekActionView::Nothing,
                Some(session) => match session.backend {
                    BackendView::Mpv { .. } => SeekActionView::Command(
                        seq![word("seek"@), CommandArgView::Time(secs@), word("absolute"@)],
                    ),
                    BackendView::Ffplay => SeekActionView::Restart(session.path),
                },
            }),
    {
        match &self.scrub {
            None => SeekAction::Nothing,
            Some(session) => match &session.backend {
                ScrubBackend::Mpv { .. } => SeekAction::Command(mpv_seek_absolute(secs)),
                ScrubBackend::Ffplay => SeekAction::Restart(session.path.clone()),
            },
        }
    }

    /// Takes that a command to the player failed.
    pub fn scrub_command_failed(&mut self, error: &str)
        ensures
            final(self)@ == old(self)@.say("scrub command failed: "@ + error@),
    {
        let line = cat2("scrub command failed: ", error);
        self.say(line.as_str());
    }

    /// Takes how restarting ffplay at another time went: the only way to move
    /// it there.
    pub fn ffplay_restarted(&mut self, secs: &Seconds, result: Result<(), String>)
        ensures
            final(self)@ == old(self)@.say(
                match result {
                    Ok(()) => "jumped to "@ + clock(secs@.millis as int),
                    Err(e) => "couldn't restart ffplay: "@ + e@,
                },
            ),
    {
        let line = match &result {
            Ok(()) => {
                let shown = format_time(secs);
                cat2("jumped to ", shown.as_str())
            },
            Err(e) => cat2("couldn't restart ffplay: ", e.as_str()),
        };
        self.say(line.as_str());
    }

    /// 'i' or 'o': asks where the player is, to mark the start or the end.
    pub fn start_mark(&self, start: bool) -> (r: Request)
        ensures
            r@ == (if self@.scrub is Some {
                RequestView::ScrubMark(start)
            } else {
                RequestView::Nothing
            }),
    {
        if self.scrub.is_some() {
            Request::ScrubMark(start)
        } else {
            Request::Nothing
        }
    }

    /// Takes where the player is, and writes it into the trim node's start or
    /// end as plain seconds.
    pub fn mark_scrub_point(&mut self, field: &str, position: Result<Seconds, String>)
        ensures
            final(self)@ == old(self)@.mark_scrub_point(field@, position_view(position)),
    {
        let id: NodeId = match &self.scrub {
            Some(session) => session.modifier_id,
            None => {
                return;
            },
        };
        match position {
            Ok(t) => {
                let shown = format_time(&t);
                let marked = match store_of_mut(&mut self.graph, Store::Filter(id)) {
                    Some(m) => {
                        m.insert(field.to_owned(), t.text);
                        true
                    },
                    None => false,
                };
                if marked {
                    let line = cat3(field, " marked at ", shown.as_str());
                    self.say(line.as_str());
                }
            },
            Err(e) => {
                let line = cat2("couldn't read the current position: ", e.as_str());
                self.say(line.as_str());
            },
        }
    }

    /// Esc or 'q': ends the session. The player has to be ended, and mpv's
    /// socket removed.
    pub fn close_scrub(&mut self) -> (r: Request)
        ensures
            final(self)@ == (AppView { scrub: None, mode: ModeView::Normal, ..old(self)@ }),
            r@ == RequestView::ScrubClose,
    {
        self.scrub = None;
        self.mode = Mode::Normal;
        Request::ScrubClose
    }

    /// Whether mpv draws into this very terminal.
    pub fn scrub_is_headless_mpv(&self) -> (r: bool)
        ensures
            r == (self@.scrub matches Some(session) && session.backend matches BackendView::Mpv {
                headless,
                ..
            } && headless),
    {
        match &self.scrub {
            Some(session) => match &session.backend {
                ScrubBackend::Mpv { headless, .. } => *headless,
                ScrubBackend::Ffplay => false,
            },
            None => false,
        }
    }
}

} // verus!
