//! Running ffmpeg on the graph, and playing previews.
use vstd::prelude::*;

use super::{App, AppView, Focus, Request, RequestView};
use crate::ffmpeg::done_mark;
use crate::graph::args::{ffmpeg_args, preview_args, ChapterFile, ChapterFileView};
use crate::graph::chapter::{chapters_ffmetadata, ffmetadata};
use crate::graph::node::{KindView, ModifierKind, ModifierView, Numeral, NumeralView};
use crate::graph::wire::NodeId;
use crate::graph::Graph;
use crate::paths::{extension, extension_spec};
use crate::text::{cat2, cat3, cat4, chars_of, decimal, group_views, join, join_spec, number, opt_text, same_text, starts_with, starts_with_spec, text_of, views};

verus! {

/// How many seconds of an output a preview renders.
pub const PREVIEW_SECONDS: u32 = 20;

// ---------------------------------------------------------------------
// Chapter files
// ---------------------------------------------------------------------

/// A file to write before ffmpeg is run: the chapters of a chapter node.
pub struct ChapterText {
    pub modifier: NodeId,
    /// The file's name within the directory for temporary files.
    pub name: String,
    pub content: String,
}

#[verifier::ext_equal]
pub struct ChapterTextView {
    pub modifier: NodeId,
    pub name: Seq<char>,
    pub content: Seq<char>,
}

impl View for ChapterText {
    type V = ChapterTextView;

    open spec fn view(&self) -> ChapterTextView {
        ChapterTextView { modifier: self.modifier, name: self.name@, content: self.content@ }
    }
}

/// The files to write for the first `n` modifiers: one for each chapter node
/// that has chapters.
pub open spec fn chapter_texts_upto(modifiers: Seq<ModifierView>, n: int) -> Seq<ChapterTextView>
    decreases n,
{
    if n <= 0 {
        Seq::empty()
    } else {
        let p = chapter_texts_upto(modifiers, n - 1);
        let m = modifiers[n - 1];
        match m.kind {
            KindView::ChapterEdit { chapters } => if chapters.len() > 0 {
                p.push(
                    ChapterTextView {
                        modifier: m.id,
                        name: "tff-chapters-"@ + decimal(m.id as nat) + ".ffmeta"@,
                        content: ffmetadata(chapters),
                    },
                )
            } else {
                p
            },
            _ => p,
        }
    }
}

impl Graph {
    /// The files to write before ffmpeg is run: one for each chapter node that
    /// has chapters.
    pub fn chapter_texts(&self) -> (r: Vec<ChapterText>)
        ensures
            views(r@) == chapter_texts_upto(self@.modifiers, self@.modifiers.len() as int),
    {
        let mut out: Vec<ChapterText> = Vec::new();
        let mut i: usize = 0;
        assert(views(out@) == Seq::<ChapterTextView>::empty());
        while i < self.modifiers.len()
            invariant
                i <= self.modifiers@.len(),
                views(out@) == chapter_texts_upto(self@.modifiers, i as int),
            decreases self.modifiers@.len() - i,
        {
            broadcast use group_views;

            assert(self@.modifiers[i as int] == self.modifiers@[i as int]@);
            if let ModifierKind::ChapterEdit { chapters } = &self.modifiers[i].kind {
                if chapters.len() > 0 {
                    let id: NodeId = self.modifiers[i].id;
                    let number = number(id as u128);
                    out.push(
                        ChapterText {
                            modifier: id,
                            name: cat3("tff-chapters-", number.as_str(), ".ffmeta"),
                            content: chapters_ffmetadata(chapters),
                        },
                    );
                }
            }
            i += 1;
        }
        out
    }
}

// ---------------------------------------------------------------------
// Starting
// ---------------------------------------------------------------------

/// The line that shows a command line.
pub open spec fn command_line(args: Seq<Seq<char>>) -> Seq<char> {
    "$ ffmpeg "@ + join_spec(args, " "@)
}

/// The name of the file that a preview of an output is rendered to.
pub open spec fn preview_file_name(id: NodeId, path: Seq<char>) -> Seq<char> {
    "tff-preview-"@ + decimal(id as nat) + "."@ + (match extension_spec(path) {
        Some(e) => e,
        None => "mkv"@,
    })
}

impl AppView {
    /// 'r': rendering is asked for, unless ffmpeg runs already or nothing is
    /// wired.
    pub open spec fn start_render(self) -> (AppView, RequestView) {
        if self.running {
            (self, RequestView::Nothing)
        } else if self.graph.wires.len() == 0 {
            (
                self.say(
                    "nothing mapped yet — arm a stream with 'c', then focus a modifier or output and press 'c' again"@,
                ),
                RequestView::Nothing,
            )
        } else {
            (self, RequestView::Render)
        }
    }

    /// With ffmpeg running.
    pub open spec fn run_render(self, files: Seq<ChapterFileView>, ns: Seq<NumeralView>) -> AppView {
        (AppView { running: true, status: "running ffmpeg..."@, ..self }).say(
            command_line(ffmpeg_args(self.graph, files, ns)),
        )
    }

    /// 'p': a preview of the focused output is asked for, unless ffmpeg runs
    /// already.
    pub open spec fn start_preview(self) -> (AppView, RequestView) {
        if self.running {
            (
                self.say("already running ffmpeg — wait for it to finish before previewing"@),
                RequestView::Nothing,
            )
        } else {
            match self.focus {
                Focus::Output(i) => (
                    self,
                    if (i as int) < self.graph.outputs.len() {
                        RequestView::Preview
                    } else {
                        RequestView::Nothing
                    },
                ),
                _ => (
                    self.say("focus an output node first, then 'p' previews it"@),
                    RequestView::Nothing,
                ),
            }
        }
    }

    /// The name of the file that a preview of the focused output is rendered
    /// to.
    pub open spec fn preview_name(self) -> Option<Seq<char>> {
        match self.focus {
            Focus::Output(i) => if (i as int) < self.graph.outputs.len() {
                Some(
                    preview_file_name(
                        self.graph.outputs[i as int].id,
                        self.graph.outputs[i as int].path,
                    ),
                )
            } else {
                None
            },
            _ => None,
        }
    }

    /// The command line that renders a preview of the focused output.
    pub open spec fn focused_preview_args(
        self,
        path: Seq<char>,
        files: Seq<ChapterFileView>,
        ns: Seq<NumeralView>,
    ) -> Option<Seq<Seq<char>>> {
        match self.focus {
            Focus::Output(i) => if (i as int) < self.graph.outputs.len() {
                preview_args(
                    self.graph,
                    self.graph.outputs[i as int].id,
                    path,
                    PREVIEW_SECONDS as nat,
                    files,
                    ns,
                )
            } else {
                None
            },
            _ => None,
        }
    }

    /// With ffmpeg rendering a preview; or with a line that tells that nothing
    /// is mapped.
    pub open spec fn run_preview(
        self,
        path: Seq<char>,
        files: Seq<ChapterFileView>,
        ns: Seq<NumeralView>,
    ) -> AppView {
        match self.focused_preview_args(path, files, ns) {
            Some(args) => (AppView {
                running: true,
                status: "rendering "@ + decimal(PREVIEW_SECONDS as nat) + "s preview..."@,
                preview_target: Some(path),
                ..self
            }).say(command_line(args)),
            None => self.say(
                "nothing mapped to this output yet — arm a stream with 'c', then focus it and press 'c' again"@,
            ),
        }
    }
}

impl App {
    /// 'r': asks for a render.
    pub fn start_render(&mut self) -> (r: Request)
        ensures
            (final(self)@, r@) == old(self)@.start_render(),
    {
        if self.running {
            return Request::Nothing;
        }
        if self.graph.wires.len() == 0 {
            self.say(
                "nothing mapped yet — arm a stream with 'c', then focus a modifier or output and press 'c' again",
            );
            return Request::Nothing;
        }
        Request::Render
    }

    /// Takes that a chapter file could not be written. Its chapters are left
    /// out of the render.
    pub fn chapter_file_failed(&mut self, error: &str)
        ensures
            final(self)@ == old(self)@.say("couldn't write chapter metadata: "@ + error@),
    {
        let line = cat2("couldn't write chapter metadata: ", error);
        self.say(line.as_str());
    }

    /// Goes on with a render, once the chapter files are written and the
    /// texts of `numeral_texts` have been valued: returns the arguments to run
    /// ffmpeg with.
    pub fn run_render(&mut self, chapter_files: &Vec<ChapterFile>, numerals: &Vec<Numeral>) -> (r: Vec<
        String,
    >)
        ensures
            views(r@) == ffmpeg_args(old(self)@.graph, views(chapter_files@), views(numerals@)),
            final(self)@ == old(self)@.run_render(views(chapter_files@), views(numerals@)),
    {
        self.running = true;
        self.status = "running ffmpeg...".to_owned();
        let args = self.graph.build_ffmpeg_args(chapter_files, numerals);
        let shown = join(&args, " ");
        let line = cat2("$ ffmpeg ", shown.as_str());
        self.say(line.as_str());
        args
    }

    /// 'p': asks for a preview of the focused output.
    pub fn start_preview(&mut self) -> (r: Request)
        ensures
            (final(self)@, r@) == old(self)@.start_preview(),
    {
        if self.running {
            self.say("already running ffmpeg — wait for it to finish before previewing");
            return Request::Nothing;
        }
        match self.focus {
            Focus::Output(i) => if i < self.graph.outputs.len() {
                Request::Preview
            } else {
                Request::Nothing
            },
            _ => {
                self.say("focus an output node first, then 'p' previews it");
                Request::Nothing
            },
        }
    }

    /// The name of the file that a preview of the focused output is rendered
    /// to, within the directory for temporary files.
    pub fn preview_name(&self) -> (r: Option<String>)
        ensures
            opt_text(r) == self@.preview_name(),
    {
        match self.focus {
            Focus::Output(i) => if i < self.graph.outputs.len() {
                let id = number(self.graph.outputs[i].id as u128);
                Some(
                    match extension(self.graph.outputs[i].path.as_str()) {
                        Some(e) => cat4("tff-preview-", id.as_str(), ".", e.as_str()),
                        None => cat4("tff-preview-", id.as_str(), ".", "mkv"),
                    },
                )
            } else {
                None
            },
            _ => None,
        }
    }

    /// Goes on with a preview of the focused output, to the file at `path`:
    /// returns the arguments to run ffmpeg with, unless nothing is mapped.
    pub fn run_preview(
        &mut self,
        path: &str,
        chapter_files: &Vec<ChapterFile>,
        numerals: &Vec<Numeral>,
    ) -> (r: Option<Vec<String>>)
        ensures
            match r {
                Some(args) => old(self)@.focused_preview_args(
                    path@,
                    views(chapter_files@),
                    views(numerals@),
                ) == Some(views(args@)),
                None => old(self)@.focused_preview_args(
                    path@,
                    views(chapter_files@),
                    views(numerals@),
                ) is None,
            },
            final(self)@ == old(self)@.run_preview(
                path@,
                views(chapter_files@),
                views(numerals@),
            ),
    {
        let args = match self.focus {
            Focus::Output(i) => if i < self.graph.outputs.len() {
                self.graph.build_preview_args(
                    self.graph.outputs[i].id,
                    path,
                    PREVIEW_SECONDS,
                    chapter_files,
                    numerals,
                )
            } else {
                None
            },
            _ => None,
        };
        match &args {
            Some(a) => {
                self.running = true;
                let n = number(PREVIEW_SECONDS as u128);
                self.status = cat3("rendering ", n.as_str(), "s preview...");
                self.preview_target = Some(path.to_owned());
                let shown = join(a, " ");
                let line = cat2("$ ffmpeg ", shown.as_str());
                self.say(line.as_str());
            },
            None => {
                self.say(
                    "nothing mapped to this output yet — arm a stream with 'c', then focus it and press 'c' again",
                );
            },
        }
        args
    }
}

// ---------------------------------------------------------------------
// While it runs
// ---------------------------------------------------------------------

/// The lines of a log with those of the first `n` lines that end no run.
pub open spec fn logged_upto(log: Seq<Seq<char>>, lines: Seq<Seq<char>>, n: int) -> Seq<Seq<char>>
    decreases n,
{
    if n <= 0 {
        log
    } else {
        let p = logged_upto(log, lines, n - 1);
        if starts_with_spec(lines[n - 1], done_mark()) {
            p
        } else {
            p.push(lines[n - 1])
        }
    }
}

/// The exit code that the last of the first `n` lines which ends a run tells.
pub open spec fn exit_code_upto(lines: Seq<Seq<char>>, n: int) -> Option<Seq<char>>
    decreases n,
{
    if n <= 0 {
        None
    } else if starts_with_spec(lines[n - 1], done_mark()) {
        Some(lines[n - 1].subrange(done_mark().len() as int, lines[n - 1].len() as int))
    } else {
        exit_code_upto(lines, n - 1)
    }
}

impl AppView {
    /// With this status, in the log too.
    pub open spec fn report(self, status: Seq<char>) -> AppView {
        (AppView { status, ..self }).say(status)
    }

    /// With ffmpeg finished: a preview that was rendered is ready to be
    /// played.
    pub open spec fn ffmpeg_done(self, code: Seq<char>) -> AppView {
        let a = AppView { running: false, preview_target: None, ..self };
        match self.preview_target {
            Some(path) => if code == "0"@ {
                AppView { status: "preview ready"@, preview_ready: Some(path), ..a }
            } else {
                a.report("preview render failed (exit code "@ + code + ")"@)
            },
            None => a.report("ffmpeg exited with code "@ + code),
        }
    }

    /// With the lines that ffmpeg printed in the log, and the end of the run
    /// taken note of.
    pub open spec fn poll_ffmpeg(self, lines: Seq<Seq<char>>) -> AppView {
        let n = lines.len() as int;
        let a = AppView { log: logged_upto(self.log, lines, n), ..self };
        match exit_code_upto(lines, n) {
            Some(code) => a.ffmpeg_done(code),
            None => a,
        }
    }
}

impl App {
    /// Sets the status, and logs it too.
    pub fn report(&mut self, status: String)
        ensures
            final(self)@ == old(self)@.report(status@),
    {
        self.say(status.as_str());
        self.status = status;
    }

    fn ffmpeg_done(&mut self, code: &str)
        ensures
            final(self)@ == old(self)@.ffmpeg_done(code@),
    {
        self.running = false;
        match self.preview_target.take() {
            Some(path) => {
                if same_text(code, "0") {
                    self.status = "preview ready".to_owned();
                    self.preview_ready = Some(path);
                } else {
                    self.report(cat3("preview render failed (exit code ", code, ")"));
                }
            },
            None => {
                self.report(cat2("ffmpeg exited with code ", code));
            },
        }
    }

    /// Takes the lines that ffmpeg printed since the last time. The one that
    /// ends the run is not shown.
    pub fn poll_ffmpeg(&mut self, lines: &Vec<String>)
        ensures
            final(self)@ == old(self)@.poll_ffmpeg(views(lines@)),
    {
        let mut done: Option<String> = None;
        let mut i: usize = 0;
        let ghost shown = views(lines@);
        while i < lines.len()
            invariant
                i <= lines@.len(),
                shown == views(lines@),
                self@ == (AppView {
                    log: logged_upto(old(self)@.log, shown, i as int),
                    ..old(self)@
                }),
                opt_text(done) == exit_code_upto(shown, i as int),
            decreases lines@.len() - i,
        {
            let line = lines[i].as_str();
            assert(shown[i as int] == line@);
            if starts_with(line, "__DONE__") {
                let v = chars_of(line);
                let mark = chars_of("__DONE__");
                done = Some(text_of(&v, mark.len(), v.len()));
            } else {
                self.say(line);
            }
            i += 1;
        }
        if let Some(code) = done {
            self.ffmpeg_done(code.as_str());
        }
    }
}

// ---------------------------------------------------------------------
// Playing a preview
// ---------------------------------------------------------------------

/// How a preview is played.
#[derive(Clone, Copy, Debug, PartialEq, Eq, Structural)]
pub enum Playback {
    /// mpv in a window of its own.
    Mpv,
    /// ffplay in a window of its own.
    Ffplay,
    /// mpv drawing into the terminal.
    Terminal,
    /// Nothing can play it.
    Nothing,
}

/// How a preview is played: in a window where there is a display, by mpv where
/// it is installed; without a display by mpv alone.
pub open spec fn playback(has_display: bool, mpv_installed: bool) -> Playback {
    if has_display {
        if mpv_installed {
            Playback::Mpv
        } else {
            Playback::Ffplay
        }
    } else if mpv_installed {
        Playback::Terminal
    } else {
        Playback::Nothing
    }
}

impl AppView {
    /// With a line that tells how a preview is played.
    pub open spec fn play_preview(self, how: Playback, path: Seq<char>) -> AppView {
        match how {
            Playback::Mpv => self.say("$ mpv "@ + path),
            Playback::Ffplay => self.say("$ ffplay "@ + path),
            Playback::Terminal => self.say(
                "no display available -- playing in the terminal via mpv: "@ + path,
            ),
            Playback::Nothing => self.report(
                "no display available and mpv isn't installed -- can't play the preview"@,
            ),
        }
    }

    /// With the player's failure reported.
    pub open spec fn playback_failed(self, how: Playback, error: Seq<char>) -> AppView {
        match how {
            Playback::Mpv => self.report("couldn't launch mpv: "@ + error),
            Playback::Ffplay => self.report("couldn't launch ffplay: "@ + error),
            Playback::Terminal => self.report("couldn't play preview via mpv: "@ + error),
            Playback::Nothing => self,
        }
    }
}

impl App {
    /// The preview that waits to be played, which then waits no more.
    pub fn take_preview(&mut self) -> (r: Option<String>)
        ensures
            opt_text(r) == old(self)@.preview_ready,
            final(self)@ == (AppView { preview_ready: None, ..old(self)@ }),
    {
        self.preview_ready.take()
    }

    /// Decides how a preview is played, and says so.
    pub fn play_preview(&mut self, has_display: bool, mpv_installed: bool, path: &str) -> (r: Playback)
        ensures
            r == playback(has_display, mpv_installed),
            final(self)@ == old(self)@.play_preview(r, path@),
    {
        if has_display {
            if mpv_installed {
                let line = cat2("$ mpv ", path);
                self.say(line.as_str());
                Playback::Mpv
            } else {
                let line = cat2("$ ffplay ", path);
                self.say(line.as_str());
                Playback::Ffplay
            }
        } else if mpv_installed {
            let line = cat2("no display available -- playing in the terminal via mpv: ", path);
            self.say(line.as_str());
            Playback::Terminal
        } else {
            self.report(
                "no display available and mpv isn't installed -- can't play the preview".to_owned(),
            );
            Playback::Nothing
        }
    }

    /// Takes that the player failed.
    pub fn playback_failed(&mut self, how: Playback, error: &str)
        ensures
            final(self)@ == old(self)@.playback_failed(how, error@),
    {
        match how {
            Playback::Mpv => self.report(cat2("couldn't launch mpv: ", error)),
            Playback::Ffplay => self.report(cat2("couldn't launch ffplay: ", error)),
            Playback::Terminal => self.report(cat2("couldn't play preview via mpv: ", error)),
            Playback::Nothing => {},
        }
    }
}

} // verus!
