//! Saving and loading a project.
use vstd::prelude::*;

use super::text_input::{text_input_mode, text_mode};
use super::{App, AppView, Focus, Request, RequestView, TargetView, TextTarget};
use crate::graph::project::{LoadResult, LoadView};
use crate::text::{cat2, cat3, decimal, join, join_spec, number, views};

verus! {

/// The name that a project is saved under unless another is typed.
pub open spec fn default_project() -> Seq<char> {
    "project.tffproj"@
}

/// The view of an outcome that is a text where it failed.
pub open spec fn outcome(r: Result<(), String>) -> Result<(), Seq<char>> {
    match r {
        Ok(()) => Ok(()),
        Err(e) => Err(e@),
    }
}

/// The view of what reading a project gave.
pub open spec fn load_outcome(r: Result<LoadResult, String>) -> Result<LoadView, Seq<char>> {
    match r {
        Ok(l) => Ok(l@),
        Err(e) => Err(e@),
    }
}

impl AppView {
    /// Control and 's': asking where to save the project.
    pub open spec fn start_save_project(self) -> (AppView, RequestView) {
        (
            self.enter(text_mode(TargetView::SaveProjectPath, default_project(), Seq::empty())),
            RequestView::ListPaths(default_project()),
        )
    }

    /// Control and 'o': asking which project to load.
    pub open spec fn start_load_project(self) -> (AppView, RequestView) {
        (
            self.enter(text_mode(TargetView::LoadProjectPath, Seq::empty(), Seq::empty())),
            RequestView::ListPaths(Seq::empty()),
        )
    }

    /// With a line that tells how saving went.
    pub open spec fn project_saved(self, path: Seq<char>, result: Result<(), Seq<char>>) -> AppView {
        match result {
            Ok(()) => self.say("saved project to "@ + path),
            Err(e) => self.say("couldn't save project: "@ + e),
        }
    }

    /// With the loaded project in place of the current graph, its first output
    /// focused and nothing armed or selected; or with a line that tells why
    /// it could not be loaded.
    pub open spec fn project_loaded(self, path: Seq<char>, result: Result<LoadView, Seq<char>>) -> AppView {
        match result {
            Ok(l) => {
                let a = (AppView {
                    graph: l.graph,
                    focus: Focus::Output(0),
                    row_idx: 0,
                    armed: Seq::empty(),
                    selected: Seq::empty(),
                    selection_anchor: None,
                    text_scroll: 0,
                    ..self
                }).say("loaded project from "@ + path);
                if l.missing_inputs.len() > 0 {
                    a.say(
                        decimal(l.missing_inputs.len())
                            + " input file(s) couldn't be found and are shown grayed out: "@
                            + join_spec(l.missing_inputs, ", "@),
                    )
                } else {
                    a
                }
            },
            Err(e) => self.say("couldn't load project: "@ + e),
        }
    }
}

impl App {
    /// Control and 's': asks where to save the project.
    pub fn start_save_project(&mut self) -> (r: Request)
        ensures
            (final(self)@, r@) == old(self)@.start_save_project(),
    {
        let none: Vec<String> = Vec::new();
        assert(views(none@) == Seq::<Seq<char>>::empty());
        self.mode = text_input_mode(
            TextTarget::SaveProjectPath,
            "project.tffproj".to_owned(),
            none,
        );
        Request::ListPaths("project.tffproj".to_owned())
    }

    /// Control and 'o': asks which project to load.
    pub fn start_load_project(&mut self) -> (r: Request)
        ensures
            (final(self)@, r@) == old(self)@.start_load_project(),
    {
        let none: Vec<String> = Vec::new();
        assert(views(none@) == Seq::<Seq<char>>::empty());
        self.mode = text_input_mode(TextTarget::LoadProjectPath, String::new(), none);
        Request::ListPaths(String::new())
    }

    /// Takes how saving the project went.
    pub fn project_saved(&mut self, path: &str, result: Result<(), String>)
        ensures
            final(self)@ == old(self)@.project_saved(path@, outcome(result)),
    {
        let line = match &result {
            Ok(()) => cat2("saved project to ", path),
            Err(e) => cat2("couldn't save project: ", e.as_str()),
        };
        self.say(line.as_str());
    }

    /// Takes the project that was read, or why it could not be.
    pub fn project_loaded(&mut self, path: &str, result: Result<LoadResult, String>)
        ensures
            final(self)@ == old(self)@.project_loaded(path@, load_outcome(result)),
    {
        match result {
            Ok(l) => {
                self.graph = l.graph;
                self.focus = Focus::Output(0);
                self.row_idx = 0;
                self.armed.clear();
                self.selected.clear();
                self.selection_anchor = None;
                self.text_scroll = 0;
                let line = cat2("loaded project from ", path);
                self.say(line.as_str());
                if l.missing_inputs.len() > 0 {
                    let n = number(l.missing_inputs.len() as u128);
                    let names = join(&l.missing_inputs, ", ");
                    let line = cat3(
                        n.as_str(),
                        " input file(s) couldn't be found and are shown grayed out: ",
                        names.as_str(),
                    );
                    self.say(line.as_str());
                }
            },
            Err(e) => {
                let line = cat2("couldn't load project: ", e.as_str());
                self.say(line.as_str());
            },
        }
    }
}

} // verus!
