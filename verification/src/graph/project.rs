//! The shape in which a graph is saved.
use vstd::prelude::*;

use super::chapter::{copy_chapters, Chapter, ChapterView};
use super::node::{InputNode, InputView, ModifierNode, ModifierView, OutputNode, OutputView};
use super::stream::{StreamInfo, StreamKind, StreamView};
use super::wire::{NodeId, Wire};
use super::{streams_with_chapter_marker, with_chapter_marker, Graph, GraphView};
use crate::fields::{Entry, FieldMap};
use crate::text::{cat5, decimal, group_views, number, views};

verus! {

/// Raised whenever a change to the saved shape could keep another version of
/// the program from reading the file.
pub const PROJECT_FORMAT_VERSION: u32 = 1;

/// A saved project.
pub struct ProjectFile {
    pub version: u32,
    pub inputs: Vec<SavedInput>,
    pub modifiers: Vec<ModifierNode>,
    pub outputs: Vec<OutputNode>,
    pub wires: Vec<Wire>,
    pub next_id: NodeId,
}

#[verifier::ext_equal]
pub struct ProjectView {
    pub version: u32,
    pub inputs: Seq<SavedView>,
    pub modifiers: Seq<ModifierView>,
    pub outputs: Seq<OutputView>,
    pub wires: Seq<Wire>,
    pub next_id: NodeId,
}

impl View for ProjectFile {
    type V = ProjectView;

    open spec fn view(&self) -> ProjectView {
        ProjectView {
            version: self.version,
            inputs: views(self.inputs@),
            modifiers: views(self.modifiers@),
            outputs: views(self.outputs@),
            wires: self.wires@,
            next_id: self.next_id,
        }
    }
}

/// A saved input. Its number follows from its position, and its stream list
/// is the probed one, without the entry that stands for the chapters.
pub struct SavedInput {
    pub id: NodeId,
    pub path: String,
    pub streams: Vec<StreamInfo>,
    pub chapters: Vec<Chapter>,
    pub extra_args: FieldMap,
    pub pos: (i64, i64),
    pub width: u16,
}

#[verifier::ext_equal]
pub struct SavedView {
    pub id: NodeId,
    pub path: Seq<char>,
    pub streams: Seq<StreamView>,
    pub chapters: Seq<ChapterView>,
    pub extra_args: Seq<Entry>,
    pub pos: (i64, i64),
    pub width: u16,
}

impl View for SavedInput {
    type V = SavedView;

    open spec fn view(&self) -> SavedView {
        SavedView {
            id: self.id,
            path: self.path@,
            streams: views(self.streams@),
            chapters: views(self.chapters@),
            extra_args: self.extra_args@,
            pos: self.pos,
            width: self.width,
        }
    }
}

/// Those of the first `n` streams that do not stand for chapters.
pub open spec fn media_streams_upto(streams: Seq<StreamView>, n: int) -> Seq<StreamView>
    decreases n,
{
    if n <= 0 {
        Seq::empty()
    } else {
        let p = media_streams_upto(streams, n - 1);
        if streams[n - 1].kind == StreamKind::Chapter {
            p
        } else {
            p.push(streams[n - 1])
        }
    }
}

/// The streams that do not stand for chapters.
pub open spec fn media_streams(streams: Seq<StreamView>) -> Seq<StreamView> {
    media_streams_upto(streams, streams.len() as int)
}

/// A copy of the streams that do not stand for chapters.
pub fn copy_media_streams(streams: &Vec<StreamInfo>) -> (r: Vec<StreamInfo>)
    ensures
        views(r@) == media_streams(views(streams@)),
{
    let mut out: Vec<StreamInfo> = Vec::new();
    let mut i: usize = 0;
    assert(views(out@) == Seq::<StreamView>::empty());
    while i < streams.len()
        invariant
            i <= streams@.len(),
            views(out@) == media_streams_upto(views(streams@), i as int),
        decreases streams@.len() - i,
    {
        broadcast use group_views;

        if streams[i].kind != StreamKind::Chapter {
            out.push(streams[i].clone());
        }
        i += 1;
    }
    out
}

impl SavedView {
    pub open spec fn of(n: InputView) -> SavedView {
        SavedView {
            id: n.id,
            path: n.path,
            streams: media_streams(n.streams),
            chapters: n.chapters,
            extra_args: n.extra_args,
            pos: n.pos,
            width: n.width,
        }
    }

    /// The input as it is loaded at position `i`: with what a fresh probe
    /// found, or else with what was saved, as a file that is missing.
    pub open spec fn loaded(self, i: int, probe: Option<ProbeView>) -> InputView {
        let (streams, chapters) = match probe {
            Some(p) => (p.streams, p.chapters),
            None => (self.streams, self.chapters),
        };
        InputView {
            id: self.id,
            path: self.path,
            file_index: i as usize,
            streams: with_chapter_marker(streams, chapters.len() as int),
            chapters,
            extra_args: self.extra_args,
            pos: self.pos,
            width: self.width,
            file_missing: probe is None,
        }
    }
}

impl SavedInput {
    pub fn from_node(node: &InputNode) -> (r: SavedInput)
        ensures
            r@ == SavedView::of(node@),
    {
        SavedInput {
            id: node.id,
            path: node.path.clone(),
            streams: copy_media_streams(&node.streams),
            chapters: copy_chapters(&node.chapters),
            extra_args: node.extra_args.clone(),
            pos: node.pos,
            width: node.width,
        }
    }
}

/// What a probe found in a file: its streams and its chapters.
pub struct ProbeResult {
    pub streams: Vec<StreamInfo>,
    pub chapters: Vec<Chapter>,
}

#[verifier::ext_equal]
pub struct ProbeView {
    pub streams: Seq<StreamView>,
    pub chapters: Seq<ChapterView>,
}

impl View for ProbeResult {
    type V = ProbeView;

    open spec fn view(&self) -> ProbeView {
        ProbeView { streams: views(self.streams@), chapters: views(self.chapters@) }
    }
}

/// The views of what the probes found, in order.
pub open spec fn probe_views(s: Seq<Option<ProbeResult>>) -> Seq<Option<ProbeView>> {
    Seq::new(
        s.len(),
        |i: int|
            match s[i] {
                Some(p) => Some(p@),
                None => None,
            },
    )
}

/// What the probe of the input at position `i` found.
pub open spec fn probe_at(probes: Seq<Option<ProbeView>>, i: int) -> Option<ProbeView> {
    if i < probes.len() {
        probes[i]
    } else {
        None
    }
}

/// What is saved of a graph.
pub open spec fn saved(g: GraphView) -> ProjectView {
    ProjectView {
        version: PROJECT_FORMAT_VERSION,
        inputs: Seq::new(g.inputs.len(), |i: int| SavedView::of(g.inputs[i])),
        modifiers: g.modifiers,
        outputs: g.outputs,
        wires: g.wires,
        next_id: g.next_id,
    }
}

/// The graph that a saved project loads as.
pub open spec fn loaded(file: ProjectView, probes: Seq<Option<ProbeView>>) -> GraphView {
    GraphView {
        inputs: Seq::new(
            file.inputs.len(),
            |i: int| file.inputs[i].loaded(i, probe_at(probes, i)),
        ),
        modifiers: file.modifiers,
        outputs: file.outputs,
        wires: file.wires,
        next_id: file.next_id,
    }
}

/// What to say of a project file of another format version.
pub open spec fn version_text(path: Seq<char>, version: u32) -> Seq<char> {
    "'"@ + path + "' is project format version "@ + decimal(version as nat)
        + ", but this tff build only supports version "@ + decimal(PROJECT_FORMAT_VERSION as nat)
}

/// What to say of a project file whose format version is not this one; `None`
/// where it is.
pub fn version_problem(path: &str, version: u32) -> (r: Option<String>)
    ensures
        version == PROJECT_FORMAT_VERSION ==> r is None,
        version != PROJECT_FORMAT_VERSION ==> (r matches Some(s) && s@ == version_text(
            path@,
            version,
        )),
{
    if version == PROJECT_FORMAT_VERSION {
        return None;
    }
    let theirs = number(version as u128);
    let ours = number(PROJECT_FORMAT_VERSION as u128);
    let mut s = cat5(
        "'",
        path,
        "' is project format version ",
        theirs.as_str(),
        ", but this tff build only supports version ",
    );
    s.append(ours.as_str());
    Some(s)
}

impl Graph {
    /// What is saved of the graph.
    pub fn to_project_file(&self) -> (r: ProjectFile)
        ensures
            r@ == saved(self@),
    {
        let mut inputs: Vec<SavedInput> = Vec::new();
        let mut i: usize = 0;
        while i < self.inputs.len()
            invariant
                i <= self.inputs@.len(),
                inputs@.len() == i,
                forall|k: int|
                    0 <= k < i ==> (#[trigger] inputs@[k])@ == SavedView::of(self@.inputs[k]),
            decreases self.inputs@.len() - i,
        {
            inputs.push(SavedInput::from_node(&self.inputs[i]));
            i += 1;
        }
        let mut modifiers: Vec<ModifierNode> = Vec::new();
        let mut j: usize = 0;
        while j < self.modifiers.len()
            invariant
                j <= self.modifiers@.len(),
                modifiers@.len() == j,
                forall|k: int| 0 <= k < j ==> (#[trigger] modifiers@[k])@ == self.modifiers@[k]@,
            decreases self.modifiers@.len() - j,
        {
            modifiers.push(self.modifiers[j].clone());
            j += 1;
        }
        let mut outputs: Vec<OutputNode> = Vec::new();
        let mut m: usize = 0;
        while m < self.outputs.len()
            invariant
                m <= self.outputs@.len(),
                outputs@.len() == m,
                forall|k: int| 0 <= k < m ==> (#[trigger] outputs@[k])@ == self.outputs@[k]@,
            decreases self.outputs@.len() - m,
        {
            outputs.push(self.outputs[m].clone());
            m += 1;
        }
        let mut wires: Vec<Wire> = Vec::new();
        let mut w: usize = 0;
        while w < self.wires.len()
            invariant
                w <= self.wires@.len(),
                wires@ == self.wires@.take(w as int),
            decreases self.wires@.len() - w,
        {
            wires.push(self.wires[w]);
            w += 1;
        }
        let r = ProjectFile {
            version: PROJECT_FORMAT_VERSION,
            inputs,
            modifiers,
            outputs,
            wires,
            next_id: self.next_id,
        };
        assert(r@ =~= saved(self@));
        r
    }

    /// Rebuilds a graph. `probes` holds, for each saved input in order, what a
    /// fresh probe found, or `None` where the file could not be probed: then
    /// what was saved is used, and the node is marked as missing its file.
    pub fn from_project_file(file: ProjectFile, probes: Vec<Option<ProbeResult>>) -> (r: Graph)
        ensures
            r@ == loaded(file@, probe_views(probes@)),
    {
        let ghost view = file@;
        let ghost found = probe_views(probes@);
        let ProjectFile { version: _, inputs: saved_inputs, modifiers, outputs, wires, next_id } =
            file;
        let mut probes = probes;
        let mut left = saved_inputs;
        let mut inputs: Vec<InputNode> = Vec::new();
        let ghost total = left@.len();
        while left.len() > 0
            invariant
                inputs@.len() + left@.len() == total,
                total == view.inputs.len(),
                probes@.len() == found.len(),
                forall|k: int|
                    #![trigger left@[k]]
                    0 <= k < left@.len() ==> left@[k]@ == view.inputs[inputs@.len() + k],
                forall|k: int|
                    inputs@.len() <= k < found.len() ==> #[trigger] probe_views(probes@)[k]
                        == found[k],
                forall|k: int|
                    0 <= k < inputs@.len() ==> (#[trigger] inputs@[k])@ == view.inputs[k].loaded(
                        k,
                        probe_at(found, k),
                    ),
            decreases left@.len(),
        {
            let ghost probes_before = probes@;
            let saved = left.remove(0);
            let file_index: usize = inputs.len();
            let SavedInput { id, path, streams, chapters, extra_args, pos, width } = saved;
            let mut probe: Option<ProbeResult> = None;
            if file_index < probes.len() {
                assert(probe_views(probes@)[file_index as int] == found[file_index as int]);
                probe = probes[file_index].take();
            }
            assert forall|k: int| inputs@.len() < k < found.len() implies #[trigger] probe_views(
                probes@,
            )[k] == found[k] by {
                assert(probe_views(probes_before)[k] == found[k]);
                assert(probes@[k] == probes_before[k]);
            }
            let (raw_streams, chapters, file_missing) = match probe {
                Some(p) => (p.streams, p.chapters, false),
                None => (streams, chapters, true),
            };
            let streams = streams_with_chapter_marker(raw_streams, &chapters);
            inputs.push(
                InputNode {
                    id,
                    path,
                    file_index,
                    streams,
                    chapters,
                    extra_args,
                    pos,
                    width,
                    file_missing,
                },
            );
        }
        let r = Graph { inputs, modifiers, outputs, wires, next_id };
        assert(r@ =~= loaded(view, found));
        r
    }
}

/// A project that has been read, and the input files that were not there.
pub struct LoadResult {
    pub graph: Graph,
    pub missing_inputs: Vec<String>,
}

#[verifier::ext_equal]
pub struct LoadView {
    pub graph: GraphView,
    pub missing_inputs: Seq<Seq<char>>,
}

impl View for LoadResult {
    type V = LoadView;

    open spec fn view(&self) -> LoadView {
        LoadView { graph: self.graph@, missing_inputs: views(self.missing_inputs@) }
    }
}

/// The paths of those of the first `n` saved inputs that no probe found.
pub open spec fn missing_upto(
    inputs: Seq<SavedView>,
    probes: Seq<Option<ProbeView>>,
    n: int,
) -> Seq<Seq<char>>
    decreases n,
{
    if n <= 0 {
        Seq::empty()
    } else {
        let p = missing_upto(inputs, probes, n - 1);
        if probe_at(probes, n - 1) is None {
            p.push(inputs[n - 1].path)
        } else {
            p
        }
    }
}

/// The project that was read from the file at `path`: refused where its format
/// version is another one.
pub fn load_project(path: &str, file: ProjectFile, probes: Vec<Option<ProbeResult>>) -> (r: Result<
    LoadResult,
    String,
>)
    ensures
        match r {
            Ok(l) => file@.version == PROJECT_FORMAT_VERSION && l@ == (LoadView {
                graph: loaded(file@, probe_views(probes@)),
                missing_inputs: missing_upto(
                    file@.inputs,
                    probe_views(probes@),
                    file@.inputs.len() as int,
                ),
            }),
            Err(e) => file@.version != PROJECT_FORMAT_VERSION && e@ == version_text(
                path@,
                file@.version,
            ),
        },
{
    if let Some(problem) = version_problem(path, file.version) {
        return Err(problem);
    }
    let mut missing_inputs: Vec<String> = Vec::new();
    let mut i: usize = 0;
    assert(views(missing_inputs@) == Seq::<Seq<char>>::empty());
    while i < file.inputs.len()
        invariant
            i <= file.inputs@.len(),
            views(missing_inputs@) == missing_upto(
                file@.inputs,
                probe_views(probes@),
                i as int,
            ),
        decreases file.inputs@.len() - i,
    {
        broadcast use group_views;

        if i >= probes.len() || probes[i].is_none() {
            missing_inputs.push(file.inputs[i].path.clone());
        }
        i += 1;
    }
    let graph = Graph::from_project_file(file, probes);
    Ok(LoadResult { graph, missing_inputs })
}

} // verus!
