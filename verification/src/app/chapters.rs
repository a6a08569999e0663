//! The chapter table, and what chapter nodes import.
use vstd::prelude::*;

use super::text_input::{text_input_mode, text_mode};
use super::{App, AppView, ChapterTimeField, Mode, ModeView, TargetView, TextTarget};
use crate::graph::chapter::{clock, copy_chapters, format_time, Chapter, ChapterView, Seconds, SecondsView};
use crate::graph::node::{KindView, ModifierKind, ModifierNode, ModifierView};
use crate::graph::stream::StreamKind;
use crate::graph::wire::{from_input, is_from_input, Endpoint, EndpointSet, NodeId, Target, Wire};
use crate::graph::{feed, lemma_position, Graph, GraphView};
use crate::text::{group_views, views};

verus! {

/// A column of the chapter table.
#[derive(Clone, Copy, Debug, PartialEq, Eq, Structural)]
pub enum ChapterColumn {
    Start,
    End,
    Title,
}

impl ChapterColumn {
    pub open spec fn next_spec(self) -> ChapterColumn {
        match self {
            ChapterColumn::Start => ChapterColumn::End,
            ChapterColumn::End => ChapterColumn::Title,
            ChapterColumn::Title => ChapterColumn::Start,
        }
    }

    pub open spec fn prev_spec(self) -> ChapterColumn {
        match self {
            ChapterColumn::Start => ChapterColumn::Title,
            ChapterColumn::End => ChapterColumn::Start,
            ChapterColumn::Title => ChapterColumn::End,
        }
    }

    /// The column to the right; the first one behind the last.
    pub fn next(self) -> (r: ChapterColumn)
        ensures
            r == self.next_spec(),
    {
        match self {
            ChapterColumn::Start => ChapterColumn::End,
            ChapterColumn::End => ChapterColumn::Title,
            ChapterColumn::Title => ChapterColumn::Start,
        }
    }

    /// The column to the left; the last one before the first.
    pub fn prev(self) -> (r: ChapterColumn)
        ensures
            r == self.prev_spec(),
    {
        match self {
            ChapterColumn::Start => ChapterColumn::Title,
            ChapterColumn::End => ChapterColumn::Start,
            ChapterColumn::Title => ChapterColumn::End,
        }
    }
}

/// Going right and going left undo each other.
pub proof fn column_moves_undo_each_other(c: ChapterColumn)
    ensures
        c.next_spec().prev_spec() == c,
        c.prev_spec().next_spec() == c,
{
}

// ---------------------------------------------------------------------
// The list of a chapter node
// ---------------------------------------------------------------------

/// The list of chapter node `id`; `None` where it is no chapter node.
pub open spec fn edit_chapters(g: GraphView, id: NodeId) -> Option<Seq<ChapterView>> {
    match g.modifier(id) {
        Some(m) => match m.kind {
            KindView::ChapterEdit { chapters } => Some(chapters),
            _ => None,
        },
        None => None,
    }
}

/// The graph with another list in chapter node `id`.
pub open spec fn set_chapters(g: GraphView, id: NodeId, chapters: Seq<ChapterView>) -> GraphView {
    match g.modifier_at(id) {
        Some(i) => g.set_modifier(
            i,
            ModifierView { kind: KindView::ChapterEdit { chapters }, ..g.modifiers[i] },
        ),
        None => g,
    }
}

/// The list of chapter node `id`; `None` where it is no chapter node.
pub fn chapter_edit_chapters(graph: &Graph, id: NodeId) -> (r: Option<&Vec<Chapter>>)
    ensures
        match r {
            Some(cs) => edit_chapters(graph@, id) == Some(views(cs@)),
            None => edit_chapters(graph@, id) is None,
        },
{
    match graph.modifier(id) {
        Some(m) => match &m.kind {
            ModifierKind::ChapterEdit { chapters } => Some(chapters),
            _ => None,
        },
        None => None,
    }
}

/// The list of chapter node `id`, to change; `None` where it is no chapter
/// node.
pub fn chapter_edit_chapters_mut(graph: &mut Graph, id: NodeId) -> (r: Option<&mut Vec<Chapter>>)
    ensures
        match r {
            Some(cs) => {
                &&& edit_chapters(old(graph)@, id) == Some(views(cs@))
                &&& final(graph)@ == set_chapters(old(graph)@, id, views(final(cs)@))
            },
            None => edit_chapters(old(graph)@, id) is None && final(graph)@ == old(graph)@,
        },
{
    broadcast use group_views;

    match graph.modifier_mut(id) {
        Some(m) => match &mut m.kind {
            ModifierKind::ChapterEdit { chapters } => Some(chapters),
            _ => None,
        },
        None => None,
    }
}

/// Those of the first `n` chapters that were not imported.
pub open spec fn own_upto(cs: Seq<ChapterView>, n: int) -> Seq<ChapterView>
    decreases n,
{
    if n <= 0 {
        Seq::empty()
    } else {
        let p = own_upto(cs, n - 1);
        if cs[n - 1].imported {
            p
        } else {
            p.push(cs[n - 1])
        }
    }
}

/// The chapters that were not imported.
pub open spec fn own_chapters(cs: Seq<ChapterView>) -> Seq<ChapterView> {
    own_upto(cs, cs.len() as int)
}

/// Chapters marked as imported.
pub open spec fn as_imported(cs: Seq<ChapterView>) -> Seq<ChapterView> {
    Seq::new(cs.len(), |i: int| ChapterView { imported: true, ..cs[i] })
}

/// The chapters of the input whose chapter port feeds modifier `id`.
pub open spec fn connected_chapters(g: GraphView, id: NodeId) -> Option<Seq<ChapterView>> {
    match feed(g.wires, Target::ModifierIn(id)) {
        Some(Endpoint::Stream { node, stream_idx }) => match g.input(node) {
            Some(input) => if (stream_idx as int) < input.streams.len()
                && input.streams[stream_idx as int].kind == StreamKind::Chapter {
                Some(input.chapters)
            } else {
                None
            },
            None => None,
        },
        _ => None,
    }
}

/// What is imported into chapter node `id`.
pub open spec fn imports(g: GraphView, id: NodeId) -> Seq<ChapterView> {
    match connected_chapters(g, id) {
        Some(cs) => as_imported(cs),
        None => Seq::empty(),
    }
}

/// The graph with the imported chapters of chapter node `id` brought in line
/// with what feeds it: its own chapters stay, and behind them come those of
/// the connected input. Any other node is left alone.
pub open spec fn sync_import(g: GraphView, id: NodeId) -> GraphView {
    match edit_chapters(g, id) {
        Some(cs) => set_chapters(g, id, own_chapters(cs) + imports(g, id)),
        None => g,
    }
}

/// The chapters of the input whose chapter port feeds modifier `id`.
fn connected_input_chapters(graph: &Graph, id: NodeId) -> (r: Option<Vec<Chapter>>)
    ensures
        match r {
            Some(cs) => connected_chapters(graph@, id) == Some(views(cs@)),
            None => connected_chapters(graph@, id) is None,
        },
{
    match graph.first_feed(Target::ModifierIn(id)) {
        Some(Endpoint::Stream { node, stream_idx }) => match graph.input(node) {
            Some(input) => {
                if stream_idx < input.streams.len() && input.streams[stream_idx].kind
                    == StreamKind::Chapter {
                    Some(copy_chapters(&input.chapters))
                } else {
                    None
                }
            },
            None => None,
        },
        _ => None,
    }
}

/// Brings the imported chapters of chapter node `id` in line with what feeds
/// it. Any other node is left alone.
pub fn sync_chapter_edit_import(graph: &mut Graph, id: NodeId)
    ensures
        final(graph)@ == sync_import(old(graph)@, id),
{
    let connected = connected_input_chapters(graph, id);
    let current = match chapter_edit_chapters(graph, id) {
        Some(cs) => cs,
        None => {
            return;
        },
    };
    let ghost all = views(current@);
    let mut list: Vec<Chapter> = Vec::new();
    let mut i: usize = 0;
    assert(views(list@) == Seq::<ChapterView>::empty());
    while i < current.len()
        invariant
            i <= current@.len(),
            all == views(current@),
            views(list@) == own_upto(all, i as int),
        decreases current@.len() - i,
    {
        broadcast use group_views;

        if !current[i].imported {
            list.push(current[i].clone());
        }
        i += 1;
    }
    let ghost own = views(list@);
    if let Some(cs) = &connected {
        let mut k: usize = 0;
        assert(own + as_imported(views(cs@)).take(0) == own);
        while k < cs.len()
            invariant
                k <= cs@.len(),
                views(list@) == own + as_imported(views(cs@)).take(k as int),
            decreases cs@.len() - k,
        {
            broadcast use group_views;

            let c = &cs[k];
            list.push(Chapter::imported(c.start_secs.clone(), c.end_secs.clone(), c.title.clone()));
            k += 1;
            assert(as_imported(views(cs@)).take(k as int) == as_imported(views(cs@)).take(
                k - 1,
            ).push(as_imported(views(cs@))[k - 1]));
            assert(views(list@) == own + as_imported(views(cs@)).take(k as int));
        }
        assert(as_imported(views(cs@)).take(cs@.len() as int) == as_imported(views(cs@)));
    }
    assert(views(list@) == own + imports(graph@, id));
    if let Some(target) = chapter_edit_chapters_mut(graph, id) {
        *target = list;
    }
}

/// The graph with the imported chapters of the first `n` nodes of `ids`
/// brought in line, one after the other.
pub open spec fn sync_upto(g: GraphView, ids: Seq<NodeId>, n: int) -> GraphView
    decreases n,
{
    if n <= 0 {
        g
    } else {
        sync_import(sync_upto(g, ids, n - 1), ids[n - 1])
    }
}

/// Brings the imported chapters of several nodes in line.
pub fn sync_all(graph: &mut Graph, ids: &Vec<NodeId>)
    ensures
        final(graph)@ == sync_upto(old(graph)@, ids@, ids@.len() as int),
{
    let mut i: usize = 0;
    while i < ids.len()
        invariant
            i <= ids@.len(),
            graph@ == sync_upto(old(graph)@, ids@, i as int),
        decreases ids@.len() - i,
    {
        sync_chapter_edit_import(graph, ids[i]);
        i += 1;
    }
}

/// The chapter node that a wire arrives at, if it arrives at one.
pub open spec fn fed_chapter_node(g: GraphView, w: Wire) -> Option<NodeId> {
    match w.to {
        Target::ModifierIn(mid) => if edit_chapters(g, mid) is Some {
            Some(mid)
        } else {
            None
        },
        _ => None,
    }
}

/// The chapter nodes that those of the first `n` wires which leave one of
/// `ports` arrive at.
pub open spec fn fed_by_ports(g: GraphView, ports: Seq<Endpoint>, n: int) -> Seq<NodeId>
    decreases n,
{
    if n <= 0 {
        Seq::empty()
    } else {
        let p = fed_by_ports(g, ports, n - 1);
        match fed_chapter_node(g, g.wires[n - 1]) {
            Some(mid) => if ports.contains(g.wires[n - 1].from) {
                p.push(mid)
            } else {
                p
            },
            None => p,
        }
    }
}

/// The chapter nodes that those of the first `n` wires which leave input `id`
/// arrive at.
pub open spec fn fed_by_input(g: GraphView, id: NodeId, n: int) -> Seq<NodeId>
    decreases n,
{
    if n <= 0 {
        Seq::empty()
    } else {
        let p = fed_by_input(g, id, n - 1);
        match fed_chapter_node(g, g.wires[n - 1]) {
            Some(mid) => if from_input(g.wires[n - 1].from, id) {
                p.push(mid)
            } else {
                p
            },
            None => p,
        }
    }
}

fn chapter_node_of(graph: &Graph, w: Wire) -> (r: Option<NodeId>)
    ensures
        r == fed_chapter_node(graph@, w),
{
    match w.to {
        Target::ModifierIn(mid) => if chapter_edit_chapters(graph, mid).is_some() {
            Some(mid)
        } else {
            None
        },
        _ => None,
    }
}

/// The chapter nodes that are fed by one of `ports`.
pub fn chapter_edit_modifiers_fed_by(graph: &Graph, ports: &EndpointSet) -> (r: Vec<NodeId>)
    ensures
        r@ == fed_by_ports(graph@, ports@, graph@.wires.len() as int),
{
    let mut out: Vec<NodeId> = Vec::new();
    let mut i: usize = 0;
    while i < graph.wires.len()
        invariant
            i <= graph.wires@.len(),
            out@ == fed_by_ports(graph@, ports@, i as int),
        decreases graph.wires@.len() - i,
    {
        if let Some(mid) = chapter_node_of(graph, graph.wires[i]) {
            if ports.contains(graph.wires[i].from) {
                out.push(mid);
            }
        }
        i += 1;
    }
    out
}

/// The chapter nodes that are fed by input `id`.
pub fn chapter_edit_modifiers_fed_by_input(graph: &Graph, id: NodeId) -> (r: Vec<NodeId>)
    ensures
        r@ == fed_by_input(graph@, id, graph@.wires.len() as int),
{
    let mut out: Vec<NodeId> = Vec::new();
    let mut i: usize = 0;
    while i < graph.wires.len()
        invariant
            i <= graph.wires@.len(),
            out@ == fed_by_input(graph@, id, i as int),
        decreases graph.wires@.len() - i,
    {
        if let Some(mid) = chapter_node_of(graph, graph.wires[i]) {
            if is_from_input(graph.wires[i].from, id) {
                out.push(mid);
            }
        }
        i += 1;
    }
    out
}

// ---------------------------------------------------------------------
// Laws of the import
// ---------------------------------------------------------------------

proof fn lemma_own(cs: Seq<ChapterView>, n: int)
    requires
        0 <= n <= cs.len(),
    ensures
        forall|i: int| 0 <= i < own_upto(cs, n).len() ==> !(#[trigger] own_upto(cs, n)[i]).imported,
    decreases n,
{
    if n > 0 {
        lemma_own(cs, n - 1);
        let p = own_upto(cs, n - 1);
        let q = own_upto(cs, n);
        assert forall|i: int| 0 <= i < q.len() implies !(#[trigger] q[i]).imported by {
            if i < p.len() {
                assert(q[i] == p[i]);
            }
        }
    }
}

proof fn lemma_own_of(own: Seq<ChapterView>, imported: Seq<ChapterView>, n: int)
    requires
        0 <= n <= own.len() + imported.len(),
        forall|i: int| 0 <= i < own.len() ==> !(#[trigger] own[i]).imported,
        forall|i: int| 0 <= i < imported.len() ==> (#[trigger] imported[i]).imported,
    ensures
        own_upto(own + imported, n) == (if n <= own.len() {
            own.take(n)
        } else {
            own
        }),
    decreases n,
{
    let all = own + imported;
    if n > 0 {
        lemma_own_of(own, imported, n - 1);
        if n <= own.len() {
            assert(own.take(n) == own.take(n - 1).push(own[n - 1]));
        } else {
            assert(all[n - 1] == imported[n - 1 - own.len()]);
            assert(own.take(own.len() as int) == own);
        }
    } else {
        assert(own.take(0) == Seq::<ChapterView>::empty());
    }
}

pub(crate) proof fn lemma_set_chapters(g: GraphView, id: NodeId, cs: Seq<ChapterView>)
    requires
        edit_chapters(g, id) is Some,
    ensures
        edit_chapters(set_chapters(g, id, cs), id) == Some(cs),
        set_chapters(g, id, cs).modifier_at(id) == g.modifier_at(id),
        set_chapters(g, id, cs).inputs == g.inputs,
        set_chapters(g, id, cs).wires == g.wires,
{
    lemma_position::<ModifierNode>(g.modifiers, id);
    let h = set_chapters(g, id, cs);
    lemma_position::<ModifierNode>(h.modifiers, id);
    let i = g.modifier_at(id)->0;
    assert(h.modifiers[i].id == id);
    let j = h.modifier_at(id)->0;
    if j < i {
        assert(h.modifiers[j] == g.modifiers[j]);
    }
}

/// Bringing a chapter node's import in line keeps the chapters that the user
/// added, in their order, and takes over exactly what the connected input
/// has. Where nothing is connected, nothing imported is left.
pub proof fn import_keeps_own_chapters(g: GraphView, id: NodeId)
    requires
        edit_chapters(g, id) is Some,
    ensures
        ({
            let after = edit_chapters(sync_import(g, id), id)->0;
            &&& own_chapters(after) == own_chapters(edit_chapters(g, id)->0)
            &&& after == own_chapters(after) + imports(g, id)
            &&& connected_chapters(g, id) is None ==> after == own_chapters(after)
        }),
{
    let cs = edit_chapters(g, id)->0;
    let own = own_chapters(cs);
    let new = imports(g, id);
    lemma_own(cs, cs.len() as int);
    lemma_set_chapters(g, id, own + new);
    lemma_own_of(own, new, (own + new).len() as int);
    assert(own.take(own.len() as int) == own);
}

/// Bringing a chapter node's import in line a second time changes nothing.
pub proof fn import_is_idempotent(g: GraphView, id: NodeId)
    ensures
        sync_import(sync_import(g, id), id) == sync_import(g, id),
{
    if edit_chapters(g, id) is Some {
        import_keeps_own_chapters(g, id);
        let cs = edit_chapters(g, id)->0;
        let h = sync_import(g, id);
        lemma_set_chapters(g, id, own_chapters(cs) + imports(g, id));
        let i = g.modifier_at(id)->0;
        lemma_position::<ModifierNode>(g.modifiers, id);
        assert(imports(h, id) == imports(g, id));
        assert(sync_import(h, id).modifiers == h.modifiers);
    }
}

// ---------------------------------------------------------------------
// The table
// ---------------------------------------------------------------------

/// How many chapters the table of node `id` has.
pub open spec fn table_len(g: GraphView, id: NodeId) -> int {
    match edit_chapters(g, id) {
        Some(cs) => cs.len() as int,
        None => 0,
    }
}

fn chapter_count(graph: &Graph, id: NodeId) -> (r: usize)
    ensures
        r == table_len(graph@, id),
{
    match chapter_edit_chapters(graph, id) {
        Some(cs) => cs.len(),
        None => 0,
    }
}

impl AppView {
    /// Up or Down in the table: by one row, down to the row that adds one.
    pub open spec fn chapter_table_move_row(self, forward: bool) -> AppView {
        match self.mode {
            ModeView::ChapterTable { modifier, row, col } => {
                let to: int = if forward {
                    if row < table_len(self.graph, modifier) {
                        row + 1
                    } else {
                        row as int
                    }
                } else if row > 0 {
                    row - 1
                } else {
                    0
                };
                self.enter(ModeView::ChapterTable { modifier, row: to as usize, col })
            },
            _ => self,
        }
    }

    /// Left or Right in the table.
    pub open spec fn chapter_table_move_col(self, forward: bool) -> AppView {
        match self.mode {
            ModeView::ChapterTable { modifier, row, col } => self.enter(
                ModeView::ChapterTable {
                    modifier,
                    row,
                    col: if forward {
                        col.next_spec()
                    } else {
                        col.prev_spec()
                    },
                },
            ),
            _ => self,
        }
    }

    /// Tab or Shift+Tab in the table: through the cells in reading order,
    /// from the first cell to the row that adds one.
    pub open spec fn chapter_table_tab(self, forward: bool) -> AppView {
        match self.mode {
            ModeView::ChapterTable { modifier, row, col } => if forward {
                if row >= table_len(self.graph, modifier) {
                    self
                } else if col == ChapterColumn::Title {
                    self.enter(
                        ModeView::ChapterTable {
                            modifier,
                            row: (row + 1) as usize,
                            col: ChapterColumn::Start,
                        },
                    )
                } else {
                    self.enter(ModeView::ChapterTable { modifier, row, col: col.next_spec() })
                }
            } else if col == ChapterColumn::Start {
                if row == 0 {
                    self
                } else {
                    self.enter(
                        ModeView::ChapterTable {
                            modifier,
                            row: (row - 1) as usize,
                            col: ChapterColumn::Title,
                        },
                    )
                }
            } else {
                self.enter(ModeView::ChapterTable { modifier, row, col: col.prev_spec() })
            },
            _ => self,
        }
    }

    /// Enter in the table: adds a chapter that starts and ends where the last
    /// one ends, or opens the selected cell for editing.
    pub open spec fn chapter_table_confirm(self) -> AppView {
        match self.mode {
            ModeView::ChapterTable { modifier, row, col } => {
                let len = table_len(self.graph, modifier);
                if row >= len {
                    let graph = match edit_chapters(self.graph, modifier) {
                        Some(cs) => {
                            let start = if cs.len() > 0 {
                                cs.last().end_secs
                            } else {
                                SecondsView::zero()
                            };
                            set_chapters(
                                self.graph,
                                modifier,
                                cs.push(
                                    ChapterView {
                                        start_secs: start,
                                        end_secs: start,
                                        title: Seq::empty(),
                                        imported: false,
                                    },
                                ),
                            )
                        },
                        None => self.graph,
                    };
                    self.with_graph(graph).say("added chapter"@).enter(
                        ModeView::ChapterTable {
                            modifier,
                            row: len as usize,
                            col: ChapterColumn::Start,
                        },
                    )
                } else {
                    let c = edit_chapters(self.graph, modifier)->0[row as int];
                    match col {
                        ChapterColumn::Start => self.enter(
                            text_mode(
                                TargetView::ChapterTime {
                                    modifier,
                                    index: row,
                                    field: ChapterTimeField::Start,
                                },
                                clock(c.start_secs.millis as int),
                                Seq::empty(),
                            ),
                        ),
                        ChapterColumn::End => self.enter(
                            text_mode(
                                TargetView::ChapterTime {
                                    modifier,
                                    index: row,
                                    field: ChapterTimeField::End,
                                },
                                clock(c.end_secs.millis as int),
                                Seq::empty(),
                            ),
                        ),
                        ChapterColumn::Title => self.enter(
                            text_mode(
                                TargetView::ChapterTitle { modifier, index: row },
                                c.title,
                                Seq::empty(),
                            ),
                        ),
                    }
                }
            },
            _ => self,
        }
    }

    /// 'd' in the table: removes the selected chapter.
    pub open spec fn chapter_table_delete(self) -> AppView {
        match self.mode {
            ModeView::ChapterTable { modifier, row, col } => if row < table_len(
                self.graph,
                modifier,
            ) {
                self.with_graph(
                    set_chapters(
                        self.graph,
                        modifier,
                        edit_chapters(self.graph, modifier)->0.remove(row as int),
                    ),
                ).say("chapter deleted"@)
            } else {
                self
            },
            _ => self,
        }
    }
}

impl App {
    /// Opens the table of a chapter node.
    pub fn open_chapter_table(&mut self, modifier: NodeId)
        ensures
            final(self)@ == old(self)@.enter(
                ModeView::ChapterTable { modifier, row: 0, col: ChapterColumn::Start },
            ),
    {
        self.mode = Mode::ChapterTable { modifier, row: 0, col: ChapterColumn::Start };
    }

    /// Up or Down in the table.
    pub fn chapter_table_move_row(&mut self, forward: bool)
        ensures
            final(self)@ == old(self)@.chapter_table_move_row(forward),
    {
        if let Mode::ChapterTable { modifier, row, col } = self.mode {
            let len: usize = chapter_count(&self.graph, modifier);
            let to: usize = if forward {
                if row < len {
                    row + 1
                } else {
                    row
                }
            } else if row > 0 {
                row - 1
            } else {
                0
            };
            self.mode = Mode::ChapterTable { modifier, row: to, col };
        }
    }

    /// Left or Right in the table.
    pub fn chapter_table_move_col(&mut self, forward: bool)
        ensures
            final(self)@ == old(self)@.chapter_table_move_col(forward),
    {
        if let Mode::ChapterTable { modifier, row, col } = self.mode {
            let to = if forward {
                col.next()
            } else {
                col.prev()
            };
            self.mode = Mode::ChapterTable { modifier, row, col: to };
        }
    }

    /// Tab or Shift+Tab in the table.
    pub fn chapter_table_tab(&mut self, forward: bool)
        ensures
            final(self)@ == old(self)@.chapter_table_tab(forward),
    {
        if let Mode::ChapterTable { modifier, row, col } = self.mode {
            let len: usize = chapter_count(&self.graph, modifier);
            if forward {
                if row >= len {
                    return;
                }
                if col == ChapterColumn::Title {
                    self.mode = Mode::ChapterTable {
                        modifier,
                        row: row + 1,
                        col: ChapterColumn::Start,
                    };
                } else {
                    self.mode = Mode::ChapterTable { modifier, row, col: col.next() };
                }
            } else if col == ChapterColumn::Start {
                if row == 0 {
                    return;
                }
                self.mode = Mode::ChapterTable { modifier, row: row - 1, col: ChapterColumn::Title };
            } else {
                self.mode = Mode::ChapterTable { modifier, row, col: col.prev() };
            }
        }
    }

    /// Enter in the table: adds a chapter, or opens the selected cell.
    pub fn chapter_table_confirm(&mut self)
        ensures
            final(self)@ == old(self)@.chapter_table_confirm(),
    {
        broadcast use group_views;

        if let Mode::ChapterTable { modifier, row, col } = self.mode {
            let len: usize = chapter_count(&self.graph, modifier);
            if row >= len {
                if let Some(chapters) = chapter_edit_chapters_mut(&mut self.graph, modifier) {
                    let start = if chapters.len() > 0 {
                        chapters[chapters.len() - 1].end_secs.clone()
                    } else {
                        Seconds::zero()
                    };
                    let end = start.clone();
                    chapters.push(Chapter::new(start, end, String::new()));
                }
                self.say("added chapter");
                self.mode = Mode::ChapterTable { modifier, row: len, col: ChapterColumn::Start };
                return;
            }
            let mode = match chapter_edit_chapters(&self.graph, modifier) {
                Some(cs) => {
                    let c = &cs[row];
                    match col {
                        ChapterColumn::Start => text_input_mode(
                            TextTarget::ChapterTime {
                                modifier,
                                index: row,
                                field: ChapterTimeField::Start,
                            },
                            format_time(&c.start_secs),
                            Vec::new(),
                        ),
                        ChapterColumn::End => text_input_mode(
                            TextTarget::ChapterTime {
                                modifier,
                                index: row,
                                field: ChapterTimeField::End,
                            },
                            format_time(&c.end_secs),
                            Vec::new(),
                        ),
                        ChapterColumn::Title => text_input_mode(
                            TextTarget::ChapterTitle { modifier, index: row },
                            c.title.clone(),
                            Vec::new(),
                        ),
                    }
                },
                None => {
                    return;
                },
            };
            self.mode = mode;
        }
    }

    /// 'd' in the table: removes the selected chapter.
    pub fn chapter_table_delete(&mut self)
        ensures
            final(self)@ == old(self)@.chapter_table_delete(),
    {
        broadcast use group_views;

        if let Mode::ChapterTable { modifier, row, col: _ } = self.mode {
            let len: usize = chapter_count(&self.graph, modifier);
            if row >= len {
                return;
            }
            if let Some(chapters) = chapter_edit_chapters_mut(&mut self.graph, modifier) {
                chapters.remove(row);
            }
            self.say("chapter deleted");
        }
    }

    /// Esc in the table.
    pub fn chapter_table_close(&mut self)
        ensures
            final(self)@ == old(self)@.enter(ModeView::Normal),
    {
        self.mode = Mode::Normal;
    }
}

} // verus!
