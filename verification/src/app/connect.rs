//! Wiring nodes together, and taking wires away.
use vstd::prelude::*;

use super::chapters::{chapter_edit_modifiers_fed_by, fed_by_ports, sync_all, sync_chapter_edit_import, sync_import, sync_upto};
use super::nodes::sources_into;
use super::{App, AppView, Focus};
use crate::graph::node::{KindView, ModifierKind, ModifierView};
use crate::graph::resolve::{endpoint_kind, feeds};
use crate::graph::stream::StreamKind;
use crate::graph::wire::{Endpoint, EndpointSet, NodeId, Target, Wire};
use crate::graph::{incoming_spec, outgoing_spec, wires_off_ports, Graph, GraphView};
use crate::text::{cat2, cat3, cat4, cat5, decimal, number};

verus! {

// ---------------------------------------------------------------------
// Connecting
// ---------------------------------------------------------------------

/// The first kind that is known, of the sources from position `i` on.
pub open spec fn first_kind(g: GraphView, sources: Seq<Endpoint>, i: int) -> Option<StreamKind>
    decreases sources.len() - i,
{
    if i >= sources.len() {
        None
    } else {
        match endpoint_kind(g, sources[i]) {
            Some(kind) => Some(kind),
            None => first_kind(g, sources, i + 1),
        }
    }
}

/// Where a source is connected to on an output: chapters have a slot of their
/// own.
pub open spec fn output_slot(g: GraphView, source: Endpoint, output: NodeId) -> Target {
    if endpoint_kind(g, source) == Some(StreamKind::Chapter) {
        Target::OutputChapters(output)
    } else {
        Target::Output(output)
    }
}

/// The graph with the first `n` of these sources connected to an output, one
/// after the other.
pub open spec fn into_output_upto(
    g: GraphView,
    sources: Seq<Endpoint>,
    output: NodeId,
    n: int,
) -> GraphView
    decreases n,
{
    if n <= 0 {
        g
    } else {
        let h = into_output_upto(g, sources, output, n - 1);
        h.connect(sources[n - 1], output_slot(h, sources[n - 1], output))
    }
}

/// How far adding segments to a concat node has come: the state, the kind that
/// its segments share, and how many sources were connected.
#[verifier::ext_equal]
pub struct Joining {
    pub app: AppView,
    pub kind: Option<StreamKind>,
    pub connected: nat,
}

impl Joining {
    /// With the source connected.
    pub open spec fn join(self, mid: NodeId, source: Endpoint, kind: Option<StreamKind>) -> Joining {
        Joining {
            app: self.app.with_graph(self.app.graph.connect(source, Target::ModifierIn(mid))),
            kind,
            connected: self.connected + 1,
        }
    }

    /// After one more source: it is refused where it is no video or audio,
    /// or not of the kind that the segments share. One whose kind is not
    /// known yet is taken.
    pub open spec fn step(self, mid: NodeId, source: Endpoint) -> Joining {
        match endpoint_kind(self.app.graph, source) {
            None => self.join(mid, source, self.kind),
            Some(kind) => if !KindView::Concat.accepts(kind) {
                Joining {
                    app: self.app.say("concat doesn't accept a "@ + kind.noun_spec() + " stream"@),
                    ..self
                }
            } else {
                match self.kind {
                    Some(expected) => if expected != kind {
                        Joining {
                            app: self.app.say(
                                "concat already has a "@ + expected.noun_spec()
                                    + " segment -- can't mix in a "@ + kind.noun_spec() + " one"@,
                            ),
                            ..self
                        }
                    } else {
                        self.join(mid, source, Some(kind))
                    },
                    None => self.join(mid, source, Some(kind)),
                }
            },
        }
    }

    /// After the first `n` of these sources.
    pub open spec fn upto(self, mid: NodeId, sources: Seq<Endpoint>, n: int) -> Joining
        decreases n,
    {
        if n <= 0 {
            self
        } else {
            self.upto(mid, sources, n - 1).step(mid, sources[n - 1])
        }
    }
}

impl AppView {
    /// 'c' on a concat node: every armed source becomes a segment, unless it
    /// is refused.
    pub open spec fn connect_concat_segments(self, mid: NodeId) -> AppView {
        let sources = self.armed;
        let n = sources.len();
        let start = Joining {
            app: AppView { armed: Seq::empty(), ..self },
            kind: first_kind(self.graph, feeds(self.graph.wires, Target::ModifierIn(mid)), 0),
            connected: 0,
        };
        let done = start.upto(mid, sources, n as int);
        done.app.say(
            if done.connected == n {
                "added "@ + decimal(done.connected) + " segment(s) to concat"@
            } else {
                "added "@ + decimal(done.connected) + "/"@ + decimal(n)
                    + " segment(s) to concat (rest rejected, see above)"@
            },
        )
    }

    /// 'c' on an input: arms the selection where there is one, and else the
    /// stream under the cursor, in place of what was armed. The stream that is
    /// armed alone is disarmed.
    pub open spec fn arm_ports(self) -> AppView {
        match self.focused_input() {
            None => self,
            Some(node) => if self.selected.len() > 0 {
                (AppView { armed: self.selected, selected: Seq::empty(), ..self }).say(
                    "armed "@ + decimal(self.selected.len())
                        + " port(s) — focus a modifier or output, press 'c' to connect"@,
                )
            } else if (self.row_idx as int) < node.streams.len() {
                let e = Endpoint::Stream { node: node.id, stream_idx: self.row_idx };
                if self.armed == seq![e] {
                    AppView { armed: Seq::empty(), ..self }
                } else {
                    (AppView { armed: seq![e], ..self }).say(
                        "armed "@ + node.streams[self.row_idx as int].label() + " from "@
                            + node.path
                            + " — focus a modifier or output, press 'c' to connect"@,
                    )
                }
            } else {
                self
            },
        }
    }

    /// 'c' on a modifier: arms its output where nothing is armed, disarms it
    /// where it is armed alone, and else wires what is armed into it.
    pub open spec fn connect_modifier(self, m: ModifierView) -> AppView {
        let own = Endpoint::ModifierOut(m.id);
        if self.armed.len() == 0 {
            (AppView { armed: seq![own], ..self }).say(
                "armed this node's output — focus the next node, press 'c' to connect"@,
            )
        } else if self.armed == seq![own] {
            AppView { armed: Seq::empty(), ..self }
        } else if m.kind == KindView::Concat {
            self.connect_concat_segments(m.id)
        } else if self.armed.len() > 1 {
            self.say(
                "can't connect "@ + decimal(self.armed.len())
                    + " streams to a modifier -- it only accepts one"@,
            )
        } else {
            let source = self.armed[0];
            match endpoint_kind(self.graph, source) {
                Some(kind) if !m.kind.accepts(kind) => self.say(
                    m.kind.short_label() + " doesn't accept a "@ + kind.noun_spec() + " stream"@,
                ),
                _ => (AppView {
                    graph: sync_import(
                        self.graph.connect(source, Target::ModifierIn(m.id)),
                        m.id,
                    ),
                    armed: Seq::empty(),
                    ..self
                }).say("connected"@),
            }
        }
    }

    /// 'c' on an output: connects everything that is armed to it.
    pub open spec fn connect_output(self, output: NodeId) -> AppView {
        let n = self.armed.len();
        if n == 0 {
            self.say("nothing armed -- arm a stream or modifier output first ('c')"@)
        } else {
            (AppView {
                graph: into_output_upto(self.graph, self.armed, output, n as int),
                armed: Seq::empty(),
                ..self
            }).say(
                if n == 1 {
                    "connected to output"@
                } else {
                    "connected "@ + decimal(n) + " ports to output"@
                },
            )
        }
    }

    /// 'c': arms or connects, by what is focused. A range selection ends.
    pub open spec fn toggle_connect(self) -> AppView {
        let a = self.unanchored();
        match a.focus {
            Focus::Input(_) => a.arm_ports(),
            Focus::Modifier(i) => if (i as int) < a.graph.modifiers.len() {
                a.connect_modifier(a.graph.modifiers[i as int])
            } else {
                a
            },
            Focus::Output(i) => if (i as int) < a.graph.outputs.len() {
                a.connect_output(a.graph.outputs[i as int].id)
            } else {
                a
            },
        }
    }
}

/// Whether a set holds this one endpoint alone.
fn holds_only(set: &EndpointSet, e: Endpoint) -> (r: bool)
    ensures
        r == (set@ == seq![e]),
{
    if set.len() != 1 {
        return false;
    }
    let only = set.at(0);
    assert(set@ == seq![only]);
    assert(seq![only][0] == only);
    assert(seq![e][0] == e);
    only == e
}

/// The set of this one endpoint.
fn only(e: Endpoint) -> (r: EndpointSet)
    ensures
        r@ == seq![e],
{
    let mut set = EndpointSet::new();
    set.insert(e);
    assert(set@ == seq![e]);
    set
}

impl App {
    fn joins_as(&self, mid: NodeId) -> (r: Option<StreamKind>)
        ensures
            r == first_kind(
                self@.graph,
                feeds(self@.graph.wires, Target::ModifierIn(mid)),
                0,
            ),
    {
        let sources = sources_into(&self.graph, Target::ModifierIn(mid));
        let mut i: usize = 0;
        while i < sources.len()
            invariant
                i <= sources@.len(),
                sources@ == feeds(self@.graph.wires, Target::ModifierIn(mid)),
                first_kind(self@.graph, sources@, 0) == first_kind(
                    self@.graph,
                    sources@,
                    i as int,
                ),
            decreases sources@.len() - i,
        {
            if let Some(kind) = self.graph.endpoint_stream_kind(sources[i]) {
                return Some(kind);
            }
            i += 1;
        }
        None
    }

    /// 'c' on a concat node: makes a segment of every armed source, but for
    /// those that are refused.
    fn connect_concat_segments(&mut self, mid: NodeId)
        ensures
            final(self)@ == old(self)@.connect_concat_segments(mid),
    {
        let mut expected = self.joins_as(mid);
        let sources = self.armed.take();
        let n: usize = sources.len();
        let mut connected: usize = 0;
        let ghost start = Joining { app: self@, kind: expected, connected: 0 };
        let mut i: usize = 0;
        while i < n
            invariant
                i <= n,
                n == sources@.len(),
                connected <= i,
                start.upto(mid, sources@, i as int) == (Joining {
                    app: self@,
                    kind: expected,
                    connected: connected as nat,
                }),
            decreases n - i,
        {
            let source = sources.at(i);
            match self.graph.endpoint_stream_kind(source) {
                None => {
                    self.graph.connect(source, Target::ModifierIn(mid));
                    connected += 1;
                },
                Some(kind) => {
                    let clash = match expected {
                        Some(e) => if e != kind {
                            Some(e)
                        } else {
                            None
                        },
                        None => None,
                    };
                    if !ModifierKind::Concat.accepts_stream_kind(kind) {
                        let line = cat3("concat doesn't accept a ", kind.noun(), " stream");
                        self.say(line.as_str());
                    } else if let Some(e) = clash {
                        let line = cat5(
                            "concat already has a ",
                            e.noun(),
                            " segment -- can't mix in a ",
                            kind.noun(),
                            " one",
                        );
                        self.say(line.as_str());
                    } else {
                        expected = Some(kind);
                        self.graph.connect(source, Target::ModifierIn(mid));
                        connected += 1;
                    }
                },
            }
            i += 1;
        }
        let count = number(connected as u128);
        let line = if connected == n {
            cat3("added ", count.as_str(), " segment(s) to concat")
        } else {
            let all = number(n as u128);
            cat5(
                "added ",
                count.as_str(),
                "/",
                all.as_str(),
                " segment(s) to concat (rest rejected, see above)",
            )
        };
        self.say(line.as_str());
    }

    fn arm_ports(&mut self, i: usize)
        requires
            old(self).focus == Focus::Input(i),
        ensures
            final(self)@ == old(self)@.arm_ports(),
    {
        if i >= self.graph.inputs.len() {
            return;
        }
        if !self.selected.is_empty() {
            let n = number(self.selected.len() as u128);
            self.armed = self.selected.take();
            let line = cat3(
                "armed ",
                n.as_str(),
                " port(s) — focus a modifier or output, press 'c' to connect",
            );
            self.say(line.as_str());
            return;
        }
        assert(self@.graph.inputs[i as int] == self.graph.inputs@[i as int]@);
        if self.row_idx >= self.graph.inputs[i].streams.len() {
            return;
        }
        let node = &self.graph.inputs[i];
        let e = Endpoint::Stream { node: node.id, stream_idx: self.row_idx };
        if holds_only(&self.armed, e) {
            self.armed.clear();
            return;
        }
        let label = node.streams[self.row_idx].label();
        let line = cat5(
            "armed ",
            label.as_str(),
            " from ",
            node.path.as_str(),
            " — focus a modifier or output, press 'c' to connect",
        );
        self.armed = only(e);
        self.say(line.as_str());
    }

    fn connect_modifier(&mut self, i: usize)
        requires
            i < old(self).graph.modifiers@.len(),
        ensures
            final(self)@ == old(self)@.connect_modifier(old(self)@.graph.modifiers[i as int]),
    {
        assert(self@.graph.modifiers[i as int] == self.graph.modifiers@[i as int]@);
        let mid: NodeId = self.graph.modifiers[i].id;
        let own = Endpoint::ModifierOut(mid);
        if self.armed.is_empty() {
            self.armed = only(own);
            self.say("armed this node's output — focus the next node, press 'c' to connect");
            return;
        }
        if holds_only(&self.armed, own) {
            self.armed.clear();
            return;
        }
        let is_concat = match &self.graph.modifiers[i].kind {
            ModifierKind::Concat => true,
            _ => false,
        };
        if is_concat {
            self.connect_concat_segments(mid);
            return;
        }
        if self.armed.len() > 1 {
            let n = number(self.armed.len() as u128);
            let line = cat3(
                "can't connect ",
                n.as_str(),
                " streams to a modifier -- it only accepts one",
            );
            self.say(line.as_str());
            return;
        }
        let source = self.armed.at(0);
        if let Some(kind) = self.graph.endpoint_stream_kind(source) {
            if !self.graph.modifiers[i].kind.accepts_stream_kind(kind) {
                let label = self.graph.modifiers[i].kind.short_label();
                let line = cat4(label.as_str(), " doesn't accept a ", kind.noun(), " stream");
                self.say(line.as_str());
                return;
            }
        }
        self.graph.connect(source, Target::ModifierIn(mid));
        sync_chapter_edit_import(&mut self.graph, mid);
        self.armed.clear();
        self.say("connected");
    }

    fn connect_output(&mut self, output: NodeId)
        ensures
            final(self)@ == old(self)@.connect_output(output),
    {
        if self.armed.is_empty() {
            self.say("nothing armed -- arm a stream or modifier output first ('c')");
            return;
        }
        let sources = self.armed.take();
        let n: usize = sources.len();
        let ghost before = self@;
        let mut i: usize = 0;
        while i < n
            invariant
                i <= n,
                n == sources@.len(),
                self@ == before.with_graph(
                    into_output_upto(before.graph, sources@, output, i as int),
                ),
            decreases n - i,
        {
            let source = sources.at(i);
            let chapters = match self.graph.endpoint_stream_kind(source) {
                Some(kind) => kind == StreamKind::Chapter,
                None => false,
            };
            let target = if chapters {
                Target::OutputChapters(output)
            } else {
                Target::Output(output)
            };
            self.graph.connect(source, target);
            i += 1;
        }
        if n == 1 {
            self.say("connected to output");
        } else {
            let count = number(n as u128);
            let line = cat3("connected ", count.as_str(), " ports to output");
            self.say(line.as_str());
        }
    }

    /// 'c': arms what is focused, or connects what is armed to it. A modifier
    /// takes one source, a concat node and an output take any number.
    pub fn toggle_connect(&mut self)
        ensures
            final(self)@ == old(self)@.toggle_connect(),
    {
        self.selection_anchor = None;
        match self.focus {
            Focus::Input(i) => self.arm_ports(i),
            Focus::Modifier(i) => {
                if i < self.graph.modifiers.len() {
                    self.connect_modifier(i);
                }
            },
            Focus::Output(i) => {
                if i < self.graph.outputs.len() {
                    let id: NodeId = self.graph.outputs[i].id;
                    self.connect_output(id);
                }
            },
        }
    }
}

// ---------------------------------------------------------------------
// Disconnecting and reordering
// ---------------------------------------------------------------------

impl AppView {
    /// With the cursor on the last of `n` rows where it stood behind them.
    pub open spec fn within_rows(self, n: int) -> AppView {
        if n > 0 && self.row_idx >= n {
            AppView { row_idx: (n - 1) as usize, ..self }
        } else {
            self
        }
    }

    /// The graph without the wires that leave one of these ports, its chapter
    /// nodes brought in line.
    pub open spec fn graph_off_ports(self, ports: Seq<Endpoint>) -> GraphView {
        let g = self.graph;
        let affected = fed_by_ports(g, ports, g.wires.len() as int);
        sync_upto(
            GraphView { wires: wires_off_ports(g.wires, ports, g.wires.len() as int), ..g },
            affected,
            affected.len() as int,
        )
    }

    /// Whether a wire leaves one of these ports.
    pub open spec fn wired(self, ports: Seq<Endpoint>) -> bool {
        wires_off_ports(self.graph.wires, ports, self.graph.wires.len() as int).len()
            != self.graph.wires.len()
    }

    /// 'd' on an input: cuts the selection off everything downstream where
    /// there is one, and else the stream under the cursor.
    pub open spec fn disconnect_ports(self) -> AppView {
        match self.focused_input() {
            None => self,
            Some(node) => if self.selected.len() > 0 {
                let n = decimal(self.selected.len());
                (AppView {
                    graph: self.graph_off_ports(self.selected),
                    selected: Seq::empty(),
                    ..self
                }).say(
                    if self.wired(self.selected) {
                        "disconnected "@ + n + " port(s) from everything downstream"@
                    } else {
                        n + " port(s) had nothing connected"@
                    },
                )
            } else if (self.row_idx as int) < node.streams.len() {
                let ports = seq![Endpoint::Stream { node: node.id, stream_idx: self.row_idx }];
                let a = self.with_graph(self.graph_off_ports(ports));
                if self.wired(ports) {
                    a.say(
                        "disconnected "@ + node.streams[self.row_idx as int].label()
                            + " from everything downstream"@,
                    )
                } else {
                    a
                }
            } else {
                self
            },
        }
    }

    /// 'd' on a modifier: takes the selected outgoing connection out; on a
    /// concat node, whose rows are its segments and then its outgoing
    /// connections, the selected segment or connection.
    pub open spec fn disconnect_modifier(self, m: ModifierView) -> AppView {
        let own = Endpoint::ModifierOut(m.id);
        let segments = if m.kind == KindView::Concat {
            incoming_spec(self.graph.wires, Target::ModifierIn(m.id))
        } else {
            Seq::empty()
        };
        let outgoing = outgoing_spec(self.graph.wires, own);
        let row = self.row_idx - segments.len();
        if row < 0 {
            let a = self.with_graph(
                self.graph.remove_wire_at(segments[self.row_idx as int] as int),
            ).say("segment removed from concat"@);
            a.within_rows(
                incoming_spec(a.graph.wires, Target::ModifierIn(m.id)).len() as int,
            )
        } else if row < outgoing.len() {
            let a = self.with_graph(self.graph.remove_wire_at(outgoing[row] as int)).say(
                "disconnected"@,
            );
            a.within_rows((segments.len() + outgoing_spec(a.graph.wires, own).len()) as int)
        } else {
            self
        }
    }

    /// 'd' on an output: takes the selected connection out. The chapters stand
    /// behind the mapped streams.
    pub open spec fn disconnect_output(self, output: NodeId) -> AppView {
        let incoming = incoming_spec(self.graph.wires, Target::Output(output));
        if (self.row_idx as int) < incoming.len() {
            let a = self.with_graph(
                self.graph.remove_wire_at(incoming[self.row_idx as int] as int),
            ).say("disconnected"@);
            a.within_rows(incoming_spec(a.graph.wires, Target::Output(output)).len() as int)
        } else {
            let chapters = incoming_spec(self.graph.wires, Target::OutputChapters(output));
            if chapters.len() > 0 {
                self.with_graph(self.graph.remove_wire_at(chapters[0] as int)).say(
                    "chapters disconnected"@,
                )
            } else {
                self
            }
        }
    }

    /// 'd': takes connections out, by what is focused.
    pub open spec fn disconnect_focused(self) -> AppView {
        let a = self.unanchored();
        match a.focus {
            Focus::Input(_) => a.disconnect_ports(),
            Focus::Modifier(i) => if (i as int) < a.graph.modifiers.len() {
                a.disconnect_modifier(a.graph.modifiers[i as int])
            } else {
                a
            },
            Focus::Output(i) => if (i as int) < a.graph.outputs.len() {
                a.disconnect_output(a.graph.outputs[i as int].id)
            } else {
                a
            },
        }
    }

    /// The wires behind the rows that can be put in another order: the mapped
    /// streams of an output, the segments of a concat node.
    pub open spec fn movable_rows(self) -> Seq<usize> {
        let g = self.graph;
        match self.focus {
            Focus::Output(i) => if (i as int) < g.outputs.len() {
                incoming_spec(g.wires, Target::Output(g.outputs[i as int].id))
            } else {
                Seq::empty()
            },
            Focus::Modifier(i) => if (i as int) < g.modifiers.len()
                && g.modifiers[i as int].kind == KindView::Concat {
                incoming_spec(g.wires, Target::ModifierIn(g.modifiers[i as int].id))
            } else {
                Seq::empty()
            },
            Focus::Input(_) => Seq::empty(),
        }
    }

    /// Control and Up or Down: moves the selected row past its neighbour.
    pub open spec fn move_focused_row(self, forward: bool) -> AppView {
        let rows = self.movable_rows();
        let row = self.row_idx as int;
        let to = if forward {
            row + 1
        } else {
            row - 1
        };
        if row < rows.len() && 0 <= to < rows.len() {
            AppView {
                graph: self.graph.swap_wires(rows[row] as int, rows[to] as int),
                row_idx: to as usize,
                ..self
            }
        } else {
            self
        }
    }
}

/// Takes out the wires that leave one of these ports, and brings the chapter
/// nodes behind them in line. Returns whether there were any.
fn cut_off(graph: &mut Graph, ports: &EndpointSet) -> (r: bool)
    ensures
        r == (wires_off_ports(
            old(graph)@.wires,
            ports@,
            old(graph)@.wires.len() as int,
        ).len() != old(graph)@.wires.len()),
        final(graph)@ == ({
            let g = old(graph)@;
            let affected = fed_by_ports(g, ports@, g.wires.len() as int);
            sync_upto(
                GraphView { wires: wires_off_ports(g.wires, ports@, g.wires.len() as int), ..g },
                affected,
                affected.len() as int,
            )
        }),
{
    let affected = chapter_edit_modifiers_fed_by(graph, ports);
    let before: usize = graph.wires.len();
    let mut kept: Vec<Wire> = Vec::new();
    let mut i: usize = 0;
    while i < graph.wires.len()
        invariant
            i <= graph.wires@.len(),
            *graph == *old(graph),
            kept@ == wires_off_ports(graph.wires@, ports@, i as int),
        decreases graph.wires@.len() - i,
    {
        if !ports.contains(graph.wires[i].from) {
            kept.push(graph.wires[i]);
        }
        i += 1;
    }
    let removed = kept.len() != before;
    graph.wires = kept;
    sync_all(graph, &affected);
    removed
}

impl App {
    fn disconnect_ports(&mut self, i: usize)
        requires
            old(self).focus == Focus::Input(i),
        ensures
            final(self)@ == old(self)@.disconnect_ports(),
    {
        if i >= self.graph.inputs.len() {
            return;
        }
        if !self.selected.is_empty() {
            let ports = self.selected.take();
            let n = number(ports.len() as u128);
            let line = if cut_off(&mut self.graph, &ports) {
                cat3("disconnected ", n.as_str(), " port(s) from everything downstream")
            } else {
                cat2(n.as_str(), " port(s) had nothing connected")
            };
            self.say(line.as_str());
            return;
        }
        assert(self@.graph.inputs[i as int] == self.graph.inputs@[i as int]@);
        if self.row_idx >= self.graph.inputs[i].streams.len() {
            return;
        }
        let e = Endpoint::Stream { node: self.graph.inputs[i].id, stream_idx: self.row_idx };
        let label = self.graph.inputs[i].streams[self.row_idx].label();
        let ports = only(e);
        if cut_off(&mut self.graph, &ports) {
            let line = cat3("disconnected ", label.as_str(), " from everything downstream");
            self.say(line.as_str());
        }
    }

    fn keep_within_rows(&mut self, n: u128)
        ensures
            final(self)@ == old(self)@.within_rows(n as int),
    {
        if n > 0 && self.row_idx as u128 >= n {
            self.row_idx = (n - 1) as usize;
        }
    }

    fn disconnect_modifier(&mut self, i: usize)
        requires
            i < old(self).graph.modifiers@.len(),
        ensures
            final(self)@ == old(self)@.disconnect_modifier(old(self)@.graph.modifiers[i as int]),
    {
        assert(self@.graph.modifiers[i as int] == self.graph.modifiers@[i as int]@);
        let mid: NodeId = self.graph.modifiers[i].id;
        let own = Endpoint::ModifierOut(mid);
        let segments: Vec<usize> = match &self.graph.modifiers[i].kind {
            ModifierKind::Concat => self.graph.incoming(Target::ModifierIn(mid)),
            _ => Vec::new(),
        };
        if self.row_idx < segments.len() {
            self.graph.remove_wire_at(segments[self.row_idx]);
            self.say("segment removed from concat");
            let n: usize = self.graph.incoming(Target::ModifierIn(mid)).len();
            self.keep_within_rows(n as u128);
            return;
        }
        let outgoing = self.graph.outgoing(own);
        let row: usize = self.row_idx - segments.len();
        if row < outgoing.len() {
            self.graph.remove_wire_at(outgoing[row]);
            self.say("disconnected");
            let n: usize = self.graph.outgoing(own).len();
            self.keep_within_rows(segments.len() as u128 + n as u128);
        }
    }

    fn disconnect_output(&mut self, output: NodeId)
        ensures
            final(self)@ == old(self)@.disconnect_output(output),
    {
        let incoming = self.graph.incoming(Target::Output(output));
        if self.row_idx < incoming.len() {
            self.graph.remove_wire_at(incoming[self.row_idx]);
            self.say("disconnected");
            let n: usize = self.graph.incoming(Target::Output(output)).len();
            self.keep_within_rows(n as u128);
            return;
        }
        let chapters = self.graph.incoming(Target::OutputChapters(output));
        if chapters.len() > 0 {
            self.graph.remove_wire_at(chapters[0]);
            self.say("chapters disconnected");
        }
    }

    /// 'd': on an input, cuts the selected ports, or the one under the cursor,
    /// off everything downstream; on a modifier or an output, takes the
    /// selected connection out.
    pub fn disconnect_focused(&mut self)
        ensures
            final(self)@ == old(self)@.disconnect_focused(),
    {
        self.selection_anchor = None;
        match self.focus {
            Focus::Input(i) => self.disconnect_ports(i),
            Focus::Modifier(i) => {
                if i < self.graph.modifiers.len() {
                    self.disconnect_modifier(i);
                }
            },
            Focus::Output(i) => {
                if i < self.graph.outputs.len() {
                    let id: NodeId = self.graph.outputs[i].id;
                    self.disconnect_output(id);
                }
            },
        }
    }

    fn movable_rows(&self) -> (r: Vec<usize>)
        ensures
            r@ == self@.movable_rows(),
            forall|k: int| 0 <= k < r@.len() ==> #[trigger] r@[k] < self.graph.wires@.len(),
    {
        match self.focus {
            Focus::Output(i) => if i < self.graph.outputs.len() {
                self.graph.incoming(Target::Output(self.graph.outputs[i].id))
            } else {
                Vec::new()
            },
            Focus::Modifier(i) => if i < self.graph.modifiers.len() {
                assert(self@.graph.modifiers[i as int] == self.graph.modifiers@[i as int]@);
                match &self.graph.modifiers[i].kind {
                    ModifierKind::Concat => self.graph.incoming(
                        Target::ModifierIn(self.graph.modifiers[i].id),
                    ),
                    _ => Vec::new(),
                }
            } else {
                Vec::new()
            },
            Focus::Input(_) => Vec::new(),
        }
    }

    /// Control and Up or Down: moves the selected row past its neighbour: a
    /// mapped stream of an output, or a segment of a concat node. Anywhere
    /// else, and at either end of the list, it does nothing.
    pub fn move_focused_row(&mut self, forward: bool)
        ensures
            final(self)@ == old(self)@.move_focused_row(forward),
    {
        let rows = self.movable_rows();
        let row: usize = self.row_idx;
        if row >= rows.len() {
            return;
        }
        let to: usize = if forward {
            if row + 1 >= rows.len() {
                return;
            }
            row + 1
        } else {
            if row == 0 {
                return;
            }
            row - 1
        };
        self.graph.swap_wires(rows[row], rows[to]);
        self.row_idx = to;
    }
}

} // verus!
