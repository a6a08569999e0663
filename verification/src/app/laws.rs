//! What every key and every reply keeps true of the editor.
use vstd::prelude::*;

use super::chapters::{edit_chapters, fed_by_input, fed_by_ports, set_chapters, sync_import, sync_upto};
use super::navigation::{moved, resized, stepped};
use super::connect::{first_kind, into_output_upto, output_slot, Joining};
use super::nodes::{at_most, before_last, beside, connect_all, connect_upto, lemma_connect_keeps_nodes, output_paths};
use super::picker::{extra_args, filtered, flags_of, new_modifier, path_for_container, set_extra_args};
use super::render::Playback;
use super::settings::{put, set_kind, set_stored, stored, Store};
use super::{initial, AppView, ChapterTimeField, ExtraArgsTarget, Focus, ModeView, PickerKindView, RequestView, SessionView, TargetView};
use crate::ffmpeg::{probed, ProbeChapterView, ProbeStreamView};
use crate::fields::{field_set, field_unset, flag_toggle, Entry};
use crate::graph::chapter::{ChapterView, SecondsView};
use crate::line::{Key, KeyCode};
use crate::text::{decimal, trim_spec};
use crate::graph::laws::{add_input_keeps_well_formed, add_modifier_keeps_well_formed, add_output_keeps_well_formed, connect_toggles, connecting_keeps_one_wire_per_slot, dropping_wires_keeps_one_per_slot, lemma_kept_distinct, lemma_media_kinds, lemma_without, lemma_without_len, remove_input_keeps_well_formed, remove_modifier_keeps_well_formed, remove_output_keeps_well_formed, removing_a_wire_keeps_one_per_slot, removing_nodes_keeps_one_wire_per_slot, streams_ok, swapping_keeps_one_wire_per_slot, wires_distinct};
use crate::graph::node::{InputNode, KindView, ModifierNode, ModifierView, OutputNode, OutputView};
use crate::graph::wire::{endpoint_set_adds, endpoint_set_range, endpoint_unset_drops, endpoints_ascend, endpoints_except, endpoints_off_input, from_input, in_range, input_unset_drops, range_set_adds, Endpoint, NodeId, Target, Wire};
use crate::graph::project::{media_streams, LoadView, ProbeView};
use crate::graph::resolve::feeds;
use crate::graph::stream::{CodecView, StreamKind, StreamView};
use crate::paths::{clean_path, copied_path};
use crate::graph::{feed, feed_from, incoming_spec, incoming_upto, lemma_kept, lemma_position, outgoing_spec, touches_modifier, touches_output, wire_from, wires_off_ports, wires_off_target, without, GraphView, Identified};

verus! {

// ---------------------------------------------------------------------
// Sound states
// ---------------------------------------------------------------------

/// Whether there is such a stream.
pub open spec fn has_stream(g: GraphView, node: NodeId, stream_idx: usize) -> bool {
    exists|i: int|
        0 <= i < g.inputs.len() && (#[trigger] g.inputs[i]).id == node && (stream_idx as int)
            < g.inputs[i].streams.len()
}

/// Whether there is such a modifier.
pub open spec fn has_modifier(g: GraphView, id: NodeId) -> bool {
    exists|i: int| 0 <= i < g.modifiers.len() && (#[trigger] g.modifiers[i]).id == id
}

/// Whether there is such an output.
pub open spec fn has_output(g: GraphView, id: NodeId) -> bool {
    exists|i: int| 0 <= i < g.outputs.len() && (#[trigger] g.outputs[i]).id == id
}

/// Whether an endpoint is a port of a node that is there.
pub open spec fn endpoint_ok(g: GraphView, e: Endpoint) -> bool {
    match e {
        Endpoint::Stream { node, stream_idx } => has_stream(g, node, stream_idx),
        Endpoint::ModifierOut(id) => has_modifier(g, id),
    }
}

/// Whether a target is one of a node that is there.
pub open spec fn target_ok(g: GraphView, t: Target) -> bool {
    match t {
        Target::ModifierIn(id) => has_modifier(g, id),
        Target::Output(id) => has_output(g, id),
        Target::OutputChapters(id) => has_output(g, id),
    }
}

/// A graph with at least one output, distinct ids, no connection that occurs
/// twice, at most one wire where only one is held, and no wire that hangs
/// loose at either end.
pub open spec fn graph_sound(g: GraphView) -> bool {
    &&& g.well_formed()
    &&& g.outputs.len() > 0
    &&& wires_distinct(g.wires)
    &&& g.one_wire_per_slot()
    &&& forall|w: Wire| #[trigger] g.wires.contains(w) ==> endpoint_ok(g, w.from) && target_ok(
        g,
        w.to,
    )
}

/// Whether the focused node is there.
pub open spec fn focus_sound(g: GraphView, focus: Focus) -> bool {
    match focus {
        Focus::Input(i) => (i as int) < g.inputs.len(),
        Focus::Modifier(i) => (i as int) < g.modifiers.len(),
        Focus::Output(i) => (i as int) < g.outputs.len(),
    }
}

/// A set of ports that are all there.
pub open spec fn ports_sound(g: GraphView, s: Seq<Endpoint>) -> bool {
    &&& endpoints_ascend(s)
    &&& forall|e: Endpoint| #[trigger] s.contains(e) ==> endpoint_ok(g, e)
}

/// Ports that are all streams of inputs.
pub open spec fn streams_only(s: Seq<Endpoint>) -> bool {
    forall|e: Endpoint| #[trigger] s.contains(e) ==> e is Stream
}

impl AppView {
    /// The cursor stands on a row of the focused input, if an input with rows
    /// is focused, and so does the start of a range selection.
    pub open spec fn cursor_sound(self) -> bool {
        match self.focused_input() {
            Some(node) => {
                &&& self.row_idx == 0 || (self.row_idx as int) < node.streams.len()
                &&& self.selection_anchor matches Some(a) ==> (a as int) < node.streams.len()
            },
            None => true,
        }
    }

    /// The graph is sound, the focus is on a node that is there, and so are the
    /// ports that are armed or selected. Only streams are selected.
    pub open spec fn standing(self) -> bool {
        &&& graph_sound(self.graph)
        &&& focus_sound(self.graph, self.focus)
        &&& ports_sound(self.graph, self.armed)
        &&& ports_sound(self.graph, self.selected)
        &&& streams_only(self.selected)
        &&& self.cursor_sound()
    }

    /// Where a codec is being picked, it is one for a convert node.
    pub open spec fn picker_sound(self) -> bool {
        self.mode matches ModeView::Picker { kind: PickerKindView::Codec { modifier }, .. } ==> (
        self.graph.modifier(modifier) matches Some(m) && m.kind is Convert)
    }

    /// A state as the keys leave it: everything in it stands, and an open
    /// picker is about a node that it fits.
    pub open spec fn sound(self) -> bool {
        &&& self.standing()
        &&& self.picker_sound()
    }

    /// Lists short enough for this machine to hold one more of everything.
    pub open spec fn fits(self) -> bool {
        let g = self.graph;
        &&& g.next_id < usize::MAX
        &&& g.inputs.len() < usize::MAX
        &&& g.modifiers.len() < usize::MAX
        &&& g.outputs.len() < usize::MAX
        &&& g.wires.len() <= usize::MAX
        &&& forall|i: int|
            0 <= i < g.inputs.len() ==> (#[trigger] g.inputs[i]).streams.len() <= usize::MAX
    }
}

// ---------------------------------------------------------------------
// Graphs that differ in settings, or in wires
// ---------------------------------------------------------------------

/// `h` has the nodes of `g`, whatever their settings, and its wires.
spec fn same_bones(g: GraphView, h: GraphView) -> bool {
    &&& h.next_id == g.next_id
    &&& h.wires == g.wires
    &&& h.inputs.len() == g.inputs.len()
    &&& h.modifiers.len() == g.modifiers.len()
    &&& h.outputs.len() == g.outputs.len()
    &&& forall|i: int|
        0 <= i < g.inputs.len() ==> (#[trigger] h.inputs[i]).id == g.inputs[i].id
            && h.inputs[i].file_index == g.inputs[i].file_index && h.inputs[i].streams
            == g.inputs[i].streams && h.inputs[i].chapters == g.inputs[i].chapters
    &&& forall|i: int|
        0 <= i < g.modifiers.len() ==> (#[trigger] h.modifiers[i]).id == g.modifiers[i].id
            && h.modifiers[i].kind is Concat == g.modifiers[i].kind is Concat
    &&& forall|i: int|
        0 <= i < g.outputs.len() ==> (#[trigger] h.outputs[i]).id == g.outputs[i].id
}

/// Whether a target holds one wire does not depend on a modifier's settings.
proof fn lemma_bones_slots(g: GraphView, h: GraphView)
    requires
        same_bones(g, h),
        g.one_wire_per_slot(),
    ensures
        h.one_wire_per_slot(),
{
    assert forall|to: Target| #[trigger] h.single_wire(to) implies feeds(h.wires, to).len() <= 1 by {
        if let Target::ModifierIn(m) = to {
            lemma_position::<ModifierNode>(g.modifiers, m);
            lemma_position::<ModifierNode>(h.modifiers, m);
            if let Some(k) = g.modifier_at(m) {
                assert(ModifierNode::tag(h.modifiers[k]) == m);
                let q = h.modifier_at(m)->0;
                if q < k {
                    assert(ModifierNode::tag(g.modifiers[q]) == m);
                }
                assert(h.modifiers[k].kind is Concat == g.modifiers[k].kind is Concat);
            }
        }
        assert(g.single_wire(to));
    }
}

proof fn lemma_bones_nodes(g: GraphView, h: GraphView)
    requires
        same_bones(g, h),
    ensures
        forall|e: Endpoint| #[trigger] endpoint_ok(h, e) <==> endpoint_ok(g, e),
        forall|t: Target| #[trigger] target_ok(h, t) <==> target_ok(g, t),
{
    assert forall|n: NodeId, k: usize| #[trigger] has_stream(h, n, k) <==> has_stream(g, n, k) by {
        if has_stream(h, n, k) {
            let i = choose|i: int|
                0 <= i < h.inputs.len() && (#[trigger] h.inputs[i]).id == n && (k as int)
                    < h.inputs[i].streams.len();
            assert(g.inputs[i].id == n);
        }
        if has_stream(g, n, k) {
            let i = choose|i: int|
                0 <= i < g.inputs.len() && (#[trigger] g.inputs[i]).id == n && (k as int)
                    < g.inputs[i].streams.len();
            assert(h.inputs[i].id == n);
        }
    }
    assert forall|n: NodeId| #[trigger] has_modifier(h, n) <==> has_modifier(g, n) by {
        if has_modifier(h, n) {
            let i = choose|i: int| 0 <= i < h.modifiers.len() && (#[trigger] h.modifiers[i]).id == n;
            assert(g.modifiers[i].id == n);
        }
        if has_modifier(g, n) {
            let i = choose|i: int| 0 <= i < g.modifiers.len() && (#[trigger] g.modifiers[i]).id == n;
            assert(h.modifiers[i].id == n);
        }
    }
    assert forall|n: NodeId| #[trigger] has_output(h, n) <==> has_output(g, n) by {
        if has_output(h, n) {
            let i = choose|i: int| 0 <= i < h.outputs.len() && (#[trigger] h.outputs[i]).id == n;
            assert(g.outputs[i].id == n);
        }
        if has_output(g, n) {
            let i = choose|i: int| 0 <= i < g.outputs.len() && (#[trigger] g.outputs[i]).id == n;
            assert(h.outputs[i].id == n);
        }
    }
}

/// Settings do not matter to soundness.
proof fn lemma_bones(a: AppView, h: GraphView)
    requires
        a.standing(),
        same_bones(a.graph, h),
    ensures
        a.with_graph(h).standing(),
{
    let g = a.graph;
    lemma_bones_nodes(g, h);
    lemma_bones_slots(g, h);
    assert forall|i: int, j: int| 0 <= i < j < h.inputs.len() implies InputNode::tag(
        #[trigger] h.inputs[i],
    ) != InputNode::tag(#[trigger] h.inputs[j]) by {
        assert(InputNode::tag(g.inputs[i]) != InputNode::tag(g.inputs[j]));
    }
    assert forall|i: int| 0 <= i < h.inputs.len() implies InputNode::tag(#[trigger] h.inputs[i])
        < h.next_id && h.inputs[i].file_index == i && streams_ok(h.inputs[i]) by {
        assert(InputNode::tag(g.inputs[i]) < g.next_id);
        assert(streams_ok(g.inputs[i]));
    }
    assert forall|i: int, j: int| 0 <= i < j < h.modifiers.len() implies ModifierNode::tag(
        #[trigger] h.modifiers[i],
    ) != ModifierNode::tag(#[trigger] h.modifiers[j]) by {
        assert(ModifierNode::tag(g.modifiers[i]) != ModifierNode::tag(g.modifiers[j]));
    }
    assert forall|i: int| 0 <= i < h.modifiers.len() implies ModifierNode::tag(
        #[trigger] h.modifiers[i],
    ) < h.next_id by {
        assert(ModifierNode::tag(g.modifiers[i]) < g.next_id);
    }
    assert forall|i: int, j: int| 0 <= i < j < h.outputs.len() implies OutputNode::tag(
        #[trigger] h.outputs[i],
    ) != OutputNode::tag(#[trigger] h.outputs[j]) by {
        assert(OutputNode::tag(g.outputs[i]) != OutputNode::tag(g.outputs[j]));
    }
    assert forall|i: int| 0 <= i < h.outputs.len() implies OutputNode::tag(#[trigger] h.outputs[i])
        < h.next_id by {
        assert(OutputNode::tag(g.outputs[i]) < g.next_id);
    }
    assert(h.well_formed());
    assert(a.with_graph(h).cursor_sound()) by {
        if let Focus::Input(i) = a.focus {
            assert(h.inputs[i as int].streams == g.inputs[i as int].streams);
        }
    }
}

/// The nodes are the same.
proof fn lemma_same_nodes(g: GraphView, wires: Seq<Wire>)
    ensures
        forall|e: Endpoint| #[trigger]
            endpoint_ok(GraphView { wires, ..g }, e) <==> endpoint_ok(g, e),
        forall|t: Target| #[trigger] target_ok(GraphView { wires, ..g }, t) <==> target_ok(g, t),
{
    let h = GraphView { wires, ..g };
    lemma_bones_nodes(GraphView { wires, ..g }, h);
    assert forall|e: Endpoint| #[trigger] endpoint_ok(h, e) <==> endpoint_ok(g, e) by {
        match e {
            Endpoint::Stream { node, stream_idx } => {
                assert(h.inputs == g.inputs);
            },
            Endpoint::ModifierOut(id) => {
                assert(h.modifiers == g.modifiers);
            },
        }
    }
    assert forall|t: Target| #[trigger] target_ok(h, t) <==> target_ok(g, t) by {
        assert(h.modifiers == g.modifiers && h.outputs == g.outputs);
    }
}

/// Other wires keep a state sound as long as none of them hangs loose.
proof fn lemma_wires(a: AppView, wires: Seq<Wire>)
    requires
        a.standing(),
        wires_distinct(wires),
        (GraphView { wires, ..a.graph }).one_wire_per_slot(),
        forall|w: Wire| #[trigger]
            wires.contains(w) ==> a.graph.wires.contains(w) || (endpoint_ok(a.graph, w.from)
                && target_ok(a.graph, w.to)),
    ensures
        a.with_graph(GraphView { wires, ..a.graph }).standing(),
{
    let h = GraphView { wires, ..a.graph };
    lemma_same_nodes(a.graph, wires);
    assert(h.well_formed());
    assert(graph_sound(h));
    assert(a.with_graph(h).focused_input() == a.focused_input());
}

// ---------------------------------------------------------------------
// Wires
// ---------------------------------------------------------------------

proof fn lemma_connect(a: AppView, from: Endpoint, to: Target)
    requires
        a.standing(),
        endpoint_ok(a.graph, from),
        target_ok(a.graph, to),
    ensures
        a.with_graph(a.graph.connect(from, to)).standing(),
        forall|e: Endpoint| #[trigger]
            endpoint_ok(a.graph.connect(from, to), e) <==> endpoint_ok(a.graph, e),
        forall|t: Target| #[trigger]
            target_ok(a.graph.connect(from, to), t) <==> target_ok(a.graph, t),
{
    let g = a.graph;
    let w = Wire { from, to };
    let wires = g.connect(from, to).wires;
    let n = g.wires.len() as int;
    assert(g.connect(from, to) == GraphView { wires, ..g });
    assert forall|x: Wire| #[trigger] wires.contains(x) implies g.wires.contains(x) || (
    endpoint_ok(g, x.from) && target_ok(g, x.to)) by {
        let k = choose|k: int| 0 <= k < wires.len() && wires[k] == x;
        match wire_from(g.wires, w, 0) {
            Some(i) => {
                lemma_found(g.wires, w, 0);
                if k < i {
                    assert(g.wires[k] == x);
                } else {
                    assert(g.wires[k + 1] == x);
                }
            },
            None => if g.single_wire(to) {
                let kept = wires_off_target(g.wires, to, n);
                lemma_kept(g.wires, |v: Wire| v.to != to, n);
                assert(g.wires.take(n) == g.wires);
                if k < kept.len() {
                    assert(kept[k] == x);
                    assert(kept.contains(x));
                }
            } else if k < n {
                assert(g.wires[k] == x);
            },
        }
    }
    connect_toggles(g, from, to);
    connecting_keeps_one_wire_per_slot(g, from, to);
    lemma_wires(a, wires);
    lemma_same_nodes(g, wires);
}

proof fn lemma_found(wires: Seq<Wire>, w: Wire, i: int)
    requires
        0 <= i,
    ensures
        wire_from(wires, w, i) matches Some(p) ==> i <= p < wires.len(),
    decreases wires.len() - i,
{
    if i < wires.len() && wires[i] != w {
        lemma_found(wires, w, i + 1);
    }
}

proof fn lemma_remove_wire(a: AppView, i: int)
    requires
        a.standing(),
    ensures
        a.with_graph(a.graph.remove_wire_at(i)).standing(),
{
    let g = a.graph;
    let h = g.remove_wire_at(i);
    assert(h == GraphView { wires: h.wires, ..g });
    assert forall|x: Wire| #[trigger] h.wires.contains(x) implies g.wires.contains(x) by {
        let k = choose|k: int| 0 <= k < h.wires.len() && h.wires[k] == x;
        if 0 <= i < g.wires.len() {
            if k < i {
                assert(g.wires[k] == x);
            } else {
                assert(g.wires[k + 1] == x);
            }
        }
    }
    assert forall|x: int, y: int| 0 <= x < y < h.wires.len() implies #[trigger] h.wires[x]
        != #[trigger] h.wires[y] by {
        if 0 <= i < g.wires.len() {
            let p = if x < i {
                x
            } else {
                x + 1
            };
            let q = if y < i {
                y
            } else {
                y + 1
            };
            assert(g.wires[p] != g.wires[q]);
        }
    }
    removing_a_wire_keeps_one_per_slot(g, i);
    lemma_wires(a, h.wires);
}

proof fn lemma_swap(a: AppView, i: int, j: int)
    requires
        a.standing(),
        0 <= i < a.graph.wires.len(),
        0 <= j < a.graph.wires.len(),
    ensures
        a.with_graph(a.graph.swap_wires(i, j)).standing(),
{
    let g = a.graph;
    let h = g.swap_wires(i, j);
    assert(h == GraphView { wires: h.wires, ..g });
    assert forall|x: Wire| #[trigger] h.wires.contains(x) implies g.wires.contains(x) by {
        let k = choose|k: int| 0 <= k < h.wires.len() && h.wires[k] == x;
        if k == j {
            assert(g.wires[i] == x);
        } else if k == i {
            assert(g.wires[j] == x);
        } else {
            assert(g.wires[k] == x);
        }
    }
    assert forall|x: int, y: int| 0 <= x < y < h.wires.len() implies #[trigger] h.wires[x]
        != #[trigger] h.wires[y] by {
        let p = if x == i {
            j
        } else if x == j {
            i
        } else {
            x
        };
        let q = if y == i {
            j
        } else if y == j {
            i
        } else {
            y
        };
        if p < q {
            assert(g.wires[p] != g.wires[q]);
        } else {
            assert(g.wires[q] != g.wires[p]);
        }
    }
    swapping_keeps_one_wire_per_slot(g, i, j);
    lemma_wires(a, h.wires);
}

proof fn lemma_cut(a: AppView, ports: Seq<Endpoint>)
    requires
        a.standing(),
    ensures
        a.with_graph(
            GraphView {
                wires: wires_off_ports(a.graph.wires, ports, a.graph.wires.len() as int),
                ..a.graph
            },
        ).standing(),
{
    let g = a.graph;
    let n = g.wires.len() as int;
    lemma_kept(g.wires, |w: Wire| !ports.contains(w.from), n);
    lemma_kept_distinct(g.wires, |w: Wire| !ports.contains(w.from), n);
    assert(g.wires.take(n) == g.wires);
    let wires = wires_off_ports(g.wires, ports, n);
    let h = GraphView { wires, ..g };
    assert forall|to: Target| #[trigger] h.single_wire(to) implies g.single_wire(to) by {}
    dropping_wires_keeps_one_per_slot(g, h, |w: Wire| !ports.contains(w.from));
    lemma_wires(a, wires);
}

// ---------------------------------------------------------------------
// Settings
// ---------------------------------------------------------------------

proof fn lemma_set_kind(a: AppView, id: NodeId, kind: KindView)
    requires
        a.standing(),
        !(kind is Concat),
        a.graph.modifier(id) matches Some(m) ==> !(m.kind is Concat),
    ensures
        a.with_graph(set_kind(a.graph, id, kind)).standing(),
{
    lemma_position::<ModifierNode>(a.graph.modifiers, id);
    lemma_bones(a, set_kind(a.graph, id, kind));
}

proof fn lemma_set_chapters(a: AppView, id: NodeId, cs: Seq<ChapterView>)
    requires
        a.standing(),
        edit_chapters(a.graph, id) is Some,
    ensures
        a.with_graph(set_chapters(a.graph, id, cs)).standing(),
{
    lemma_position::<ModifierNode>(a.graph.modifiers, id);
    lemma_bones(a, set_chapters(a.graph, id, cs));
}

proof fn lemma_set_extra_args(a: AppView, target: ExtraArgsTarget, m: Seq<Entry>)
    requires
        a.standing(),
    ensures
        a.with_graph(set_extra_args(a.graph, target, m)).standing(),
{
    match target {
        ExtraArgsTarget::Input(id) => {
            lemma_position::<InputNode>(a.graph.inputs, id);
        },
        ExtraArgsTarget::Output(id) => {
            lemma_position::<OutputNode>(a.graph.outputs, id);
        },
    }
    lemma_bones(a, set_extra_args(a.graph, target, m));
}

proof fn lemma_set_stored(a: AppView, at: Store, m: Seq<Entry>)
    requires
        a.standing(),
        stored(a.graph, at) is Some,
    ensures
        a.with_graph(set_stored(a.graph, at, m)).standing(),
{
    match at {
        Store::Metadata(id) => {
            lemma_set_kind(a, id, KindView::Metadata { fields: m });
        },
        Store::Filter(id) => {
            lemma_bones(a, a.graph);
            if let Some(n) = a.graph.modifier(id) {
                if let KindView::Filter { name, .. } = n.kind {
                    lemma_set_kind(a, id, KindView::Filter { name, fields: m });
                }
            }
        },
        Store::ExtraArgs(target) => {
            lemma_set_extra_args(a, target, m);
        },
    }
}

proof fn lemma_set_output(a: AppView, id: NodeId, node: OutputView)
    requires
        a.standing(),
        a.graph.output_at(id) is Some,
        node.id == a.graph.outputs[a.graph.output_at(id)->0].id,
    ensures
        a.with_graph(a.graph.set_output(a.graph.output_at(id)->0, node)).standing(),
{
    lemma_position::<OutputNode>(a.graph.outputs, id);
    lemma_bones(a, a.graph.set_output(a.graph.output_at(id)->0, node));
}

proof fn lemma_sync(a: AppView, id: NodeId)
    requires
        a.standing(),
    ensures
        a.with_graph(sync_import(a.graph, id)).standing(),
{
    lemma_position::<ModifierNode>(a.graph.modifiers, id);
    lemma_bones(a, sync_import(a.graph, id));
}

proof fn lemma_sync_upto(a: AppView, ids: Seq<NodeId>, n: int)
    requires
        a.standing(),
    ensures
        a.with_graph(sync_upto(a.graph, ids, n)).standing(),
    decreases n,
{
    if n > 0 {
        lemma_sync_upto(a, ids, n - 1);
        let b = a.with_graph(sync_upto(a.graph, ids, n - 1));
        lemma_sync(b, ids[n - 1]);
        assert(b.with_graph(sync_import(b.graph, ids[n - 1])) == a.with_graph(
            sync_upto(a.graph, ids, n),
        ));
    } else {
        assert(a.with_graph(a.graph) == a);
    }
}

proof fn lemma_reshape(a: AppView, pos: (i64, i64), width: u16)
    requires
        a.standing(),
    ensures
        a.reshape(pos, width).standing(),
{
    lemma_bones(a, a.reshape(pos, width).graph);
    assert(a.with_graph(a.reshape(pos, width).graph) == a.reshape(pos, width));
}

// ---------------------------------------------------------------------
// Focus and ports
// ---------------------------------------------------------------------

proof fn lemma_focus(a: AppView, idx: int)
    requires
        graph_sound(a.graph),
        ports_sound(a.graph, a.armed),
        ports_sound(a.graph, a.selected),
        streams_only(a.selected),
        a.graph.inputs.len() <= usize::MAX,
        a.graph.modifiers.len() <= usize::MAX,
        a.graph.outputs.len() <= usize::MAX,
        0 <= idx,
    ensures
        a.set_focus_index(idx).standing(),
{
}

proof fn lemma_one_port(g: GraphView, e: Endpoint)
    requires
        endpoint_ok(g, e),
    ensures
        ports_sound(g, seq![e]),
{
    assert forall|x: Endpoint| #[trigger] seq![e].contains(x) implies endpoint_ok(g, x) by {
        let k = choose|k: int| 0 <= k < seq![e].len() && seq![e][k] == x;
        assert(x == e);
    }
}

proof fn lemma_range(g: GraphView, s: Seq<Endpoint>, i: int, lo: int, hi: int)
    requires
        ports_sound(g, s),
        streams_only(s),
        0 <= i < g.inputs.len(),
        0 <= lo,
        hi <= g.inputs[i].streams.len(),
        g.inputs[i].streams.len() <= usize::MAX,
    ensures
        ports_sound(g, endpoint_set_range(s, g.inputs[i].id, lo, hi)),
        streams_only(endpoint_set_range(s, g.inputs[i].id, lo, hi)),
{
    let node = g.inputs[i].id;
    range_set_adds(s, node, lo, hi);
    let t = endpoint_set_range(s, node, lo, hi);
    assert forall|e: Endpoint| #[trigger] t.contains(e) implies endpoint_ok(g, e) by {
        if !s.contains(e) {
            assert(in_range(e, node, lo, hi));
            if let Endpoint::Stream { node: n, stream_idx } = e {
                assert(g.inputs[i].id == n);
                assert(has_stream(g, n, stream_idx));
            }
        }
    }
}

proof fn lemma_toggle_port(a: AppView)
    requires
        a.standing(),
    ensures
        a.toggle_port_selection().standing(),
{
    if let Focus::Input(i) = a.focus {
        let node = a.graph.inputs[i as int];
        let e = Endpoint::Stream { node: node.id, stream_idx: a.row_idx };
        endpoint_set_adds(a.selected, e);
        endpoint_unset_drops(a.selected, e);
        if (a.row_idx as int) < node.streams.len() {
            assert(a.graph.inputs[i as int].id == node.id);
            assert(endpoint_ok(a.graph, e));
        }
    }
}

proof fn lemma_select_all(a: AppView)
    requires
        a.standing(),
        a.fits(),
    ensures
        a.select_all_ports().standing(),
{
    if let Focus::Input(i) = a.focus {
        lemma_range(a.graph, a.selected, i as int, 0, a.graph.inputs[i as int].streams.len() as int);
    }
}

proof fn lemma_extend(a: AppView, forward: bool)
    requires
        a.standing(),
        a.fits(),
    ensures
        a.extend_port_selection(forward).standing(),
{
    if let Focus::Input(i) = a.focus {
        let node = a.graph.inputs[i as int];
        if node.streams.len() > 0 {
            let left = endpoints_off_input(a.selected, node.id, a.selected.len() as int);
            input_unset_drops(a.selected, node.id);
            assert(ports_sound(a.graph, left));
            let b = a.extend_port_selection(forward);
            let anchor = b.selection_anchor->0;
            if anchor <= b.row_idx {
                lemma_range(a.graph, left, i as int, anchor as int, b.row_idx + 1);
            } else {
                lemma_range(a.graph, left, i as int, b.row_idx as int, anchor + 1);
            }
        }
    }
}

proof fn lemma_cycle_row(a: AppView, forward: bool)
    requires
        a.standing(),
        a.fits(),
    ensures
        a.cycle_row(forward).standing(),
{
    let b = a.cycle_row(forward);
    if let Focus::Input(i) = a.focus {
        let n = a.graph.inputs[i as int].streams.len() as int;
        if n > 0 {
            let to = stepped(a.row_idx as int, n, forward);
            vstd::arithmetic::div_mod::lemma_mod_bound(a.row_idx + 1, n);
            vstd::arithmetic::div_mod::lemma_mod_bound(a.row_idx + n - 1, n);
            assert(b.row_idx < n);
        }
    }
}

// ---------------------------------------------------------------------
// Adding and removing nodes
// ---------------------------------------------------------------------

/// `h` has every node of `g`, and its wires.
spec fn grown(g: GraphView, h: GraphView) -> bool {
    &&& h.wires == g.wires
    &&& h.inputs.len() >= g.inputs.len()
    &&& h.modifiers.len() >= g.modifiers.len()
    &&& h.outputs.len() >= g.outputs.len()
    &&& forall|i: int| 0 <= i < g.inputs.len() ==> #[trigger] h.inputs[i] == g.inputs[i]
    &&& forall|i: int| 0 <= i < g.modifiers.len() ==> #[trigger] h.modifiers[i] == g.modifiers[i]
    &&& forall|i: int| 0 <= i < g.outputs.len() ==> #[trigger] h.outputs[i] == g.outputs[i]
}

proof fn lemma_grown(a: AppView, h: GraphView)
    requires
        a.standing(),
        grown(a.graph, h),
        h.well_formed(),
    ensures
        a.with_graph(h).standing(),
        forall|e: Endpoint| endpoint_ok(a.graph, e) ==> #[trigger] endpoint_ok(h, e),
{
    let g = a.graph;
    assert forall|e: Endpoint| endpoint_ok(g, e) implies #[trigger] endpoint_ok(h, e) by {
        match e {
            Endpoint::Stream { node, stream_idx } => {
                let i = choose|i: int|
                    0 <= i < g.inputs.len() && (#[trigger] g.inputs[i]).id == node
                        && (stream_idx as int) < g.inputs[i].streams.len();
                assert(h.inputs[i] == g.inputs[i]);
            },
            Endpoint::ModifierOut(id) => {
                let i = choose|i: int|
                    0 <= i < g.modifiers.len() && (#[trigger] g.modifiers[i]).id == id;
                assert(h.modifiers[i] == g.modifiers[i]);
            },
        }
    }
    assert forall|t: Target| target_ok(g, t) implies #[trigger] target_ok(h, t) by {
        match t {
            Target::ModifierIn(id) => {
                let i = choose|i: int|
                    0 <= i < g.modifiers.len() && (#[trigger] g.modifiers[i]).id == id;
                assert(h.modifiers[i] == g.modifiers[i]);
            },
            Target::Output(id) => {
                let i = choose|i: int|
                    0 <= i < g.outputs.len() && (#[trigger] g.outputs[i]).id == id;
                assert(h.outputs[i] == g.outputs[i]);
            },
            Target::OutputChapters(id) => {
                let i = choose|i: int|
                    0 <= i < g.outputs.len() && (#[trigger] g.outputs[i]).id == id;
                assert(h.outputs[i] == g.outputs[i]);
            },
        }
    }
    assert forall|w: Wire| #[trigger] h.wires.contains(w) implies endpoint_ok(h, w.from)
        && target_ok(h, w.to) by {
        assert(endpoint_ok(g, w.from) && target_ok(g, w.to));
    }
    assert forall|to: Target| #[trigger] h.single_wire(to) implies feeds(h.wires, to).len() <= 1 by {
        if let Target::ModifierIn(m) = to {
            lemma_position::<ModifierNode>(g.modifiers, m);
            lemma_position::<ModifierNode>(h.modifiers, m);
            if let Some(k) = g.modifier_at(m) {
                assert(h.modifiers[k] == g.modifiers[k]);
                let q = h.modifier_at(m)->0;
                if q < k {
                    assert(h.modifiers[q] == g.modifiers[q]);
                }
            }
        }
        assert(g.single_wire(to));
    }
    assert(a.with_graph(h).cursor_sound()) by {
        if let Focus::Input(i) = a.focus {
            assert(h.inputs[i as int] == g.inputs[i as int]);
        }
    }
}

proof fn lemma_add_output(a: AppView)
    requires
        a.standing(),
        a.fits(),
    ensures
        a.with_graph(a.graph.add_output()).standing(),
        has_output(a.graph.add_output(), a.graph.next_id),
        forall|e: Endpoint|
            endpoint_ok(a.graph, e) ==> #[trigger] endpoint_ok(a.graph.add_output(), e),
{
    add_output_keeps_well_formed(a.graph);
    lemma_grown(a, a.graph.add_output());
    let n = a.graph.outputs.len() as int;
    assert(a.graph.add_output().outputs[n].id == a.graph.next_id);
}

proof fn lemma_add_modifier(a: AppView, kind: KindView)
    requires
        a.standing(),
        a.fits(),
    ensures
        a.with_graph(a.graph.add_modifier(kind)).standing(),
        has_modifier(a.graph.add_modifier(kind), a.graph.next_id),
        forall|e: Endpoint|
            endpoint_ok(a.graph, e) ==> #[trigger] endpoint_ok(a.graph.add_modifier(kind), e),
{
    add_modifier_keeps_well_formed(a.graph, kind);
    lemma_grown(a, a.graph.add_modifier(kind));
    let n = a.graph.modifiers.len() as int;
    assert(a.graph.add_modifier(kind).modifiers[n].id == a.graph.next_id);
}

proof fn lemma_add_input(
    a: AppView,
    path: Seq<char>,
    streams: Seq<StreamView>,
    chapters: Seq<ChapterView>,
)
    requires
        a.standing(),
        a.fits(),
        forall|i: int| 0 <= i < streams.len() ==> (#[trigger] streams[i]).kind
            != StreamKind::Chapter,
    ensures
        a.with_graph(a.graph.add_input(path, streams, chapters)).standing(),
{
    add_input_keeps_well_formed(a.graph, path, streams, chapters);
    lemma_grown(a, a.graph.add_input(path, streams, chapters));
}

/// Ports of nodes other than input `id` stay when it is removed.
proof fn lemma_remove_input_nodes(g: GraphView, id: NodeId)
    requires
        g.well_formed(),
    ensures
        forall|e: Endpoint|
            endpoint_ok(g, e) && !from_input(e, id) ==> #[trigger] endpoint_ok(
                g.remove_input(id),
                e,
            ),
        forall|t: Target| #[trigger] target_ok(g.remove_input(id), t) <==> target_ok(g, t),
        g.remove_input(id).inputs.len() <= g.inputs.len(),
{
    let h = g.remove_input(id);
    let n = g.inputs.len() as int;
    let left = without::<InputNode>(g.inputs, id, n);
    lemma_without::<InputNode>(g.inputs, id, g.next_id, n);
    lemma_without_len::<InputNode>(g.inputs, id, n);
    assert forall|e: Endpoint| endpoint_ok(g, e) && !from_input(e, id) implies #[trigger] endpoint_ok(
        h,
        e,
    ) by {
        match e {
            Endpoint::Stream { node, stream_idx } => {
                let i = choose|i: int|
                    0 <= i < g.inputs.len() && (#[trigger] g.inputs[i]).id == node
                        && (stream_idx as int) < g.inputs[i].streams.len();
                assert(left.contains(g.inputs[i]));
                let k = choose|k: int| 0 <= k < left.len() && left[k] == g.inputs[i];
                assert(h.inputs[k].id == node);
            },
            Endpoint::ModifierOut(m) => {
                assert(h.modifiers == g.modifiers);
            },
        }
    }
    assert forall|t: Target| #[trigger] target_ok(h, t) <==> target_ok(g, t) by {
        assert(h.modifiers == g.modifiers && h.outputs == g.outputs);
    }
}

proof fn lemma_delete_input(a: AppView, i: int)
    requires
        a.standing(),
        a.fits(),
        0 <= i < a.graph.inputs.len(),
    ensures
        a.delete_input(i).standing(),
{
    let g = a.graph;
    let id = g.inputs[i].id;
    let h = g.remove_input(id);
    let n = g.wires.len() as int;
    remove_input_keeps_well_formed(g, id);
    removing_nodes_keeps_one_wire_per_slot(g, id);
    lemma_remove_input_nodes(g, id);
    lemma_kept(g.wires, |w: Wire| !from_input(w.from, id), n);
    lemma_kept_distinct(g.wires, |w: Wire| !from_input(w.from, id), n);
    assert(g.wires.take(n) == g.wires);
    assert(graph_sound(h));
    input_unset_drops(a.armed, id);
    input_unset_drops(a.selected, id);
    let b = (AppView {
        graph: h,
        armed: endpoints_off_input(a.armed, id, a.armed.len() as int),
        selected: endpoints_off_input(a.selected, id, a.selected.len() as int),
        ..a
    }).set_focus_index(0);
    lemma_focus(b, 0);
    assert(b.set_focus_index(0) == b);
    let affected = fed_by_input(g, id, n);
    lemma_sync_upto(b, affected, affected.len() as int);
    lemma_sync_len(h, affected, affected.len() as int);
    let c = b.with_graph(sync_upto(h, affected, affected.len() as int)).say(
        "removed input: "@ + g.inputs[i].path,
    );
    let to = at_most(i, c.graph.inputs.len() as int);
    lemma_focus(c, to);
    assert(c.set_focus_index(to) == a.delete_input(i));
}

proof fn lemma_sync_len(g: GraphView, ids: Seq<NodeId>, n: int)
    ensures
        sync_upto(g, ids, n).inputs == g.inputs,
        sync_upto(g, ids, n).outputs == g.outputs,
        sync_upto(g, ids, n).modifiers.len() == g.modifiers.len(),
    decreases n,
{
    if n > 0 {
        lemma_sync_len(g, ids, n - 1);
        lemma_position::<ModifierNode>(sync_upto(g, ids, n - 1).modifiers, ids[n - 1]);
    }
}

proof fn lemma_delete_modifier(a: AppView, i: int)
    requires
        a.standing(),
        a.fits(),
        0 <= i < a.graph.modifiers.len(),
    ensures
        a.delete_modifier(i).standing(),
{
    let g = a.graph;
    let id = g.modifiers[i].id;
    let h = g.remove_modifier(id);
    let n = g.wires.len() as int;
    let total = g.modifiers.len() as int;
    let left = without::<ModifierNode>(g.modifiers, id, total);
    remove_modifier_keeps_well_formed(g, id);
    removing_nodes_keeps_one_wire_per_slot(g, id);
    lemma_without::<ModifierNode>(g.modifiers, id, g.next_id, total);
    lemma_without_len::<ModifierNode>(g.modifiers, id, total);
    assert forall|m: NodeId| has_modifier(g, m) && m != id implies #[trigger] has_modifier(h, m) by {
        let k = choose|k: int| 0 <= k < g.modifiers.len() && (#[trigger] g.modifiers[k]).id == m;
        assert(left.contains(g.modifiers[k]));
        let j = choose|j: int| 0 <= j < left.len() && left[j] == g.modifiers[k];
        assert(h.modifiers[j].id == m);
    }
    assert forall|e: Endpoint| endpoint_ok(g, e) && e != Endpoint::ModifierOut(
        id,
    ) implies #[trigger] endpoint_ok(h, e) by {
        assert(h.inputs == g.inputs);
    }
    assert forall|t: Target| target_ok(g, t) && t != Target::ModifierIn(
        id,
    ) implies #[trigger] target_ok(h, t) by {
        assert(h.outputs == g.outputs);
    }
    lemma_kept(g.wires, |w: Wire| !touches_modifier(w, id), n);
    lemma_kept_distinct(g.wires, |w: Wire| !touches_modifier(w, id), n);
    assert(g.wires.take(n) == g.wires);
    assert(graph_sound(h));
    endpoint_unset_drops(a.armed, Endpoint::ModifierOut(id));
    let b = (AppView {
        graph: h,
        armed: endpoints_except(a.armed, Endpoint::ModifierOut(id), a.armed.len() as int),
        ..a
    }).say("removed modifier node"@);
    lemma_focus(b, at_most(h.inputs.len() + i, before_last(b.node_count())));
}

proof fn lemma_delete_output(a: AppView, i: int)
    requires
        a.standing(),
        a.fits(),
        0 <= i < a.graph.outputs.len(),
        a.graph.outputs.len() > 1,
    ensures
        a.delete_output(i).standing(),
{
    let g = a.graph;
    let id = g.outputs[i].id;
    let h = g.remove_output(id);
    let n = g.wires.len() as int;
    let total = g.outputs.len() as int;
    let left = without::<OutputNode>(g.outputs, id, total);
    remove_output_keeps_well_formed(g, id);
    removing_nodes_keeps_one_wire_per_slot(g, id);
    lemma_without::<OutputNode>(g.outputs, id, g.next_id, total);
    lemma_without_len::<OutputNode>(g.outputs, id, total);
    let other = if i == 0 {
        1int
    } else {
        0int
    };
    assert(OutputNode::tag(g.outputs[0]) != OutputNode::tag(g.outputs[1])
        && OutputNode::tag(g.outputs[other]) != id);
    assert(left.contains(g.outputs[other]));
    assert forall|m: NodeId| has_output(g, m) && m != id implies #[trigger] has_output(h, m) by {
        let k = choose|k: int| 0 <= k < g.outputs.len() && (#[trigger] g.outputs[k]).id == m;
        assert(left.contains(g.outputs[k]));
        let j = choose|j: int| 0 <= j < left.len() && left[j] == g.outputs[k];
        assert(h.outputs[j].id == m);
    }
    assert forall|e: Endpoint| endpoint_ok(g, e) implies #[trigger] endpoint_ok(h, e) by {
        assert(h.inputs == g.inputs && h.modifiers == g.modifiers);
    }
    assert forall|t: Target| target_ok(g, t) && t != Target::Output(id) && t
        != Target::OutputChapters(id) implies #[trigger] target_ok(h, t) by {
        assert(h.modifiers == g.modifiers);
    }
    lemma_kept(g.wires, |w: Wire| !touches_output(w, id), n);
    lemma_kept_distinct(g.wires, |w: Wire| !touches_output(w, id), n);
    assert(g.wires.take(n) == g.wires);
    assert(graph_sound(h));
    let b = a.with_graph(h).say("removed output: "@ + g.outputs[i].path);
    lemma_focus(
        b,
        at_most(h.inputs.len() + h.modifiers.len() + i, before_last(b.node_count())),
    );
}

proof fn lemma_delete(a: AppView)
    requires
        a.standing(),
        a.fits(),
    ensures
        a.delete_focused_node().standing(),
{
    match a.focus {
        Focus::Input(i) => {
            lemma_delete_input(a, i as int);
        },
        Focus::Modifier(i) => {
            lemma_delete_modifier(a, i as int);
        },
        Focus::Output(i) => {
            if a.graph.outputs.len() > 1 {
                lemma_delete_output(a, i as int);
            }
        },
    }
}

proof fn lemma_connect_upto(a: AppView, sources: Seq<Endpoint>, to: Target, n: int)
    requires
        a.standing(),
        0 <= n <= sources.len(),
        forall|e: Endpoint| #[trigger] sources.contains(e) ==> endpoint_ok(a.graph, e),
        target_ok(a.graph, to),
    ensures
        a.with_graph(connect_upto(a.graph, sources, to, n)).standing(),
        forall|e: Endpoint| #[trigger]
            endpoint_ok(connect_upto(a.graph, sources, to, n), e) <==> endpoint_ok(a.graph, e),
        forall|t: Target| #[trigger]
            target_ok(connect_upto(a.graph, sources, to, n), t) <==> target_ok(a.graph, t),
    decreases n,
{
    if n > 0 {
        lemma_connect_upto(a, sources, to, n - 1);
        let b = a.with_graph(connect_upto(a.graph, sources, to, n - 1));
        assert(sources.contains(sources[n - 1]));
        lemma_connect(b, sources[n - 1], to);
        assert(b.with_graph(b.graph.connect(sources[n - 1], to)) == a.with_graph(
            connect_upto(a.graph, sources, to, n),
        ));
    } else {
        assert(a.with_graph(a.graph) == a);
    }
}

/// What feeds a target is there.
pub proof fn lemma_feeds_exist(g: GraphView, to: Target)
    requires
        graph_sound(g),
        g.wires.len() <= usize::MAX,
    ensures
        forall|e: Endpoint| #[trigger] feeds(g.wires, to).contains(e) ==> endpoint_ok(g, e),
        feed(g.wires, to) matches Some(e) ==> endpoint_ok(g, e),
{
    let at = incoming_spec(g.wires, to);
    lemma_incoming_range(g.wires, to, g.wires.len() as int);
    let s = feeds(g.wires, to);
    assert forall|e: Endpoint| #[trigger] s.contains(e) implies endpoint_ok(g, e) by {
        let k = choose|k: int| 0 <= k < s.len() && s[k] == e;
        assert(g.wires.contains(g.wires[at[k] as int]));
    }
    lemma_feed_found(g.wires, to, 0);
    if let Some(e) = feed(g.wires, to) {
        let k = choose|k: int| 0 <= k < g.wires.len() && (#[trigger] g.wires[k]).from == e;
        assert(g.wires.contains(g.wires[k]));
    }
}

proof fn lemma_incoming_range(wires: Seq<Wire>, to: Target, n: int)
    requires
        0 <= n <= wires.len(),
        wires.len() <= usize::MAX,
    ensures
        forall|i: int|
            0 <= i < incoming_upto(wires, to, n).len() ==> #[trigger] incoming_upto(
                wires,
                to,
                n,
            )[i] < n,
    decreases n,
{
    if n > 0 {
        lemma_incoming_range(wires, to, n - 1);
        let p = incoming_upto(wires, to, n - 1);
        let q = incoming_upto(wires, to, n);
        assert forall|i: int| 0 <= i < q.len() implies #[trigger] q[i] < n by {
            if i < p.len() {
                assert(q[i] == p[i]);
            }
        }
    }
}

proof fn lemma_feed_found(wires: Seq<Wire>, to: Target, i: int)
    requires
        0 <= i,
    ensures
        feed_from(wires, to, i) matches Some(e) ==> exists|k: int|
            0 <= k < wires.len() && (#[trigger] wires[k]).from == e,
    decreases wires.len() - i,
{
    if i < wires.len() && wires[i].to != to {
        lemma_feed_found(wires, to, i + 1);
    }
}

proof fn lemma_duplicate_input(a: AppView, i: int)
    requires
        a.standing(),
        a.fits(),
        0 <= i < a.graph.inputs.len(),
    ensures
        a.with_graph(a.graph.duplicate_input(i)).standing(),
        a.graph.duplicate_input(i).inputs.len() == a.graph.inputs.len() + 1,
        a.graph.duplicate_input(i).modifiers.len() == a.graph.modifiers.len(),
        a.graph.duplicate_input(i).outputs.len() == a.graph.outputs.len(),
{
    let g = a.graph;
    let node = g.inputs[i];
    let streams = media_streams(node.streams);
    lemma_media_kinds(node.streams, node.streams.len() as int);
    lemma_add_input(a, node.path, streams, node.chapters);
    let h = g.add_input(node.path, streams, node.chapters);
    lemma_position::<InputNode>(h.inputs, g.next_id);
    let b = a.with_graph(h);
    lemma_bones(b, g.duplicate_input(i));
    assert(b.with_graph(g.duplicate_input(i)) == a.with_graph(g.duplicate_input(i)));
}

proof fn lemma_duplicate_modifier(a: AppView, i: int)
    requires
        a.standing(),
        a.fits(),
        0 <= i < a.graph.modifiers.len(),
    ensures
        a.with_graph(a.graph.duplicate_modifier(i)).standing(),
        a.graph.duplicate_modifier(i).inputs.len() == a.graph.inputs.len(),
        a.graph.duplicate_modifier(i).modifiers.len() == a.graph.modifiers.len() + 1,
        a.graph.duplicate_modifier(i).outputs.len() == a.graph.outputs.len(),
{
    let g = a.graph;
    let node = g.modifiers[i];
    lemma_add_modifier(a, node.kind);
    let h = g.add_modifier(node.kind);
    lemma_position::<ModifierNode>(h.modifiers, g.next_id);
    let placed = match h.modifier_at(g.next_id) {
        Some(k) => h.set_modifier(
            k,
            ModifierView { pos: beside(node.pos), width: node.width, ..h.modifiers[k] },
        ),
        None => h,
    };
    let b = a.with_graph(h);
    lemma_bones(b, placed);
    lemma_bones_nodes(h, placed);
    let c = b.with_graph(placed);
    lemma_feeds_exist(g, Target::ModifierIn(node.id));
    let sources = feeds(g.wires, Target::ModifierIn(node.id));
    assert(target_ok(h, Target::ModifierIn(g.next_id)));
    assert(target_ok(placed, Target::ModifierIn(g.next_id)));
    assert forall|e: Endpoint| #[trigger] sources.contains(e) implies endpoint_ok(placed, e) by {
        assert(endpoint_ok(h, e));
    }
    lemma_connect_upto(c, sources, Target::ModifierIn(g.next_id), sources.len() as int);
    lemma_connect_keeps_nodes(
        placed,
        sources,
        Target::ModifierIn(g.next_id),
        sources.len() as int,
    );
    assert(c.with_graph(g.duplicate_modifier(i)) == a.with_graph(g.duplicate_modifier(i)));
}

proof fn lemma_duplicate_output(a: AppView, i: int)
    requires
        a.standing(),
        a.fits(),
        0 <= i < a.graph.outputs.len(),
    ensures
        a.with_graph(a.graph.duplicate_output(i)).standing(),
        a.graph.duplicate_output(i).inputs.len() == a.graph.inputs.len(),
        a.graph.duplicate_output(i).modifiers.len() == a.graph.modifiers.len(),
        a.graph.duplicate_output(i).outputs.len() == a.graph.outputs.len() + 1,
{
    let g = a.graph;
    let node = g.outputs[i];
    lemma_add_output(a);
    let h = g.add_output();
    lemma_position::<OutputNode>(h.outputs, g.next_id);
    let placed = match h.output_at(g.next_id) {
        Some(k) => h.set_output(
            k,
            OutputView {
                path: copied_path(node.path, output_paths(g.outputs)),
                container: node.container,
                extra_args: node.extra_args,
                pos: beside(node.pos),
                width: node.width,
                ..h.outputs[k]
            },
        ),
        None => h,
    };
    let b = a.with_graph(h);
    lemma_bones(b, placed);
    lemma_bones_nodes(h, placed);
    let c = b.with_graph(placed);
    lemma_feeds_exist(g, Target::Output(node.id));
    lemma_feeds_exist(g, Target::OutputChapters(node.id));
    let sources = feeds(g.wires, Target::Output(node.id));
    assert(target_ok(h, Target::Output(g.next_id)));
    assert(target_ok(h, Target::OutputChapters(g.next_id)));
    assert(target_ok(placed, Target::Output(g.next_id)));
    assert(target_ok(placed, Target::OutputChapters(g.next_id)));
    assert forall|e: Endpoint| #[trigger] sources.contains(e) implies endpoint_ok(placed, e) by {
        assert(endpoint_ok(h, e));
    }
    let n = sources.len() as int;
    lemma_connect_upto(c, sources, Target::Output(g.next_id), n);
    lemma_connect_keeps_nodes(placed, sources, Target::Output(g.next_id), n);
    let wired = connect_all(placed, sources, Target::Output(g.next_id));
    let d = c.with_graph(wired);
    if let Some(from) = feed(g.wires, Target::OutputChapters(node.id)) {
        assert(endpoint_ok(h, from));
        assert(endpoint_ok(placed, from));
        assert(endpoint_ok(wired, from));
        assert(target_ok(wired, Target::OutputChapters(g.next_id)));
        lemma_connect(d, from, Target::OutputChapters(g.next_id));
    }
    assert(d.with_graph(g.duplicate_output(i)) == a.with_graph(g.duplicate_output(i)));
}

proof fn lemma_duplicate(a: AppView)
    requires
        a.standing(),
        a.fits(),
    ensures
        a.duplicate_focused_node().standing(),
{
    match a.focus {
        Focus::Input(i) => {
            lemma_duplicate_input(a, i as int);
            let b = a.with_graph(a.graph.duplicate_input(i as int));
            lemma_focus(b, b.graph.inputs.len() - 1);
        },
        Focus::Modifier(i) => {
            lemma_duplicate_modifier(a, i as int);
            let b = a.with_graph(a.graph.duplicate_modifier(i as int));
            lemma_focus(b, b.graph.inputs.len() + b.graph.modifiers.len() - 1);
        },
        Focus::Output(i) => {
            lemma_duplicate_output(a, i as int);
            let b = a.with_graph(a.graph.duplicate_output(i as int));
            lemma_focus(b, b.node_count() - 1);
        },
    }
}

// ---------------------------------------------------------------------
// Connecting and disconnecting
// ---------------------------------------------------------------------

proof fn lemma_joining(j: Joining, mid: NodeId, sources: Seq<Endpoint>, n: int)
    requires
        j.app.standing(),
        0 <= n <= sources.len(),
        has_modifier(j.app.graph, mid),
        forall|e: Endpoint| #[trigger] sources.contains(e) ==> endpoint_ok(j.app.graph, e),
    ensures
        j.upto(mid, sources, n).app.standing(),
        j.upto(mid, sources, n).app.mode == j.app.mode,
        forall|e: Endpoint| #[trigger]
            endpoint_ok(j.upto(mid, sources, n).app.graph, e) <==> endpoint_ok(j.app.graph, e),
        forall|t: Target| #[trigger]
            target_ok(j.upto(mid, sources, n).app.graph, t) <==> target_ok(j.app.graph, t),
    decreases n,
{
    if n > 0 {
        lemma_joining(j, mid, sources, n - 1);
        let p = j.upto(mid, sources, n - 1);
        assert(sources.contains(sources[n - 1]));
        assert(target_ok(j.app.graph, Target::ModifierIn(mid)));
        assert(target_ok(p.app.graph, Target::ModifierIn(mid)));
        lemma_connect(p.app, sources[n - 1], Target::ModifierIn(mid));
    }
}

proof fn lemma_into_output(a: AppView, sources: Seq<Endpoint>, output: NodeId, n: int)
    requires
        a.standing(),
        0 <= n <= sources.len(),
        has_output(a.graph, output),
        forall|e: Endpoint| #[trigger] sources.contains(e) ==> endpoint_ok(a.graph, e),
    ensures
        a.with_graph(into_output_upto(a.graph, sources, output, n)).standing(),
        forall|e: Endpoint| #[trigger]
            endpoint_ok(into_output_upto(a.graph, sources, output, n), e) <==> endpoint_ok(
                a.graph,
                e,
            ),
        forall|t: Target| #[trigger]
            target_ok(into_output_upto(a.graph, sources, output, n), t) <==> target_ok(a.graph, t),
    decreases n,
{
    if n > 0 {
        lemma_into_output(a, sources, output, n - 1);
        let h = into_output_upto(a.graph, sources, output, n - 1);
        let b = a.with_graph(h);
        let to = output_slot(h, sources[n - 1], output);
        assert(sources.contains(sources[n - 1]));
        assert(target_ok(a.graph, to));
        assert(target_ok(h, to));
        lemma_connect(b, sources[n - 1], to);
        assert(b.with_graph(h.connect(sources[n - 1], to)) == a.with_graph(
            into_output_upto(a.graph, sources, output, n),
        ));
    } else {
        assert(a.with_graph(a.graph) == a);
    }
}

proof fn lemma_toggle_connect(a: AppView)
    requires
        a.standing(),
    ensures
        a.toggle_connect().standing(),
{
    let a = a.unanchored();
    let g = a.graph;
    match a.focus {
        Focus::Input(i) => {
            let node = g.inputs[i as int];
            let e = Endpoint::Stream { node: node.id, stream_idx: a.row_idx };
            if (a.row_idx as int) < node.streams.len() {
                assert(g.inputs[i as int].id == node.id);
                assert(endpoint_ok(g, e));
                lemma_one_port(g, e);
            }
        },
        Focus::Modifier(i) => {
            let m = g.modifiers[i as int];
            assert(g.modifiers[i as int].id == m.id);
            assert(has_modifier(g, m.id));
            lemma_one_port(g, Endpoint::ModifierOut(m.id));
            let bare = AppView { armed: Seq::empty(), ..a };
            assert(bare.standing());
            let start = Joining {
                app: bare,
                kind: first_kind(g, feeds(g.wires, Target::ModifierIn(m.id)), 0),
                connected: 0,
            };
            lemma_joining(start, m.id, a.armed, a.armed.len() as int);
            if a.armed.len() == 1 {
                let source = a.armed[0];
                assert(a.armed.contains(source));
                lemma_connect(bare, source, Target::ModifierIn(m.id));
                let b = bare.with_graph(g.connect(source, Target::ModifierIn(m.id)));
                lemma_sync(b, m.id);
            }
        },
        Focus::Output(i) => {
            let id = g.outputs[i as int].id;
            assert(has_output(g, id));
            let bare = AppView { armed: Seq::empty(), ..a };
            assert(bare.standing());
            lemma_into_output(bare, a.armed, id, a.armed.len() as int);
        },
    }
}

proof fn lemma_disconnect(a: AppView)
    requires
        a.standing(),
    ensures
        a.disconnect_focused().standing(),
{
    let a = a.unanchored();
    let g = a.graph;
    match a.focus {
        Focus::Input(i) => {
            let node = g.inputs[i as int];
            let ports = if a.selected.len() > 0 {
                a.selected
            } else {
                seq![Endpoint::Stream { node: node.id, stream_idx: a.row_idx }]
            };
            let bare = if a.selected.len() > 0 {
                AppView { selected: Seq::empty(), ..a }
            } else {
                a
            };
            assert(bare.standing());
            lemma_cut(bare, ports);
            let b = bare.with_graph(
                GraphView { wires: wires_off_ports(g.wires, ports, g.wires.len() as int), ..g },
            );
            let affected = fed_by_ports(g, ports, g.wires.len() as int);
            lemma_sync_upto(b, affected, affected.len() as int);
        },
        Focus::Modifier(i) => {
            let m = g.modifiers[i as int];
            let segments = if m.kind == KindView::Concat {
                incoming_spec(g.wires, Target::ModifierIn(m.id))
            } else {
                Seq::empty()
            };
            let row = a.row_idx - segments.len();
            if row < 0 {
                lemma_remove_wire(a, segments[a.row_idx as int] as int);
            } else {
                lemma_remove_wire(a, outgoing_spec(g.wires, Endpoint::ModifierOut(m.id))[row] as int);
            }
        },
        Focus::Output(i) => {
            let id = g.outputs[i as int].id;
            lemma_remove_wire(a, incoming_spec(g.wires, Target::Output(id))[a.row_idx as int] as int);
            lemma_remove_wire(a, incoming_spec(g.wires, Target::OutputChapters(id))[0] as int);
        },
    }
}

proof fn lemma_move_row(a: AppView, forward: bool)
    requires
        a.standing(),
        a.fits(),
    ensures
        a.move_focused_row(forward).standing(),
{
    let g = a.graph;
    let n = g.wires.len() as int;
    let rows = a.movable_rows();
    match a.focus {
        Focus::Output(i) => {
            lemma_incoming_range(g.wires, Target::Output(g.outputs[i as int].id), n);
        },
        Focus::Modifier(i) => {
            lemma_incoming_range(g.wires, Target::ModifierIn(g.modifiers[i as int].id), n);
        },
        Focus::Input(_) => {},
    }
    let row = a.row_idx as int;
    let to = if forward {
        row + 1
    } else {
        row - 1
    };
    if row < rows.len() && 0 <= to < rows.len() {
        lemma_swap(a, rows[row] as int, rows[to] as int);
    }
}

// ---------------------------------------------------------------------
// Pickers, lines and tables
// ---------------------------------------------------------------------

proof fn lemma_choose_entry(a: AppView, kind: PickerKindView, value: Option<Seq<char>>)
    requires
        a.standing(),
        a.fits(),
        kind matches PickerKindView::Codec { modifier } ==> (a.graph.modifier(modifier) matches Some(
            m,
        ) && m.kind is Convert),
    ensures
        a.choose_entry(kind, value).0.standing(),
{
    match kind {
        PickerKindView::Codec { modifier } => {
            let codec = match value {
                None => CodecView::Copy,
                Some(name) => CodecView::Encode(name),
            };
            lemma_set_kind(a, modifier, KindView::Convert(codec));
        },
        PickerKindView::Container { output } => {
            if let Some(i) = a.graph.output_at(output) {
                let node = a.graph.outputs[i];
                lemma_set_output(a, output, OutputView { container: None, ..node });
                if let Some(name) = value {
                    let path = path_for_container(node.path, name);
                    lemma_set_output(a, output, OutputView { container: value, path, ..node });
                }
            }
        },
        PickerKindView::NewNode => {
            lemma_add_output(a);
            let b = a.with_graph(a.graph.add_output());
            lemma_focus(b, b.node_count() - 1);
            let (kind, name) = new_modifier(value);
            lemma_add_modifier(a, kind);
            let c = a.with_graph(a.graph.add_modifier(kind));
            lemma_focus(c, c.node_count() - c.graph.outputs.len() - 1);
        },
        PickerKindView::FilterFieldValue { modifier, key } => {
            if let Some(m) = stored(a.graph, Store::Filter(modifier)) {
                lemma_set_stored(a, Store::Filter(modifier), field_unset(m, key));
                if let Some(v) = value {
                    lemma_set_stored(a, Store::Filter(modifier), field_set(m, key, v));
                }
            }
        },
        _ => {},
    }
}

proof fn lemma_picker_confirm(a: AppView)
    requires
        a.sound(),
        a.fits(),
    ensures
        a.picker_confirm().0.standing(),
{
    if let ModeView::Picker { kind, title, options, selected, query, searching } = a.mode {
        let at = filtered(options, query);
        if (selected as int) < at.len() {
            let value = options[at[selected as int] as int].value;
            lemma_choose_entry(a.enter(ModeView::Normal), kind, value);
            if let Some(text) = value {
                if let PickerKindView::DispositionFlags { modifier } = kind {
                    if let Some(flags) = flags_of(a.graph, modifier) {
                        lemma_set_kind(
                            a,
                            modifier,
                            KindView::Disposition { flags: flag_toggle(flags, text) },
                        );
                    }
                }
                if let PickerKindView::ExtraArgField { target } = kind {
                    if let Some(m) = extra_args(a.graph, target) {
                        lemma_set_extra_args(a, target, field_unset(m, text));
                        lemma_set_extra_args(a, target, field_set(m, text, Seq::empty()));
                    }
                }
            }
        }
    }
}

proof fn lemma_change(a: AppView, at: Store, key: Seq<char>, value: Seq<char>)
    requires
        a.standing(),
    ensures
        a.change(at, key, value).standing(),
{
    if let Some(m) = stored(a.graph, at) {
        lemma_set_stored(a, at, put(m, key, value));
    }
}

proof fn lemma_confirm_line(
    a: AppView,
    target: TargetView,
    text: Seq<char>,
    home: Option<Seq<char>>,
    parsed: Option<SecondsView>,
)
    requires
        a.standing(),
    ensures
        a.confirm_line(target, text, home, parsed).0.standing(),
{
    let path = clean_path(text, home);
    let value = trim_spec(text);
    match target {
        TargetView::OutputPath(id) => {
            if let Some(i) = a.graph.output_at(id) {
                lemma_set_output(a, id, OutputView { path, ..a.graph.outputs[i] });
            }
        },
        TargetView::ModifierMetadataValue { modifier, key } => {
            lemma_change(a, Store::Metadata(modifier), key, value);
        },
        TargetView::ModifierFilterValue { modifier, key } => {
            let at = Store::Filter(modifier);
            lemma_change(a, at, key, value);
            if let Some(m) = stored(a.graph, at) {
                if let Some(t) = parsed {
                    lemma_set_stored(a, at, field_set(m, key, t.text));
                }
            }
        },
        TargetView::ExtraArgValue { target, key } => {
            lemma_change(a, Store::ExtraArgs(target), key, value);
        },
        TargetView::ChapterTime { modifier, index, field } => {
            if let (Some(t), Some(cs)) = (parsed, edit_chapters(a.graph, modifier)) {
                let c = match field {
                    ChapterTimeField::Start => ChapterView { start_secs: t, ..cs[index as int] },
                    ChapterTimeField::End => ChapterView { end_secs: t, ..cs[index as int] },
                };
                lemma_set_chapters(a, modifier, cs.update(index as int, c));
            }
        },
        TargetView::ChapterTitle { modifier, index } => {
            if let Some(cs) = edit_chapters(a.graph, modifier) {
                lemma_set_chapters(
                    a,
                    modifier,
                    cs.update(index as int, ChapterView { title: value, ..cs[index as int] }),
                );
            }
        },
        _ => {},
    }
}

proof fn lemma_table_key(a: AppView, key: Key)
    requires
        a.standing(),
    ensures
        a.table_key(key).standing(),
{
    if let ModeView::ChapterTable { modifier, row, .. } = a.mode {
        if let Some(cs) = edit_chapters(a.graph, modifier) {
            let start = if cs.len() > 0 {
                cs.last().end_secs
            } else {
                SecondsView::zero()
            };
            lemma_set_chapters(
                a,
                modifier,
                cs.push(
                    ChapterView {
                        start_secs: start,
                        end_secs: start,
                        title: Seq::empty(),
                        imported: false,
                    },
                ),
            );
            lemma_set_chapters(a, modifier, cs.remove(row as int));
        }
    }
}

proof fn lemma_move(a: AppView, dx: int, dy: int)
    requires
        a.standing(),
    ensures
        a.move_focused_node(dx, dy).standing(),
{
    if let Some((pos, width)) = a.focused_shape() {
        lemma_reshape(a, (moved(pos.0, dx), moved(pos.1, dy)), width);
    }
}

proof fn lemma_resize(a: AppView, grow: bool)
    requires
        a.standing(),
    ensures
        a.resize_focused_node(grow).standing(),
{
    if let Some((pos, width)) = a.focused_shape() {
        lemma_reshape(a, pos, resized(width, grow));
    }
}

proof fn lemma_opening(a: AppView)
    requires
        a.standing(),
    ensures
        a.open_add_node_picker().standing(),
        a.start_edit_output().0.standing(),
        a.activate_focused().standing(),
        a.open_container_picker().standing(),
{
}

proof fn lemma_starting(a: AppView)
    requires
        a.standing(),
    ensures
        a.start_render().0.standing(),
        a.start_preview().0.standing(),
        a.start_scrub().0.standing(),
        a.start_save_project().0.standing(),
        a.start_load_project().0.standing(),
{
}

#[verifier::spinoff_prover]
proof fn lemma_graph_char(a: AppView, c: char, control: bool)
    requires
        a.standing(),
        a.fits(),
    ensures
        a.graph_char(c, control).0.standing(),
{
    if c == ' ' {
        lemma_toggle_port(a);
    } else if c == 'a' && control {
        lemma_select_all(a);
    } else if c == 'h' {
        lemma_move(a, -1, 0);
    } else if c == 'l' {
        lemma_move(a, 1, 0);
    } else if c == 'k' {
        lemma_move(a, 0, -1);
    } else if c == 'j' {
        lemma_move(a, 0, 1);
    } else if c == 'c' {
        lemma_toggle_connect(a);
    } else if c == 'd' {
        lemma_disconnect(a);
    } else if c == 'x' {
        lemma_delete(a);
    } else if c == 'y' {
        lemma_duplicate(a);
    } else {
        lemma_opening(a);
        lemma_starting(a);
    }
}

proof fn lemma_graph_key(a: AppView, key: Key)
    requires
        a.standing(),
        a.fits(),
    ensures
        a.graph_key(key).0.standing(),
{
    match key.code {
        KeyCode::Tab => {
            lemma_cycle_focus(a, true);
        },
        KeyCode::BackTab => {
            lemma_cycle_focus(a, false);
        },
        KeyCode::Up => {
            lemma_move_row(a, false);
            lemma_extend(a, false);
            lemma_cycle_row(a, false);
        },
        KeyCode::Down => {
            lemma_move_row(a, true);
            lemma_extend(a, true);
            lemma_cycle_row(a, true);
        },
        KeyCode::Left => {
            lemma_resize(a, false);
        },
        KeyCode::Right => {
            lemma_resize(a, true);
        },
        KeyCode::Char(c) => {
            lemma_graph_char(a, c, key.control_spec());
        },
        _ => {},
    }
}

proof fn lemma_cycle_focus(a: AppView, forward: bool)
    requires
        a.standing(),
        a.fits(),
    ensures
        a.cycle_focus(forward).standing(),
{
    let n = a.node_count();
    let cur = a.focus_index();
    vstd::arithmetic::div_mod::lemma_mod_bound(cur + 1, n);
    vstd::arithmetic::div_mod::lemma_mod_bound(cur + n - 1, n);
    lemma_focus(a, stepped(cur, n, forward));
}

// ---------------------------------------------------------------------
// What the open picker is about
// ---------------------------------------------------------------------

proof fn lemma_picker_opened(a: AppView)
    requires
        a.standing(),
        a.mode is Normal,
    ensures
        a.activate_focused().picker_sound(),
{
    if let Focus::Modifier(i) = a.focus {
        let g = a.graph;
        let m = g.modifiers[i as int];
        lemma_position::<ModifierNode>(g.modifiers, m.id);
        let k = g.modifier_at(m.id)->0;
        assert(ModifierNode::tag(g.modifiers[i as int]) == m.id);
        if k < i {
            assert(ModifierNode::tag(g.modifiers[k]) != ModifierNode::tag(g.modifiers[i as int]));
        }
        assert(g.modifier(m.id) == Some(m));
    }
}

proof fn lemma_connect_mode(a: AppView)
    requires
        a.standing(),
    ensures
        a.toggle_connect().mode == a.mode,
{
    let a = a.unanchored();
    if let Focus::Modifier(i) = a.focus {
        let g = a.graph;
        let m = g.modifiers[i as int];
        assert(has_modifier(g, m.id));
        let start = Joining {
            app: AppView { armed: Seq::empty(), ..a },
            kind: first_kind(g, feeds(g.wires, Target::ModifierIn(m.id)), 0),
            connected: 0,
        };
        lemma_joining(start, m.id, a.armed, a.armed.len() as int);
    }
}

#[verifier::spinoff_prover]
proof fn lemma_char_mode(a: AppView, c: char, control: bool)
    requires
        a.standing(),
        a.mode is Normal,
    ensures
        a.graph_char(c, control).0.picker_sound(),
{
    if c == 'c' {
        lemma_connect_mode(a);
    } else if c == 'e' {
        lemma_picker_opened(a);
    }
}

proof fn lemma_filter_set(a: AppView, id: NodeId, m: Seq<Entry>)
    requires
        a.picker_sound(),
        stored(a.graph, Store::Filter(id)) is Some,
    ensures
        a.with_graph(set_stored(a.graph, Store::Filter(id), m)).picker_sound(),
{
    if let ModeView::Picker { kind: PickerKindView::Codec { modifier }, .. } = a.mode {
        let g = a.graph;
        let h = set_stored(g, Store::Filter(id), m);
        lemma_position::<ModifierNode>(g.modifiers, id);
        lemma_position::<ModifierNode>(g.modifiers, modifier);
        lemma_position::<ModifierNode>(h.modifiers, modifier);
        let k = g.modifier_at(modifier)->0;
        assert(h.modifiers[k] == g.modifiers[k]);
        let q = h.modifier_at(modifier)->0;
        if q < k {
            assert(ModifierNode::tag(g.modifiers[q]) == modifier);
        }
    }
}

#[verifier::spinoff_prover]
proof fn lemma_key_mode(a: AppView, key: Key)
    requires
        a.standing(),
        a.mode is Normal,
    ensures
        a.graph_key(key).0.picker_sound(),
{
    if let KeyCode::Char(c) = key.code {
        lemma_char_mode(a, c, key.control_spec());
    }
}

#[verifier::spinoff_prover]
proof fn lemma_keys_standing(
    a: AppView,
    key: Key,
    home: Option<Seq<char>>,
    parsed: Option<SecondsView>,
)
    requires
        a.sound(),
        a.fits(),
    ensures
        a.handle_key(key, home, parsed) matches Some((b, _)) ==> b.standing(),
{
    let a = a.settled(key);
    match a.mode {
        ModeView::TextInput { target, line, .. } => {
            lemma_confirm_line(a.enter(ModeView::Normal), target, line.text, home, parsed);
        },
        ModeView::Picker { .. } => {
            lemma_picker_confirm(a);
        },
        ModeView::ChapterTable { .. } => {
            lemma_table_key(a, key);
        },
        ModeView::Normal => {
            lemma_graph_key(a, key);
        },
        ModeView::Scrub => {},
    }
}

#[verifier::spinoff_prover]
proof fn lemma_keys_picker(
    a: AppView,
    key: Key,
    home: Option<Seq<char>>,
    parsed: Option<SecondsView>,
)
    requires
        a.sound(),
        a.fits(),
    ensures
        a.handle_key(key, home, parsed) matches Some((b, _)) ==> b.picker_sound(),
{
    let a = a.settled(key);
    if a.mode is Normal {
        lemma_key_mode(a, key);
    }
}

// ---------------------------------------------------------------------
// The laws
// ---------------------------------------------------------------------

/// The editor starts in a sound state.
pub proof fn editor_starts_sound(
    encoders: Seq<(Seq<char>, StreamKind)>,
    muxers: Seq<Seq<char>>,
    has_teletext_decoder: bool,
)
    ensures
        initial(encoders, muxers, has_teletext_decoder).sound(),
{
    crate::graph::laws::new_graph_is_well_formed();
}

/// No key makes the editor unsound: there always is an output, the focus is
/// always on a node, no wire hangs loose, no slot for one wire holds two, and
/// nothing is armed or selected that is not there.
pub proof fn keys_keep_the_editor_sound(
    a: AppView,
    key: Key,
    home: Option<Seq<char>>,
    parsed: Option<SecondsView>,
)
    requires
        a.sound(),
        a.fits(),
    ensures
        a.handle_key(key, home, parsed) matches Some((b, _)) ==> b.sound(),
{
    lemma_keys_standing(a, key, home, parsed);
    lemma_keys_picker(a, key, home, parsed);
}

/// Duplicating a node, of whichever kind, puts no second wire into a slot for
/// one: neither into those that were there nor into those of the duplicate.
pub proof fn duplicating_keeps_one_wire_per_slot(a: AppView, i: int)
    requires
        a.sound(),
        a.fits(),
    ensures
        0 <= i < a.graph.inputs.len() ==> a.graph.duplicate_input(i).one_wire_per_slot(),
        0 <= i < a.graph.modifiers.len() ==> a.graph.duplicate_modifier(i).one_wire_per_slot(),
        0 <= i < a.graph.outputs.len() ==> a.graph.duplicate_output(i).one_wire_per_slot(),
{
    if 0 <= i < a.graph.inputs.len() {
        lemma_duplicate_input(a, i);
    }
    if 0 <= i < a.graph.modifiers.len() {
        lemma_duplicate_modifier(a, i);
    }
    if 0 <= i < a.graph.outputs.len() {
        lemma_duplicate_output(a, i);
    }
}

/// Nor does a key that the line editor takes make it unsound: it changes the
/// line alone.
pub proof fn typing_changes_the_line_alone(a: AppView, key: Key, b: AppView, request: RequestView)
    requires
        a.keyed(key, b, request),
    ensures
        b == a.enter(b.mode),
        a.sound() ==> b.sound(),
{
    assert(b == a.enter(b.mode));
}

/// Adding a probed file keeps the editor sound.
pub proof fn probing_keeps_the_editor_sound(
    a: AppView,
    path: Seq<char>,
    result: Result<ProbeView, Seq<char>>,
)
    requires
        a.sound(),
        a.fits(),
        result matches Ok(probe) ==> forall|i: int|
            0 <= i < probe.streams.len() ==> (#[trigger] probe.streams[i]).kind
                != StreamKind::Chapter,
    ensures
        a.input_probed(path, result).sound(),
{
    if let Ok(probe) = result {
        lemma_add_input(a, path, probe.streams, probe.chapters);
        let b = a.with_graph(a.graph.add_input(path, probe.streams, probe.chapters));
        let c = b.say("added input: "@ + path);
        let d = c.say(
            "found "@ + decimal(probe.chapters.len()) + " chapter(s) in "@ + path,
        );
        lemma_focus(c, c.graph.inputs.len() - 1);
        lemma_focus(d, d.graph.inputs.len() - 1);
    }
}

/// Whatever ffprobe reports, none of the streams is taken for a chapter list.
pub proof fn probed_streams_are_media(streams: Seq<ProbeStreamView>, chapters: Seq<ProbeChapterView>)
    ensures
        forall|i: int|
            0 <= i < probed(streams, chapters).streams.len() ==> (#[trigger] probed(
                streams,
                chapters,
            ).streams[i]).kind != StreamKind::Chapter,
{
}

/// What comes back from outside keeps the editor sound: ffmpeg's output,
/// completions, how saving and playing went, and where a player is.
pub proof fn replies_keep_the_editor_sound(
    a: AppView,
    texts: Seq<Seq<char>>,
    path: Seq<char>,
    saved: Result<(), Seq<char>>,
    how: Playback,
    session: SessionView,
    field: Seq<char>,
    position: Result<SecondsView, Seq<char>>,
)
    requires
        a.sound(),
    ensures
        a.poll_ffmpeg(texts).sound(),
        a.suggestions_listed(texts).sound(),
        a.project_saved(path, saved).sound(),
        a.play_preview(how, path).sound(),
        a.playback_failed(how, path).sound(),
        a.scrub_started(session).sound(),
        a.mark_scrub_point(field, position).sound(),
{
    if let Some(open) = a.scrub {
        if let Ok(t) = position {
            let at = Store::Filter(open.modifier_id);
            if let Some(m) = stored(a.graph, at) {
                lemma_set_stored(a, at, field_set(m, field, t.text));
                lemma_filter_set(a, open.modifier_id, field_set(m, field, t.text));
            }
        }
    }
}

/// Loading a project whose graph is sound makes the editor sound, and one that
/// could not be read leaves it so. No picker is open then.
pub proof fn loading_keeps_the_editor_sound(
    a: AppView,
    path: Seq<char>,
    result: Result<LoadView, Seq<char>>,
)
    requires
        a.sound(),
        result matches Ok(l) ==> graph_sound(l.graph) && !(a.mode is Picker),
    ensures
        a.project_loaded(path, result).sound(),
{
}

} // verus!
