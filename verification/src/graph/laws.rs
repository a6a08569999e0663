//! What holds of graphs as a whole.
use vstd::prelude::*;

use super::args::entry_label;
use super::chapter::{digits_value, ChapterView};
use super::node::{InputNode, InputView, KindView, ModifierNode, OutputNode};
use super::project::{loaded, media_streams, media_streams_upto, saved, ProbeView};
use super::resolve::{feeds, resolve_spec, walk, ResolvedView, Settings, MAX_HOPS};
use super::stream::{CodecView, StreamKind, StreamView};
use super::wire::{from_input, Endpoint, NodeId, Target, Wire};
use super::{feed, feed_from, incoming_spec, incoming_upto, kept_upto, lemma_kept, touches_modifier, touches_output, wire_from, wires_off_modifier, wires_off_target, with_chapter_marker, without, GraphView, Identified};
use crate::fields::{ascending, field_fill, field_get, field_get_after_set, field_set_ascending, keys_of, Entry};
use crate::text::decimal;

verus! {

// ---------------------------------------------------------------------
// Well-formed graphs
// ---------------------------------------------------------------------

/// Ids of one kind of node are distinct and below `next`.
pub open spec fn ids_ok<T: Identified>(s: Seq<T::V>, next: NodeId) -> bool {
    &&& forall|i: int| 0 <= i < s.len() ==> T::tag(#[trigger] s[i]) < next
    &&& forall|i: int, j: int|
        0 <= i < j < s.len() ==> T::tag(#[trigger] s[i]) != T::tag(#[trigger] s[j])
}

/// An input's stream list is what was probed, with one entry for the chapters
/// exactly where it has chapters.
pub open spec fn streams_ok(n: InputView) -> bool {
    n.streams == with_chapter_marker(media_streams(n.streams), n.chapters.len() as int)
}

impl GraphView {
    /// Ids are distinct and never handed out again, inputs are numbered by
    /// position, and chapters are wireable exactly where there are any.
    pub open spec fn well_formed(self) -> bool {
        &&& ids_ok::<InputNode>(self.inputs, self.next_id)
        &&& ids_ok::<ModifierNode>(self.modifiers, self.next_id)
        &&& ids_ok::<OutputNode>(self.outputs, self.next_id)
        &&& forall|i: int|
            0 <= i < self.inputs.len() ==> (#[trigger] self.inputs[i]).file_index == i
        &&& forall|i: int| 0 <= i < self.inputs.len() ==> streams_ok(#[trigger] self.inputs[i])
    }
}

proof fn lemma_media_len(s: Seq<StreamView>, n: int)
    requires
        0 <= n <= s.len(),
        forall|i: int| 0 <= i < n ==> (#[trigger] s[i]).kind != StreamKind::Chapter,
    ensures
        media_streams_upto(s, n) == s.take(n),
    decreases n,
{
    if n > 0 {
        lemma_media_len(s, n - 1);
        assert(s.take(n) == s.take(n - 1).push(s[n - 1]));
    } else {
        assert(s.take(0) == Seq::<StreamView>::empty());
    }
}

proof fn lemma_media_prefix(a: Seq<StreamView>, b: Seq<StreamView>, n: int)
    requires
        0 <= n <= a.len(),
        n <= b.len(),
        forall|i: int| 0 <= i < n ==> a[i] == b[i],
    ensures
        media_streams_upto(a, n) == media_streams_upto(b, n),
    decreases n,
{
    if n > 0 {
        lemma_media_prefix(a, b, n - 1);
    }
}

/// What was probed comes back out of a stream list, whether or not an entry
/// for the chapters was added to it.
pub proof fn chapter_marker_is_removable(streams: Seq<StreamView>, chapters: int)
    requires
        0 <= chapters,
        forall|i: int| 0 <= i < streams.len() ==> (#[trigger] streams[i]).kind
            != StreamKind::Chapter,
    ensures
        media_streams(with_chapter_marker(streams, chapters)) == streams,
{
    let n = streams.len() as int;
    let t = with_chapter_marker(streams, chapters);
    lemma_media_len(streams, n);
    assert(streams.take(n) == streams);
    lemma_media_prefix(streams, t, n);
}

/// The streams that do not stand for chapters do not.
pub proof fn lemma_media_kinds(s: Seq<StreamView>, n: int)
    requires
        0 <= n <= s.len(),
    ensures
        forall|i: int|
            0 <= i < media_streams_upto(s, n).len() ==> (#[trigger] media_streams_upto(
                s,
                n,
            )[i]).kind != StreamKind::Chapter,
    decreases n,
{
    if n > 0 {
        lemma_media_kinds(s, n - 1);
    }
}

/// The new graph is well-formed.
pub proof fn new_graph_is_well_formed()
    ensures
        (GraphView {
            inputs: Seq::empty(),
            modifiers: Seq::empty(),
            outputs: Seq::empty(),
            wires: Seq::empty(),
            next_id: 1,
        }).add_output().well_formed(),
{
}

/// Adding an input keeps a graph well-formed.
pub proof fn add_input_keeps_well_formed(
    g: GraphView,
    path: Seq<char>,
    streams: Seq<StreamView>,
    chapters: Seq<ChapterView>,
)
    requires
        g.well_formed(),
        g.next_id < usize::MAX,
        g.inputs.len() <= usize::MAX,
        forall|i: int| 0 <= i < streams.len() ==> (#[trigger] streams[i]).kind
            != StreamKind::Chapter,
    ensures
        g.add_input(path, streams, chapters).well_formed(),
        g.input_at(g.next_id) is None,
{
    chapter_marker_is_removable(streams, chapters.len() as int);
    super::lemma_position::<InputNode>(g.inputs, g.next_id);
    let h = g.add_input(path, streams, chapters);
    let n = g.inputs.len() as int;
    assert forall|i: int| 0 <= i < h.inputs.len() implies streams_ok(#[trigger] h.inputs[i]) by {
        if i < n {
            assert(h.inputs[i] == g.inputs[i]);
        }
    }
}

/// Adding an output keeps a graph well-formed.
pub proof fn add_output_keeps_well_formed(g: GraphView)
    requires
        g.well_formed(),
        g.next_id < usize::MAX,
    ensures
        g.add_output().well_formed(),
        g.output_at(g.next_id) is None,
{
    super::lemma_position::<OutputNode>(g.outputs, g.next_id);
}

/// Adding a modifier keeps a graph well-formed.
pub proof fn add_modifier_keeps_well_formed(g: GraphView, kind: KindView)
    requires
        g.well_formed(),
        g.next_id < usize::MAX,
    ensures
        g.add_modifier(kind).well_formed(),
        g.modifier_at(g.next_id) is None,
{
    super::lemma_position::<ModifierNode>(g.modifiers, g.next_id);
}

pub proof fn lemma_without<T: Identified>(s: Seq<T::V>, id: NodeId, next: NodeId, n: int)
    requires
        0 <= n <= s.len(),
        ids_ok::<T>(s, next),
    ensures
        ids_ok::<T>(without::<T>(s, id, n), next),
        forall|i: int|
            #![trigger without::<T>(s, id, n)[i]]
            0 <= i < without::<T>(s, id, n).len() ==> exists|k: int|
                0 <= k < n && #[trigger] s[k] == without::<T>(s, id, n)[i] && T::tag(s[k]) != id,
        forall|k: int|
            0 <= k < n && T::tag(#[trigger] s[k]) != id ==> without::<T>(s, id, n).contains(s[k]),
    decreases n,
{
    if n > 0 {
        lemma_without::<T>(s, id, next, n - 1);
        let p = without::<T>(s, id, n - 1);
        let q = without::<T>(s, id, n);
        assert forall|i: int| #![trigger q[i]] 0 <= i < q.len() implies exists|k: int|
            0 <= k < n && #[trigger] s[k] == q[i] && T::tag(s[k]) != id by {
            if i < p.len() {
                let k = choose|k: int| 0 <= k < n - 1 && #[trigger] s[k] == p[i] && T::tag(s[k])
                    != id;
                assert(s[k] == q[i]);
            } else {
                assert(s[n - 1] == q[i]);
            }
        }
        assert forall|i: int, j: int| 0 <= i < j < q.len() implies T::tag(#[trigger] q[i])
            != T::tag(#[trigger] q[j]) by {
            if j == p.len() {
                let k = choose|k: int| 0 <= k < n - 1 && #[trigger] s[k] == p[i] && T::tag(s[k])
                    != id;
                assert(T::tag(s[k]) != T::tag(s[n - 1]));
            } else {
                assert(p[i] == q[i] && p[j] == q[j]);
            }
        }
        assert forall|k: int| 0 <= k < n && T::tag(#[trigger] s[k]) != id implies q.contains(
            s[k],
        ) by {
            if k < n - 1 {
                let i = choose|i: int| 0 <= i < p.len() && p[i] == s[k];
                assert(q[i] == s[k]);
            } else {
                assert(q[p.len() as int] == s[k]);
            }
        }
    }
}

/// Removing an input keeps a graph well-formed, its inputs numbered without a
/// gap.
pub proof fn remove_input_keeps_well_formed(g: GraphView, id: NodeId)
    requires
        g.well_formed(),
        g.inputs.len() <= usize::MAX,
    ensures
        g.remove_input(id).well_formed(),
        g.remove_input(id).input_at(id) is None,
{
    let n = g.inputs.len() as int;
    lemma_without::<InputNode>(g.inputs, id, g.next_id, n);
    let left = without::<InputNode>(g.inputs, id, n);
    let h = g.remove_input(id);
    assert(left.len() <= n) by {
        lemma_without_len::<InputNode>(g.inputs, id, n);
    }
    assert forall|i: int| 0 <= i < h.inputs.len() implies streams_ok(#[trigger] h.inputs[i]) by {
        let k = choose|k: int|
            0 <= k < n && #[trigger] g.inputs[k] == left[i] && InputNode::tag(g.inputs[k]) != id;
        assert(streams_ok(g.inputs[k]));
        assert(h.inputs[i].streams == left[i].streams);
    }
    assert forall|i: int| 0 <= i < h.inputs.len() implies InputNode::tag(#[trigger] h.inputs[i])
        < g.next_id && InputNode::tag(h.inputs[i]) != id by {
        assert(InputNode::tag(left[i]) < g.next_id);
        let k = choose|k: int|
            0 <= k < n && #[trigger] g.inputs[k] == left[i] && InputNode::tag(g.inputs[k]) != id;
    }
    assert forall|i: int, j: int| 0 <= i < j < h.inputs.len() implies InputNode::tag(
        #[trigger] h.inputs[i],
    ) != InputNode::tag(#[trigger] h.inputs[j]) by {
        assert(InputNode::tag(left[i]) != InputNode::tag(left[j]));
    }
    super::lemma_position::<InputNode>(h.inputs, id);
}

pub proof fn lemma_without_len<T: Identified>(s: Seq<T::V>, id: NodeId, n: int)
    requires
        0 <= n <= s.len(),
    ensures
        without::<T>(s, id, n).len() <= n,
    decreases n,
{
    if n > 0 {
        lemma_without_len::<T>(s, id, n - 1);
    }
}

/// Removing a modifier keeps a graph well-formed.
pub proof fn remove_modifier_keeps_well_formed(g: GraphView, id: NodeId)
    requires
        g.well_formed(),
    ensures
        g.remove_modifier(id).well_formed(),
        g.remove_modifier(id).modifier_at(id) is None,
{
    let n = g.modifiers.len() as int;
    lemma_without::<ModifierNode>(g.modifiers, id, g.next_id, n);
    let h = g.remove_modifier(id);
    super::lemma_position::<ModifierNode>(h.modifiers, id);
    if h.modifier_at(id) is Some {
        let i = h.modifier_at(id)->0;
        let k = choose|k: int|
            0 <= k < n && #[trigger] g.modifiers[k] == h.modifiers[i] && ModifierNode::tag(
                g.modifiers[k],
            ) != id;
        assert(false);
    }
}

/// Removing an output keeps a graph well-formed.
pub proof fn remove_output_keeps_well_formed(g: GraphView, id: NodeId)
    requires
        g.well_formed(),
    ensures
        g.remove_output(id).well_formed(),
        g.remove_output(id).output_at(id) is None,
{
    let n = g.outputs.len() as int;
    lemma_without::<OutputNode>(g.outputs, id, g.next_id, n);
    let h = g.remove_output(id);
    super::lemma_position::<OutputNode>(h.outputs, id);
    if h.output_at(id) is Some {
        let i = h.output_at(id)->0;
        let k = choose|k: int|
            0 <= k < n && #[trigger] g.outputs[k] == h.outputs[i] && OutputNode::tag(g.outputs[k])
                != id;
        assert(false);
    }
}

// ---------------------------------------------------------------------
// Wires of removed nodes
// ---------------------------------------------------------------------

/// Removing a modifier drops the wires that touch it and no others, and leaves
/// the others in their order.
pub proof fn removing_a_modifier_prunes_its_wires(g: GraphView, id: NodeId)
    ensures
        g.remove_modifier(id).wires == g.wires.filter(|w: Wire| !touches_modifier(w, id)),
{
    lemma_kept(g.wires, |w: Wire| !touches_modifier(w, id), g.wires.len() as int);
    assert(g.wires.take(g.wires.len() as int) == g.wires);
}

/// Removing an input drops the wires that leave it and no others, and leaves
/// the others in their order.
pub proof fn removing_an_input_prunes_its_wires(g: GraphView, id: NodeId)
    ensures
        g.remove_input(id).wires == g.wires.filter(|w: Wire| !from_input(w.from, id)),
{
    lemma_kept(g.wires, |w: Wire| !from_input(w.from, id), g.wires.len() as int);
    assert(g.wires.take(g.wires.len() as int) == g.wires);
}

/// Removing an output drops the wires that arrive at it and no others, and
/// leaves the others in their order.
pub proof fn removing_an_output_prunes_its_wires(g: GraphView, id: NodeId)
    ensures
        g.remove_output(id).wires == g.wires.filter(|w: Wire| !touches_output(w, id)),
{
    lemma_kept(g.wires, |w: Wire| !touches_output(w, id), g.wires.len() as int);
    assert(g.wires.take(g.wires.len() as int) == g.wires);
}

// ---------------------------------------------------------------------
// Connecting
// ---------------------------------------------------------------------

/// The first wire that equals `w`, or none where there is none.
pub proof fn lemma_wire_from(wires: Seq<Wire>, w: Wire, i: int)
    requires
        0 <= i,
    ensures
        match wire_from(wires, w, i) {
            Some(p) => i <= p < wires.len() && wires[p] == w && forall|j: int|
                i <= j < p ==> wires[j] != w,
            None => forall|j: int| i <= j < wires.len() ==> wires[j] != w,
        },
    decreases wires.len() - i,
{
    if i < wires.len() && wires[i] != w {
        lemma_wire_from(wires, w, i + 1);
    }
}

/// Connecting a pair that is not connected and connecting it again gives the
/// graph back, where the target holds any number of wires.
pub proof fn connecting_twice_toggles_off(g: GraphView, from: Endpoint, to: Target)
    requires
        !g.wires.contains(Wire { from, to }),
        !g.single_wire(to),
    ensures
        g.connect(from, to).connect(from, to) == g,
{
    let w = Wire { from, to };
    let h = g.connect(from, to);
    lemma_wire_from(g.wires, w, 0);
    lemma_wire_from(h.wires, w, 0);
    let n = g.wires.len() as int;
    assert(h.wires == g.wires.push(w));
    assert(h.wires[n] == w);
    assert forall|j: int| 0 <= j < n implies h.wires[j] != w by {
        assert(g.wires.contains(g.wires[j]));
    }
    assert(h.wires.remove(n) == g.wires);
}

proof fn lemma_off_target(wires: Seq<Wire>, to: Target, n: int)
    requires
        0 <= n <= wires.len(),
    ensures
        forall|i: int|
            0 <= i < wires_off_target(wires, to, n).len() ==> (#[trigger] wires_off_target(
                wires,
                to,
                n,
            )[i]).to != to,
    decreases n,
{
    if n > 0 {
        lemma_off_target(wires, to, n - 1);
    }
}

/// A target that no wire arrives at has no incoming wires.
pub proof fn lemma_no_incoming(wires: Seq<Wire>, to: Target, n: int)
    requires
        0 <= n <= wires.len(),
        forall|i: int| 0 <= i < n ==> (#[trigger] wires[i]).to != to,
    ensures
        incoming_upto(wires, to, n) == Seq::<usize>::empty(),
    decreases n,
{
    if n > 0 {
        lemma_no_incoming(wires, to, n - 1);
    }
}

/// Connecting into a target that holds one wire at a time leaves exactly that
/// one, whatever fed it before.
pub proof fn connecting_replaces_the_single_wire(g: GraphView, from: Endpoint, to: Target)
    requires
        g.single_wire(to),
        !g.wires.contains(Wire { from, to }),
        g.wires.len() < usize::MAX,
    ensures
        feeds(g.connect(from, to).wires, to) == seq![from],
        feed(g.connect(from, to).wires, to) == Some(from),
{
    let w = Wire { from, to };
    lemma_wire_from(g.wires, w, 0);
    let n = g.wires.len() as int;
    let kept = wires_off_target(g.wires, to, n);
    lemma_off_target(g.wires, to, n);
    lemma_off_target_len(g.wires, to, n);
    let h = g.connect(from, to);
    assert(h.wires == kept.push(w));
    let k = kept.len() as int;
    assert forall|i: int| 0 <= i < k implies (#[trigger] h.wires[i]).to != to by {
        assert(h.wires[i] == kept[i]);
    }
    lemma_no_incoming(h.wires, to, k);
    assert(incoming_spec(h.wires, to) == seq![k as usize]);
    assert(feeds(h.wires, to) == seq![from]);
    lemma_feed_skips(h.wires, to, 0, k);
}

proof fn lemma_off_target_len(wires: Seq<Wire>, to: Target, n: int)
    requires
        0 <= n <= wires.len(),
    ensures
        wires_off_target(wires, to, n).len() <= n,
    decreases n,
{
    if n > 0 {
        lemma_off_target_len(wires, to, n - 1);
    }
}

/// Wires that arrive elsewhere do not count.
pub proof fn lemma_feed_skips(wires: Seq<Wire>, to: Target, i: int, k: int)
    requires
        0 <= i <= k <= wires.len(),
        forall|j: int| i <= j < k ==> (#[trigger] wires[j]).to != to,
    ensures
        feed_from(wires, to, i) == feed_from(wires, to, k),
    decreases k - i,
{
    if i < k {
        lemma_feed_skips(wires, to, i + 1, k);
    }
}

/// No connection occurs twice.
pub open spec fn wires_distinct(wires: Seq<Wire>) -> bool {
    forall|i: int, j: int| 0 <= i < j < wires.len() ==> #[trigger] wires[i] != #[trigger] wires[j]
}

/// Picking from wires that differ gives wires that differ.
pub proof fn lemma_kept_distinct(wires: Seq<Wire>, keep: spec_fn(Wire) -> bool, n: int)
    requires
        0 <= n <= wires.len(),
        wires_distinct(wires),
    ensures
        wires_distinct(kept_upto(wires, keep, n)),
        forall|i: int|
            0 <= i < kept_upto(wires, keep, n).len() ==> exists|k: int|
                0 <= k < n && wires[k] == #[trigger] kept_upto(wires, keep, n)[i],
    decreases n,
{
    if n > 0 {
        lemma_kept_distinct(wires, keep, n - 1);
        let p = kept_upto(wires, keep, n - 1);
        let q = kept_upto(wires, keep, n);
        assert forall|i: int| 0 <= i < q.len() implies exists|k: int|
            0 <= k < n && wires[k] == #[trigger] q[i] by {
            if i < p.len() {
                let k = choose|k: int| 0 <= k < n - 1 && wires[k] == p[i];
                assert(wires[k] == q[i]);
            } else {
                assert(wires[n - 1] == q[i]);
            }
        }
        assert forall|i: int, j: int| 0 <= i < j < q.len() implies #[trigger] q[i]
            != #[trigger] q[j] by {
            if j == p.len() {
                let k = choose|k: int| 0 <= k < n - 1 && wires[k] == p[i];
                assert(wires[k] != wires[n - 1]);
            } else {
                assert(p[i] != p[j]);
            }
        }
    }
}

/// Connecting flips whether the pair is connected, and keeps connections from
/// occurring twice.
pub proof fn connect_toggles(g: GraphView, from: Endpoint, to: Target)
    requires
        wires_distinct(g.wires),
    ensures
        wires_distinct(g.connect(from, to).wires),
        g.connect(from, to).wires.contains(Wire { from, to }) != g.wires.contains(
            Wire { from, to },
        ),
{
    let w = Wire { from, to };
    let n = g.wires.len() as int;
    let h = g.connect(from, to);
    lemma_wire_from(g.wires, w, 0);
    match wire_from(g.wires, w, 0) {
        Some(p) => {
            assert(g.wires.contains(w));
            assert forall|j: int| 0 <= j < h.wires.len() implies h.wires[j] != w by {
                let k = if j < p {
                    j
                } else {
                    j + 1
                };
                assert(h.wires[j] == g.wires[k]);
                if g.wires[k] == w {
                    if k < p {
                        assert(g.wires[k] != g.wires[p]);
                    } else {
                        assert(g.wires[p] != g.wires[k]);
                    }
                }
            }
            assert forall|i: int, j: int| 0 <= i < j < h.wires.len() implies #[trigger] h.wires[i]
                != #[trigger] h.wires[j] by {
                let a = if i < p {
                    i
                } else {
                    i + 1
                };
                let b = if j < p {
                    j
                } else {
                    j + 1
                };
                assert(g.wires[a] != g.wires[b]);
            }
        },
        None => {
            lemma_kept_distinct(g.wires, |v: Wire| v.to != to, n);
            lemma_off_target(g.wires, to, n);
            let last = h.wires.len() - 1;
            assert(h.wires[last] == w);
            assert forall|i: int, j: int| 0 <= i < j < h.wires.len() implies #[trigger] h.wires[i]
                != #[trigger] h.wires[j] by {
                let kept = wires_off_target(g.wires, to, n);
                if g.single_wire(to) {
                    if j == last {
                        assert(kept[i].to != to);
                    } else {
                        assert(kept[i] != kept[j]);
                    }
                }
            }
        },
    }
}

// ---------------------------------------------------------------------
// Slots that hold one wire
// ---------------------------------------------------------------------

impl GraphView {
    /// Every target that holds one wire at a time (the input of a modifier
    /// that joins nothing, the chapters of an output) is fed by at most one.
    pub open spec fn one_wire_per_slot(self) -> bool {
        forall|to: Target| #[trigger]
            self.single_wire(to) ==> feeds(self.wires, to).len() <= 1
    }
}

proof fn lemma_incoming_prefix(wires: Seq<Wire>, w: Wire, to: Target, n: int)
    requires
        0 <= n <= wires.len(),
    ensures
        incoming_upto(wires.push(w), to, n) == incoming_upto(wires, to, n),
    decreases n,
{
    if n > 0 {
        lemma_incoming_prefix(wires, w, to, n - 1);
    }
}

/// One more wire feeds the target that it arrives at, and no other.
proof fn lemma_feeds_push(wires: Seq<Wire>, w: Wire, to: Target)
    ensures
        feeds(wires.push(w), to).len() == feeds(wires, to).len() + (if w.to == to {
            1int
        } else {
            0int
        }),
{
    lemma_incoming_prefix(wires, w, to, wires.len() as int);
}

/// Dropping wires takes feeds away at most.
proof fn lemma_feeds_kept(wires: Seq<Wire>, keep: spec_fn(Wire) -> bool, to: Target, n: int)
    requires
        0 <= n <= wires.len(),
    ensures
        feeds(kept_upto(wires, keep, n), to).len() <= incoming_upto(wires, to, n).len(),
    decreases n,
{
    if n > 0 {
        lemma_feeds_kept(wires, keep, to, n - 1);
        lemma_feeds_push(kept_upto(wires, keep, n - 1), wires[n - 1], to);
    }
}

/// How often a target is fed, by the wires that arrive at it.
proof fn lemma_incoming_count(wires: Seq<Wire>, to: Target, n: int)
    requires
        0 <= n <= wires.len(),
    ensures
        incoming_upto(wires, to, n).len() == 0 <==> forall|k: int|
            0 <= k < n ==> (#[trigger] wires[k]).to != to,
        incoming_upto(wires, to, n).len() <= 1 <==> forall|i: int, j: int|
            0 <= i < j < n ==> (#[trigger] wires[i]).to != to || (#[trigger] wires[j]).to != to,
    decreases n,
{
    if n > 0 {
        lemma_incoming_count(wires, to, n - 1);
        let p = incoming_upto(wires, to, n - 1);
        if wires[n - 1].to == to {
            if p.len() > 0 {
                let k = choose|k: int| 0 <= k < n - 1 && (#[trigger] wires[k]).to == to;
                assert(wires[k].to == to && wires[n - 1].to == to);
            }
        } else if p.len() > 1 {
            let (i, j) = choose|i: int, j: int|
                0 <= i < j < n - 1 && (#[trigger] wires[i]).to == to && (
                #[trigger] wires[j]).to == to;
            assert(wires[i].to == to && wires[j].to == to);
        }
    }
}

/// A new graph has no wires at all.
pub proof fn new_graph_has_one_wire_per_slot(g: GraphView)
    requires
        g.wires == Seq::<Wire>::empty(),
    ensures
        g.one_wire_per_slot(),
{
}

/// Connecting never lets a second wire into a slot that holds one.
pub proof fn connecting_keeps_one_wire_per_slot(g: GraphView, from: Endpoint, to: Target)
    requires
        g.one_wire_per_slot(),
    ensures
        g.connect(from, to).one_wire_per_slot(),
{
    let w = Wire { from, to };
    let n = g.wires.len() as int;
    let h = g.connect(from, to);
    lemma_wire_from(g.wires, w, 0);
    match wire_from(g.wires, w, 0) {
        Some(p) => {
            removing_a_wire_keeps_one_per_slot(g, p);
        },
        None => {
            assert forall|t: Target| #[trigger] h.single_wire(t) implies feeds(h.wires, t).len()
                <= 1 by {
                assert(g.single_wire(t));
                if g.single_wire(to) {
                    let kept = wires_off_target(g.wires, to, n);
                    lemma_feeds_push(kept, w, t);
                    lemma_feeds_kept(g.wires, |v: Wire| v.to != to, t, n);
                    if t == to {
                        lemma_off_target(g.wires, to, n);
                        lemma_no_incoming(kept, to, kept.len() as int);
                    }
                } else {
                    lemma_feeds_push(g.wires, w, t);
                }
            }
        },
    }
}

/// Taking a wire away leaves at most one in each slot that holds one.
pub proof fn removing_a_wire_keeps_one_per_slot(g: GraphView, p: int)
    requires
        g.one_wire_per_slot(),
    ensures
        g.remove_wire_at(p).one_wire_per_slot(),
{
    let h = g.remove_wire_at(p);
    assert forall|t: Target| #[trigger] h.single_wire(t) implies feeds(h.wires, t).len() <= 1 by {
        assert(g.single_wire(t));
        lemma_incoming_count(g.wires, t, g.wires.len() as int);
        lemma_incoming_count(h.wires, t, h.wires.len() as int);
        if 0 <= p < g.wires.len() {
            assert forall|i: int, j: int| 0 <= i < j < h.wires.len() implies (
            #[trigger] h.wires[i]).to != t || (#[trigger] h.wires[j]).to != t by {
                let a = if i < p {
                    i
                } else {
                    i + 1
                };
                let b = if j < p {
                    j
                } else {
                    j + 1
                };
                assert(h.wires[i] == g.wires[a] && h.wires[j] == g.wires[b]);
            }
        }
    }
}

/// Swapping two wires leaves at most one in each slot that holds one.
pub proof fn swapping_keeps_one_wire_per_slot(g: GraphView, x: int, y: int)
    requires
        g.one_wire_per_slot(),
        0 <= x < g.wires.len(),
        0 <= y < g.wires.len(),
    ensures
        g.swap_wires(x, y).one_wire_per_slot(),
{
    let h = g.swap_wires(x, y);
    assert forall|t: Target| #[trigger] h.single_wire(t) implies feeds(h.wires, t).len() <= 1 by {
        assert(g.single_wire(t));
        lemma_incoming_count(g.wires, t, g.wires.len() as int);
        lemma_incoming_count(h.wires, t, h.wires.len() as int);
        assert forall|i: int, j: int| 0 <= i < j < h.wires.len() implies (
        #[trigger] h.wires[i]).to != t || (#[trigger] h.wires[j]).to != t by {
            let a = if i == y {
                x
            } else if i == x {
                y
            } else {
                i
            };
            let b = if j == y {
                x
            } else if j == x {
                y
            } else {
                j
            };
            assert(h.wires[i] == g.wires[a] && h.wires[j] == g.wires[b]);
            if a < b {
                assert(g.wires[a].to != t || g.wires[b].to != t);
            } else {
                assert(g.wires[b].to != t || g.wires[a].to != t);
            }
        }
    }
}

/// Dropping wires leaves at most one in each slot that holds one, as long as
/// no further target becomes such a slot.
pub proof fn dropping_wires_keeps_one_per_slot(
    g: GraphView,
    h: GraphView,
    keep: spec_fn(Wire) -> bool,
)
    requires
        g.one_wire_per_slot(),
        h.wires == kept_upto(g.wires, keep, g.wires.len() as int),
        forall|to: Target| #[trigger] h.single_wire(to) && feeds(h.wires, to).len() > 0
            ==> g.single_wire(to),
    ensures
        h.one_wire_per_slot(),
{
    assert forall|t: Target| #[trigger] h.single_wire(t) implies feeds(h.wires, t).len() <= 1 by {
        lemma_feeds_kept(g.wires, keep, t, g.wires.len() as int);
    }
}

/// Removing a node leaves at most one wire in each slot that holds one.
pub proof fn removing_nodes_keeps_one_wire_per_slot(g: GraphView, id: NodeId)
    requires
        g.well_formed(),
        g.one_wire_per_slot(),
    ensures
        g.remove_input(id).one_wire_per_slot(),
        g.remove_output(id).one_wire_per_slot(),
        g.remove_modifier(id).one_wire_per_slot(),
{
    let a = g.remove_input(id);
    assert forall|to: Target| #[trigger] a.single_wire(to) implies g.single_wire(to) by {
        assert(a.modifiers == g.modifiers);
    }
    dropping_wires_keeps_one_per_slot(g, a, |w: Wire| !from_input(w.from, id));
    let b = g.remove_output(id);
    assert forall|to: Target| #[trigger] b.single_wire(to) implies g.single_wire(to) by {
        assert(b.modifiers == g.modifiers);
    }
    dropping_wires_keeps_one_per_slot(g, b, |w: Wire| !touches_output(w, id));
    let c = g.remove_modifier(id);
    let n = g.modifiers.len() as int;
    lemma_without::<ModifierNode>(g.modifiers, id, g.next_id, n);
    assert forall|to: Target| #[trigger] c.single_wire(to) && feeds(c.wires, to).len()
        > 0 implies g.single_wire(to) by {
        if let Target::ModifierIn(m) = to {
            if m == id {
                lemma_touching_dropped(g.wires, id, g.wires.len() as int);
                lemma_no_incoming(c.wires, to, c.wires.len() as int);
            } else if !g.single_wire(to) {
                super::lemma_position::<ModifierNode>(g.modifiers, m);
                super::lemma_position::<ModifierNode>(c.modifiers, m);
                let k = g.modifier_at(m)->0;
                assert(ModifierNode::tag(g.modifiers[k]) == m);
                assert(c.modifiers.contains(g.modifiers[k]));
                let j = choose|j: int| 0 <= j < c.modifiers.len() && c.modifiers[j]
                    == g.modifiers[k];
                assert(ModifierNode::tag(c.modifiers[j]) == m);
                let q = c.modifier_at(m)->0;
                if q < j {
                    assert(ModifierNode::tag(c.modifiers[q]) != ModifierNode::tag(c.modifiers[j]));
                } else if j < q {
                    assert(ModifierNode::tag(c.modifiers[j]) != ModifierNode::tag(c.modifiers[q]));
                }
            }
        }
    }
    dropping_wires_keeps_one_per_slot(g, c, |w: Wire| !touches_modifier(w, id));
}

proof fn lemma_touching_dropped(wires: Seq<Wire>, id: NodeId, n: int)
    requires
        0 <= n <= wires.len(),
    ensures
        forall|i: int|
            0 <= i < wires_off_modifier(wires, id, n).len() ==> (#[trigger] wires_off_modifier(
                wires,
                id,
                n,
            )[i]).to != Target::ModifierIn(id),
    decreases n,
{
    if n > 0 {
        lemma_touching_dropped(wires, id, n - 1);
    }
}

// ---------------------------------------------------------------------
// Resolving
// ---------------------------------------------------------------------

/// A chain that goes round in a circle of modifiers comes down to nothing:
/// `ring` holds modifiers none of which joins streams, and each of them is
/// fed by the output of another one in it.
pub proof fn cyclic_chain_resolves_to_nothing(g: GraphView, ring: Set<NodeId>, start: NodeId)
    requires
        ring.contains(start),
        forall|id: NodeId| #[trigger]
            ring.contains(id) ==> {
                &&& g.modifier(id) is Some
                &&& g.modifier(id)->0.kind != KindView::Concat
                &&& feed(g.wires, Target::ModifierIn(id)) matches Some(Endpoint::ModifierOut(next))
                    && ring.contains(next)
            },
    ensures
        resolve_spec(g, Endpoint::ModifierOut(start)) is None,
{
    lemma_ring(g, ring, start, Settings::plain(), 0);
}

proof fn lemma_ring(g: GraphView, ring: Set<NodeId>, at: NodeId, acc: Settings, hops: nat)
    requires
        ring.contains(at),
        hops <= MAX_HOPS,
        forall|id: NodeId| #[trigger]
            ring.contains(id) ==> {
                &&& g.modifier(id) is Some
                &&& g.modifier(id)->0.kind != KindView::Concat
                &&& feed(g.wires, Target::ModifierIn(id)) matches Some(Endpoint::ModifierOut(next))
                    && ring.contains(next)
            },
    ensures
        walk(g, Endpoint::ModifierOut(at), acc, hops).0 is None,
    decreases MAX_HOPS - hops,
{
    if hops < MAX_HOPS {
        let m = g.modifier(at)->0;
        let next = feed(g.wires, Target::ModifierIn(at))->0->ModifierOut_0;
        if !(m.kind is ChapterEdit) {
            lemma_ring(g, ring, next, acc.upstream(m.kind), hops + 1);
        }
    }
}

/// A modifier that nothing feeds breaks the chain, and so does one that is
/// gone.
pub proof fn broken_chain_resolves_to_nothing(g: GraphView, id: NodeId)
    requires
        g.modifier(id) is None || (g.modifier(id)->0.kind != KindView::Concat && feed(
            g.wires,
            Target::ModifierIn(id),
        ) is None),
    ensures
        resolve_spec(g, Endpoint::ModifierOut(id)) is None,
{
}

/// A chapter node never carries a stream.
pub proof fn chapter_node_carries_no_stream(g: GraphView, id: NodeId)
    requires
        g.modifier(id) matches Some(m) && m.kind is ChapterEdit,
    ensures
        resolve_spec(g, Endpoint::ModifierOut(id)) is None,
{
}

/// A stream of an input resolves to itself, copied as it is.
pub proof fn direct_wire_is_a_plain_copy(g: GraphView, node: NodeId, stream_idx: usize)
    ensures
        resolve_spec(g, Endpoint::Stream { node, stream_idx }) == Some(
            ResolvedView::Stream {
                from_node: node,
                from_stream_idx: stream_idx,
                settings: Settings::plain(),
            },
        ),
{
}

proof fn lemma_fill_keeps(m: Seq<Entry>, more: Seq<Entry>, n: int, k: Seq<char>)
    requires
        ascending(keys_of(m)),
        0 <= n <= more.len(),
    ensures
        ascending(keys_of(field_fill(m, more, n))),
        field_get(m, k) is Some ==> field_get(field_fill(m, more, n), k) == field_get(m, k),
    decreases n,
{
    if n > 0 {
        lemma_fill_keeps(m, more, n - 1, k);
        let p = field_fill(m, more, n - 1);
        let e = more[n - 1];
        if field_get(p, e.0) is None {
            field_set_ascending(p, e.0, e.1);
            field_get_after_set(p, e.0, e.1, k);
        }
    }
}

proof fn lemma_walk_keeps(
    g: GraphView,
    from: Endpoint,
    acc: Settings,
    hops: nat,
    k: Seq<char>,
)
    requires
        ascending(keys_of(acc.metadata)),
    ensures
        walk(g, from, acc, hops).0 matches Some(r) ==> {
            &&& acc.codec is Encode ==> r.settings().codec == acc.codec
            &&& acc.disposition is Some ==> r.settings().disposition == acc.disposition
            &&& field_get(acc.metadata, k) is Some ==> field_get(r.settings().metadata, k)
                == field_get(acc.metadata, k)
        },
    decreases MAX_HOPS - hops,
{
    if hops < MAX_HOPS {
        if let Endpoint::ModifierOut(mid) = from {
            if let Some(m) = g.modifier(mid) {
                if !(m.kind is ChapterEdit) && !(m.kind is Concat) {
                    if let Some(source) = feed(g.wires, Target::ModifierIn(mid)) {
                        let next = acc.upstream(m.kind);
                        if let KindView::Metadata { fields } = m.kind {
                            lemma_fill_keeps(acc.metadata, fields, fields.len() as int, k);
                        }
                        lemma_walk_keeps(g, source, next, hops + 1, k);
                    }
                }
            }
        }
    }
}

/// The modifier closest to the output wins: what the last modifier of a chain
/// asks for (an encoder, a disposition, a metadata field) is what the whole
/// chain asks for, whatever stands further up.
pub proof fn closest_to_output_wins(g: GraphView, id: NodeId, k: Seq<char>)
    requires
        g.modifier(id) is Some,
        g.modifier(id)->0.kind matches KindView::Metadata { fields } ==> ascending(
            keys_of(fields),
        ),
    ensures
        resolve_spec(g, Endpoint::ModifierOut(id)) matches Some(r) ==> {
            match g.modifier(id)->0.kind {
                KindView::Convert(CodecView::Encode(name)) => r.settings().codec
                    == CodecView::Encode(name),
                KindView::Disposition { flags } => r.settings().disposition == Some(flags),
                KindView::Metadata { fields } => field_get(fields, k) is Some ==> field_get(
                    r.settings().metadata,
                    k,
                ) == field_get(fields, k),
                _ => true,
            }
        },
{
    let kind = g.modifier(id)->0.kind;
    let plain = Settings::plain();
    assert(ascending(keys_of(plain.metadata)));
    let next = plain.upstream(kind);
    if let KindView::Metadata { fields } = kind {
        lemma_fill_from_empty(fields, fields.len() as int);
        assert(fields.take(fields.len() as int) == fields);
        assert(next.metadata == fields);
    }
    if let Some(source) = feed(g.wires, Target::ModifierIn(id)) {
        if !(kind is ChapterEdit) && !(kind is Concat) {
            lemma_walk_keeps(g, source, next, 1, k);
        }
    }
}

proof fn lemma_fill_from_empty(fields: Seq<Entry>, n: int)
    requires
        ascending(keys_of(fields)),
        0 <= n <= fields.len(),
    ensures
        field_fill(Seq::empty(), fields, n) == fields.take(n),
    decreases n,
{
    if n == 0 {
        assert(fields.take(0) == Seq::<Entry>::empty());
    } else {
        lemma_fill_from_empty(fields, n - 1);
        let p = fields.take(n - 1);
        let e = fields[n - 1];
        crate::fields::lemma_key_at(keys_of(p), e.0);
        let keys = keys_of(fields);
        assert forall|j: int| 0 <= j < n - 1 implies keys_of(p)[j] != e.0 by {
            assert(crate::text::text_less(keys[j], keys[n - 1]));
            crate::text::text_less_irreflexive(e.0);
        }
        assert forall|j: int| 0 <= j < n - 1 implies crate::text::text_less(
            #[trigger] keys_of(p)[j],
            e.0,
        ) by {
            assert(crate::text::text_less(keys[j], keys[n - 1]));
        }
        lemma_rank_is_end(keys_of(p), e.0, 0);
        assert(p.insert(n - 1, e) == fields.take(n));
    }
}

proof fn lemma_rank_is_end(keys: Seq<Seq<char>>, k: Seq<char>, i: int)
    requires
        0 <= i <= keys.len(),
        forall|j: int| 0 <= j < keys.len() ==> crate::text::text_less(#[trigger] keys[j], k),
    ensures
        crate::fields::rank_from(keys, k, i) == keys.len(),
    decreases keys.len() - i,
{
    if i < keys.len() {
        lemma_rank_is_end(keys, k, i + 1);
    }
}

// ---------------------------------------------------------------------
// Labels
// ---------------------------------------------------------------------

/// No two entries of the filtergraph have the same label.
pub proof fn entry_labels_are_unique(a: nat, b: nat)
    requires
        a != b,
    ensures
        entry_label(a) != entry_label(b),
{
    super::chapter::lemma_decimal(a);
    super::chapter::lemma_decimal(b);
    if entry_label(a) == entry_label(b) {
        let x = entry_label(a);
        reveal_strlit("f");
        assert(x.subrange(1, x.len() as int) == decimal(a));
        assert(x.subrange(1, x.len() as int) == decimal(b));
        assert(digits_value(decimal(a)) == digits_value(decimal(b)));
    }
}

// ---------------------------------------------------------------------
// Saving and loading
// ---------------------------------------------------------------------

/// What a probe finds in a file that is as it was when it was added.
pub open spec fn unchanged_probes(g: GraphView) -> Seq<Option<ProbeView>> {
    Seq::new(
        g.inputs.len(),
        |i: int|
            Some(
                ProbeView {
                    streams: media_streams(g.inputs[i].streams),
                    chapters: g.inputs[i].chapters,
                },
            ),
    )
}

/// A well-formed graph whose files are all there, and as they were, is loaded
/// as it was saved.
pub proof fn saved_graph_loads_back(g: GraphView)
    requires
        g.well_formed(),
        g.inputs.len() <= usize::MAX,
        forall|i: int| 0 <= i < g.inputs.len() ==> !(#[trigger] g.inputs[i]).file_missing,
    ensures
        loaded(saved(g), unchanged_probes(g)) == g,
{
    let h = loaded(saved(g), unchanged_probes(g));
    assert forall|i: int| 0 <= i < g.inputs.len() implies h.inputs[i] == #[trigger] g.inputs[i] by {
        assert(streams_ok(g.inputs[i]));
        assert(g.inputs[i].file_index == i);
    }
    assert(h.inputs == g.inputs);
}

/// A well-formed graph none of whose files can be read is loaded as it was
/// saved, with every input marked as missing its file.
pub proof fn saved_graph_loads_without_its_files(g: GraphView)
    requires
        g.well_formed(),
        g.inputs.len() <= usize::MAX,
    ensures
        loaded(saved(g), Seq::empty()) == (GraphView {
            inputs: Seq::new(
                g.inputs.len(),
                |i: int| InputView { file_missing: true, ..g.inputs[i] },
            ),
            ..g
        }),
{
    let h = loaded(saved(g), Seq::empty());
    assert forall|i: int| 0 <= i < g.inputs.len() implies h.inputs[i] == (InputView {
        file_missing: true,
        ..#[trigger] g.inputs[i]
    }) by {
        assert(streams_ok(g.inputs[i]));
        assert(g.inputs[i].file_index == i);
    }
    assert(h.inputs =~= Seq::new(
        g.inputs.len(),
        |i: int| InputView { file_missing: true, ..g.inputs[i] },
    ));
}

} // verus!
