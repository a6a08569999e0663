//! What wiring keys do, told by what feeds a node before and after.
use vstd::prelude::*;

use super::connect::{first_kind, into_output_upto, Joining};
use super::{AppView, Focus};
use crate::graph::laws::lemma_wire_from;
use crate::graph::node::KindView;
use crate::graph::resolve::{
    at_least, endpoint_kind, feeds, hops_left, resolve_spec, walk, walk_upto, Settings, MAX_HOPS,
};
use crate::graph::stream::StreamKind;
use crate::graph::wire::{endpoint_less, endpoint_set, endpoint_set_adds, endpoints_ascend, Endpoint, NodeId, Target, Wire};
use crate::graph::{
    feed, feed_from, incoming_spec, incoming_upto, kept_upto, outgoing_spec, outgoing_upto,
    wires_off_target, GraphView,
};

verus! {

// ---------------------------------------------------------------------
// Sources and targets of wires
// ---------------------------------------------------------------------

/// The sources of the wires that arrive at a target, in their order.
pub open spec fn arriving(wires: Seq<Wire>, to: Target) -> Seq<Endpoint>
    decreases wires.len(),
{
    if wires.len() == 0 {
        Seq::empty()
    } else {
        let before = arriving(wires.drop_last(), to);
        if wires.last().to == to {
            before.push(wires.last().from)
        } else {
            before
        }
    }
}

/// The targets of the wires that leave an endpoint, in their order.
pub open spec fn leaving(wires: Seq<Wire>, from: Endpoint) -> Seq<Target>
    decreases wires.len(),
{
    if wires.len() == 0 {
        Seq::empty()
    } else {
        let before = leaving(wires.drop_last(), from);
        if wires.last().from == from {
            before.push(wires.last().to)
        } else {
            before
        }
    }
}

proof fn lemma_arriving_split(a: Seq<Wire>, b: Seq<Wire>, to: Target)
    ensures
        arriving(a + b, to) == arriving(a, to) + arriving(b, to),
    decreases b.len(),
{
    if b.len() == 0 {
        assert(a + b =~= a);
        assert(arriving(a, to) + arriving(b, to) =~= arriving(a, to));
    } else {
        lemma_arriving_split(a, b.drop_last(), to);
        assert((a + b).drop_last() =~= a + b.drop_last());
        assert((a + b).last() == b.last());
        assert(arriving(a + b, to) =~= arriving(a, to) + arriving(b, to));
    }
}

proof fn lemma_leaving_split(a: Seq<Wire>, b: Seq<Wire>, from: Endpoint)
    ensures
        leaving(a + b, from) == leaving(a, from) + leaving(b, from),
    decreases b.len(),
{
    if b.len() == 0 {
        assert(a + b =~= a);
        assert(leaving(a, from) + leaving(b, from) =~= leaving(a, from));
    } else {
        lemma_leaving_split(a, b.drop_last(), from);
        assert((a + b).drop_last() =~= a + b.drop_last());
        assert((a + b).last() == b.last());
        assert(leaving(a + b, from) =~= leaving(a, from) + leaving(b, from));
    }
}

proof fn lemma_arriving_at(wires: Seq<Wire>, to: Target, n: int)
    requires
        0 <= n <= wires.len(),
        wires.len() <= usize::MAX,
    ensures
        ({
            let at = incoming_upto(wires, to, n);
            let s = arriving(wires.take(n), to);
            &&& at.len() == s.len()
            &&& forall|k: int|
                0 <= k < at.len() ==> 0 <= #[trigger] at[k] < n && wires[at[k] as int].to == to
                    && wires[at[k] as int].from == s[k] && arriving(
                    wires.take(at[k] as int),
                    to,
                ).len() == k
        }),
    decreases n,
{
    if n > 0 {
        lemma_arriving_at(wires, to, n - 1);
        assert(wires.take(n).drop_last() =~= wires.take(n - 1));
        let at = incoming_upto(wires, to, n);
        let before = incoming_upto(wires, to, n - 1);
        let s = arriving(wires.take(n), to);
        assert forall|k: int| 0 <= k < at.len() implies 0 <= #[trigger] at[k] < n
            && wires[at[k] as int].to == to && wires[at[k] as int].from == s[k] && arriving(
            wires.take(at[k] as int),
            to,
        ).len() == k by {
            if k < before.len() {
                assert(at[k] == before[k]);
            }
        }
    } else {
        assert(wires.take(0) =~= Seq::empty());
    }
}

proof fn lemma_arriving_len(wires: Seq<Wire>, to: Target)
    ensures
        arriving(wires, to).len() <= wires.len(),
    decreases wires.len(),
{
    if wires.len() > 0 {
        lemma_arriving_len(wires.drop_last(), to);
    }
}

proof fn lemma_leaving_at(wires: Seq<Wire>, from: Endpoint, n: int)
    requires
        0 <= n <= wires.len(),
        wires.len() <= usize::MAX,
    ensures
        ({
            let at = outgoing_upto(wires, from, n);
            let s = leaving(wires.take(n), from);
            &&& at.len() == s.len()
            &&& forall|k: int|
                0 <= k < at.len() ==> 0 <= #[trigger] at[k] < n && wires[at[k] as int].from == from
                    && leaving(wires.take(at[k] as int), from).len() == k
        }),
    decreases n,
{
    if n > 0 {
        lemma_leaving_at(wires, from, n - 1);
        assert(wires.take(n).drop_last() =~= wires.take(n - 1));
        let at = outgoing_upto(wires, from, n);
        let before = outgoing_upto(wires, from, n - 1);
        assert forall|k: int| 0 <= k < at.len() implies 0 <= #[trigger] at[k] < n
            && wires[at[k] as int].from == from && leaving(
            wires.take(at[k] as int),
            from,
        ).len() == k by {
            if k < before.len() {
                assert(at[k] == before[k]);
            }
        }
    } else {
        assert(wires.take(0) =~= Seq::empty());
    }
}

proof fn lemma_feeds_arrive(wires: Seq<Wire>, to: Target)
    requires
        wires.len() <= usize::MAX,
    ensures
        feeds(wires, to) == arriving(wires, to),
{
    let n = wires.len() as int;
    lemma_arriving_at(wires, to, n);
    assert(wires.take(n) =~= wires);
    assert(feeds(wires, to) =~= arriving(wires, to));
}

proof fn lemma_arriving_removed(wires: Seq<Wire>, p: int, to: Target)
    requires
        0 <= p < wires.len(),
    ensures
        wires[p].to != to ==> arriving(wires.remove(p), to) == arriving(wires, to),
        wires[p].to == to ==> ({
            let r = arriving(wires.take(p), to).len() as int;
            &&& r < arriving(wires, to).len()
            &&& arriving(wires, to)[r] == wires[p].from
            &&& arriving(wires.remove(p), to) == arriving(wires, to).remove(r)
        }),
{
    let a = wires.take(p);
    let one = seq![wires[p]];
    let b = wires.skip(p + 1);
    assert(wires =~= a + one + b);
    assert(wires.remove(p) =~= a + b);
    lemma_arriving_split(a + one, b, to);
    lemma_arriving_split(a, one, to);
    lemma_arriving_split(a, b, to);
    assert(one.drop_last() =~= Seq::empty());
    assert(arriving(one.drop_last(), to) =~= Seq::empty());
    if wires[p].to == to {
        let r = arriving(a, to).len() as int;
        assert(arriving(wires, to)[r] == wires[p].from);
        assert(arriving(wires.remove(p), to) =~= arriving(wires, to).remove(r));
    } else {
        assert(arriving(wires.remove(p), to) =~= arriving(wires, to));
    }
}

proof fn lemma_leaving_removed(wires: Seq<Wire>, p: int, from: Endpoint)
    requires
        0 <= p < wires.len(),
    ensures
        wires[p].from != from ==> leaving(wires.remove(p), from) == leaving(wires, from),
        wires[p].from == from ==> ({
            let r = leaving(wires.take(p), from).len() as int;
            &&& r < leaving(wires, from).len()
            &&& leaving(wires.remove(p), from) == leaving(wires, from).remove(r)
        }),
{
    let a = wires.take(p);
    let one = seq![wires[p]];
    let b = wires.skip(p + 1);
    assert(wires =~= a + one + b);
    assert(wires.remove(p) =~= a + b);
    lemma_leaving_split(a + one, b, from);
    lemma_leaving_split(a, one, from);
    lemma_leaving_split(a, b, from);
    assert(one.drop_last() =~= Seq::empty());
    assert(leaving(one.drop_last(), from) =~= Seq::empty());
    if wires[p].from == from {
        let r = leaving(a, from).len() as int;
        assert(leaving(wires.remove(p), from) =~= leaving(wires, from).remove(r));
    } else {
        assert(leaving(wires.remove(p), from) =~= leaving(wires, from));
    }
}

// ---------------------------------------------------------------------
// Taking a connection out
// ---------------------------------------------------------------------

/// 'd' on an output takes out the mapped stream under the cursor, or, behind
/// the streams, the chapters. The other streams stay in their order, and
/// nothing else is touched.
pub proof fn disconnecting_takes_out_the_row(a: AppView, i: usize, t: Target)
    requires
        a.focus == Focus::Output(i),
        i < a.graph.outputs.len(),
        a.graph.wires.len() <= usize::MAX,
    ensures
        ({
            let g = a.graph;
            let h = a.disconnect_focused().graph;
            let mapped = Target::Output(g.outputs[i as int].id);
            let chapters = Target::OutputChapters(g.outputs[i as int].id);
            let row = a.row_idx as int;
            &&& h.inputs == g.inputs && h.modifiers == g.modifiers && h.outputs == g.outputs
            &&& row < arriving(g.wires, mapped).len() ==> {
                &&& arriving(h.wires, mapped) == arriving(g.wires, mapped).remove(row)
                &&& t != mapped ==> arriving(h.wires, t) == arriving(g.wires, t)
            }
            &&& row >= arriving(g.wires, mapped).len() ==> {
                &&& arriving(g.wires, chapters).len() > 0 ==> arriving(h.wires, chapters)
                    == arriving(g.wires, chapters).remove(0)
                &&& t != chapters ==> arriving(h.wires, t) == arriving(g.wires, t)
            }
        }),
{
    let a = a.unanchored();
    let g = a.graph;
    let n = g.wires.len() as int;
    let mapped = Target::Output(g.outputs[i as int].id);
    let chapters = Target::OutputChapters(g.outputs[i as int].id);
    lemma_arriving_at(g.wires, mapped, n);
    lemma_arriving_at(g.wires, chapters, n);
    assert(g.wires.take(n) =~= g.wires);
    let row = a.row_idx as int;
    if row < arriving(g.wires, mapped).len() {
        let p = incoming_spec(g.wires, mapped)[row] as int;
        lemma_arriving_removed(g.wires, p, mapped);
        lemma_arriving_removed(g.wires, p, t);
    } else if arriving(g.wires, chapters).len() > 0 {
        let p = incoming_spec(g.wires, chapters)[0] as int;
        lemma_arriving_removed(g.wires, p, chapters);
        lemma_arriving_removed(g.wires, p, t);
    }
}

/// 'd' on a modifier takes out the connection under the cursor: the segment of
/// that number of a concat node, or, behind the segments, the outgoing
/// connection of that number.
pub proof fn disconnecting_a_modifier_takes_out_the_row(
    a: AppView,
    i: usize,
    t: Target,
    e: Endpoint,
)
    requires
        a.focus == Focus::Modifier(i),
        i < a.graph.modifiers.len(),
        a.graph.wires.len() <= usize::MAX,
    ensures
        ({
            let g = a.graph;
            let h = a.disconnect_focused().graph;
            let m = g.modifiers[i as int];
            let into = Target::ModifierIn(m.id);
            let own = Endpoint::ModifierOut(m.id);
            let segments = if m.kind is Concat {
                arriving(g.wires, into).len() as int
            } else {
                0
            };
            let row = a.row_idx - segments;
            &&& h.inputs == g.inputs && h.modifiers == g.modifiers && h.outputs == g.outputs
            &&& row < 0 ==> {
                &&& arriving(h.wires, into) == arriving(g.wires, into).remove(a.row_idx as int)
                &&& t != into ==> arriving(h.wires, t) == arriving(g.wires, t)
            }
            &&& 0 <= row < leaving(g.wires, own).len() ==> {
                &&& leaving(h.wires, own) == leaving(g.wires, own).remove(row)
                &&& e != own ==> leaving(h.wires, e) == leaving(g.wires, e)
            }
            &&& row >= leaving(g.wires, own).len() ==> h.wires == g.wires
        }),
{
    let a = a.unanchored();
    let g = a.graph;
    let n = g.wires.len() as int;
    let m = g.modifiers[i as int];
    let into = Target::ModifierIn(m.id);
    let own = Endpoint::ModifierOut(m.id);
    lemma_arriving_at(g.wires, into, n);
    lemma_leaving_at(g.wires, own, n);
    assert(g.wires.take(n) =~= g.wires);
    let segments = if m.kind is Concat {
        arriving(g.wires, into).len() as int
    } else {
        0
    };
    let row = a.row_idx - segments;
    if row < 0 {
        let p = incoming_spec(g.wires, into)[a.row_idx as int] as int;
        lemma_arriving_removed(g.wires, p, into);
        lemma_arriving_removed(g.wires, p, t);
    } else if row < leaving(g.wires, own).len() {
        let p = outgoing_spec(g.wires, own)[row] as int;
        lemma_leaving_removed(g.wires, p, own);
        lemma_leaving_removed(g.wires, p, e);
    }
}

// ---------------------------------------------------------------------
// Another order
// ---------------------------------------------------------------------

proof fn lemma_same_targets(a: Seq<Wire>, b: Seq<Wire>, to: Target, n: int)
    requires
        0 <= n <= a.len(),
        a.len() == b.len(),
        forall|i: int| 0 <= i < a.len() ==> (#[trigger] a[i]).to == b[i].to,
    ensures
        incoming_upto(a, to, n) == incoming_upto(b, to, n),
    decreases n,
{
    if n > 0 {
        lemma_same_targets(a, b, to, n - 1);
        assert(a[n - 1].to == b[n - 1].to);
    }
}

/// Control and Down puts the row under the cursor behind the next one, Control
/// and Up before the one in front of it, and the cursor stays on it: so the
/// streams of an output, or the segments of a concat node, change places. All
/// others stay where they are.
pub proof fn moving_a_row_changes_places(a: AppView, to: Target, forward: bool, t: Target)
    requires
        a.graph.wires.len() <= usize::MAX,
        match a.focus {
            Focus::Output(i) => i < a.graph.outputs.len() && to == Target::Output(
                a.graph.outputs[i as int].id,
            ),
            Focus::Modifier(i) => i < a.graph.modifiers.len() && a.graph.modifiers[i as int].kind is Concat
                && to == Target::ModifierIn(a.graph.modifiers[i as int].id),
            Focus::Input(_) => false,
        },
    ensures
        ({
            let b = a.move_focused_row(forward);
            let before = feeds(a.graph.wires, to);
            let after = feeds(b.graph.wires, to);
            let row = a.row_idx as int;
            let there = if forward {
                row + 1
            } else {
                row - 1
            };
            if row < before.len() && 0 <= there < before.len() {
                &&& after == before.update(row, before[there]).update(there, before[row])
                &&& b.row_idx == there
                &&& t != to ==> feeds(b.graph.wires, t) == feeds(a.graph.wires, t)
            } else {
                b == a
            }
        }),
{
    let g = a.graph;
    let n = g.wires.len() as int;
    let at = incoming_spec(g.wires, to);
    lemma_arriving_at(g.wires, to, n);
    lemma_arriving_at(g.wires, t, n);
    let row = a.row_idx as int;
    let there = if forward {
        row + 1
    } else {
        row - 1
    };
    if row < at.len() && 0 <= there < at.len() {
        let x = at[row] as int;
        let y = at[there] as int;
        let h = g.swap_wires(x, y);
        lemma_same_targets(h.wires, g.wires, to, n);
        lemma_same_targets(h.wires, g.wires, t, n);
        let before = feeds(g.wires, to);
        let after = feeds(h.wires, to);
        lemma_rows_differ(g.wires, to, row, there);
        lemma_arriving_len(g.wires.take(y), to);
        assert(a.movable_rows() == at);
        assert forall|k: int| 0 <= k < at.len() implies after[k] == before.update(
            row,
            before[there],
        ).update(there, before[row])[k] by {
            lemma_rows_differ(g.wires, to, k, row);
            lemma_rows_differ(g.wires, to, k, there);
        }
        assert(after =~= before.update(row, before[there]).update(there, before[row]));
        if t != to {
            let others = incoming_spec(g.wires, t);
            assert forall|k: int| 0 <= k < others.len() implies feeds(h.wires, t)[k] == feeds(
                g.wires,
                t,
            )[k] by {
                assert(g.wires[others[k] as int].to == t);
            }
            assert(feeds(h.wires, t) =~= feeds(g.wires, t));
        }
    }
}

proof fn lemma_rows_differ(wires: Seq<Wire>, to: Target, i: int, j: int)
    requires
        wires.len() <= usize::MAX,
        0 <= i < incoming_spec(wires, to).len(),
        0 <= j < incoming_spec(wires, to).len(),
    ensures
        incoming_spec(wires, to)[i] == incoming_spec(wires, to)[j] <==> i == j,
{
    lemma_arriving_at(wires, to, wires.len() as int);
    let at = incoming_spec(wires, to);
    assert(arriving(wires.take(at[i] as int), to).len() == i);
    assert(arriving(wires.take(at[j] as int), to).len() == j);
}

// ---------------------------------------------------------------------
// Connecting
// ---------------------------------------------------------------------

/// 'c' on an input with nothing selected arms the stream under the cursor, in
/// place of what was armed; with ports selected, it arms those, and they are
/// not selected any more.
pub proof fn arming_takes_the_selection_or_the_cursor(a: AppView)
    requires
        a.focused_input() is Some,
    ensures
        ({
            let b = a.toggle_connect();
            let node = a.focused_input()->0;
            let port = Endpoint::Stream { node: node.id, stream_idx: a.row_idx };
            &&& b.graph == a.graph
            &&& a.selected.len() > 0 ==> b.armed == a.selected && b.selected.len() == 0
            &&& a.selected.len() == 0 && a.row_idx < node.streams.len() ==> b.armed == (
            if a.armed == seq![port] {
                Seq::empty()
            } else {
                seq![port]
            })
        }),
{
    assert(a.unanchored().focused_input() == a.focused_input());
}

proof fn lemma_off_target(wires: Seq<Wire>, to: Target, t: Target, n: int)
    requires
        0 <= n <= wires.len(),
    ensures
        arriving(kept_upto(wires, |w: Wire| w.to != to, n), t) == (if t == to {
            Seq::empty()
        } else {
            arriving(wires.take(n), t)
        }),
    decreases n,
{
    let keep = |w: Wire| w.to != to;
    if n > 0 {
        lemma_off_target(wires, to, t, n - 1);
        assert(wires.take(n).drop_last() =~= wires.take(n - 1));
        let before = kept_upto(wires, keep, n - 1);
        let now = kept_upto(wires, keep, n);
        if keep(wires[n - 1]) {
            assert(now.drop_last() =~= before);
        }
    } else {
        assert(wires.take(0) =~= Seq::empty());
    }
}

/// Connecting a source to a target that it does not feed yet makes it the last
/// of those that feed it, or the only one where the target takes one. What
/// feeds any other target stays.
pub proof fn connecting_adds_the_source(g: GraphView, from: Endpoint, to: Target, t: Target)
    requires
        !arriving(g.wires, to).contains(from),
    ensures
        arriving(g.connect(from, to).wires, to) == (if g.single_wire(to) {
            seq![from]
        } else {
            arriving(g.wires, to).push(from)
        }),
        t != to ==> arriving(g.connect(from, to).wires, t) == arriving(g.wires, t),
{
    let w = Wire { from, to };
    let n = g.wires.len() as int;
    let h = g.connect(from, to);
    lemma_wire_from(g.wires, w, 0);
    assert(forall|i: int| 0 <= i < n ==> g.wires[i] != w) by {
        if exists|i: int| 0 <= i < n && g.wires[i] == w {
            let p = choose|i: int| 0 <= i < n && g.wires[i] == w;
            lemma_arriving_removed(g.wires, p, to);
        }
    }
    lemma_off_target(g.wires, to, to, n);
    lemma_off_target(g.wires, to, t, n);
    assert(g.wires.take(n) =~= g.wires);
    assert(h.wires.drop_last() =~= (if g.single_wire(to) {
        wires_off_target(g.wires, to, n)
    } else {
        g.wires
    }));
    if g.single_wire(to) {
        assert(Seq::<Endpoint>::empty().push(from) =~= seq![from]);
    }
}

/// 'c' on a modifier wires the armed source into it, as its only source,
/// unless it carries something that the modifier does not take; what is wired
/// is not armed any more.
pub proof fn armed_source_goes_into_the_modifier(a: AppView, i: usize, x: Endpoint, t: Target)
    requires
        a.focus == Focus::Modifier(i),
        i < a.graph.modifiers.len(),
        !(a.graph.modifiers[i as int].kind is Concat),
        a.graph.modifier(a.graph.modifiers[i as int].id) == Some(a.graph.modifiers[i as int]),
        a.armed == seq![x],
        x != Endpoint::ModifierOut(a.graph.modifiers[i as int].id),
        !arriving(a.graph.wires, Target::ModifierIn(a.graph.modifiers[i as int].id)).contains(x),
    ensures
        ({
            let m = a.graph.modifiers[i as int];
            let b = a.toggle_connect();
            let into = Target::ModifierIn(m.id);
            let refused = endpoint_kind(a.graph, x) is Some && !m.kind.accepts(
                endpoint_kind(a.graph, x)->0,
            );
            &&& refused ==> b.graph == a.graph && b.armed == a.armed
            &&& !refused ==> {
                &&& arriving(b.graph.wires, into) == seq![x]
                &&& t != into ==> arriving(b.graph.wires, t) == arriving(a.graph.wires, t)
                &&& b.armed.len() == 0
            }
        }),
{
    let m = a.graph.modifiers[i as int];
    connecting_adds_the_source(a.graph, x, Target::ModifierIn(m.id), t);
    assert(seq![x].len() == 1 && seq![x][0] == x);
    assert(seq![Endpoint::ModifierOut(m.id)][0] == Endpoint::ModifierOut(m.id));
}

proof fn lemma_walk_same(g: GraphView, h: GraphView, from: Endpoint, acc: Settings, hops: nat)
    requires
        h.inputs == g.inputs,
        h.modifiers == g.modifiers,
        forall|id: NodeId|
            feeds(h.wires, Target::ModifierIn(id)) == #[trigger] feeds(
                g.wires,
                Target::ModifierIn(id),
            ),
        forall|id: NodeId|
            feed(h.wires, Target::ModifierIn(id)) == #[trigger] feed(
                g.wires,
                Target::ModifierIn(id),
            ),
    ensures
        walk(h, from, acc, hops) == walk(g, from, acc, hops),
    decreases hops_left(hops), 0nat,
{
    if hops < MAX_HOPS {
        if let Endpoint::ModifierOut(mid) = from {
            assert(h.modifier(mid) == g.modifier(mid));
            if let Some(m) = g.modifier(mid) {
                match m.kind {
                    KindView::ChapterEdit { .. } => {},
                    KindView::Concat => {
                        let sources = feeds(g.wires, Target::ModifierIn(mid));
                        if sources.len() > 0 {
                            lemma_walks_same(g, h, sources, sources.len(), hops + 1);
                        }
                        if let Some(segments) = walk_upto(g, sources, sources.len(), hops + 1).0 {
                            assert(crate::graph::resolve::common_kind(h, segments)
                                == crate::graph::resolve::common_kind(g, segments)) by {
                                assert forall|r: crate::graph::resolve::ResolvedView|
                                    crate::graph::resolve::resolved_kind(h, r)
                                        == #[trigger] crate::graph::resolve::resolved_kind(
                                        g,
                                        r,
                                    ) by {}
                            }
                        }
                    },
                    _ => {
                        if let Some(source) = feed(g.wires, Target::ModifierIn(mid)) {
                            lemma_walk_same(g, h, source, acc.upstream(m.kind), hops + 1);
                        }
                    },
                }
            }
        }
    }
}

proof fn lemma_walks_same(g: GraphView, h: GraphView, sources: Seq<Endpoint>, n: nat, hops: nat)
    requires
        h.inputs == g.inputs,
        h.modifiers == g.modifiers,
        forall|id: NodeId|
            feeds(h.wires, Target::ModifierIn(id)) == #[trigger] feeds(
                g.wires,
                Target::ModifierIn(id),
            ),
        forall|id: NodeId|
            feed(h.wires, Target::ModifierIn(id)) == #[trigger] feed(
                g.wires,
                Target::ModifierIn(id),
            ),
    ensures
        walk_upto(h, sources, n, hops) == walk_upto(g, sources, n, hops),
    decreases hops_left(hops), n,
{
    if n > 0 {
        lemma_walks_same(g, h, sources, (n - 1) as nat, hops);
        let (before, k) = walk_upto(g, sources, (n - 1) as nat, hops);
        if before is Some {
            lemma_walk_same(g, h, sources[n - 1], Settings::plain(), at_least(k, hops));
        }
    }
}

proof fn lemma_feed_arrives(wires: Seq<Wire>, to: Target, i: int)
    requires
        0 <= i <= wires.len(),
    ensures
        feed_from(wires, to, i) == (if arriving(wires.skip(i), to).len() > 0 {
            Some(arriving(wires.skip(i), to)[0])
        } else {
            None
        }),
    decreases wires.len() - i,
{
    let rest = wires.skip(i);
    if i < wires.len() {
        lemma_feed_arrives(wires, to, i + 1);
        let one = seq![wires[i]];
        let more = wires.skip(i + 1);
        assert(rest =~= one + more);
        lemma_arriving_split(one, more, to);
        assert(one.drop_last() =~= Seq::empty());
        assert(arriving(one.drop_last(), to) =~= Seq::empty());
        if wires[i].to == to {
            assert(arriving(one, to) =~= seq![wires[i].from]);
        } else {
            assert(arriving(rest, to) =~= arriving(more, to));
        }
    } else {
        assert(rest =~= Seq::empty());
    }
}

/// Wiring something into an output changes no chain.
pub proof fn wires_into_outputs_change_no_chain(g: GraphView, h: GraphView, e: Endpoint)
    requires
        g.wires.len() <= usize::MAX,
        h.wires.len() <= usize::MAX,
        h.inputs == g.inputs,
        h.modifiers == g.modifiers,
        forall|id: NodeId|
            #[trigger] arriving(h.wires, Target::ModifierIn(id)) == arriving(
                g.wires,
                Target::ModifierIn(id),
            ),
    ensures
        resolve_spec(h, e) == resolve_spec(g, e),
        endpoint_kind(h, e) == endpoint_kind(g, e),
{
    assert forall|id: NodeId|
        feeds(h.wires, Target::ModifierIn(id)) == #[trigger] feeds(
            g.wires,
            Target::ModifierIn(id),
        ) by {
        lemma_feeds_arrive(h.wires, Target::ModifierIn(id));
        lemma_feeds_arrive(g.wires, Target::ModifierIn(id));
        assert(arriving(h.wires, Target::ModifierIn(id)) == arriving(
            g.wires,
            Target::ModifierIn(id),
        ));
    }
    assert forall|id: NodeId|
        feed(h.wires, Target::ModifierIn(id)) == #[trigger] feed(
            g.wires,
            Target::ModifierIn(id),
        ) by {
        lemma_feed_arrives(h.wires, Target::ModifierIn(id), 0);
        lemma_feed_arrives(g.wires, Target::ModifierIn(id), 0);
        assert(h.wires.skip(0) =~= h.wires);
        assert(g.wires.skip(0) =~= g.wires);
        assert(arriving(h.wires, Target::ModifierIn(id)) == arriving(
            g.wires,
            Target::ModifierIn(id),
        ));
    }
    lemma_walk_same(g, h, e, Settings::plain(), 0);
    if let Endpoint::ModifierOut(mid) = e {
        assert(h.modifier(mid) == g.modifier(mid));
    }
}

proof fn lemma_into_output(g: GraphView, sources: Seq<Endpoint>, output: NodeId, n: int, t: Target)
    requires
        0 <= n <= sources.len(),
        sources.no_duplicates(),
        g.wires.len() + sources.len() <= usize::MAX,
        forall|k: int|
            0 <= k < sources.len() ==> endpoint_kind(g, #[trigger] sources[k]) != Some(
                StreamKind::Chapter,
            ) && !arriving(g.wires, Target::Output(output)).contains(sources[k]),
    ensures
        ({
            let h = into_output_upto(g, sources, output, n);
            &&& h == (GraphView { wires: h.wires, ..g })
            &&& h.wires.len() == g.wires.len() + n
            &&& arriving(h.wires, Target::Output(output)) == arriving(
                g.wires,
                Target::Output(output),
            ) + sources.take(n)
            &&& t != Target::Output(output) ==> arriving(h.wires, t) == arriving(g.wires, t)
        }),
    decreases n,
{
    let to = Target::Output(output);
    if n > 0 {
        lemma_into_output(g, sources, output, n - 1, t);
        let h = into_output_upto(g, sources, output, n - 1);
        let x = sources[n - 1];
        assert forall|id: NodeId| #[trigger] arriving(h.wires, Target::ModifierIn(id)) == arriving(
            g.wires,
            Target::ModifierIn(id),
        ) by {
            lemma_into_output(g, sources, output, n - 1, Target::ModifierIn(id));
        }
        wires_into_outputs_change_no_chain(g, h, x);
        let fed = arriving(h.wires, to);
        assert(!fed.contains(x)) by {
            if fed.contains(x) {
                let k = choose|k: int| 0 <= k < fed.len() && fed[k] == x;
                let m = arriving(g.wires, to).len() as int;
                if k < m {
                    assert(arriving(g.wires, to)[k] == x);
                } else {
                    assert(sources[k - m] == x);
                }
            }
        }
        connecting_adds_the_source(h, x, to, t);
        lemma_wire_from(h.wires, Wire { from: x, to }, 0);
        assert(into_output_upto(g, sources, output, n).wires.len() == h.wires.len() + 1) by {
            if exists|q: int| 0 <= q < h.wires.len() && h.wires[q] == (Wire { from: x, to }) {
                let q = choose|q: int|
                    0 <= q < h.wires.len() && h.wires[q] == (Wire { from: x, to });
                lemma_arriving_removed(h.wires, q, to);
            }
        }
        assert(sources.take(n) =~= sources.take(n - 1).push(x));
        assert((arriving(g.wires, to) + sources.take(n - 1)).push(x) =~= arriving(g.wires, to)
            + sources.take(n));
    } else {
        assert(arriving(g.wires, to) + sources.take(0) =~= arriving(g.wires, to));
    }
}

/// 'c' on an output maps everything that is armed into it, in order, behind
/// what is mapped already. What feeds any other node stays, and nothing is
/// armed any more.
pub proof fn armed_sources_go_into_the_output(a: AppView, i: usize, t: Target)
    requires
        a.focus == Focus::Output(i),
        i < a.graph.outputs.len(),
        a.armed.len() > 0,
        a.armed.no_duplicates(),
        a.graph.wires.len() + a.armed.len() <= usize::MAX,
        forall|k: int|
            0 <= k < a.armed.len() ==> endpoint_kind(a.graph, #[trigger] a.armed[k]) != Some(
                StreamKind::Chapter,
            ) && !arriving(a.graph.wires, Target::Output(a.graph.outputs[i as int].id)).contains(
                a.armed[k],
            ),
    ensures
        ({
            let b = a.toggle_connect();
            let to = Target::Output(a.graph.outputs[i as int].id);
            &&& arriving(b.graph.wires, to) == arriving(a.graph.wires, to) + a.armed
            &&& t != to ==> arriving(b.graph.wires, t) == arriving(a.graph.wires, t)
            &&& b.armed.len() == 0
        }),
{
    let n = a.armed.len() as int;
    lemma_into_output(a.graph, a.armed, a.graph.outputs[i as int].id, n, t);
    assert(a.armed.take(n) =~= a.armed);
}

/// Chapters that are armed go into the chapters slot of an output, in place of
/// what fed it.
pub proof fn armed_chapters_go_into_the_slot(a: AppView, i: usize, x: Endpoint, t: Target)
    requires
        a.focus == Focus::Output(i),
        i < a.graph.outputs.len(),
        a.armed == seq![x],
        endpoint_kind(a.graph, x) == Some(StreamKind::Chapter),
        !arriving(a.graph.wires, Target::OutputChapters(a.graph.outputs[i as int].id)).contains(x),
    ensures
        ({
            let b = a.toggle_connect();
            let slot = Target::OutputChapters(a.graph.outputs[i as int].id);
            &&& arriving(b.graph.wires, slot) == seq![x]
            &&& t != slot ==> arriving(b.graph.wires, t) == arriving(a.graph.wires, t)
        }),
{
    let id = a.graph.outputs[i as int].id;
    let slot = Target::OutputChapters(id);
    connecting_adds_the_source(a.graph, x, slot, t);
    assert(seq![x].len() == 1 && seq![x][0] == x);
    assert(into_output_upto(a.graph, a.armed, id, 0) == a.graph);
    assert(into_output_upto(a.graph, a.armed, id, 1) == a.graph.connect(x, slot));
}

proof fn lemma_segments_join(
    start: Joining,
    mid: NodeId,
    sources: Seq<Endpoint>,
    kind: StreamKind,
    n: int,
    t: Target,
)
    requires
        0 <= n <= sources.len(),
        sources.no_duplicates(),
        kind == StreamKind::Video || kind == StreamKind::Audio,
        start.kind is None || start.kind == Some(kind),
        start.app.graph.modifier(mid) is Some,
        start.app.graph.modifier(mid)->0.kind is Concat,
        forall|k: int|
            0 <= k < sources.len() ==> (#[trigger] sources[k]) is Stream && endpoint_kind(
                start.app.graph,
                sources[k],
            ) == Some(kind) && !arriving(start.app.graph.wires, Target::ModifierIn(mid)).contains(
                sources[k],
            ),
    ensures
        ({
            let done = start.upto(mid, sources, n);
            let g = start.app.graph;
            let h = done.app.graph;
            let to = Target::ModifierIn(mid);
            &&& h == (GraphView { wires: h.wires, ..g })
            &&& done.kind is None || done.kind == Some(kind)
            &&& done.connected == start.connected + n
            &&& arriving(h.wires, to) == arriving(g.wires, to) + sources.take(n)
            &&& t != to ==> arriving(h.wires, t) == arriving(g.wires, t)
        }),
    decreases n,
{
    let to = Target::ModifierIn(mid);
    let g = start.app.graph;
    if n > 0 {
        lemma_segments_join(start, mid, sources, kind, n - 1, t);
        let h = start.upto(mid, sources, n - 1).app.graph;
        let x = sources[n - 1];
        assert(endpoint_kind(h, x) == endpoint_kind(g, x));
        let fed = arriving(h.wires, to);
        assert(!fed.contains(x)) by {
            if fed.contains(x) {
                let k = choose|k: int| 0 <= k < fed.len() && fed[k] == x;
                let m = arriving(g.wires, to).len() as int;
                if k < m {
                    assert(arriving(g.wires, to)[k] == x);
                } else {
                    assert(sources[k - m] == x);
                }
            }
        }
        assert(h.modifier(mid) == g.modifier(mid));
        connecting_adds_the_source(h, x, to, t);
        assert(sources.take(n) =~= sources.take(n - 1).push(x));
        assert((arriving(g.wires, to) + sources.take(n - 1)).push(x) =~= arriving(g.wires, to)
            + sources.take(n));
    } else {
        assert(arriving(g.wires, to) + sources.take(0) =~= arriving(g.wires, to));
    }
}

/// 'c' on a concat node makes a segment of each armed stream, in order, behind
/// those that it has, where all of them are video or all are audio.
pub proof fn armed_streams_become_segments(
    a: AppView,
    i: usize,
    kind: StreamKind,
    t: Target,
)
    requires
        a.focus == Focus::Modifier(i),
        i < a.graph.modifiers.len(),
        a.graph.modifiers[i as int].kind is Concat,
        a.graph.modifier(a.graph.modifiers[i as int].id) == Some(a.graph.modifiers[i as int]),
        kind == StreamKind::Video || kind == StreamKind::Audio,
        a.armed.len() > 0,
        a.armed.no_duplicates(),
        ({
            let known = first_kind(
                a.graph,
                feeds(a.graph.wires, Target::ModifierIn(a.graph.modifiers[i as int].id)),
                0,
            );
            known is None || known == Some(kind)
        }),
        forall|k: int|
            0 <= k < a.armed.len() ==> (#[trigger] a.armed[k]) is Stream && endpoint_kind(
                a.graph,
                a.armed[k],
            ) == Some(kind) && !arriving(
                a.graph.wires,
                Target::ModifierIn(a.graph.modifiers[i as int].id),
            ).contains(a.armed[k]),
    ensures
        ({
            let b = a.toggle_connect();
            let to = Target::ModifierIn(a.graph.modifiers[i as int].id);
            &&& arriving(b.graph.wires, to) == arriving(a.graph.wires, to) + a.armed
            &&& t != to ==> arriving(b.graph.wires, t) == arriving(a.graph.wires, t)
            &&& b.armed.len() == 0
        }),
{
    let a1 = a.unanchored();
    let id = a.graph.modifiers[i as int].id;
    let start = Joining {
        app: AppView { armed: Seq::empty(), ..a1 },
        kind: first_kind(a.graph, feeds(a.graph.wires, Target::ModifierIn(id)), 0),
        connected: 0,
    };
    let n = a.armed.len() as int;
    lemma_segments_join(start, id, a.armed, kind, n, t);
    lemma_joining_armed(start, id, a.armed, n);
    assert(a.armed.take(n) =~= a.armed);
    assert(a.armed[0] is Stream);
    assert(seq![Endpoint::ModifierOut(id)][0] == Endpoint::ModifierOut(id));
}

proof fn lemma_joining_armed(j: Joining, mid: NodeId, sources: Seq<Endpoint>, n: int)
    ensures
        j.upto(mid, sources, n).app.armed == j.app.armed,
    decreases n,
{
    if n > 0 {
        lemma_joining_armed(j, mid, sources, n - 1);
    }
}

/// Ports that are selected or armed stand in the order of their streams, the
/// streams of an earlier input before those of a later one, and streams before
/// the outputs of modifiers. So they are connected in that order.
pub proof fn ports_stand_in_the_order_of_their_streams(
    ports: Seq<Endpoint>,
    i: int,
    j: int,
    e: Endpoint,
)
    requires
        endpoints_ascend(ports),
        0 <= i < j < ports.len(),
    ensures
        match (ports[i], ports[j]) {
            (
                Endpoint::Stream { node: a, stream_idx: s },
                Endpoint::Stream { node: b, stream_idx: t },
            ) => a < b || (a == b && s < t),
            (Endpoint::ModifierOut(a), Endpoint::ModifierOut(b)) => a < b,
            (Endpoint::Stream { .. }, Endpoint::ModifierOut(_)) => true,
            (Endpoint::ModifierOut(_), Endpoint::Stream { .. }) => false,
        },
        endpoints_ascend(endpoint_set(ports, e)),
        endpoint_set(ports, e).contains(e),
{
    assert(endpoint_less(ports[i], ports[j]));
    endpoint_set_adds(ports, e);
}

} // verus!
