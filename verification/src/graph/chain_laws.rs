//! What a chain of modifiers means, told by its wires.
use vstd::prelude::*;

use super::node::{KindView, ModifierNode};
use super::resolve::{
    at_least, feeds, hops_left, resolve_spec, resolved_kind, walk, walk_upto, FilterStepView,
    ResolvedView, Settings, MAX_HOPS,
};
use super::stream::CodecView;
use super::wire::{Endpoint, NodeId, Target, Wire};
use super::{feed, feed_from, incoming_spec, incoming_upto, lemma_position, GraphView};
use crate::fields::{
    ascending, field_fill, field_get, field_get_after_set, field_set_ascending, keys_of,
    lemma_key_at, Entry,
};

verus! {

// ---------------------------------------------------------------------
// Wires into a target
// ---------------------------------------------------------------------

/// The wire at position `p` is the first one that arrives at `to`, and comes
/// from `from`.
pub open spec fn first_wire(wires: Seq<Wire>, p: int, from: Endpoint, to: Target) -> bool {
    &&& 0 <= p < wires.len()
    &&& wires[p] == (Wire { from, to })
    &&& forall|q: int| 0 <= q < p ==> (#[trigger] wires[q]).to != to
}

pub(crate) proof fn lemma_first_wire(wires: Seq<Wire>, p: int, from: Endpoint, to: Target, i: int)
    requires
        first_wire(wires, p, from, to),
        0 <= i <= p,
    ensures
        feed_from(wires, to, i) == Some(from),
    decreases p - i,
{
    if i < p {
        lemma_first_wire(wires, p, from, to, i + 1);
    }
}

proof fn lemma_incoming_in_order(wires: Seq<Wire>, to: Target, n: int)
    requires
        0 <= n <= wires.len(),
        wires.len() <= usize::MAX,
    ensures
        ({
            let at = incoming_upto(wires, to, n);
            &&& forall|i: int| 0 <= i < at.len() ==> (#[trigger] at[i]) < n && wires[at[i] as int].to
                == to
            &&& forall|i: int, j: int| 0 <= i < j < at.len() ==> #[trigger] at[i] < #[trigger] at[j]
            &&& forall|p: int|
                0 <= p < n && (#[trigger] wires[p]).to == to ==> at.contains(p as usize)
        }),
    decreases n,
{
    if n > 0 {
        lemma_incoming_in_order(wires, to, n - 1);
        let before = incoming_upto(wires, to, n - 1);
        let at = incoming_upto(wires, to, n);
        assert forall|p: int| 0 <= p < n && (#[trigger] wires[p]).to == to implies at.contains(
            p as usize,
        ) by {
            if p < n - 1 {
                let i = choose|i: int| 0 <= i < before.len() && before[i] == p as usize;
                assert(at[i] == p as usize);
            } else {
                assert(at[at.len() - 1] == p as usize);
            }
        }
    }
}

/// The sources that feed a target are those of the wires that arrive there,
/// each of them, in the order of the wires.
pub proof fn sources_follow_the_wires(wires: Seq<Wire>, to: Target) -> (at: Seq<int>)
    requires
        wires.len() <= usize::MAX,
    ensures
        at.len() == feeds(wires, to).len(),
        forall|i: int|
            0 <= i < at.len() ==> 0 <= #[trigger] at[i] < wires.len() && wires[at[i]] == (Wire {
                from: feeds(wires, to)[i],
                to,
            }),
        forall|i: int, j: int| 0 <= i < j < at.len() ==> #[trigger] at[i] < #[trigger] at[j],
        forall|p: int| 0 <= p < wires.len() && (#[trigger] wires[p]).to == to ==> at.contains(p),
{
    let n = wires.len() as int;
    lemma_incoming_in_order(wires, to, n);
    let found = incoming_spec(wires, to);
    let at = Seq::new(found.len(), |i: int| found[i] as int);
    assert forall|p: int| 0 <= p < n && (#[trigger] wires[p]).to == to implies at.contains(p) by {
        let i = choose|i: int| 0 <= i < found.len() && found[i] == p as usize;
        assert(at[i] == p);
    }
    at
}

// ---------------------------------------------------------------------
// Counting visited nodes
// ---------------------------------------------------------------------

proof fn lemma_walk_sooner(g: GraphView, from: Endpoint, acc: Settings, hops: nat, sooner: nat)
    requires
        sooner <= hops,
    ensures
        walk(g, from, acc, hops).1 > hops,
        walk(g, from, acc, hops).0 is Some ==> {
            &&& walk(g, from, acc, sooner).0 == walk(g, from, acc, hops).0
            &&& walk(g, from, acc, sooner).1 - sooner == walk(g, from, acc, hops).1 - hops
        },
    decreases hops_left(hops), 0nat,
{
    if hops < MAX_HOPS {
        let h = hops + 1;
        let s = sooner + 1;
        if let Endpoint::ModifierOut(mid) = from {
            if let Some(m) = g.modifier(mid) {
                match m.kind {
                    KindView::ChapterEdit { .. } => {},
                    KindView::Concat => {
                        let sources = feeds(g.wires, Target::ModifierIn(mid));
                        if sources.len() > 0 {
                            lemma_walks_sooner(g, sources, sources.len(), h, s);
                        }
                    },
                    _ => {
                        if let Some(source) = feed(g.wires, Target::ModifierIn(mid)) {
                            lemma_walk_sooner(g, source, acc.upstream(m.kind), h, s);
                        }
                    },
                }
            }
        }
    }
}

proof fn lemma_walks_sooner(
    g: GraphView,
    sources: Seq<Endpoint>,
    n: nat,
    hops: nat,
    sooner: nat,
)
    requires
        sooner <= hops,
    ensures
        walk_upto(g, sources, n, hops).1 >= hops,
        walk_upto(g, sources, n, hops).0 is Some ==> {
            &&& walk_upto(g, sources, n, sooner).0 == walk_upto(g, sources, n, hops).0
            &&& walk_upto(g, sources, n, sooner).1 - sooner == walk_upto(g, sources, n, hops).1
                - hops
        },
    decreases hops_left(hops), n,
{
    if n > 0 {
        let k = (n - 1) as nat;
        lemma_walks_sooner(g, sources, k, hops, sooner);
        lemma_walks_sooner(g, sources, k, hops, hops);
        let (before, h) = walk_upto(g, sources, k, hops);
        if before is Some {
            let s = walk_upto(g, sources, k, sooner).1;
            lemma_walk_sooner(g, sources[n - 1], Settings::plain(), at_least(h, hops), s);
        }
    }
}

proof fn lemma_walks_are_resolved(g: GraphView, sources: Seq<Endpoint>, n: nat, hops: nat)
    requires
        n <= sources.len(),
    ensures
        walk_upto(g, sources, n, hops).0 matches Some(segments) ==> segments.len() == n && forall|
            i: int,
        |
            0 <= i < n ==> resolve_spec(g, sources[i]) == Some(#[trigger] segments[i]),
    decreases n,
{
    if n > 0 {
        lemma_walks_are_resolved(g, sources, (n - 1) as nat, hops);
        let (before, h) = walk_upto(g, sources, (n - 1) as nat, hops);
        if before is Some {
            lemma_walk_sooner(g, sources[n - 1], Settings::plain(), at_least(h, hops), 0);
        }
    }
}

// ---------------------------------------------------------------------
// One modifier after another
// ---------------------------------------------------------------------

/// The fields of every metadata node are kept by key.
pub open spec fn metadata_by_key(g: GraphView) -> bool {
    forall|i: int|
        0 <= i < g.modifiers.len() ==> ((#[trigger] g.modifiers[i]).kind matches KindView::Metadata {
            fields,
        } ==> ascending(keys_of(fields)))
}

/// Whether two chains come from the same stream, or join the same chains.
pub open spec fn same_origin(a: ResolvedView, b: ResolvedView) -> bool {
    match (a, b) {
        (
            ResolvedView::Stream { from_node: m, from_stream_idx: i, .. },
            ResolvedView::Stream { from_node: n, from_stream_idx: j, .. },
        ) => m == n && i == j,
        (
            ResolvedView::Concat { kind: k, segments: s, .. },
            ResolvedView::Concat { kind: l, segments: t, .. },
        ) => k == l && s == t,
        _ => false,
    }
}

proof fn lemma_fill_gets(m: Seq<Entry>, more: Seq<Entry>, n: int, k: Seq<char>)
    requires
        ascending(keys_of(m)),
        0 <= n <= more.len(),
    ensures
        ascending(keys_of(field_fill(m, more, n))),
        field_get(field_fill(m, more, n), k) == (if field_get(m, k) is Some {
            field_get(m, k)
        } else {
            field_get(more.take(n), k)
        }),
    decreases n,
{
    if n == 0 {
        lemma_key_at(keys_of(more.take(0)), k);
    } else {
        lemma_fill_gets(m, more, n - 1, k);
        let p = field_fill(m, more, n - 1);
        let e = more[n - 1];
        lemma_fill_gets(m, more, n - 1, e.0);
        let before = more.take(n - 1);
        let all = more.take(n);
        lemma_key_at(keys_of(before), k);
        lemma_key_at(keys_of(all), k);
        lemma_key_at(keys_of(before), e.0);
        assert(keys_of(all) =~= keys_of(before).push(e.0));
        assert(keys_of(all)[n - 1] == e.0);
        if let Some(i) = crate::fields::key_at(keys_of(before), k) {
            assert(keys_of(all)[i] == k);
            let q = crate::fields::key_at(keys_of(all), k)->0;
            assert(q == i) by {
                if q < i {
                    assert(keys_of(before)[q] == k);
                }
            }
            assert(all[i] == before[i]);
        } else if e.0 == k {
            let q = crate::fields::key_at(keys_of(all), k)->0;
            assert(q == n - 1) by {
                if q < n - 1 {
                    assert(keys_of(before)[q] == k);
                }
            }
        } else {
            if let Some(q) = crate::fields::key_at(keys_of(all), k) {
                if q < n - 1 {
                    assert(keys_of(before)[q] == k);
                }
            }
        }
        if field_get(p, e.0) is None {
            field_set_ascending(p, e.0, e.1);
            field_get_after_set(p, e.0, e.1, k);
        }
    }
}

proof fn lemma_walk_under(
    g: GraphView,
    from: Endpoint,
    acc: Settings,
    hops: nat,
    k: Seq<char>,
)
    requires
        metadata_by_key(g),
        ascending(keys_of(acc.metadata)),
    ensures
        ({
            let under = walk(g, from, acc, hops);
            let plain = walk(g, from, Settings::plain(), hops);
            &&& under.1 == plain.1
            &&& under.0 is Some <==> plain.0 is Some
            &&& under.0 matches Some(r) ==> {
                let up = plain.0->0;
                &&& same_origin(r, up)
                &&& r.settings().filters == up.settings().filters + acc.filters
                &&& r.settings().codec == (if acc.codec is Copy {
                    up.settings().codec
                } else {
                    acc.codec
                })
                &&& r.settings().disposition == (if acc.disposition is None {
                    up.settings().disposition
                } else {
                    acc.disposition
                })
                &&& field_get(r.settings().metadata, k) == (if field_get(acc.metadata, k) is Some {
                    field_get(acc.metadata, k)
                } else {
                    field_get(up.settings().metadata, k)
                })
            }
        }),
    decreases hops_left(hops),
{
    let bare = Settings::plain();
    lemma_key_at(keys_of(bare.metadata), k);
    if hops < MAX_HOPS {
        if let Endpoint::ModifierOut(mid) = from {
            if let Some(m) = g.modifier(mid) {
                lemma_position::<ModifierNode>(g.modifiers, mid);
                if !(m.kind is ChapterEdit) && !(m.kind is Concat) {
                    if let Some(source) = feed(g.wires, Target::ModifierIn(mid)) {
                        let next = acc.upstream(m.kind);
                        let first = bare.upstream(m.kind);
                        if let KindView::Metadata { fields } = m.kind {
                            let n = fields.len() as int;
                            lemma_fill_gets(acc.metadata, fields, n, k);
                            lemma_fill_gets(bare.metadata, fields, n, k);
                        }
                        lemma_walk_under(g, source, next, hops + 1, k);
                        lemma_walk_under(g, source, first, hops + 1, k);
                        if let Some(base) = walk(g, source, bare, hops + 1).0 {
                            if let KindView::Filter { name, fields } = m.kind {
                                let step = FilterStepView { name, fields };
                                assert(base.settings().filters + next.filters =~= (
                                base.settings().filters + first.filters) + acc.filters);
                            } else {
                                assert(base.settings().filters + next.filters =~= (
                                base.settings().filters + first.filters) + acc.filters);
                            }
                        }
                    }
                }
            }
        }
    }
    if let Some(r) = walk(g, from, acc, hops).0 {
        let up = walk(g, from, bare, hops).0->0;
        assert(r.settings().filters =~= up.settings().filters + acc.filters);
    }
}

/// A modifier adds to the chain that feeds it, and leaves the rest of that
/// chain alone: the stream is the same one, a filter comes behind those that
/// the stream has passed already, and an encoder, a disposition or a metadata
/// field takes the place of what was asked for before.
pub proof fn modifier_adds_to_what_feeds_it(
    g: GraphView,
    id: NodeId,
    from: Endpoint,
    p: int,
    k: Seq<char>,
)
    requires
        metadata_by_key(g),
        g.modifier(id) is Some,
        !(g.modifier(id)->0.kind is Concat),
        first_wire(g.wires, p, from, Target::ModifierIn(id)),
        resolve_spec(g, Endpoint::ModifierOut(id)) is Some,
    ensures
        resolve_spec(g, from) is Some,
        ({
            let kind = g.modifier(id)->0.kind;
            let r = resolve_spec(g, Endpoint::ModifierOut(id))->0;
            let up = resolve_spec(g, from)->0;
            let now = r.settings();
            let before = up.settings();
            &&& same_origin(r, up)
            &&& now.filters == (match kind {
                KindView::Filter { name, fields } => before.filters.push(
                    FilterStepView { name, fields },
                ),
                _ => before.filters,
            })
            &&& now.codec == (match kind {
                KindView::Convert(CodecView::Encode(name)) => CodecView::Encode(name),
                _ => before.codec,
            })
            &&& now.disposition == (match kind {
                KindView::Disposition { flags } => Some(flags),
                _ => before.disposition,
            })
            &&& field_get(now.metadata, k) == (match kind {
                KindView::Metadata { fields } => if field_get(fields, k) is Some {
                    field_get(fields, k)
                } else {
                    field_get(before.metadata, k)
                },
                _ => field_get(before.metadata, k),
            })
        }),
{
    let to = Target::ModifierIn(id);
    lemma_first_wire(g.wires, p, from, to, 0);
    lemma_position::<ModifierNode>(g.modifiers, id);
    let m = g.modifier(id)->0;
    let bare = Settings::plain();
    lemma_key_at(keys_of(bare.metadata), k);
    let next = bare.upstream(m.kind);
    if let KindView::Metadata { fields } = m.kind {
        let n = fields.len() as int;
        lemma_fill_gets(bare.metadata, fields, n, k);
        assert(fields.take(n) =~= fields);
    }
    lemma_walk_under(g, from, next, 1, k);
    lemma_walk_sooner(g, from, bare, 1, 0);
    let up = resolve_spec(g, from)->0;
    assert(up.settings().filters + bare.filters =~= up.settings().filters);
    if let KindView::Filter { name, fields } = m.kind {
        assert(up.settings().filters + next.filters =~= up.settings().filters.push(
            FilterStepView { name, fields },
        ));
    }
}

// ---------------------------------------------------------------------
// Modifiers in a row
// ---------------------------------------------------------------------

/// The modifiers `ids` stand in a row behind `source`: the first wire into
/// each of them comes from the one before it, and from `source` into the
/// first. None of them joins streams or edits chapters.
pub open spec fn in_a_row(g: GraphView, source: Endpoint, ids: Seq<NodeId>, at: Seq<int>) -> bool {
    &&& at.len() == ids.len()
    &&& forall|i: int|
        #![trigger ids[i]]
        0 <= i < ids.len() ==> {
            &&& g.modifier(ids[i]) is Some
            &&& !(g.modifier(ids[i])->0.kind is Concat)
            &&& !(g.modifier(ids[i])->0.kind is ChapterEdit)
            &&& first_wire(
                g.wires,
                at[i],
                if i == 0 {
                    source
                } else {
                    Endpoint::ModifierOut(ids[i - 1])
                },
                Target::ModifierIn(ids[i]),
            )
        }
}

/// The filters among modifiers in a row, from the first of them on.
pub open spec fn filters_along(g: GraphView, ids: Seq<NodeId>) -> Seq<FilterStepView>
    decreases ids.len(),
{
    if ids.len() == 0 {
        Seq::empty()
    } else {
        let rest = filters_along(g, ids.skip(1));
        match g.modifier(ids[0])->0.kind {
            KindView::Filter { name, fields } => seq![FilterStepView { name, fields }] + rest,
            _ => rest,
        }
    }
}

proof fn lemma_filters_along_push(g: GraphView, ids: Seq<NodeId>)
    requires
        ids.len() > 0,
    ensures
        filters_along(g, ids) == filters_along(g, ids.drop_last()) + (
        match g.modifier(ids.last())->0.kind {
            KindView::Filter { name, fields } => seq![FilterStepView { name, fields }],
            _ => Seq::empty(),
        }),
    decreases ids.len(),
{
    if ids.len() > 1 {
        lemma_filters_along_push(g, ids.skip(1));
        assert(ids.skip(1).drop_last() =~= ids.drop_last().skip(1));
        assert(ids.skip(1).last() == ids.last());
        assert(filters_along(g, ids) =~= filters_along(g, ids.drop_last()) + (
        match g.modifier(ids.last())->0.kind {
            KindView::Filter { name, fields } => seq![FilterStepView { name, fields }],
            _ => Seq::empty(),
        }));
    } else {
        assert(ids.skip(1) =~= Seq::empty());
        assert(ids.drop_last() =~= Seq::empty());
        assert(filters_along(g, ids) =~= filters_along(g, ids.drop_last()) + (
        match g.modifier(ids.last())->0.kind {
            KindView::Filter { name, fields } => seq![FilterStepView { name, fields }],
            _ => Seq::empty(),
        }));
    }
}

proof fn lemma_row_resolves(
    g: GraphView,
    source: Endpoint,
    ids: Seq<NodeId>,
    at: Seq<int>,
    acc: Settings,
    hops: nat,
)
    requires
        in_a_row(g, source, ids, at),
        source is Stream,
        ids.len() > 0,
        hops + ids.len() < MAX_HOPS,
    ensures
        walk(g, Endpoint::ModifierOut(ids.last()), acc, hops).0 is Some,
    decreases ids.len(),
{
    let last = ids.len() - 1;
    let id = ids[last];
    let from = if last == 0 {
        source
    } else {
        Endpoint::ModifierOut(ids[last - 1])
    };
    lemma_first_wire(g.wires, at[last], from, Target::ModifierIn(id), 0);
    let next = acc.upstream(g.modifier(id)->0.kind);
    if last > 0 {
        let shorter = ids.drop_last();
        assert(in_a_row(g, source, shorter, at.drop_last())) by {
            assert forall|i: int| #![trigger shorter[i]] 0 <= i < shorter.len() implies {
                &&& g.modifier(shorter[i]) is Some
                &&& !(g.modifier(shorter[i])->0.kind is Concat)
                &&& !(g.modifier(shorter[i])->0.kind is ChapterEdit)
                &&& first_wire(
                    g.wires,
                    at.drop_last()[i],
                    if i == 0 {
                        source
                    } else {
                        Endpoint::ModifierOut(shorter[i - 1])
                    },
                    Target::ModifierIn(shorter[i]),
                )
            } by {
                assert(shorter[i] == ids[i]);
            }
        }
        lemma_row_resolves(g, source, shorter, at.drop_last(), next, hops + 1);
        assert(shorter.last() == ids[last - 1]);
    } else {
        assert(walk(g, source, next, hops + 1).0 is Some);
    }
    assert(walk(g, from, next, hops + 1).0 is Some);
    assert(ids[last] == id);
}

/// Modifiers in a row behind a stream resolve to that stream. Its filters are
/// the filters among them, in the order in which the stream passes them. Of
/// several encoders, dispositions or values of a metadata field, the last in
/// the row is the one asked for; without any, the stream is copied, keeps its
/// disposition, and the field is left alone.
pub proof fn row_of_modifiers_resolves_in_order(
    g: GraphView,
    node: NodeId,
    stream_idx: usize,
    ids: Seq<NodeId>,
    at: Seq<int>,
    k: Seq<char>,
)
    requires
        metadata_by_key(g),
        in_a_row(g, Endpoint::Stream { node, stream_idx }, ids, at),
        0 < ids.len() < MAX_HOPS,
    ensures
        resolve_spec(g, Endpoint::ModifierOut(ids.last())) matches Some(
            ResolvedView::Stream { from_node, from_stream_idx, settings },
        ) && {
            &&& from_node == node && from_stream_idx == stream_idx
            &&& settings.filters == filters_along(g, ids)
            &&& last_codec(g, ids, settings.codec)
            &&& last_disposition(g, ids, settings.disposition)
            &&& last_field(g, ids, k, field_get(settings.metadata, k))
        },
    decreases ids.len(),
{
    let source = Endpoint::Stream { node, stream_idx };
    let last = ids.len() - 1;
    let id = ids[last];
    lemma_row_resolves(g, source, ids, at, Settings::plain(), 0);
    lemma_filters_along_push(g, ids);
    let shorter = ids.drop_last();
    if last > 0 {
        assert(in_a_row(g, source, shorter, at.drop_last())) by {
            assert forall|i: int| #![trigger shorter[i]] 0 <= i < shorter.len() implies {
                &&& g.modifier(shorter[i]) is Some
                &&& !(g.modifier(shorter[i])->0.kind is Concat)
                &&& !(g.modifier(shorter[i])->0.kind is ChapterEdit)
                &&& first_wire(
                    g.wires,
                    at.drop_last()[i],
                    if i == 0 {
                        source
                    } else {
                        Endpoint::ModifierOut(shorter[i - 1])
                    },
                    Target::ModifierIn(shorter[i]),
                )
            } by {
                assert(shorter[i] == ids[i]);
            }
        }
        row_of_modifiers_resolves_in_order(g, node, stream_idx, shorter, at.drop_last(), k);
        modifier_adds_to_what_feeds_it(g, id, Endpoint::ModifierOut(ids[last - 1]), at[last], k);
    } else {
        assert(shorter =~= Seq::empty());
        modifier_adds_to_what_feeds_it(g, id, source, at[last], k);
        lemma_key_at(keys_of(Settings::plain().metadata), k);
    }
    let r = resolve_spec(g, Endpoint::ModifierOut(id))->0;
    let up = if last > 0 {
        resolve_spec(g, Endpoint::ModifierOut(ids[last - 1]))->0
    } else {
        resolve_spec(g, source)->0
    };
    assert(r.settings().filters =~= filters_along(g, ids));
    assert forall|i: int| 0 <= i < last implies ids[i] == shorter[i] by {}
    assert(last_codec(g, shorter, up.settings().codec));
    assert(last_codec(g, ids, r.settings().codec)) by {
        lemma_last_codec(g, ids, up.settings().codec, r.settings().codec);
    }
    assert(last_disposition(g, ids, r.settings().disposition)) by {
        lemma_last_disposition(g, ids, up.settings().disposition, r.settings().disposition);
    }
    assert(last_field(g, ids, k, field_get(r.settings().metadata, k))) by {
        lemma_last_field(
            g,
            ids,
            k,
            field_get(up.settings().metadata, k),
            field_get(r.settings().metadata, k),
        );
    }
}

/// The encoder that a modifier asks for.
pub open spec fn encoder_of(g: GraphView, id: NodeId) -> Option<Seq<char>> {
    match g.modifier(id)->0.kind {
        KindView::Convert(CodecView::Encode(name)) => Some(name),
        _ => None,
    }
}

/// The disposition that a modifier asks for.
pub open spec fn flags_of_node(g: GraphView, id: NodeId) -> Option<Seq<Seq<char>>> {
    match g.modifier(id)->0.kind {
        KindView::Disposition { flags } => Some(flags),
        _ => None,
    }
}

/// The value that a modifier gives to a metadata field.
pub open spec fn field_of_node(g: GraphView, id: NodeId, k: Seq<char>) -> Option<Seq<char>> {
    match g.modifier(id)->0.kind {
        KindView::Metadata { fields } => field_get(fields, k),
        _ => None,
    }
}

/// A codec is that of the last of `ids` that asks for one.
pub open spec fn last_codec(g: GraphView, ids: Seq<NodeId>, codec: CodecView) -> bool {
    match codec {
        CodecView::Encode(name) => exists|i: int|
            0 <= i < ids.len() && #[trigger] encoder_of(g, ids[i]) == Some(name) && forall|j: int|
                i < j < ids.len() ==> #[trigger] encoder_of(g, ids[j]) is None,
        CodecView::Copy => forall|i: int|
            0 <= i < ids.len() ==> #[trigger] encoder_of(g, ids[i]) is None,
    }
}

/// A disposition is that of the last of `ids` that asks for one.
pub open spec fn last_disposition(
    g: GraphView,
    ids: Seq<NodeId>,
    disposition: Option<Seq<Seq<char>>>,
) -> bool {
    match disposition {
        Some(flags) => exists|i: int|
            0 <= i < ids.len() && #[trigger] flags_of_node(g, ids[i]) == Some(flags) && forall|
                j: int,
            |
                i < j < ids.len() ==> #[trigger] flags_of_node(g, ids[j]) is None,
        None => forall|i: int|
            0 <= i < ids.len() ==> #[trigger] flags_of_node(g, ids[i]) is None,
    }
}

/// A field's value is that of the last of `ids` that gives it one.
pub open spec fn last_field(
    g: GraphView,
    ids: Seq<NodeId>,
    k: Seq<char>,
    value: Option<Seq<char>>,
) -> bool {
    match value {
        Some(v) => exists|i: int|
            0 <= i < ids.len() && #[trigger] field_of_node(g, ids[i], k) == Some(v) && forall|
                j: int,
            |
                i < j < ids.len() ==> #[trigger] field_of_node(g, ids[j], k) is None,
        None => forall|i: int|
            0 <= i < ids.len() ==> #[trigger] field_of_node(g, ids[i], k) is None,
    }
}

proof fn lemma_last_codec(g: GraphView, ids: Seq<NodeId>, before: CodecView, now: CodecView)
    requires
        ids.len() > 0,
        last_codec(g, ids.drop_last(), before),
        now == (match encoder_of(g, ids.last()) {
            Some(name) => CodecView::Encode(name),
            None => before,
        }),
    ensures
        last_codec(g, ids, now),
{
    let shorter = ids.drop_last();
    let last = ids.len() - 1;
    assert(forall|i: int| 0 <= i < last ==> shorter[i] == ids[i]);
    if encoder_of(g, ids[last]) is None {
        if let CodecView::Encode(name) = before {
            let i = choose|i: int|
                0 <= i < shorter.len() && #[trigger] encoder_of(g, shorter[i]) == Some(name)
                    && forall|j: int|
                    i < j < shorter.len() ==> #[trigger] encoder_of(g, shorter[j]) is None;
            assert(encoder_of(g, ids[i]) == Some(name));
            assert forall|j: int| i < j < ids.len() implies #[trigger] encoder_of(
                g,
                ids[j],
            ) is None by {
                if j < last {
                    assert(encoder_of(g, shorter[j]) is None);
                }
            }
        } else {
            assert forall|i: int| 0 <= i < ids.len() implies #[trigger] encoder_of(
                g,
                ids[i],
            ) is None by {
                if i < last {
                    assert(encoder_of(g, shorter[i]) is None);
                }
            }
        }
    } else {
        assert(encoder_of(g, ids[last]) is Some);
    }
}

proof fn lemma_last_disposition(
    g: GraphView,
    ids: Seq<NodeId>,
    before: Option<Seq<Seq<char>>>,
    now: Option<Seq<Seq<char>>>,
)
    requires
        ids.len() > 0,
        last_disposition(g, ids.drop_last(), before),
        now == (match flags_of_node(g, ids.last()) {
            Some(flags) => Some(flags),
            None => before,
        }),
    ensures
        last_disposition(g, ids, now),
{
    let shorter = ids.drop_last();
    let last = ids.len() - 1;
    assert(forall|i: int| 0 <= i < last ==> shorter[i] == ids[i]);
    if flags_of_node(g, ids[last]) is None {
        if let Some(flags) = before {
            let i = choose|i: int|
                0 <= i < shorter.len() && #[trigger] flags_of_node(g, shorter[i]) == Some(flags)
                    && forall|j: int|
                    i < j < shorter.len() ==> #[trigger] flags_of_node(g, shorter[j]) is None;
            assert(flags_of_node(g, ids[i]) == Some(flags));
            assert forall|j: int| i < j < ids.len() implies #[trigger] flags_of_node(
                g,
                ids[j],
            ) is None by {
                if j < last {
                    assert(flags_of_node(g, shorter[j]) is None);
                }
            }
        } else {
            assert forall|i: int| 0 <= i < ids.len() implies #[trigger] flags_of_node(
                g,
                ids[i],
            ) is None by {
                if i < last {
                    assert(flags_of_node(g, shorter[i]) is None);
                }
            }
        }
    } else {
        assert(flags_of_node(g, ids[last]) is Some);
    }
}

proof fn lemma_last_field(
    g: GraphView,
    ids: Seq<NodeId>,
    k: Seq<char>,
    before: Option<Seq<char>>,
    now: Option<Seq<char>>,
)
    requires
        ids.len() > 0,
        last_field(g, ids.drop_last(), k, before),
        now == (match field_of_node(g, ids.last(), k) {
            Some(v) => Some(v),
            None => before,
        }),
    ensures
        last_field(g, ids, k, now),
{
    let shorter = ids.drop_last();
    let last = ids.len() - 1;
    assert(forall|i: int| 0 <= i < last ==> shorter[i] == ids[i]);
    if field_of_node(g, ids[last], k) is None {
        if let Some(v) = before {
            let i = choose|i: int|
                0 <= i < shorter.len() && #[trigger] field_of_node(g, shorter[i], k) == Some(v)
                    && forall|j: int|
                    i < j < shorter.len() ==> #[trigger] field_of_node(g, shorter[j], k) is None;
            assert(field_of_node(g, ids[i], k) == Some(v));
            assert forall|j: int| i < j < ids.len() implies #[trigger] field_of_node(
                g,
                ids[j],
                k,
            ) is None by {
                if j < last {
                    assert(field_of_node(g, shorter[j], k) is None);
                }
            }
        } else {
            assert forall|i: int| 0 <= i < ids.len() implies #[trigger] field_of_node(
                g,
                ids[i],
                k,
            ) is None by {
                if i < last {
                    assert(field_of_node(g, shorter[i], k) is None);
                }
            }
        }
    } else {
        assert(field_of_node(g, ids[last], k) is Some);
    }
}

// ---------------------------------------------------------------------
// Joining
// ---------------------------------------------------------------------

/// A concat node resolves to the chains that feed it, one for each of its
/// wires and in their order, all of one kind; nothing else is asked for yet.
pub proof fn segments_follow_the_wires(g: GraphView, id: NodeId)
    requires
        g.modifier(id) is Some,
        g.modifier(id)->0.kind is Concat,
    ensures
        resolve_spec(g, Endpoint::ModifierOut(id)) matches Some(r) ==> {
            let sources = feeds(g.wires, Target::ModifierIn(id));
            &&& r matches ResolvedView::Concat { kind, segments, settings }
            &&& segments.len() == sources.len() > 0
            &&& forall|i: int|
                0 <= i < sources.len() ==> resolve_spec(g, sources[i]) == Some(
                    #[trigger] segments[i],
                )
            &&& forall|i: int|
                0 <= i < segments.len() ==> resolved_kind(g, #[trigger] segments[i]) == Some(kind)
            &&& settings.filters.len() == 0 && settings.metadata.len() == 0
            &&& settings.codec is Copy && settings.disposition is None
        },
{
    let sources = feeds(g.wires, Target::ModifierIn(id));
    lemma_walks_are_resolved(g, sources, sources.len(), 1);
}

} // verus!
