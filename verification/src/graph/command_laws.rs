//! What holds of command lines as a whole.
use vstd::prelude::*;

use super::args::{chains_upto, chapter_index, edited_upto, expressions_upto, ffmpeg_args, file_args_upto, input_args_upto, maps_upto, number_fields, number_fields_upto, or_empty, output_chains, preview_args, refs_upto, section_spec, sections_upto, seek_from, source_spec, sourced_from, sourced_upto, Args, ChapterFileView, Plumbing, SeekKeyView, SeekView, Sourced};
use super::node::{numeral, InputView, KindView, ModifierNode, ModifierView, NumeralView, OutputView};
use super::resolve::{at_least, feeds, hops_left, output_chapters_spec, resolve_spec, walk, walk_upto, FilterStepView, ResolvedView, Settings, MAX_HOPS};
use super::stream::StreamKind;
use super::wire::{Endpoint, NodeId, Target};
use super::{feed, lemma_position, GraphView};
use crate::fields::{field_get, Entry};
use crate::text::decimal;

verus! {

// ---------------------------------------------------------------------
// Seeked inputs
// ---------------------------------------------------------------------

proof fn lemma_seek_from(keys: Seq<SeekKeyView>, k: SeekKeyView, i: int)
    requires
        0 <= i,
    ensures
        match seek_from(keys, k, i) {
            Some(p) => i <= p < keys.len() && keys[p] == k,
            None => forall|j: int| i <= j < keys.len() ==> keys[j] != k,
        },
    decreases keys.len() - i,
{
    if i < keys.len() && keys[i] != k {
        lemma_seek_from(keys, k, i + 1);
    }
}

proof fn lemma_seek_last(keys: Seq<SeekKeyView>, k: SeekKeyView, i: int)
    requires
        0 <= i <= keys.len(),
        forall|j: int| i <= j < keys.len() ==> keys[j] != k,
    ensures
        seek_from(keys.push(k), k, i) == Some(keys.len() as int),
    decreases keys.len() - i,
{
    if i < keys.len() {
        lemma_seek_last(keys, k, i + 1);
    }
}

/// A window that is asked for again is not opened again.
pub proof fn window_is_opened_once(
    seeks: SeekView,
    ns: Seq<NumeralView>,
    input: InputView,
    start: Option<Seq<char>>,
    end: Option<Seq<char>>,
)
    ensures
        ({
            let (index, opened) = seeks.get(ns, input, start, end);
            opened.get(ns, input, start, end) == (index, opened)
        }),
{
    let k = SeekKeyView { node: input.id, start: or_empty(start), end: or_empty(end) };
    lemma_seek_from(seeks.keys, k, 0);
    if seek_from(seeks.keys, k, 0) is None {
        lemma_seek_last(seeks.keys, k, 0);
    }
}

/// An input that is opened for a window keeps its file index, and stands
/// behind the inputs that were opened before it.
pub proof fn opened_windows_keep_their_index(
    seeks: SeekView,
    ns: Seq<NumeralView>,
    input: InputView,
    start: Option<Seq<char>>,
    end: Option<Seq<char>>,
    other: SeekKeyView,
)
    ensures
        ({
            let (index, opened) = seeks.get(ns, input, start, end);
            &&& seeks.first_index <= index < opened.first_index + opened.keys.len()
            &&& opened.first_index == seeks.first_index
            &&& seek_from(seeks.keys, other, 0) is Some ==> seek_from(opened.keys, other, 0)
                == seek_from(seeks.keys, other, 0)
        }),
{
    let k = SeekKeyView { node: input.id, start: or_empty(start), end: or_empty(end) };
    lemma_seek_from(seeks.keys, k, 0);
    lemma_seek_from(seeks.keys, other, 0);
    if seek_from(seeks.keys, other, 0) is Some {
        lemma_seek_kept(seeks.keys, k, other, 0);
    }
}

proof fn lemma_seek_kept(keys: Seq<SeekKeyView>, k: SeekKeyView, other: SeekKeyView, i: int)
    requires
        0 <= i,
        seek_from(keys, other, i) is Some,
    ensures
        seek_from(keys.push(k), other, i) == seek_from(keys, other, i),
    decreases keys.len() - i,
{
    if i < keys.len() && keys[i] != other {
        lemma_seek_kept(keys, k, other, i + 1);
    }
}

// ---------------------------------------------------------------------
// Sections
// ---------------------------------------------------------------------

/// Whether a chain can be referred to: its streams are there, and what it
/// joins is video or audio.
pub open spec fn referable(g: GraphView, r: ResolvedView) -> bool
    decreases r,
{
    match r {
        ResolvedView::Stream { from_node, from_stream_idx, .. } => g.input(from_node) matches Some(
            input,
        ) && (from_stream_idx as int) < input.streams.len(),
        ResolvedView::Concat { kind, segments, .. } => {
            &&& kind == StreamKind::Video || kind == StreamKind::Audio
            &&& forall|i: int|
                0 <= i < segments.len() ==> referable(g, #[trigger] segments[i])
        },
    }
}

/// Whether a source comes down to something that can be mapped.
pub open spec fn mappable(g: GraphView, source: Endpoint) -> bool {
    resolve_spec(g, source) matches Some(r) && referable(g, r)
}

/// Whether something is mapped into output `id`: one of its wires comes from a
/// chain that resolves and can be referred to.
pub open spec fn something_mapped(g: GraphView, id: NodeId) -> bool {
    exists|k: int|
        0 <= k < feeds(g.wires, Target::Output(id)).len() && mappable(
            g,
            #[trigger] feeds(g.wires, Target::Output(id))[k],
        )
}

/// A chain has a source exactly where it can be referred to, whatever its
/// parameters are worth and whatever entries and inputs there are already.
pub proof fn source_is_there_where_referable(
    g: GraphView,
    r: ResolvedView,
    ns: Seq<NumeralView>,
    st: Plumbing,
)
    ensures
        source_spec(g, r, ns, st).0 is Some <==> referable(g, r),
    decreases r, 0nat,
{
    if let ResolvedView::Concat { segments, .. } = r {
        lemma_refs_referable(g, segments, ns, st, segments.len());
    }
}

proof fn lemma_refs_referable(
    g: GraphView,
    segments: Seq<ResolvedView>,
    ns: Seq<NumeralView>,
    st: Plumbing,
    n: nat,
)
    requires
        n <= segments.len(),
    ensures
        refs_upto(g, segments, ns, st, n).0 is Some <==> forall|i: int|
            0 <= i < n ==> referable(g, #[trigger] segments[i]),
    decreases segments, n,
{
    if n > 0 {
        lemma_refs_referable(g, segments, ns, st, (n - 1) as nat);
        let st1 = refs_upto(g, segments, ns, st, (n - 1) as nat).1;
        source_is_there_where_referable(g, segments[n - 1], ns, st1);
        if refs_upto(g, segments, ns, st, n).0 is Some {
            assert forall|i: int| 0 <= i < n implies referable(g, #[trigger] segments[i]) by {
                if i < n - 1 {
                    assert(referable(g, segments[i]));
                }
            }
        }
    }
}

proof fn lemma_maps_found(
    g: GraphView,
    chains: Seq<ResolvedView>,
    ns: Seq<NumeralView>,
    st: Plumbing,
    n: int,
)
    requires
        0 <= n <= chains.len(),
    ensures
        ({
            let maps = maps_upto(g, chains, ns, st, n).0;
            &&& maps.len() > 0 <==> exists|i: int| 0 <= i < n && referable(g, #[trigger] chains[i])
            &&& maps.len() > 0 ==> maps.len() > 1 && maps[0] == "-map"@
        }),
    decreases n,
{
    if n > 0 {
        lemma_maps_found(g, chains, ns, st, n - 1);
        let (args, _, st1) = maps_upto(g, chains, ns, st, n - 1);
        let last = chains[n - 1];
        source_is_there_where_referable(g, last, ns, st1);
        if args.len() > 0 {
            let i = choose|i: int| 0 <= i < n - 1 && referable(g, #[trigger] chains[i]);
            assert(0 <= i < n && referable(g, chains[i]));
        }
    }
}

proof fn lemma_chains_found(g: GraphView, sources: Seq<Endpoint>, n: int)
    requires
        0 <= n <= sources.len(),
    ensures
        ({
            let chains = chains_upto(g, sources, n);
            (exists|i: int| 0 <= i < chains.len() && referable(g, #[trigger] chains[i])) <==> (
            exists|k: int| 0 <= k < n && mappable(g, #[trigger] sources[k]))
        }),
    decreases n,
{
    if n > 0 {
        lemma_chains_found(g, sources, n - 1);
        let before = chains_upto(g, sources, n - 1);
        let chains = chains_upto(g, sources, n);
        if exists|i: int| 0 <= i < chains.len() && referable(g, #[trigger] chains[i]) {
            let i = choose|i: int| 0 <= i < chains.len() && referable(g, #[trigger] chains[i]);
            if i < before.len() {
                assert(referable(g, before[i]));
                let k = choose|k: int| 0 <= k < n - 1 && mappable(g, #[trigger] sources[k]);
                assert(0 <= k < n && mappable(g, sources[k]));
            } else {
                assert(mappable(g, sources[n - 1]));
            }
        }
        if exists|k: int| 0 <= k < n && mappable(g, #[trigger] sources[k]) {
            let k = choose|k: int| 0 <= k < n && mappable(g, #[trigger] sources[k]);
            if k < n - 1 {
                let i = choose|i: int| 0 <= i < before.len() && referable(g, #[trigger] before[i]);
                assert(referable(g, chains[i]));
            } else {
                assert(referable(g, chains[chains.len() - 1]));
            }
        }
    }
}

/// An output has `-map` arguments exactly where one of its wires comes from a
/// chain that resolves and can be referred to.
pub proof fn mapped_where_a_wire_resolves(
    g: GraphView,
    id: NodeId,
    ns: Seq<NumeralView>,
    st: Plumbing,
)
    ensures
        ({
            let chains = output_chains(g, id);
            let maps = maps_upto(g, chains, ns, st, chains.len() as int).0;
            &&& maps.len() > 0 <==> something_mapped(g, id)
            &&& maps.len() > 0 ==> maps.len() > 1 && maps[0] == "-map"@
        }),
{
    let sources = feeds(g.wires, Target::Output(id));
    let chains = output_chains(g, id);
    lemma_chains_found(g, sources, sources.len() as int);
    lemma_maps_found(g, chains, ns, st, chains.len() as int);
}

/// An output has a section exactly where something is mapped into it. Every
/// section begins with a `-map`, so that ffmpeg never chooses the streams by
/// itself, and ends with the path that is written.
pub proof fn section_is_there_where_something_is_mapped(
    g: GraphView,
    output: OutputView,
    path: Seq<char>,
    extra: Args,
    ns: Seq<NumeralView>,
    chapter_input: Option<nat>,
    st: Plumbing,
)
    ensures
        ({
            let (section, st1) = section_spec(g, output, path, extra, ns, chapter_input, st);
            &&& section is Some <==> something_mapped(g, output.id)
            &&& section is None ==> st1 == st
            &&& section matches Some(args) ==> args.len() > 2 && args[0] == "-map"@ && args.last()
                == path
        }),
{
    mapped_where_a_wire_resolves(g, output.id, ns, st);
}

/// An output into which nothing is mapped leaves no trace among the sections:
/// neither arguments nor filters nor seeked inputs.
pub proof fn unmapped_output_leaves_no_trace(
    g: GraphView,
    ns: Seq<NumeralView>,
    sourced: Seq<Sourced>,
    edited: Seq<NodeId>,
    st: Plumbing,
    n: int,
)
    requires
        0 < n <= g.outputs.len(),
        !something_mapped(g, g.outputs[n - 1].id),
    ensures
        sections_upto(g, ns, sourced, edited, st, n) == sections_upto(
            g,
            ns,
            sourced,
            edited,
            st,
            n - 1,
        ),
{
    let output = g.outputs[n - 1];
    section_is_there_where_something_is_mapped(
        g,
        output,
        output.path,
        Seq::empty(),
        ns,
        chapter_index(sourced_from(sourced, output.id, 0), g.inputs.len(), edited),
        sections_upto(g, ns, sourced, edited, st, n - 1).1,
    );
}

proof fn lemma_no_sections(
    g: GraphView,
    ns: Seq<NumeralView>,
    sourced: Seq<Sourced>,
    edited: Seq<NodeId>,
    st: Plumbing,
    n: int,
)
    requires
        0 <= n <= g.outputs.len(),
        forall|i: int|
            0 <= i < g.outputs.len() ==> !something_mapped(g, (#[trigger] g.outputs[i]).id),
    ensures
        sections_upto(g, ns, sourced, edited, st, n) == (Seq::<Seq<char>>::empty(), st),
    decreases n,
{
    if n > 0 {
        lemma_no_sections(g, ns, sourced, edited, st, n - 1);
        unmapped_output_leaves_no_trace(g, ns, sourced, edited, st, n);
    }
}

/// Where nothing is mapped into any output, the command line opens the inputs
/// and the files of chapter nodes, and writes nothing.
pub proof fn nothing_is_written_where_nothing_is_mapped(
    g: GraphView,
    files: Seq<ChapterFileView>,
    ns: Seq<NumeralView>,
)
    requires
        forall|i: int|
            0 <= i < g.outputs.len() ==> !something_mapped(g, (#[trigger] g.outputs[i]).id),
    ensures
        ({
            let sourced = sourced_upto(g, g.outputs.len() as int);
            let edited = edited_upto(sourced, files, sourced.len() as int);
            ffmpeg_args(g, files, ns) == seq!["-y"@] + input_args_upto(
                g.inputs,
                g.inputs.len() as int,
            ) + file_args_upto(edited, files, edited.len() as int)
        }),
{
    let sourced = sourced_upto(g, g.outputs.len() as int);
    let edited = edited_upto(sourced, files, sourced.len() as int);
    let st = Plumbing {
        filters: Seq::empty(),
        seeks: SeekView::starting_at((g.inputs.len() + edited.len()) as nat),
    };
    lemma_no_sections(g, ns, sourced, edited, st, g.outputs.len() as int);
    assert(ffmpeg_args(g, files, ns) =~= seq!["-y"@] + input_args_upto(
        g.inputs,
        g.inputs.len() as int,
    ) + file_args_upto(edited, files, edited.len() as int));
}

/// A preview is rendered exactly of an output that is there and into which
/// something is mapped, and its command line ends with the preview's path.
pub proof fn preview_needs_a_mapping(
    g: GraphView,
    id: NodeId,
    path: Seq<char>,
    seconds: nat,
    files: Seq<ChapterFileView>,
    ns: Seq<NumeralView>,
)
    ensures
        ({
            let args = preview_args(g, id, path, seconds, files, ns);
            &&& args is Some <==> (g.output(id) matches Some(output) && something_mapped(
                g,
                output.id,
            ))
            &&& args matches Some(a) ==> a.contains("-map"@) && a.last() == path
        }),
{
    if let Some(output) = g.output(id) {
        let source = output_chapters_spec(g, output.id);
        let sourced = match source {
            Some(s) => seq![(output.id, s)],
            None => Seq::empty(),
        };
        let edited = edited_upto(sourced, files, sourced.len() as int);
        let st = Plumbing {
            filters: Seq::empty(),
            seeks: SeekView::starting_at((g.inputs.len() + edited.len()) as nat),
        };
        let extra = seq!["-t"@, decimal(seconds)];
        let chapters = chapter_index(source, g.inputs.len(), edited);
        section_is_there_where_something_is_mapped(g, output, path, extra, ns, chapters, st);
        let (section, _) = section_spec(g, output, path, extra, ns, chapters, st);
        if let Some(more) = section {
            let a = preview_args(g, id, path, seconds, files, ns)->0;
            assert(a[a.len() - more.len()] == more[0]);
        }
    }
}

// ---------------------------------------------------------------------
// What the field texts are worth
// ---------------------------------------------------------------------

/// Two valuations agree on a filter's parameters.
pub open spec fn agree_on(a: Seq<NumeralView>, b: Seq<NumeralView>, fields: Seq<Entry>) -> bool {
    &&& field_get(fields, "seconds"@) matches Some(t) ==> numeral(a, t) == numeral(b, t)
    &&& field_get(fields, "end"@) matches Some(t) ==> numeral(a, t) == numeral(b, t)
}

/// Two valuations agree on the parameters of all these filters.
pub open spec fn agree_on_steps(
    a: Seq<NumeralView>,
    b: Seq<NumeralView>,
    steps: Seq<FilterStepView>,
) -> bool {
    forall|i: int| 0 <= i < steps.len() ==> agree_on(a, b, (#[trigger] steps[i]).fields)
}

/// Two valuations agree on all filters of a chain.
pub open spec fn agree_on_chain(a: Seq<NumeralView>, b: Seq<NumeralView>, r: ResolvedView) -> bool
    decreases r,
{
    match r {
        ResolvedView::Stream { settings, .. } => agree_on_steps(a, b, settings.filters),
        ResolvedView::Concat { segments, settings, .. } => {
            &&& agree_on_steps(a, b, settings.filters)
            &&& forall|i: int|
                0 <= i < segments.len() ==> agree_on_chain(a, b, #[trigger] segments[i])
        },
    }
}

/// Two valuations agree on all modifiers of a graph.
pub open spec fn agree_on_graph(a: Seq<NumeralView>, b: Seq<NumeralView>, g: GraphView) -> bool {
    forall|i: int|
        0 <= i < g.modifiers.len() ==> ((#[trigger] g.modifiers[i]).kind matches KindView::Filter {
            fields,
            ..
        } ==> agree_on(a, b, fields))
}

proof fn lemma_walk_agrees(
    a: Seq<NumeralView>,
    b: Seq<NumeralView>,
    g: GraphView,
    from: Endpoint,
    acc: Settings,
    hops: nat,
)
    requires
        agree_on_graph(a, b, g),
        agree_on_steps(a, b, acc.filters),
    ensures
        walk(g, from, acc, hops).0 matches Some(r) ==> agree_on_chain(a, b, r),
    decreases hops_left(hops), 0nat,
{
    if hops < MAX_HOPS {
        let h = hops + 1;
        if let Endpoint::ModifierOut(mid) = from {
            if let Some(m) = g.modifier(mid) {
                lemma_position::<ModifierNode>(g.modifiers, mid);
                match m.kind {
                    KindView::ChapterEdit { .. } => {},
                    KindView::Concat => {
                        let sources = feeds(g.wires, Target::ModifierIn(mid));
                        if sources.len() > 0 {
                            lemma_walks_agree(a, b, g, sources, sources.len(), h);
                        }
                    },
                    _ => {
                        if let Some(source) = feed(g.wires, Target::ModifierIn(mid)) {
                            let next = acc.upstream(m.kind);
                            assert(agree_on_steps(a, b, next.filters)) by {
                                if let KindView::Filter { name, fields } = m.kind {
                                    assert forall|i: int| 0 <= i < next.filters.len() implies
                                        agree_on(a, b, (#[trigger] next.filters[i]).fields) by {
                                        if i > 0 {
                                            assert(next.filters[i] == acc.filters[i - 1]);
                                        }
                                    }
                                }
                            }
                            lemma_walk_agrees(a, b, g, source, next, h);
                        }
                    },
                }
            }
        }
    }
}

proof fn lemma_walks_agree(
    a: Seq<NumeralView>,
    b: Seq<NumeralView>,
    g: GraphView,
    sources: Seq<Endpoint>,
    n: nat,
    hops: nat,
)
    requires
        agree_on_graph(a, b, g),
    ensures
        walk_upto(g, sources, n, hops).0 matches Some(s) ==> forall|i: int|
            0 <= i < s.len() ==> agree_on_chain(a, b, #[trigger] s[i]),
    decreases hops_left(hops), n,
{
    if n > 0 {
        lemma_walks_agree(a, b, g, sources, (n - 1) as nat, hops);
        let (before, h) = walk_upto(g, sources, (n - 1) as nat, hops);
        if before is Some {
            lemma_walk_agrees(a, b, g, sources[n - 1], Settings::plain(), at_least(h, hops));
        }
    }
}

proof fn lemma_chains_agree(
    a: Seq<NumeralView>,
    b: Seq<NumeralView>,
    g: GraphView,
    sources: Seq<Endpoint>,
    n: int,
)
    requires
        agree_on_graph(a, b, g),
    ensures
        forall|i: int|
            0 <= i < chains_upto(g, sources, n).len() ==> agree_on_chain(
                a,
                b,
                #[trigger] chains_upto(g, sources, n)[i],
            ),
    decreases n,
{
    if n > 0 {
        lemma_chains_agree(a, b, g, sources, n - 1);
        lemma_walk_agrees(a, b, g, sources[n - 1], Settings::plain(), 0);
        let p = chains_upto(g, sources, n - 1);
        let q = chains_upto(g, sources, n);
        assert forall|i: int| 0 <= i < q.len() implies agree_on_chain(a, b, #[trigger] q[i]) by {
            if i < p.len() {
                assert(agree_on_chain(a, b, p[i]));
            }
        }
    }
}

proof fn lemma_expressions_agree(
    a: Seq<NumeralView>,
    b: Seq<NumeralView>,
    steps: Seq<FilterStepView>,
    kind: StreamKind,
    n: int,
)
    requires
        agree_on_steps(a, b, steps),
        n <= steps.len(),
    ensures
        expressions_upto(steps, kind, a, n) == expressions_upto(steps, kind, b, n),
    decreases n,
{
    if n > 0 {
        lemma_expressions_agree(a, b, steps, kind, n - 1);
        assert(agree_on(a, b, steps[n - 1].fields));
    }
}

proof fn lemma_source_agrees(
    a: Seq<NumeralView>,
    b: Seq<NumeralView>,
    g: GraphView,
    r: ResolvedView,
    st: Plumbing,
)
    requires
        agree_on_chain(a, b, r),
    ensures
        source_spec(g, r, a, st) == source_spec(g, r, b, st),
    decreases r, 0nat,
{
    match r {
        ResolvedView::Stream { from_node, from_stream_idx, settings } => {
            if let Some(input) = g.input(from_node) {
                if (from_stream_idx as int) < input.streams.len() {
                    let kind = input.streams[from_stream_idx as int].kind;
                    let steps = settings.filters;
                    lemma_expressions_agree(a, b, steps, kind, steps.len() as int);
                    if steps.len() == 1 {
                        assert(agree_on(a, b, steps[0].fields));
                    }
                }
            }
        },
        ResolvedView::Concat { kind, segments, settings } => {
            lemma_refs_agree(a, b, g, segments, st, segments.len());
            lemma_expressions_agree(a, b, settings.filters, kind, settings.filters.len() as int);
        },
    }
}

proof fn lemma_refs_agree(
    a: Seq<NumeralView>,
    b: Seq<NumeralView>,
    g: GraphView,
    segments: Seq<ResolvedView>,
    st: Plumbing,
    n: nat,
)
    requires
        forall|i: int| 0 <= i < segments.len() ==> agree_on_chain(a, b, #[trigger] segments[i]),
    ensures
        refs_upto(g, segments, a, st, n) == refs_upto(g, segments, b, st, n),
    decreases segments, n,
{
    if n > 0 && n <= segments.len() {
        lemma_refs_agree(a, b, g, segments, st, (n - 1) as nat);
        let (before, st1) = refs_upto(g, segments, a, st, (n - 1) as nat);
        if before is Some {
            lemma_source_agrees(a, b, g, segments[n - 1], st1);
        }
    }
}

proof fn lemma_maps_agree(
    a: Seq<NumeralView>,
    b: Seq<NumeralView>,
    g: GraphView,
    chains: Seq<ResolvedView>,
    st: Plumbing,
    n: int,
)
    requires
        n <= chains.len(),
        forall|i: int| 0 <= i < chains.len() ==> agree_on_chain(a, b, #[trigger] chains[i]),
    ensures
        maps_upto(g, chains, a, st, n) == maps_upto(g, chains, b, st, n),
    decreases n,
{
    if n > 0 {
        lemma_maps_agree(a, b, g, chains, st, n - 1);
        lemma_source_agrees(a, b, g, chains[n - 1], maps_upto(g, chains, a, st, n - 1).2);
    }
}

proof fn lemma_section_agrees(
    a: Seq<NumeralView>,
    b: Seq<NumeralView>,
    g: GraphView,
    output: OutputView,
    path: Seq<char>,
    extra: Args,
    chapter_input: Option<nat>,
    st: Plumbing,
)
    requires
        agree_on_graph(a, b, g),
    ensures
        section_spec(g, output, path, extra, a, chapter_input, st) == section_spec(
            g,
            output,
            path,
            extra,
            b,
            chapter_input,
            st,
        ),
{
    let sources = feeds(g.wires, Target::Output(output.id));
    lemma_chains_agree(a, b, g, sources, sources.len() as int);
    let chains = output_chains(g, output.id);
    lemma_maps_agree(a, b, g, chains, st, chains.len() as int);
}

proof fn lemma_sections_agree(
    a: Seq<NumeralView>,
    b: Seq<NumeralView>,
    g: GraphView,
    sourced: Seq<Sourced>,
    edited: Seq<NodeId>,
    st: Plumbing,
    n: int,
)
    requires
        agree_on_graph(a, b, g),
    ensures
        sections_upto(g, a, sourced, edited, st, n) == sections_upto(
            g,
            b,
            sourced,
            edited,
            st,
            n,
        ),
    decreases n,
{
    if n > 0 {
        lemma_sections_agree(a, b, g, sourced, edited, st, n - 1);
        let output = g.outputs[n - 1];
        lemma_section_agrees(
            a,
            b,
            g,
            output,
            output.path,
            Seq::empty(),
            chapter_index(sourced_from(sourced, output.id, 0), g.inputs.len(), edited),
            sections_upto(g, a, sourced, edited, st, n - 1).1,
        );
    }
}

proof fn lemma_listed(modifiers: Seq<ModifierView>, n: int, k: int, t: Seq<char>)
    requires
        0 <= k < n <= modifiers.len(),
        number_fields(modifiers[k].kind).contains(t),
    ensures
        number_fields_upto(modifiers, n).contains(t),
    decreases n,
{
    let p = number_fields_upto(modifiers, n - 1);
    let q = number_fields(modifiers[n - 1].kind);
    if k < n - 1 {
        lemma_listed(modifiers, n - 1, k, t);
        let i = choose|i: int| 0 <= i < p.len() && p[i] == t;
        assert((p + q)[i] == t);
    } else {
        let i = choose|i: int| 0 <= i < q.len() && q[i] == t;
        assert((p + q)[p.len() + i] == t);
    }
}

/// The command lines depend on what the texts of `Graph::numeral_texts` are
/// worth, and on no other valuation: two tables that agree on those texts give
/// the same arguments.
pub proof fn listed_numerals_suffice(
    g: GraphView,
    files: Seq<ChapterFileView>,
    a: Seq<NumeralView>,
    b: Seq<NumeralView>,
    id: NodeId,
    path: Seq<char>,
    seconds: nat,
)
    requires
        forall|t: Seq<char>|
            number_fields_upto(g.modifiers, g.modifiers.len() as int).contains(t) ==> numeral(a, t)
                == #[trigger] numeral(b, t),
    ensures
        ffmpeg_args(g, files, a) == ffmpeg_args(g, files, b),
        preview_args(g, id, path, seconds, files, a) == preview_args(
            g,
            id,
            path,
            seconds,
            files,
            b,
        ),
{
    assert(agree_on_graph(a, b, g)) by {
        assert forall|i: int| 0 <= i < g.modifiers.len() implies ((
        #[trigger] g.modifiers[i]).kind matches KindView::Filter { fields, .. } ==> agree_on(
            a,
            b,
            fields,
        )) by {
            if let KindView::Filter { fields, .. } = g.modifiers[i].kind {
                let n = g.modifiers.len() as int;
                let q = number_fields(g.modifiers[i].kind);
                if let Some(t) = field_get(fields, "seconds"@) {
                    assert(q[0] == t);
                    lemma_listed(g.modifiers, n, i, t);
                }
                if let Some(t) = field_get(fields, "end"@) {
                    assert(q[q.len() - 1] == t);
                    lemma_listed(g.modifiers, n, i, t);
                }
            }
        }
    }
    let sourced = sourced_upto(g, g.outputs.len() as int);
    let edited = edited_upto(sourced, files, sourced.len() as int);
    let st = Plumbing {
        filters: Seq::empty(),
        seeks: SeekView::starting_at((g.inputs.len() + edited.len()) as nat),
    };
    lemma_sections_agree(a, b, g, sourced, edited, st, g.outputs.len() as int);
    if let Some(output) = g.output(id) {
        let source = output_chapters_spec(g, output.id);
        let one = match source {
            Some(s) => seq![(output.id, s)],
            None => Seq::empty(),
        };
        let needed = edited_upto(one, files, one.len() as int);
        let start = Plumbing {
            filters: Seq::empty(),
            seeks: SeekView::starting_at((g.inputs.len() + needed.len()) as nat),
        };
        lemma_section_agrees(
            a,
            b,
            g,
            output,
            path,
            seq!["-t"@, decimal(seconds)],
            chapter_index(source, g.inputs.len(), needed),
            start,
        );
    }
}

} // verus!
