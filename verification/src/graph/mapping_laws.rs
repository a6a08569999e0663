//! How streams are referred to, filtered, joined and mapped.
use vstd::prelude::*;

use super::args::{
    add_entry, all_copied, chains_upto, codec_args, disposition_args, edited_upto, entry_label,
    expressions, expressions_upto, ffmpeg_args, file_args_upto, filter_args, input_args_upto,
    maps_upto, metadata_args_upto, output_chains, output_tail, refs_upto, section_spec,
    sections_upto, source_spec, sourced_upto, stream_args, stream_args_upto, unbracketed, Args,
    ChapterFileView, Plumbing, SeekView, Source,
};
use super::command_laws::{mappable, referable, source_is_there_where_referable};
use super::node::{FilterName, NumeralView, OutputView};
use super::opening_laws::{at_start, lemma_input_at, lemma_option_words, option_words};
use super::resolve::{feeds, resolve_spec, FilterStepView, ResolvedView, Settings};
use super::stream::{CodecView, StreamKind};
use super::wire::{Endpoint, NodeId, Target};
use super::GraphView;
use crate::fields::{field_get, Entry};
use crate::text::{decimal, join_spec, join_upto};

verus! {

// ---------------------------------------------------------------------
// Texts one after the other
// ---------------------------------------------------------------------

/// The parts one after the other, from the first on, with `sep` between them.
pub open spec fn strung(parts: Args, sep: Seq<char>) -> Seq<char>
    decreases parts.len(),
{
    if parts.len() == 0 {
        Seq::empty()
    } else if parts.len() == 1 {
        parts[0]
    } else {
        parts[0] + sep + strung(parts.skip(1), sep)
    }
}

/// The parts end to end, from the first on.
pub open spec fn end_to_end(parts: Args) -> Seq<char>
    decreases parts.len(),
{
    if parts.len() == 0 {
        Seq::empty()
    } else {
        parts[0] + end_to_end(parts.skip(1))
    }
}

proof fn lemma_strung_push(parts: Args, sep: Seq<char>)
    requires
        parts.len() > 1,
    ensures
        strung(parts, sep) == strung(parts.drop_last(), sep) + sep + parts.last(),
    decreases parts.len(),
{
    if parts.len() == 2 {
        assert(parts.skip(1) =~= seq![parts[1]]);
        assert(parts.drop_last() =~= seq![parts[0]]);
        assert(strung(parts.skip(1), sep) == parts[1]);
        assert(strung(parts.drop_last(), sep) == parts[0]);
    } else {
        lemma_strung_push(parts.skip(1), sep);
        assert(parts.skip(1).drop_last() =~= parts.drop_last().skip(1));
        assert(strung(parts, sep) =~= strung(parts.drop_last(), sep) + sep + parts.last());
    }
}

/// Joining strings the parts together in their order.
pub proof fn joining_keeps_the_order(parts: Args, sep: Seq<char>)
    ensures
        join_spec(parts, sep) == strung(parts, sep),
{
    lemma_joined_upto(parts, sep, parts.len() as int);
    assert(parts.take(parts.len() as int) =~= parts);
}

proof fn lemma_joined_upto(parts: Args, sep: Seq<char>, n: int)
    requires
        0 <= n <= parts.len(),
    ensures
        join_upto(parts, sep, n) == strung(parts.take(n), sep),
    decreases n,
{
    if n > 1 {
        lemma_joined_upto(parts, sep, n - 1);
        lemma_strung_push(parts.take(n), sep);
        assert(parts.take(n).drop_last() =~= parts.take(n - 1));
    }
}

proof fn lemma_end_to_end_push(parts: Args, last: Seq<char>)
    ensures
        end_to_end(parts.push(last)) == end_to_end(parts) + last,
    decreases parts.len(),
{
    let all = parts.push(last);
    if parts.len() == 0 {
        assert(all.skip(1) =~= Seq::empty());
        assert(end_to_end(Seq::empty()) =~= Seq::<char>::empty());
        assert(all[0] == last);
        assert(end_to_end(all) =~= end_to_end(parts) + last);
    } else {
        lemma_end_to_end_push(parts.skip(1), last);
        assert(all.skip(1) =~= parts.skip(1).push(last));
        assert(end_to_end(all) =~= end_to_end(parts) + last);
    }
}

// ---------------------------------------------------------------------
// Filters
// ---------------------------------------------------------------------

/// What filters say in the filtergraph, from the first on; one that does
/// nothing says nothing.
pub open spec fn spoken(steps: Seq<FilterStepView>, kind: StreamKind, ns: Seq<NumeralView>) -> Args
    decreases steps.len(),
{
    if steps.len() == 0 {
        Seq::empty()
    } else {
        let rest = spoken(steps.skip(1), kind, ns);
        match steps[0].name.expression_spec(kind, steps[0].fields, ns) {
            Some(e) => seq![e] + rest,
            None => rest,
        }
    }
}

proof fn lemma_spoken_push(steps: Seq<FilterStepView>, kind: StreamKind, ns: Seq<NumeralView>)
    requires
        steps.len() > 0,
    ensures
        spoken(steps, kind, ns) == (match steps.last().name.expression_spec(
            kind,
            steps.last().fields,
            ns,
        ) {
            Some(e) => spoken(steps.drop_last(), kind, ns).push(e),
            None => spoken(steps.drop_last(), kind, ns),
        }),
    decreases steps.len(),
{
    if steps.len() == 1 {
        assert(steps.skip(1) =~= Seq::empty());
        assert(steps.drop_last() =~= Seq::empty());
        assert(spoken(steps.skip(1), kind, ns) =~= Seq::empty());
        assert(spoken(steps.drop_last(), kind, ns) =~= Seq::empty());
        if let Some(e) = steps[0].name.expression_spec(kind, steps[0].fields, ns) {
            assert(spoken(steps, kind, ns) =~= spoken(steps.drop_last(), kind, ns).push(e));
        }
    } else {
        lemma_spoken_push(steps.skip(1), kind, ns);
        assert(steps.skip(1).drop_last() =~= steps.drop_last().skip(1));
        assert(steps.skip(1).last() == steps.last());
        if let Some(e) = steps.last().name.expression_spec(kind, steps.last().fields, ns) {
            assert(spoken(steps, kind, ns) =~= spoken(steps.drop_last(), kind, ns).push(e));
        } else {
            assert(spoken(steps, kind, ns) =~= spoken(steps.drop_last(), kind, ns));
        }
    }
}

proof fn lemma_expressions_spoken(
    steps: Seq<FilterStepView>,
    kind: StreamKind,
    ns: Seq<NumeralView>,
    n: int,
)
    requires
        0 <= n <= steps.len(),
    ensures
        expressions_upto(steps, kind, ns, n) == spoken(steps.take(n), kind, ns),
    decreases n,
{
    if n > 0 {
        lemma_expressions_spoken(steps, kind, ns, n - 1);
        lemma_spoken_push(steps.take(n), kind, ns);
        assert(steps.take(n).drop_last() =~= steps.take(n - 1));
    }
}

proof fn lemma_spoken(steps: Seq<FilterStepView>, kind: StreamKind, ns: Seq<NumeralView>)
    ensures
        expressions(steps, kind, ns) == spoken(steps, kind, ns),
{
    lemma_expressions_spoken(steps, kind, ns, steps.len() as int);
    assert(steps.take(steps.len() as int) =~= steps);
}

// ---------------------------------------------------------------------
// References
// ---------------------------------------------------------------------

/// A file and a stream of it, as ffmpeg's filtergraph names them.
pub open spec fn file_and_stream(file: nat, stream: nat) -> Seq<char> {
    "["@ + decimal(file) + ":"@ + decimal(stream) + "]"@
}

/// The name of the filtergraph entry at a position.
pub open spec fn entry_name(n: nat) -> Seq<char> {
    "[f"@ + decimal(n) + "]"@
}

proof fn lemma_entry_name(n: nat)
    ensures
        "["@ + entry_label(n) + "]"@ == entry_name(n),
{
    reveal_strlit("[");
    reveal_strlit("f");
    reveal_strlit("[f");
    assert("["@ + "f"@ =~= "[f"@);
    assert("["@ + entry_label(n) + "]"@ =~= entry_name(n));
}

proof fn lemma_entry(filters: Args, input: Seq<char>, body: Seq<char>)
    ensures
        add_entry(filters, input, body) == filters.push(input + body + entry_name(filters.len())),
{
    lemma_entry_name(filters.len());
    assert(input + body + "["@ + entry_label(filters.len()) + "]"@ =~= input + body + (
    "["@ + entry_label(filters.len()) + "]"@));
}

/// Whether a chain is read from an input that is opened for its window: its
/// only filter is a trim that does something.
pub open spec fn reads_a_window(
    settings: Settings,
    kind: StreamKind,
    ns: Seq<NumeralView>,
) -> bool {
    settings.filters.len() == 1 && settings.filters[0].name == FilterName::Trim && spoken(
        settings.filters,
        kind,
        ns,
    ).len() > 0
}

/// A stream of the input at position `p` is taken from file `p`, by its own
/// index there, or from the input that is opened for its window. Without
/// filters that do something it is referred to as just that; with them, by an
/// entry that applies them to it, in the order in which the stream passes
/// them.
pub proof fn stream_is_taken_from_its_file(
    g: GraphView,
    p: int,
    i: usize,
    settings: Settings,
    ns: Seq<NumeralView>,
    st: Plumbing,
)
    requires
        g.well_formed(),
        0 <= p < g.inputs.len(),
        i < g.inputs[p].streams.len(),
    ensures
        ({
            let input = g.inputs[p];
            let stream = input.streams[i as int];
            let r = ResolvedView::Stream { from_node: input.id, from_stream_idx: i, settings };
            let (source, after) = source_spec(g, r, ns, st);
            let words = spoken(settings.filters, stream.kind, ns);
            let (file, seeks) = if reads_a_window(settings, stream.kind, ns) {
                st.seeks.get(
                    ns,
                    input,
                    field_get(settings.filters[0].fields, "start"@),
                    field_get(settings.filters[0].fields, "end"@),
                )
            } else {
                (p as nat, st.seeks)
            };
            let origin = file_and_stream(file, stream.index as nat);
            let n = st.filters.len();
            &&& after.seeks == seeks
            &&& words.len() == 0 ==> source == Some((origin, stream.kind, false)) && after.filters
                == st.filters
            &&& words.len() > 0 ==> source == Some((entry_name(n), stream.kind, true))
                && after.filters == st.filters.push(origin + strung(words, ","@) + entry_name(n))
        }),
{
    lemma_input_at(g, p);
    let stream = g.inputs[p].streams[i as int];
    let words = spoken(settings.filters, stream.kind, ns);
    lemma_spoken(settings.filters, stream.kind, ns);
    joining_keeps_the_order(words, ","@);
    let r = ResolvedView::Stream { from_node: g.inputs[p].id, from_stream_idx: i, settings };
    let file = if reads_a_window(settings, stream.kind, ns) {
        st.seeks.get(
            ns,
            g.inputs[p],
            field_get(settings.filters[0].fields, "start"@),
            field_get(settings.filters[0].fields, "end"@),
        ).0
    } else {
        p as nat
    };
    let origin = file_and_stream(file, stream.index as nat);
    lemma_entry_name(st.filters.len());
    lemma_entry(st.filters, origin, join_spec(words, ","@));
}

// ---------------------------------------------------------------------
// Joining
// ---------------------------------------------------------------------

/// The labels of chains that are referred to one after the other, and what
/// the sections share before, between and behind them.
pub struct Labels {
    pub names: Args,
    pub states: Seq<Plumbing>,
}

/// Whether a chain is referred to, and by this name.
pub open spec fn named(found: (Option<Source>, Plumbing), name: Seq<char>) -> bool {
    match found.0 {
        Some(s) => s.0 == name,
        None => false,
    }
}

/// Each name is how its chain is referred to when its turn comes.
pub open spec fn labels_of(
    l: Labels,
    g: GraphView,
    chains: Seq<ResolvedView>,
    ns: Seq<NumeralView>,
    st: Plumbing,
) -> bool {
    &&& l.names.len() == chains.len()
    &&& l.states.len() == chains.len() + 1
    &&& l.states[0] == st
    &&& forall|i: int|
        0 <= i < chains.len() ==> named(
            #[trigger] source_spec(g, chains[i], ns, l.states[i]),
            l.names[i],
        )
    &&& forall|i: int|
        0 <= i < chains.len() ==> (#[trigger] source_spec(g, chains[i], ns, l.states[i])).1
            == l.states[i + 1]
}

proof fn lemma_refs_labels(
    g: GraphView,
    segments: Seq<ResolvedView>,
    ns: Seq<NumeralView>,
    st: Plumbing,
    n: nat,
) -> (l: Labels)
    requires
        n <= segments.len(),
        refs_upto(g, segments, ns, st, n).0 is Some,
    ensures
        labels_of(l, g, segments.take(n as int), ns, st),
        refs_upto(g, segments, ns, st, n) == (Some(end_to_end(l.names)), l.states[n as int]),
    decreases n,
{
    if n == 0 {
        let l = Labels { names: Seq::empty(), states: seq![st] };
        assert(segments.take(0).len() == 0);
        l
    } else {
        let b = lemma_refs_labels(g, segments, ns, st, (n - 1) as nat);
        let mid = b.states[n - 1];
        let (last, after) = source_spec(g, segments[n - 1], ns, mid);
        let name = (last->0).0;
        let l = Labels { names: b.names.push(name), states: b.states.push(after) };
        lemma_end_to_end_push(b.names, name);
        let chains = segments.take(n as int);
        let before = segments.take(n - 1);
        assert(forall|i: int| 0 <= i < n - 1 ==> chains[i] == before[i]);
        assert forall|i: int| 0 <= i < chains.len() implies named(
            #[trigger] source_spec(g, chains[i], ns, l.states[i]),
            l.names[i],
        ) by {
            if i < n - 1 {
                assert(source_spec(g, before[i], ns, b.states[i]).0 is Some);
                assert(l.states[i] == b.states[i]);
            } else {
                assert(l.states[i] == mid);
            }
        }
        assert forall|i: int| 0 <= i < chains.len() implies (#[trigger] source_spec(
            g,
            chains[i],
            ns,
            l.states[i],
        )).1 == l.states[i + 1] by {
            if i < n - 1 {
                assert(source_spec(g, before[i], ns, b.states[i]).1 == b.states[i + 1]);
                assert(l.states[i] == b.states[i]);
            } else {
                assert(l.states[i] == mid);
            }
        }
        l
    }
}

/// A concat node's segments are joined in their order: its filtergraph entry
/// begins with their labels end to end, the first segment's first, and says
/// how many there are and whether they are video or audio. Filters behind the
/// node apply to what was joined.
pub proof fn segments_are_joined_in_order(
    g: GraphView,
    kind: StreamKind,
    segments: Seq<ResolvedView>,
    settings: Settings,
    ns: Seq<NumeralView>,
    st: Plumbing,
) -> (l: Labels)
    requires
        referable(g, ResolvedView::Concat { kind, segments, settings }),
    ensures
        labels_of(l, g, segments, ns, st),
        ({
            let r = ResolvedView::Concat { kind, segments, settings };
            let (source, after) = source_spec(g, r, ns, st);
            let mid = l.states[segments.len() as int];
            let n = mid.filters.len();
            let join = end_to_end(l.names) + "concat=n="@ + decimal(segments.len()) + (if kind
                == StreamKind::Video {
                ":v=1:a=0"@
            } else {
                ":v=0:a=1"@
            }) + entry_name(n);
            let words = spoken(settings.filters, kind, ns);
            &&& after.seeks == mid.seeks
            &&& words.len() == 0 ==> source == Some((entry_name(n), kind, true)) && after.filters
                == mid.filters.push(join)
            &&& words.len() > 0 ==> source == Some((entry_name(n + 1), kind, true))
                && after.filters == mid.filters.push(join).push(
                entry_name(n) + strung(words, ","@) + entry_name(n + 1),
            )
        }),
{
    let r = ResolvedView::Concat { kind, segments, settings };
    source_is_there_where_referable(g, r, ns, st);
    let l = lemma_refs_labels(g, segments, ns, st, segments.len());
    assert(segments.take(segments.len() as int) =~= segments);
    let mid = l.states[segments.len() as int];
    let n = mid.filters.len();
    let words = spoken(settings.filters, kind, ns);
    lemma_spoken(settings.filters, kind, ns);
    joining_keeps_the_order(words, ","@);
    let body = "concat=n="@ + decimal(segments.len()) + (if kind == StreamKind::Video {
        ":v=1:a=0"@
    } else {
        ":v=0:a=1"@
    });
    let names = end_to_end(l.names);
    lemma_entry(mid.filters, names, body);
    assert(names + body + entry_name(n) =~= names + "concat=n="@ + decimal(segments.len()) + (
    if kind == StreamKind::Video {
        ":v=1:a=0"@
    } else {
        ":v=0:a=1"@
    }) + entry_name(n));
    lemma_entry_name(n);
    lemma_entry_name(n + 1);
    let joined = add_entry(mid.filters, names, body);
    lemma_entry(joined, entry_name(n), join_spec(words, ","@));
    l
}

// ---------------------------------------------------------------------
// Mapping
// ---------------------------------------------------------------------

proof fn lemma_chains_in_order(g: GraphView, sources: Seq<Endpoint>, n: int)
    requires
        0 <= n <= sources.len(),
        forall|i: int| 0 <= i < n ==> resolve_spec(g, #[trigger] sources[i]) is Some,
    ensures
        chains_upto(g, sources, n).len() == n,
        forall|i: int|
            0 <= i < n ==> resolve_spec(g, sources[i]) == Some(
                #[trigger] chains_upto(g, sources, n)[i],
            ),
    decreases n,
{
    if n > 0 {
        lemma_chains_in_order(g, sources, n - 1);
    }
}

/// Where every wire into an output resolves, its chains are those of the
/// wires, one for each and in their order.
pub proof fn chains_follow_the_wires(g: GraphView, id: NodeId)
    requires
        forall|i: int|
            0 <= i < feeds(g.wires, Target::Output(id)).len() ==> resolve_spec(
                g,
                #[trigger] feeds(g.wires, Target::Output(id))[i],
            ) is Some,
    ensures
        output_chains(g, id).len() == feeds(g.wires, Target::Output(id)).len(),
        forall|i: int|
            0 <= i < output_chains(g, id).len() ==> resolve_spec(
                g,
                feeds(g.wires, Target::Output(id))[i],
            ) == Some(#[trigger] output_chains(g, id)[i]),
{
    let sources = feeds(g.wires, Target::Output(id));
    lemma_chains_in_order(g, sources, sources.len() as int);
}

/// Whether a chain that was referred to went through the filtergraph.
pub open spec fn goes_through(found: (Option<Source>, Plumbing)) -> bool {
    match found.0 {
        Some(s) => s.2,
        None => false,
    }
}

/// How a source is written behind `-map`: an entry of the filtergraph by its
/// label, a stream of a file without the brackets.
pub open spec fn mapped_as(word: Seq<char>, label: Seq<char>, routed: bool) -> bool {
    if routed {
        word == label
    } else {
        "["@ + word + "]"@ == label
    }
}

/// The `i`th pair of words is a `-map` of what has this label.
pub open spec fn maps_at(args: Args, i: int, label: Seq<char>, routed: bool) -> bool {
    args[2 * i] == "-map"@ && mapped_as(args[2 * i + 1], label, routed)
}

proof fn lemma_brackets_bound(g: GraphView, r: ResolvedView, ns: Seq<NumeralView>, st: Plumbing)
    ensures
        source_spec(g, r, ns, st).0 matches Some(s) ==> !s.2 ==> "["@ + unbracketed(s.0) + "]"@
            == s.0,
{
    reveal_strlit("[");
    reveal_strlit("]");
    if let Some(s) = source_spec(g, r, ns, st).0 {
        if !s.2 {
            assert(s.0.len() >= 2 && s.0[0] == '[' && s.0[s.0.len() - 1] == ']');
            assert("["@ + unbracketed(s.0) + "]"@ =~= s.0);
        }
    }
}

proof fn lemma_maps_in_order(
    g: GraphView,
    chains: Seq<ResolvedView>,
    ns: Seq<NumeralView>,
    st: Plumbing,
    n: int,
) -> (l: Labels)
    requires
        0 <= n <= chains.len(),
        forall|i: int| 0 <= i < chains.len() ==> referable(g, #[trigger] chains[i]),
    ensures
        labels_of(l, g, chains.take(n), ns, st),
        ({
            let (words, routed, after) = maps_upto(g, chains, ns, st, n);
            &&& after == l.states[n]
            &&& words.len() == 2 * n
            &&& routed.len() == n
            &&& forall|i: int|
                0 <= i < n ==> routed[i] == goes_through(
                    #[trigger] source_spec(g, chains[i], ns, l.states[i]),
                )
            &&& forall|i: int|
                #![trigger l.names[i]]
                0 <= i < n ==> maps_at(words, i, l.names[i], routed[i])
        }),
    decreases n,
{
    if n == 0 {
        assert(chains.take(0).len() == 0);
        Labels { names: Seq::empty(), states: seq![st] }
    } else {
        let b = lemma_maps_in_order(g, chains, ns, st, n - 1);
        let mid = b.states[n - 1];
        source_is_there_where_referable(g, chains[n - 1], ns, mid);
        lemma_brackets_bound(g, chains[n - 1], ns, mid);
        let (last, after) = source_spec(g, chains[n - 1], ns, mid);
        let name = (last->0).0;
        let l = Labels { names: b.names.push(name), states: b.states.push(after) };
        let head = chains.take(n);
        let before = chains.take(n - 1);
        assert(forall|i: int| 0 <= i < n - 1 ==> head[i] == before[i]);
        let (words, routed, _) = maps_upto(g, chains, ns, st, n);
        let (old_words, old_routed, _) = maps_upto(g, chains, ns, st, n - 1);
        let found = last->0;
        assert(words == old_words + seq![
            "-map"@,
            if found.2 {
                found.0
            } else {
                unbracketed(found.0)
            },
        ]);
        assert(routed == old_routed.push(found.2));
        assert(words[2 * (n - 1)] == "-map"@);
        assert(mapped_as(words[2 * (n - 1) + 1], name, routed[n - 1]));
        assert forall|i: int| 0 <= i < n implies named(
            #[trigger] source_spec(g, head[i], ns, l.states[i]),
            l.names[i],
        ) by {
            if i < n - 1 {
                assert(source_spec(g, before[i], ns, b.states[i]).0 is Some);
                assert(l.states[i] == b.states[i]);
            }
        }
        assert forall|i: int| 0 <= i < n implies (#[trigger] source_spec(
            g,
            head[i],
            ns,
            l.states[i],
        )).1 == l.states[i + 1] by {
            if i < n - 1 {
                assert(source_spec(g, before[i], ns, b.states[i]).1 == b.states[i + 1]);
                assert(l.states[i] == b.states[i]);
            }
        }
        assert forall|i: int| 0 <= i < n implies routed[i] == goes_through(
            #[trigger] source_spec(g, chains[i], ns, l.states[i]),
        ) by {
            if i < n - 1 {
                assert(l.states[i] == b.states[i]);
                assert(routed[i] == old_routed[i]);
                assert(old_routed[i] == goes_through(source_spec(g, chains[i], ns, b.states[i])));
            }
        }
        assert forall|i: int| #![trigger l.names[i]] 0 <= i < n implies maps_at(
            words,
            i,
            l.names[i],
            routed[i],
        ) by {
            if i < n - 1 {
                assert(l.names[i] == b.names[i]);
                assert(maps_at(old_words, i, b.names[i], old_routed[i]));
                assert(words[2 * i] == old_words[2 * i]);
                assert(words[2 * i + 1] == old_words[2 * i + 1]);
                assert(routed[i] == old_routed[i]);
            }
        }
        l
    }
}

/// Where every wire into an output can be mapped, its arguments begin with a
/// `-map` for each of them, in the order of the wires, and each maps what its
/// own wire carries.
pub proof fn wires_are_mapped_in_order(
    g: GraphView,
    output: OutputView,
    path: Seq<char>,
    extra: Args,
    ns: Seq<NumeralView>,
    chapter_input: Option<nat>,
    st: Plumbing,
) -> (l: Labels)
    requires
        feeds(g.wires, Target::Output(output.id)).len() > 0,
        forall|i: int|
            0 <= i < feeds(g.wires, Target::Output(output.id)).len() ==> mappable(
                g,
                #[trigger] feeds(g.wires, Target::Output(output.id))[i],
            ),
    ensures
        ({
            let sources = feeds(g.wires, Target::Output(output.id));
            let chains = output_chains(g, output.id);
            let (section, after) = section_spec(g, output, path, extra, ns, chapter_input, st);
            &&& chains.len() == sources.len()
            &&& forall|i: int|
                0 <= i < sources.len() ==> resolve_spec(g, sources[i]) == Some(#[trigger] chains[i])
            &&& labels_of(l, g, chains, ns, st)
            &&& section matches Some(args)
            &&& after == l.states[sources.len() as int]
            &&& args.len() > 2 * sources.len()
            &&& forall|i: int|
                #![trigger l.names[i]]
                0 <= i < sources.len() ==> maps_at(
                    args,
                    i,
                    l.names[i],
                    goes_through(source_spec(g, chains[i], ns, l.states[i])),
                )
        }),
{
    let sources = feeds(g.wires, Target::Output(output.id));
    let n = sources.len() as int;
    assert forall|i: int| 0 <= i < n implies resolve_spec(g, #[trigger] sources[i]) is Some by {
        assert(mappable(g, sources[i]));
    }
    chains_follow_the_wires(g, output.id);
    let chains = output_chains(g, output.id);
    assert forall|i: int| 0 <= i < chains.len() implies referable(g, #[trigger] chains[i]) by {
        assert(mappable(g, sources[i]));
    }
    let l = lemma_maps_in_order(g, chains, ns, st, n);
    assert(chains.take(n) =~= chains);
    let words = maps_upto(g, chains, ns, st, n).0;
    let args = section_spec(g, output, path, extra, ns, chapter_input, st).0->0;
    assert forall|i: int| #![trigger l.names[i]] 0 <= i < n implies maps_at(
        args,
        i,
        l.names[i],
        goes_through(source_spec(g, chains[i], ns, l.states[i])),
    ) by {
        assert(maps_at(words, i, l.names[i], maps_upto(g, chains, ns, st, n).1[i]));
        assert(args[2 * i] == words[2 * i]);
        assert(args[2 * i + 1] == words[2 * i + 1]);
        assert(goes_through(source_spec(g, chains[i], ns, l.states[i])) == maps_upto(
            g,
            chains,
            ns,
            st,
            n,
        ).1[i]);
    }
    l
}

/// Streams that are wired straight to an output are mapped in the order of the
/// wires, each by the position of its own input and its own index there.
pub proof fn direct_streams_are_mapped_by_their_input(
    g: GraphView,
    output: OutputView,
    path: Seq<char>,
    extra: Args,
    ns: Seq<NumeralView>,
    chapter_input: Option<nat>,
    st: Plumbing,
    inputs: Seq<int>,
    streams: Seq<usize>,
)
    requires
        g.well_formed(),
        inputs.len() > 0,
        inputs.len() == streams.len(),
        inputs.len() == feeds(g.wires, Target::Output(output.id)).len(),
        forall|i: int|
            0 <= i < inputs.len() ==> 0 <= #[trigger] inputs[i] < g.inputs.len() && streams[i]
                < g.inputs[inputs[i]].streams.len() && feeds(
                g.wires,
                Target::Output(output.id),
            )[i] == (Endpoint::Stream { node: g.inputs[inputs[i]].id, stream_idx: streams[i] }),
    ensures
        section_spec(g, output, path, extra, ns, chapter_input, st).0 matches Some(args)
            && args.len() > 2 * inputs.len() && forall|i: int|
            #![trigger inputs[i]]
            0 <= i < inputs.len() ==> args[2 * i] == "-map"@ && args[2 * i + 1] == decimal(
                inputs[i] as nat,
            ) + ":"@ + decimal(g.inputs[inputs[i]].streams[streams[i] as int].index as nat),
{
    let sources = feeds(g.wires, Target::Output(output.id));
    assert forall|i: int| 0 <= i < sources.len() implies mappable(g, #[trigger] sources[i]) by {
        let p = inputs[i];
        lemma_input_at(g, p);
    }
    let l = wires_are_mapped_in_order(g, output, path, extra, ns, chapter_input, st);
    let chains = output_chains(g, output.id);
    let args = section_spec(g, output, path, extra, ns, chapter_input, st).0->0;
    assert forall|i: int| #![trigger inputs[i]] 0 <= i < inputs.len() implies args[2 * i]
        == "-map"@ && args[2 * i + 1] == decimal(inputs[i] as nat) + ":"@ + decimal(
        g.inputs[inputs[i]].streams[streams[i] as int].index as nat,
    ) by {
        let p = inputs[i];
        let plain = Settings::plain();
        stream_is_taken_from_its_file(g, p, streams[i], plain, ns, l.states[i]);
        assert(resolve_spec(g, sources[i]) == Some(chains[i]));
        assert(source_spec(g, chains[i], ns, l.states[i]).0 is Some);
        assert(maps_at(
            args,
            i,
            l.names[i],
            goes_through(source_spec(g, chains[i], ns, l.states[i])),
        ));
        let number = decimal(p as nat) + ":"@ + decimal(
            g.inputs[p].streams[streams[i] as int].index as nat,
        );
        let word = args[2 * i + 1];
        reveal_strlit("[");
        reveal_strlit("]");
        let label = l.names[i];
        assert(label =~= "["@ + number + "]"@);
        assert(word =~= label.subrange(1, label.len() - 1));
        assert(number =~= label.subrange(1, label.len() - 1));
    }
}

// ---------------------------------------------------------------------
// What is asked for on each stream
// ---------------------------------------------------------------------

/// `a` stands in a command line with `b` directly behind it.
pub open spec fn pair_in(args: Args, a: Seq<char>, b: Seq<char>) -> bool {
    exists|j: int| 0 <= j && j + 1 < args.len() && #[trigger] args[j] == a && args[j + 1] == b
}

proof fn lemma_pair_within(before: Args, args: Args, behind: Args, a: Seq<char>, b: Seq<char>)
    requires
        pair_in(args, a, b),
    ensures
        pair_in(before + args + behind, a, b),
{
    let j = choose|j: int|
        0 <= j && j + 1 < args.len() && #[trigger] args[j] == a && args[j + 1] == b;
    let all = before + args + behind;
    assert(all[before.len() + j] == a);
    assert(all[before.len() + j + 1] == b);
}

proof fn lemma_pair(a: Seq<char>, b: Seq<char>)
    ensures
        pair_in(seq![a, b], a, b),
{
    let s = seq![a, b];
    let j: int = 0;
    assert(s[j] == a && s[j + 1] == b);
}

proof fn lemma_stream_within(
    chains: Seq<ResolvedView>,
    routed: Seq<bool>,
    copied: bool,
    n: int,
    i: int,
) -> (r: (Args, Args))
    requires
        0 <= i < n,
    ensures
        stream_args_upto(chains, routed, copied, n) == r.0 + stream_args(
            chains[i].settings(),
            routed[i],
            copied,
            i,
        ) + r.1,
    decreases n,
{
    if i == n - 1 {
        let before = stream_args_upto(chains, routed, copied, n - 1);
        assert(stream_args_upto(chains, routed, copied, n) =~= before + stream_args(
            chains[i].settings(),
            routed[i],
            copied,
            i,
        ) + Seq::empty());
        (before, Seq::empty())
    } else {
        let (a, b) = lemma_stream_within(chains, routed, copied, n - 1, i);
        let more = stream_args(chains[n - 1].settings(), routed[n - 1], copied, n - 1);
        assert(stream_args_upto(chains, routed, copied, n) =~= a + stream_args(
            chains[i].settings(),
            routed[i],
            copied,
            i,
        ) + (b + more));
        (a, b + more)
    }
}

proof fn lemma_metadata_within(m: Seq<Entry>, i: int, n: int, k: int)
    requires
        0 <= k < n <= m.len(),
    ensures
        pair_in(
            metadata_args_upto(m, i, n),
            "-metadata:s:"@ + decimal(i as nat),
            m[k].0 + "="@ + m[k].1,
        ),
    decreases n,
{
    let a = "-metadata:s:"@ + decimal(i as nat);
    let before = metadata_args_upto(m, i, n - 1);
    let last = seq![a, m[n - 1].0 + "="@ + m[n - 1].1];
    if k == n - 1 {
        lemma_pair(a, m[k].0 + "="@ + m[k].1);
        lemma_pair_within(before, last, Seq::empty(), a, m[k].0 + "="@ + m[k].1);
        assert(before + last + Seq::<Seq<char>>::empty() =~= metadata_args_upto(m, i, n));
    } else {
        lemma_metadata_within(m, i, n - 1, k);
        lemma_pair_within(Seq::empty(), before, last, a, m[k].0 + "="@ + m[k].1);
        assert(Seq::<Seq<char>>::empty() + before + last =~= metadata_args_upto(m, i, n));
    }
}

/// What a chain asks for is said of the stream that it becomes, by its number
/// within the output.
/// - An encoder stands behind `-c` and the number. A stream without one is
///   copied, unless it went through the filtergraph.
/// - Each metadata field stands behind `-metadata:s` and the number, as its
///   name, an equals sign and its value.
/// - A disposition stands behind `-disposition` and the number: its flags with
///   plus signs between them, or zero for no flags.
pub proof fn settings_are_said_of_their_own_stream(
    g: GraphView,
    output: OutputView,
    path: Seq<char>,
    extra: Args,
    ns: Seq<NumeralView>,
    chapter_input: Option<nat>,
    st: Plumbing,
    i: int,
    k: int,
)
    requires
        0 <= i < output_chains(g, output.id).len(),
    ensures
        section_spec(g, output, path, extra, ns, chapter_input, st).0 matches Some(args) ==> {
            let chains = output_chains(g, output.id);
            let settings = chains[i].settings();
            let through = maps_upto(g, chains, ns, st, chains.len() as int).1[i];
            &&& settings.codec matches CodecView::Encode(name) ==> pair_in(
                args,
                "-c:"@ + decimal(i as nat),
                name,
            )
            &&& settings.codec is Copy && !through ==> pair_in(
                args,
                "-c:"@ + decimal(i as nat),
                "copy"@,
            ) || pair_in(args, "-c"@, "copy"@)
            &&& 0 <= k < settings.metadata.len() ==> pair_in(
                args,
                "-metadata:s:"@ + decimal(i as nat),
                settings.metadata[k].0 + "="@ + settings.metadata[k].1,
            )
            &&& settings.disposition matches Some(flags) ==> pair_in(
                args,
                "-disposition:"@ + decimal(i as nat),
                if flags.len() == 0 {
                    "0"@
                } else {
                    strung(flags, "+"@)
                },
            )
        },
{
    let chains = output_chains(g, output.id);
    let n = chains.len() as int;
    let settings = chains[i].settings();
    let (maps, routed, _) = maps_upto(g, chains, ns, st, n);
    if let Some(args) = section_spec(g, output, path, extra, ns, chapter_input, st).0 {
        let copied = all_copied(chains, routed);
        let blanket = if copied {
            seq!["-c"@, "copy"@]
        } else {
            Seq::empty()
        };
        let tail = output_tail(output, path, extra, chapter_input);
        let (a, b) = lemma_stream_within(chains, routed, copied, n, i);
        let own = stream_args(settings, routed[i], copied, i);
        let codec = codec_args(settings, routed[i], copied, i);
        let fields = metadata_args_upto(settings.metadata, i, settings.metadata.len() as int);
        let flags = disposition_args(settings.disposition, i);
        let before = maps + blanket + a;
        let behind = b + tail;
        assert(args =~= before + own + behind);
        let c = "-c:"@ + decimal(i as nat);
        if let CodecView::Encode(name) = settings.codec {
            lemma_pair(c, name);
            lemma_pair_within(Seq::empty(), codec, fields + flags, c, name);
            assert(Seq::<Seq<char>>::empty() + codec + (fields + flags) =~= own);
            lemma_pair_within(before, own, behind, c, name);
        } else if !routed[i] {
            if copied {
                lemma_pair("-c"@, "copy"@);
                let rest = stream_args_upto(chains, routed, copied, n) + tail;
                lemma_pair_within(maps, blanket, rest, "-c"@, "copy"@);
                assert(maps + blanket + rest =~= args);
            } else {
                lemma_pair(c, "copy"@);
                lemma_pair_within(Seq::empty(), codec, fields + flags, c, "copy"@);
                assert(Seq::<Seq<char>>::empty() + codec + (fields + flags) =~= own);
                lemma_pair_within(before, own, behind, c, "copy"@);
            }
        }
        if 0 <= k < settings.metadata.len() {
            let word = "-metadata:s:"@ + decimal(i as nat);
            let value = settings.metadata[k].0 + "="@ + settings.metadata[k].1;
            lemma_metadata_within(settings.metadata, i, settings.metadata.len() as int, k);
            lemma_pair_within(codec, fields, flags, word, value);
            lemma_pair_within(before, own, behind, word, value);
        }
        if let Some(set) = settings.disposition {
            let word = "-disposition:"@ + decimal(i as nat);
            joining_keeps_the_order(set, "+"@);
            let value = if set.len() == 0 {
                "0"@
            } else {
                strung(set, "+"@)
            };
            lemma_pair(word, value);
            lemma_pair_within(codec + fields, flags, Seq::empty(), word, value);
            assert(codec + fields + flags + Seq::<Seq<char>>::empty() =~= own);
            lemma_pair_within(before, own, behind, word, value);
        }
    }
}

/// Whether a stream of an output is handed over as it is: it has no encoder,
/// and it did not go through the filtergraph.
pub open spec fn handed_over(chains: Seq<ResolvedView>, through: Seq<bool>, i: int) -> bool {
    chains[i].settings().codec is Copy && through[i] == false
}

/// Copying is said of the streams that are handed over as they are, and of no
/// other one: once for all, where every stream of the output is, and else of
/// each by its number. An encoder is said of its own stream, and nothing of a
/// stream from the filtergraph that has none.
pub proof fn copying_is_said_where_it_is_done(
    g: GraphView,
    output: OutputView,
    path: Seq<char>,
    extra: Args,
    ns: Seq<NumeralView>,
    chapter_input: Option<nat>,
    st: Plumbing,
    i: int,
) -> (around: (Args, Args))
    requires
        0 <= i < output_chains(g, output.id).len(),
    ensures
        section_spec(g, output, path, extra, ns, chapter_input, st).0 matches Some(args) ==> {
            let chains = output_chains(g, output.id);
            let (maps, through, _) = maps_upto(g, chains, ns, st, chains.len() as int);
            let settings = chains[i].settings();
            let all = forall|j: int|
                0 <= j < chains.len() ==> #[trigger] handed_over(chains, through, j);
            let said = match settings.codec {
                CodecView::Encode(name) => seq!["-c:"@ + decimal(i as nat), name],
                CodecView::Copy => if !all && !through[i] {
                    seq!["-c:"@ + decimal(i as nat), "copy"@]
                } else {
                    Seq::empty()
                },
            };
            args == maps + (if all {
                seq!["-c"@, "copy"@]
            } else {
                Seq::empty()
            }) + around.0 + said + metadata_args_upto(
                settings.metadata,
                i,
                settings.metadata.len() as int,
            ) + disposition_args(settings.disposition, i) + around.1
        },
{
    let chains = output_chains(g, output.id);
    let n = chains.len() as int;
    let settings = chains[i].settings();
    let (maps, routed, _) = maps_upto(g, chains, ns, st, n);
    let copied = all_copied(chains, routed);
    let (a, b) = lemma_stream_within(chains, routed, copied, n, i);
    let all = forall|j: int| 0 <= j < n ==> #[trigger] handed_over(chains, routed, j);
    if copied {
        assert forall|j: int| 0 <= j < n implies #[trigger] handed_over(chains, routed, j) by {
            assert(chains[j].settings().codec is Copy);
        }
    }
    if all {
        assert forall|j: int| 0 <= j < n implies !routed[j] && (
        #[trigger] chains[j]).settings().codec is Copy by {
            assert(handed_over(chains, routed, j));
        }
    }
    let around = (a, b + output_tail(output, path, extra, chapter_input));
    if let Some(args) = section_spec(g, output, path, extra, ns, chapter_input, st).0 {
        let blanket = if copied {
            seq!["-c"@, "copy"@]
        } else {
            Seq::empty()
        };
        let codec = codec_args(settings, routed[i], copied, i);
        let fields = metadata_args_upto(settings.metadata, i, settings.metadata.len() as int);
        let flags = disposition_args(settings.disposition, i);
        assert(args =~= maps + blanket + a + codec + fields + flags + around.1);
    }
    around
}

/// What an output asks for as a whole: its container stands behind `-f`, the
/// number of the file that its chapters come from behind `-map_chapters`, and
/// its own options follow; then come the further ones, and the path is last.
pub proof fn output_says_what_it_asks_for(
    g: GraphView,
    output: OutputView,
    path: Seq<char>,
    extra: Args,
    ns: Seq<NumeralView>,
    chapter_input: Option<nat>,
    st: Plumbing,
) -> (before: Args)
    ensures
        section_spec(g, output, path, extra, ns, chapter_input, st).0 matches Some(args) ==> {
            &&& args == before + option_words(output.extra_args) + extra + seq![path]
            &&& output.container matches Some(c) ==> pair_in(before, "-f"@, c)
            &&& chapter_input matches Some(i) ==> pair_in(before, "-map_chapters"@, decimal(i))
        },
{
    let chains = output_chains(g, output.id);
    let n = chains.len() as int;
    let (maps, routed, _) = maps_upto(g, chains, ns, st, n);
    let copied = all_copied(chains, routed);
    let blanket = if copied {
        seq!["-c"@, "copy"@]
    } else {
        Seq::empty()
    };
    let streams = maps + blanket + stream_args_upto(chains, routed, copied, n);
    let container = match output.container {
        Some(c) => seq!["-f"@, c],
        None => Seq::empty(),
    };
    let chapters = match chapter_input {
        Some(i) => seq!["-map_chapters"@, decimal(i)],
        None => Seq::empty(),
    };
    let before = streams + container + chapters;
    let m = output.extra_args;
    lemma_option_words(m, m.len() as int);
    assert(m.take(m.len() as int) =~= m);
    if let Some(args) = section_spec(g, output, path, extra, ns, chapter_input, st).0 {
        assert(args =~= before + option_words(m) + extra + seq![path]);
        if let Some(c) = output.container {
            lemma_pair("-f"@, c);
            lemma_pair_within(streams, container, chapters, "-f"@, c);
        }
        if let Some(i) = chapter_input {
            lemma_pair("-map_chapters"@, decimal(i));
            lemma_pair_within(
                streams + container,
                chapters,
                Seq::empty(),
                "-map_chapters"@,
                decimal(i),
            );
            assert(streams + container + chapters + Seq::<Seq<char>>::empty() =~= before);
        }
    }
    before
}

/// The entries of all outputs stand in the command line as one filtergraph,
/// in front of the arguments of the outputs.
pub proof fn command_line_holds_the_filtergraph(
    g: GraphView,
    files: Seq<ChapterFileView>,
    ns: Seq<NumeralView>,
) -> (before: Args)
    ensures
        ({
            let sourced = sourced_upto(g, g.outputs.len() as int);
            let edited = edited_upto(sourced, files, sourced.len() as int);
            let (sections, st) = sections_upto(
                g,
                ns,
                sourced,
                edited,
                at_start(g, edited.len()),
                g.outputs.len() as int,
            );
            ffmpeg_args(g, files, ns) == before + (if st.filters.len() == 0 {
                Seq::empty()
            } else {
                seq!["-filter_complex"@, strung(st.filters, ";"@)]
            }) + sections
        }),
{
    let sourced = sourced_upto(g, g.outputs.len() as int);
    let edited = edited_upto(sourced, files, sourced.len() as int);
    let start = at_start(g, edited.len());
    assert(start.seeks == SeekView::starting_at((g.inputs.len() + edited.len()) as nat));
    let st = sections_upto(g, ns, sourced, edited, start, g.outputs.len() as int).1;
    filtergraph_is_one_argument(st.filters);
    seq!["-y"@] + input_args_upto(g.inputs, g.inputs.len() as int) + file_args_upto(
        edited,
        files,
        edited.len() as int,
    ) + st.seeks.args
}

/// The filtergraph, where it has entries, is one argument behind
/// `-filter_complex`: the entries in their order, with semicolons between them.
pub proof fn filtergraph_is_one_argument(filters: Args)
    ensures
        filter_args(filters) == (if filters.len() == 0 {
            Seq::empty()
        } else {
            seq!["-filter_complex"@, strung(filters, ";"@)]
        }),
{
    joining_keeps_the_order(filters, ";"@);
}

} // verus!
