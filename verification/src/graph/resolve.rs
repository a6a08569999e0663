//! Walking a chain of wires and modifiers back to the streams it starts from.
use vstd::prelude::*;

use super::chapter::ChapterSource;
use super::node::{FilterName, KindView, ModifierKind};
use super::stream::{Codec, CodecView, StreamKind};
use super::wire::{Endpoint, NodeId, Target, Wire};
use super::{feed, incoming_spec, Graph, GraphView};
use crate::fields::{field_fill, Entry, FieldMap, FlagSet};
use crate::text::{cat4, cat5, chars_of, decimal, find_last_before, group_views, last_of, number, opt_text, text_of, views};

verus! {

/// How many nodes a walk may visit: far more than any real graph needs, and
/// what ends the walk on a graph with a cycle.
pub const MAX_HOPS: usize = 10_000;

/// A filter and its parameters.
pub struct FilterStep {
    pub name: FilterName,
    pub fields: FieldMap,
}

pub struct FilterStepView {
    pub name: FilterName,
    pub fields: Seq<Entry>,
}

impl View for FilterStep {
    type V = FilterStepView;

    open spec fn view(&self) -> FilterStepView {
        FilterStepView { name: self.name, fields: self.fields@ }
    }
}

/// What the modifiers along a chain ask for.
#[verifier::ext_equal]
pub struct Settings {
    pub codec: CodecView,
    pub metadata: Seq<Entry>,
    pub disposition: Option<Seq<Seq<char>>>,
    /// In the order in which they are applied, from the source on.
    pub filters: Seq<FilterStepView>,
}

impl Settings {
    /// Nothing asked for: the stream is copied as it is.
    pub open spec fn plain() -> Settings {
        Settings {
            codec: CodecView::Copy,
            metadata: Seq::empty(),
            disposition: None,
            filters: Seq::empty(),
        }
    }

    /// What is asked for with one more modifier on the source's side: a codec,
    /// a metadata field or a disposition that is asked for already stays, and
    /// a filter is applied before the others.
    pub open spec fn upstream(self, kind: KindView) -> Settings {
        match kind {
            KindView::Convert(c) => if self.codec is Copy {
                Settings { codec: c, ..self }
            } else {
                self
            },
            KindView::Metadata { fields } => Settings {
                metadata: field_fill(self.metadata, fields, fields.len() as int),
                ..self
            },
            KindView::Disposition { flags } => if self.disposition is None {
                Settings { disposition: Some(flags), ..self }
            } else {
                self
            },
            KindView::Filter { name, fields } => Settings {
                filters: self.filters.insert(0, FilterStepView { name, fields }),
                ..self
            },
            KindView::ChapterEdit { .. } | KindView::Concat => self,
        }
    }
}

/// What a chain of wires and modifiers comes down to: one stream of an input,
/// or several chains joined end to end, with what the modifiers downstream of
/// that ask for.
pub enum Resolved {
    Stream {
        from_node: NodeId,
        from_stream_idx: usize,
        codec: Codec,
        metadata: FieldMap,
        disposition: Option<FlagSet>,
        filters: Vec<FilterStep>,
    },
    Concat {
        /// The kind that all segments share.
        kind: StreamKind,
        /// In the order in which they are joined.
        segments: Vec<Resolved>,
        codec: Codec,
        metadata: FieldMap,
        disposition: Option<FlagSet>,
        filters: Vec<FilterStep>,
    },
}

pub enum ResolvedView {
    Stream { from_node: NodeId, from_stream_idx: usize, settings: Settings },
    Concat { kind: StreamKind, segments: Seq<ResolvedView>, settings: Settings },
}

/// The view of an optional flag set.
pub open spec fn opt_flags(o: Option<FlagSet>) -> Option<Seq<Seq<char>>> {
    match o {
        Some(f) => Some(f@),
        None => None,
    }
}

/// The view of what is asked for.
pub open spec fn settings_of(
    codec: Codec,
    metadata: FieldMap,
    disposition: Option<FlagSet>,
    filters: Vec<FilterStep>,
) -> Settings {
    Settings {
        codec: codec@,
        metadata: metadata@,
        disposition: opt_flags(disposition),
        filters: views(filters@),
    }
}

impl ResolvedView {
    pub open spec fn settings(self) -> Settings {
        match self {
            ResolvedView::Stream { settings, .. } => settings,
            ResolvedView::Concat { settings, .. } => settings,
        }
    }
}

/// The models of a list of chains.
pub open spec fn models(s: Seq<Resolved>) -> Seq<ResolvedView> {
    Seq::new(s.len(), |i: int| s[i].model())
}

impl Resolved {
    /// What the chain comes down to.
    pub open spec fn model(self) -> ResolvedView
        decreases self,
    {
        match self {
            Resolved::Stream {
                from_node,
                from_stream_idx,
                codec,
                metadata,
                disposition,
                filters,
            } => ResolvedView::Stream {
                from_node,
                from_stream_idx,
                settings: settings_of(codec, metadata, disposition, filters),
            },
            Resolved::Concat { kind, segments, codec, metadata, disposition, filters } => {
                ResolvedView::Concat {
                    kind,
                    segments: Seq::new(
                        segments@.len(),
                        |i: int|
                            if 0 <= i < segments@.len() {
                                segments@[i].model()
                            } else {
                                arbitrary()
                            },
                    ),
                    settings: settings_of(codec, metadata, disposition, filters),
                }
            },
        }
    }

    /// The codec that is asked for.
    pub fn codec(&self) -> (r: &Codec)
        ensures
            r@ == self.model().settings().codec,
    {
        match self {
            Resolved::Stream { codec, .. } => codec,
            Resolved::Concat { codec, .. } => codec,
        }
    }

    /// The stream metadata that is asked for.
    pub fn metadata(&self) -> (r: &FieldMap)
        ensures
            r@ == self.model().settings().metadata,
    {
        match self {
            Resolved::Stream { metadata, .. } => metadata,
            Resolved::Concat { metadata, .. } => metadata,
        }
    }

    /// The disposition that is asked for, if any.
    pub fn disposition(&self) -> (r: &Option<FlagSet>)
        ensures
            opt_flags(*r) == self.model().settings().disposition,
    {
        match self {
            Resolved::Stream { disposition, .. } => disposition,
            Resolved::Concat { disposition, .. } => disposition,
        }
    }
}

// ---------------------------------------------------------------------
// The walk
// ---------------------------------------------------------------------

/// The sources of the wires at the given positions.
pub open spec fn sources_of(wires: Seq<Wire>, at: Seq<usize>) -> Seq<Endpoint> {
    Seq::new(at.len(), |i: int| wires[at[i] as int].from)
}

/// The sources that feed a target, in the order of their wires.
pub open spec fn feeds(wires: Seq<Wire>, to: Target) -> Seq<Endpoint> {
    sources_of(wires, incoming_spec(wires, to))
}

/// The kind of a stream of an input.
pub open spec fn stream_kind(g: GraphView, node: NodeId, stream_idx: usize) -> Option<StreamKind> {
    match g.input(node) {
        Some(input) => if (stream_idx as int) < input.streams.len() {
            Some(input.streams[stream_idx as int].kind)
        } else {
            None
        },
        None => None,
    }
}

/// The kind that a chain carries.
pub open spec fn resolved_kind(g: GraphView, r: ResolvedView) -> Option<StreamKind> {
    match r {
        ResolvedView::Stream { from_node, from_stream_idx, .. } => stream_kind(
            g,
            from_node,
            from_stream_idx,
        ),
        ResolvedView::Concat { kind, .. } => Some(kind),
    }
}

/// The kind that all of these chains carry, where they carry the same one.
pub open spec fn common_kind(g: GraphView, segments: Seq<ResolvedView>) -> Option<StreamKind> {
    if segments.len() > 0 && resolved_kind(g, segments[0]) is Some && (forall|i: int|
        0 <= i < segments.len() ==> resolved_kind(g, #[trigger] segments[i]) == resolved_kind(
            g,
            segments[0],
        )) {
        resolved_kind(g, segments[0])
    } else {
        None
    }
}

/// The larger of two counts.
pub open spec fn at_least(a: nat, b: nat) -> nat {
    if a < b {
        b
    } else {
        a
    }
}

/// How many nodes a walk may still visit.
pub open spec fn hops_left(hops: nat) -> nat {
    if hops <= MAX_HOPS {
        (MAX_HOPS - hops) as nat
    } else {
        0
    }
}

/// The walk back from `from`, with `acc` asked for downstream and `hops` nodes
/// visited before: what the chain comes down to, and how many nodes have been
/// visited then.
///
/// It ends without a result where the chain is broken (a modifier that is
/// gone or that nothing feeds), passes through a chapter node, or has visited
/// too many nodes. At a concat node, each of its segments is walked on its
/// own, and all of them must carry the same kind.
pub open spec fn walk(g: GraphView, from: Endpoint, acc: Settings, hops: nat) -> (
    Option<ResolvedView>,
    nat,
)
    decreases hops_left(hops), 0nat,
{
    if hops >= MAX_HOPS {
        (None, hops + 1)
    } else {
        let h = hops + 1;
        match from {
            Endpoint::Stream { node, stream_idx } => (
                Some(
                    ResolvedView::Stream {
                        from_node: node,
                        from_stream_idx: stream_idx,
                        settings: acc,
                    },
                ),
                h,
            ),
            Endpoint::ModifierOut(mid) => match g.modifier(mid) {
                None => (None, h),
                Some(m) => match m.kind {
                    KindView::ChapterEdit { .. } => (None, h),
                    KindView::Concat => {
                        let sources = feeds(g.wires, Target::ModifierIn(mid));
                        if sources.len() == 0 {
                            (None, h)
                        } else {
                            let (found, h2) = walk_upto(g, sources, sources.len(), h);
                            match found {
                                None => (None, h2),
                                Some(segments) => match common_kind(g, segments) {
                                    None => (None, h2),
                                    Some(kind) => (
                                        Some(
                                            ResolvedView::Concat { kind, segments, settings: acc },
                                        ),
                                        h2,
                                    ),
                                },
                            }
                        }
                    },
                    _ => match feed(g.wires, Target::ModifierIn(mid)) {
                        None => (None, h),
                        Some(source) => walk(g, source, acc.upstream(m.kind), h),
                    },
                },
            },
        }
    }
}

/// The walks back from the first `n` of `sources`, one after the other and
/// sharing one count of visited nodes.
pub open spec fn walk_upto(g: GraphView, sources: Seq<Endpoint>, n: nat, hops: nat) -> (
    Option<Seq<ResolvedView>>,
    nat,
)
    decreases hops_left(hops), n,
{
    if n == 0 {
        (Some(Seq::empty()), hops)
    } else {
        let (before, h) = walk_upto(g, sources, (n - 1) as nat, hops);
        match before {
            None => (None, h),
            Some(segments) => {
                let (last, h2) = walk(g, sources[n - 1], Settings::plain(), at_least(h, hops));
                match last {
                    None => (None, h2),
                    Some(r) => (Some(segments.push(r)), h2),
                }
            },
        }
    }
}

/// What the chain that ends at `from` comes down to.
pub open spec fn resolve_spec(g: GraphView, from: Endpoint) -> Option<ResolvedView> {
    walk(g, from, Settings::plain(), 0).0
}

proof fn lemma_walk_hops(g: GraphView, from: Endpoint, acc: Settings, hops: nat)
    requires
        hops <= MAX_HOPS,
    ensures
        hops < walk(g, from, acc, hops).1 <= MAX_HOPS + 1,
        walk(g, from, acc, hops).0 is Some ==> walk(g, from, acc, hops).1 <= MAX_HOPS,
    decreases MAX_HOPS - hops, 0nat,
{
    if hops < MAX_HOPS {
        let h = hops + 1;
        if let Endpoint::ModifierOut(mid) = from {
            if let Some(m) = g.modifier(mid) {
                match m.kind {
                    KindView::ChapterEdit { .. } => {},
                    KindView::Concat => {
                        let sources = feeds(g.wires, Target::ModifierIn(mid));
                        if sources.len() > 0 {
                            lemma_walk_upto_hops(g, sources, sources.len(), h);
                        }
                    },
                    _ => {
                        if let Some(source) = feed(g.wires, Target::ModifierIn(mid)) {
                            lemma_walk_hops(g, source, acc.upstream(m.kind), h);
                        }
                    },
                }
            }
        }
    }
}

proof fn lemma_walk_upto_hops(g: GraphView, sources: Seq<Endpoint>, n: nat, hops: nat)
    requires
        hops <= MAX_HOPS,
    ensures
        hops <= walk_upto(g, sources, n, hops).1 <= MAX_HOPS + 1,
        walk_upto(g, sources, n, hops).0 is Some ==> walk_upto(g, sources, n, hops).1 <= MAX_HOPS,
        walk_upto(g, sources, n, hops).0 matches Some(s) ==> s.len() == n,
    decreases MAX_HOPS - hops, n,
{
    if n > 0 {
        lemma_walk_upto_hops(g, sources, (n - 1) as nat, hops);
        let (before, h) = walk_upto(g, sources, (n - 1) as nat, hops);
        if before is Some {
            lemma_walk_hops(g, sources[n - 1], Settings::plain(), h);
        }
    }
}

impl Graph {
    /// What the chain that ends at `from` comes down to; `None` where the
    /// chain is broken, forms a cycle, or passes through a chapter node.
    pub fn resolve(&self, from: Endpoint) -> (r: Option<Resolved>)
        ensures
            match r {
                Some(x) => resolve_spec(self@, from) == Some(x.model()),
                None => resolve_spec(self@, from) is None,
            },
    {
        let mut hops: usize = 0;
        self.resolve_hopped(from, &mut hops)
    }

    /// `hops` is one count shared by all segments of all concat nodes, so
    /// that a cycle through several of them still ends.
    fn resolve_hopped(&self, from: Endpoint, hops: &mut usize) -> (r: Option<Resolved>)
        requires
            *old(hops) <= MAX_HOPS,
        ensures
            *final(hops) == walk(self@, from, Settings::plain(), *old(hops) as nat).1,
            *old(hops) < *final(hops) <= MAX_HOPS + 1,
            r is Some ==> *final(hops) <= MAX_HOPS,
            match r {
                Some(x) => walk(self@, from, Settings::plain(), *old(hops) as nat).0 == Some(
                    x.model(),
                ),
                None => walk(self@, from, Settings::plain(), *old(hops) as nat).0 is None,
            },
        decreases MAX_HOPS - *old(hops), 0nat,
    {
        let mut codec = Codec::Copy;
        let mut metadata = FieldMap::new();
        let mut disposition: Option<FlagSet> = None;
        let mut filters: Vec<FilterStep> = Vec::new();
        let mut current = from;
        proof {
            lemma_walk_hops(self@, from, Settings::plain(), *hops as nat);
            assert(settings_of(codec, metadata, disposition, filters) =~= Settings::plain());
        }
        loop
            invariant
                *old(hops) <= *hops <= MAX_HOPS,
                walk(self@, from, Settings::plain(), *old(hops) as nat) == walk(
                    self@,
                    current,
                    settings_of(codec, metadata, disposition, filters),
                    *hops as nat,
                ),
                *old(hops) < walk(self@, from, Settings::plain(), *old(hops) as nat).1 <= MAX_HOPS
                    + 1,
                walk(self@, from, Settings::plain(), *old(hops) as nat).0 is Some ==> walk(
                    self@,
                    from,
                    Settings::plain(),
                    *old(hops) as nat,
                ).1 <= MAX_HOPS,
            decreases MAX_HOPS + 1 - *hops,
        {
            broadcast use group_views;

            let ghost acc = settings_of(codec, metadata, disposition, filters);
            *hops = *hops + 1;
            if *hops > MAX_HOPS {
                return None;
            }
            match current {
                Endpoint::Stream { node, stream_idx } => {
                    return Some(
                        Resolved::Stream {
                            from_node: node,
                            from_stream_idx: stream_idx,
                            codec,
                            metadata,
                            disposition,
                            filters,
                        },
                    );
                },
                Endpoint::ModifierOut(mid) => {
                    let m = match self.modifier(mid) {
                        Some(m) => m,
                        None => {
                            return None;
                        },
                    };
                    match &m.kind {
                        ModifierKind::Convert(c) => {
                            if let Codec::Copy = codec {
                                codec = c.clone();
                            }
                        },
                        ModifierKind::Metadata { fields } => {
                            metadata.fill(fields);
                        },
                        ModifierKind::Disposition { flags } => {
                            if disposition.is_none() {
                                disposition = Some(flags.clone());
                            }
                        },
                        ModifierKind::Filter { name, fields } => {
                            filters.insert(0, FilterStep { name: *name, fields: fields.clone() });
                        },
                        ModifierKind::ChapterEdit { .. } => {
                            return None;
                        },
                        ModifierKind::Concat => {
                            let segments = match self.resolve_segments(mid, hops) {
                                Some(s) => s,
                                None => {
                                    return None;
                                },
                            };
                            let kind = match self.segments_kind(&segments) {
                                Some(k) => k,
                                None => {
                                    return None;
                                },
                            };
                            let r = Resolved::Concat {
                                kind,
                                segments,
                                codec,
                                metadata,
                                disposition,
                                filters,
                            };
                            assert(r.model()->Concat_segments =~= models(segments@));
                            return Some(r);
                        },
                    }
                    assert(settings_of(codec, metadata, disposition, filters) =~= acc.upstream(
                        m.kind@,
                    ));
                    match self.first_feed(Target::ModifierIn(mid)) {
                        Some(source) => {
                            current = source;
                        },
                        None => {
                            return None;
                        },
                    }
                },
            }
        }
    }

    /// The chains that feed concat node `mid`, in the order of its wires.
    fn resolve_segments(&self, mid: NodeId, hops: &mut usize) -> (r: Option<Vec<Resolved>>)
        requires
            *old(hops) <= MAX_HOPS,
        ensures
            ({
                let sources = feeds(self@.wires, Target::ModifierIn(mid));
                let w = walk_upto(self@, sources, sources.len(), *old(hops) as nat);
                match r {
                    Some(s) => sources.len() > 0 && w.0 == Some(models(s@)) && *final(hops) == w.1
                        && *final(hops) <= MAX_HOPS,
                    None => if sources.len() == 0 {
                        *final(hops) == *old(hops)
                    } else {
                        w.0 is None && *final(hops) == w.1
                    },
                }
            }),
        decreases MAX_HOPS - *old(hops), 1nat,
    {
        let at = self.incoming(Target::ModifierIn(mid));
        let ghost sources = feeds(self@.wires, Target::ModifierIn(mid));
        if at.len() == 0 {
            return None;
        }
        let mut segments: Vec<Resolved> = Vec::new();
        let mut i: usize = 0;
        assert(models(segments@) == Seq::<ResolvedView>::empty());
        proof {
            lemma_walk_upto_prefix(self@, sources, 0, sources.len(), *hops as nat);
        }
        while i < at.len()
            invariant
                i <= at@.len() == sources.len(),
                sources == feeds(self@.wires, Target::ModifierIn(mid)),
                at@ == incoming_spec(self@.wires, Target::ModifierIn(mid)),
                forall|k: int| 0 <= k < at@.len() ==> #[trigger] at@[k] < self.wires@.len(),
                *old(hops) <= *hops <= MAX_HOPS,
                walk_upto(self@, sources, i as nat, *old(hops) as nat) == (
                    Some(models(segments@)),
                    *hops as nat,
                ),
            decreases at@.len() - i,
        {
            let wi: usize = at[i];
            let source = self.wires[wi].from;
            assert(source == sources[i as int]);
            let ghost before = segments@;
            let ghost hops_before = *hops;
            match self.resolve_hopped(source, hops) {
                Some(x) => {
                    segments.push(x);
                    assert(models(segments@) == models(before).push(x.model()));
                },
                None => {
                    proof {
                        assert(walk_upto(self@, sources, (i + 1) as nat, *old(hops) as nat) == (
                            None::<Seq<ResolvedView>>,
                            *hops as nat,
                        ));
                        lemma_walk_upto_prefix(
                            self@,
                            sources,
                            (i + 1) as nat,
                            sources.len(),
                            *old(hops) as nat,
                        );
                    }
                    return None;
                },
            }
            i += 1;
        }
        Some(segments)
    }

    /// The kind that all of these chains carry, where they carry the same one.
    fn segments_kind(&self, segments: &Vec<Resolved>) -> (r: Option<StreamKind>)
        ensures
            r == common_kind(self@, models(segments@)),
    {
        if segments.len() == 0 {
            return None;
        }
        let first = match self.resolved_stream_kind(&segments[0]) {
            Some(k) => k,
            None => {
                return None;
            },
        };
        let mut i: usize = 1;
        assert(resolved_kind(self@, models(segments@)[0]) == Some(first));
        while i < segments.len()
            invariant
                1 <= i <= segments@.len(),
                resolved_kind(self@, models(segments@)[0]) == Some(first),
                forall|j: int|
                    0 <= j < i ==> resolved_kind(self@, #[trigger] models(segments@)[j]) == Some(
                        first,
                    ),
            decreases segments@.len() - i,
        {
            let same = match self.resolved_stream_kind(&segments[i]) {
                Some(k) => k == first,
                None => false,
            };
            if !same {
                assert(resolved_kind(self@, models(segments@)[i as int]) != Some(first));
                return None;
            }
            assert(resolved_kind(self@, models(segments@)[i as int]) == Some(first));
            i += 1;
        }
        Some(first)
    }

    /// The kind of a stream of an input.
    pub fn input_stream_kind(&self, node: NodeId, stream_idx: usize) -> (r: Option<StreamKind>)
        ensures
            r == stream_kind(self@, node, stream_idx),
    {
        match self.input(node) {
            Some(input) => if stream_idx < input.streams.len() {
                Some(input.streams[stream_idx].kind)
            } else {
                None
            },
            None => None,
        }
    }

    /// The kind that a chain carries.
    pub fn resolved_stream_kind(&self, r: &Resolved) -> (k: Option<StreamKind>)
        ensures
            k == resolved_kind(self@, r.model()),
    {
        match r {
            Resolved::Stream { from_node, from_stream_idx, .. } => self.input_stream_kind(
                *from_node,
                *from_stream_idx,
            ),
            Resolved::Concat { kind, .. } => Some(*kind),
        }
    }
}

/// A walk over more sources has no result, and the same count, once a walk
/// over fewer of them had none.
proof fn lemma_walk_upto_prefix(
    g: GraphView,
    sources: Seq<Endpoint>,
    k: nat,
    n: nat,
    hops: nat,
)
    requires
        k <= n,
    ensures
        walk_upto(g, sources, k, hops).0 is None ==> walk_upto(g, sources, n, hops) == walk_upto(
            g,
            sources,
            k,
            hops,
        ),
    decreases n - k,
{
    if k < n {
        lemma_walk_upto_prefix(g, sources, k, (n - 1) as nat, hops);
    }
}

// ---------------------------------------------------------------------
// Labels and chapters
// ---------------------------------------------------------------------

/// The part of a path behind its last slash.
pub open spec fn base_name(path: Seq<char>) -> Seq<char> {
    match last_of(path, '/') {
        Some(i) => path.subrange(i + 1, path.len() as int),
        None => path,
    }
}

/// The part of a path behind its last slash.
pub fn path_base(path: &str) -> (r: String)
    ensures
        r@ == base_name(path@),
{
    let v = chars_of(path);
    match find_last_before(&v, '/', v.len()) {
        Some(i) => text_of(&v, i + 1, v.len()),
        None => path.to_owned(),
    }
}

/// How a chain is shown: its label, and the file that it comes from where it
/// comes from a single one.
pub open spec fn label_and_source(g: GraphView, r: ResolvedView) -> (Seq<char>, Option<Seq<char>>) {
    match r {
        ResolvedView::Stream { from_node, from_stream_idx, .. } => match g.input(from_node) {
            Some(n) => if (from_stream_idx as int) < n.streams.len() {
                (
                    n.streams[from_stream_idx as int].label(),
                    Some("["@ + decimal(n.file_index as nat) + "] "@ + base_name(n.path)),
                )
            } else {
                ("(dangling)"@, None)
            },
            None => ("(dangling)"@, None),
        },
        ResolvedView::Concat { kind, segments, .. } => (
            "concat["@ + kind.noun_spec() + "] of "@ + decimal(segments.len()) + " segments"@,
            None,
        ),
    }
}

/// Where the chapters at `from` come from: an input's own chapter port, or a
/// chapter node, whose list is its own whatever feeds it.
pub open spec fn chapters_at(g: GraphView, from: Endpoint) -> Option<ChapterSource> {
    match from {
        Endpoint::Stream { node, stream_idx } => match g.input(node) {
            Some(input) => if (stream_idx as int) < input.streams.len()
                && input.streams[stream_idx as int].kind == StreamKind::Chapter {
                Some(ChapterSource::FromInput { input_file_index: input.file_index })
            } else {
                None
            },
            None => None,
        },
        Endpoint::ModifierOut(mid) => match g.modifier(mid) {
            Some(m) => match m.kind {
                KindView::ChapterEdit { .. } => Some(ChapterSource::Edited { modifier_id: mid }),
                _ => None,
            },
            None => None,
        },
    }
}

/// Where an output's chapters come from.
pub open spec fn output_chapters_spec(g: GraphView, id: NodeId) -> Option<ChapterSource> {
    match feed(g.wires, Target::OutputChapters(id)) {
        Some(from) => chapters_at(g, from),
        None => None,
    }
}

/// The kind of stream that an endpoint carries. A chapter node's output is
/// always chapters; any other modifier carries what its chain comes down to.
pub open spec fn endpoint_kind(g: GraphView, e: Endpoint) -> Option<StreamKind> {
    match e {
        Endpoint::Stream { node, stream_idx } => stream_kind(g, node, stream_idx),
        Endpoint::ModifierOut(mid) => match g.modifier(mid) {
            None => None,
            Some(m) => match m.kind {
                KindView::ChapterEdit { .. } => Some(StreamKind::Chapter),
                _ => match resolve_spec(g, e) {
                    Some(r) => resolved_kind(g, r),
                    None => None,
                },
            },
        },
    }
}

impl Graph {
    /// How a chain is shown: its label, and the file that it comes from where
    /// it comes from a single one.
    pub fn resolved_label_and_source(&self, r: &Resolved) -> (p: (String, Option<String>))
        ensures
            (p.0@, opt_text(p.1)) == label_and_source(self@, r.model()),
    {
        match r {
            Resolved::Stream { from_node, from_stream_idx, .. } => match self.input(*from_node) {
                Some(n) => {
                    if *from_stream_idx < n.streams.len() {
                        let index = number(n.file_index as u128);
                        let base = path_base(n.path.as_str());
                        (
                            n.streams[*from_stream_idx].label(),
                            Some(cat4("[", index.as_str(), "] ", base.as_str())),
                        )
                    } else {
                        ("(dangling)".to_owned(), None)
                    }
                },
                None => ("(dangling)".to_owned(), None),
            },
            Resolved::Concat { kind, segments, .. } => {
                let count = number(segments.len() as u128);
                (cat5("concat[", kind.noun(), "] of ", count.as_str(), " segments"), None)
            },
        }
    }

    /// Where an output's chapters come from.
    pub fn output_chapters(&self, output_id: NodeId) -> (r: Option<ChapterSource>)
        ensures
            r == output_chapters_spec(self@, output_id),
    {
        match self.first_feed(Target::OutputChapters(output_id)) {
            Some(from) => self.resolve_chapters(from),
            None => None,
        }
    }

    /// Where the chapters at `from` come from.
    pub fn resolve_chapters(&self, from: Endpoint) -> (r: Option<ChapterSource>)
        ensures
            r == chapters_at(self@, from),
    {
        match from {
            Endpoint::Stream { node, stream_idx } => match self.input(node) {
                Some(input) => if stream_idx < input.streams.len()
                    && input.streams[stream_idx].kind == StreamKind::Chapter {
                    Some(ChapterSource::FromInput { input_file_index: input.file_index })
                } else {
                    None
                },
                None => None,
            },
            Endpoint::ModifierOut(mid) => match self.modifier(mid) {
                Some(m) => match &m.kind {
                    ModifierKind::ChapterEdit { .. } => Some(
                        ChapterSource::Edited { modifier_id: mid },
                    ),
                    _ => None,
                },
                None => None,
            },
        }
    }

    /// The kind of stream that an endpoint carries.
    pub fn endpoint_stream_kind(&self, e: Endpoint) -> (r: Option<StreamKind>)
        ensures
            r == endpoint_kind(self@, e),
    {
        match e {
            Endpoint::Stream { node, stream_idx } => self.input_stream_kind(node, stream_idx),
            Endpoint::ModifierOut(mid) => match self.modifier(mid) {
                None => None,
                Some(m) => match &m.kind {
                    ModifierKind::ChapterEdit { .. } => Some(StreamKind::Chapter),
                    _ => match self.resolve(e) {
                        Some(r) => self.resolved_stream_kind(&r),
                        None => None,
                    },
                },
            },
        }
    }
}

} // verus!
