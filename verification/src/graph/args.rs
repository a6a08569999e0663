//! The ffmpeg command lines that a graph stands for.
use vstd::prelude::*;

use super::chapter::ChapterSource;
use super::node::{find_numeral, numeral, FilterName, InputNode, InputView, KindView, ModifierKind, ModifierView, Numeral, NumeralView, OutputNode, OutputView};
use super::resolve::{feeds, models, output_chapters_spec, resolve_spec, sources_of, FilterStep, FilterStepView, Resolved, ResolvedView, Settings};
use super::stream::StreamKind;
use super::wire::{Endpoint, NodeId, Target};
use super::{incoming_spec, Graph, GraphView};
use crate::fields::{field_get, Entry, FieldMap};
use crate::text::{append_texts, cat2, cat3, cat4, copy_texts, decimal, group_views, join, join_spec, number, opt_str, same_text, views};

verus! {

pub type Args = Seq<Seq<char>>;

// ---------------------------------------------------------------------
// Further options
// ---------------------------------------------------------------------

/// An option as command line tokens: `-<key>`, and the value as a token of
/// its own unless it is empty.
pub open spec fn option_tokens(e: Entry) -> Args {
    if e.1.len() == 0 {
        seq!["-"@ + e.0]
    } else {
        seq!["-"@ + e.0, e.1]
    }
}

/// The first `n` options as command line tokens.
pub open spec fn tokens_upto(m: Seq<Entry>, n: int) -> Args
    decreases n,
{
    if n <= 0 {
        Seq::empty()
    } else {
        tokens_upto(m, n - 1) + option_tokens(m[n - 1])
    }
}

/// All options as command line tokens.
pub open spec fn tokens(m: Seq<Entry>) -> Args {
    tokens_upto(m, m.len() as int)
}

/// Appends all options, as command line tokens.
pub fn extra_arg_tokens(list: &mut Vec<String>, args: &FieldMap)
    ensures
        views(final(list)@) == views(old(list)@) + tokens(args@),
{
    let mut i: usize = 0;
    assert(views(list@) + tokens_upto(args@, 0) == views(list@));
    while i < args.len()
        invariant
            i <= args@.len(),
            views(list@) == views(old(list)@) + tokens_upto(args@, i as int),
        decreases args@.len() - i,
    {
        broadcast use group_views;

        let ghost before = views(list@);
        list.push(cat2("-", args.key(i)));
        if !args.value(i).is_empty() {
            list.push(args.value(i).to_owned());
        }
        assert(views(list@) == before + option_tokens(args@[i as int]));
        assert(views(list@) == views(old(list)@) + tokens_upto(args@, i + 1));
        i += 1;
    }
}

// ---------------------------------------------------------------------
// Seeked inputs
// ---------------------------------------------------------------------

/// What a seeked input is opened for: a file, and the start and end of the
/// window that is read from it.
pub struct SeekKey {
    pub node: NodeId,
    pub start: String,
    pub end: String,
}

pub struct SeekKeyView {
    pub node: NodeId,
    pub start: Seq<char>,
    pub end: Seq<char>,
}

impl View for SeekKey {
    type V = SeekKeyView;

    open spec fn view(&self) -> SeekKeyView {
        SeekKeyView { node: self.node, start: self.start@, end: self.end@ }
    }
}

/// Inputs that are opened once more, each for the window of one trim: ffmpeg
/// then holds the frames of that window alone, where a shared whole-file input
/// would have it buffer everything up to the last window. Two streams trimmed
/// to the same window of a file share one.
pub struct SeekInputs {
    /// The file index of the first of them.
    first_index: u128,
    keys: Vec<SeekKey>,
    args: Vec<String>,
}

#[verifier::ext_equal]
pub struct SeekView {
    pub first_index: nat,
    pub keys: Seq<SeekKeyView>,
    pub args: Args,
}

impl View for SeekInputs {
    type V = SeekView;

    closed spec fn view(&self) -> SeekView {
        SeekView {
            first_index: self.first_index as nat,
            keys: views(self.keys@),
            args: views(self.args@),
        }
    }
}

impl Clone for SeekKey {
    fn clone(&self) -> (r: SeekKey)
        ensures
            r@ == self@,
    {
        SeekKey { node: self.node, start: self.start.clone(), end: self.end.clone() }
    }
}

impl Clone for SeekInputs {
    fn clone(&self) -> (r: SeekInputs)
        ensures
            r@ == self@,
    {
        let mut keys: Vec<SeekKey> = Vec::new();
        let mut i: usize = 0;
        while i < self.keys.len()
            invariant
                i <= self.keys@.len(),
                keys@.len() == i,
                forall|k: int| 0 <= k < i ==> (#[trigger] keys@[k])@ == self.keys@[k]@,
            decreases self.keys@.len() - i,
        {
            keys.push(self.keys[i].clone());
            i += 1;
        }
        let r = SeekInputs { first_index: self.first_index, keys, args: copy_texts(&self.args) };
        assert(r@ =~= self@);
        r
    }
}

/// The first position from `i` on of a key.
pub open spec fn seek_from(keys: Seq<SeekKeyView>, k: SeekKeyView, i: int) -> Option<int>
    decreases keys.len() - i,
{
    if i >= keys.len() {
        None
    } else if keys[i] == k {
        Some(i)
    } else {
        seek_from(keys, k, i + 1)
    }
}

/// `end` moved two seconds later, as a cushion for the seek, or unchanged
/// where it is not a plain number of seconds.
pub open spec fn padded_end(ns: Seq<NumeralView>, end: Seq<char>) -> Seq<char> {
    match numeral(ns, end) {
        Some(n) => n.padded,
        None => end,
    }
}

/// `end` moved two seconds later, as a cushion for the seek, or unchanged
/// where it is not a plain number of seconds.
pub fn padded_seek_end(numerals: &Vec<Numeral>, end: &str) -> (r: String)
    ensures
        r@ == padded_end(views(numerals@), end@),
{
    match find_numeral(numerals, end) {
        Some(n) => n.padded.clone(),
        None => end.to_owned(),
    }
}

/// A text, or the empty text where there is none.
pub open spec fn or_empty(o: Option<Seq<char>>) -> Seq<char> {
    match o {
        Some(s) => s,
        None => Seq::empty(),
    }
}

/// The arguments that open a window of an input file.
pub open spec fn seek_args(
    ns: Seq<NumeralView>,
    input: InputView,
    start: Option<Seq<char>>,
    end: Option<Seq<char>>,
) -> Args {
    tokens(input.extra_args) + (match start {
        Some(s) => seq!["-ss"@, s],
        None => Seq::empty(),
    }) + (match end {
        Some(e) => seq!["-to"@, padded_end(ns, e)],
        None => Seq::empty(),
    }) + seq!["-copyts"@, "-i"@, input.path]
}

impl SeekView {
    pub open spec fn starting_at(first_index: nat) -> SeekView {
        SeekView { first_index, keys: Seq::empty(), args: Seq::empty() }
    }

    /// The file index of the input that is opened for a window, and the
    /// inputs with that one among them.
    pub open spec fn get(
        self,
        ns: Seq<NumeralView>,
        input: InputView,
        start: Option<Seq<char>>,
        end: Option<Seq<char>>,
    ) -> (nat, SeekView) {
        let k = SeekKeyView { node: input.id, start: or_empty(start), end: or_empty(end) };
        match seek_from(self.keys, k, 0) {
            Some(i) => ((self.first_index + i) as nat, self),
            None => (
                (self.first_index + self.keys.len()) as nat,
                SeekView {
                    keys: self.keys.push(k),
                    args: self.args + seek_args(ns, input, start, end),
                    ..self
                },
            ),
        }
    }
}

/// The largest file index that seeked inputs may start at: far more inputs
/// than can be held in memory.
pub const MAX_FIRST_INDEX: u128 = 0x1_0000_0000_0000_0000_0000;

impl SeekInputs {
    /// No seeked inputs yet; the first one will have this file index.
    pub fn new(next_index: u128) -> (r: SeekInputs)
        ensures
            r@ == SeekView::starting_at(next_index as nat),
    {
        let r = SeekInputs { first_index: next_index, keys: Vec::new(), args: Vec::new() };
        assert(r@ =~= SeekView::starting_at(next_index as nat));
        r
    }

    /// The arguments that open all of them.
    pub fn args(&self) -> (r: &Vec<String>)
        ensures
            views(r@) == self@.args,
    {
        &self.args
    }

    /// The file index of the input that is opened for a window of `input`'s
    /// file; it is opened on first use.
    pub fn get_or_insert(
        &mut self,
        numerals: &Vec<Numeral>,
        input: &InputNode,
        start: Option<&str>,
        end: Option<&str>,
    ) -> (r: u128)
        requires
            old(self)@.first_index <= MAX_FIRST_INDEX,
        ensures
            (r as nat, final(self)@) == old(self)@.get(
                views(numerals@),
                input@,
                opt_str(start),
                opt_str(end),
            ),
    {
        broadcast use group_views;

        let start_key = match start {
            Some(s) => s.to_owned(),
            None => String::new(),
        };
        let end_key = match end {
            Some(e) => e.to_owned(),
            None => String::new(),
        };
        let key = SeekKey { node: input.id, start: start_key, end: end_key };
        let mut i: usize = 0;
        while i < self.keys.len()
            invariant
                i <= self.keys@.len(),
                *self == *old(self),
                seek_from(self@.keys, key@, 0) == seek_from(self@.keys, key@, i as int),
                key@ == (SeekKeyView {
                    node: input@.id,
                    start: or_empty(opt_str(start)),
                    end: or_empty(opt_str(end)),
                }),
                self@.first_index <= MAX_FIRST_INDEX,
            decreases self.keys@.len() - i,
        {
            if self.keys[i].node == key.node && same_text(
                self.keys[i].start.as_str(),
                key.start.as_str(),
            ) && same_text(self.keys[i].end.as_str(), key.end.as_str()) {
                return self.first_index + i as u128;
            }
            i += 1;
        }
        let index = self.first_index + self.keys.len() as u128;
        let ghost before = views(self.args@);
        extra_arg_tokens(&mut self.args, &input.extra_args);
        if let Some(s) = start {
            self.args.push("-ss".to_owned());
            self.args.push(s.to_owned());
        }
        if let Some(e) = end {
            self.args.push("-to".to_owned());
            self.args.push(padded_seek_end(numerals, e));
        }
        self.args.push("-copyts".to_owned());
        self.args.push("-i".to_owned());
        self.args.push(input.path.clone());
        assert(views(self.args@) == before + seek_args(
            views(numerals@),
            input@,
            opt_str(start),
            opt_str(end),
        ));
        self.keys.push(key);
        index
    }
}

// ---------------------------------------------------------------------
// Sources in the filtergraph
// ---------------------------------------------------------------------

/// What the sections of a command line share: the entries of the filtergraph,
/// and the seeked inputs.
#[verifier::ext_equal]
pub struct Plumbing {
    pub filters: Args,
    pub seeks: SeekView,
}

/// The expressions of those of the first `n` filters that do something.
pub open spec fn expressions_upto(
    steps: Seq<FilterStepView>,
    kind: StreamKind,
    ns: Seq<NumeralView>,
    n: int,
) -> Args
    decreases n,
{
    if n <= 0 {
        Seq::empty()
    } else {
        let p = expressions_upto(steps, kind, ns, n - 1);
        match steps[n - 1].name.expression_spec(kind, steps[n - 1].fields, ns) {
            Some(e) => p.push(e),
            None => p,
        }
    }
}

/// The expressions of those filters that do something.
pub open spec fn expressions(
    steps: Seq<FilterStepView>,
    kind: StreamKind,
    ns: Seq<NumeralView>,
) -> Args {
    expressions_upto(steps, kind, ns, steps.len() as int)
}

/// The name of the filtergraph entry at position `n`.
pub open spec fn entry_label(n: nat) -> Seq<char> {
    "f"@ + decimal(n)
}

/// One more entry: `input` followed by `body`, under the next label.
pub open spec fn add_entry(filters: Args, input: Seq<char>, body: Seq<char>) -> Args {
    filters.push(input + body + "["@ + entry_label(filters.len()) + "]"@)
}

/// How a chain is referred to: the label in brackets, the kind that it
/// carries, and whether it went through the filtergraph.
pub type Source = (Seq<char>, StreamKind, bool);

/// A source behind a filter chain: the same one where no filter does
/// anything, and otherwise the entry that applies them.
pub open spec fn filtered_source(
    source: Seq<char>,
    kind: StreamKind,
    routed: bool,
    parts: Args,
    filters: Args,
) -> (Source, Args) {
    if parts.len() == 0 {
        ((source, kind, routed), filters)
    } else {
        (
            ("["@ + entry_label(filters.len()) + "]"@, kind, true),
            add_entry(filters, source, join_spec(parts, ","@)),
        )
    }
}

/// How a chain is referred to, and the entries and inputs with those that it
/// needs among them. `None` where its stream is gone, or where it joins
/// streams that are neither video nor audio.
///
/// A stream whose only filter is a trim that does something is read from an
/// input that is opened for its window.
pub open spec fn source_spec(
    g: GraphView,
    r: ResolvedView,
    ns: Seq<NumeralView>,
    st: Plumbing,
) -> (Option<Source>, Plumbing)
    decreases r, 0nat,
{
    match r {
        ResolvedView::Stream { from_node, from_stream_idx, settings } => match g.input(from_node) {
            None => (None, st),
            Some(input) => if (from_stream_idx as int) >= input.streams.len() {
                (None, st)
            } else {
                let stream = input.streams[from_stream_idx as int];
                let parts = expressions(settings.filters, stream.kind, ns);
                let (file_index, seeks) = if settings.filters.len() == 1
                    && settings.filters[0].name == FilterName::Trim && parts.len() > 0 {
                    st.seeks.get(
                        ns,
                        input,
                        field_get(settings.filters[0].fields, "start"@),
                        field_get(settings.filters[0].fields, "end"@),
                    )
                } else {
                    (input.file_index as nat, st.seeks)
                };
                let (source, filters) = filtered_source(
                    "["@ + decimal(file_index) + ":"@ + decimal(stream.index as nat) + "]"@,
                    stream.kind,
                    false,
                    parts,
                    st.filters,
                );
                (Some(source), Plumbing { filters, seeks })
            },
        },
        ResolvedView::Concat { kind, segments, settings } => if kind != StreamKind::Video && kind
            != StreamKind::Audio {
            (None, st)
        } else {
            let (refs, st1) = refs_upto(g, segments, ns, st, segments.len());
            match refs {
                None => (None, st1),
                Some(labels) => {
                    let (source, filters) = filtered_source(
                        "["@ + entry_label(st1.filters.len()) + "]"@,
                        kind,
                        true,
                        expressions(settings.filters, kind, ns),
                        add_entry(
                            st1.filters,
                            labels,
                            "concat=n="@ + decimal(segments.len()) + (if kind
                                == StreamKind::Video {
                                ":v=1:a=0"@
                            } else {
                                ":v=0:a=1"@
                            }),
                        ),
                    );
                    (Some(source), Plumbing { filters, ..st1 })
                },
            }
        },
    }
}

/// The labels of the first `n` segments, one after the other.
pub open spec fn refs_upto(
    g: GraphView,
    segments: Seq<ResolvedView>,
    ns: Seq<NumeralView>,
    st: Plumbing,
    n: nat,
) -> (Option<Seq<char>>, Plumbing)
    decreases segments, n,
{
    if n == 0 || n > segments.len() {
        (Some(Seq::empty()), st)
    } else {
        let (before, st1) = refs_upto(g, segments, ns, st, (n - 1) as nat);
        match before {
            None => (None, st1),
            Some(labels) => {
                let (last, st2) = source_spec(g, segments[n - 1], ns, st1);
                match last {
                    None => (None, st2),
                    Some(s) => (Some(labels + s.0), st2),
                }
            },
        }
    }
}

proof fn lemma_refs_stop(
    g: GraphView,
    segments: Seq<ResolvedView>,
    ns: Seq<NumeralView>,
    st: Plumbing,
    k: nat,
    n: nat,
)
    requires
        k <= n <= segments.len(),
        refs_upto(g, segments, ns, st, k).0 is None,
    ensures
        refs_upto(g, segments, ns, st, n) == refs_upto(g, segments, ns, st, k),
    decreases n - k,
{
    if k < n {
        lemma_refs_stop(g, segments, ns, st, k, (n - 1) as nat);
    }
}

/// The view of what the sections share.
pub open spec fn plumbing(filter_complex: Vec<String>, seek_inputs: SeekInputs) -> Plumbing {
    Plumbing { filters: views(filter_complex@), seeks: seek_inputs@ }
}

fn filter_expressions(
    steps: &Vec<FilterStep>,
    kind: StreamKind,
    numerals: &Vec<Numeral>,
) -> (r: Vec<String>)
    ensures
        views(r@) == expressions(views(steps@), kind, views(numerals@)),
{
    let mut parts: Vec<String> = Vec::new();
    let mut i: usize = 0;
    assert(views(parts@) == Seq::<Seq<char>>::empty());
    while i < steps.len()
        invariant
            i <= steps@.len(),
            views(parts@) == expressions_upto(views(steps@), kind, views(numerals@), i as int),
        decreases steps@.len() - i,
    {
        broadcast use group_views;

        if let Some(e) = steps[i].name.expression(kind, &steps[i].fields, numerals) {
            parts.push(e);
        }
        i += 1;
    }
    parts
}

/// Adds the entry `input` followed by `body` to the filtergraph, and returns
/// its label in brackets.
fn push_entry(filter_complex: &mut Vec<String>, input: &str, body: &str) -> (r: String)
    ensures
        r@ == "["@ + entry_label(old(filter_complex)@.len()) + "]"@,
        views(final(filter_complex)@) == add_entry(views(old(filter_complex)@), input@, body@),
{
    broadcast use group_views;

    let n = number(filter_complex.len() as u128);
    let label = cat2("f", n.as_str());
    let mut entry = cat3(input, body, "[");
    entry.append(label.as_str());
    entry.append("]");
    filter_complex.push(entry);
    cat3("[", label.as_str(), "]")
}

/// Applies the filters of `parts` to a source.
fn filter_source(
    source: String,
    kind: StreamKind,
    routed: bool,
    parts: &Vec<String>,
    filter_complex: &mut Vec<String>,
) -> (r: (String, StreamKind, bool))
    ensures
        filtered_source(source@, kind, routed, views(parts@), views(old(filter_complex)@)) == (
            (r.0@, r.1, r.2),
            views(final(filter_complex)@),
        ),
{
    if parts.len() == 0 {
        (source, kind, routed)
    } else {
        let body = join(parts, ",");
        let label = push_entry(filter_complex, source.as_str(), body.as_str());
        (label, kind, true)
    }
}

impl Graph {
    /// How a chain is referred to on the command line. Adds what it needs to
    /// the filtergraph and to the seeked inputs.
    fn resolve_source(
        &self,
        r: &Resolved,
        numerals: &Vec<Numeral>,
        filter_complex: &mut Vec<String>,
        seek_inputs: &mut SeekInputs,
    ) -> (s: Option<(String, StreamKind, bool)>)
        requires
            old(seek_inputs)@.first_index <= MAX_FIRST_INDEX,
        ensures
            final(seek_inputs)@.first_index == old(seek_inputs)@.first_index,
            ({
                let (found, st) = source_spec(
                    self@,
                    r.model(),
                    views(numerals@),
                    plumbing(*old(filter_complex), *old(seek_inputs)),
                );
                &&& plumbing(*final(filter_complex), *final(seek_inputs)) == st
                &&& match s {
                    Some(x) => found == Some((x.0@, x.1, x.2)),
                    None => found is None,
                }
            }),
        decreases *r,
    {
        let ghost st = plumbing(*filter_complex, *seek_inputs);
        match r {
            Resolved::Stream { from_node, from_stream_idx, filters, .. } => {
                let input = match self.input(*from_node) {
                    Some(n) => n,
                    None => {
                        return None;
                    },
                };
                if *from_stream_idx >= input.streams.len() {
                    return None;
                }
                let stream = &input.streams[*from_stream_idx];
                let parts = filter_expressions(filters, stream.kind, numerals);
                let file_index: u128 = if filters.len() == 1 && filters[0].name == FilterName::Trim
                    && parts.len() > 0 {
                    let start = filters[0].fields.get("start");
                    let end = filters[0].fields.get("end");
                    seek_inputs.get_or_insert(numerals, input, start, end)
                } else {
                    input.file_index as u128
                };
                let file = number(file_index);
                let index = number(stream.index as u128);
                let mut source = cat4("[", file.as_str(), ":", index.as_str());
                source.append("]");
                Some(filter_source(source, stream.kind, false, &parts, filter_complex))
            },
            Resolved::Concat { kind, segments, filters, .. } => {
                let shape = match kind {
                    StreamKind::Video => ":v=1:a=0",
                    StreamKind::Audio => ":v=0:a=1",
                    _ => {
                        return None;
                    },
                };
                let ghost segs = models(segments@);
                assert(r.model()->Concat_segments =~= segs);
                let mut refs = String::new();
                let mut i: usize = 0;
                while i < segments.len()
                    invariant
                        i <= segments@.len(),
                        *r matches Resolved::Concat { segments: inner, .. } && inner == *segments,
                        segs == models(segments@),
                        st == plumbing(*old(filter_complex), *old(seek_inputs)),
                        r.model() is Concat,
                        r.model()->Concat_segments == segs,
                        r.model()->Concat_kind == StreamKind::Video || r.model()->Concat_kind
                            == StreamKind::Audio,
                        st.seeks.first_index <= MAX_FIRST_INDEX,
                        seek_inputs@.first_index == st.seeks.first_index,
                        refs_upto(self@, segs, views(numerals@), st, i as nat) == (
                            Some(refs@),
                            plumbing(*filter_complex, *seek_inputs),
                        ),
                    decreases segments@.len() - i,
                {
                    assert(decreases_to!(segments@ => segments@[i as int]));
                    let found = self.resolve_source(
                        &segments[i],
                        numerals,
                        filter_complex,
                        seek_inputs,
                    );
                    assert(segs[i as int] == segments@[i as int].model());
                    match found {
                        Some(x) => {
                            refs.append(x.0.as_str());
                        },
                        None => {
                            proof {
                                lemma_refs_stop(
                                    self@,
                                    segs,
                                    views(numerals@),
                                    st,
                                    (i + 1) as nat,
                                    segs.len(),
                                );
                            }
                            return None;
                        },
                    }
                    i += 1;
                }
                let count = number(segments.len() as u128);
                let body = cat3("concat=n=", count.as_str(), shape);
                let label = push_entry(filter_complex, refs.as_str(), body.as_str());
                let parts = filter_expressions(filters, *kind, numerals);
                Some(filter_source(label, *kind, true, &parts, filter_complex))
            },
        }
    }
}

// ---------------------------------------------------------------------
// One output
// ---------------------------------------------------------------------

/// What those of the first `n` sources that come down to something come down
/// to.
pub open spec fn chains_upto(g: GraphView, sources: Seq<Endpoint>, n: int) -> Seq<ResolvedView>
    decreases n,
{
    if n <= 0 {
        Seq::empty()
    } else {
        let p = chains_upto(g, sources, n - 1);
        match resolve_spec(g, sources[n - 1]) {
            Some(r) => p.push(r),
            None => p,
        }
    }
}

/// The chains that are mapped into output `id`.
pub open spec fn output_chains(g: GraphView, id: NodeId) -> Seq<ResolvedView> {
    let sources = feeds(g.wires, Target::Output(id));
    chains_upto(g, sources, sources.len() as int)
}

/// A label without its brackets.
pub open spec fn unbracketed(label: Seq<char>) -> Seq<char> {
    label.subrange(1, label.len() - 1)
}

/// The `-map` arguments of the first `n` chains, and for each of them whether
/// it goes through the filtergraph. A chain that does is mapped by its label,
/// any other by its file and stream; one that cannot be referred to is not
/// mapped.
pub open spec fn maps_upto(
    g: GraphView,
    chains: Seq<ResolvedView>,
    ns: Seq<NumeralView>,
    st: Plumbing,
    n: int,
) -> (Args, Seq<bool>, Plumbing)
    decreases n,
{
    if n <= 0 {
        (Seq::empty(), Seq::empty(), st)
    } else {
        let (args, routed, st1) = maps_upto(g, chains, ns, st, n - 1);
        let (found, st2) = source_spec(g, chains[n - 1], ns, st1);
        match found {
            None => (args, routed.push(false), st2),
            Some(s) => (
                args + seq![
                    "-map"@,
                    if s.2 {
                        s.0
                    } else {
                        unbracketed(s.0)
                    },
                ],
                routed.push(s.2),
                st2,
            ),
        }
    }
}

/// Whether every chain is copied as it is.
pub open spec fn all_copied(chains: Seq<ResolvedView>, routed: Seq<bool>) -> bool {
    forall|i: int|
        0 <= i < chains.len() ==> !routed[i] && (#[trigger] chains[i]).settings().codec is Copy
}

/// The codec of the stream at position `i` of an output: the one asked for,
/// else a copy, else (where it went through the filtergraph, and so cannot be
/// copied) ffmpeg's own choice. Where all streams are copied, one option has
/// said so.
pub open spec fn codec_args(settings: Settings, routed: bool, all_copied: bool, i: int) -> Args {
    match settings.codec.ffmpeg_name() {
        Some(name) => seq!["-c:"@ + decimal(i as nat), name],
        None => if routed || all_copied {
            Seq::empty()
        } else {
            seq!["-c:"@ + decimal(i as nat), "copy"@]
        },
    }
}

/// The first `n` metadata fields of the stream at position `i`.
pub open spec fn metadata_args_upto(m: Seq<Entry>, i: int, n: int) -> Args
    decreases n,
{
    if n <= 0 {
        Seq::empty()
    } else {
        metadata_args_upto(m, i, n - 1) + seq![
            "-metadata:s:"@ + decimal(i as nat),
            m[n - 1].0 + "="@ + m[n - 1].1,
        ]
    }
}

/// The disposition of the stream at position `i`: the flags joined by plus
/// signs, and zero to clear them all.
pub open spec fn disposition_args(d: Option<Seq<Seq<char>>>, i: int) -> Args {
    match d {
        None => Seq::empty(),
        Some(flags) => seq![
            "-disposition:"@ + decimal(i as nat),
            if flags.len() == 0 {
                "0"@
            } else {
                join_spec(flags, "+"@)
            },
        ],
    }
}

/// What is asked for on the stream at position `i` of an output.
pub open spec fn stream_args(settings: Settings, routed: bool, all_copied: bool, i: int) -> Args {
    codec_args(settings, routed, all_copied, i) + metadata_args_upto(
        settings.metadata,
        i,
        settings.metadata.len() as int,
    ) + disposition_args(settings.disposition, i)
}

/// What is asked for on the first `n` streams of an output.
pub open spec fn stream_args_upto(
    chains: Seq<ResolvedView>,
    routed: Seq<bool>,
    all_copied: bool,
    n: int,
) -> Args
    decreases n,
{
    if n <= 0 {
        Seq::empty()
    } else {
        stream_args_upto(chains, routed, all_copied, n - 1) + stream_args(
            chains[n - 1].settings(),
            routed[n - 1],
            all_copied,
            n - 1,
        )
    }
}

/// What an output asks for as a whole, and its path.
pub open spec fn output_tail(
    output: OutputView,
    path: Seq<char>,
    extra: Args,
    chapter_input: Option<nat>,
) -> Args {
    (match output.container {
        Some(c) => seq!["-f"@, c],
        None => Seq::empty(),
    }) + (match chapter_input {
        Some(i) => seq!["-map_chapters"@, decimal(i)],
        None => Seq::empty(),
    }) + tokens(output.extra_args) + extra + seq![path]
}

/// The arguments of one output: its mapped streams, what is asked for on each
/// of them, and its path. `None` where nothing is mapped into it: a path
/// without a `-map` would have ffmpeg choose streams by itself. Such an output
/// leaves no entries and no inputs behind.
pub open spec fn section_spec(
    g: GraphView,
    output: OutputView,
    path: Seq<char>,
    extra: Args,
    ns: Seq<NumeralView>,
    chapter_input: Option<nat>,
    st: Plumbing,
) -> (Option<Args>, Plumbing) {
    let chains = output_chains(g, output.id);
    let (maps, routed, st1) = maps_upto(g, chains, ns, st, chains.len() as int);
    if maps.len() == 0 {
        (None, st)
    } else {
        let copied = all_copied(chains, routed);
        (
            Some(
                maps + (if copied {
                    seq!["-c"@, "copy"@]
                } else {
                    Seq::empty()
                }) + stream_args_upto(chains, routed, copied, chains.len() as int) + output_tail(
                    output,
                    path,
                    extra,
                    chapter_input,
                ),
            ),
            st1,
        )
    }
}

/// A source always stands in brackets.
proof fn lemma_source_bracketed(g: GraphView, r: ResolvedView, ns: Seq<NumeralView>, st: Plumbing)
    ensures
        source_spec(g, r, ns, st).0 matches Some(s) ==> s.0.len() >= 2,
{
    reveal_strlit("[");
    reveal_strlit("]");
}

/// The view of an optional count.
pub open spec fn opt_nat(o: Option<u128>) -> Option<nat> {
    match o {
        Some(n) => Some(n as nat),
        None => None,
    }
}

/// Appends what is asked for on the stream at position `i`.
fn push_stream_args(
    args: &mut Vec<String>,
    r: &Resolved,
    routed: bool,
    all_copied: bool,
    i: usize,
)
    ensures
        views(final(args)@) == views(old(args)@) + stream_args(
            r.model().settings(),
            routed,
            all_copied,
            i as int,
        ),
{
    broadcast use group_views;

    let ghost settings = r.model().settings();
    let local = number(i as u128);
    match r.codec().ffmpeg_name() {
        Some(name) => {
            args.push(cat2("-c:", local.as_str()));
            args.push(name.to_owned());
        },
        None => {
            if !routed && !all_copied {
                args.push(cat2("-c:", local.as_str()));
                args.push("copy".to_owned());
            }
        },
    }
    let ghost a1 = views(args@);
    assert(a1 == views(old(args)@) + codec_args(settings, routed, all_copied, i as int));
    let metadata = r.metadata();
    let mut k: usize = 0;
    assert(a1 + metadata_args_upto(metadata@, i as int, 0) == a1);
    while k < metadata.len()
        invariant
            k <= metadata@.len(),
            local@ == decimal(i as nat),
            views(args@) == a1 + metadata_args_upto(metadata@, i as int, k as int),
        decreases metadata@.len() - k,
    {
        broadcast use group_views;

        let ghost before = views(args@);
        args.push(cat2("-metadata:s:", local.as_str()));
        args.push(cat3(metadata.key(k), "=", metadata.value(k)));
        k += 1;
        assert(views(args@) == a1 + metadata_args_upto(metadata@, i as int, k as int));
    }
    let ghost a2 = views(args@);
    if let Some(flags) = r.disposition() {
        args.push(cat2("-disposition:", local.as_str()));
        if flags.is_empty() {
            args.push("0".to_owned());
        } else {
            args.push(join(flags.names(), "+"));
        }
    }
    assert(views(args@) == a2 + disposition_args(settings.disposition, i as int));
    assert(views(args@) == views(old(args)@) + stream_args(
        settings,
        routed,
        all_copied,
        i as int,
    ));
}

/// Appends what an output asks for as a whole, and its path.
fn push_output_tail(
    args: &mut Vec<String>,
    output: &OutputNode,
    path: &str,
    extra: &Vec<String>,
    chapter_input: Option<u128>,
)
    ensures
        views(final(args)@) == views(old(args)@) + output_tail(
            output@,
            path@,
            views(extra@),
            opt_nat(chapter_input),
        ),
{
    broadcast use group_views;

    if let Some(container) = &output.container {
        args.push("-f".to_owned());
        args.push(container.clone());
    }
    if let Some(idx) = chapter_input {
        args.push("-map_chapters".to_owned());
        args.push(number(idx));
    }
    extra_arg_tokens(args, &output.extra_args);
    append_texts(args, extra);
    args.push(path.to_owned());
    assert(views(args@) == views(old(args)@) + output_tail(
        output@,
        path@,
        views(extra@),
        opt_nat(chapter_input),
    ));
}

/// A text without its first and last character.
fn inside(label: &str) -> (r: String)
    requires
        label@.len() >= 2,
    ensures
        r@ == unbracketed(label@),
{
    let v = crate::text::chars_of(label);
    crate::text::text_of(&v, 1, v.len() - 1)
}

impl Graph {
    /// The chains that are mapped into output `id`.
    fn mapped_chains(&self, id: NodeId) -> (r: Vec<Resolved>)
        ensures
            models(r@) == output_chains(self@, id),
    {
        let at = self.incoming(Target::Output(id));
        let ghost sources = feeds(self@.wires, Target::Output(id));
        let mut chains: Vec<Resolved> = Vec::new();
        let mut i: usize = 0;
        assert(models(chains@) == Seq::<ResolvedView>::empty());
        while i < at.len()
            invariant
                i <= at@.len() == sources.len(),
                at@ == incoming_spec(self@.wires, Target::Output(id)),
                sources == sources_of(self@.wires, at@),
                forall|k: int| 0 <= k < at@.len() ==> #[trigger] at@[k] < self.wires@.len(),
                models(chains@) == chains_upto(self@, sources, i as int),
            decreases at@.len() - i,
        {
            let wi: usize = at[i];
            let source = self.wires[wi].from;
            assert(source == sources[i as int]);
            let ghost before = chains@;
            if let Some(r) = self.resolve(source) {
                chains.push(r);
                assert(models(chains@) == models(before).push(r.model()));
            }
            i += 1;
        }
        chains
    }

    /// The arguments of one output, or `None` where nothing is mapped into
    /// it. The preview writes to another path and puts further arguments in
    /// front of it.
    fn build_output_section(
        &self,
        output: &OutputNode,
        path: &str,
        extra_args: &Vec<String>,
        numerals: &Vec<Numeral>,
        filter_complex: &mut Vec<String>,
        chapter_input: Option<u128>,
        seek_inputs: &mut SeekInputs,
    ) -> (r: Option<Vec<String>>)
        requires
            old(seek_inputs)@.first_index <= MAX_FIRST_INDEX,
        ensures
            final(seek_inputs)@.first_index == old(seek_inputs)@.first_index,
            ({
                let (section, st) = section_spec(
                    self@,
                    output@,
                    path@,
                    views(extra_args@),
                    views(numerals@),
                    opt_nat(chapter_input),
                    plumbing(*old(filter_complex), *old(seek_inputs)),
                );
                &&& plumbing(*final(filter_complex), *final(seek_inputs)) == st
                &&& match r {
                    Some(args) => section == Some(views(args@)),
                    None => section is None,
                }
            }),
    {
        broadcast use group_views;

        let resolved = self.mapped_chains(output.id);
        let ghost st = plumbing(*filter_complex, *seek_inputs);
        let ghost chains = models(resolved@);
        let ghost ns = views(numerals@);
        let mut filters = copy_texts(filter_complex);
        let mut seeks = seek_inputs.clone();
        let mut args: Vec<String> = Vec::new();
        let mut was_filtered: Vec<bool> = Vec::new();
        let mut all_plain = true;
        let mut i: usize = 0;
        while i < resolved.len()
            invariant
                i <= resolved@.len(),
                chains == models(resolved@),
                ns == views(numerals@),
                st.seeks.first_index <= MAX_FIRST_INDEX,
                seeks@.first_index == st.seeks.first_index,
                was_filtered@.len() == i,
                maps_upto(self@, chains, ns, st, i as int) == (
                    views(args@),
                    was_filtered@,
                    plumbing(filters, seeks),
                ),
                all_plain == forall|j: int|
                    0 <= j < i ==> !was_filtered@[j] && (
                    #[trigger] chains[j]).settings().codec is Copy,
            decreases resolved@.len() - i,
        {
            broadcast use group_views;

            proof {
                lemma_source_bracketed(
                    self@,
                    chains[i as int],
                    ns,
                    plumbing(filters, seeks),
                );
            }
            let ghost before = views(args@);
            let ghost flags_before = was_filtered@;
            assert(chains[i as int] == resolved@[i as int].model());
            match self.resolve_source(&resolved[i], numerals, &mut filters, &mut seeks) {
                None => {
                    was_filtered.push(false);
                },
                Some((label, _kind, filtered)) => {
                    args.push("-map".to_owned());
                    if filtered {
                        args.push(label);
                    } else {
                        args.push(inside(label.as_str()));
                    }
                    was_filtered.push(filtered);
                    assert(views(args@) == before + seq![
                        "-map"@,
                        if filtered {
                            label@
                        } else {
                            unbracketed(label@)
                        },
                    ]);
                },
            }
            let plain = !was_filtered[i] && resolved[i].codec().ffmpeg_name().is_none();
            if !plain {
                all_plain = false;
                assert(was_filtered@[i as int] || !((
                chains[i as int]).settings().codec is Copy));
            }
            i += 1;
        }
        if args.len() == 0 {
            return None;
        }
        *filter_complex = filters;
        *seek_inputs = seeks;
        let ghost routed = was_filtered@;
        let ghost maps = views(args@);
        assert(all_plain == all_copied(chains, routed));
        if all_plain {
            args.push("-c".to_owned());
            args.push("copy".to_owned());
        }
        let ghost head = views(args@);
        assert(head == maps + (if all_plain {
            seq!["-c"@, "copy"@]
        } else {
            Seq::empty()
        }));
        let mut k: usize = 0;
        assert(head + stream_args_upto(chains, routed, all_plain, 0) == head);
        while k < resolved.len()
            invariant
                k <= resolved@.len(),
                chains == models(resolved@),
                routed == was_filtered@,
                routed.len() == resolved@.len(),
                views(args@) == head + stream_args_upto(chains, routed, all_plain, k as int),
            decreases resolved@.len() - k,
        {
            assert(chains[k as int] == resolved@[k as int].model());
            push_stream_args(&mut args, &resolved[k], was_filtered[k], all_plain, k);
            k += 1;
            assert(views(args@) == head + stream_args_upto(chains, routed, all_plain, k as int));
        }
        push_output_tail(&mut args, output, path, extra_args, chapter_input);
        Some(args)
    }
}

// ---------------------------------------------------------------------
// The whole command line
// ---------------------------------------------------------------------

/// The arguments that open the first `n` inputs.
pub open spec fn input_args_upto(inputs: Seq<InputView>, n: int) -> Args
    decreases n,
{
    if n <= 0 {
        Seq::empty()
    } else {
        input_args_upto(inputs, n - 1) + tokens(inputs[n - 1].extra_args) + seq![
            "-i"@,
            inputs[n - 1].path,
        ]
    }
}

/// An FFMETADATA file that holds the chapters of a chapter node.
pub struct ChapterFile {
    pub modifier: NodeId,
    pub path: String,
}

pub struct ChapterFileView {
    pub modifier: NodeId,
    pub path: Seq<char>,
}

impl View for ChapterFile {
    type V = ChapterFileView;

    open spec fn view(&self) -> ChapterFileView {
        ChapterFileView { modifier: self.modifier, path: self.path@ }
    }
}

/// The path of the first file from `i` on for a chapter node.
pub open spec fn file_from(files: Seq<ChapterFileView>, modifier: NodeId, i: int) -> Option<
    Seq<char>,
>
    decreases files.len() - i,
{
    if i >= files.len() {
        None
    } else if files[i].modifier == modifier {
        Some(files[i].path)
    } else {
        file_from(files, modifier, i + 1)
    }
}

/// The path of the file for a chapter node.
pub open spec fn file_of(files: Seq<ChapterFileView>, modifier: NodeId) -> Option<Seq<char>> {
    file_from(files, modifier, 0)
}

fn find_file<'a>(files: &'a Vec<ChapterFile>, modifier: NodeId) -> (r: Option<&'a str>)
    ensures
        opt_str(r) == file_of(views(files@), modifier),
{
    let mut i: usize = 0;
    while i < files.len()
        invariant
            i <= files@.len(),
            file_of(views(files@), modifier) == file_from(views(files@), modifier, i as int),
        decreases files@.len() - i,
    {
        if files[i].modifier == modifier {
            return Some(files[i].path.as_str());
        }
        i += 1;
    }
    None
}

/// The chapter source of an output.
pub type Sourced = (NodeId, ChapterSource);

/// The first position from `i` on whose output id is not below `id`.
pub open spec fn sourced_rank(m: Seq<Sourced>, id: NodeId, i: int) -> int
    decreases m.len() - i,
{
    if i >= m.len() {
        m.len() as int
    } else if m[i].0 < id {
        sourced_rank(m, id, i + 1)
    } else {
        i
    }
}

/// Chapter sources by output id, with one more of them.
pub open spec fn sourced_set(m: Seq<Sourced>, id: NodeId, source: ChapterSource) -> Seq<Sourced> {
    let r = sourced_rank(m, id, 0);
    if r < m.len() && m[r].0 == id {
        m.update(r, (id, source))
    } else {
        m.insert(r, (id, source))
    }
}

/// The chapter sources of the first `n` outputs, by output id.
pub open spec fn sourced_upto(g: GraphView, n: int) -> Seq<Sourced>
    decreases n,
{
    if n <= 0 {
        Seq::empty()
    } else {
        let p = sourced_upto(g, n - 1);
        match output_chapters_spec(g, g.outputs[n - 1].id) {
            Some(source) => sourced_set(p, g.outputs[n - 1].id, source),
            None => p,
        }
    }
}

/// The chapter nodes that the first `n` chapter sources need a file of, each
/// once, as far as there is a file.
pub open spec fn edited_upto(m: Seq<Sourced>, files: Seq<ChapterFileView>, n: int) -> Seq<NodeId>
    decreases n,
{
    if n <= 0 {
        Seq::empty()
    } else {
        let p = edited_upto(m, files, n - 1);
        match m[n - 1].1 {
            ChapterSource::Edited { modifier_id } => if !p.contains(modifier_id) && file_of(
                files,
                modifier_id,
            ) is Some {
                p.push(modifier_id)
            } else {
                p
            },
            ChapterSource::FromInput { .. } => p,
        }
    }
}

/// The arguments that open the files of the first `n` chapter nodes.
pub open spec fn file_args_upto(edited: Seq<NodeId>, files: Seq<ChapterFileView>, n: int) -> Args
    decreases n,
{
    if n <= 0 {
        Seq::empty()
    } else {
        file_args_upto(edited, files, n - 1) + seq!["-i"@, or_empty(file_of(files, edited[n - 1]))]
    }
}

/// The first position from `i` on of a node.
pub open spec fn node_from(s: Seq<NodeId>, id: NodeId, i: int) -> Option<int>
    decreases s.len() - i,
{
    if i >= s.len() {
        None
    } else if s[i] == id {
        Some(i)
    } else {
        node_from(s, id, i + 1)
    }
}

/// The file that an output's chapters are taken from: the input itself, or
/// the file of the chapter node. The latter stand behind the inputs.
pub open spec fn chapter_index(
    source: Option<ChapterSource>,
    inputs: nat,
    edited: Seq<NodeId>,
) -> Option<nat> {
    match source {
        None => None,
        Some(ChapterSource::FromInput { input_file_index }) => Some(input_file_index as nat),
        Some(ChapterSource::Edited { modifier_id }) => match node_from(edited, modifier_id, 0) {
            Some(i) => Some((inputs + i) as nat),
            None => None,
        },
    }
}

/// The chapter source that is noted for an output.
pub open spec fn sourced_from(m: Seq<Sourced>, id: NodeId, i: int) -> Option<ChapterSource>
    decreases m.len() - i,
{
    if i >= m.len() {
        None
    } else if m[i].0 == id {
        Some(m[i].1)
    } else {
        sourced_from(m, id, i + 1)
    }
}

/// The sections of the first `n` outputs; an output into which nothing is
/// mapped has none.
pub open spec fn sections_upto(
    g: GraphView,
    ns: Seq<NumeralView>,
    sourced: Seq<Sourced>,
    edited: Seq<NodeId>,
    st: Plumbing,
    n: int,
) -> (Args, Plumbing)
    decreases n,
{
    if n <= 0 {
        (Seq::empty(), st)
    } else {
        let (args, st1) = sections_upto(g, ns, sourced, edited, st, n - 1);
        let output = g.outputs[n - 1];
        let (section, st2) = section_spec(
            g,
            output,
            output.path,
            Seq::empty(),
            ns,
            chapter_index(sourced_from(sourced, output.id, 0), g.inputs.len(), edited),
            st1,
        );
        match section {
            Some(more) => (args + more, st2),
            None => (args, st2),
        }
    }
}

/// The filtergraph as an argument, where it has entries.
pub open spec fn filter_args(filters: Args) -> Args {
    if filters.len() == 0 {
        Seq::empty()
    } else {
        seq!["-filter_complex"@, join_spec(filters, ";"@)]
    }
}

/// The whole command line: all inputs, the files of chapter nodes, the seeked
/// inputs, the filtergraph, and a section for each output into which
/// something is mapped.
pub open spec fn ffmpeg_args(g: GraphView, files: Seq<ChapterFileView>, ns: Seq<NumeralView>) -> Args {
    let sourced = sourced_upto(g, g.outputs.len() as int);
    let edited = edited_upto(sourced, files, sourced.len() as int);
    let st = Plumbing {
        filters: Seq::empty(),
        seeks: SeekView::starting_at((g.inputs.len() + edited.len()) as nat),
    };
    let (sections, st1) = sections_upto(g, ns, sourced, edited, st, g.outputs.len() as int);
    seq!["-y"@] + input_args_upto(g.inputs, g.inputs.len() as int) + file_args_upto(
        edited,
        files,
        edited.len() as int,
    ) + st1.seeks.args + filter_args(st1.filters) + sections
}

/// The command line that renders the first seconds of one output to another
/// path. `None` where there is no such output, or nothing is mapped into it.
pub open spec fn preview_args(
    g: GraphView,
    id: NodeId,
    path: Seq<char>,
    seconds: nat,
    files: Seq<ChapterFileView>,
    ns: Seq<NumeralView>,
) -> Option<Args> {
    match g.output(id) {
        None => None,
        Some(output) => {
            let source = output_chapters_spec(g, output.id);
            let sourced = match source {
                Some(s) => seq![(output.id, s)],
                None => Seq::empty(),
            };
            let edited = edited_upto(sourced, files, sourced.len() as int);
            let st = Plumbing {
                filters: Seq::empty(),
                seeks: SeekView::starting_at((g.inputs.len() + edited.len()) as nat),
            };
            let (section, st1) = section_spec(
                g,
                output,
                path,
                seq!["-t"@, decimal(seconds)],
                ns,
                chapter_index(source, g.inputs.len(), edited),
                st,
            );
            match section {
                None => None,
                Some(more) => Some(
                    seq!["-y"@] + input_args_upto(g.inputs, g.inputs.len() as int)
                        + file_args_upto(edited, files, edited.len() as int) + st1.seeks.args
                        + filter_args(st1.filters) + more,
                ),
            }
        },
    }
}

/// Appends the filtergraph as an argument, where it has entries.
fn push_filter_args(args: &mut Vec<String>, filter_complex: &Vec<String>)
    ensures
        views(final(args)@) == views(old(args)@) + filter_args(views(filter_complex@)),
{
    broadcast use group_views;

    if filter_complex.len() > 0 {
        args.push("-filter_complex".to_owned());
        args.push(join(filter_complex, ";"));
    }
    assert(views(args@) == views(old(args)@) + filter_args(views(filter_complex@)));
}

/// Notes the chapter source of an output.
fn note_source(m: &mut Vec<Sourced>, id: NodeId, source: ChapterSource)
    ensures
        final(m)@ == sourced_set(old(m)@, id, source),
{
    let mut i: usize = 0;
    while i < m.len() && m[i].0 < id
        invariant
            i <= m@.len(),
            *m == *old(m),
            sourced_rank(m@, id, 0) == sourced_rank(m@, id, i as int),
        decreases m@.len() - i,
    {
        i += 1;
    }
    if i < m.len() && m[i].0 == id {
        m.set(i, (id, source));
    } else {
        m.insert(i, (id, source));
    }
}

fn find_source(m: &Vec<Sourced>, id: NodeId) -> (r: Option<ChapterSource>)
    ensures
        r == sourced_from(m@, id, 0),
{
    let mut i: usize = 0;
    while i < m.len()
        invariant
            i <= m@.len(),
            sourced_from(m@, id, 0) == sourced_from(m@, id, i as int),
        decreases m@.len() - i,
    {
        if m[i].0 == id {
            return Some(m[i].1);
        }
        i += 1;
    }
    None
}

fn find_edited(edited: &Vec<NodeId>, id: NodeId) -> (r: Option<usize>)
    ensures
        match r {
            Some(i) => node_from(edited@, id, 0) == Some(i as int) && i < edited@.len()
                && edited@.contains(id),
            None => node_from(edited@, id, 0) is None && !edited@.contains(id),
        },
{
    let mut i: usize = 0;
    while i < edited.len()
        invariant
            i <= edited@.len(),
            node_from(edited@, id, 0) == node_from(edited@, id, i as int),
            forall|j: int| 0 <= j < i ==> edited@[j] != id,
        decreases edited@.len() - i,
    {
        if edited[i] == id {
            assert(edited@[i as int] == id);
            return Some(i);
        }
        i += 1;
    }
    None
}

/// Appends the arguments that open the files of the chapter nodes that these
/// sources need, and returns the nodes.
fn push_chapter_files(
    args: &mut Vec<String>,
    sourced: &Vec<Sourced>,
    files: &Vec<ChapterFile>,
) -> (edited: Vec<NodeId>)
    ensures
        edited@ == edited_upto(sourced@, views(files@), sourced@.len() as int),
        views(final(args)@) == views(old(args)@) + file_args_upto(
            edited@,
            views(files@),
            edited@.len() as int,
        ),
        edited@.len() <= sourced@.len(),
{
    let mut edited: Vec<NodeId> = Vec::new();
    let mut i: usize = 0;
    assert(views(args@) + file_args_upto(edited@, views(files@), 0) == views(args@));
    while i < sourced.len()
        invariant
            i <= sourced@.len(),
            edited@.len() <= i,
            edited@ == edited_upto(sourced@, views(files@), i as int),
            views(args@) == views(old(args)@) + file_args_upto(
                edited@,
                views(files@),
                edited@.len() as int,
            ),
        decreases sourced@.len() - i,
    {
        broadcast use group_views;

        if let ChapterSource::Edited { modifier_id } = sourced[i].1 {
            if find_edited(&edited, modifier_id).is_none() {
                if let Some(path) = find_file(files, modifier_id) {
                    let ghost before = edited@;
                    args.push("-i".to_owned());
                    args.push(path.to_owned());
                    edited.push(modifier_id);
                    proof {
                        lemma_file_args_prefix(
                            before,
                            edited@,
                            views(files@),
                            before.len() as int,
                        );
                    }
                    assert(views(args@) == views(old(args)@) + file_args_upto(
                        edited@,
                        views(files@),
                        edited@.len() as int,
                    ));
                }
            }
        }
        i += 1;
    }
    edited
}

proof fn lemma_file_args_prefix(
    a: Seq<NodeId>,
    b: Seq<NodeId>,
    files: Seq<ChapterFileView>,
    n: int,
)
    requires
        n <= a.len(),
        a.len() <= b.len(),
        forall|i: int| 0 <= i < a.len() ==> a[i] == b[i],
    ensures
        file_args_upto(a, files, n) == file_args_upto(b, files, n),
    decreases n,
{
    if n > 0 {
        lemma_file_args_prefix(a, b, files, n - 1);
    }
}

impl Graph {
    /// `-y`, and the arguments that open all inputs.
    fn input_args(&self) -> (r: Vec<String>)
        ensures
            views(r@) == seq!["-y"@] + input_args_upto(self@.inputs, self@.inputs.len() as int),
    {
        let mut args: Vec<String> = vec!["-y".to_owned()];
        let mut i: usize = 0;
        assert(views(args@) == seq!["-y"@] + input_args_upto(self@.inputs, 0));
        while i < self.inputs.len()
            invariant
                i <= self.inputs@.len(),
                views(args@) == seq!["-y"@] + input_args_upto(self@.inputs, i as int),
            decreases self.inputs@.len() - i,
        {
            broadcast use group_views;

            let ghost before = views(args@);
            extra_arg_tokens(&mut args, &self.inputs[i].extra_args);
            args.push("-i".to_owned());
            args.push(self.inputs[i].path.clone());
            i += 1;
            assert(views(args@) == seq!["-y"@] + input_args_upto(self@.inputs, i as int));
        }
        args
    }

    /// The file that an output's chapters are taken from.
    fn chapter_input(&self, source: Option<ChapterSource>, edited: &Vec<NodeId>) -> (r: Option<
        u128,
    >)
        ensures
            opt_nat(r) == chapter_index(source, self@.inputs.len(), edited@),
    {
        match source {
            None => None,
            Some(ChapterSource::FromInput { input_file_index }) => Some(input_file_index as u128),
            Some(ChapterSource::Edited { modifier_id }) => match find_edited(edited, modifier_id) {
                Some(i) => Some(self.inputs.len() as u128 + i as u128),
                None => None,
            },
        }
    }

    /// The ffmpeg arguments that render the graph. `chapter_files` holds the
    /// files that the chapters of chapter nodes have been written to; an
    /// output whose chapters have no file renders without them. `numerals`
    /// tells what the field texts are worth.
    pub fn build_ffmpeg_args(&self, chapter_files: &Vec<ChapterFile>, numerals: &Vec<Numeral>) -> (r:
        Vec<String>)
        ensures
            views(r@) == ffmpeg_args(self@, views(chapter_files@), views(numerals@)),
    {
        let mut args = self.input_args();
        let ghost head = views(args@);
        let mut sourced: Vec<Sourced> = Vec::new();
        let mut i: usize = 0;
        while i < self.outputs.len()
            invariant
                i <= self.outputs@.len(),
                sourced@ == sourced_upto(self@, i as int),
            decreases self.outputs@.len() - i,
        {
            let id: NodeId = self.outputs[i].id;
            if let Some(source) = self.output_chapters(id) {
                note_source(&mut sourced, id, source);
            }
            i += 1;
        }
        let edited = push_chapter_files(&mut args, &sourced, chapter_files);
        let ghost opened = views(args@);
        let mut filter_complex: Vec<String> = Vec::new();
        let mut seek_inputs = SeekInputs::new(self.inputs.len() as u128 + edited.len() as u128);
        let ghost ns = views(numerals@);
        let ghost st = plumbing(filter_complex, seek_inputs);
        assert(st =~= Plumbing {
            filters: Seq::empty(),
            seeks: SeekView::starting_at((self@.inputs.len() + edited@.len()) as nat),
        });
        let no_args: Vec<String> = Vec::new();
        assert(views(no_args@) == Seq::<Seq<char>>::empty());
        let mut sections: Vec<String> = Vec::new();
        assert(views(sections@) == Seq::<Seq<char>>::empty());
        let mut k: usize = 0;
        while k < self.outputs.len()
            invariant
                k <= self.outputs@.len(),
                ns == views(numerals@),
                views(no_args@) == Seq::<Seq<char>>::empty(),
                st.seeks.first_index <= MAX_FIRST_INDEX,
                seek_inputs@.first_index == st.seeks.first_index,
                sections_upto(self@, ns, sourced@, edited@, st, k as int) == (
                    views(sections@),
                    plumbing(filter_complex, seek_inputs),
                ),
            decreases self.outputs@.len() - k,
        {
            let output = &self.outputs[k];
            let source = find_source(&sourced, output.id);
            let chapter_input = self.chapter_input(source, &edited);
            if let Some(section) = self.build_output_section(
                output,
                output.path.as_str(),
                &no_args,
                numerals,
                &mut filter_complex,
                chapter_input,
                &mut seek_inputs,
            ) {
                append_texts(&mut sections, &section);
            }
            k += 1;
        }
        append_texts(&mut args, seek_inputs.args());
        push_filter_args(&mut args, &filter_complex);
        append_texts(&mut args, &sections);
        args
    }

    /// The ffmpeg arguments that render the first `duration_secs` seconds of
    /// one output to `preview_path`; `None` where nothing is mapped into it.
    pub fn build_preview_args(
        &self,
        output_id: NodeId,
        preview_path: &str,
        duration_secs: u32,
        chapter_files: &Vec<ChapterFile>,
        numerals: &Vec<Numeral>,
    ) -> (r: Option<Vec<String>>)
        ensures
            match r {
                Some(args) => preview_args(
                    self@,
                    output_id,
                    preview_path@,
                    duration_secs as nat,
                    views(chapter_files@),
                    views(numerals@),
                ) == Some(views(args@)),
                None => preview_args(
                    self@,
                    output_id,
                    preview_path@,
                    duration_secs as nat,
                    views(chapter_files@),
                    views(numerals@),
                ) is None,
            },
    {
        let output = match self.output(output_id) {
            Some(o) => o,
            None => {
                return None;
            },
        };
        let mut args = self.input_args();
        let source = self.output_chapters(output.id);
        let mut sourced: Vec<Sourced> = Vec::new();
        if let Some(s) = source {
            sourced.push((output.id, s));
        }
        assert(sourced@ == (match source {
            Some(s) => seq![(output@.id, s)],
            None => Seq::empty(),
        }));
        let edited = push_chapter_files(&mut args, &sourced, chapter_files);
        let mut filter_complex: Vec<String> = Vec::new();
        let mut seek_inputs = SeekInputs::new(self.inputs.len() as u128 + edited.len() as u128);
        assert(plumbing(filter_complex, seek_inputs) =~= Plumbing {
            filters: Seq::empty(),
            seeks: SeekView::starting_at((self@.inputs.len() + edited@.len()) as nat),
        });
        let chapter_input = self.chapter_input(source, &edited);
        let extra: Vec<String> = vec!["-t".to_owned(), number(duration_secs as u128)];
        assert(views(extra@) == seq!["-t"@, decimal(duration_secs as nat)]);
        let section = match self.build_output_section(
            output,
            preview_path,
            &extra,
            numerals,
            &mut filter_complex,
            chapter_input,
            &mut seek_inputs,
        ) {
            Some(s) => s,
            None => {
                return None;
            },
        };
        append_texts(&mut args, seek_inputs.args());
        push_filter_args(&mut args, &filter_complex);
        append_texts(&mut args, &section);
        Some(args)
    }
}

// ---------------------------------------------------------------------
// The texts that have to be worth something
// ---------------------------------------------------------------------

/// The texts of a modifier that are read as numbers of seconds: a delay, and
/// the end of a trim window.
pub open spec fn number_fields(kind: KindView) -> Seq<Seq<char>> {
    match kind {
        KindView::Filter { fields, .. } => opt_seq(field_get(fields, "seconds"@)) + opt_seq(
            field_get(fields, "end"@),
        ),
        _ => Seq::empty(),
    }
}

/// A text that may be there, as a list.
pub open spec fn opt_seq(o: Option<Seq<char>>) -> Seq<Seq<char>> {
    match o {
        Some(t) => seq![t],
        None => Seq::empty(),
    }
}

/// The texts of the first `n` modifiers that are read as numbers of seconds.
pub open spec fn number_fields_upto(modifiers: Seq<ModifierView>, n: int) -> Seq<Seq<char>>
    decreases n,
{
    if n <= 0 {
        Seq::empty()
    } else {
        number_fields_upto(modifiers, n - 1) + number_fields(modifiers[n - 1].kind)
    }
}

impl Graph {
    /// The texts that the command lines need the worth of: those of every
    /// delay, and of the end of every trim window.
    pub fn numeral_texts(&self) -> (r: Vec<String>)
        ensures
            views(r@) == number_fields_upto(self@.modifiers, self@.modifiers.len() as int),
    {
        let mut out: Vec<String> = Vec::new();
        let mut i: usize = 0;
        assert(views(out@) == Seq::<Seq<char>>::empty());
        while i < self.modifiers.len()
            invariant
                i <= self.modifiers@.len(),
                views(out@) == number_fields_upto(self@.modifiers, i as int),
            decreases self.modifiers@.len() - i,
        {
            broadcast use group_views;

            let ghost before = views(out@);
            assert(self@.modifiers[i as int] == self.modifiers@[i as int]@);
            if let ModifierKind::Filter { fields, .. } = &self.modifiers[i].kind {
                if let Some(t) = fields.get("seconds") {
                    out.push(t.to_owned());
                }
                if let Some(t) = fields.get("end") {
                    out.push(t.to_owned());
                }
            }
            assert(views(out@) == before + number_fields(self@.modifiers[i as int].kind));
            i += 1;
        }
        out
    }
}

} // verus!
