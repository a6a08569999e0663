//! The node graph: inputs, modifiers and outputs, and the wires between them.
pub mod args;
pub mod chain_laws;
pub mod chapter;
pub mod command_laws;
pub mod filter_laws;
pub mod laws;
pub mod mapping_laws;
pub mod node;
pub mod opening_laws;
pub mod project;
pub mod resolve;
pub mod stream;
pub mod wire;

use vstd::prelude::*;

use crate::fields::FieldMap;
use crate::text::{cat3, decimal, group_views, number, views};
use chapter::{Chapter, ChapterView};
use node::{InputNode, InputView, KindView, ModifierKind, ModifierNode, ModifierView, OutputNode, OutputView};
use stream::{StreamInfo, StreamKind, StreamView};
use wire::{from_input, is_from_input, Endpoint, NodeId, Target, Wire};

verus! {

/// A node that can be looked up by its id.
pub trait Identified: View {
    spec fn tag(v: Self::V) -> NodeId;

    fn node_id(&self) -> (r: NodeId)
        ensures
            r == Self::tag(self@),
    ;
}

impl Identified for InputNode {
    open spec fn tag(v: InputView) -> NodeId {
        v.id
    }

    fn node_id(&self) -> (r: NodeId) {
        self.id
    }
}

impl Identified for ModifierNode {
    open spec fn tag(v: ModifierView) -> NodeId {
        v.id
    }

    fn node_id(&self) -> (r: NodeId) {
        self.id
    }
}

impl Identified for OutputNode {
    open spec fn tag(v: OutputView) -> NodeId {
        v.id
    }

    fn node_id(&self) -> (r: NodeId) {
        self.id
    }
}

/// The first position from `i` on of the node with this id.
pub open spec fn position_from<T: Identified>(s: Seq<T::V>, id: NodeId, i: int) -> Option<int>
    decreases s.len() - i,
{
    if i >= s.len() {
        None
    } else if T::tag(s[i]) == id {
        Some(i)
    } else {
        position_from::<T>(s, id, i + 1)
    }
}

/// The position of the node with this id.
pub open spec fn position<T: Identified>(s: Seq<T::V>, id: NodeId) -> Option<int> {
    position_from::<T>(s, id, 0)
}

/// The node with this id.
pub open spec fn lookup<T: Identified>(s: Seq<T::V>, id: NodeId) -> Option<T::V> {
    match position::<T>(s, id) {
        Some(i) => Some(s[i]),
        None => None,
    }
}

/// Those of the first `n` nodes that do not have this id.
pub open spec fn without<T: Identified>(s: Seq<T::V>, id: NodeId, n: int) -> Seq<T::V>
    decreases n,
{
    if n <= 0 {
        Seq::empty()
    } else {
        let p = without::<T>(s, id, n - 1);
        if T::tag(s[n - 1]) == id {
            p
        } else {
            p.push(s[n - 1])
        }
    }
}

proof fn lemma_position_from<T: Identified>(s: Seq<T::V>, id: NodeId, i: int)
    requires
        0 <= i,
    ensures
        match position_from::<T>(s, id, i) {
            Some(p) => i <= p < s.len() && T::tag(s[p]) == id && forall|j: int|
                i <= j < p ==> T::tag(#[trigger] s[j]) != id,
            None => forall|j: int| i <= j < s.len() ==> T::tag(#[trigger] s[j]) != id,
        },
    decreases s.len() - i,
{
    if i < s.len() && T::tag(s[i]) != id {
        lemma_position_from::<T>(s, id, i + 1);
    }
}

/// A position found is that of the first node with the id; none is found only
/// where no node has it.
pub proof fn lemma_position<T: Identified>(s: Seq<T::V>, id: NodeId)
    ensures
        match position::<T>(s, id) {
            Some(p) => 0 <= p < s.len() && T::tag(s[p]) == id && forall|j: int|
                0 <= j < p ==> T::tag(#[trigger] s[j]) != id,
            None => forall|j: int| 0 <= j < s.len() ==> T::tag(#[trigger] s[j]) != id,
        },
{
    lemma_position_from::<T>(s, id, 0);
}

/// The position of the node with this id.
pub fn find_node<T: Identified>(v: &Vec<T>, id: NodeId) -> (r: Option<usize>)
    ensures
        match r {
            Some(i) => i < v@.len() && position::<T>(views(v@), id) == Some(i as int),
            None => position::<T>(views(v@), id) is None,
        },
{
    let mut i: usize = 0;
    while i < v.len()
        invariant
            i <= v@.len(),
            position::<T>(views(v@), id) == position_from::<T>(views(v@), id, i as int),
        decreases v@.len() - i,
    {
        if v[i].node_id() == id {
            return Some(i);
        }
        i += 1;
    }
    None
}

/// Drops every node with this id.
fn remove_node<T: Identified>(v: &mut Vec<T>, id: NodeId)
    ensures
        views(final(v)@) == without::<T>(views(old(v)@), id, old(v)@.len() as int),
{
    let ghost orig = views(v@);
    let ghost mut p: int = 0;
    let mut i: usize = 0;
    assert(orig.subrange(0, orig.len() as int) == orig);
    assert(Seq::<T::V>::empty() + orig == orig);
    while i < v.len()
        invariant
            0 <= p <= orig.len(),
            i <= v@.len(),
            orig == views(old(v)@),
            without::<T>(orig, id, p).len() == i,
            views(v@) == without::<T>(orig, id, p) + orig.subrange(p, orig.len() as int),
        decreases v@.len() - i,
    {
        broadcast use group_views;

        let ghost now = views(v@);
        assert(now[i as int] == orig.subrange(p, orig.len() as int)[0]);
        assert(now[i as int] == orig[p]);
        if v[i].node_id() == id {
            v.remove(i);
            proof {
                p = p + 1;
                assert(now.remove(i as int) == without::<T>(orig, id, p) + orig.subrange(
                    p,
                    orig.len() as int,
                ));
            }
        } else {
            i += 1;
            proof {
                p = p + 1;
                assert(now == without::<T>(orig, id, p) + orig.subrange(p, orig.len() as int));
            }
        }
    }
    assert(views(v@) == without::<T>(orig, id, p));
}

/// A row or column of the canvas, which ends at the largest `i64`.
pub open spec fn cell(n: int) -> i64 {
    if n > i64::MAX {
        i64::MAX
    } else {
        n as i64
    }
}

fn cell_of(n: u128) -> (r: i64)
    ensures
        r == cell(n as int),
{
    if n > i64::MAX as u128 {
        i64::MAX
    } else {
        n as i64
    }
}

/// The stream list of an input: what was probed, and one more entry that
/// stands for the chapters where there are any. That entry's codec text is
/// the number of chapters.
pub open spec fn with_chapter_marker(streams: Seq<StreamView>, chapters: int) -> Seq<StreamView> {
    if chapters == 0 {
        streams
    } else {
        streams.push(
            StreamView {
                index: 0,
                kind: StreamKind::Chapter,
                codec: decimal(chapters as nat),
                lang: None,
            },
        )
    }
}

/// The stream list of an input: what was probed, and one more entry that
/// stands for the chapters where there are any.
pub fn streams_with_chapter_marker(streams: Vec<StreamInfo>, chapters: &Vec<Chapter>) -> (r: Vec<
    StreamInfo,
>)
    ensures
        views(r@) == with_chapter_marker(views(streams@), chapters@.len() as int),
{
    broadcast use group_views;

    let mut streams = streams;
    if chapters.len() > 0 {
        streams.push(
            StreamInfo {
                index: 0,
                kind: StreamKind::Chapter,
                codec: number(chapters.len() as u128),
                lang: None,
            },
        );
    }
    streams
}

// ---------------------------------------------------------------------
// Wires
// ---------------------------------------------------------------------

/// The positions, among the first `n` wires, of those that leave `from`.
pub open spec fn outgoing_upto(wires: Seq<Wire>, from: Endpoint, n: int) -> Seq<usize>
    decreases n,
{
    if n <= 0 {
        Seq::empty()
    } else {
        let p = outgoing_upto(wires, from, n - 1);
        if wires[n - 1].from == from {
            p.push((n - 1) as usize)
        } else {
            p
        }
    }
}

/// The positions, among the first `n` wires, of those that arrive at `to`.
pub open spec fn incoming_upto(wires: Seq<Wire>, to: Target, n: int) -> Seq<usize>
    decreases n,
{
    if n <= 0 {
        Seq::empty()
    } else {
        let p = incoming_upto(wires, to, n - 1);
        if wires[n - 1].to == to {
            p.push((n - 1) as usize)
        } else {
            p
        }
    }
}

/// The positions of the wires that leave `from`, in order.
pub open spec fn outgoing_spec(wires: Seq<Wire>, from: Endpoint) -> Seq<usize> {
    outgoing_upto(wires, from, wires.len() as int)
}

/// The positions of the wires that arrive at `to`, in order.
pub open spec fn incoming_spec(wires: Seq<Wire>, to: Target) -> Seq<usize> {
    incoming_upto(wires, to, wires.len() as int)
}

/// The first position from `i` on of a wire equal to `w`.
pub open spec fn wire_from(wires: Seq<Wire>, w: Wire, i: int) -> Option<int>
    decreases wires.len() - i,
{
    if i >= wires.len() {
        None
    } else if wires[i] == w {
        Some(i)
    } else {
        wire_from(wires, w, i + 1)
    }
}

/// The first of the wires from `i` on that arrives at `to`.
pub open spec fn feed_from(wires: Seq<Wire>, to: Target, i: int) -> Option<Endpoint>
    decreases wires.len() - i,
{
    if i >= wires.len() {
        None
    } else if wires[i].to == to {
        Some(wires[i].from)
    } else {
        feed_from(wires, to, i + 1)
    }
}

/// The source of the first wire that arrives at `to`.
pub open spec fn feed(wires: Seq<Wire>, to: Target) -> Option<Endpoint> {
    feed_from(wires, to, 0)
}

/// Those of the first `n` wires that `keep` picks.
pub open spec fn kept_upto(wires: Seq<Wire>, keep: spec_fn(Wire) -> bool, n: int) -> Seq<Wire>
    decreases n,
{
    if n <= 0 {
        Seq::empty()
    } else {
        let p = kept_upto(wires, keep, n - 1);
        if keep(wires[n - 1]) {
            p.push(wires[n - 1])
        } else {
            p
        }
    }
}

/// What is kept is what `keep` picks, in order.
pub proof fn lemma_kept(wires: Seq<Wire>, keep: spec_fn(Wire) -> bool, n: int)
    requires
        0 <= n <= wires.len(),
    ensures
        kept_upto(wires, keep, n) == wires.take(n).filter(keep),
        kept_upto(wires, keep, n).len() <= n,
        forall|w: Wire| #[trigger]
            kept_upto(wires, keep, n).contains(w) <==> (keep(w) && wires.take(n).contains(w)),
    decreases n,
{
    reveal(Seq::filter);
    if n > 0 {
        lemma_kept(wires, keep, n - 1);
        let head = wires.take(n - 1);
        let last = wires[n - 1];
        let p = kept_upto(wires, keep, n - 1);
        assert(wires.take(n).drop_last() == head);
        assert(wires.take(n) == head.push(last));
        assert forall|w: Wire| #[trigger]
            kept_upto(wires, keep, n).contains(w) <==> (keep(w) && wires.take(n).contains(w)) by {
            lemma_push_has(head, last, w);
            lemma_push_has(p, last, w);
        }
    } else {
        assert(wires.take(0) == Seq::<Wire>::empty());
    }
}

proof fn lemma_push_has(s: Seq<Wire>, e: Wire, x: Wire)
    ensures
        s.push(e).contains(x) <==> (s.contains(x) || x == e),
{
    if s.contains(x) {
        let k = choose|k: int| 0 <= k < s.len() && s[k] == x;
        assert(s.push(e)[k] == x);
    }
    assert(s.push(e)[s.len() as int] == e);
}

/// Those of the first `n` wires that do not arrive at `to`.
pub open spec fn wires_off_target(wires: Seq<Wire>, to: Target, n: int) -> Seq<Wire> {
    kept_upto(wires, |w: Wire| w.to != to, n)
}

/// Those of the first `n` wires that leave none of the endpoints of `ports`.
pub open spec fn wires_off_ports(wires: Seq<Wire>, ports: Seq<Endpoint>, n: int) -> Seq<Wire> {
    kept_upto(wires, |w: Wire| !ports.contains(w.from), n)
}

/// Those of the first `n` wires that leave no stream of input `id`.
pub open spec fn wires_off_input(wires: Seq<Wire>, id: NodeId, n: int) -> Seq<Wire> {
    kept_upto(wires, |w: Wire| !from_input(w.from, id), n)
}

/// Whether a wire touches modifier `id`.
pub open spec fn touches_modifier(w: Wire, id: NodeId) -> bool {
    w.from == Endpoint::ModifierOut(id) || w.to == Target::ModifierIn(id)
}

/// Those of the first `n` wires that do not touch modifier `id`.
pub open spec fn wires_off_modifier(wires: Seq<Wire>, id: NodeId, n: int) -> Seq<Wire> {
    kept_upto(wires, |w: Wire| !touches_modifier(w, id), n)
}

/// Whether a wire arrives at output `id`.
pub open spec fn touches_output(w: Wire, id: NodeId) -> bool {
    w.to == Target::Output(id) || w.to == Target::OutputChapters(id)
}

/// Those of the first `n` wires that do not arrive at output `id`.
pub open spec fn wires_off_output(wires: Seq<Wire>, id: NodeId, n: int) -> Seq<Wire> {
    kept_upto(wires, |w: Wire| !touches_output(w, id), n)
}

/// Inputs numbered by their position.
pub open spec fn renumbered(inputs: Seq<InputView>) -> Seq<InputView> {
    Seq::new(inputs.len(), |i: int| InputView { file_index: i as usize, ..inputs[i] })
}

// ---------------------------------------------------------------------
// The graph
// ---------------------------------------------------------------------

/// The graph. Its nodes are told apart by their ids, which are handed out in
/// ascending order and never reused.
pub struct Graph {
    pub inputs: Vec<InputNode>,
    pub modifiers: Vec<ModifierNode>,
    pub outputs: Vec<OutputNode>,
    pub wires: Vec<Wire>,
    pub next_id: NodeId,
}

#[verifier::ext_equal]
pub struct GraphView {
    pub inputs: Seq<InputView>,
    pub modifiers: Seq<ModifierView>,
    pub outputs: Seq<OutputView>,
    pub wires: Seq<Wire>,
    pub next_id: NodeId,
}

impl View for Graph {
    type V = GraphView;

    open spec fn view(&self) -> GraphView {
        GraphView {
            inputs: views(self.inputs@),
            modifiers: views(self.modifiers@),
            outputs: views(self.outputs@),
            wires: self.wires@,
            next_id: self.next_id,
        }
    }
}

/// The path that a new output starts with, where there are `n` already.
pub open spec fn default_output_path(n: int) -> Seq<char> {
    if n == 0 {
        "output.mkv"@
    } else {
        "output"@ + decimal((n + 1) as nat) + ".mkv"@
    }
}

impl GraphView {
    pub open spec fn input_at(self, id: NodeId) -> Option<int> {
        position::<InputNode>(self.inputs, id)
    }

    pub open spec fn modifier_at(self, id: NodeId) -> Option<int> {
        position::<ModifierNode>(self.modifiers, id)
    }

    pub open spec fn output_at(self, id: NodeId) -> Option<int> {
        position::<OutputNode>(self.outputs, id)
    }

    pub open spec fn input(self, id: NodeId) -> Option<InputView> {
        lookup::<InputNode>(self.inputs, id)
    }

    pub open spec fn modifier(self, id: NodeId) -> Option<ModifierView> {
        lookup::<ModifierNode>(self.modifiers, id)
    }

    pub open spec fn output(self, id: NodeId) -> Option<OutputView> {
        lookup::<OutputNode>(self.outputs, id)
    }

    /// The graph with one more input at its end.
    pub open spec fn add_input(
        self,
        path: Seq<char>,
        streams: Seq<StreamView>,
        chapters: Seq<ChapterView>,
    ) -> GraphView {
        GraphView {
            inputs: self.inputs.push(
                InputView {
                    id: self.next_id,
                    path,
                    file_index: self.inputs.len() as usize,
                    streams: with_chapter_marker(streams, chapters.len() as int),
                    chapters,
                    extra_args: Seq::empty(),
                    pos: (2, cell(2 + 12 * (self.inputs.len() as int))),
                    width: 34,
                    file_missing: false,
                },
            ),
            next_id: (self.next_id + 1) as usize,
            ..self
        }
    }

    /// The graph with one more output at its end.
    pub open spec fn add_output(self) -> GraphView {
        GraphView {
            outputs: self.outputs.push(
                OutputView {
                    id: self.next_id,
                    path: default_output_path(self.outputs.len() as int),
                    container: None,
                    extra_args: Seq::empty(),
                    pos: (74, cell(2 + 12 * (self.outputs.len() as int))),
                    width: 30,
                },
            ),
            next_id: (self.next_id + 1) as usize,
            ..self
        }
    }

    /// The graph with one more modifier at its end.
    pub open spec fn add_modifier(self, kind: KindView) -> GraphView {
        GraphView {
            modifiers: self.modifiers.push(
                ModifierView {
                    id: self.next_id,
                    kind,
                    pos: (40, cell(2 + 8 * (self.modifiers.len() as int))),
                    width: 30,
                },
            ),
            next_id: (self.next_id + 1) as usize,
            ..self
        }
    }

    /// The graph without input `id` and the wires that leave it, its other
    /// inputs numbered anew.
    pub open spec fn remove_input(self, id: NodeId) -> GraphView {
        GraphView {
            inputs: renumbered(without::<InputNode>(self.inputs, id, self.inputs.len() as int)),
            wires: wires_off_input(self.wires, id, self.wires.len() as int),
            ..self
        }
    }

    /// The graph without output `id` and the wires that arrive at it.
    pub open spec fn remove_output(self, id: NodeId) -> GraphView {
        GraphView {
            outputs: without::<OutputNode>(self.outputs, id, self.outputs.len() as int),
            wires: wires_off_output(self.wires, id, self.wires.len() as int),
            ..self
        }
    }

    /// The graph without modifier `id` and the wires that touch it.
    pub open spec fn remove_modifier(self, id: NodeId) -> GraphView {
        GraphView {
            modifiers: without::<ModifierNode>(self.modifiers, id, self.modifiers.len() as int),
            wires: wires_off_modifier(self.wires, id, self.wires.len() as int),
            ..self
        }
    }

    /// Whether a target holds one wire at a time.
    pub open spec fn single_wire(self, to: Target) -> bool {
        match to {
            Target::ModifierIn(mid) => match self.modifier(mid) {
                Some(m) => m.kind != KindView::Concat,
                None => true,
            },
            Target::OutputChapters(_) => true,
            Target::Output(_) => false,
        }
    }

    /// The graph after connecting `from` to `to`: a wire that is already
    /// there is taken out; otherwise it is added, in place of whatever fed a
    /// target that holds one wire at a time.
    pub open spec fn connect(self, from: Endpoint, to: Target) -> GraphView {
        let w = Wire { from, to };
        let wires = match wire_from(self.wires, w, 0) {
            Some(i) => self.wires.remove(i),
            None => if self.single_wire(to) {
                wires_off_target(self.wires, to, self.wires.len() as int).push(w)
            } else {
                self.wires.push(w)
            },
        };
        GraphView { wires, ..self }
    }

    /// The graph without the wire at position `i`, where there is one.
    pub open spec fn remove_wire_at(self, i: int) -> GraphView {
        if 0 <= i < self.wires.len() {
            GraphView { wires: self.wires.remove(i), ..self }
        } else {
            self
        }
    }

    /// The graph with the wires at positions `a` and `b` swapped.
    pub open spec fn swap_wires(self, a: int, b: int) -> GraphView {
        GraphView { wires: self.wires.update(a, self.wires[b]).update(b, self.wires[a]), ..self }
    }

    /// The graph with the modifier at position `i` replaced.
    pub open spec fn set_modifier(self, i: int, m: ModifierView) -> GraphView {
        GraphView { modifiers: self.modifiers.update(i, m), ..self }
    }

    /// The graph with the input at position `i` replaced.
    pub open spec fn set_input(self, i: int, n: InputView) -> GraphView {
        GraphView { inputs: self.inputs.update(i, n), ..self }
    }

    /// The graph with the output at position `i` replaced.
    pub open spec fn set_output(self, i: int, n: OutputView) -> GraphView {
        GraphView { outputs: self.outputs.update(i, n), ..self }
    }
}

impl Graph {
    /// The graph that the program starts with: a single output.
    pub fn new() -> (r: Graph)
        ensures
            r@ == (GraphView {
                inputs: Seq::empty(),
                modifiers: Seq::empty(),
                outputs: Seq::empty(),
                wires: Seq::empty(),
                next_id: 1,
            }).add_output(),
    {
        let mut graph = Graph {
            inputs: Vec::new(),
            modifiers: Vec::new(),
            outputs: Vec::new(),
            wires: Vec::new(),
            next_id: 1,
        };
        proof {
            assert(views(graph.inputs@) == Seq::<InputView>::empty());
            assert(views(graph.modifiers@) == Seq::<ModifierView>::empty());
            assert(views(graph.outputs@) == Seq::<OutputView>::empty());
        }
        graph.add_output();
        graph
    }

    /// Adds an input and returns its id.
    pub fn add_input(
        &mut self,
        path: String,
        streams: Vec<StreamInfo>,
        chapters: Vec<Chapter>,
    ) -> (id: NodeId)
        requires
            old(self).next_id < usize::MAX,
        ensures
            id == old(self).next_id,
            final(self)@ == old(self)@.add_input(path@, views(streams@), views(chapters@)),
    {
        broadcast use group_views;

        let id: NodeId = self.next_id;
        self.next_id = self.next_id + 1;
        let file_index: usize = self.inputs.len();
        let streams = streams_with_chapter_marker(streams, &chapters);
        let y = cell_of(2 + (self.inputs.len() as u128) * 12);
        self.inputs.push(
            InputNode {
                id,
                path,
                file_index,
                streams,
                chapters,
                extra_args: FieldMap::new(),
                pos: (2, y),
                width: 34,
                file_missing: false,
            },
        );
        id
    }

    /// Adds an output and returns its id.
    pub fn add_output(&mut self) -> (id: NodeId)
        requires
            old(self).next_id < usize::MAX,
        ensures
            id == old(self).next_id,
            final(self)@ == old(self)@.add_output(),
    {
        broadcast use group_views;

        let id: NodeId = self.next_id;
        self.next_id = self.next_id + 1;
        let idx: usize = self.outputs.len();
        let path = if idx == 0 {
            "output.mkv".to_owned()
        } else {
            let n = number(idx as u128 + 1);
            cat3("output", n.as_str(), ".mkv")
        };
        let y = cell_of(2 + (idx as u128) * 12);
        self.outputs.push(
            OutputNode {
                id,
                path,
                container: None,
                extra_args: FieldMap::new(),
                pos: (74, y),
                width: 30,
            },
        );
        id
    }

    /// Adds a modifier and returns its id.
    pub fn add_modifier(&mut self, kind: ModifierKind) -> (id: NodeId)
        requires
            old(self).next_id < usize::MAX,
        ensures
            id == old(self).next_id,
            final(self)@ == old(self)@.add_modifier(kind@),
    {
        broadcast use group_views;

        let id: NodeId = self.next_id;
        self.next_id = self.next_id + 1;
        let idx: usize = self.modifiers.len();
        let y = cell_of(2 + (idx as u128) * 8);
        self.modifiers.push(ModifierNode { id, kind, pos: (40, y), width: 30 });
        id
    }

    /// Removes an input, the wires that leave it, and numbers the others anew.
    pub fn remove_input(&mut self, id: NodeId)
        ensures
            final(self)@ == old(self)@.remove_input(id),
    {
        remove_node(&mut self.inputs, id);
        let mut kept: Vec<Wire> = Vec::new();
        let mut k: usize = 0;
        while k < self.wires.len()
            invariant
                k <= self.wires@.len(),
                kept@ == wires_off_input(self.wires@, id, k as int),
            decreases self.wires@.len() - k,
        {
            if !is_from_input(self.wires[k].from, id) {
                kept.push(self.wires[k]);
            }
            k += 1;
        }
        self.wires = kept;
        let ghost left = views(self.inputs@);
        let ghost frame = *self;
        let mut i: usize = 0;
        while i < self.inputs.len()
            invariant
                i <= self.inputs@.len() == left.len(),
                self.modifiers == frame.modifiers,
                self.outputs == frame.outputs,
                self.wires == frame.wires,
                self.next_id == frame.next_id,
                forall|j: int|
                    0 <= j < left.len() ==> #[trigger] views(self.inputs@)[j] == (if j < i {
                        renumbered(left)[j]
                    } else {
                        left[j]
                    }),
            decreases self.inputs@.len() - i,
        {
            assert(views(self.inputs@)[i as int] == left[i as int]);
            let ghost before = views(self.inputs@);
            self.inputs[i].file_index = i;
            assert(views(self.inputs@) == before.update(i as int, renumbered(left)[i as int]));
            i += 1;
        }
        assert(views(self.inputs@) == renumbered(left));
    }

    /// Removes an output and the wires that arrive at it.
    pub fn remove_output(&mut self, id: NodeId)
        ensures
            final(self)@ == old(self)@.remove_output(id),
    {
        remove_node(&mut self.outputs, id);
        let mut kept: Vec<Wire> = Vec::new();
        let mut k: usize = 0;
        while k < self.wires.len()
            invariant
                k <= self.wires@.len(),
                kept@ == wires_off_output(self.wires@, id, k as int),
            decreases self.wires@.len() - k,
        {
            let w = self.wires[k];
            if w.to != Target::Output(id) && w.to != Target::OutputChapters(id) {
                kept.push(w);
            }
            k += 1;
        }
        self.wires = kept;
    }

    /// Removes a modifier and the wires that touch it.
    pub fn remove_modifier(&mut self, id: NodeId)
        ensures
            final(self)@ == old(self)@.remove_modifier(id),
    {
        remove_node(&mut self.modifiers, id);
        let mut kept: Vec<Wire> = Vec::new();
        let mut k: usize = 0;
        while k < self.wires.len()
            invariant
                k <= self.wires@.len(),
                kept@ == wires_off_modifier(self.wires@, id, k as int),
            decreases self.wires@.len() - k,
        {
            let w = self.wires[k];
            if w.from != Endpoint::ModifierOut(id) && w.to != Target::ModifierIn(id) {
                kept.push(w);
            }
            k += 1;
        }
        self.wires = kept;
    }

    pub fn input(&self, id: NodeId) -> (r: Option<&InputNode>)
        ensures
            match r {
                Some(n) => self@.input(id) == Some(n@),
                None => self@.input(id) is None,
            },
    {
        match find_node(&self.inputs, id) {
            Some(i) => Some(&self.inputs[i]),
            None => None,
        }
    }

    pub fn input_mut(&mut self, id: NodeId) -> (r: Option<&mut InputNode>)
        ensures
            match r {
                Some(n) => {
                    &&& old(self)@.input_at(id) is Some
                    &&& 0 <= old(self)@.input_at(id)->0 < old(self).inputs@.len()
                    &&& *n == old(self).inputs@[old(self)@.input_at(id)->0]
                    &&& final(self).inputs@ == old(self).inputs@.update(
                        old(self)@.input_at(id)->0,
                        *final(n),
                    )
                    &&& final(self).modifiers == old(self).modifiers
                    &&& final(self).outputs == old(self).outputs
                    &&& final(self).wires == old(self).wires
                    &&& final(self).next_id == old(self).next_id
                },
                None => old(self)@.input_at(id) is None && *final(self) == *old(self),
            },
    {
        match find_node(&self.inputs, id) {
            Some(i) => Some(&mut self.inputs[i]),
            None => None,
        }
    }

    pub fn output(&self, id: NodeId) -> (r: Option<&OutputNode>)
        ensures
            match r {
                Some(n) => self@.output(id) == Some(n@),
                None => self@.output(id) is None,
            },
    {
        match find_node(&self.outputs, id) {
            Some(i) => Some(&self.outputs[i]),
            None => None,
        }
    }

    pub fn output_mut(&mut self, id: NodeId) -> (r: Option<&mut OutputNode>)
        ensures
            match r {
                Some(n) => {
                    &&& old(self)@.output_at(id) is Some
                    &&& 0 <= old(self)@.output_at(id)->0 < old(self).outputs@.len()
                    &&& *n == old(self).outputs@[old(self)@.output_at(id)->0]
                    &&& final(self).outputs@ == old(self).outputs@.update(
                        old(self)@.output_at(id)->0,
                        *final(n),
                    )
                    &&& final(self).inputs == old(self).inputs
                    &&& final(self).modifiers == old(self).modifiers
                    &&& final(self).wires == old(self).wires
                    &&& final(self).next_id == old(self).next_id
                },
                None => old(self)@.output_at(id) is None && *final(self) == *old(self),
            },
    {
        match find_node(&self.outputs, id) {
            Some(i) => Some(&mut self.outputs[i]),
            None => None,
        }
    }

    pub fn modifier(&self, id: NodeId) -> (r: Option<&ModifierNode>)
        ensures
            match r {
                Some(n) => self@.modifier(id) == Some(n@),
                None => self@.modifier(id) is None,
            },
    {
        match find_node(&self.modifiers, id) {
            Some(i) => Some(&self.modifiers[i]),
            None => None,
        }
    }

    pub fn modifier_mut(&mut self, id: NodeId) -> (r: Option<&mut ModifierNode>)
        ensures
            match r {
                Some(n) => {
                    &&& old(self)@.modifier_at(id) is Some
                    &&& 0 <= old(self)@.modifier_at(id)->0 < old(self).modifiers@.len()
                    &&& *n == old(self).modifiers@[old(self)@.modifier_at(id)->0]
                    &&& final(self).modifiers@ == old(self).modifiers@.update(
                        old(self)@.modifier_at(id)->0,
                        *final(n),
                    )
                    &&& final(self).inputs == old(self).inputs
                    &&& final(self).outputs == old(self).outputs
                    &&& final(self).wires == old(self).wires
                    &&& final(self).next_id == old(self).next_id
                },
                None => old(self)@.modifier_at(id) is None && *final(self) == *old(self),
            },
    {
        match find_node(&self.modifiers, id) {
            Some(i) => Some(&mut self.modifiers[i]),
            None => None,
        }
    }

    /// The positions of the wires that leave `from`, in order.
    pub fn outgoing(&self, from: Endpoint) -> (r: Vec<usize>)
        ensures
            r@ == outgoing_spec(self@.wires, from),
    {
        let mut out: Vec<usize> = Vec::new();
        let mut i: usize = 0;
        while i < self.wires.len()
            invariant
                i <= self.wires@.len(),
                out@ == outgoing_upto(self.wires@, from, i as int),
            decreases self.wires@.len() - i,
        {
            if self.wires[i].from == from {
                out.push(i);
            }
            i += 1;
        }
        out
    }

    /// The positions of the wires that arrive at `to`, in order.
    pub fn incoming(&self, to: Target) -> (r: Vec<usize>)
        ensures
            r@ == incoming_spec(self@.wires, to),
            forall|i: int| 0 <= i < r@.len() ==> #[trigger] r@[i] < self.wires@.len(),
    {
        let mut out: Vec<usize> = Vec::new();
        let mut i: usize = 0;
        while i < self.wires.len()
            invariant
                i <= self.wires@.len(),
                out@ == incoming_upto(self.wires@, to, i as int),
                forall|k: int| 0 <= k < out@.len() ==> #[trigger] out@[k] < self.wires@.len(),
            decreases self.wires@.len() - i,
        {
            if self.wires[i].to == to {
                out.push(i);
            }
            i += 1;
        }
        out
    }

    /// The source of the first wire that arrives at `to`.
    pub fn first_feed(&self, to: Target) -> (r: Option<Endpoint>)
        ensures
            r == feed(self@.wires, to),
    {
        let mut i: usize = 0;
        while i < self.wires.len()
            invariant
                i <= self.wires@.len(),
                feed(self.wires@, to) == feed_from(self.wires@, to, i as int),
            decreases self.wires@.len() - i,
        {
            if self.wires[i].to == to {
                return Some(self.wires[i].from);
            }
            i += 1;
        }
        None
    }

    /// Connects `from` to `to`, or disconnects them where they are connected
    /// already. A target that holds one wire at a time loses the one it had.
    pub fn connect(&mut self, from: Endpoint, to: Target)
        ensures
            final(self)@ == old(self)@.connect(from, to),
    {
        let w = Wire { from, to };
        let mut i: usize = 0;
        while i < self.wires.len()
            invariant
                i <= self.wires@.len(),
                *self == *old(self),
                wire_from(self.wires@, w, 0) == wire_from(self.wires@, w, i as int),
                w == (Wire { from, to }),
            decreases self.wires@.len() - i,
        {
            if self.wires[i] == w {
                self.wires.remove(i);
                return;
            }
            i += 1;
        }
        let replaces_existing = match to {
            Target::ModifierIn(mid) => match self.modifier(mid) {
                Some(m) => match &m.kind {
                    ModifierKind::Concat => false,
                    _ => true,
                },
                None => true,
            },
            Target::OutputChapters(_) => true,
            Target::Output(_) => false,
        };
        assert(replaces_existing == self@.single_wire(to));
        if replaces_existing {
            let mut kept: Vec<Wire> = Vec::new();
            let mut k: usize = 0;
            while k < self.wires.len()
                invariant
                    k <= self.wires@.len(),
                    kept@ == wires_off_target(self.wires@, to, k as int),
                decreases self.wires@.len() - k,
            {
                if self.wires[k].to != to {
                    kept.push(self.wires[k]);
                }
                k += 1;
            }
            self.wires = kept;
        }
        self.wires.push(w);
    }

    /// Removes the wire at position `wire_idx`, where there is one.
    pub fn remove_wire_at(&mut self, wire_idx: usize)
        ensures
            final(self)@ == old(self)@.remove_wire_at(wire_idx as int),
    {
        if wire_idx < self.wires.len() {
            self.wires.remove(wire_idx);
        }
    }

    /// Swaps two wires, which reorders whatever lists they stand in.
    pub fn swap_wires(&mut self, a: usize, b: usize)
        requires
            a < old(self).wires@.len(),
            b < old(self).wires@.len(),
        ensures
            final(self)@ == old(self)@.swap_wires(a as int, b as int),
    {
        let first = self.wires[a];
        let second = self.wires[b];
        self.wires.set(a, second);
        self.wires.set(b, first);
    }
}

} // verus!
