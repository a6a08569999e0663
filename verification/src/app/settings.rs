//! Reading and writing the fields of a node.
use vstd::prelude::*;

use super::picker::{extra_args, extra_args_of, extra_args_of_mut, set_extra_args};
use super::{App, AppView, ExtraArgsTarget};
use crate::fields::{ascending, field_get, field_get_after_set, field_get_after_unset, field_set, field_unset, keys_of, Entry, FieldMap};
use crate::graph::node::{InputNode, KindView, ModifierKind, ModifierNode, ModifierView, OutputNode};
use crate::graph::wire::NodeId;
use crate::graph::{lemma_position, Graph, GraphView};
use crate::text::{cat2, cat3, group_views};

verus! {

/// Where a node keeps named values: the fields of a metadata node, the
/// parameters of a filter node, or the further options of an input or output.
#[derive(Clone, Copy, Debug, PartialEq, Eq, Structural)]
pub enum Store {
    Metadata(NodeId),
    Filter(NodeId),
    ExtraArgs(ExtraArgsTarget),
}

/// The values of a store; `None` where the node is gone or of another kind.
pub open spec fn stored(g: GraphView, at: Store) -> Option<Seq<Entry>> {
    match at {
        Store::Metadata(id) => match g.modifier(id) {
            Some(m) => match m.kind {
                KindView::Metadata { fields } => Some(fields),
                _ => None,
            },
            None => None,
        },
        Store::Filter(id) => match g.modifier(id) {
            Some(m) => match m.kind {
                KindView::Filter { fields, .. } => Some(fields),
                _ => None,
            },
            None => None,
        },
        Store::ExtraArgs(target) => extra_args(g, target),
    }
}

/// The graph with modifier `id` turned into another kind.
pub open spec fn set_kind(g: GraphView, id: NodeId, kind: KindView) -> GraphView {
    match g.modifier_at(id) {
        Some(i) => g.set_modifier(i, ModifierView { kind, ..g.modifiers[i] }),
        None => g,
    }
}

/// The graph with other values in a store.
pub open spec fn set_stored(g: GraphView, at: Store, m: Seq<Entry>) -> GraphView {
    match at {
        Store::Metadata(id) => set_kind(g, id, KindView::Metadata { fields: m }),
        Store::Filter(id) => match g.modifier(id) {
            Some(n) => match n.kind {
                KindView::Filter { name, .. } => set_kind(
                    g,
                    id,
                    KindView::Filter { name, fields: m },
                ),
                _ => g,
            },
            None => g,
        },
        Store::ExtraArgs(target) => set_extra_args(g, target, m),
    }
}

/// The values of a store.
pub fn store_of(graph: &Graph, at: Store) -> (r: Option<&FieldMap>)
    ensures
        match r {
            Some(m) => stored(graph@, at) == Some(m@),
            None => stored(graph@, at) is None,
        },
{
    match at {
        Store::Metadata(id) => match graph.modifier(id) {
            Some(m) => match &m.kind {
                ModifierKind::Metadata { fields } => Some(fields),
                _ => None,
            },
            None => None,
        },
        Store::Filter(id) => match graph.modifier(id) {
            Some(m) => match &m.kind {
                ModifierKind::Filter { fields, .. } => Some(fields),
                _ => None,
            },
            None => None,
        },
        Store::ExtraArgs(target) => extra_args_of(graph, target),
    }
}

/// The values of a store, to change.
pub fn store_of_mut(graph: &mut Graph, at: Store) -> (r: Option<&mut FieldMap>)
    ensures
        match r {
            Some(m) => {
                &&& stored(old(graph)@, at) == Some(m@)
                &&& final(graph)@ == set_stored(old(graph)@, at, final(m)@)
            },
            None => stored(old(graph)@, at) is None && final(graph)@ == old(graph)@,
        },
{
    broadcast use group_views;

    match at {
        Store::Metadata(id) => match graph.modifier_mut(id) {
            Some(m) => match &mut m.kind {
                ModifierKind::Metadata { fields } => Some(fields),
                _ => None,
            },
            None => None,
        },
        Store::Filter(id) => match graph.modifier_mut(id) {
            Some(m) => match &mut m.kind {
                ModifierKind::Filter { fields, .. } => Some(fields),
                _ => None,
            },
            None => None,
        },
        Store::ExtraArgs(target) => extra_args_of_mut(graph, target),
    }
}

/// The value under `key` in a store, or the empty text.
pub open spec fn current_value(g: GraphView, at: Store, key: Seq<char>) -> Seq<char> {
    match stored(g, at) {
        Some(m) => match field_get(m, key) {
            Some(v) => v,
            None => Seq::empty(),
        },
        None => Seq::empty(),
    }
}

/// The value under `key` in a store, or the empty text.
pub fn value_in(graph: &Graph, at: Store, key: &str) -> (r: String)
    ensures
        r@ == current_value(graph@, at, key@),
{
    match store_of(graph, at) {
        Some(m) => match m.get(key) {
            Some(v) => v.to_owned(),
            None => String::new(),
        },
        None => String::new(),
    }
}

/// The values with `value` under `key`, or with nothing under it where the
/// value is empty.
pub open spec fn put(m: Seq<Entry>, key: Seq<char>, value: Seq<char>) -> Seq<Entry> {
    if value.len() == 0 {
        field_unset(m, key)
    } else {
        field_set(m, key, value)
    }
}

/// The line that tells of a change.
pub open spec fn change_line(key: Seq<char>, shown: Seq<char>) -> Seq<char> {
    if shown.len() == 0 {
        key + " cleared"@
    } else {
        key + " set to "@ + shown
    }
}

impl AppView {
    /// With `value` under `key` in a store, or nothing under it where the
    /// value is empty, and a line that tells so. A store that is gone changes
    /// nothing.
    pub open spec fn change(self, at: Store, key: Seq<char>, value: Seq<char>) -> AppView {
        match stored(self.graph, at) {
            Some(m) => self.with_graph(set_stored(self.graph, at, put(m, key, value))).say(
                change_line(key, value),
            ),
            None => self,
        }
    }
}

impl App {
    /// Puts `value` under `key` in a store, or drops what is there where the
    /// value is empty.
    pub fn change(&mut self, at: Store, key: String, value: String)
        ensures
            final(self)@ == old(self)@.change(at, key@, value@),
    {
        let line = if value.as_str().is_empty() {
            cat2(key.as_str(), " cleared")
        } else {
            cat3(key.as_str(), " set to ", value.as_str())
        };
        let changed = match store_of_mut(&mut self.graph, at) {
            Some(m) => {
                if value.as_str().is_empty() {
                    m.remove(key.as_str());
                } else {
                    m.insert(key, value);
                }
                true
            },
            None => false,
        };
        if changed {
            self.say(line.as_str());
        }
    }
}

/// What was put into a store is read back from it, and every other name keeps
/// its value.
pub proof fn change_reads_back(
    app: AppView,
    at: Store,
    key: Seq<char>,
    value: Seq<char>,
    other: Seq<char>,
)
    requires
        stored(app.graph, at) is Some,
        ascending(keys_of(stored(app.graph, at)->0)),
    ensures
        current_value(app.change(at, key, value).graph, at, key) == value,
        other != key ==> current_value(app.change(at, key, value).graph, at, other)
            == current_value(app.graph, at, other),
{
    let m = stored(app.graph, at)->0;
    lemma_stored(app.graph, at, put(m, key, value));
    if value.len() == 0 {
        field_get_after_unset(m, key, other);
        assert(value == Seq::<char>::empty());
    } else {
        field_get_after_set(m, key, value, other);
    }
}

pub(crate) proof fn lemma_stored(g: GraphView, at: Store, m: Seq<Entry>)
    requires
        stored(g, at) is Some,
    ensures
        stored(set_stored(g, at, m), at) == Some(m),
{
    let h = set_stored(g, at, m);
    match at {
        Store::Metadata(id) => {
            lemma_kind(g, id, KindView::Metadata { fields: m });
        },
        Store::Filter(id) => {
            if let Some(n) = g.modifier(id) {
                if let KindView::Filter { name, .. } = n.kind {
                    lemma_kind(g, id, KindView::Filter { name, fields: m });
                }
            }
        },
        Store::ExtraArgs(ExtraArgsTarget::Input(id)) => {
            lemma_position::<InputNode>(g.inputs, id);
            lemma_position::<InputNode>(h.inputs, id);
            let i = g.input_at(id)->0;
            assert(h.inputs[i].id == id);
            let j = h.input_at(id)->0;
            if j < i {
                assert(h.inputs[j] == g.inputs[j]);
            }
        },
        Store::ExtraArgs(ExtraArgsTarget::Output(id)) => {
            lemma_position::<OutputNode>(g.outputs, id);
            lemma_position::<OutputNode>(h.outputs, id);
            let i = g.output_at(id)->0;
            assert(h.outputs[i].id == id);
            let j = h.output_at(id)->0;
            if j < i {
                assert(h.outputs[j] == g.outputs[j]);
            }
        },
    }
}

/// A modifier that was turned into another kind is found as that.
pub proof fn lemma_kind(g: GraphView, id: NodeId, kind: KindView)
    requires
        g.modifier(id) is Some,
    ensures
        set_kind(g, id, kind).modifier(id) == Some(ModifierView { kind, ..g.modifier(id)->0 }),
{
    let h = set_kind(g, id, kind);
    lemma_position::<ModifierNode>(g.modifiers, id);
    lemma_position::<ModifierNode>(h.modifiers, id);
    let i = g.modifier_at(id)->0;
    assert(h.modifiers[i].id == id);
    let j = h.modifier_at(id)->0;
    if j < i {
        assert(h.modifiers[j] == g.modifiers[j]);
    }
}

} // verus!
