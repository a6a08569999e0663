//! What editing does, told by what is read afterwards.
use vstd::prelude::*;

use super::chapters::{edit_chapters, imports, lemma_set_chapters, ChapterColumn};
use super::nodes::{beside, lemma_connect_keeps_nodes};
use super::picker::path_for_container;
use super::render::chapter_texts_upto;
use super::settings::{
    change_reads_back, current_value, lemma_kind, lemma_stored, set_kind, stored, Store,
};
use super::{AppView, ChapterTimeField, Focus, ModeView, PickerKindView, TargetView};
use crate::fields::{
    ascending, field_get, field_get_after_set, field_get_after_unset, field_set, keys_of,
};
use crate::graph::chain_laws::{first_wire, lemma_first_wire};
use crate::graph::chapter::{clock, ffmetadata, ChapterView, SecondsView};
use crate::graph::node::{InputNode, KindView, ModifierNode, ModifierView, OutputNode, OutputView};
use crate::graph::opening_laws::lemma_input_at;
use crate::graph::project::{media_streams, ProbeView};
use crate::graph::resolve::feeds;
use crate::graph::stream::{CodecView, StreamKind};
use crate::graph::wire::{Endpoint, NodeId, Target};
use crate::graph::{lemma_position, without, GraphView, Identified};
use crate::paths::clean_path;
use crate::text::{decimal, trim_spec};

verus! {

// ---------------------------------------------------------------------
// Choosing
// ---------------------------------------------------------------------

proof fn lemma_other_kind(g: GraphView, id: NodeId, kind: KindView, other: NodeId)
    requires
        g.modifier(id) is Some,
        other != id,
    ensures
        set_kind(g, id, kind).modifier(other) == g.modifier(other),
{
    let h = set_kind(g, id, kind);
    lemma_position::<ModifierNode>(g.modifiers, id);
    lemma_position::<ModifierNode>(g.modifiers, other);
    lemma_position::<ModifierNode>(h.modifiers, other);
    let i = g.modifier_at(id)->0;
    assert(h.modifiers[i].id == id);
    if let Some(k) = g.modifier_at(other) {
        assert(h.modifiers[k] == g.modifiers[k]);
        let q = h.modifier_at(other)->0;
        if q < k {
            assert(ModifierNode::tag(g.modifiers[q]) == other);
        }
    } else if let Some(q) = h.modifier_at(other) {
        assert(ModifierNode::tag(g.modifiers[q]) == other);
    }
}

/// A chosen codec becomes that of the convert node that it was chosen for: the
/// named encoder, or a copy. No other modifier changes.
pub proof fn chosen_codec_is_taken(
    a: AppView,
    modifier: NodeId,
    value: Option<Seq<char>>,
    other: NodeId,
)
    requires
        a.graph.modifier(modifier) is Some,
    ensures
        ({
            let (b, request) = a.choose_entry(PickerKindView::Codec { modifier }, value);
            &&& b.graph.modifier(modifier) matches Some(m) && m.kind == KindView::Convert(
                match value {
                    Some(name) => CodecView::Encode(name),
                    None => CodecView::Copy,
                },
            )
            &&& other != modifier ==> b.graph.modifier(other) == a.graph.modifier(other)
            &&& b.graph.wires == a.graph.wires
            &&& request is Nothing
        }),
{
    let kind = KindView::Convert(
        match value {
            Some(name) => CodecView::Encode(name),
            None => CodecView::Copy,
        },
    );
    lemma_kind(a.graph, modifier, kind);
    if other != modifier {
        lemma_other_kind(a.graph, modifier, kind, other);
    }
}

proof fn lemma_output_set(g: GraphView, i: int, n: OutputView, other: NodeId)
    requires
        0 <= i < g.outputs.len(),
        g.output_at(g.outputs[i].id) == Some(i),
        n.id == g.outputs[i].id,
    ensures
        g.set_output(i, n).output(n.id) == Some(n),
        other != n.id ==> g.set_output(i, n).output(other) == g.output(other),
{
    let h = g.set_output(i, n);
    lemma_position::<OutputNode>(g.outputs, n.id);
    lemma_position::<OutputNode>(h.outputs, n.id);
    lemma_position::<OutputNode>(g.outputs, other);
    lemma_position::<OutputNode>(h.outputs, other);
    assert(OutputNode::tag(h.outputs[i]) == n.id);
    let j = h.output_at(n.id)->0;
    if j < i {
        assert(OutputNode::tag(g.outputs[j]) == n.id);
    }
    if other != n.id {
        if let Some(k) = g.output_at(other) {
            assert(h.outputs[k] == g.outputs[k]);
            let q = h.output_at(other)->0;
            if q < k {
                assert(OutputNode::tag(g.outputs[q]) == other);
            }
        } else if let Some(q) = h.output_at(other) {
            assert(OutputNode::tag(g.outputs[q]) == other);
        }
    }
}

/// A chosen container becomes that of the output that it was chosen for, or
/// none does. Its path takes the container's extension where that is a common
/// one, and stays otherwise. Nothing else of it changes, and no other output.
pub proof fn chosen_container_is_taken(
    a: AppView,
    output: NodeId,
    value: Option<Seq<char>>,
    other: NodeId,
)
    requires
        a.graph.output(output) is Some,
    ensures
        ({
            let b = a.choose_entry(PickerKindView::Container { output }, value).0;
            let old = a.graph.output(output)->0;
            &&& b.graph.output(output) matches Some(n) && n.container == value && n.path == (
            match value {
                Some(name) => path_for_container(old.path, name),
                None => old.path,
            }) && n.extra_args == old.extra_args && n.id == old.id
            &&& other != output ==> b.graph.output(other) == a.graph.output(other)
            &&& b.graph.wires == a.graph.wires && b.graph.modifiers == a.graph.modifiers
        }),
{
    let g = a.graph;
    lemma_position::<OutputNode>(g.outputs, output);
    let i = g.output_at(output)->0;
    let node = g.outputs[i];
    let path = match value {
        Some(name) => path_for_container(node.path, name),
        None => node.path,
    };
    lemma_output_set(g, i, OutputView { container: value, path, ..node }, other);
}

/// A listed value becomes that of the parameter that it was chosen for, or
/// clears it; the other parameters stay.
pub proof fn chosen_value_is_taken(
    a: AppView,
    modifier: NodeId,
    key: Seq<char>,
    value: Option<Seq<char>>,
    other: Seq<char>,
)
    requires
        stored(a.graph, Store::Filter(modifier)) is Some,
        ascending(keys_of(stored(a.graph, Store::Filter(modifier))->0)),
    ensures
        ({
            let b = a.choose_entry(PickerKindView::FilterFieldValue { modifier, key }, value).0;
            let now = stored(b.graph, Store::Filter(modifier));
            &&& now is Some
            &&& field_get(now->0, key) == value
            &&& other != key ==> field_get(now->0, other) == field_get(
                stored(a.graph, Store::Filter(modifier))->0,
                other,
            )
        }),
{
    let m = stored(a.graph, Store::Filter(modifier))->0;
    match value {
        Some(v) => {
            lemma_stored(a.graph, Store::Filter(modifier), field_set(m, key, v));
            field_get_after_set(m, key, v, other);
        },
        None => {
            lemma_stored(
                a.graph,
                Store::Filter(modifier),
                crate::fields::field_unset(m, key),
            );
            field_get_after_unset(m, key, other);
        },
    }
}

// ---------------------------------------------------------------------
// Typing
// ---------------------------------------------------------------------

/// A typed value, without the blanks around it, becomes that of the metadata
/// field or the option that was asked for; the others keep theirs.
pub proof fn typed_value_is_taken(
    a: AppView,
    at: Store,
    key: Seq<char>,
    text: Seq<char>,
    home: Option<Seq<char>>,
    parsed: Option<SecondsView>,
    other: Seq<char>,
)
    requires
        stored(a.graph, at) is Some,
        ascending(keys_of(stored(a.graph, at)->0)),
        !(at is Filter),
    ensures
        ({
            let target = match at {
                Store::Metadata(modifier) => TargetView::ModifierMetadataValue { modifier, key },
                Store::Filter(modifier) => TargetView::ModifierFilterValue { modifier, key },
                Store::ExtraArgs(target) => TargetView::ExtraArgValue { target, key },
            };
            let b = a.confirm_line(target, text, home, parsed).0;
            &&& current_value(b.graph, at, key) == trim_spec(text)
            &&& other != key ==> current_value(b.graph, at, other) == current_value(
                a.graph,
                at,
                other,
            )
        }),
{
    change_reads_back(a, at, key, trim_spec(text), other);
}

/// A typed parameter of a filter is taken as it is, without the blanks around
/// it. For the start and the end of a trim, the time that it stands for is
/// taken, in seconds, and a text that is no time changes nothing.
pub proof fn typed_parameter_is_taken(
    a: AppView,
    modifier: NodeId,
    key: Seq<char>,
    text: Seq<char>,
    home: Option<Seq<char>>,
    parsed: Option<SecondsView>,
    other: Seq<char>,
)
    requires
        stored(a.graph, Store::Filter(modifier)) is Some,
        ascending(keys_of(stored(a.graph, Store::Filter(modifier))->0)),
    ensures
        ({
            let at = Store::Filter(modifier);
            let target = TargetView::ModifierFilterValue { modifier, key };
            let b = a.confirm_line(target, text, home, parsed).0;
            let value = trim_spec(text);
            let timed = super::text_input::is_trim(a.graph, modifier) && (key == "start"@ || key
                == "end"@) && value.len() > 0;
            &&& !timed ==> current_value(b.graph, at, key) == value
            &&& timed && parsed is Some ==> current_value(b.graph, at, key) == (parsed->0).text
            &&& timed && parsed is None ==> b.graph == a.graph
            &&& other != key ==> current_value(b.graph, at, other) == current_value(
                a.graph,
                at,
                other,
            )
        }),
{
    let at = Store::Filter(modifier);
    let m = stored(a.graph, at)->0;
    change_reads_back(a, at, key, trim_spec(text), other);
    if let Some(t) = parsed {
        lemma_stored(a.graph, at, field_set(m, key, t.text));
        field_get_after_set(m, key, t.text, other);
    }
}

/// A typed path becomes that of the output that it was typed for, cleaned up,
/// unless it is empty; its other settings and the other outputs stay.
pub proof fn typed_path_is_taken(
    a: AppView,
    id: NodeId,
    text: Seq<char>,
    home: Option<Seq<char>>,
    parsed: Option<SecondsView>,
    other: NodeId,
)
    requires
        a.graph.output(id) is Some,
    ensures
        ({
            let b = a.confirm_line(TargetView::OutputPath(id), text, home, parsed).0;
            let old = a.graph.output(id)->0;
            let path = clean_path(text, home);
            &&& b.graph.output(id) matches Some(n) && n.path == (if path.len() > 0 {
                path
            } else {
                old.path
            }) && n.container == old.container && n.extra_args == old.extra_args
            &&& other != id ==> b.graph.output(other) == a.graph.output(other)
        }),
{
    let g = a.graph;
    lemma_position::<OutputNode>(g.outputs, id);
    let i = g.output_at(id)->0;
    lemma_output_set(g, i, OutputView { path: clean_path(text, home), ..g.outputs[i] }, other);
}

// ---------------------------------------------------------------------
// Chapters
// ---------------------------------------------------------------------

/// A typed time becomes the start or the end of the chapter in whose cell it
/// was typed, whichever cell it was; the chapter's other time and its title
/// stay, and so do the other chapters.
pub proof fn typed_time_goes_into_its_cell(
    a: AppView,
    modifier: NodeId,
    index: usize,
    field: ChapterTimeField,
    text: Seq<char>,
    home: Option<Seq<char>>,
    t: SecondsView,
    other: int,
)
    requires
        edit_chapters(a.graph, modifier) is Some,
        index < edit_chapters(a.graph, modifier)->0.len(),
    ensures
        ({
            let target = TargetView::ChapterTime { modifier, index, field };
            let b = a.confirm_line(target, text, home, Some(t)).0;
            let before = edit_chapters(a.graph, modifier)->0;
            let now = edit_chapters(b.graph, modifier);
            let old = before[index as int];
            &&& now is Some && now->0.len() == before.len()
            &&& field == ChapterTimeField::Start ==> now->0[index as int].start_secs == t
                && now->0[index as int].end_secs == old.end_secs
            &&& field == ChapterTimeField::End ==> now->0[index as int].end_secs == t
                && now->0[index as int].start_secs == old.start_secs
            &&& now->0[index as int].title == old.title
            &&& 0 <= other < before.len() && other != index ==> now->0[other] == before[other]
        }),
{
    let cs = edit_chapters(a.graph, modifier)->0;
    let i = index as int;
    let c = match field {
        ChapterTimeField::Start => ChapterView { start_secs: t, ..cs[i] },
        ChapterTimeField::End => ChapterView { end_secs: t, ..cs[i] },
    };
    lemma_set_chapters(a.graph, modifier, cs.update(i, c));
}

/// A typed title becomes that of the chapter in whose cell it was typed; its
/// times stay, and so do the other chapters.
pub proof fn typed_title_goes_into_its_cell(
    a: AppView,
    modifier: NodeId,
    index: usize,
    text: Seq<char>,
    home: Option<Seq<char>>,
    parsed: Option<SecondsView>,
    other: int,
)
    requires
        edit_chapters(a.graph, modifier) is Some,
        index < edit_chapters(a.graph, modifier)->0.len(),
    ensures
        ({
            let target = TargetView::ChapterTitle { modifier, index };
            let b = a.confirm_line(target, text, home, parsed).0;
            let before = edit_chapters(a.graph, modifier)->0;
            let now = edit_chapters(b.graph, modifier);
            let old = before[index as int];
            &&& now is Some && now->0.len() == before.len()
            &&& now->0[index as int].title == trim_spec(text)
            &&& now->0[index as int].start_secs == old.start_secs
            &&& now->0[index as int].end_secs == old.end_secs
            &&& 0 <= other < before.len() && other != index ==> now->0[other] == before[other]
        }),
{
    let cs = edit_chapters(a.graph, modifier)->0;
    let i = index as int;
    let c = ChapterView { title: trim_spec(text), ..cs[i] };
    lemma_set_chapters(a.graph, modifier, cs.update(i, c));
}

/// Enter on a cell of the chapter table opens a line for that cell, with what
/// the cell shows; on the row behind the last chapter it adds a chapter that
/// begins where the last one ends.
pub proof fn enter_opens_the_cell_or_adds_a_chapter(
    a: AppView,
    modifier: NodeId,
    row: usize,
    col: ChapterColumn,
)
    requires
        a.mode == (ModeView::ChapterTable { modifier, row, col }),
        edit_chapters(a.graph, modifier) is Some,
        edit_chapters(a.graph, modifier)->0.len() <= usize::MAX,
    ensures
        ({
            let b = a.chapter_table_confirm();
            let cs = edit_chapters(a.graph, modifier)->0;
            if row < cs.len() {
                let c = cs[row as int];
                &&& b.graph == a.graph
                &&& b.mode matches ModeView::TextInput { target, line, .. }
                &&& match col {
                    ChapterColumn::Start => line.text == clock(c.start_secs.millis as int)
                        && target == (TargetView::ChapterTime {
                        modifier,
                        index: row,
                        field: ChapterTimeField::Start,
                    }),
                    ChapterColumn::End => line.text == clock(c.end_secs.millis as int) && target
                        == (TargetView::ChapterTime {
                        modifier,
                        index: row,
                        field: ChapterTimeField::End,
                    }),
                    ChapterColumn::Title => line.text == c.title && target
                        == (TargetView::ChapterTitle { modifier, index: row }),
                }
            } else {
                let now = edit_chapters(b.graph, modifier);
                &&& now is Some && now->0.len() == cs.len() + 1
                &&& forall|i: int| 0 <= i < cs.len() ==> #[trigger] now->0[i] == cs[i]
                &&& now->0.last().start_secs == (if cs.len() > 0 {
                    cs.last().end_secs
                } else {
                    SecondsView::zero()
                })
                &&& now->0.last().end_secs == now->0.last().start_secs
                &&& now->0.last().title.len() == 0 && !now->0.last().imported
            }
        }),
{
    let cs = edit_chapters(a.graph, modifier)->0;
    let start = if cs.len() > 0 {
        cs.last().end_secs
    } else {
        SecondsView::zero()
    };
    lemma_set_chapters(
        a.graph,
        modifier,
        cs.push(
            ChapterView {
                start_secs: start,
                end_secs: start,
                title: Seq::empty(),
                imported: false,
            },
        ),
    );
}

/// 'd' in the chapter table takes the chapter of the selected row out, and
/// leaves the others in their order.
pub proof fn deleting_takes_the_row_out(
    a: AppView,
    modifier: NodeId,
    row: usize,
    col: ChapterColumn,
)
    requires
        a.mode == (ModeView::ChapterTable { modifier, row, col }),
        edit_chapters(a.graph, modifier) is Some,
        row < edit_chapters(a.graph, modifier)->0.len(),
    ensures
        ({
            let cs = edit_chapters(a.graph, modifier)->0;
            let now = edit_chapters(a.chapter_table_delete().graph, modifier);
            &&& now is Some && now->0.len() == cs.len() - 1
            &&& forall|i: int| 0 <= i < row ==> #[trigger] now->0[i] == cs[i]
            &&& forall|i: int| row <= i < cs.len() - 1 ==> #[trigger] now->0[i] == cs[i + 1]
        }),
{
    let cs = edit_chapters(a.graph, modifier)->0;
    lemma_set_chapters(a.graph, modifier, cs.remove(row as int));
}

/// A chapter node that the chapters of an input feed takes over each of them,
/// with its own times and title, in their order, and marked as taken over.
pub proof fn imported_chapters_are_those_of_the_input(
    g: GraphView,
    id: NodeId,
    p: int,
    stream_idx: usize,
    at: int,
)
    requires
        g.well_formed(),
        0 <= p < g.inputs.len(),
        stream_idx < g.inputs[p].streams.len(),
        g.inputs[p].streams[stream_idx as int].kind == StreamKind::Chapter,
        first_wire(
            g.wires,
            at,
            Endpoint::Stream { node: g.inputs[p].id, stream_idx },
            Target::ModifierIn(id),
        ),
    ensures
        ({
            let theirs = g.inputs[p].chapters;
            let taken = imports(g, id);
            &&& taken.len() == theirs.len()
            &&& forall|i: int|
                0 <= i < theirs.len() ==> {
                    &&& (#[trigger] taken[i]).start_secs == theirs[i].start_secs
                    &&& taken[i].end_secs == theirs[i].end_secs
                    &&& taken[i].title == theirs[i].title
                    &&& taken[i].imported
                }
        }),
{
    lemma_input_at(g, p);
    lemma_first_wire(
        g.wires,
        at,
        Endpoint::Stream { node: g.inputs[p].id, stream_idx },
        Target::ModifierIn(id),
        0,
    );
}

proof fn lemma_texts_listed(modifiers: Seq<ModifierView>, n: int, k: int) -> (j: int)
    requires
        0 <= k < n <= modifiers.len(),
        modifiers[k].kind is ChapterEdit,
        modifiers[k].kind->chapters.len() > 0,
    ensures
        0 <= j < chapter_texts_upto(modifiers, n).len(),
        chapter_texts_upto(modifiers, n)[j].modifier == modifiers[k].id,
        chapter_texts_upto(modifiers, n)[j].content == ffmetadata(modifiers[k].kind->chapters),
    decreases n,
{
    if k == n - 1 {
        chapter_texts_upto(modifiers, n - 1).len() as int
    } else {
        lemma_texts_listed(modifiers, n - 1, k)
    }
}

/// A file is written for every chapter node that has chapters, and it holds
/// the chapters of that node.
pub proof fn every_chapter_node_gets_its_file(g: GraphView, k: int) -> (j: int)
    requires
        0 <= k < g.modifiers.len(),
        g.modifiers[k].kind is ChapterEdit,
        g.modifiers[k].kind->chapters.len() > 0,
    ensures
        ({
            let texts = chapter_texts_upto(g.modifiers, g.modifiers.len() as int);
            &&& 0 <= j < texts.len()
            &&& texts[j].modifier == g.modifiers[k].id
            &&& texts[j].content == ffmetadata(g.modifiers[k].kind->chapters)
        }),
{
    lemma_texts_listed(g.modifiers, g.modifiers.len() as int, k)
}

// ---------------------------------------------------------------------
// Marking
// ---------------------------------------------------------------------

/// Marking a point stores where the player is as the start or the end of the
/// trim that is scrubbed, whichever is marked, and leaves the other one alone.
pub proof fn marked_point_is_stored(
    a: AppView,
    field: Seq<char>,
    t: SecondsView,
    other: Seq<char>,
)
    requires
        a.scrub is Some,
        stored(a.graph, Store::Filter((a.scrub->0).modifier_id)) is Some,
        ascending(keys_of(stored(a.graph, Store::Filter((a.scrub->0).modifier_id))->0)),
    ensures
        ({
            let at = Store::Filter((a.scrub->0).modifier_id);
            let b = a.mark_scrub_point(field, Ok(t));
            &&& current_value(b.graph, at, field) == t.text
            &&& other != field ==> current_value(b.graph, at, other) == current_value(
                a.graph,
                at,
                other,
            )
        }),
{
    let at = Store::Filter((a.scrub->0).modifier_id);
    let m = stored(a.graph, at)->0;
    lemma_stored(a.graph, at, field_set(m, field, t.text));
    field_get_after_set(m, field, t.text, other);
}

// ---------------------------------------------------------------------
// Nodes
// ---------------------------------------------------------------------

/// A probed file becomes an input of the graph, behind the others, with its
/// path, its streams and its chapters, and numbered by its position. It is
/// focused.
pub proof fn probed_file_becomes_an_input(a: AppView, path: Seq<char>, probe: ProbeView)
    requires
        a.graph.inputs.len() < usize::MAX,
    ensures
        ({
            let b = a.input_probed(path, Ok(probe));
            let n = a.graph.inputs.len() as int;
            let input = b.graph.inputs[n];
            &&& b.graph.inputs.len() == n + 1
            &&& b.graph.inputs.take(n) == a.graph.inputs
            &&& input.path == path && input.file_index == n
            &&& input.chapters == probe.chapters
            &&& forall|i: int|
                0 <= i < probe.streams.len() ==> input.streams.len() > i && #[trigger] input.streams[i]
                    == probe.streams[i]
            &&& probe.chapters.len() == 0 ==> input.streams.len() == probe.streams.len()
            &&& probe.chapters.len() > 0 ==> input.streams.len() == probe.streams.len() + 1
                && input.streams.last().kind == StreamKind::Chapter
            &&& b.graph.wires == a.graph.wires && b.graph.modifiers == a.graph.modifiers
                && b.graph.outputs == a.graph.outputs
            &&& b.focus == Focus::Input(n as usize)
        }),
{
    let b = a.input_probed(path, Ok(probe));
    let n = a.graph.inputs.len() as int;
    assert(b.graph.inputs.take(n) =~= a.graph.inputs);
}

proof fn lemma_without_order<T: Identified>(s: Seq<T::V>, id: NodeId, p: int, n: int)
    requires
        0 <= p < s.len(),
        0 <= n <= s.len(),
        T::tag(s[p]) == id,
        forall|i: int| 0 <= i < s.len() && i != p ==> T::tag(#[trigger] s[i]) != id,
    ensures
        without::<T>(s, id, n) == (if n <= p {
            s.take(n)
        } else {
            s.take(n).remove(p)
        }),
    decreases n,
{
    if n > 0 {
        lemma_without_order::<T>(s, id, p, n - 1);
        assert(s.take(n) =~= s.take(n - 1).push(s[n - 1]));
        if n - 1 == p {
            assert(s.take(n).remove(p) =~= s.take(n - 1));
        } else if n - 1 > p {
            assert(s.take(n).remove(p) =~= s.take(n - 1).remove(p).push(s[n - 1]));
        }
    } else {
        assert(s.take(0) =~= Seq::empty());
    }
}

/// 'x' takes the focused node out of the graph, and no other one: the rest
/// stays, in order. Inputs are numbered anew, and an only output stays.
pub proof fn deleting_takes_the_focused_node_out(a: AppView)
    requires
        a.graph.well_formed(),
    ensures
        ({
            let g = a.graph;
            let h = a.delete_focused_node().graph;
            match a.focus {
                Focus::Input(i) => i < g.inputs.len() ==> {
                    &&& h.inputs.len() == g.inputs.len() - 1
                    &&& forall|k: int|
                        0 <= k < h.inputs.len() ==> {
                            let old = g.inputs[if k < i {
                                k
                            } else {
                                k + 1
                            }];
                            &&& (#[trigger] h.inputs[k]).id == old.id
                            &&& h.inputs[k].path == old.path
                            &&& h.inputs[k].streams == old.streams
                            &&& h.inputs[k].extra_args == old.extra_args
                            &&& h.inputs[k].file_index == k as usize
                        }
                    &&& h.outputs == g.outputs
                },
                Focus::Modifier(i) => i < g.modifiers.len() ==> h.modifiers == g.modifiers.remove(
                    i as int,
                ) && h.inputs == g.inputs && h.outputs == g.outputs,
                Focus::Output(i) => {
                    &&& g.outputs.len() <= 1 ==> h == g
                    &&& g.outputs.len() > 1 && i < g.outputs.len() ==> h.outputs
                        == g.outputs.remove(i as int) && h.inputs == g.inputs && h.modifiers
                        == g.modifiers
                },
            }
        }),
{
    let g = a.graph;
    match a.focus {
        Focus::Input(i) => {
            if i < g.inputs.len() {
                let id = g.inputs[i as int].id;
                let n = g.inputs.len() as int;
                assert(InputNode::tag(g.inputs[i as int]) == id);
                lemma_without_order::<InputNode>(g.inputs, id, i as int, n);
                assert(g.inputs.take(n) =~= g.inputs);
                let cut = g.remove_input(id);
                let affected = super::chapters::fed_by_input(g, id, g.wires.len() as int);
                lemma_sync_keeps_ends(cut, affected, affected.len() as int);
            }
        },
        Focus::Modifier(i) => {
            if i < g.modifiers.len() {
                let id = g.modifiers[i as int].id;
                let n = g.modifiers.len() as int;
                assert(ModifierNode::tag(g.modifiers[i as int]) == id);
                lemma_without_order::<ModifierNode>(g.modifiers, id, i as int, n);
                assert(g.modifiers.take(n) =~= g.modifiers);
            }
        },
        Focus::Output(i) => {
            if i < g.outputs.len() {
                let id = g.outputs[i as int].id;
                let n = g.outputs.len() as int;
                assert(OutputNode::tag(g.outputs[i as int]) == id);
                lemma_without_order::<OutputNode>(g.outputs, id, i as int, n);
                assert(g.outputs.take(n) =~= g.outputs);
            }
        },
    }
}

proof fn lemma_sync_keeps_ends(g: GraphView, ids: Seq<NodeId>, n: int)
    ensures
        super::chapters::sync_upto(g, ids, n).inputs == g.inputs,
        super::chapters::sync_upto(g, ids, n).outputs == g.outputs,
        super::chapters::sync_upto(g, ids, n).wires == g.wires,
    decreases n,
{
    if n > 0 {
        lemma_sync_keeps_ends(g, ids, n - 1);
    }
}

/// The copy of a modifier does what the original does, and stands beside it.
pub proof fn duplicated_modifier_does_the_same(g: GraphView, i: int)
    requires
        g.well_formed(),
        0 <= i < g.modifiers.len(),
    ensures
        ({
            let h = g.duplicate_modifier(i);
            let n = g.modifiers.len() as int;
            &&& h.modifiers.len() == n + 1
            &&& h.modifiers.take(n) == g.modifiers
            &&& h.modifiers[n].kind == g.modifiers[i].kind
            &&& h.modifiers[n].width == g.modifiers[i].width
            &&& h.modifiers[n].pos == beside(g.modifiers[i].pos)
            &&& h.modifiers[n].id == g.next_id
            &&& h.inputs == g.inputs && h.outputs == g.outputs
        }),
{
    let n = g.modifiers.len() as int;
    let node = g.modifiers[i];
    let added = g.add_modifier(node.kind);
    lemma_position::<ModifierNode>(added.modifiers, g.next_id);
    assert(ModifierNode::tag(added.modifiers[n]) == g.next_id);
    let k = added.modifier_at(g.next_id)->0;
    if k < n {
        assert(ModifierNode::tag(g.modifiers[k]) < g.next_id);
    }
    let placed = added.set_modifier(
        n,
        ModifierView { pos: beside(node.pos), width: node.width, ..added.modifiers[n] },
    );
    let sources = feeds(g.wires, Target::ModifierIn(node.id));
    lemma_connect_keeps_nodes(
        placed,
        sources,
        Target::ModifierIn(g.next_id),
        sources.len() as int,
    );
    assert(g.duplicate_modifier(i).modifiers.take(n) =~= g.modifiers);
}

/// The copy of an output has its container and its options, and stands beside
/// it.
pub proof fn duplicated_output_asks_for_the_same(g: GraphView, i: int)
    requires
        g.well_formed(),
        0 <= i < g.outputs.len(),
    ensures
        ({
            let h = g.duplicate_output(i);
            let n = g.outputs.len() as int;
            &&& h.outputs.len() == n + 1
            &&& h.outputs.take(n) == g.outputs
            &&& h.outputs[n].container == g.outputs[i].container
            &&& h.outputs[n].extra_args == g.outputs[i].extra_args
            &&& h.outputs[n].width == g.outputs[i].width
            &&& h.outputs[n].pos == beside(g.outputs[i].pos)
            &&& h.outputs[n].id == g.next_id
            &&& h.inputs == g.inputs && h.modifiers == g.modifiers
        }),
{
    let n = g.outputs.len() as int;
    let node = g.outputs[i];
    let added = g.add_output();
    lemma_position::<OutputNode>(added.outputs, g.next_id);
    assert(OutputNode::tag(added.outputs[n]) == g.next_id);
    let k = added.output_at(g.next_id)->0;
    if k < n {
        assert(OutputNode::tag(g.outputs[k]) < g.next_id);
    }
    let path = crate::paths::copied_path(node.path, super::nodes::output_paths(g.outputs));
    let placed = added.set_output(
        n,
        OutputView {
            path,
            container: node.container,
            extra_args: node.extra_args,
            pos: beside(node.pos),
            width: node.width,
            ..added.outputs[n]
        },
    );
    let sources = feeds(g.wires, Target::Output(node.id));
    lemma_connect_keeps_nodes(placed, sources, Target::Output(g.next_id), sources.len() as int);
    assert(g.duplicate_output(i).outputs.take(n) =~= g.outputs);
}

/// The copy of an input is of the same file, with the same streams, chapters
/// and options, and is opened once more behind the others.
pub proof fn duplicated_input_is_of_the_same_file(g: GraphView, i: int)
    requires
        g.well_formed(),
        0 <= i < g.inputs.len() < usize::MAX,
    ensures
        ({
            let h = g.duplicate_input(i);
            let n = g.inputs.len() as int;
            &&& h.inputs.len() == n + 1
            &&& h.inputs.take(n) == g.inputs
            &&& h.inputs[n].path == g.inputs[i].path
            &&& h.inputs[n].streams == g.inputs[i].streams
            &&& h.inputs[n].chapters == g.inputs[i].chapters
            &&& h.inputs[n].extra_args == g.inputs[i].extra_args
            &&& h.inputs[n].file_index == n
            &&& h.inputs[n].id == g.next_id
            &&& h.wires == g.wires && h.modifiers == g.modifiers && h.outputs == g.outputs
        }),
{
    let n = g.inputs.len() as int;
    let node = g.inputs[i];
    let added = g.add_input(node.path, media_streams(node.streams), node.chapters);
    lemma_position::<InputNode>(added.inputs, g.next_id);
    assert(InputNode::tag(added.inputs[n]) == g.next_id);
    let k = added.input_at(g.next_id)->0;
    if k < n {
        assert(InputNode::tag(g.inputs[k]) < g.next_id);
    }
    assert(crate::graph::laws::streams_ok(node));
    assert(g.duplicate_input(i).inputs.take(n) =~= g.inputs);
}

/// Inputs stand left of modifiers and modifiers left of outputs, and each new
/// node stands below the last of its kind. An output is named by its number.
pub proof fn new_nodes_stand_in_columns(g: GraphView, kind: KindView, path: Seq<char>, probe: ProbeView)
    requires
        g.inputs.len() < 0x10_0000 && g.modifiers.len() < 0x10_0000 && g.outputs.len()
            < 0x10_0000,
    ensures
        ({
            let i = g.add_input(path, probe.streams, probe.chapters).inputs.last().pos;
            let m = g.add_modifier(kind).modifiers.last().pos;
            let o = g.add_output().outputs.last();
            &&& i.0 + g.add_input(path, probe.streams, probe.chapters).inputs.last().width < m.0
            &&& m.0 + g.add_modifier(kind).modifiers.last().width < o.pos.0
            &&& i.1 == 2 + 12 * g.inputs.len()
            &&& m.1 == 2 + 8 * g.modifiers.len()
            &&& o.pos.1 == 2 + 12 * g.outputs.len()
            &&& g.outputs.len() == 0 ==> o.path == "output.mkv"@
            &&& g.outputs.len() > 0 ==> o.path == "output"@ + decimal(g.outputs.len() + 1)
                + ".mkv"@
            &&& o.container is None && o.extra_args.len() == 0
        }),
{
}

/// 'h' and 'l' move the focused node left and right, 'k' and 'j' up and down.
pub proof fn letters_move_the_focused_node(a: AppView, i: usize)
    requires
        a.focus == Focus::Modifier(i),
        i < a.graph.modifiers.len(),
        2 <= a.graph.modifiers[i as int].pos.0 < i64::MAX - 2,
        2 <= a.graph.modifiers[i as int].pos.1 < i64::MAX - 2,
    ensures
        ({
            let (x, y) = a.graph.modifiers[i as int].pos;
            let at = |c: char| a.graph_char(c, false).0.graph.modifiers[i as int].pos;
            &&& at('h').0 < x && at('h').1 == y
            &&& at('l').0 > x && at('l').1 == y
            &&& at('k').0 == x && at('k').1 < y
            &&& at('j').0 == x && at('j').1 > y
        }),
{
}

} // verus!
