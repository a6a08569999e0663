//! What keys, pickers, players and runs do, told by what is seen afterwards.
use vstd::prelude::*;

use super::chapters::{edit_chapters, ChapterColumn};
use super::nodes::encoders_for;
use super::picker::{
    behind, field_options, filtered, filtered_upto, known_upto, offered, option_from, options_spec,
    rest_upto, selected_spec,
};
use super::render::{command_line, exit_code_upto, logged_upto, playback};
use super::scrub::scrub_player;
use super::{AppView, EntryView, Focus, ModeView, PickerKindView, RequestView, TargetView};
use crate::ffmpeg::done_mark;
use crate::fields::{ascending, field_get, flag_toggle, flag_toggle_twice, key_at, lemma_key_at, lemma_rank_from, rank, Entry};
use crate::graph::args::ffmpeg_args;
use crate::graph::chain_laws::{first_wire, lemma_first_wire};
use crate::graph::chapter::SecondsView;
use crate::graph::node::{FilterName, KindView};
use crate::graph::opening_laws::lemma_input_at;
use crate::graph::project::LoadView;
use crate::graph::resolve::resolve_spec;
use crate::graph::stream::{CodecView, StreamKind};
use crate::graph::wire::{Endpoint, Target};
use crate::line::{Key, KeyCode};
use crate::paths::clean_path;
use crate::text::{starts_with_spec, text_less, text_less_irreflexive, text_less_transitive};

verus! {

// ---------------------------------------------------------------------
// What is offered
// ---------------------------------------------------------------------

proof fn lemma_known(names: Seq<Seq<char>>, known: Seq<Seq<char>>, n: int)
    requires
        0 <= n <= names.len(),
    ensures
        forall|t: Seq<char>|
            #[trigger] known_upto(names, known, n).contains(t) <==> known.contains(t)
                && names.take(n).contains(t),
    decreases n,
{
    if n > 0 {
        lemma_known(names, known, n - 1);
        let p = known_upto(names, known, n - 1);
        let q = known_upto(names, known, n);
        let last = names[n - 1];
        assert(names.take(n) == names.take(n - 1).push(last));
        assert forall|t: Seq<char>| #[trigger] q.contains(t) <==> known.contains(t) && names.take(
            n,
        ).contains(t) by {
            lemma_push_contains(names.take(n - 1), last, t);
            lemma_push_contains(p, last, t);
            assert(p.contains(t) <==> known.contains(t) && names.take(n - 1).contains(t));
        }
    }
}

proof fn lemma_push_contains<T>(s: Seq<T>, x: T, t: T)
    ensures
        s.push(x).contains(t) <==> s.contains(t) || t == x,
{
    if s.contains(t) {
        let i = choose|i: int| 0 <= i < s.len() && s[i] == t;
        assert(s.push(x)[i] == t);
    }
    if t == x {
        assert(s.push(x)[s.len() as int] == t);
    }
}

proof fn lemma_insert_contains<T>(s: Seq<T>, at: int, x: T, t: T)
    requires
        0 <= at <= s.len(),
    ensures
        s.insert(at, x).contains(t) <==> s.contains(t) || t == x,
{
    let r = s.insert(at, x);
    if s.contains(t) {
        let i = choose|i: int| 0 <= i < s.len() && s[i] == t;
        assert(r[if i < at {
            i
        } else {
            i + 1
        }] == t);
    }
    if t == x {
        assert(r[at] == t);
    }
    if r.contains(t) && t != x {
        let i = choose|i: int| 0 <= i < r.len() && r[i] == t;
        assert(s[if i < at {
            i
        } else {
            i - 1
        }] == t);
    }
}

/// No text comes before one that stands before it.
pub open spec fn in_order(s: Seq<Seq<char>>) -> bool {
    forall|i: int, j: int| 0 <= i < j < s.len() ==> !text_less(#[trigger] s[j], #[trigger] s[i])
}

proof fn lemma_behind(s: Seq<Seq<char>>, t: Seq<char>, i: int)
    requires
        0 <= i <= s.len(),
    ensures
        i <= behind(s, t, i) <= s.len(),
        forall|k: int| i <= k < behind(s, t, i) ==> !text_less(t, #[trigger] s[k]),
        behind(s, t, i) < s.len() ==> text_less(t, s[behind(s, t, i)]),
    decreases s.len() - i,
{
    if i < s.len() && !text_less(t, s[i]) {
        lemma_behind(s, t, i + 1);
    }
}

proof fn lemma_rest(names: Seq<Seq<char>>, found: Seq<Seq<char>>, n: int)
    requires
        0 <= n <= found.len(),
    ensures
        in_order(rest_upto(names, found, n)),
        forall|t: Seq<char>|
            #[trigger] rest_upto(names, found, n).contains(t) <==> !names.contains(t)
                && found.take(n).contains(t),
    decreases n,
{
    if n > 0 {
        lemma_rest(names, found, n - 1);
        let p = rest_upto(names, found, n - 1);
        let q = rest_upto(names, found, n);
        let x = found[n - 1];
        assert(found.take(n) == found.take(n - 1).push(x));
        lemma_behind(p, x, 0);
        let at = behind(p, x, 0);
        if !names.contains(x) {
            assert forall|i: int, j: int| 0 <= i < j < q.len() implies !text_less(
                #[trigger] q[j],
                #[trigger] q[i],
            ) by {
                lemma_inserted_in_order(p, x, at, i, j);
            }
        }
        assert forall|t: Seq<char>| #[trigger] q.contains(t) <==> !names.contains(t) && found.take(
            n,
        ).contains(t) by {
            lemma_push_contains(found.take(n - 1), x, t);
            lemma_insert_contains(p, at, x, t);
            assert(p.contains(t) <==> !names.contains(t) && found.take(n - 1).contains(t));
        }
    }
}

proof fn lemma_inserted_in_order(p: Seq<Seq<char>>, x: Seq<char>, at: int, i: int, j: int)
    requires
        in_order(p),
        0 <= at <= p.len(),
        forall|k: int| 0 <= k < at ==> !text_less(x, #[trigger] p[k]),
        at < p.len() ==> text_less(x, p[at]),
        0 <= i < j < p.len() + 1,
    ensures
        !text_less(p.insert(at, x)[j], p.insert(at, x)[i]),
{
    let q = p.insert(at, x);
    let a = if i < at {
        i
    } else {
        i - 1
    };
    let b = if j < at {
        j
    } else {
        j - 1
    };
    if i != at && j != at {
        assert(q[i] == p[a] && q[j] == p[b]);
    } else if j == at {
        assert(q[i] == p[i]);
    } else {
        assert(q[j] == p[b]);
        if text_less(p[b], x) {
            if b > at {
                assert(!text_less(p[b], p[at]));
                text_less_transitive(p[b], x, p[at]);
            } else {
                text_less_transitive(x, p[at], x);
                text_less_irreflexive(x);
            }
        }
    }
}

/// What a picker offers is what was found, where anything was: first the
/// common names, in their order, and then the others, sorted. Where nothing
/// was found, the common names are offered.
pub proof fn found_names_are_offered(names: Seq<Seq<char>>, found: Seq<Seq<char>>, t: Seq<char>) -> (cut: int)
    ensures
        found.len() == 0 ==> offered(names, found) == names,
        found.len() > 0 ==> {
            let all = offered(names, found);
            &&& all.contains(t) <==> found.contains(t)
            &&& 0 <= cut <= all.len()
            &&& all.take(cut).contains(t) <==> found.contains(t) && names.contains(t)
            &&& all.skip(cut).contains(t) <==> found.contains(t) && !names.contains(t)
            &&& in_order(all.skip(cut))
        },
{
    let kept = known_upto(names, found, names.len() as int);
    if found.len() > 0 {
        let rest = rest_upto(kept, found, found.len() as int);
        let all = offered(names, found);
        lemma_known(names, found, names.len() as int);
        lemma_rest(kept, found, found.len() as int);
        assert(names.take(names.len() as int) == names);
        assert(found.take(found.len() as int) == found);
        assert(all.take(kept.len() as int) == kept);
        assert(all.skip(kept.len() as int) == rest);
        assert(kept.contains(t) <==> found.contains(t) && names.contains(t));
        assert(rest.contains(t) <==> !kept.contains(t) && found.contains(t));
        if all.contains(t) {
            let i = choose|i: int| 0 <= i < all.len() && all[i] == t;
            if i < kept.len() {
                assert(kept[i] == t);
            } else {
                assert(rest[i - kept.len()] == t);
            }
        }
        if kept.contains(t) {
            let i = choose|i: int| 0 <= i < kept.len() && kept[i] == t;
            assert(all[i] == t);
        }
        if rest.contains(t) {
            let i = choose|i: int| 0 <= i < rest.len() && rest[i] == t;
            assert(all[kept.len() + i] == t);
        }
    }
    kept.len() as int
}

proof fn lemma_known_order(names: Seq<Seq<char>>, known: Seq<Seq<char>>, n: int) -> (at: Seq<int>)
    requires
        0 <= n <= names.len(),
    ensures
        at.len() == known_upto(names, known, n).len(),
        forall|k: int|
            0 <= k < at.len() ==> 0 <= #[trigger] at[k] < n && names[at[k]] == known_upto(
                names,
                known,
                n,
            )[k],
        forall|k: int, l: int| 0 <= k < l < at.len() ==> #[trigger] at[k] < #[trigger] at[l],
    decreases n,
{
    if n == 0 {
        Seq::empty()
    } else {
        let before = lemma_known_order(names, known, n - 1);
        if known.contains(names[n - 1]) {
            before.push(n - 1)
        } else {
            before
        }
    }
}

/// The common names that were found stand first among what is offered, in the
/// order in which they are common.
pub proof fn common_names_keep_their_order(names: Seq<Seq<char>>, found: Seq<Seq<char>>) -> (at: Seq<
    int,
>)
    requires
        found.len() > 0,
    ensures
        at.len() <= offered(names, found).len(),
        forall|k: int|
            0 <= k < at.len() ==> 0 <= #[trigger] at[k] < names.len() && names[at[k]] == offered(
                names,
                found,
            )[k],
        forall|k: int, l: int| 0 <= k < l < at.len() ==> #[trigger] at[k] < #[trigger] at[l],
        forall|i: int|
            at.len() <= i < offered(names, found).len() ==> !names.contains(
                #[trigger] offered(names, found)[i],
            ),
{
    let n = names.len() as int;
    let at = lemma_known_order(names, found, n);
    let kept = known_upto(names, found, n);
    let rest = rest_upto(kept, found, found.len() as int);
    let all = offered(names, found);
    lemma_known(names, found, n);
    lemma_rest(kept, found, found.len() as int);
    assert(names.take(n) == names);
    assert(found.take(found.len() as int) == found);
    assert forall|i: int| at.len() <= i < all.len() implies !names.contains(#[trigger] all[i]) by {
        let t = all[i];
        assert(rest[i - at.len()] == t);
        assert(rest.contains(t));
        assert(kept.contains(t) <==> found.contains(t) && names.contains(t));
    }
    at
}

/// The encoders that are offered for a stream are those for its kind.
pub proof fn encoders_are_offered_for_their_kind(
    encoders: Seq<(Seq<char>, StreamKind)>,
    kind: StreamKind,
    n: int,
    name: Seq<char>,
)
    requires
        0 <= n <= encoders.len(),
    ensures
        encoders_for(encoders, kind, n).contains(name) <==> exists|i: int|
            0 <= i < n && (#[trigger] encoders[i]).0 == name && encoders[i].1 == kind,
    decreases n,
{
    if n > 0 {
        encoders_are_offered_for_their_kind(encoders, kind, n - 1, name);
        let p = encoders_for(encoders, kind, n - 1);
        lemma_push_contains(p, encoders[n - 1].0, name);
        if exists|i: int|
            0 <= i < n - 1 && (#[trigger] encoders[i]).0 == name && encoders[i].1 == kind {
            let i = choose|i: int|
                0 <= i < n - 1 && (#[trigger] encoders[i]).0 == name && encoders[i].1 == kind;
            assert(encoders[i].0 == name);
        }
        if encoders[n - 1].0 == name && encoders[n - 1].1 == kind {
            assert(encoders[n - 1].0 == name);
        }
    }
}

proof fn lemma_option_from(options: Seq<EntryView>, name: Seq<char>, i: int, k: int)
    requires
        0 <= i <= k < options.len(),
        options[k].value == Some(name),
    ensures
        option_from(options, name, i) matches Some(at) && i <= at < options.len()
            && options[at].value == Some(name),
    decreases options.len() - i,
{
    if options[i].value != Some(name) {
        lemma_option_from(options, name, i + 1, k);
    }
}

/// A list of names is offered behind one entry that stands for none. It opens
/// on the entry of the current value, and on that first entry where there is
/// no current value.
pub proof fn picker_opens_on_the_current_value(
    reset: Seq<char>,
    names: Seq<Seq<char>>,
    k: int,
)
    requires
        0 <= k < names.len(),
    ensures
        ({
            let options = options_spec(reset, names);
            let at = selected_spec(options, Some(names[k]));
            &&& options.len() == names.len() + 1
            &&& options[0].value is None && options[0].display == reset
            &&& options[k + 1].value == Some(names[k]) && options[k + 1].display == names[k]
            &&& 0 <= at < options.len() && options[at].value == Some(names[k])
            &&& selected_spec(options, None) == 0
        }),
{
    let options = options_spec(reset, names);
    assert(options[k + 1].value == Some(names[k]));
    lemma_option_from(options, names[k], 0, k + 1);
}

/// A picker of fields shows every field that can be set with its own current
/// value, and choosing it asks for that field.
pub proof fn fields_are_shown_with_their_values(
    m: Seq<Entry>,
    keys: Seq<Seq<char>>,
    custom: bool,
    k: int,
)
    requires
        0 <= k < keys.len(),
    ensures
        ({
            let options = field_options(m, keys, custom);
            &&& k < options.len()
            &&& options[k].value == Some(keys[k])
            &&& field_get(m, keys[k]) matches Some(v) ==> options[k].display == keys[k] + ": "@ + v
            &&& field_get(m, keys[k]) is None ==> options[k].display == keys[k] + ": (not set)"@
            &&& custom ==> options.last().value is None
            &&& !custom ==> options.len() == keys.len()
        }),
{
}

pub(crate) proof fn lemma_unfiltered(options: Seq<EntryView>, n: int)
    requires
        0 <= n <= options.len() <= usize::MAX,
    ensures
        filtered_upto(options, Seq::empty(), n).len() == n,
        forall|i: int| 0 <= i < n ==> #[trigger] filtered_upto(options, Seq::empty(), n)[i] == i,
    decreases n,
{
    if n > 0 {
        lemma_unfiltered(options, n - 1);
    }
}

/// Enter in a picker takes the option under the cursor: a codec picked without
/// a search is the one that stands there.
pub proof fn enter_takes_the_option_under_the_cursor(a: AppView)
    requires
        a.mode matches ModeView::Picker {
            kind: PickerKindView::Codec { modifier },
            options,
            selected,
            query,
            ..
        } && selected < options.len() <= usize::MAX && query.len() == 0 && a.graph.modifier(
            modifier,
        ) is Some,
    ensures
        a.mode matches ModeView::Picker {
            kind: PickerKindView::Codec { modifier },
            options,
            selected,
            ..
        } && a.picker_confirm().0.mode is Normal && (a.picker_confirm().0.graph.modifier(
            modifier,
        ) matches Some(m) && m.kind == KindView::Convert(
            match options[selected as int].value {
                Some(name) => CodecView::Encode(name),
                None => CodecView::Copy,
            },
        )),
{
    if let ModeView::Picker { kind: PickerKindView::Codec { modifier }, options, selected, query, .. } =
        a.mode {
        assert(query == Seq::<char>::empty());
        lemma_unfiltered(options, options.len() as int);
        let value = options[selected as int].value;
        super::editing_laws::chosen_codec_is_taken(
            a.enter(ModeView::Normal),
            modifier,
            value,
            modifier,
        );
    }
}

/// A filter that is picked for a new node is the filter of that name, with
/// nothing set, and the new node is focused.
pub proof fn named_filter_is_added(a: AppView, name: FilterName)
    requires
        a.graph.modifiers.len() < usize::MAX,
    ensures
        ({
            let (b, request) = a.choose_entry(PickerKindView::NewNode, Some(name.label_spec()));
            let n = a.graph.modifiers.len() as int;
            &&& request is Nothing
            &&& b.graph.modifiers.len() == n + 1
            &&& b.graph.modifiers.take(n) == a.graph.modifiers
            &&& b.graph.modifiers[n].kind == (KindView::Filter { name, fields: Seq::empty() })
            &&& b.graph.modifiers[n].id == a.graph.next_id
            &&& b.graph.wires == a.graph.wires && b.graph.inputs == a.graph.inputs
                && b.graph.outputs == a.graph.outputs
            &&& b.focus == Focus::Modifier(n as usize)
        }),
{
    lemma_node_names();
    let b = a.choose_entry(PickerKindView::NewNode, Some(name.label_spec())).0;
    let n = a.graph.modifiers.len() as int;
    assert(b.graph.modifiers.take(n) =~= a.graph.modifiers);
}

/// The other kinds that can be picked for a new node are added as what they
/// are named.
pub proof fn named_node_is_added(a: AppView)
    requires
        a.graph.modifiers.len() < usize::MAX,
        a.graph.outputs.len() < usize::MAX,
    ensures
        ({
            let added = |value: Seq<char>|
                a.choose_entry(PickerKindView::NewNode, Some(value)).0.graph;
            &&& added("convert"@).modifiers.last().kind == KindView::Convert(CodecView::Copy)
            &&& added("metadata"@).modifiers.last().kind == (KindView::Metadata {
                fields: Seq::empty(),
            })
            &&& added("disposition"@).modifiers.last().kind == (KindView::Disposition {
                flags: Seq::empty(),
            })
            &&& added("chapters"@).modifiers.last().kind == (KindView::ChapterEdit {
                chapters: Seq::empty(),
            })
            &&& added("concat"@).modifiers.last().kind == KindView::Concat
            &&& added("output"@).outputs.len() == a.graph.outputs.len() + 1
            &&& added("output"@).modifiers == a.graph.modifiers
            &&& added("input"@) == a.graph
        }),
{
    lemma_node_names();
}

proof fn lemma_node_names()
    ensures
        "input"@.len() == 5 && "input"@[0] == 'i',
        "output"@.len() == 6 && "output"@[0] == 'o',
        "convert"@.len() == 7 && "convert"@[3] == 'v',
        "metadata"@.len() == 8 && "metadata"@[0] == 'm',
        "disposition"@.len() == 11,
        "chapters"@.len() == 8 && "chapters"@[0] == 'c',
        "shift"@.len() == 5 && "shift"@[1] == 'h' && "shift"@[0] == 's',
        "volume"@.len() == 6 && "volume"@[0] == 'v',
        "scale"@.len() == 5 && "scale"@[1] == 'c' && "scale"@[0] == 's',
        "crop"@.len() == 4 && "crop"@[0] == 'c',
        "fade"@.len() == 4 && "fade"@[0] == 'f',
        "rotate"@.len() == 6 && "rotate"@[0] == 'r',
        "trim"@.len() == 4 && "trim"@[0] == 't',
        "concat"@.len() == 6 && "concat"@[0] == 'c',
{
    reveal_strlit("input");
    reveal_strlit("output");
    reveal_strlit("convert");
    reveal_strlit("metadata");
    reveal_strlit("disposition");
    reveal_strlit("chapters");
    reveal_strlit("shift");
    reveal_strlit("volume");
    reveal_strlit("scale");
    reveal_strlit("crop");
    reveal_strlit("fade");
    reveal_strlit("rotate");
    reveal_strlit("trim");
    reveal_strlit("concat");
}

// ---------------------------------------------------------------------
// Going about
// ---------------------------------------------------------------------

proof fn lemma_turn(at: int, n: int)
    requires
        0 <= at < n,
    ensures
        (at + 1) % n == (if at + 1 < n {
            at + 1
        } else {
            0
        }),
        (at + n - 1) % n == (if at > 0 {
            at - 1
        } else {
            n - 1
        }),
        (at - 1) % n == (if at > 0 {
            at - 1
        } else {
            n - 1
        }),
{
    assert((at + 1) % n == (if at + 1 < n {
        at + 1
    } else {
        0
    })) by (nonlinear_arith)
        requires
            0 <= at < n,
    ;
    assert((at + n - 1) % n == (if at > 0 {
        at - 1
    } else {
        n - 1
    })) by (nonlinear_arith)
        requires
            0 <= at < n,
    ;
    assert((at - 1) % n == (if at > 0 {
        at - 1
    } else {
        n - 1
    })) by (nonlinear_arith)
        requires
            0 <= at < n,
    ;
}

/// Down goes to the row below and up to the row above, round at the ends.
pub proof fn arrows_go_to_the_next_row(a: AppView, down: Key, up: Key)
    requires
        a.mode is Normal,
        a.row_idx < a.row_count() <= usize::MAX,
        down.code == KeyCode::Down && !down.control_spec() && !down.shift_spec(),
        up.code == KeyCode::Up && !up.control_spec() && !up.shift_spec(),
    ensures
        ({
            let n = a.row_count();
            let below = a.handle_key(down, None, None);
            let above = a.handle_key(up, None, None);
            &&& below is Some && (below->0).0.row_idx == (if a.row_idx + 1 < n {
                a.row_idx + 1
            } else {
                0
            })
            &&& above is Some && (above->0).0.row_idx == (if a.row_idx > 0 {
                a.row_idx - 1
            } else {
                n - 1
            })
            &&& (below->0).0.graph == a.graph && (above->0).0.graph == a.graph
            &&& (below->0).0.focus == a.focus && (above->0).0.focus == a.focus
        }),
{
    lemma_turn(a.row_idx as int, a.row_count());
}

/// Tab focuses the next node: inputs first, then modifiers, then outputs.
pub proof fn tab_goes_to_the_next_node(a: AppView, i: usize)
    requires
        a.graph.inputs.len() > 0 && a.graph.modifiers.len() > 0 && a.graph.outputs.len() > 0,
        a.node_count() <= usize::MAX,
    ensures
        ({
            let g = a.graph;
            let next = |f: Focus| (AppView { focus: f, ..a }).cycle_focus(true).focus;
            let back = |f: Focus| (AppView { focus: f, ..a }).cycle_focus(false).focus;
            &&& i + 1 < g.inputs.len() ==> next(Focus::Input(i)) == Focus::Input((i + 1) as usize)
            &&& i + 1 == g.inputs.len() ==> next(Focus::Input(i)) == Focus::Modifier(0)
            &&& i + 1 < g.modifiers.len() ==> next(Focus::Modifier(i)) == Focus::Modifier(
                (i + 1) as usize,
            )
            &&& i + 1 == g.modifiers.len() ==> next(Focus::Modifier(i)) == Focus::Output(0)
            &&& i + 1 < g.outputs.len() ==> next(Focus::Output(i)) == Focus::Output(
                (i + 1) as usize,
            )
            &&& i + 1 == g.outputs.len() ==> next(Focus::Output(i)) == Focus::Input(0)
            &&& 0 < i < g.modifiers.len() ==> back(Focus::Modifier(i)) == Focus::Modifier(
                (i - 1) as usize,
            )
        }),
{
    let g = a.graph;
    let n = a.node_count();
    let (p, q) = (g.inputs.len() as int, g.modifiers.len() as int);
    if i < g.inputs.len() {
        lemma_turn(i as int, n);
    }
    if i < g.modifiers.len() {
        lemma_turn(p + i, n);
    }
    if i < g.outputs.len() {
        lemma_turn(p + q + i, n);
    }
}

/// Shift and right widen the focused node, shift and left narrow it, up to the
/// widths that a node can have.
pub proof fn shifted_arrows_change_the_width(a: AppView, i: usize, right: Key, left: Key)
    requires
        a.mode is Normal,
        a.focus == Focus::Output(i) && i < a.graph.outputs.len(),
        16 <= a.graph.outputs[i as int].width <= 198,
        right.code == KeyCode::Right && right.shift_spec() && !right.control_spec(),
        left.code == KeyCode::Left && left.shift_spec() && !left.control_spec(),
    ensures
        ({
            let w = a.graph.outputs[i as int].width;
            let wide = a.handle_key(right, None, None);
            let narrow = a.handle_key(left, None, None);
            &&& wide is Some && (wide->0).0.graph.outputs[i as int].width == w + 2
            &&& narrow is Some && (narrow->0).0.graph.outputs[i as int].width == w - 2
        }),
{
}

/// Down in a picker goes to the option below and up to the one above, round at
/// the ends.
pub proof fn arrows_go_through_the_options(a: AppView, down: Key, up: Key)
    requires
        a.mode matches ModeView::Picker { options, selected, query, searching, .. } && !searching
            && selected < filtered(options, query).len() <= usize::MAX,
        down.code == KeyCode::Down && !down.control_spec(),
        up.code == KeyCode::Up && !up.control_spec(),
    ensures
        a.mode matches ModeView::Picker { options, selected, query, .. } && {
            let n = filtered(options, query).len() as int;
            let below = a.handle_key(down, None, None);
            let above = a.handle_key(up, None, None);
            &&& below is Some && ((below->0).0.mode matches ModeView::Picker { selected: s, .. }
                && s == (if selected + 1 < n {
                selected + 1
            } else {
                0
            }))
            &&& above is Some && ((above->0).0.mode matches ModeView::Picker { selected: s, .. }
                && s == (if selected > 0 {
                selected - 1
            } else {
                n - 1
            }))
        },
{
    if let ModeView::Picker { options, selected, query, .. } = a.mode {
        lemma_turn(selected as int, filtered(options, query).len() as int);
    }
}

/// In the chapter table down and up go through the rows, the one behind the
/// last chapter being the last, and right goes from the start to the end and
/// from the end to the title.
pub proof fn arrows_go_through_the_chapter_table(
    a: AppView,
    modifier: usize,
    row: usize,
    col: ChapterColumn,
    key: Key,
)
    requires
        a.mode == (ModeView::ChapterTable { modifier, row, col }),
        edit_chapters(a.graph, modifier) is Some,
        edit_chapters(a.graph, modifier)->0.len() < usize::MAX,
        !key.control_spec(),
    ensures
        ({
            let n = edit_chapters(a.graph, modifier)->0.len();
            let after = a.handle_key(key, None, None);
            let at = |r: int, c: ChapterColumn|
                after is Some && (after->0).0.mode == (ModeView::ChapterTable {
                    modifier,
                    row: r as usize,
                    col: c,
                });
            &&& key.code == KeyCode::Down && row < n ==> at(row + 1, col)
            &&& key.code == KeyCode::Down && row >= n ==> at(row as int, col)
            &&& key.code == KeyCode::Up && row > 0 ==> at(row - 1, col)
            &&& key.code == KeyCode::Right && col == ChapterColumn::Start ==> at(
                row as int,
                ChapterColumn::End,
            )
            &&& key.code == KeyCode::Right && col == ChapterColumn::End ==> at(
                row as int,
                ChapterColumn::Title,
            )
            &&& key.code == KeyCode::Left && col == ChapterColumn::Title ==> at(
                row as int,
                ChapterColumn::End,
            )
            &&& key.code == KeyCode::Left && col == ChapterColumn::End ==> at(
                row as int,
                ChapterColumn::Start,
            )
        }),
{
}

/// A page down shows later lines of the log and a page up earlier ones.
pub proof fn pages_go_through_the_log(a: AppView, start: usize, page: usize)
    requires
        a.log_scroll == Some(start),
        0 < page <= start,
        start + 2 * page < a.log.len() <= usize::MAX,
    ensures
        a.scroll_log(true, page).log_scroll == Some((start + page) as usize),
        a.scroll_log(false, page).log_scroll == Some((start - page) as usize),
        (AppView { log_scroll: None, ..a }).scroll_log(false, page).log_scroll == Some(
            (a.log.len() - 2 * page) as usize,
        ),
{
}

/// Right shows what stands further right of a node's text and of the log, and
/// left what stands further left.
pub proof fn texts_scroll_both_ways(
    a: AppView,
    title: Seq<char>,
    lines: Seq<Seq<char>>,
)
    requires
        8 <= a.log_hscroll < u16::MAX - 8,
        4 <= a.text_scroll,
    ensures
        a.scroll_log_horizontal(true).log_hscroll > a.log_hscroll,
        a.scroll_log_horizontal(false).log_hscroll < a.log_hscroll,
        a.scroll_node_text(false, title, lines).text_scroll < a.text_scroll,
{
}

// ---------------------------------------------------------------------
// Toggling
// ---------------------------------------------------------------------

/// Toggling a flag sets it where it was not set and takes it out where it was;
/// the others stay.
pub proof fn toggling_changes_one_flag(flags: Seq<Seq<char>>, flag: Seq<char>, other: Seq<char>)
    requires
        ascending(flags),
    ensures
        flag_toggle(flags, flag).contains(flag) <==> !flags.contains(flag),
        other != flag ==> (flag_toggle(flags, flag).contains(other) <==> flags.contains(other)),
{
    let t = flag_toggle(flags, flag);
    flag_toggle_twice(flags, flag);
    lemma_key_at(flags, flag);
    lemma_key_at(t, flag);
    lemma_rank_from(flags, flag, 0);
    match key_at(flags, flag) {
        Some(i) => {
            lemma_insert_contains(t, i, flag, other);
            assert(t.insert(i, flag) == flags);
        },
        None => {
            lemma_insert_contains(flags, rank(flags, flag), flag, other);
        },
    }
}

// ---------------------------------------------------------------------
// Typed paths
// ---------------------------------------------------------------------

/// A typed path is what is probed, saved to or loaded from, cleaned up, and
/// nothing is done with an empty one.
pub proof fn typed_path_is_asked_for(
    a: AppView,
    text: Seq<char>,
    home: Option<Seq<char>>,
    parsed: Option<SecondsView>,
)
    requires
        clean_path(text, home).len() > 0,
    ensures
        ({
            let path = clean_path(text, home);
            let asked = |t: TargetView| a.confirm_line(t, text, home, parsed).1;
            &&& asked(TargetView::NewInputPath) == RequestView::Probe(path)
            &&& asked(TargetView::SaveProjectPath) == RequestView::SaveProject(path)
            &&& asked(TargetView::LoadProjectPath) == RequestView::LoadProject(path)
            &&& a.confirm_line(TargetView::NewInputPath, text, home, parsed).0 == a
        }),
{
}

/// A loaded project takes the place of the graph, and nothing of the old one
/// is armed or selected any more. One that could not be loaded changes nothing.
pub proof fn loaded_project_replaces_the_graph(
    a: AppView,
    path: Seq<char>,
    l: LoadView,
    e: Seq<char>,
)
    ensures
        a.project_loaded(path, Ok(l)).graph == l.graph,
        a.project_loaded(path, Ok(l)).armed.len() == 0,
        a.project_loaded(path, Ok(l)).selected.len() == 0,
        a.project_loaded(path, Err(e)).graph == a.graph,
        a.project_loaded(path, Err(e)).armed == a.armed,
{
}

// ---------------------------------------------------------------------
// Scrubbing
// ---------------------------------------------------------------------

/// A trim node that a stream feeds is scrubbed in the file of that stream,
/// from the start that is set on it.
pub proof fn trim_is_scrubbed_in_the_file_that_feeds_it(
    a: AppView,
    i: usize,
    fields: Seq<Entry>,
    p: int,
    stream_idx: usize,
    at: int,
)
    requires
        a.graph.well_formed(),
        a.focus == Focus::Modifier(i) && i < a.graph.modifiers.len(),
        a.graph.modifiers[i as int].kind == (KindView::Filter { name: FilterName::Trim, fields }),
        0 <= p < a.graph.inputs.len(),
        stream_idx < a.graph.inputs[p].streams.len(),
        first_wire(
            a.graph.wires,
            at,
            Endpoint::Stream { node: a.graph.inputs[p].id, stream_idx },
            Target::ModifierIn(a.graph.modifiers[i as int].id),
        ),
        resolve_spec(
            a.graph,
            Endpoint::Stream { node: a.graph.inputs[p].id, stream_idx },
        ) is Some,
    ensures
        a.scrub_source() matches Ok(s) && s.modifier_id == a.graph.modifiers[i as int].id && s.path
            == a.graph.inputs[p].path && s.start == field_get(fields, "start"@),
{
    let g = a.graph;
    let from = Endpoint::Stream { node: g.inputs[p].id, stream_idx };
    lemma_input_at(g, p);
    lemma_first_wire(g.wires, at, from, Target::ModifierIn(g.modifiers[i as int].id), 0);
}

/// mpv scrubs wherever it is installed, in the terminal where there is no
/// display; ffplay does where there is a display and no mpv.
pub proof fn scrubbing_takes_the_player_that_is_there(display: bool, mpv: bool)
    ensures
        mpv ==> (scrub_player(display, mpv) matches Some(super::scrub::Player::Mpv { headless })
            && headless == !display),
        !mpv && display ==> scrub_player(display, mpv) == Some(super::scrub::Player::Ffplay),
        !mpv && !display ==> scrub_player(display, mpv) is None,
        playback(display, mpv) is Nothing <==> scrub_player(display, mpv) is None,
        playback(display, mpv) is Terminal <==> mpv && !display,
        playback(display, mpv) is Ffplay <==> display && !mpv,
{
}

/// While mpv is scrubbed, right and `l` go forward and left and `h` go back,
/// by a frame, or by a second with shift; `i` marks the start and `o` the end.
pub proof fn keys_scrub_their_way(a: AppView, key: Key)
    requires
        a.mode is Scrub,
        a.scrub matches Some(s) && s.backend is Mpv,
        !key.control_spec(),
    ensures
        ({
            let after = a.handle_key(key, None, None);
            let request = (after->0).1;
            &&& after is Some
            &&& key.code == KeyCode::Right && key.shift_spec() ==> request
                == RequestView::ScrubSeekRelative(true)
            &&& key.code == KeyCode::Left && key.shift_spec() ==> request
                == RequestView::ScrubSeekRelative(false)
            &&& key.code == KeyCode::Right && !key.shift_spec() ==> request
                == RequestView::ScrubStepFrame(true)
            &&& key.code == KeyCode::Left && !key.shift_spec() ==> request
                == RequestView::ScrubStepFrame(false)
            &&& key.code == KeyCode::Char('l') ==> request == RequestView::ScrubStepFrame(true)
            &&& key.code == KeyCode::Char('h') ==> request == RequestView::ScrubStepFrame(false)
            &&& key.code == KeyCode::Char(' ') ==> request == RequestView::ScrubPlayPause
            &&& key.code == KeyCode::Char('i') ==> request == RequestView::ScrubMark(true)
            &&& key.code == KeyCode::Char('o') ==> request == RequestView::ScrubMark(false)
            &&& key.code == KeyCode::Esc ==> request == RequestView::ScrubClose
                && (after->0).0.scrub is None && (after->0).0.mode is Normal
            &&& (after->0).0.graph == a.graph
        }),
{
}

// ---------------------------------------------------------------------
// Runs
// ---------------------------------------------------------------------

/// The lines of a run that do not end it, in order.
pub open spec fn told(lines: Seq<Seq<char>>) -> Seq<Seq<char>>
    decreases lines.len(),
{
    if lines.len() == 0 {
        Seq::empty()
    } else if starts_with_spec(lines[0], "__DONE__"@) {
        told(lines.drop_first())
    } else {
        seq![lines[0]] + told(lines.drop_first())
    }
}

proof fn lemma_told_behind(lines: Seq<Seq<char>>)
    requires
        lines.len() > 0,
    ensures
        told(lines) == told(lines.drop_last()) + (if starts_with_spec(lines.last(), "__DONE__"@) {
            Seq::empty()
        } else {
            seq![lines.last()]
        }),
    decreases lines.len(),
{
    if lines.len() == 1 {
        assert(lines.drop_last() == Seq::<Seq<char>>::empty());
        assert(lines.drop_first() == Seq::<Seq<char>>::empty());
        assert(told(lines.drop_first()) == Seq::<Seq<char>>::empty());
        assert(told(lines.drop_last()) == Seq::<Seq<char>>::empty());
    } else {
        lemma_told_behind(lines.drop_first());
        assert(lines.drop_first().drop_last() == lines.drop_last().drop_first());
        assert(lines.drop_first().last() == lines.last());
        assert(lines.drop_last()[0] == lines[0]);
    }
}

proof fn lemma_logged(log: Seq<Seq<char>>, lines: Seq<Seq<char>>, n: int)
    requires
        0 <= n <= lines.len(),
    ensures
        logged_upto(log, lines, n) == log + told(lines.take(n)),
    decreases n,
{
    if n > 0 {
        lemma_logged(log, lines, n - 1);
        lemma_told_behind(lines.take(n));
        assert(lines.take(n).drop_last() == lines.take(n - 1));
        assert(lines.take(n).last() == lines[n - 1]);
    } else {
        assert(lines.take(0) == Seq::<Seq<char>>::empty());
    }
}

proof fn lemma_no_end(lines: Seq<Seq<char>>, n: int)
    requires
        0 <= n <= lines.len(),
        forall|i: int| 0 <= i < n ==> !starts_with_spec(#[trigger] lines[i], "__DONE__"@),
    ensures
        exit_code_upto(lines, n) is None,
    decreases n,
{
    if n > 0 {
        lemma_no_end(lines, n - 1);
    }
}

/// What a run prints goes to the log, line behind line, and a run goes on
/// until the line comes that ends it.
pub proof fn printed_lines_go_to_the_log(a: AppView, lines: Seq<Seq<char>>)
    requires
        forall|i: int| 0 <= i < lines.len() ==> !starts_with_spec(#[trigger] lines[i], "__DONE__"@),
    ensures
        a.poll_ffmpeg(lines).log == a.log + told(lines),
        a.poll_ffmpeg(lines).running == a.running,
        a.poll_ffmpeg(lines).preview_ready == a.preview_ready,
{
    let n = lines.len() as int;
    lemma_logged(a.log, lines, n);
    lemma_no_end(lines, n);
    assert(lines.take(n) == lines);
}

/// The line that ends a run carries its exit code. A preview that ended well
/// is ready to be played, and one that did not is not.
pub proof fn ended_preview_is_ready(
    a: AppView,
    lines: Seq<Seq<char>>,
    code: Seq<char>,
    path: Seq<char>,
)
    requires
        lines.len() > 0,
        lines.last() == "__DONE__"@ + code,
        a.preview_target == Some(path),
        a.preview_ready is None,
    ensures
        ({
            let b = a.poll_ffmpeg(lines);
            &&& !b.running
            &&& b.preview_target is None
            &&& code == "0"@ ==> b.preview_ready == Some(path)
            &&& code != "0"@ ==> b.preview_ready is None
        }),
{
    let n = lines.len() as int;
    let last = lines[n - 1];
    let mark = "__DONE__"@;
    assert(last.subrange(0, mark.len() as int) == mark);
    assert(last.subrange(mark.len() as int, last.len() as int) == code);
    assert(starts_with_spec(last, done_mark()));
}

/// A run is shown in the log as the command line that it is, and the graph
/// stays as it is.
pub proof fn run_shows_its_command_line(
    a: AppView,
    files: Seq<crate::graph::args::ChapterFileView>,
    ns: Seq<crate::graph::node::NumeralView>,
)
    ensures
        a.run_render(files, ns).running,
        a.run_render(files, ns).log == a.log.push(command_line(ffmpeg_args(a.graph, files, ns))),
        a.run_render(files, ns).graph == a.graph,
{
}

/// The previewed output is the focused one.
pub proof fn preview_is_of_the_focused_output(
    a: AppView,
    i: usize,
    path: Seq<char>,
    files: Seq<crate::graph::args::ChapterFileView>,
    ns: Seq<crate::graph::node::NumeralView>,
)
    requires
        a.focus == Focus::Output(i) && i < a.graph.outputs.len(),
    ensures
        ({
            let id = a.graph.outputs[i as int].id;
            let args = crate::graph::args::preview_args(a.graph, id, path, 20, files, ns);
            let b = a.run_preview(path, files, ns);
            &&& args is Some ==> b.running && b.preview_target == Some(path)
            &&& args is None ==> b.running == a.running && b.preview_target == a.preview_target
        }),
{
}

} // verus!
