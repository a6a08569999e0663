//! What keys promise: which of them undo each other, what a key leaves alone,
//! and what a list shows.
use vstd::prelude::*;

use super::chapters::{column_moves_undo_each_other, fed_by_ports, sync_upto, table_len};
use super::connect::{first_kind, Joining};
use super::navigation::{max_scroll, longest, moved, resized, stepped, MAX_WIDTH, MIN_WIDTH};
use super::laws::{endpoint_ok, graph_sound, has_modifier, has_output, lemma_feeds_exist, target_ok};
use super::nodes::{beside, connect_all, connect_upto, lemma_connect_keeps_nodes, output_paths};
use super::picker::{filtered, filtered_upto, flags_of, shown};
use super::render::logged_upto;
use super::settings::lemma_kind;
use super::{AppView, EntryView, Focus, ModeView, RequestView, TargetView};
use crate::ffmpeg::done_mark;
use crate::fields::{ascending, flag_toggle, flag_toggle_twice};
use crate::graph::chapter::SecondsView;
use crate::graph::laws::{lemma_feed_skips, lemma_no_incoming, lemma_wire_from, wires_distinct};
use crate::graph::node::{KindView, ModifierNode, ModifierView, OutputNode, OutputView};
use crate::graph::resolve::feeds;
use crate::graph::wire::{endpoint_set_adds, endpoint_unset_drops, endpoints_off_input, from_input, in_range, input_unset_drops, range_set_adds, same_endpoints_same_set, Endpoint, NodeId, Target, Wire};
use crate::graph::{feed, incoming_spec, incoming_upto, kept_upto, lemma_kept, lemma_position, wires_off_ports, GraphView, Identified};
use crate::line::{Key, KeyCode};
use crate::paths::{copied_path, copied_path_is_free};
use crate::text::signed_decimal;

verus! {

// ---------------------------------------------------------------------
// Ports
// ---------------------------------------------------------------------

/// Space twice leaves the selection as it was.
pub proof fn space_twice_changes_no_selection(a: AppView)
    requires
        a.sound(),
    ensures
        a.toggle_port_selection().toggle_port_selection().selected == a.selected,
{
    if let Some(node) = a.focused_input() {
        let e = Endpoint::Stream { node: node.id, stream_idx: a.row_idx };
        let b = a.toggle_port_selection();
        endpoint_set_adds(a.selected, e);
        endpoint_unset_drops(a.selected, e);
        endpoint_set_adds(b.selected, e);
        endpoint_unset_drops(b.selected, e);
        let c = b.toggle_port_selection();
        if (a.row_idx as int) < node.streams.len() {
            assert forall|x: Endpoint| #[trigger] c.selected.contains(x) <==> a.selected.contains(
                x,
            ) by {
                assert(b.selected.contains(x) <==> (if x == e {
                    !a.selected.contains(e)
                } else {
                    a.selected.contains(x)
                }));
            }
            same_endpoints_same_set(c.selected, a.selected);
        }
    }
}

/// Control and 'a' selects every port of the focused input, and keeps what was
/// selected elsewhere.
pub proof fn select_all_adds_every_port(a: AppView, x: Endpoint)
    requires
        a.sound(),
        a.fits(),
        a.focused_input() is Some,
    ensures
        a.select_all_ports().selected.contains(x) <==> a.selected.contains(x) || in_range(
            x,
            a.focused_input()->0.id,
            0,
            a.focused_input()->0.streams.len() as int,
        ),
{
    let node = a.focused_input()->0;
    if let Focus::Input(i) = a.focus {
        assert(a.graph.inputs[i as int] == node);
    }
    range_set_adds(a.selected, node.id, 0, node.streams.len() as int);
}

/// A range selection selects of the focused input exactly the ports from where
/// it started to the cursor, also after it shrank, and touches no other
/// input's.
pub proof fn range_selection_is_exact(a: AppView, forward: bool, x: Endpoint)
    requires
        a.sound(),
        a.fits(),
        a.focused_input() is Some,
        a.focused_input()->0.streams.len() > 0,
    ensures
        ({
            let b = a.extend_port_selection(forward);
            let id = a.focused_input()->0.id;
            let anchor = b.selection_anchor->0;
            let (lo, hi) = if anchor <= b.row_idx {
                (anchor, b.row_idx)
            } else {
                (b.row_idx, anchor)
            };
            &&& b.selection_anchor is Some
            &&& a.selection_anchor is Some ==> anchor == a.selection_anchor->0
            &&& from_input(x, id) ==> (b.selected.contains(x) <==> in_range(x, id, lo as int, hi + 1))
            &&& !from_input(x, id) ==> (b.selected.contains(x) <==> a.selected.contains(x))
        }),
{
    let node = a.focused_input()->0;
    if let Focus::Input(i) = a.focus {
        assert(a.graph.inputs[i as int] == node);
    }
    let b = a.extend_port_selection(forward);
    let left = endpoints_off_input(a.selected, node.id, a.selected.len() as int);
    input_unset_drops(a.selected, node.id);
    let anchor = b.selection_anchor->0;
    if anchor <= b.row_idx {
        range_set_adds(left, node.id, anchor as int, b.row_idx + 1);
    } else {
        range_set_adds(left, node.id, b.row_idx as int, anchor + 1);
    }
}

proof fn lemma_joining_anchor(j: Joining, mid: NodeId, sources: Seq<Endpoint>, n: int)
    ensures
        j.upto(mid, sources, n).app.selection_anchor == j.app.selection_anchor,
    decreases n,
{
    if n > 0 {
        lemma_joining_anchor(j, mid, sources, n - 1);
    }
}

#[verifier::spinoff_prover]
proof fn lemma_connect_anchor(a: AppView)
    ensures
        a.toggle_connect().selection_anchor is None,
{
    let b = a.unanchored();
    if let Focus::Modifier(i) = b.focus {
        let id = b.graph.modifiers[i as int].id;
        let start = Joining {
            app: AppView { armed: Seq::empty(), ..b },
            kind: first_kind(b.graph, feeds(b.graph.wires, Target::ModifierIn(id)), 0),
            connected: 0,
        };
        lemma_joining_anchor(start, id, b.armed, b.armed.len() as int);
    }
}

#[verifier::spinoff_prover]
proof fn lemma_char_anchor(a: AppView, c: char, control: bool)
    requires
        a.selection_anchor is None,
    ensures
        a.graph_char(c, control).0.selection_anchor is None,
{
    lemma_connect_anchor(a);
}

#[verifier::spinoff_prover]
proof fn lemma_key_anchor(a: AppView, key: Key)
    requires
        a.selection_anchor is None,
        !a.extends_range(key),
        a.mode is Normal,
    ensures
        a.graph_key(key).0.selection_anchor is None,
{
    if let KeyCode::Char(c) = key.code {
        lemma_char_anchor(a, c, key.control_spec());
    }
}

#[verifier::spinoff_prover]
proof fn lemma_line_anchor(
    a: AppView,
    target: TargetView,
    text: Seq<char>,
    home: Option<Seq<char>>,
    parsed: Option<SecondsView>,
)
    requires
        a.selection_anchor is None,
    ensures
        a.confirm_line(target, text, home, parsed).0.selection_anchor is None,
{
}

#[verifier::spinoff_prover]
proof fn lemma_entry_anchor(a: AppView)
    requires
        a.selection_anchor is None,
    ensures
        a.picker_confirm().0.selection_anchor is None,
{
}

/// A range selection ends with every key but one that extends it: whatever
/// other key is pressed, the next range starts anew.
pub proof fn other_keys_end_a_range(
    a: AppView,
    key: Key,
    home: Option<Seq<char>>,
    parsed: Option<SecondsView>,
)
    requires
        !a.extends_range(key),
    ensures
        a.handle_key(key, home, parsed) matches Some((b, _)) ==> b.selection_anchor is None,
        forall|b: AppView, request: RequestView| #[trigger]
            a.settled(key).keyed(key, b, request) ==> b.selection_anchor is None,
{
    let b = a.settled(key);
    match b.mode {
        ModeView::Normal => {
            lemma_key_anchor(b, key);
        },
        ModeView::TextInput { target, line, .. } => {
            lemma_line_anchor(b.enter(ModeView::Normal), target, line.text, home, parsed);
        },
        ModeView::Picker { .. } => {
            lemma_entry_anchor(b);
        },
        _ => {},
    }
}

/// Cutting ports off leaves no wire that comes from them, and every other wire
/// where it was among the others.
pub proof fn disconnecting_cuts_the_ports(a: AppView)
    requires
        a.focused_input() is Some,
        a.selected.len() > 0,
    ensures
        a.disconnect_focused().graph.wires == a.graph.wires.filter(
            |w: Wire| !a.selected.contains(w.from),
        ),
        a.disconnect_focused().selected.len() == 0,
{
    let g = a.graph;
    let n = g.wires.len() as int;
    lemma_kept(g.wires, |w: Wire| !a.selected.contains(w.from), n);
    assert(g.wires.take(n) == g.wires);
    let affected = fed_by_ports(g, a.selected, n);
    lemma_sync_wires(
        GraphView { wires: wires_off_ports(g.wires, a.selected, n), ..g },
        affected,
        affected.len() as int,
    );
}

proof fn lemma_sync_wires(g: GraphView, ids: Seq<NodeId>, n: int)
    ensures
        sync_upto(g, ids, n).wires == g.wires,
    decreases n,
{
    if n > 0 {
        lemma_sync_wires(g, ids, n - 1);
    }
}

// ---------------------------------------------------------------------
// Lines
// ---------------------------------------------------------------------

/// Control and `y` right after Control and `k`, or after Control and `u` on a
/// line that is not empty, makes the text what it was, where no other cut went
/// just before.
pub proof fn what_was_cut_is_put_back(
    a: AppView,
    cut: Key,
    b: AppView,
    request: RequestView,
    back: Key,
    c: AppView,
    last: RequestView,
)
    requires
        a.mode matches ModeView::TextInput { line, .. } && line.cursor <= line.text.len()
            && !line.cutting,
        cut.modifiers == 2,
        cut.code == KeyCode::Char('k') || cut.code == KeyCode::Char('u') && a.typed_text()->0.len()
            > 0,
        a.keyed(cut, b, request),
        back == (Key { code: KeyCode::Char('y'), modifiers: 2 }),
        b.keyed(back, c, last),
    ensures
        c.typed_text() == a.typed_text(),
{
    if let ModeView::TextInput { line, .. } = a.mode {
        let k = cut.edit_spec()->0;
        let mid = line.edited(k);
        let n = line.text.len() as int;
        let at = line.cursor as int;
        assert(b.mode matches ModeView::TextInput { line: l, .. } && l == mid);
        if cut.code == KeyCode::Char('k') {
            assert(k.cuts_rest());
            assert(mid.text.subrange(0, at) + mid.cut + mid.text.subrange(at, at) =~= line.text);
        } else {
            assert(k.cuts_all());
            assert(mid.text.subrange(0, 0) + mid.cut + mid.text.subrange(0, 0) =~= line.text);
        }
    }
}

// ---------------------------------------------------------------------
// Rows and nodes
// ---------------------------------------------------------------------

proof fn lemma_same_incoming(a: Seq<Wire>, b: Seq<Wire>, to: Target, n: int)
    requires
        0 <= n <= a.len(),
        a.len() == b.len(),
        forall|k: int| 0 <= k < a.len() ==> (#[trigger] a[k]).to == b[k].to,
    ensures
        incoming_upto(a, to, n) == incoming_upto(b, to, n),
    decreases n,
{
    if n > 0 {
        lemma_same_incoming(a, b, to, n - 1);
        assert(a[n - 1].to == b[n - 1].to);
    }
}

proof fn lemma_incoming_at(wires: Seq<Wire>, to: Target, n: int)
    requires
        0 <= n <= wires.len(),
        wires.len() <= usize::MAX,
    ensures
        forall|i: int|
            #![trigger incoming_upto(wires, to, n)[i]]
            0 <= i < incoming_upto(wires, to, n).len() ==> incoming_upto(wires, to, n)[i] < n
                && wires[incoming_upto(wires, to, n)[i] as int].to == to,
    decreases n,
{
    if n > 0 {
        lemma_incoming_at(wires, to, n - 1);
        let p = incoming_upto(wires, to, n - 1);
        let q = incoming_upto(wires, to, n);
        assert forall|i: int| #![trigger q[i]] 0 <= i < q.len() implies q[i] < n
            && wires[q[i] as int].to == to by {
            if i < p.len() {
                assert(q[i] == p[i]);
            }
        }
    }
}

/// Moving a row past its neighbour and back leaves everything as it was.
pub proof fn moving_a_row_back_undoes_it(a: AppView, forward: bool)
    requires
        a.graph.wires.len() <= usize::MAX,
        a.move_focused_row(forward) != a,
    ensures
        a.move_focused_row(forward).move_focused_row(!forward) == a,
{
    let g = a.graph;
    let n = g.wires.len() as int;
    let b = a.move_focused_row(forward);
    let rows = a.movable_rows();
    let row = a.row_idx as int;
    let to = if forward {
        row + 1
    } else {
        row - 1
    };
    let target = match a.focus {
        Focus::Output(i) => Target::Output(g.outputs[i as int].id),
        Focus::Modifier(i) => Target::ModifierIn(g.modifiers[i as int].id),
        Focus::Input(_) => arbitrary(),
    };
    lemma_incoming_at(g.wires, target, n);
    let x = rows[row] as int;
    let y = rows[to] as int;
    assert(rows == incoming_spec(g.wires, target));
    assert(b.graph.wires == g.wires.update(x, g.wires[y]).update(y, g.wires[x]));
    assert(rows.len() <= n) by {
        lemma_incoming_len(g.wires, target, n);
    }
    lemma_same_incoming(b.graph.wires, g.wires, target, n);
    assert(b.movable_rows() == rows);
    assert(b.graph.swap_wires(y, x).wires == g.wires);
}

proof fn lemma_incoming_len(wires: Seq<Wire>, to: Target, n: int)
    ensures
        n >= 0 ==> incoming_upto(wires, to, n).len() <= n,
    decreases n,
{
    if n > 0 {
        lemma_incoming_len(wires, to, n - 1);
    }
}

/// Tab and Shift+Tab bring the focus back to the node it was on.
pub proof fn tab_there_and_back(a: AppView, forward: bool)
    requires
        a.sound(),
        a.fits(),
    ensures
        a.cycle_focus(forward).cycle_focus(!forward).focus == a.focus,
{
    let n = a.node_count();
    let cur = a.focus_index();
    let next = stepped(cur, n, forward);
    assert(0 <= cur < n);
    assert(next == (if forward {
        if cur + 1 == n {
            0
        } else {
            cur + 1
        }
    } else if cur == 0 {
        n - 1
    } else {
        cur - 1
    })) by (nonlinear_arith)
        requires
            0 <= cur < n,
            next == (if forward {
                (cur + 1) % n
            } else {
                (cur + n - 1) % n
            }),
    ;
    let b = a.cycle_focus(forward);
    assert(b.focus_index() == next);
    assert(b.node_count() == n);
    let back = stepped(next, n, !forward);
    assert(back == cur) by (nonlinear_arith)
        requires
            0 <= cur < n,
            next == (if forward {
                if cur + 1 == n {
                    0
                } else {
                    cur + 1
                }
            } else if cur == 0 {
                n - 1
            } else {
                cur - 1
            }),
            back == (if !forward {
                (next + 1) % n
            } else {
                (next + n - 1) % n
            }),
    ;
}

/// A node never leaves the canvas to the left or the top.
pub proof fn moving_stays_on_the_canvas(p: i64, d: int)
    ensures
        moved(p, d) >= 0,
{
}

/// Widening never goes beyond the limit, and narrowing always leaves room for
/// a title.
pub proof fn widths_stay_within_bounds(w: u16)
    ensures
        resized(w, true) <= MAX_WIDTH,
        resized(w, false) >= MIN_WIDTH,
        MIN_WIDTH <= w <= MAX_WIDTH ==> MIN_WIDTH <= resized(w, true) && resized(w, false)
            <= MAX_WIDTH,
{
}

/// Scrolling right stops where the longest line is shown to its end; scrolling
/// left only ever goes back.
pub proof fn scrolling_stops_at_the_end(
    a: AppView,
    title: Seq<char>,
    lines: Seq<Seq<char>>,
)
    requires
        a.focused_shape() is Some,
    ensures
        a.scroll_node_text(true, title, lines).text_scroll <= max_scroll(
            longest(title, lines, lines.len() as int),
            (a.focused_shape()->0).1,
        ),
        a.scroll_node_text(false, title, lines).text_scroll <= a.text_scroll,
{
}

/// Scrolling the log shows lines that are there and changes nothing else, and
/// scrolling it up never goes down.
pub proof fn log_scroll_stays_in_the_log(a: AppView, forward: bool, page: usize)
    requires
        page > 0,
        a.log_scroll matches Some(start) ==> (start as int) < a.log.len(),
        a.log.len() <= usize::MAX,
    ensures
        a.scroll_log(forward, page).log_scroll matches Some(start) ==> (start as int)
            < a.log.len(),
        a.scroll_log(forward, page) == (AppView {
            log_scroll: a.scroll_log(forward, page).log_scroll,
            ..a
        }),
        a.scroll_log(false, page).log_scroll matches Some(next) ==> (a.log_scroll matches Some(
            start,
        ) ==> next <= start),
{
}

/// A duplicated output writes to a file that no other output writes to.
pub proof fn duplicated_output_has_its_own_path(a: AppView, i: int, k: int)
    requires
        a.graph.well_formed(),
        a.graph.next_id < usize::MAX,
        0 <= i < a.graph.outputs.len(),
        0 <= k < a.graph.outputs.len(),
    ensures
        ({
            let h = a.graph.duplicate_output(i);
            &&& h.outputs.len() == a.graph.outputs.len() + 1
            &&& h.outputs.last().path != a.graph.outputs[k].path
            &&& h.outputs[k] == a.graph.outputs[k]
        }),
{
    let g = a.graph;
    let node = g.outputs[i];
    let taken = output_paths(g.outputs);
    copied_path_is_free(node.path, taken);
    assert(taken[k] == g.outputs[k].path);
    assert(taken.contains(taken[k]));
    let h = g.add_output();
    let n = g.outputs.len() as int;
    assert(h.outputs[n].id == g.next_id);
    lemma_position::<OutputNode>(h.outputs, g.next_id);
    let p = h.output_at(g.next_id)->0;
    if p < n {
        assert(h.outputs[p] == g.outputs[p]);
        assert(false);
    }
    let placed = h.set_output(
        n,
        OutputView {
            path: copied_path(node.path, taken),
            container: node.container,
            extra_args: node.extra_args,
            pos: beside(node.pos),
            width: node.width,
            ..h.outputs[n]
        },
    );
    let sources = feeds(g.wires, Target::Output(node.id));
    lemma_connect_keeps_nodes(
        placed,
        sources,
        Target::Output(g.next_id),
        sources.len() as int,
    );
    assert(g.duplicate_output(i).outputs == placed.outputs);
}

// ---------------------------------------------------------------------
// Pickers, lines and tables
// ---------------------------------------------------------------------

proof fn lemma_filtered(options: Seq<EntryView>, query: Seq<char>, n: int, i: usize)
    requires
        0 <= n <= options.len(),
        options.len() <= usize::MAX,
    ensures
        filtered_upto(options, query, n).contains(i) <==> i < n && shown(
            options[i as int],
            query,
        ),
    decreases n,
{
    if n > 0 {
        lemma_filtered(options, query, n - 1, i);
        let p = filtered_upto(options, query, n - 1);
        let q = filtered_upto(options, query, n);
        if p.contains(i) {
            let k = choose|k: int| 0 <= k < p.len() && p[k] == i;
            assert(q[k] == i);
        }
        if shown(options[n - 1], query) {
            assert(q[p.len() as int] == (n - 1) as usize);
        }
        if q.contains(i) {
            let k = choose|k: int| 0 <= k < q.len() && q[k] == i;
            if k < p.len() {
                assert(p[k] == i);
            }
        }
    }
}

/// A query shows exactly the options whose text holds it, whatever the case.
pub proof fn query_shows_exactly_the_matches(options: Seq<EntryView>, query: Seq<char>, i: usize)
    requires
        options.len() <= usize::MAX,
    ensures
        filtered(options, query).contains(i) <==> i < options.len() && shown(
            options[i as int],
            query,
        ),
{
    lemma_filtered(options, query, options.len() as int, i);
}

/// Moving through a picker stays among the options that are shown, and going
/// down and up again comes back.
pub proof fn picker_moves_among_what_is_shown(a: AppView, delta: int)
    requires
        a.mode matches ModeView::Picker { options, selected, query, .. } && selected < filtered(
            options,
            query,
        ).len() <= usize::MAX,
    ensures
        a.picker_move(delta).mode matches ModeView::Picker { options, selected, query, .. }
            && selected < filtered(options, query).len(),
        a.picker_move(1).picker_move(-1) == a,
{
    if let ModeView::Picker { options, selected, query, .. } = a.mode {
        let n = filtered(options, query).len() as int;
        vstd::arithmetic::div_mod::lemma_mod_bound(selected + delta, n);
        assert((if selected + 1 == n {
            0
        } else {
            selected + 1
        }) == (selected + 1) % n) by (nonlinear_arith)
            requires
                0 <= selected < n,
        ;
        let next = (selected + 1) % n;
        assert((next - 1) % n == selected) by (nonlinear_arith)
            requires
                0 <= selected < n,
                next == (if selected + 1 == n {
                    0
                } else {
                    selected + 1
                }),
        ;
    }
}

/// Toggling a disposition flag twice leaves the graph as it was.
pub proof fn flag_toggled_twice_is_as_before(a: AppView, modifier: NodeId, flag: Seq<char>)
    requires
        flags_of(a.graph, modifier) is Some,
        ascending(flags_of(a.graph, modifier)->0),
    ensures
        a.toggle_flag(modifier, flag).toggle_flag(modifier, flag).graph == a.graph,
{
    let flags = flags_of(a.graph, modifier)->0;
    flag_toggle_twice(flags, flag);
    let kind = KindView::Disposition { flags: flag_toggle(flags, flag) };
    lemma_kind(a.graph, modifier, kind);
    lemma_position::<ModifierNode>(a.graph.modifiers, modifier);
    let b = a.toggle_flag(modifier, flag);
    lemma_position::<ModifierNode>(b.graph.modifiers, modifier);
    let i = a.graph.modifier_at(modifier)->0;
    let j = b.graph.modifier_at(modifier)->0;
    assert(b.graph.modifiers[i].id == modifier);
    if j < i {
        assert(b.graph.modifiers[j] == a.graph.modifiers[j]);
    }
    let c = b.toggle_flag(modifier, flag);
    assert(c.graph.modifiers == a.graph.modifiers);
}

/// Esc drops what was typed and changes nothing else.
pub proof fn cancelling_changes_the_mode_alone(a: AppView)
    ensures
        a.cancel_text_input() == a.enter(a.cancel_text_input().mode),
{
}

/// In the chapter table Shift+Tab undoes Tab.
pub proof fn tabbing_back_undoes_tabbing(a: AppView)
    requires
        a.mode matches ModeView::ChapterTable { modifier, row, .. } && row < table_len(
            a.graph,
            modifier,
        ) <= usize::MAX,
    ensures
        a.chapter_table_tab(true).chapter_table_tab(false) == a,
{
    if let ModeView::ChapterTable { col, .. } = a.mode {
        column_moves_undo_each_other(col);
    }
}

proof fn lemma_logged_prefix(
    log: Seq<Seq<char>>,
    lines: Seq<Seq<char>>,
    last: Seq<char>,
    n: int,
)
    requires
        0 <= n <= lines.len(),
    ensures
        logged_upto(log, lines.push(last), n) == logged_upto(log, lines, n),
    decreases n,
{
    if n > 0 {
        lemma_logged_prefix(log, lines, last, n - 1);
    }
}

/// The line that `done_line` makes ends a run with the exit code that it was
/// made of: what was printed before it is logged, and it is not.
pub proof fn done_line_ends_the_run(a: AppView, lines: Seq<Seq<char>>, code: int)
    ensures
        ({
            let n = lines.len() as int;
            let b = a.poll_ffmpeg(lines.push(done_mark() + signed_decimal(code)));
            &&& !b.running
            &&& b == (AppView { log: logged_upto(a.log, lines, n), ..a }).ffmpeg_done(
                signed_decimal(code),
            )
        }),
{
    let last = done_mark() + signed_decimal(code);
    let k = done_mark().len() as int;
    assert(last.subrange(0, k) == done_mark());
    assert(last.subrange(k, last.len() as int) == signed_decimal(code));
    lemma_logged_prefix(a.log, lines, last, lines.len() as int);
}

/// While ffmpeg runs, neither a render nor a preview is started.
pub proof fn one_job_at_a_time(a: AppView)
    requires
        a.running,
    ensures
        a.start_render().1 == RequestView::Nothing,
        a.start_preview().1 == RequestView::Nothing,
{
}

// ---------------------------------------------------------------------
// Duplicates
// ---------------------------------------------------------------------

/// The wires from some sources to a target.
spec fn wires_into(sources: Seq<Endpoint>, to: Target, n: int) -> Seq<Wire> {
    Seq::new(n as nat, |k: int| Wire { from: sources[k], to })
}

spec fn arrives_nowhere(wires: Seq<Wire>, to: Target) -> bool {
    forall|k: int| 0 <= k < wires.len() ==> (#[trigger] wires[k]).to != to
}

proof fn lemma_keep_all(wires: Seq<Wire>, keep: spec_fn(Wire) -> bool, n: int)
    requires
        0 <= n <= wires.len(),
        forall|k: int| 0 <= k < n ==> keep(#[trigger] wires[k]),
    ensures
        kept_upto(wires, keep, n) == wires.take(n),
    decreases n,
{
    if n > 0 {
        lemma_keep_all(wires, keep, n - 1);
        assert(wires.take(n) == wires.take(n - 1).push(wires[n - 1]));
    } else {
        assert(wires.take(0) == Seq::<Wire>::empty());
    }
}

/// Connecting to a target that nothing arrives at adds the wire behind the
/// others.
proof fn lemma_connect_first(g: GraphView, from: Endpoint, to: Target)
    requires
        arrives_nowhere(g.wires, to),
    ensures
        g.connect(from, to).wires == g.wires.push(Wire { from, to }),
{
    let n = g.wires.len() as int;
    lemma_wire_from(g.wires, Wire { from, to }, 0);
    lemma_keep_all(g.wires, |w: Wire| w.to != to, n);
    assert(g.wires.take(n) == g.wires);
}

proof fn lemma_connect_fresh(g: GraphView, sources: Seq<Endpoint>, to: Target, n: int)
    requires
        0 <= n <= sources.len(),
        arrives_nowhere(g.wires, to),
        sources.no_duplicates(),
        g.single_wire(to) ==> sources.len() <= 1,
    ensures
        connect_upto(g, sources, to, n).wires == g.wires + wires_into(sources, to, n),
    decreases n,
{
    if n > 0 {
        lemma_connect_fresh(g, sources, to, n - 1);
        lemma_connect_keeps_nodes(g, sources, to, n - 1);
        let h = connect_upto(g, sources, to, n - 1);
        let w = Wire { from: sources[n - 1], to };
        if n == 1 {
            assert(h.wires == g.wires);
            lemma_connect_first(h, sources[0], to);
        } else {
            lemma_wire_from(h.wires, w, 0);
            assert forall|k: int| 0 <= k < h.wires.len() implies h.wires[k] != w by {
                if k < g.wires.len() {
                    assert(g.wires[k].to != to);
                } else {
                    assert(sources[k - g.wires.len()] != sources[n - 1]);
                }
            }
            assert(h.single_wire(to) == g.single_wire(to));
        }
        assert((g.wires + wires_into(sources, to, n - 1)).push(w) == g.wires + wires_into(
            sources,
            to,
            n,
        ));
    } else {
        assert(g.wires + wires_into(sources, to, 0) == g.wires);
    }
}

proof fn lemma_fresh_incoming(wires: Seq<Wire>, sources: Seq<Endpoint>, to: Target, k: int)
    requires
        arrives_nowhere(wires, to),
        0 <= k <= sources.len(),
    ensures
        incoming_upto(
            wires + wires_into(sources, to, sources.len() as int),
            to,
            wires.len() + k,
        ) == Seq::new(k as nat, |i: int| (wires.len() + i) as usize),
    decreases k,
{
    let all = wires + wires_into(sources, to, sources.len() as int);
    let n = wires.len() as int;
    if k > 0 {
        lemma_fresh_incoming(wires, sources, to, k - 1);
        assert(all[n + k - 1].to == to);
        assert(Seq::new(k as nat, |i: int| (n + i) as usize) == Seq::new(
            (k - 1) as nat,
            |i: int| (n + i) as usize,
        ).push((n + k - 1) as usize));
    } else {
        assert forall|i: int| 0 <= i < n implies (#[trigger] all[i]).to != to by {
            assert(all[i] == wires[i]);
        }
        lemma_no_incoming(all, to, n);
        assert(Seq::new(0, |i: int| (n + i) as usize) == Seq::<usize>::empty());
    }
}

proof fn lemma_fresh_feeds(wires: Seq<Wire>, sources: Seq<Endpoint>, to: Target)
    requires
        arrives_nowhere(wires, to),
        wires.len() + sources.len() <= usize::MAX,
    ensures
        feeds(wires + wires_into(sources, to, sources.len() as int), to) == sources,
{
    let all = wires + wires_into(sources, to, sources.len() as int);
    lemma_fresh_incoming(wires, sources, to, sources.len() as int);
    assert(all.len() == wires.len() + sources.len());
    assert(feeds(all, to) == sources);
}

proof fn lemma_incoming_ascend(wires: Seq<Wire>, to: Target, n: int)
    requires
        0 <= n <= wires.len(),
        wires.len() <= usize::MAX,
    ensures
        forall|i: int, j: int|
            0 <= i < j < incoming_upto(wires, to, n).len() ==> #[trigger] incoming_upto(
                wires,
                to,
                n,
            )[i] < #[trigger] incoming_upto(wires, to, n)[j],
    decreases n,
{
    if n > 0 {
        lemma_incoming_ascend(wires, to, n - 1);
        lemma_incoming_at(wires, to, n - 1);
        let p = incoming_upto(wires, to, n - 1);
        let q = incoming_upto(wires, to, n);
        assert forall|i: int, j: int| 0 <= i < j < q.len() implies #[trigger] q[i]
            < #[trigger] q[j] by {
            assert(q[i] == p[i]);
            if j < p.len() {
                assert(q[j] == p[j]);
            }
        }
    }
}

/// No source feeds a target twice.
proof fn lemma_feeds_distinct(wires: Seq<Wire>, to: Target)
    requires
        wires_distinct(wires),
        wires.len() <= usize::MAX,
    ensures
        feeds(wires, to).no_duplicates(),
        feeds(wires, to).len() <= wires.len(),
{
    let n = wires.len() as int;
    let at = incoming_spec(wires, to);
    let s = feeds(wires, to);
    lemma_incoming_at(wires, to, n);
    lemma_incoming_ascend(wires, to, n);
    lemma_incoming_len(wires, to, n);
    assert forall|i: int, j: int| 0 <= i < s.len() && 0 <= j < s.len() && i != j implies s[i]
        != s[j] by {
        let x = at[i] as int;
        let y = at[j] as int;
        if i < j {
            assert(at[i] < at[j]);
            assert(wires[x] != wires[y]);
        } else {
            assert(at[j] < at[i]);
            assert(wires[y] != wires[x]);
        }
        assert(wires[x].to == to && wires[y].to == to);
    }
}

/// Whatever was wired to an id that has not been handed out yet is wired to
/// nothing.
proof fn lemma_fresh_id(g: GraphView)
    requires
        graph_sound(g),
    ensures
        arrives_nowhere(g.wires, Target::ModifierIn(g.next_id)),
        arrives_nowhere(g.wires, Target::Output(g.next_id)),
        arrives_nowhere(g.wires, Target::OutputChapters(g.next_id)),
        forall|e: Endpoint| #[trigger]
            endpoint_ok(g, e) ==> e != Endpoint::ModifierOut(g.next_id),
{
    assert forall|k: int| 0 <= k < g.wires.len() implies (#[trigger] g.wires[k]).to
        != Target::ModifierIn(g.next_id) && g.wires[k].to != Target::Output(g.next_id)
        && g.wires[k].to != Target::OutputChapters(g.next_id) by {
        assert(g.wires.contains(g.wires[k]));
        assert(target_ok(g, g.wires[k].to));
        if has_modifier(g, g.next_id) {
            let i = choose|i: int|
                0 <= i < g.modifiers.len() && (#[trigger] g.modifiers[i]).id == g.next_id;
            assert(ModifierNode::tag(g.modifiers[i]) < g.next_id);
        }
        if has_output(g, g.next_id) {
            let i = choose|i: int|
                0 <= i < g.outputs.len() && (#[trigger] g.outputs[i]).id == g.next_id;
            assert(OutputNode::tag(g.outputs[i]) < g.next_id);
        }
    }
    assert forall|e: Endpoint| #[trigger] endpoint_ok(g, e) implies e != Endpoint::ModifierOut(
        g.next_id,
    ) by {
        if has_modifier(g, g.next_id) {
            let i = choose|i: int|
                0 <= i < g.modifiers.len() && (#[trigger] g.modifiers[i]).id == g.next_id;
            assert(ModifierNode::tag(g.modifiers[i]) < g.next_id);
        }
    }
}

/// A duplicated modifier is fed by what feeds the original, in the same order,
/// and feeds nothing.
pub proof fn duplicated_modifier_shares_its_sources(a: AppView, i: int)
    requires
        a.sound(),
        a.fits(),
        0 <= i < a.graph.modifiers.len(),
        2 * a.graph.wires.len() <= usize::MAX,
    ensures
        ({
            let h = a.graph.duplicate_modifier(i);
            let new = a.graph.next_id;
            &&& feeds(h.wires, Target::ModifierIn(new)) == feeds(
                a.graph.wires,
                Target::ModifierIn(a.graph.modifiers[i].id),
            )
            &&& forall|k: int|
                0 <= k < h.wires.len() ==> (#[trigger] h.wires[k]).from != Endpoint::ModifierOut(
                    new,
                )
            &&& h.wires.take(a.graph.wires.len() as int) == a.graph.wires
        }),
{
    let g = a.graph;
    let node = g.modifiers[i];
    let new = g.next_id;
    let to = Target::ModifierIn(new);
    let sources = feeds(g.wires, Target::ModifierIn(node.id));
    lemma_fresh_id(g);
    lemma_feeds_distinct(g.wires, Target::ModifierIn(node.id));
    lemma_feeds_exist(g, Target::ModifierIn(node.id));
    let h = g.add_modifier(node.kind);
    let n = g.modifiers.len() as int;
    lemma_position::<ModifierNode>(h.modifiers, new);
    assert(h.modifiers[n].id == new);
    let p = h.modifier_at(new)->0;
    if p < n {
        assert(h.modifiers[p] == g.modifiers[p]);
        assert(ModifierNode::tag(g.modifiers[p]) < new);
    }
    let placed = h.set_modifier(
        n,
        ModifierView { pos: beside(node.pos), width: node.width, ..h.modifiers[n] },
    );
    lemma_position::<ModifierNode>(placed.modifiers, new);
    assert(placed.modifiers[n].id == new);
    let q = placed.modifier_at(new)->0;
    if q < n {
        assert(placed.modifiers[q] == g.modifiers[q]);
        assert(ModifierNode::tag(g.modifiers[q]) < new);
    }
    assert(placed.modifier(new) == Some(placed.modifiers[n]));
    let from = Target::ModifierIn(node.id);
    lemma_position::<ModifierNode>(g.modifiers, node.id);
    let k = g.modifier_at(node.id)->0;
    assert(ModifierNode::tag(g.modifiers[i]) == node.id);
    if k < i {
        assert(ModifierNode::tag(g.modifiers[k]) != ModifierNode::tag(g.modifiers[i]));
    }
    assert(g.single_wire(from) == placed.single_wire(to));
    lemma_connect_fresh(placed, sources, to, sources.len() as int);
    lemma_fresh_feeds(g.wires, sources, to);
    let d = g.duplicate_modifier(i);
    assert(d.wires == g.wires + wires_into(sources, to, sources.len() as int));
    assert forall|k: int| 0 <= k < d.wires.len() implies (#[trigger] d.wires[k]).from
        != Endpoint::ModifierOut(new) by {
        if k < g.wires.len() {
            assert(d.wires[k] == g.wires[k]);
            assert(g.wires.contains(g.wires[k]));
            assert(endpoint_ok(g, g.wires[k].from));
        } else {
            assert(sources.contains(sources[k - g.wires.len()]));
            assert(endpoint_ok(g, sources[k - g.wires.len()]));
        }
    }
    assert(d.wires.take(g.wires.len() as int) == g.wires);
}

/// A duplicated output is fed by what feeds the original, in the same order,
/// its chapters too.
pub proof fn duplicated_output_shares_its_sources(a: AppView, i: int)
    requires
        a.sound(),
        a.fits(),
        0 <= i < a.graph.outputs.len(),
        2 * a.graph.wires.len() < usize::MAX,
    ensures
        ({
            let h = a.graph.duplicate_output(i);
            let new = a.graph.next_id;
            let old_id = a.graph.outputs[i].id;
            &&& feeds(h.wires, Target::Output(new)) == feeds(a.graph.wires, Target::Output(old_id))
            &&& feed(h.wires, Target::OutputChapters(new)) == feed(
                a.graph.wires,
                Target::OutputChapters(old_id),
            )
            &&& h.wires.take(a.graph.wires.len() as int) == a.graph.wires
        }),
{
    let g = a.graph;
    let node = g.outputs[i];
    let new = g.next_id;
    let to = Target::Output(new);
    let slot = Target::OutputChapters(new);
    let sources = feeds(g.wires, Target::Output(node.id));
    lemma_fresh_id(g);
    lemma_feeds_distinct(g.wires, Target::Output(node.id));
    let h = g.add_output();
    let n = g.outputs.len() as int;
    lemma_position::<OutputNode>(h.outputs, new);
    assert(h.outputs[n].id == new);
    let p = h.output_at(new)->0;
    if p < n {
        assert(h.outputs[p] == g.outputs[p]);
        assert(OutputNode::tag(g.outputs[p]) < new);
    }
    let placed = h.set_output(
        n,
        OutputView {
            path: copied_path(node.path, output_paths(g.outputs)),
            container: node.container,
            extra_args: node.extra_args,
            pos: beside(node.pos),
            width: node.width,
            ..h.outputs[n]
        },
    );
    lemma_connect_fresh(placed, sources, to, sources.len() as int);
    lemma_fresh_feeds(g.wires, sources, to);
    let wired = connect_all(placed, sources, to);
    assert(wired.wires == g.wires + wires_into(sources, to, sources.len() as int));
    assert(arrives_nowhere(wired.wires, slot)) by {
        assert forall|k: int| 0 <= k < wired.wires.len() implies (#[trigger] wired.wires[k]).to
            != slot by {
            if k < g.wires.len() {
                assert(wired.wires[k] == g.wires[k]);
            }
        }
    }
    let d = g.duplicate_output(i);
    let m = wired.wires.len() as int;
    match feed(g.wires, Target::OutputChapters(node.id)) {
        Some(from) => {
            lemma_connect_first(wired, from, slot);
            assert(d.wires == wired.wires.push(Wire { from, to: slot }));
            lemma_feed_skips(d.wires, slot, 0, m);
            lemma_prefix_incoming(wired.wires, d.wires, to, m);
            assert(incoming_spec(d.wires, to) == incoming_spec(wired.wires, to));
            lemma_incoming_at(wired.wires, to, m);
            assert(feeds(d.wires, to) == feeds(wired.wires, to));
        },
        None => {
            assert(d.wires == wired.wires);
            lemma_feed_skips(d.wires, slot, 0, m);
        },
    }
    assert(d.wires.take(g.wires.len() as int) == g.wires);
}

proof fn lemma_prefix_incoming(a: Seq<Wire>, b: Seq<Wire>, to: Target, n: int)
    requires
        0 <= n <= a.len(),
        n <= b.len(),
        forall|k: int| 0 <= k < n ==> #[trigger] a[k] == b[k],
    ensures
        incoming_upto(a, to, n) == incoming_upto(b, to, n),
    decreases n,
{
    if n > 0 {
        lemma_prefix_incoming(a, b, to, n - 1);
        assert(a[n - 1] == b[n - 1]);
    }
}

} // verus!
