//! Moving the focus, the selection and the nodes, and scrolling.
use vstd::prelude::*;

use super::{App, AppView, Focus};
use crate::graph::node::{InputView, KindView, ModifierKind, ModifierView, OutputView};
use crate::graph::wire::{endpoint_set, endpoint_set_range, endpoints_except, endpoints_off_input, Endpoint, NodeId, Target};
use crate::graph::{incoming_spec, outgoing_spec};
use crate::text::{chars_of, group_views, views};

verus! {

// ---------------------------------------------------------------------
// Nodes and rows
// ---------------------------------------------------------------------

/// The position after `cur` of `n`, or before it, round and round.
pub open spec fn stepped(cur: int, n: int, forward: bool) -> int {
    if forward {
        (cur + 1) % n
    } else {
        (cur + n - 1) % n
    }
}

impl AppView {
    /// Tab or Shift+Tab: the next or previous node.
    pub open spec fn cycle_focus(self, forward: bool) -> AppView {
        self.set_focus_index(stepped(self.focus_index(), self.node_count(), forward))
    }

    /// How many rows the focused node has: the streams of an input; the
    /// segments of a concat node and the outgoing connections of any
    /// modifier; the mapped streams of an output and one more where its
    /// chapters are connected.
    pub open spec fn row_count(self) -> int {
        let g = self.graph;
        match self.focus {
            Focus::Input(i) => if (i as int) < g.inputs.len() {
                g.inputs[i as int].streams.len() as int
            } else {
                0
            },
            Focus::Modifier(i) => if (i as int) < g.modifiers.len() {
                let m = g.modifiers[i as int];
                let segments = if m.kind == KindView::Concat {
                    incoming_spec(g.wires, Target::ModifierIn(m.id)).len()
                } else {
                    0
                };
                (segments + outgoing_spec(g.wires, Endpoint::ModifierOut(m.id)).len()) as int
            } else {
                0
            },
            Focus::Output(i) => if (i as int) < g.outputs.len() {
                let id = g.outputs[i as int].id;
                let chapters: nat = if incoming_spec(g.wires, Target::OutputChapters(id)).len()
                    > 0 {
                    1
                } else {
                    0
                };
                (incoming_spec(g.wires, Target::Output(id)).len() + chapters) as int
            } else {
                0
            },
        }
    }

    /// Up or Down: the next or previous row of the focused node. It ends a
    /// range selection.
    pub open spec fn cycle_row(self, forward: bool) -> AppView {
        let n = self.row_count();
        if n == 0 {
            self
        } else {
            AppView {
                row_idx: stepped(self.row_idx as int, n, forward) as usize,
                selection_anchor: None,
                ..self
            }
        }
    }
}

impl App {
    /// Tab or Shift+Tab: focuses the next or previous node.
    pub fn cycle_focus(&mut self, forward: bool)
        requires
            old(self)@.node_count() > 0,
        ensures
            final(self)@ == old(self)@.cycle_focus(forward),
    {
        let n: u128 = self.node_count();
        let cur: u128 = self.focus_index();
        let next: u128 = if forward {
            (cur + 1) % n
        } else {
            (cur + n - 1) % n
        };
        self.set_focus_index(next);
    }

    /// How many rows the focused node has.
    pub fn row_count(&self) -> (r: u128)
        ensures
            r == self@.row_count(),
            r <= 2 * usize::MAX,
    {
        match self.focus {
            Focus::Input(i) => if i < self.graph.inputs.len() {
                self.graph.inputs[i].streams.len() as u128
            } else {
                0
            },
            Focus::Modifier(i) => if i < self.graph.modifiers.len() {
                assert(self@.graph.modifiers[i as int] == self.graph.modifiers@[i as int]@);
                let id: NodeId = self.graph.modifiers[i].id;
                let segments: u128 = match &self.graph.modifiers[i].kind {
                    ModifierKind::Concat => self.graph.incoming(
                        Target::ModifierIn(id),
                    ).len() as u128,
                    _ => 0,
                };
                segments + self.graph.outgoing(Endpoint::ModifierOut(id)).len() as u128
            } else {
                0
            },
            Focus::Output(i) => if i < self.graph.outputs.len() {
                let id: NodeId = self.graph.outputs[i].id;
                let mapped: u128 = self.graph.incoming(Target::Output(id)).len() as u128;
                if self.graph.incoming(Target::OutputChapters(id)).len() > 0 {
                    mapped + 1
                } else {
                    mapped
                }
            } else {
                0
            },
        }
    }

    /// Up or Down: selects the next or previous row of the focused node.
    pub fn cycle_row(&mut self, forward: bool)
        ensures
            final(self)@ == old(self)@.cycle_row(forward),
    {
        let n: u128 = self.row_count();
        if n == 0 {
            return;
        }
        let cur: u128 = self.row_idx as u128;
        let row: u128 = if forward {
            (cur + 1) % n
        } else {
            (cur + n - 1) % n
        };
        self.row_idx = row as usize;
        self.selection_anchor = None;
    }
}

// ---------------------------------------------------------------------
// Selecting ports
// ---------------------------------------------------------------------

impl AppView {
    /// The focused input, if an input is focused.
    pub open spec fn focused_input(self) -> Option<InputView> {
        match self.focus {
            Focus::Input(i) => if (i as int) < self.graph.inputs.len() {
                Some(self.graph.inputs[i as int])
            } else {
                None
            },
            _ => None,
        }
    }

    /// Space: the port under the cursor into the selection, or out of it.
    pub open spec fn toggle_port_selection(self) -> AppView {
        match self.focused_input() {
            Some(node) => if (self.row_idx as int) < node.streams.len() {
                let e = Endpoint::Stream { node: node.id, stream_idx: self.row_idx };
                AppView {
                    selection_anchor: None,
                    selected: if self.selected.contains(e) {
                        endpoints_except(self.selected, e, self.selected.len() as int)
                    } else {
                        endpoint_set(self.selected, e)
                    },
                    ..self
                }
            } else {
                self
            },
            None => self,
        }
    }

    /// Control and 'a': every port of the focused input into the selection.
    pub open spec fn select_all_ports(self) -> AppView {
        match self.focused_input() {
            Some(node) => AppView {
                selection_anchor: None,
                selected: endpoint_set_range(
                    self.selected,
                    node.id,
                    0,
                    node.streams.len() as int,
                ),
                ..self
            },
            None => self,
        }
    }

    /// Shift+Up or Shift+Down: moves the cursor without wrapping, and selects
    /// of the focused input exactly the ports from where the range started to
    /// the cursor. What is selected of other inputs stays.
    pub open spec fn extend_port_selection(self, forward: bool) -> AppView {
        match self.focused_input() {
            Some(node) => if node.streams.len() == 0 {
                self
            } else {
                let anchor = match self.selection_anchor {
                    Some(a) => a,
                    None => self.row_idx,
                };
                let last = node.streams.len() - 1;
                let row = if forward {
                    if self.row_idx < last {
                        self.row_idx + 1
                    } else {
                        last
                    }
                } else if self.row_idx > 0 {
                    self.row_idx - 1
                } else {
                    0
                };
                let (lo, hi) = if anchor <= row {
                    (anchor as int, row)
                } else {
                    (row, anchor as int)
                };
                AppView {
                    row_idx: row as usize,
                    selection_anchor: Some(anchor),
                    selected: endpoint_set_range(
                        endpoints_off_input(self.selected, node.id, self.selected.len() as int),
                        node.id,
                        lo,
                        hi + 1,
                    ),
                    ..self
                }
            },
            None => self,
        }
    }
}

impl App {
    /// Space: takes the port under the cursor into the selection, or out of
    /// it.
    pub fn toggle_port_selection(&mut self)
        ensures
            final(self)@ == old(self)@.toggle_port_selection(),
    {
        if let Focus::Input(i) = self.focus {
            if i < self.graph.inputs.len() && self.row_idx < self.graph.inputs[i].streams.len() {
                let e = Endpoint::Stream {
                    node: self.graph.inputs[i].id,
                    stream_idx: self.row_idx,
                };
                self.selection_anchor = None;
                if self.selected.contains(e) {
                    self.selected.remove(e);
                } else {
                    self.selected.insert(e);
                }
            }
        }
    }

    /// Control and 'a': takes every port of the focused input into the
    /// selection.
    pub fn select_all_ports(&mut self)
        ensures
            final(self)@ == old(self)@.select_all_ports(),
    {
        if let Focus::Input(i) = self.focus {
            if i < self.graph.inputs.len() {
                self.selection_anchor = None;
                let id: NodeId = self.graph.inputs[i].id;
                let n: usize = self.graph.inputs[i].streams.len();
                self.selected.insert_range(id, 0, n);
            }
        }
    }

    /// Shift+Up or Shift+Down: extends the selection as a range from where it
    /// started to the row now under the cursor.
    pub fn extend_port_selection(&mut self, forward: bool)
        ensures
            final(self)@ == old(self)@.extend_port_selection(forward),
    {
        if let Focus::Input(i) = self.focus {
            if i < self.graph.inputs.len() {
                let n: usize = self.graph.inputs[i].streams.len();
                if n == 0 {
                    return;
                }
                let id: NodeId = self.graph.inputs[i].id;
                let anchor: usize = match self.selection_anchor {
                    Some(a) => a,
                    None => self.row_idx,
                };
                self.selection_anchor = Some(anchor);
                let row: usize = if forward {
                    if self.row_idx < n - 1 {
                        self.row_idx + 1
                    } else {
                        n - 1
                    }
                } else if self.row_idx > 0 {
                    self.row_idx - 1
                } else {
                    0
                };
                self.row_idx = row;
                let (lo, hi): (usize, usize) = if anchor <= row {
                    (anchor, row)
                } else {
                    (row, anchor)
                };
                self.selected.remove_input(id);
                self.selected.insert_range(id, lo, hi);
                self.selected.insert(Endpoint::Stream { node: id, stream_idx: hi });
            }
        }
    }
}

// ---------------------------------------------------------------------
// Moving, widening and scrolling a node
// ---------------------------------------------------------------------

/// How far a key moves a node.
pub const MOVE_STEP: i64 = 2;

/// How far a key widens a node.
pub const WIDTH_STEP: u16 = 2;

/// A node is never narrower than this: there is room for a title.
pub const MIN_WIDTH: u16 = 14;

/// Widening stops here.
pub const MAX_WIDTH: u16 = 200;

/// How many columns a key press scrolls the log by.
pub const LOG_STEP: u16 = 8;

/// How far a key scrolls a node's text.
pub const SCROLL_STEP: u16 = 4;

/// A coordinate moved by `d` steps, within the canvas.
pub open spec fn moved(p: i64, d: int) -> i64 {
    let to = p + d * MOVE_STEP;
    if to < 0 {
        0
    } else if to > i64::MAX {
        i64::MAX
    } else {
        to as i64
    }
}

fn move_coordinate(p: i64, d: i64) -> (r: i64)
    ensures
        r == moved(p, d as int),
{
    let to: i128 = p as i128 + d as i128 * 2;
    if to < 0 {
        0
    } else if to > i64::MAX as i128 {
        i64::MAX
    } else {
        to as i64
    }
}

/// A width after widening or narrowing.
pub open spec fn resized(w: u16, grow: bool) -> u16 {
    if grow {
        if w + WIDTH_STEP > MAX_WIDTH {
            MAX_WIDTH
        } else {
            (w + WIDTH_STEP) as u16
        }
    } else if w - WIDTH_STEP < MIN_WIDTH {
        MIN_WIDTH
    } else {
        (w - WIDTH_STEP) as u16
    }
}

fn resize(w: u16, grow: bool) -> (r: u16)
    ensures
        r == resized(w, grow),
{
    if grow {
        if w > MAX_WIDTH - WIDTH_STEP {
            MAX_WIDTH
        } else {
            w + WIDTH_STEP
        }
    } else if w < MIN_WIDTH + WIDTH_STEP {
        MIN_WIDTH
    } else {
        w - WIDTH_STEP
    }
}

/// The length of the longest of the first `n` lines and of the title.
pub open spec fn longest(title: Seq<char>, lines: Seq<Seq<char>>, n: int) -> nat
    decreases n,
{
    if n <= 0 {
        title.len()
    } else {
        let p = longest(title, lines, n - 1);
        if lines[n - 1].len() > p {
            lines[n - 1].len()
        } else {
            p
        }
    }
}

/// How far a text can scroll in a box of this width, which has a border on
/// each side, before its longest line is shown to its end. A line that is
/// longer than a scroll position can count is taken for one of that length.
pub open spec fn max_scroll(longest: nat, width: u16) -> u16 {
    let len = if longest > u16::MAX {
        u16::MAX as int
    } else {
        longest as int
    };
    let room = if width >= 2 {
        width - 2
    } else {
        0
    };
    if len > room {
        (len - room) as u16
    } else {
        0
    }
}

impl AppView {
    /// The graph with the focused node at another place and of another width.
    pub open spec fn reshape(self, pos: (i64, i64), width: u16) -> AppView {
        let g = self.graph;
        match self.focus {
            Focus::Input(i) => if (i as int) < g.inputs.len() {
                self.with_graph(
                    g.set_input(i as int, InputView { pos, width, ..g.inputs[i as int] }),
                )
            } else {
                self
            },
            Focus::Modifier(i) => if (i as int) < g.modifiers.len() {
                self.with_graph(
                    g.set_modifier(
                        i as int,
                        ModifierView { pos, width, ..g.modifiers[i as int] },
                    ),
                )
            } else {
                self
            },
            Focus::Output(i) => if (i as int) < g.outputs.len() {
                self.with_graph(
                    g.set_output(i as int, OutputView { pos, width, ..g.outputs[i as int] }),
                )
            } else {
                self
            },
        }
    }

    /// The place and the width of the focused node.
    pub open spec fn focused_shape(self) -> Option<((i64, i64), u16)> {
        let g = self.graph;
        match self.focus {
            Focus::Input(i) => if (i as int) < g.inputs.len() {
                Some((g.inputs[i as int].pos, g.inputs[i as int].width))
            } else {
                None
            },
            Focus::Modifier(i) => if (i as int) < g.modifiers.len() {
                Some((g.modifiers[i as int].pos, g.modifiers[i as int].width))
            } else {
                None
            },
            Focus::Output(i) => if (i as int) < g.outputs.len() {
                Some((g.outputs[i as int].pos, g.outputs[i as int].width))
            } else {
                None
            },
        }
    }

    /// 'h', 'j', 'k', 'l': moves the focused node.
    pub open spec fn move_focused_node(self, dx: int, dy: int) -> AppView {
        match self.focused_shape() {
            Some((pos, width)) => self.reshape((moved(pos.0, dx), moved(pos.1, dy)), width),
            None => self,
        }
    }

    /// Shift+Left or Shift+Right: narrows or widens the focused node.
    pub open spec fn resize_focused_node(self, grow: bool) -> AppView {
        match self.focused_shape() {
            Some((pos, width)) => self.reshape(pos, resized(width, grow)),
            None => self,
        }
    }

    /// Left or Right: scrolls the focused node's text, given the title and
    /// the lines that it shows.
    pub open spec fn scroll_node_text(
        self,
        forward: bool,
        title: Seq<char>,
        lines: Seq<Seq<char>>,
    ) -> AppView {
        let most = match self.focused_shape() {
            Some((_, width)) => max_scroll(longest(title, lines, lines.len() as int), width),
            None => 0,
        };
        let text_scroll = if forward {
            if self.text_scroll + SCROLL_STEP > most {
                most
            } else {
                (self.text_scroll + SCROLL_STEP) as u16
            }
        } else if self.text_scroll < SCROLL_STEP {
            0
        } else {
            (self.text_scroll - SCROLL_STEP) as u16
        };
        AppView { text_scroll, ..self }
    }

    /// PageUp or PageDown: scrolls the log by a page of so many lines. Scrolled
    /// to its end, the log follows the newest lines again.
    pub open spec fn scroll_log(self, forward: bool, page: usize) -> AppView {
        let end = self.log.len() - page;
        let start = match self.log_scroll {
            Some(start) => start as int,
            None => end,
        };
        let log_scroll = if end <= 0 {
            None
        } else if forward {
            if start + page >= end {
                None
            } else {
                Some((start + page) as usize)
            }
        } else if start < page {
            Some(0)
        } else {
            Some((start - page) as usize)
        };
        AppView { log_scroll, ..self }
    }

    /// Control and Left or Right: scrolls the log sideways.
    pub open spec fn scroll_log_horizontal(self, forward: bool) -> AppView {
        let log_hscroll = if forward {
            if self.log_hscroll + LOG_STEP > u16::MAX {
                u16::MAX
            } else {
                (self.log_hscroll + LOG_STEP) as u16
            }
        } else if self.log_hscroll < LOG_STEP {
            0
        } else {
            (self.log_hscroll - LOG_STEP) as u16
        };
        AppView { log_hscroll, ..self }
    }
}

impl App {
    fn focused_shape(&self) -> (r: Option<((i64, i64), u16)>)
        ensures
            r == self@.focused_shape(),
    {
        match self.focus {
            Focus::Input(i) => if i < self.graph.inputs.len() {
                Some((self.graph.inputs[i].pos, self.graph.inputs[i].width))
            } else {
                None
            },
            Focus::Modifier(i) => if i < self.graph.modifiers.len() {
                Some((self.graph.modifiers[i].pos, self.graph.modifiers[i].width))
            } else {
                None
            },
            Focus::Output(i) => if i < self.graph.outputs.len() {
                Some((self.graph.outputs[i].pos, self.graph.outputs[i].width))
            } else {
                None
            },
        }
    }

    fn reshape(&mut self, pos: (i64, i64), width: u16)
        ensures
            final(self)@ == old(self)@.reshape(pos, width),
    {
        broadcast use group_views;

        match self.focus {
            Focus::Input(i) => {
                if i < self.graph.inputs.len() {
                    self.graph.inputs[i].pos = pos;
                    self.graph.inputs[i].width = width;
                }
            },
            Focus::Modifier(i) => {
                if i < self.graph.modifiers.len() {
                    self.graph.modifiers[i].pos = pos;
                    self.graph.modifiers[i].width = width;
                }
            },
            Focus::Output(i) => {
                if i < self.graph.outputs.len() {
                    self.graph.outputs[i].pos = pos;
                    self.graph.outputs[i].width = width;
                }
            },
        }
    }

    /// 'h', 'j', 'k', 'l': moves the focused node by so many steps.
    pub fn move_focused_node(&mut self, dx: i64, dy: i64)
        ensures
            final(self)@ == old(self)@.move_focused_node(dx as int, dy as int),
    {
        if let Some((pos, width)) = self.focused_shape() {
            let to = (move_coordinate(pos.0, dx), move_coordinate(pos.1, dy));
            self.reshape(to, width);
        }
    }

    /// Shift+Left or Shift+Right: narrows or widens the focused node. Its left
    /// edge stays where it is.
    pub fn resize_focused_node(&mut self, grow: bool)
        ensures
            final(self)@ == old(self)@.resize_focused_node(grow),
    {
        if let Some((pos, width)) = self.focused_shape() {
            self.reshape(pos, resize(width, grow));
        }
    }

    /// PageUp or PageDown: scrolls the log by a page of so many lines.
    pub fn scroll_log(&mut self, forward: bool, page: usize)
        ensures
            final(self)@ == old(self)@.scroll_log(forward, page),
    {
        let len: usize = self.log.len();
        if len <= page {
            self.log_scroll = None;
            return;
        }
        let end: usize = len - page;
        let start: usize = match self.log_scroll {
            Some(start) => start,
            None => end,
        };
        self.log_scroll = if forward {
            if page >= end || start >= end - page {
                None
            } else {
                Some(start + page)
            }
        } else if start < page {
            Some(0)
        } else {
            Some(start - page)
        };
    }

    /// Control and Left or Right: scrolls the log sideways.
    pub fn scroll_log_horizontal(&mut self, forward: bool)
        ensures
            final(self)@ == old(self)@.scroll_log_horizontal(forward),
    {
        self.log_hscroll = if forward {
            self.log_hscroll.saturating_add(LOG_STEP)
        } else {
            self.log_hscroll.saturating_sub(LOG_STEP)
        };
    }

    /// Left or Right: scrolls the focused node's text, given the title and
    /// the lines that it shows.
    pub fn scroll_node_text(&mut self, forward: bool, title: &str, lines: &Vec<String>)
        ensures
            final(self)@ == old(self)@.scroll_node_text(forward, title@, views(lines@)),
    {
        let mut most: u16 = 0;
        if let Some((_, width)) = self.focused_shape() {
            let mut len: usize = chars_of(title).len();
            let mut i: usize = 0;
            while i < lines.len()
                invariant
                    i <= lines@.len(),
                    len == longest(title@, views(lines@), i as int),
                decreases lines@.len() - i,
            {
                assert(views(lines@)[i as int] == lines@[i as int]@);
                let n: usize = chars_of(lines[i].as_str()).len();
                if n > len {
                    len = n;
                }
                i += 1;
            }
            let shown: u16 = if len > 65535 {
                65535
            } else {
                len as u16
            };
            let room: u16 = if width >= 2 {
                width - 2
            } else {
                0
            };
            most = if shown > room {
                shown - room
            } else {
                0
            };
        }
        self.text_scroll = if forward {
            let to: u16 = self.text_scroll.saturating_add(SCROLL_STEP);
            if to > most {
                most
            } else {
                to
            }
        } else {
            self.text_scroll.saturating_sub(SCROLL_STEP)
        };
    }
}

} // verus!
