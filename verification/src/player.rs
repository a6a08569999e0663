//! Talking to the players: the commands that mpv takes over its socket, and
//! the positions that ffplay prints.
use vstd::prelude::*;

use crate::ffmpeg::{ffplay_position_text, position_text};
use crate::graph::chapter::{Seconds, SecondsView};
use crate::text::{cat2, chars_of, group_views, text_of, views};

verus! {

// ---------------------------------------------------------------------
// mpv's socket
// ---------------------------------------------------------------------

/// How often connecting to mpv's socket is tried: it is not there yet right
/// after mpv was started.
pub const CONNECT_TRIES: u32 = 20;

/// How many milliseconds pass between two tries.
pub const CONNECT_PAUSE_MILLIS: u64 = 50;

/// How many seconds a reply is waited for.
pub const REPLY_SECONDS: u64 = 2;

/// Whether a line from mpv replies to the command that was sent: it is not
/// blank, and it does not tell of an event.
pub fn is_reply(blank: bool, event: Option<&str>) -> (r: bool)
    ensures
        r == (!blank && event is None),
{
    !blank && event.is_none()
}

// ---------------------------------------------------------------------
// mpv's commands
// ---------------------------------------------------------------------

/// A word, a time or a switch of a command.
pub enum CommandArg {
    Word(String),
    Time(Seconds),
    Switch(bool),
}

pub enum CommandArgView {
    Word(Seq<char>),
    Time(SecondsView),
    Switch(bool),
}

impl View for CommandArg {
    type V = CommandArgView;

    open spec fn view(&self) -> CommandArgView {
        match self {
            CommandArg::Word(w) => CommandArgView::Word(w@),
            CommandArg::Time(t) => CommandArgView::Time(t@),
            CommandArg::Switch(b) => CommandArgView::Switch(*b),
        }
    }
}

/// The word of a command.
pub open spec fn word(w: Seq<char>) -> CommandArgView {
    CommandArgView::Word(w)
}

/// Plays where mpv is paused, and pauses it where it plays.
pub fn mpv_toggle_pause() -> (r: Vec<CommandArg>)
    ensures
        views(r@) == seq![word("cycle"@), word("pause"@)],
{
    let r = vec![CommandArg::Word("cycle".to_owned()), CommandArg::Word("pause".to_owned())];
    assert(views(r@) == seq![word("cycle"@), word("pause"@)]);
    r
}

/// Pauses mpv, or lets it play, whatever it does now.
pub fn mpv_set_pause(pause: bool) -> (r: Vec<CommandArg>)
    ensures
        views(r@) == seq![word("set_property"@), word("pause"@), CommandArgView::Switch(pause)],
{
    let r = vec![
        CommandArg::Word("set_property".to_owned()),
        CommandArg::Word("pause".to_owned()),
        CommandArg::Switch(pause),
    ];
    assert(views(r@) == seq![word("set_property"@), word("pause"@), CommandArgView::Switch(pause)]);
    r
}

/// Steps mpv by a frame.
pub fn mpv_frame_step(forward: bool) -> (r: Vec<CommandArg>)
    ensures
        views(r@) == seq![
            word(
                if forward {
                    "frame-step"@
                } else {
                    "frame-back-step"@
                },
            ),
        ],
{
    let name = if forward {
        "frame-step"
    } else {
        "frame-back-step"
    };
    let r = vec![CommandArg::Word(name.to_owned())];
    assert(views(r@) == seq![word(name@)]);
    r
}

/// A second forward or back.
pub open spec fn one_second(forward: bool) -> SecondsView {
    if forward {
        SecondsView { text: "1"@, millis: 1000 }
    } else {
        SecondsView { text: "-1"@, millis: -1000i64 }
    }
}

/// Seeks mpv by a second: exactly, where mpv would by itself land on a
/// keyframe.
pub fn mpv_seek_relative(forward: bool) -> (r: Vec<CommandArg>)
    ensures
        views(r@) == seq![
            word("seek"@),
            CommandArgView::Time(one_second(forward)),
            word("relative+exact"@),
        ],
{
    let delta = if forward {
        Seconds { text: "1".to_owned(), millis: 1000 }
    } else {
        Seconds { text: "-1".to_owned(), millis: -1000 }
    };
    let r = vec![
        CommandArg::Word("seek".to_owned()),
        CommandArg::Time(delta),
        CommandArg::Word("relative+exact".to_owned()),
    ];
    assert(views(r@) == seq![
        word("seek"@),
        CommandArgView::Time(one_second(forward)),
        word("relative+exact"@),
    ]);
    r
}

/// Seeks mpv to a time.
pub fn mpv_seek_absolute(secs: &Seconds) -> (r: Vec<CommandArg>)
    ensures
        views(r@) == seq![word("seek"@), CommandArgView::Time(secs@), word("absolute"@)],
{
    let r = vec![
        CommandArg::Word("seek".to_owned()),
        CommandArg::Time(secs.clone()),
        CommandArg::Word("absolute".to_owned()),
    ];
    assert(views(r@) == seq![word("seek"@), CommandArgView::Time(secs@), word("absolute"@)]);
    r
}

/// Asks mpv where it is.
pub fn mpv_get_time_pos() -> (r: Vec<CommandArg>)
    ensures
        views(r@) == seq![word("get_property"@), word("time-pos"@)],
{
    let r = vec![
        CommandArg::Word("get_property".to_owned()),
        CommandArg::Word("time-pos".to_owned()),
    ];
    assert(views(r@) == seq![word("get_property"@), word("time-pos"@)]);
    r
}

// ---------------------------------------------------------------------
// ffplay's positions
// ---------------------------------------------------------------------

/// Whether a character ends a fragment of ffplay's output, which rewrites its
/// status line in place.
pub open spec fn ends_fragment(c: char) -> bool {
    c == '\r' || c == '\n'
}

/// Where the fragment starts that goes on behind the first `n` characters.
pub open spec fn fragment_start(s: Seq<char>, n: int) -> int
    decreases n,
{
    if n <= 0 {
        0
    } else if ends_fragment(s[n - 1]) {
        n
    } else {
        fragment_start(s, n - 1)
    }
}

/// The positions that the fragments which end within the first `n` characters
/// tell.
pub open spec fn positions_upto(s: Seq<char>, n: int) -> Seq<Seq<char>>
    decreases n,
{
    if n <= 0 {
        Seq::empty()
    } else {
        let p = positions_upto(s, n - 1);
        if ends_fragment(s[n - 1]) {
            match position_text(s.subrange(fragment_start(s, n - 1), n - 1)) {
                Some(t) => p.push(t),
                None => p,
            }
        } else {
            p
        }
    }
}

/// The positions that a text tells.
pub open spec fn positions(s: Seq<char>) -> Seq<Seq<char>> {
    positions_upto(s, s.len() as int)
}

/// The end of a text that may go on.
pub open spec fn unfinished(s: Seq<char>) -> Seq<char> {
    s.subrange(fragment_start(s, s.len() as int), s.len() as int)
}

/// Takes a piece of ffplay's output, behind what was left of the pieces
/// before: the positions that it tells, and what is left to go on.
pub fn read_positions(pending: &str, piece: &str) -> (r: (Vec<String>, String))
    ensures
        views(r.0@) == positions(pending@ + piece@),
        r.1@ == unfinished(pending@ + piece@),
{
    let whole = cat2(pending, piece);
    let v = chars_of(whole.as_str());
    let mut found: Vec<String> = Vec::new();
    let mut start: usize = 0;
    let mut i: usize = 0;
    assert(views(found@) == Seq::<Seq<char>>::empty());
    while i < v.len()
        invariant
            start <= i <= v@.len(),
            start == fragment_start(v@, i as int),
            views(found@) == positions_upto(v@, i as int),
        decreases v@.len() - i,
    {
        broadcast use group_views;

        if v[i] == '\r' || v[i] == '\n' {
            let fragment = text_of(&v, start, i);
            if let Some(t) = ffplay_position_text(fragment.as_str()) {
                found.push(t);
            }
            start = i + 1;
        }
        i += 1;
    }
    let rest = text_of(&v, start, v.len());
    (found, rest)
}

proof fn lemma_fragment_start(s: Seq<char>, n: int)
    requires
        0 <= n <= s.len(),
    ensures
        0 <= fragment_start(s, n) <= n,
    decreases n,
{
    if n > 0 {
        lemma_fragment_start(s, n - 1);
    }
}

proof fn lemma_start_prefix(s: Seq<char>, t: Seq<char>, n: int)
    requires
        0 <= n <= s.len(),
    ensures
        fragment_start(s + t, n) == fragment_start(s, n),
        positions_upto(s + t, n) == positions_upto(s, n),
    decreases n,
{
    if n > 0 {
        lemma_start_prefix(s, t, n - 1);
        lemma_fragment_start(s, n - 1);
        let from = fragment_start(s, n - 1);
        assert((s + t).subrange(from, n - 1) == s.subrange(from, n - 1));
    }
}

proof fn lemma_positions_behind(s: Seq<char>, t: Seq<char>, n: int)
    requires
        0 <= n <= t.len(),
    ensures
        ({
            let whole = s + t;
            let rest = unfinished(s) + t;
            let cut = s.len() - unfinished(s).len();
            let k = unfinished(s).len() as int;
            &&& fragment_start(whole, s.len() + n) == cut + fragment_start(rest, k + n)
            &&& positions_upto(whole, s.len() + n) == positions(s) + positions_upto(rest, k + n)
        }),
    decreases n,
{
    let whole = s + t;
    let u = unfinished(s);
    let rest = u + t;
    lemma_fragment_start(s, s.len() as int);
    let cut = s.len() - u.len();
    let k = u.len() as int;
    if n == 0 {
        lemma_start_prefix(s, t, s.len() as int);
        lemma_no_break(s, s.len() as int);
        lemma_quiet(rest, k);
        assert(positions_upto(rest, k) == Seq::<Seq<char>>::empty());
        assert(positions(s) + positions_upto(rest, k) == positions(s));
    } else {
        lemma_positions_behind(s, t, n - 1);
        assert(whole[s.len() + n - 1] == t[n - 1]);
        assert(rest[k + n - 1] == t[n - 1]);
        lemma_fragment_start(rest, k + n - 1);
        let from = fragment_start(rest, k + n - 1);
        assert(whole.subrange(cut + from, s.len() + n - 1) == rest.subrange(from, k + n - 1)) by {
            assert forall|j: int| from <= j < k + n - 1 implies whole[cut + j] == rest[j] by {
                if j < k {
                    assert(u[j] == s[cut + j]);
                }
            }
        }
        let p = positions_upto(rest, k + n - 1);
        match position_text(rest.subrange(from, k + n - 1)) {
            Some(x) => {
                assert((positions(s) + p).push(x) == positions(s) + p.push(x));
            },
            None => {},
        }
    }
}

proof fn lemma_no_break(s: Seq<char>, n: int)
    requires
        0 <= n <= s.len(),
    ensures
        forall|j: int| fragment_start(s, n) <= j < n ==> !ends_fragment(#[trigger] s[j]),
    decreases n,
{
    if n > 0 {
        lemma_no_break(s, n - 1);
    }
}

pub(crate) proof fn lemma_quiet(s: Seq<char>, n: int)
    requires
        0 <= n <= s.len(),
        forall|j: int| 0 <= j < n ==> !ends_fragment(#[trigger] s[j]),
    ensures
        fragment_start(s, n) == 0,
        positions_upto(s, n) == Seq::<Seq<char>>::empty(),
    decreases n,
{
    if n > 0 {
        lemma_quiet(s, n - 1);
    }
}

/// It does not matter in which pieces ffplay's output arrives: reading `s` and
/// then `t` finds the positions that the whole of them tells, and leaves the
/// same end.
pub proof fn pieces_do_not_matter(s: Seq<char>, t: Seq<char>)
    ensures
        positions(s + t) == positions(s) + positions(unfinished(s) + t),
        unfinished(s + t) == unfinished(unfinished(s) + t),
{
    let u = unfinished(s);
    lemma_fragment_start(s, s.len() as int);
    lemma_positions_behind(s, t, t.len() as int);
    let n = t.len() as int;
    let from = fragment_start(u + t, u.len() + n);
    lemma_fragment_start(u + t, u.len() + n);
    let cut = s.len() - u.len();
    assert((s + t).subrange(cut + from, s.len() + n) == (u + t).subrange(from, u.len() + n)) by {
        assert forall|j: int| from <= j < u.len() + n implies (s + t)[cut + j] == (u + t)[j] by {
            if j < u.len() {
                assert(u[j] == s[cut + j]);
            }
        }
    }
}

} // verus!
