//! Chapters: their times, and the FFMETADATA files that hold them.
use vstd::prelude::*;

use crate::text::{cat5, decimal, number, padded, signed_decimal, signed_number, split, split_spec, split_upto, trim, trim_spec, two_digits, three_digits, views, white, group_views};

verus! {

/// A point in time. `text` is its number of seconds, written so that reading
/// the text gives the exact value back; `millis` is the value in whole
/// milliseconds.
#[derive(Debug)]
pub struct Seconds {
    pub text: String,
    pub millis: i64,
}

pub struct SecondsView {
    pub text: Seq<char>,
    pub millis: i64,
}

impl View for Seconds {
    type V = SecondsView;

    open spec fn view(&self) -> SecondsView {
        SecondsView { text: self.text@, millis: self.millis }
    }
}

/// The view of an optional time.
pub open spec fn opt_seconds(o: Option<Seconds>) -> Option<SecondsView> {
    match o {
        Some(s) => Some(s@),
        None => None,
    }
}

impl Clone for Seconds {
    fn clone(&self) -> (r: Seconds)
        ensures
            r == *self,
    {
        Seconds { text: self.text.clone(), millis: self.millis }
    }
}

impl SecondsView {
    /// The start of the timeline.
    pub open spec fn zero() -> SecondsView {
        SecondsView { text: "0"@, millis: 0 }
    }
}

impl Seconds {
    /// The start of the timeline.
    pub fn zero() -> (r: Seconds)
        ensures
            r@ == SecondsView::zero(),
    {
        Seconds { text: "0".to_owned(), millis: 0 }
    }
}

/// One chapter marker. A list of them keeps the order in which they were
/// added: it is not sorted by time.
#[derive(Debug)]
pub struct Chapter {
    pub start_secs: Seconds,
    pub end_secs: Seconds,
    pub title: String,
    /// Whether the entry came into a chapter node from a connected input, as
    /// opposed to being added by the user.
    pub imported: bool,
}

pub struct ChapterView {
    pub start_secs: SecondsView,
    pub end_secs: SecondsView,
    pub title: Seq<char>,
    pub imported: bool,
}

impl View for Chapter {
    type V = ChapterView;

    open spec fn view(&self) -> ChapterView {
        ChapterView {
            start_secs: self.start_secs@,
            end_secs: self.end_secs@,
            title: self.title@,
            imported: self.imported,
        }
    }
}

impl Clone for Chapter {
    fn clone(&self) -> (r: Chapter)
        ensures
            r == *self,
    {
        Chapter {
            start_secs: self.start_secs.clone(),
            end_secs: self.end_secs.clone(),
            title: self.title.clone(),
            imported: self.imported,
        }
    }
}

impl Chapter {
    /// A chapter of the user's own.
    pub fn new(start_secs: Seconds, end_secs: Seconds, title: String) -> (r: Chapter)
        ensures
            r == (Chapter { start_secs, end_secs, title, imported: false }),
    {
        Chapter { start_secs, end_secs, title, imported: false }
    }

    /// A chapter taken over from a connected input.
    pub fn imported(start_secs: Seconds, end_secs: Seconds, title: String) -> (r: Chapter)
        ensures
            r == (Chapter { start_secs, end_secs, title, imported: true }),
    {
        Chapter { start_secs, end_secs, title, imported: true }
    }
}

/// A copy of a list of chapters.
pub fn copy_chapters(v: &Vec<Chapter>) -> (r: Vec<Chapter>)
    ensures
        views(r@) == views(v@),
{
    broadcast use group_views;

    let mut out: Vec<Chapter> = Vec::new();
    let mut i: usize = 0;
    while i < v.len()
        invariant
            i <= v@.len(),
            views(out@) == views(v@).take(i as int),
        decreases v@.len() - i,
    {
        broadcast use group_views;

        out.push(v[i].clone());
        i += 1;
        assert(views(v@).take(i as int) == views(v@).take(i - 1).push(v@[i - 1]@));
    }
    assert(views(v@).take(v@.len() as int) == views(v@));
    out
}

// ---------------------------------------------------------------------
// Clock times
// ---------------------------------------------------------------------

/// Whether some part is empty.
pub open spec fn has_empty(parts: Seq<Seq<char>>) -> bool {
    exists|i: int| 0 <= i < parts.len() && (#[trigger] parts[i]).len() == 0
}

/// The numbers that a time field is made of, most significant first: one
/// (plain seconds), two (`MM:SS`) or three (`HH:MM:SS`). `None` where the text
/// is blank, has more than three parts, or has an empty part.
pub open spec fn time_fields_spec(input: Seq<char>) -> Option<Seq<Seq<char>>> {
    let s = trim_spec(input);
    let parts = split_spec(s, ':');
    if s.len() == 0 {
        None
    } else if !s.contains(':') {
        Some(seq![s])
    } else if parts.len() > 3 || has_empty(parts) {
        None
    } else {
        Some(parts)
    }
}

/// The numbers that a time field is made of, most significant first: one
/// (plain seconds), two (`MM:SS`) or three (`HH:MM:SS`). `None` where the text
/// is blank, has more than three parts, or has an empty part.
pub fn time_fields(input: &str) -> (r: Option<Vec<String>>)
    ensures
        match r {
            Some(parts) => time_fields_spec(input@) == Some(views(parts@)),
            None => time_fields_spec(input@) is None,
        },
{
    broadcast use group_views;

    let s = trim(input);
    if s.as_str().is_empty() {
        return None;
    }
    if !crate::text::has_char(s.as_str(), ':') {
        let ghost text = s@;
        let one = vec![s];
        assert(views(one@) == seq![text]);
        return Some(one);
    }
    let parts = split(s.as_str(), ':');
    if parts.len() > 3 {
        return None;
    }
    let mut i: usize = 0;
    while i < parts.len()
        invariant
            i <= parts@.len() <= 3,
            s@ == trim_spec(input@),
            s@.len() > 0,
            s@.contains(':'),
            views(parts@) == split_spec(s@, ':'),
            forall|j: int| 0 <= j < i ==> (#[trigger] views(parts@)[j]).len() > 0,
        decreases parts@.len() - i,
    {
        if parts[i].as_str().is_empty() {
            assert(views(parts@)[i as int].len() == 0);
            return None;
        }
        i += 1;
    }
    Some(parts)
}

/// A time in milliseconds as `HH:MM:SS`, or `HH:MM:SS.mmm` where there is a
/// remainder below the second. A time before zero shows as zero.
pub open spec fn clock(millis: int) -> Seq<char> {
    let total: int = if millis < 0 {
        0
    } else {
        millis
    };
    let base = padded(decimal((total / 3600000) as nat), 2) + ":"@ + padded(
        decimal((total / 60000 % 60) as nat),
        2,
    ) + ":"@ + padded(decimal((total / 1000 % 60) as nat), 2);
    if total % 1000 == 0 {
        base
    } else {
        base + "."@ + padded(decimal((total % 1000) as nat), 3)
    }
}

/// A time as `HH:MM:SS`, or `HH:MM:SS.mmm` where there is a remainder below
/// the second. A time before zero shows as zero.
pub fn format_time(secs: &Seconds) -> (r: String)
    ensures
        r@ == clock(secs@.millis as int),
{
    let total_ms: u64 = if secs.millis < 0 {
        0
    } else {
        secs.millis as u64
    };
    let ms: u64 = total_ms % 1000;
    let total_secs: u64 = total_ms / 1000;
    let s: u64 = total_secs % 60;
    let total_mins: u64 = total_secs / 60;
    let m: u64 = total_mins % 60;
    let h: u64 = total_mins / 60;
    let hh = two_digits(h);
    let mm = two_digits(m);
    let ss = two_digits(s);
    let mut out = cat5(hh.as_str(), ":", mm.as_str(), ":", ss.as_str());
    if ms != 0 {
        let frac = three_digits(ms);
        out.append(".");
        out.append(frac.as_str());
    }
    out
}

// ---------------------------------------------------------------------
// FFMETADATA
// ---------------------------------------------------------------------

/// The characters that FFMETADATA treats specially in a value.
pub open spec fn special(c: char) -> bool {
    c == '=' || c == ';' || c == '#' || c == '\\' || c == '\n'
}

/// One character of a value, with a backslash in front where it is special.
pub open spec fn escape_char(c: char) -> Seq<char> {
    if special(c) {
        seq!['\\', c]
    } else {
        seq![c]
    }
}

/// A value with every special character escaped.
pub open spec fn escape_spec(s: Seq<char>) -> Seq<char>
    decreases s.len(),
{
    if s.len() == 0 {
        Seq::empty()
    } else {
        escape_spec(s.drop_last()) + escape_char(s.last())
    }
}

/// A value with every special character escaped.
pub fn escape_ffmetadata(s: &str) -> (r: String)
    ensures
        r@ == escape_spec(s@),
{
    let v = crate::text::chars_of(s);
    let mut out = String::new();
    let mut i: usize = 0;
    while i < v.len()
        invariant
            i <= v@.len(),
            out@ == escape_spec(v@.take(i as int)),
        decreases v@.len() - i,
    {
        let c = v[i];
        proof {
            let t = v@.take(i + 1);
            assert(t.drop_last() == v@.take(i as int));
            assert(t.last() == c);
        }
        let ghost before = out@;
        if c == '=' || c == ';' || c == '#' || c == '\\' || c == '\n' {
            out.push('\\');
        }
        out.push(c);
        assert(out@ == before + escape_char(c));
        i += 1;
    }
    assert(v@.take(v@.len() as int) == v@);
    out
}

/// One chapter's section of an FFMETADATA file, in milliseconds.
pub open spec fn chapter_section(c: ChapterView) -> Seq<char> {
    "[CHAPTER]\nTIMEBASE=1/1000\nSTART="@ + signed_decimal(c.start_secs.millis as int) + "\nEND="@
        + signed_decimal(c.end_secs.millis as int) + "\ntitle="@ + escape_spec(c.title) + "\n"@
}

/// An FFMETADATA file with the first `n` chapters.
pub open spec fn ffmetadata_upto(chapters: Seq<ChapterView>, n: int) -> Seq<char>
    decreases n,
{
    if n <= 0 {
        ";FFMETADATA1\n"@
    } else {
        ffmetadata_upto(chapters, n - 1) + chapter_section(chapters[n - 1])
    }
}

/// The FFMETADATA file that holds a chapter list.
pub open spec fn ffmetadata(chapters: Seq<ChapterView>) -> Seq<char> {
    ffmetadata_upto(chapters, chapters.len() as int)
}

/// The FFMETADATA file that holds a chapter list.
pub fn chapters_ffmetadata(chapters: &Vec<Chapter>) -> (r: String)
    ensures
        r@ == ffmetadata(views(chapters@)),
{
    let mut out = ";FFMETADATA1\n".to_owned();
    let mut i: usize = 0;
    while i < chapters.len()
        invariant
            i <= chapters@.len(),
            out@ == ffmetadata_upto(views(chapters@), i as int),
        decreases chapters@.len() - i,
    {
        let c = &chapters[i];
        let start = signed_number(c.start_secs.millis);
        let end = signed_number(c.end_secs.millis);
        let title = escape_ffmetadata(c.title.as_str());
        let mut section = cat5(
            "[CHAPTER]\nTIMEBASE=1/1000\nSTART=",
            start.as_str(),
            "\nEND=",
            end.as_str(),
            "\ntitle=",
        );
        section.append(title.as_str());
        section.append("\n");
        assert(section@ == chapter_section(c@));
        out.append(section.as_str());
        i += 1;
    }
    out
}

/// Where an output's chapters come from.
#[derive(Clone, Copy, Debug, PartialEq, Eq, Structural)]
pub enum ChapterSource {
    /// An input file's own chapters: `-map_chapters` can point at the file.
    FromInput { input_file_index: usize },
    /// The list of a chapter node, which needs an FFMETADATA file written.
    Edited { modifier_id: usize },
}

// ---------------------------------------------------------------------
// Laws
// ---------------------------------------------------------------------

/// The value that an escaped text stands for.
pub open spec fn unescape_spec(t: Seq<char>) -> Seq<char>
    decreases t.len(),
{
    if t.len() == 0 {
        Seq::empty()
    } else if t[0] == '\\' && t.len() > 1 {
        seq![t[1]] + unescape_spec(t.subrange(2, t.len() as int))
    } else {
        seq![t[0]] + unescape_spec(t.subrange(1, t.len() as int))
    }
}

pub(crate) proof fn lemma_escape_front(s: Seq<char>)
    requires
        s.len() > 0,
    ensures
        escape_spec(s) == escape_char(s[0]) + escape_spec(s.drop_first()),
    decreases s.len(),
{
    if s.len() == 1 {
        assert(s.drop_last() == Seq::<char>::empty());
        assert(s.drop_first() == Seq::<char>::empty());
        assert(escape_spec(Seq::<char>::empty()) == Seq::<char>::empty());
        assert(escape_spec(s) == escape_char(s[0]) + Seq::<char>::empty());
    } else {
        lemma_escape_front(s.drop_last());
        assert(s.drop_last().drop_first() == s.drop_first().drop_last());
        assert(s.drop_first().last() == s.last());
        assert(escape_spec(s) == escape_char(s[0]) + escape_spec(s.drop_first()));
    }
}

/// Escaping loses nothing: taking the escapes out gives the value back.
pub proof fn escaping_is_reversible(s: Seq<char>)
    ensures
        unescape_spec(escape_spec(s)) == s,
    decreases s.len(),
{
    if s.len() > 0 {
        lemma_escape_front(s);
        escaping_is_reversible(s.drop_first());
        let t = escape_spec(s);
        let rest = escape_spec(s.drop_first());
        if special(s[0]) {
            assert(t.subrange(2, t.len() as int) == rest);
        } else {
            assert(t.subrange(1, t.len() as int) == rest);
        }
        assert(seq![s[0]] + s.drop_first() == s);
    }
}

/// The number that a run of digits stands for.
pub open spec fn digits_value(s: Seq<char>) -> int
    decreases s.len(),
{
    if s.len() == 0 {
        0
    } else {
        digits_value(s.drop_last()) * 10 + (s.last() as int - '0' as int)
    }
}

/// Every character is a decimal digit.
pub open spec fn all_digits(s: Seq<char>) -> bool {
    forall|i: int| 0 <= i < s.len() ==> '0' <= #[trigger] s[i] <= '9'
}

pub proof fn lemma_decimal(n: nat)
    ensures
        digits_value(decimal(n)) == n,
        all_digits(decimal(n)),
        decimal(n).len() > 0,
    decreases n,
{
    if n < 10 {
        assert(decimal(n).drop_last() == Seq::<char>::empty());
        assert(digits_value(decimal(n).drop_last()) == 0);
    } else {
        lemma_decimal(n / 10);
        assert(decimal(n).drop_last() == decimal(n / 10));
    }
}

pub(crate) proof fn lemma_leading_zero(s: Seq<char>)
    ensures
        digits_value(seq!['0'] + s) == digits_value(s),
    decreases s.len(),
{
    let t = seq!['0'] + s;
    if s.len() == 0 {
        assert(t.drop_last() == Seq::<char>::empty());
        assert(digits_value(t.drop_last()) == 0);
    } else {
        lemma_leading_zero(s.drop_last());
        assert(t.drop_last() == seq!['0'] + s.drop_last());
    }
}

proof fn lemma_padded(s: Seq<char>, width: nat)
    requires
        all_digits(s),
        s.len() > 0,
    ensures
        digits_value(padded(s, width)) == digits_value(s),
        all_digits(padded(s, width)),
        padded(s, width).len() > 0,
    decreases width - s.len(),
{
    if s.len() < width {
        lemma_leading_zero(s);
        lemma_padded(seq!['0'] + s, width);
    }
}

proof fn lemma_no_white(s: Seq<char>)
    requires
        forall|i: int| 0 <= i < s.len() ==> !white(#[trigger] s[i]),
    ensures
        trim_spec(s) == s,
{
}

proof fn lemma_split_plain(s: Seq<char>, from: int, n: int)
    requires
        0 <= from <= n <= s.len(),
        split_upto(s, ':', from).len() > 0,
        split_upto(s, ':', from).last() == Seq::<char>::empty(),
        forall|i: int| from <= i < n ==> s[i] != ':',
    ensures
        split_upto(s, ':', n) == split_upto(s, ':', from).drop_last().push(s.subrange(from, n)),
    decreases n - from,
{
    if n == from {
        let p = split_upto(s, ':', from);
        assert(s.subrange(from, n) == Seq::<char>::empty());
        assert(p.drop_last().push(p.last()) == p);
    } else {
        lemma_split_plain(s, from, n - 1);
        assert(s.subrange(from, n) == s.subrange(from, n - 1).push(s[n - 1]));
        let p = split_upto(s, ':', n - 1);
        assert(p.drop_last() == split_upto(s, ':', from).drop_last());
    }
}

/// Three colon-free parts joined by colons split back into the parts.
proof fn lemma_split_three(a: Seq<char>, b: Seq<char>, c: Seq<char>)
    requires
        !a.contains(':'),
        !b.contains(':'),
        !c.contains(':'),
    ensures
        split_spec(a + seq![':'] + b + seq![':'] + c, ':') == seq![a, b, c],
{
    let s = a + seq![':'] + b + seq![':'] + c;
    let i1 = a.len() as int;
    let i2 = i1 + 1 + b.len();
    let n = s.len() as int;
    assert forall|i: int| 0 <= i < i1 implies s[i] != ':' by {
        assert(s[i] == a[i]);
    }
    assert forall|i: int| i1 + 1 <= i < i2 implies s[i] != ':' by {
        assert(s[i] == b[i - i1 - 1]);
    }
    assert forall|i: int| i2 + 1 <= i < n implies s[i] != ':' by {
        assert(s[i] == c[i - i2 - 1]);
    }
    lemma_split_plain(s, 0, i1);
    assert(s.subrange(0, i1) == a);
    assert(split_upto(s, ':', i1) == seq![a]);
    assert(s[i1] == ':');
    assert(split_upto(s, ':', i1 + 1) == seq![a, Seq::<char>::empty()]);
    lemma_split_plain(s, i1 + 1, i2);
    assert(s.subrange(i1 + 1, i2) == b);
    assert(split_upto(s, ':', i2) == seq![a, b]);
    assert(s[i2] == ':');
    assert(split_upto(s, ':', i2 + 1) == seq![a, b, Seq::<char>::empty()]);
    lemma_split_plain(s, i2 + 1, n);
    assert(s.subrange(i2 + 1, n) == c);
    assert(split_upto(s, ':', n) == seq![a, b, c]);
}

/// A formatted time reads back: its fields are the hours, the minutes and the
/// seconds (the seconds with the milliseconds behind a point, where there are
/// any), and their values give the time.
pub proof fn formatted_time_reads_back(millis: int)
    requires
        0 <= millis,
    ensures
        ({
            let fields = time_fields_spec(clock(millis));
            let f = fields->0;
            let whole = f[2].take(2);
            &&& fields is Some
            &&& f.len() == 3
            &&& all_digits(f[0]) && all_digits(f[1]) && all_digits(whole)
            &&& millis % 1000 == 0 ==> f[2] == whole
            &&& millis % 1000 != 0 ==> f[2] == whole + seq!['.'] + f[2].subrange(
                3,
                f[2].len() as int,
            )
            &&& millis % 1000 != 0 ==> digits_value(f[2].subrange(3, f[2].len() as int)) == millis
                % 1000
            &&& (digits_value(f[0]) * 60 + digits_value(f[1])) * 60 + digits_value(whole) == millis
                / 1000
        }),
{
    reveal_strlit(":");
    reveal_strlit(".");
    assert(":"@ == seq![':']);
    assert("."@ == seq!['.']);
    let h = (millis / 3600000) as nat;
    let m = (millis / 60000 % 60) as nat;
    let s = (millis / 1000 % 60) as nat;
    let ms = (millis % 1000) as nat;
    lemma_decimal(h);
    lemma_decimal(m);
    lemma_decimal(s);
    lemma_decimal(ms);
    lemma_padded(decimal(h), 2);
    lemma_padded(decimal(m), 2);
    lemma_padded(decimal(s), 2);
    lemma_padded(decimal(ms), 3);
    let a = padded(decimal(h), 2);
    let b = padded(decimal(m), 2);
    let c0 = padded(decimal(s), 2);
    let frac = padded(decimal(ms), 3);
    assert(c0.len() == 2) by {
        reveal_with_fuel(padded, 3);
        reveal_with_fuel(decimal, 3);
    }
    let c = if millis % 1000 == 0 {
        c0
    } else {
        c0 + seq!['.'] + frac
    };
    let t = clock(millis);
    assert(t == a + seq![':'] + b + seq![':'] + c);
    assert forall|i: int| 0 <= i < a.len() implies a[i] != ':' by {}
    assert forall|i: int| 0 <= i < b.len() implies b[i] != ':' by {}
    assert forall|i: int| 0 <= i < c.len() implies c[i] != ':' by {
        if i < 2 {
            assert(c[i] == c0[i]);
        } else if i > 2 {
            assert(c[i] == frac[i - 3]);
        }
    }
    lemma_split_three(a, b, c);
    assert forall|i: int| 0 <= i < t.len() implies !white(#[trigger] t[i]) by {
        let i1 = a.len() as int;
        let i2 = i1 + 1 + b.len();
        if i < i1 {
            assert(t[i] == a[i]);
        } else if i == i1 {
            assert(t[i] == ':');
        } else if i < i2 {
            assert(t[i] == b[i - i1 - 1]);
        } else if i == i2 {
            assert(t[i] == ':');
        } else {
            let k = i - i2 - 1;
            assert(t[i] == c[k]);
            if k < 2 {
                assert(c[k] == c0[k]);
            } else if k > 2 {
                assert(c[k] == frac[k - 3]);
            }
        }
    }
    lemma_no_white(t);
    assert(t[a.len() as int] == ':');
    assert(t.contains(':'));
    let f = seq![a, b, c];
    assert(!has_empty(f)) by {
        assert(f[0].len() > 0 && f[1].len() > 0 && f[2].len() > 0);
    }
    assert(c.take(2) == c0);
    if millis % 1000 != 0 {
        assert(c.subrange(3, c.len() as int) == frac);
    }
}

} // verus!
