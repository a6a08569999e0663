//! What is read out of what the tools print, and what they are told.
use vstd::prelude::*;

use crate::ffmpeg::{
    binary_path, divided, divider, encoder_entry, encoders_upto, mpv_scrub_args_spec, muxer_entry,
    muxers_upto, position_char, position_end, position_text, severity, LogSeverity,
};
use crate::graph::chapter::{
    escape_spec, ffmetadata, ffmetadata_upto, lemma_escape_front, time_fields_spec, ChapterView,
};
use crate::graph::stream::StreamKind;
use crate::player::{ends_fragment, lemma_quiet, one_second, positions, positions_upto, unfinished};
use crate::text::{
    contains_spec, occurs_at, signed_decimal, split_spec, trim_spec, trim_start_spec, words_spec,
};

verus! {

// ---------------------------------------------------------------------
// Listings
// ---------------------------------------------------------------------

/// Whether a line comes behind the divider of a listing.
pub open spec fn listed(lines: Seq<Seq<char>>, i: int) -> bool {
    exists|j: int| 0 <= j < i && divider(#[trigger] lines[j])
}

proof fn lemma_divided(lines: Seq<Seq<char>>, n: int)
    requires
        0 <= n <= lines.len(),
    ensures
        divided(lines, n) == listed(lines, n),
    decreases n,
{
    if n > 0 {
        lemma_divided(lines, n - 1);
        if divided(lines, n) {
            if divider(lines[n - 1]) {
                assert(listed(lines, n));
            } else {
                let j = choose|j: int| 0 <= j < n - 1 && divider(#[trigger] lines[j]);
                assert(divider(lines[j]));
            }
        }
    }
}

/// Whether a line tells an encoder: its second word is the encoder's name, and
/// the first letter of its first word is the kind that it encodes.
pub open spec fn tells_encoder(line: Seq<char>, name: Seq<char>, kind: StreamKind) -> bool {
    let w = words_spec(line);
    &&& w.len() >= 2
    &&& w[1] == name
    &&& w[0].len() > 0
    &&& kind == StreamKind::Video <==> w[0][0] == 'V'
    &&& kind == StreamKind::Audio <==> w[0][0] == 'A'
    &&& kind == StreamKind::Subtitle <==> w[0][0] == 'S'
    &&& kind != StreamKind::Chapter && kind != StreamKind::Other
}

proof fn lemma_encoders(lines: Seq<Seq<char>>, n: int) -> (at: Seq<int>)
    requires
        0 <= n <= lines.len(),
    ensures
        at.len() == encoders_upto(lines, n).len(),
        forall|k: int|
            0 <= k < at.len() ==> 0 <= #[trigger] at[k] < n && listed(lines, at[k])
                && tells_encoder(
                lines[at[k]],
                encoders_upto(lines, n)[k].0,
                encoders_upto(lines, n)[k].1,
            ),
        forall|k: int, l: int| 0 <= k < l < at.len() ==> #[trigger] at[k] < #[trigger] at[l],
        forall|i: int, name: Seq<char>, kind: StreamKind|
            0 <= i < n && listed(lines, i) && #[trigger] tells_encoder(lines[i], name, kind)
                ==> at.contains(i),
    decreases n,
{
    if n == 0 {
        Seq::empty()
    } else {
        let before = lemma_encoders(lines, n - 1);
        lemma_divided(lines, n - 1);
        let p = encoders_upto(lines, n - 1);
        if divided(lines, n - 1) && encoder_entry(lines[n - 1]) is Some {
            let at = before.push(n - 1);
            assert(encoders_upto(lines, n) == p.push(encoder_entry(lines[n - 1])->0));
            assert forall|i: int, name: Seq<char>, kind: StreamKind|
                0 <= i < n && listed(lines, i) && #[trigger] tells_encoder(
                    lines[i],
                    name,
                    kind,
                ) implies at.contains(i) by {
                if i < n - 1 {
                    let k = choose|k: int| 0 <= k < before.len() && before[k] == i;
                    assert(at[k] == i);
                } else {
                    assert(at[before.len() as int] == i);
                }
            }
            at
        } else {
            before
        }
    }
}

/// The encoders of a listing are those that its lines behind the divider tell,
/// each under its name and with its kind, in the order of the lines.
pub proof fn encoders_are_those_of_the_listing(lines: Seq<Seq<char>>) -> (at: Seq<int>)
    ensures
        ({
            let found = encoders_upto(lines, lines.len() as int);
            &&& at.len() == found.len()
            &&& forall|k: int|
                0 <= k < at.len() ==> 0 <= #[trigger] at[k] < lines.len() && listed(lines, at[k])
                    && tells_encoder(lines[at[k]], found[k].0, found[k].1)
            &&& forall|k: int, l: int|
                0 <= k < l < at.len() ==> #[trigger] at[k] < #[trigger] at[l]
            &&& forall|i: int, name: Seq<char>, kind: StreamKind|
                0 <= i < lines.len() && listed(lines, i) && #[trigger] tells_encoder(
                    lines[i],
                    name,
                    kind,
                ) ==> at.contains(i)
        }),
{
    lemma_encoders(lines, lines.len() as int)
}

/// Whether a line tells a muxer: its second word is the muxer's name, and its
/// first word holds the letter for muxing.
pub open spec fn tells_muxer(line: Seq<char>, name: Seq<char>) -> bool {
    let w = words_spec(line);
    w.len() >= 2 && w[1] == name && exists|i: int| 0 <= i < w[0].len() && w[0][i] == 'E'
}

proof fn lemma_muxers(lines: Seq<Seq<char>>, n: int) -> (at: Seq<int>)
    requires
        0 <= n <= lines.len(),
    ensures
        at.len() == muxers_upto(lines, n).len(),
        forall|k: int|
            0 <= k < at.len() ==> 0 <= #[trigger] at[k] < n && listed(lines, at[k]) && tells_muxer(
                lines[at[k]],
                muxers_upto(lines, n)[k],
            ),
        forall|k: int, l: int| 0 <= k < l < at.len() ==> #[trigger] at[k] < #[trigger] at[l],
        forall|i: int, name: Seq<char>|
            0 <= i < n && listed(lines, i) && #[trigger] tells_muxer(lines[i], name)
                ==> at.contains(i),
    decreases n,
{
    if n == 0 {
        Seq::empty()
    } else {
        let before = lemma_muxers(lines, n - 1);
        lemma_divided(lines, n - 1);
        let p = muxers_upto(lines, n - 1);
        if divided(lines, n - 1) && muxer_entry(lines[n - 1]) is Some {
            let at = before.push(n - 1);
            assert(muxers_upto(lines, n) == p.push(muxer_entry(lines[n - 1])->0));
            assert(tells_muxer(lines[n - 1], muxer_entry(lines[n - 1])->0));
            assert forall|i: int, name: Seq<char>|
                0 <= i < n && listed(lines, i) && #[trigger] tells_muxer(
                    lines[i],
                    name,
                ) implies at.contains(i) by {
                if i < n - 1 {
                    let k = choose|k: int| 0 <= k < before.len() && before[k] == i;
                    assert(at[k] == i);
                } else {
                    assert(at[before.len() as int] == i);
                }
            }
            at
        } else {
            assert forall|name: Seq<char>| listed(lines, n - 1) implies !#[trigger] tells_muxer(
                lines[n - 1],
                name,
            ) by {
                if tells_muxer(lines[n - 1], name) {
                    assert(words_spec(lines[n - 1])[0].contains('E'));
                }
            }
            before
        }
    }
}

/// The muxers of a listing are those that its lines behind the divider tell,
/// in the order of the lines.
pub proof fn muxers_are_those_of_the_listing(lines: Seq<Seq<char>>) -> (at: Seq<int>)
    ensures
        ({
            let found = muxers_upto(lines, lines.len() as int);
            &&& at.len() == found.len()
            &&& forall|k: int|
                0 <= k < at.len() ==> 0 <= #[trigger] at[k] < lines.len() && listed(lines, at[k])
                    && tells_muxer(lines[at[k]], found[k])
            &&& forall|k: int, l: int|
                0 <= k < l < at.len() ==> #[trigger] at[k] < #[trigger] at[l]
            &&& forall|i: int, name: Seq<char>|
                0 <= i < lines.len() && listed(lines, i) && #[trigger] tells_muxer(lines[i], name)
                    ==> at.contains(i)
        }),
{
    lemma_muxers(lines, lines.len() as int)
}

/// A tool is run from the chosen directory, under its own name, whether or not
/// the directory was written with a slash at its end.
pub proof fn tools_are_run_from_the_chosen_directory(dir: Seq<char>, name: Seq<char>)
    requires
        dir.len() > 0 && dir.last() != '/',
        name.len() > 0 && name[0] != '/',
    ensures
        binary_path(name, Some(dir)) == dir + seq!['/'] + name,
        binary_path(name, Some(dir + seq!['/'])) == dir + seq!['/'] + name,
        binary_path(name, None) == name,
{
    reveal_strlit("/");
    assert("/"@ == seq!['/']);
}

// ---------------------------------------------------------------------
// Logs
// ---------------------------------------------------------------------

/// A line that is tagged as a warning is one; else a line that is tagged as an
/// error, as fatal or as a panic is an error, wherever the tag stands.
pub proof fn tags_tell_the_severity(before: Seq<char>, after: Seq<char>)
    ensures
        severity(before + "[warning]"@ + after) == Some(LogSeverity::Warning),
        severity(before + "[error]"@ + after) is Some,
        severity(before + "[fatal]"@ + after) is Some,
        severity(before + "[panic]"@ + after) is Some,
        !contains_spec(before + "[error]"@ + after, "[warning]"@) ==> severity(
            before + "[error]"@ + after,
        ) == Some(LogSeverity::Error),
        !contains_spec(before + "[fatal]"@ + after, "[warning]"@) ==> severity(
            before + "[fatal]"@ + after,
        ) == Some(LogSeverity::Error),
        !contains_spec(before + "[panic]"@ + after, "[warning]"@) ==> severity(
            before + "[panic]"@ + after,
        ) == Some(LogSeverity::Error),
{
    lemma_holds(before, "[warning]"@, after);
    lemma_holds(before, "[error]"@, after);
    lemma_holds(before, "[fatal]"@, after);
    lemma_holds(before, "[panic]"@, after);
}

proof fn lemma_holds(before: Seq<char>, tag: Seq<char>, after: Seq<char>)
    ensures
        contains_spec(before + tag + after, tag),
{
    let s = before + tag + after;
    let i = before.len() as int;
    assert(s.subrange(i, i + tag.len()) == tag);
    assert(occurs_at(s, tag, i));
}

// ---------------------------------------------------------------------
// Positions
// ---------------------------------------------------------------------

/// Every character can stand in a position.
pub open spec fn in_position(s: Seq<char>) -> bool {
    forall|i: int| 0 <= i < s.len() ==> ('0' <= #[trigger] s[i] <= '9' || s[i] == '.')
}

proof fn lemma_position_end(number: Seq<char>, c: char, rest: Seq<char>, i: int)
    requires
        in_position(number),
        !position_char(c),
        0 <= i <= number.len(),
    ensures
        position_end(number + seq![c] + rest, i) == Some(number.len() as int),
    decreases number.len() - i,
{
    let s = number + seq![c] + rest;
    if i < number.len() {
        assert(s[i] == number[i]);
        lemma_position_end(number, c, rest, i + 1);
    } else {
        assert(s[i] == c);
    }
}

/// A fragment of ffplay's output that begins with a number, with something
/// else behind it, tells that number as the position; one that begins
/// otherwise tells none.
pub proof fn position_is_the_leading_number(
    number: Seq<char>,
    c: char,
    rest: Seq<char>,
)
    requires
        in_position(number) && number.len() > 0,
        !('0' <= c <= '9' || c == '.'),
    ensures
        position_text(number + seq![c] + rest) == Some(number),
        !crate::text::white(c) ==> position_text(seq![c] + rest) is None,
{
    let s = number + seq![c] + rest;
    lemma_position_end(number, c, rest, 0);
    assert(s[0] == number[0]);
    assert(trim_start_spec(s) == s);
    assert(s.subrange(0, number.len() as int) == number);
    let t = seq![c] + rest;
    assert(t[0] == c);
}

/// A fragment counts once it is ended by a carriage return or a line feed.
pub proof fn finished_fragment_tells_its_position(fragment: Seq<char>, end: char)
    requires
        forall|i: int| 0 <= i < fragment.len() ==> #[trigger] fragment[i] != '\r' && fragment[i]
            != '\n',
        end == '\r' || end == '\n',
    ensures
        positions(fragment + seq![end]) == (match position_text(fragment) {
            Some(t) => seq![t],
            None => Seq::empty(),
        }),
        positions(fragment) == Seq::<Seq<char>>::empty(),
        unfinished(fragment + seq![end]) == Seq::<char>::empty(),
        unfinished(fragment) == fragment,
{
    let n = fragment.len() as int;
    let s = fragment + seq![end];
    assert forall|j: int| 0 <= j < n implies !ends_fragment(#[trigger] s[j]) by {
        assert(s[j] == fragment[j]);
    }
    lemma_quiet(s, n);
    lemma_quiet(fragment, n);
    assert(s.subrange(0, n) == fragment);
    assert(fragment.subrange(0, n) == fragment);
    assert(s[n] == end);
    match position_text(fragment) {
        Some(t) => {
            assert(positions_upto(s, n).push(t) == seq![t]);
        },
        None => {},
    }
}

// ---------------------------------------------------------------------
// Players
// ---------------------------------------------------------------------

/// mpv scrubs the file, from the start time on, with its commands on the
/// socket; it draws in the terminal where there is no display, and only there.
pub proof fn mpv_scrubs_the_file_from_its_start(
    path: Seq<char>,
    socket: Seq<char>,
    start: Seq<char>,
)
    ensures
        ({
            let shown = mpv_scrub_args_spec(path, socket, start, false);
            let drawn = mpv_scrub_args_spec(path, socket, start, true);
            &&& shown.last() == path && drawn.last() == path
            &&& shown.contains("--start="@ + start) && drawn.contains("--start="@ + start)
            &&& shown.contains("--input-ipc-server="@ + socket) && drawn.contains(
                "--input-ipc-server="@ + socket,
            )
            &&& drawn.contains("--vo=tct"@) && drawn.contains("--input-terminal=no"@)
            &&& shown.len() == 4 && shown[2] == "--title=tff scrub"@
        }),
{
    let shown = mpv_scrub_args_spec(path, socket, start, false);
    let drawn = mpv_scrub_args_spec(path, socket, start, true);
    assert(shown[0] == "--input-ipc-server="@ + socket);
    assert(shown[1] == "--start="@ + start);
    assert(drawn[0] == "--input-ipc-server="@ + socket);
    assert(drawn[1] == "--start="@ + start);
    assert(drawn[2] == "--vo=tct"@);
    assert(drawn[3] == "--input-terminal=no"@);
}

/// A seek goes by a second, up when it goes forward and down when it goes
/// back.
pub proof fn seeks_go_by_a_second()
    ensures
        one_second(true).millis == 1000 && one_second(true).text == "1"@,
        one_second(false).millis == -1000 && one_second(false).text == "-1"@,
{
}

// ---------------------------------------------------------------------
// Chapters
// ---------------------------------------------------------------------

/// Chapters as ffmpeg's metadata format writes them, one behind the other.
pub open spec fn sections(chapters: Seq<ChapterView>) -> Seq<char>
    decreases chapters.len(),
{
    if chapters.len() == 0 {
        Seq::empty()
    } else {
        let c = chapters[0];
        "[CHAPTER]\nTIMEBASE=1/1000\n"@ + "START="@ + signed_decimal(c.start_secs.millis as int)
            + "\n"@ + "END="@ + signed_decimal(c.end_secs.millis as int) + "\n"@ + "title="@
            + escape_spec(c.title) + "\n"@ + sections(chapters.drop_first())
    }
}

proof fn lemma_sections(chapters: Seq<ChapterView>, n: int)
    requires
        0 <= n <= chapters.len(),
    ensures
        ffmetadata_upto(chapters, n) == ";FFMETADATA1\n"@ + sections(chapters.take(n)),
    decreases n,
{
    if n > 0 {
        lemma_sections(chapters, n - 1);
        lemma_sections_behind(chapters.take(n));
        assert(chapters.take(n).drop_last() == chapters.take(n - 1));
        assert(chapters.take(n).last() == chapters[n - 1]);
        assert(ffmetadata_upto(chapters, n) == ";FFMETADATA1\n"@ + (sections(chapters.take(n - 1))
            + sections(seq![chapters[n - 1]])));
    } else {
        assert(chapters.take(0) == Seq::<ChapterView>::empty());
        assert(";FFMETADATA1\n"@ + Seq::<char>::empty() == ";FFMETADATA1\n"@);
    }
}

proof fn lemma_sections_behind(chapters: Seq<ChapterView>)
    requires
        chapters.len() > 0,
    ensures
        sections(chapters) == sections(chapters.drop_last()) + sections(seq![chapters.last()]),
        sections(seq![chapters.last()]) == crate::graph::chapter::chapter_section(chapters.last()),
    decreases chapters.len(),
{
    reveal_strlit("[CHAPTER]\nTIMEBASE=1/1000\n");
    reveal_strlit("START=");
    reveal_strlit("END=");
    reveal_strlit("title=");
    reveal_strlit("\n");
    reveal_strlit("[CHAPTER]\nTIMEBASE=1/1000\nSTART=");
    reveal_strlit("\nEND=");
    reveal_strlit("\ntitle=");
    let c = chapters.last();
    let one = seq![c];
    assert(one.drop_first() == Seq::<ChapterView>::empty());
    assert(sections(one.drop_first()) == Seq::<char>::empty());
    assert("[CHAPTER]\nTIMEBASE=1/1000\nSTART="@ == "[CHAPTER]\nTIMEBASE=1/1000\n"@ + "START="@);
    assert("\nEND="@ == "\n"@ + "END="@);
    assert("\ntitle="@ == "\n"@ + "title="@);
    assert(sections(one) == crate::graph::chapter::chapter_section(c));
    if chapters.len() == 1 {
        assert(chapters == one);
        assert(chapters.drop_last() == Seq::<ChapterView>::empty());
        assert(sections(chapters.drop_last()) == Seq::<char>::empty());
    } else {
        lemma_sections_behind(chapters.drop_first());
        assert(chapters.drop_first().drop_last() == chapters.drop_last().drop_first());
        assert(chapters.drop_last()[0] == chapters[0]);
        assert(chapters.drop_first().last() == c);
        assert(sections(chapters) == sections(chapters.drop_last()) + sections(one));
    }
}

/// The metadata file of a chapter list tells every chapter, in order, with its
/// own start, its own end and its own title.
pub proof fn file_tells_every_chapter_in_order(chapters: Seq<ChapterView>)
    ensures
        ffmetadata(chapters) == ";FFMETADATA1\n"@ + sections(chapters),
{
    lemma_sections(chapters, chapters.len() as int);
    assert(chapters.take(chapters.len() as int) == chapters);
}

/// Whether no character that the metadata format gives a meaning to stands
/// without a backslash before it.
pub open spec fn guarded(t: Seq<char>) -> bool
    decreases t.len(),
{
    if t.len() == 0 {
        true
    } else if t[0] == '\\' {
        t.len() > 1 && guarded(t.skip(2))
    } else {
        t[0] != '=' && t[0] != ';' && t[0] != '#' && t[0] != '\n' && guarded(t.skip(1))
    }
}

/// Whether a text holds no character that the metadata format gives a meaning
/// to.
pub open spec fn harmless_text(s: Seq<char>) -> bool {
    forall|i: int|
        0 <= i < s.len() ==> #[trigger] s[i] != '=' && s[i] != ';' && s[i] != '#' && s[i] != '\\'
            && s[i] != '\n'
}

/// An escaped value holds no bare character with a meaning, and a value
/// without such characters stays as it is.
pub proof fn escaping_guards_what_has_a_meaning(s: Seq<char>)
    ensures
        guarded(escape_spec(s)),
        harmless_text(s) ==> escape_spec(s) == s,
    decreases s.len(),
{
    if s.len() > 0 {
        lemma_escape_front(s);
        let rest = s.drop_first();
        escaping_guards_what_has_a_meaning(rest);
        let t = escape_spec(s);
        assert forall|i: int| harmless_text(s) && 0 <= i < rest.len() implies #[trigger] rest[i]
            == s[i + 1] by {}
        if crate::graph::chapter::special(s[0]) {
            assert(t.skip(2) == escape_spec(rest));
        } else {
            assert(t.skip(1) == escape_spec(rest));
            if harmless_text(s) {
                assert(harmless_text(rest)) by {
                    assert forall|i: int| 0 <= i < rest.len() implies #[trigger] rest[i] != '='
                        && rest[i] != ';' && rest[i] != '#' && rest[i] != '\\' && rest[i]
                        != '\n' by {
                        assert(rest[i] == s[i + 1]);
                    }
                }
                assert(seq![s[0]] + rest == s);
            }
        }
    }
}

/// A time is read by its parts: one that holds no colon is a number of
/// seconds, and one that holds colons is cut at them, into two or three parts
/// with something in each.
pub proof fn times_are_cut_at_the_colons(input: Seq<char>)
    ensures
        ({
            let s = trim_spec(input);
            let parts = split_spec(s, ':');
            match time_fields_spec(input) {
                Some(f) => s.len() > 0 && 1 <= f.len() <= 3 && if s.contains(':') {
                    &&& f == parts
                    &&& forall|i: int| 0 <= i < f.len() ==> (#[trigger] f[i]).len() > 0
                } else {
                    f == seq![s]
                },
                None => s.len() == 0 || parts.len() > 3 || exists|i: int|
                    0 <= i < parts.len() && (#[trigger] parts[i]).len() == 0,
            }
        }),
{
    let s = trim_spec(input);
    crate::text_laws::split_parts_join_back(s, ':');
}

} // verus!
