//! Which files a command line opens, and by which number each is known.
use vstd::prelude::*;

use super::args::{
    chapter_index, edited_upto, ffmpeg_args, file_args_upto, file_of, filter_args, input_args_upto,
    maps_upto, node_from, option_tokens, or_empty, output_chains, padded_end, preview_args,
    refs_upto, section_spec, sections_upto, seek_args, seek_from, source_spec, sourced_from,
    sourced_rank, sourced_set, sourced_upto, tokens, tokens_upto, Args, ChapterFileView, Plumbing,
    SeekKeyView, SeekView, Sourced,
};
use super::chain_laws::{first_wire, lemma_first_wire};
use super::chapter::ChapterSource;
use super::node::{numeral, InputNode, InputView, NumeralView, OutputNode};
use super::resolve::{output_chapters_spec, ResolvedView};
use super::stream::StreamKind;
use super::wire::{Endpoint, NodeId, Target};
use super::{lemma_position, position, GraphView, Identified};
use crate::fields::{field_get, Entry};
use crate::text::decimal;

verus! {

// ---------------------------------------------------------------------
// Reading a command line
// ---------------------------------------------------------------------

/// Whether a word takes the next word as its value, among those that matter
/// for what is opened.
pub open spec fn takes_value(word: Seq<char>) -> bool {
    word == "-i"@ || word == "-ss"@ || word == "-to"@
}

/// The files that a command line opens, in order: the word behind each `-i`.
/// The first one is number zero to ffmpeg, and so on.
pub open spec fn opened(args: Args) -> Args
    decreases args.len(),
{
    if args.len() < 2 {
        Seq::empty()
    } else if args[0] == "-i"@ {
        seq![args[1]] + opened(args.skip(2))
    } else if takes_value(args[0]) {
        opened(args.skip(2))
    } else {
        opened(args.skip(1))
    }
}

/// Whether the words can be read on their own: the last of them does not wait
/// for a value.
pub open spec fn whole(args: Args) -> bool
    decreases args.len(),
{
    if args.len() == 0 {
        true
    } else if takes_value(args[0]) {
        args.len() >= 2 && whole(args.skip(2))
    } else {
        whole(args.skip(1))
    }
}

proof fn lemma_read_on(a: Args, b: Args)
    requires
        whole(a),
    ensures
        opened(a + b) == opened(a) + opened(b),
        whole(b) ==> whole(a + b),
    decreases a.len(),
{
    let ab = a + b;
    if a.len() == 0 {
        assert(ab =~= b);
        assert(opened(a) + opened(b) =~= opened(b));
    } else if takes_value(a[0]) {
        assert(ab.skip(2) =~= a.skip(2) + b);
        lemma_read_on(a.skip(2), b);
        if a[0] == "-i"@ {
            assert(opened(ab) =~= seq![a[1]] + (opened(a.skip(2)) + opened(b)));
            assert(seq![a[1]] + (opened(a.skip(2)) + opened(b)) =~= opened(a) + opened(b));
        }
    } else {
        assert(ab.skip(1) =~= a.skip(1) + b);
        lemma_read_on(a.skip(1), b);
        if ab.len() < 2 {
            assert(a.skip(1).len() == 0);
            assert(opened(a.skip(1)) + opened(b) =~= Seq::empty());
            assert(opened(a) + opened(b) =~= Seq::empty());
        } else if a.len() < 2 {
            assert(a.skip(1).len() == 0);
            assert(opened(a.skip(1)) =~= opened(a));
        }
    }
}

/// An option that opens nothing and swallows no other word.
pub open spec fn harmless(e: Entry) -> bool {
    &&& e.0 != "i"@
    &&& e.0 == "ss"@ || e.0 == "to"@ ==> e.1.len() > 0
    &&& !takes_value(e.1)
}

/// Options of an input that open nothing themselves.
pub open spec fn harmless_options(input: InputView) -> bool {
    forall|i: int| 0 <= i < input.extra_args.len() ==> harmless(#[trigger] input.extra_args[i])
}

/// None of the inputs has an option that opens something itself.
pub open spec fn only_inputs_open(g: GraphView) -> bool {
    forall|p: int| 0 <= p < g.inputs.len() ==> harmless_options(#[trigger] g.inputs[p])
}

proof fn lemma_dashed(k: Seq<char>)
    ensures
        "-"@ + k == "-i"@ ==> k == "i"@,
        "-"@ + k == "-ss"@ ==> k == "ss"@,
        "-"@ + k == "-to"@ ==> k == "to"@,
{
    reveal_strlit("-");
    reveal_strlit("-i");
    reveal_strlit("-ss");
    reveal_strlit("-to");
    reveal_strlit("i");
    reveal_strlit("ss");
    reveal_strlit("to");
    let w = "-"@ + k;
    assert(w.skip(1) =~= k);
    if w == "-i"@ {
        assert("-i"@.skip(1) =~= "i"@);
    }
    if w == "-ss"@ {
        assert("-ss"@.skip(1) =~= "ss"@);
    }
    if w == "-to"@ {
        assert("-to"@.skip(1) =~= "to"@);
    }
}

proof fn lemma_words_differ()
    ensures
        "-i"@ != "-ss"@,
        "-i"@ != "-to"@,
        !takes_value("-y"@),
        !takes_value("-copyts"@),
{
    reveal_strlit("-i");
    reveal_strlit("-ss");
    reveal_strlit("-to");
    reveal_strlit("-y");
    reveal_strlit("-copyts");
    assert("-i"@.len() == 2 && "-ss"@.len() == 3 && "-to"@.len() == 3);
    assert("-y"@[1] == 'y' && "-i"@[1] == 'i');
    assert("-y"@.len() == 2 && "-copyts"@.len() == 7);
}

/// A single word that takes no value opens nothing.
proof fn lemma_one_word(w: Seq<char>)
    requires
        !takes_value(w),
    ensures
        whole(seq![w]),
        opened(seq![w]) == Seq::<Seq<char>>::empty(),
{
    assert(seq![w].skip(1) =~= Seq::empty());
    assert(whole(Seq::<Seq<char>>::empty()));
}

proof fn lemma_two_words(w: Seq<char>, v: Seq<char>)
    requires
        takes_value(w),
    ensures
        whole(seq![w, v]),
        opened(seq![w, v]) == (if w == "-i"@ {
            seq![v]
        } else {
            Seq::empty()
        }),
{
    let s = seq![w, v];
    assert(s.skip(2) =~= Seq::empty());
    assert(whole(Seq::<Seq<char>>::empty()));
    assert(opened(Seq::<Seq<char>>::empty()) =~= Seq::<Seq<char>>::empty());
    assert(seq![v] + Seq::<Seq<char>>::empty() =~= seq![v]);
}

proof fn lemma_option_opens_nothing(e: Entry)
    requires
        harmless(e),
    ensures
        whole(option_tokens(e)),
        opened(option_tokens(e)) == Seq::<Seq<char>>::empty(),
{
    let word = "-"@ + e.0;
    lemma_dashed(e.0);
    lemma_words_differ();
    if e.1.len() == 0 {
        lemma_one_word(word);
    } else if takes_value(word) {
        lemma_two_words(word, e.1);
    } else {
        lemma_one_word(word);
        lemma_one_word(e.1);
        lemma_read_on(seq![word], seq![e.1]);
        assert(seq![word] + seq![e.1] =~= seq![word, e.1]);
    }
}

proof fn lemma_options_open_nothing(m: Seq<Entry>, n: int)
    requires
        0 <= n <= m.len(),
        forall|i: int| 0 <= i < m.len() ==> harmless(#[trigger] m[i]),
    ensures
        whole(tokens_upto(m, n)),
        opened(tokens_upto(m, n)) == Seq::<Seq<char>>::empty(),
    decreases n,
{
    if n > 0 {
        lemma_options_open_nothing(m, n - 1);
        lemma_option_opens_nothing(m[n - 1]);
        lemma_read_on(tokens_upto(m, n - 1), option_tokens(m[n - 1]));
    }
}

// ---------------------------------------------------------------------
// Inputs and chapter files
// ---------------------------------------------------------------------

proof fn lemma_inputs_open(inputs: Seq<InputView>, n: int)
    requires
        0 <= n <= inputs.len(),
        forall|p: int| 0 <= p < inputs.len() ==> harmless_options(#[trigger] inputs[p]),
    ensures
        whole(input_args_upto(inputs, n)),
        opened(input_args_upto(inputs, n)).len() == n,
        forall|p: int| 0 <= p < n ==> #[trigger] opened(input_args_upto(inputs, n))[p]
            == inputs[p].path,
    decreases n,
{
    if n > 0 {
        lemma_inputs_open(inputs, n - 1);
        let before = input_args_upto(inputs, n - 1);
        let input = inputs[n - 1];
        let options = tokens(input.extra_args);
        let end = seq!["-i"@, input.path];
        lemma_options_open_nothing(input.extra_args, input.extra_args.len() as int);
        lemma_two_words("-i"@, input.path);
        lemma_read_on(before, options);
        lemma_read_on(before + options, end);
        assert(opened(before) + Seq::<Seq<char>>::empty() =~= opened(before));
    }
}

proof fn lemma_files_open(edited: Seq<NodeId>, files: Seq<ChapterFileView>, n: int)
    requires
        0 <= n <= edited.len(),
    ensures
        whole(file_args_upto(edited, files, n)),
        opened(file_args_upto(edited, files, n)).len() == n,
        forall|j: int| 0 <= j < n ==> #[trigger] opened(file_args_upto(edited, files, n))[j]
            == or_empty(file_of(files, edited[j])),
    decreases n,
{
    if n > 0 {
        lemma_files_open(edited, files, n - 1);
        let path = or_empty(file_of(files, edited[n - 1]));
        lemma_two_words("-i"@, path);
        lemma_read_on(file_args_upto(edited, files, n - 1), seq!["-i"@, path]);
    }
}

proof fn lemma_edited_have_files(m: Seq<Sourced>, files: Seq<ChapterFileView>, n: int)
    requires
        0 <= n <= m.len(),
    ensures
        forall|j: int|
            0 <= j < edited_upto(m, files, n).len() ==> file_of(
                files,
                #[trigger] edited_upto(m, files, n)[j],
            ) is Some,
    decreases n,
{
    if n > 0 {
        lemma_edited_have_files(m, files, n - 1);
    }
}

// ---------------------------------------------------------------------
// Windows
// ---------------------------------------------------------------------

/// The words that open a window of a file for the first time stand behind
/// those that open the others. They end with `-i` and the file's path; before
/// that, `-ss` stands directly in front of the start where there is one, and
/// `-to` directly in front of the end where there is one, moved two seconds
/// later where it is a number of seconds.
pub proof fn window_is_read_from_its_start_to_its_end(
    seeks: SeekView,
    ns: Seq<NumeralView>,
    input: InputView,
    start: Option<Seq<char>>,
    end: Option<Seq<char>>,
)
    ensures
        ({
            let (index, after) = seeks.get(ns, input, start, end);
            let key = SeekKeyView { node: input.id, start: or_empty(start), end: or_empty(end) };
            let old_len = seeks.args.len() as int;
            let n = after.args.len() as int;
            &&& after.first_index == seeks.first_index
            &&& index >= after.first_index
            &&& index - after.first_index < after.keys.len()
            &&& after.keys[index - after.first_index] == key
            &&& seeks.keys.is_prefix_of(after.keys)
            &&& seeks.args.is_prefix_of(after.args)
            &&& !seeks.keys.contains(key) ==> {
                &&& index == seeks.first_index + seeks.keys.len()
                &&& after.keys == seeks.keys.push(key)
                &&& n >= old_len + 3
                &&& after.args[n - 1] == input.path
                &&& after.args[n - 2] == "-i"@
                &&& start matches Some(s) ==> exists|j: int|
                    old_len <= j && j + 1 < n - 2 && #[trigger] after.args[j] == "-ss"@
                        && after.args[j + 1] == s
                &&& end matches Some(e) ==> exists|j: int|
                    old_len <= j && j + 1 < n - 2 && #[trigger] after.args[j] == "-to"@
                        && after.args[j + 1] == (match numeral(ns, e) {
                        Some(number) => number.padded,
                        None => e,
                    })
            }
            &&& seeks.keys.contains(key) ==> after == seeks
        }),
{
    let key = SeekKeyView { node: input.id, start: or_empty(start), end: or_empty(end) };
    lemma_seek_found(seeks.keys, key, 0);
    let (index, after) = seeks.get(ns, input, start, end);
    if !seeks.keys.contains(key) {
        let more = seek_args(ns, input, start, end);
        let options = tokens(input.extra_args);
        let first = match start {
            Some(s) => seq!["-ss"@, s],
            None => Seq::empty(),
        };
        let at = (seeks.args.len() + options.len()) as int;
        if let Some(s) = start {
            assert(after.args[at] == "-ss"@);
            assert(after.args[at + 1] == s);
        }
        if let Some(e) = end {
            let j = at + first.len();
            assert(after.args[j] == "-to"@);
        }
        assert(seeks.keys.is_prefix_of(after.keys));
        assert(seeks.args.is_prefix_of(after.args));
    } else {
        assert(seeks.keys.is_prefix_of(after.keys));
        assert(seeks.args.is_prefix_of(after.args));
    }
}

proof fn lemma_seek_found(keys: Seq<SeekKeyView>, k: SeekKeyView, i: int)
    requires
        0 <= i <= keys.len(),
        forall|j: int| 0 <= j < i ==> keys[j] != k,
    ensures
        match seek_from(keys, k, i) {
            Some(p) => i <= p < keys.len() && keys[p] == k && keys.contains(k),
            None => !keys.contains(k),
        },
    decreases keys.len() - i,
{
    if i < keys.len() && keys[i] != k {
        lemma_seek_found(keys, k, i + 1);
    } else if i >= keys.len() {
        if keys.contains(k) {
            let j = choose|j: int| 0 <= j < keys.len() && keys[j] == k;
            assert(keys[j] == k);
        }
    }
}

/// The seeked inputs are opened one for each window, in the order of the
/// windows, and each from the file of its node.
pub open spec fn seeks_open(g: GraphView, seeks: SeekView) -> bool {
    &&& whole(seeks.args)
    &&& opened(seeks.args).len() == seeks.keys.len()
    &&& forall|i: int|
        0 <= i < seeks.keys.len() ==> (g.input((#[trigger] seeks.keys[i]).node) matches Some(input)
            && opened(seeks.args)[i] == input.path)
}

/// One state of what the sections share grew into another: no window lost its
/// number.
pub open spec fn grew(before: Plumbing, after: Plumbing) -> bool {
    &&& after.seeks.first_index == before.seeks.first_index
    &&& before.seeks.keys.is_prefix_of(after.seeks.keys)
    &&& before.filters.is_prefix_of(after.filters)
}

proof fn lemma_grew_on(a: Plumbing, b: Plumbing, c: Plumbing)
    requires
        grew(a, b),
        grew(b, c),
    ensures
        grew(a, c),
{
    assert forall|i: int| 0 <= i < a.seeks.keys.len() implies a.seeks.keys[i] == c.seeks.keys[i] by {
        assert(a.seeks.keys[i] == b.seeks.keys[i]);
    }
    assert forall|i: int| 0 <= i < a.filters.len() implies a.filters[i] == c.filters[i] by {
        assert(a.filters[i] == b.filters[i]);
    }
    assert(a.seeks.keys =~= c.seeks.keys.subrange(0, a.seeks.keys.len() as int));
    assert(a.filters =~= c.filters.subrange(0, a.filters.len() as int));
}

proof fn lemma_window_opens(
    g: GraphView,
    seeks: SeekView,
    ns: Seq<NumeralView>,
    input: InputView,
    start: Option<Seq<char>>,
    end: Option<Seq<char>>,
)
    requires
        seeks_open(g, seeks),
        g.input(input.id) == Some(input),
        harmless_options(input),
    ensures
        seeks_open(g, seeks.get(ns, input, start, end).1),
{
    window_is_read_from_its_start_to_its_end(seeks, ns, input, start, end);
    let key = SeekKeyView { node: input.id, start: or_empty(start), end: or_empty(end) };
    lemma_seek_found(seeks.keys, key, 0);
    let after = seeks.get(ns, input, start, end).1;
    if !seeks.keys.contains(key) {
        let options = tokens(input.extra_args);
        let first = match start {
            Some(s) => seq!["-ss"@, s],
            None => Seq::empty(),
        };
        let second = match end {
            Some(e) => seq!["-to"@, padded_end(ns, e)],
            None => Seq::empty(),
        };
        let tail = seq!["-copyts"@, "-i"@, input.path];
        lemma_words_differ();
        lemma_options_open_nothing(input.extra_args, input.extra_args.len() as int);
        if let Some(s) = start {
            lemma_two_words("-ss"@, s);
        }
        if let Some(e) = end {
            lemma_two_words("-to"@, padded_end(ns, e));
        }
        lemma_one_word("-copyts"@);
        lemma_two_words("-i"@, input.path);
        lemma_read_on(seq!["-copyts"@], seq!["-i"@, input.path]);
        assert(seq!["-copyts"@] + seq!["-i"@, input.path] =~= tail);
        let none = Seq::<Seq<char>>::empty();
        assert(none + none =~= none);
        assert(none + seq![input.path] =~= seq![input.path]);
        lemma_read_on(options, first);
        lemma_read_on(options + first, second);
        lemma_read_on(options + first + second, tail);
        let more = options + first + second + tail;
        assert(more == seek_args(ns, input, start, end));
        lemma_read_on(seeks.args, more);
        assert(opened(after.args) == opened(seeks.args) + seq![input.path]);
    }
}

proof fn lemma_source_opens(g: GraphView, r: ResolvedView, ns: Seq<NumeralView>, st: Plumbing)
    requires
        only_inputs_open(g),
        seeks_open(g, st.seeks),
    ensures
        seeks_open(g, source_spec(g, r, ns, st).1.seeks),
        grew(st, source_spec(g, r, ns, st).1),
    decreases r, 0nat,
{
    let after = source_spec(g, r, ns, st).1;
    match r {
        ResolvedView::Stream { from_node, from_stream_idx, settings } => {
            if let Some(input) = g.input(from_node) {
                lemma_position::<InputNode>(g.inputs, from_node);
                if (from_stream_idx as int) < input.streams.len() {
                    if settings.filters.len() == 1 {
                        let start = field_get(settings.filters[0].fields, "start"@);
                        let end = field_get(settings.filters[0].fields, "end"@);
                        lemma_window_opens(g, st.seeks, ns, input, start, end);
                        window_is_read_from_its_start_to_its_end(st.seeks, ns, input, start, end);
                    }
                }
            }
            assert(st.filters.is_prefix_of(after.filters));
            assert(grew(st, after)) by {
                assert(st.seeks.keys.is_prefix_of(st.seeks.keys));
            }
        },
        ResolvedView::Concat { kind, segments, settings } => {
            lemma_refs_open(g, segments, ns, st, segments.len());
            let mid = refs_upto(g, segments, ns, st, segments.len()).1;
            assert(grew(st, st)) by {
                assert(st.filters.is_prefix_of(st.filters));
                assert(st.seeks.keys.is_prefix_of(st.seeks.keys));
            }
            if (kind == StreamKind::Video || kind == StreamKind::Audio) {
                assert(grew(mid, after)) by {
                    assert(mid.filters.is_prefix_of(after.filters));
                    assert(mid.seeks.keys.is_prefix_of(after.seeks.keys));
                }
                lemma_grew_on(st, mid, after);
            }
        },
    }
}

proof fn lemma_refs_open(
    g: GraphView,
    segments: Seq<ResolvedView>,
    ns: Seq<NumeralView>,
    st: Plumbing,
    n: nat,
)
    requires
        only_inputs_open(g),
        seeks_open(g, st.seeks),
    ensures
        seeks_open(g, refs_upto(g, segments, ns, st, n).1.seeks),
        grew(st, refs_upto(g, segments, ns, st, n).1),
    decreases segments, n,
{
    assert(st.filters.is_prefix_of(st.filters));
    assert(st.seeks.keys.is_prefix_of(st.seeks.keys));
    if n > 0 && n <= segments.len() {
        lemma_refs_open(g, segments, ns, st, (n - 1) as nat);
        let (before, mid) = refs_upto(g, segments, ns, st, (n - 1) as nat);
        if before is Some {
            lemma_source_opens(g, segments[n - 1], ns, mid);
            lemma_grew_on(st, mid, source_spec(g, segments[n - 1], ns, mid).1);
        }
    }
}

proof fn lemma_maps_open(
    g: GraphView,
    chains: Seq<ResolvedView>,
    ns: Seq<NumeralView>,
    st: Plumbing,
    n: int,
)
    requires
        only_inputs_open(g),
        seeks_open(g, st.seeks),
    ensures
        seeks_open(g, maps_upto(g, chains, ns, st, n).2.seeks),
        grew(st, maps_upto(g, chains, ns, st, n).2),
    decreases n,
{
    assert(st.filters.is_prefix_of(st.filters));
    assert(st.seeks.keys.is_prefix_of(st.seeks.keys));
    if n > 0 {
        lemma_maps_open(g, chains, ns, st, n - 1);
        let mid = maps_upto(g, chains, ns, st, n - 1).2;
        lemma_source_opens(g, chains[n - 1], ns, mid);
        lemma_grew_on(st, mid, source_spec(g, chains[n - 1], ns, mid).1);
    }
}

proof fn lemma_sections_open(
    g: GraphView,
    ns: Seq<NumeralView>,
    sourced: Seq<Sourced>,
    edited: Seq<NodeId>,
    st: Plumbing,
    n: int,
)
    requires
        only_inputs_open(g),
        seeks_open(g, st.seeks),
    ensures
        seeks_open(g, sections_upto(g, ns, sourced, edited, st, n).1.seeks),
        grew(st, sections_upto(g, ns, sourced, edited, st, n).1),
    decreases n,
{
    assert(st.filters.is_prefix_of(st.filters));
    assert(st.seeks.keys.is_prefix_of(st.seeks.keys));
    if n > 0 {
        lemma_sections_open(g, ns, sourced, edited, st, n - 1);
        let mid = sections_upto(g, ns, sourced, edited, st, n - 1).1;
        let output = g.outputs[n - 1];
        let chains = output_chains(g, output.id);
        lemma_maps_open(g, chains, ns, mid, chains.len() as int);
        lemma_grew_on(st, mid, maps_upto(g, chains, ns, mid, chains.len() as int).2);
    }
}

// ---------------------------------------------------------------------
// The laws
// ---------------------------------------------------------------------

/// The state that the sections of a whole command line start from: no entries
/// yet, and seeked inputs numbered behind the inputs and the chapter files.
pub open spec fn at_start(g: GraphView, chapter_files: nat) -> Plumbing {
    Plumbing {
        filters: Seq::empty(),
        seeks: SeekView {
            first_index: (g.inputs.len() + chapter_files) as nat,
            keys: Seq::empty(),
            args: Seq::empty(),
        },
    }
}

/// The command line opens the inputs first, in their order, so that each has
/// its position as its number; then the files of the chapter nodes; then one
/// seeked input for each window, from the file that the window is of.
pub proof fn files_are_numbered_as_they_are_opened(
    g: GraphView,
    files: Seq<ChapterFileView>,
    ns: Seq<NumeralView>,
)
    requires
        only_inputs_open(g),
    ensures
        ({
            let sourced = sourced_upto(g, g.outputs.len() as int);
            let edited = edited_upto(sourced, files, sourced.len() as int);
            let (sections, st) = sections_upto(
                g,
                ns,
                sourced,
                edited,
                at_start(g, edited.len()),
                g.outputs.len() as int,
            );
            let all = opened(ffmpeg_args(g, files, ns));
            let first = g.inputs.len() + edited.len();
            &&& sections.is_suffix_of(ffmpeg_args(g, files, ns))
            &&& st.seeks.first_index == first
            &&& all.len() >= first + st.seeks.keys.len()
            &&& forall|p: int| 0 <= p < g.inputs.len() ==> #[trigger] all[p] == g.inputs[p].path
            &&& forall|j: int|
                0 <= j < edited.len() ==> file_of(files, #[trigger] edited[j]) == Some(
                    all[g.inputs.len() + j],
                )
            &&& forall|i: int|
                0 <= i < st.seeks.keys.len() ==> (g.input(
                    (#[trigger] st.seeks.keys[i]).node,
                ) matches Some(input) && all[first + i] == input.path)
        }),
{
    let sourced = sourced_upto(g, g.outputs.len() as int);
    let edited = edited_upto(sourced, files, sourced.len() as int);
    let start = at_start(g, edited.len());
    assert(start.seeks == SeekView::starting_at((g.inputs.len() + edited.len()) as nat));
    let (sections, st) = sections_upto(g, ns, sourced, edited, start, g.outputs.len() as int);
    lemma_sections_open(g, ns, sourced, edited, start, g.outputs.len() as int);
    lemma_edited_have_files(sourced, files, sourced.len() as int);
    lemma_heading_opens(g, files, edited, st, sections);
    let args = ffmpeg_args(g, files, ns);
    assert(sections =~= args.subrange(args.len() - sections.len(), args.len() as int));
}

/// The chapter nodes that a preview needs a file of: the one that its chapters
/// come from, where a file was written for it.
pub open spec fn preview_chapter_files(
    source: Option<ChapterSource>,
    files: Seq<ChapterFileView>,
) -> Seq<NodeId> {
    match source {
        Some(ChapterSource::Edited { modifier_id }) => if file_of(files, modifier_id) is Some {
            seq![modifier_id]
        } else {
            Seq::empty()
        },
        _ => Seq::empty(),
    }
}

/// So does the command line of a preview, which ends with the arguments of its
/// one output.
pub proof fn preview_files_are_numbered_as_they_are_opened(
    g: GraphView,
    id: NodeId,
    path: Seq<char>,
    seconds: nat,
    files: Seq<ChapterFileView>,
    ns: Seq<NumeralView>,
)
    requires
        only_inputs_open(g),
    ensures
        preview_args(g, id, path, seconds, files, ns) matches Some(args) ==> {
            let all = opened(args);
            let output = g.output(id)->0;
            let source = output_chapters_spec(g, output.id);
            let written = preview_chapter_files(source, files);
            let (section, st) = section_spec(
                g,
                output,
                path,
                seq!["-t"@, decimal(seconds)],
                ns,
                chapter_index(source, g.inputs.len(), written),
                at_start(g, written.len()),
            );
            let first = g.inputs.len() + written.len();
            &&& section is Some && section->0.is_suffix_of(args)
            &&& all.len() >= first + st.seeks.keys.len()
            &&& forall|p: int| 0 <= p < g.inputs.len() ==> #[trigger] all[p] == g.inputs[p].path
            &&& forall|i: int|
                0 <= i < st.seeks.keys.len() ==> (g.input(
                    (#[trigger] st.seeks.keys[i]).node,
                ) matches Some(input) && all[first + i] == input.path)
            &&& source matches Some(ChapterSource::Edited { modifier_id }) ==> (file_of(files, modifier_id) is Some ==> all.len() > g.inputs.len()
                && file_of(files, modifier_id) == Some(all[g.inputs.len() as int]))
        },
{
    if let Some(output) = g.output(id) {
        let source = output_chapters_spec(g, output.id);
        let sourced = match source {
            Some(s) => seq![(output.id, s)],
            None => Seq::empty(),
        };
        let edited = edited_upto(sourced, files, sourced.len() as int);
        let start = at_start(g, edited.len());
        assert(start.seeks == SeekView::starting_at((g.inputs.len() + edited.len()) as nat));
        let extra = seq!["-t"@, decimal(seconds)];
        let chapters = chapter_index(source, g.inputs.len(), edited);
        let (section, st) = section_spec(g, output, path, extra, ns, chapters, start);
        let chains = output_chains(g, output.id);
        lemma_maps_open(g, chains, ns, start, chains.len() as int);
        lemma_edited_have_files(sourced, files, sourced.len() as int);
        if let Some(s) = source {
            reveal_with_fuel(edited_upto, 2);
            assert(sourced[0].1 == s);
            if let ChapterSource::Edited { modifier_id } = s {
                if file_of(files, modifier_id) is Some {
                    assert(edited[0] == modifier_id);
                }
            }
        }
        assert(edited =~= preview_chapter_files(source, files));
        if let Some(more) = section {
            lemma_heading_opens(g, files, edited, st, more);
            let args = preview_args(g, id, path, seconds, files, ns)->0;
            assert(more =~= args.subrange(args.len() - more.len(), args.len() as int));
        }
    }
}

proof fn lemma_heading_opens(
    g: GraphView,
    files: Seq<ChapterFileView>,
    edited: Seq<NodeId>,
    st: Plumbing,
    sections: Args,
)
    requires
        only_inputs_open(g),
        seeks_open(g, st.seeks),
        forall|j: int| 0 <= j < edited.len() ==> file_of(files, #[trigger] edited[j]) is Some,
    ensures
        ({
            let all = opened(
                seq!["-y"@] + input_args_upto(g.inputs, g.inputs.len() as int) + file_args_upto(
                    edited,
                    files,
                    edited.len() as int,
                ) + st.seeks.args + filter_args(st.filters) + sections,
            );
            let first = g.inputs.len() + edited.len();
            &&& all.len() >= first + st.seeks.keys.len()
            &&& forall|p: int| 0 <= p < g.inputs.len() ==> #[trigger] all[p] == g.inputs[p].path
            &&& forall|j: int|
                0 <= j < edited.len() ==> file_of(files, #[trigger] edited[j]) == Some(
                    all[g.inputs.len() + j],
                )
            &&& forall|i: int|
                0 <= i < st.seeks.keys.len() ==> (g.input(
                    (#[trigger] st.seeks.keys[i]).node,
                ) matches Some(input) && all[first + i] == input.path)
        }),
{
    let n = g.inputs.len() as int;
    let m = edited.len() as int;
    let a = input_args_upto(g.inputs, n);
    let b = file_args_upto(edited, files, m);
    let c = st.seeks.args;
    let rest = filter_args(st.filters) + sections;
    let yes = seq!["-y"@];
    lemma_words_differ();
    lemma_one_word("-y"@);
    lemma_inputs_open(g.inputs, n);
    lemma_files_open(edited, files, m);
    lemma_read_on(yes, a);
    lemma_read_on(yes + a, b);
    lemma_read_on(yes + a + b, c);
    lemma_read_on(yes + a + b + c, rest);
    let args = yes + a + b + c + filter_args(st.filters) + sections;
    assert(args =~= yes + a + b + c + rest);
    let all = opened(args);
    assert(all == opened(yes) + opened(a) + opened(b) + opened(c) + opened(rest));
    assert forall|p: int| 0 <= p < n implies #[trigger] all[p] == g.inputs[p].path by {
        assert(all[p] == opened(a)[p]);
    }
    assert forall|j: int| 0 <= j < m implies file_of(files, #[trigger] edited[j]) == Some(
        all[n + j],
    ) by {
        assert(all[n + j] == opened(b)[j]);
    }
    assert forall|i: int| 0 <= i < st.seeks.keys.len() implies (g.input(
        (#[trigger] st.seeks.keys[i]).node,
    ) matches Some(input) && all[n + m + i] == input.path) by {
        assert(all[n + m + i] == opened(c)[i]);
    }
}

/// The options of an input stand directly before its own `-i`, behind all
/// that was opened before it.
pub proof fn options_stand_before_their_input(
    g: GraphView,
    files: Seq<ChapterFileView>,
    ns: Seq<NumeralView>,
    p: int,
) -> (r: (Args, Args))
    requires
        only_inputs_open(g),
        0 <= p < g.inputs.len(),
    ensures
        ffmpeg_args(g, files, ns) == r.0 + option_words(g.inputs[p].extra_args) + seq![
            "-i"@,
            g.inputs[p].path,
        ] + r.1,
        opened(r.0).len() == p,
{
    let sourced = sourced_upto(g, g.outputs.len() as int);
    let edited = edited_upto(sourced, files, sourced.len() as int);
    let start = Plumbing {
        filters: Seq::empty(),
        seeks: SeekView::starting_at((g.inputs.len() + edited.len()) as nat),
    };
    let (sections, st) = sections_upto(g, ns, sourced, edited, start, g.outputs.len() as int);
    let rest = file_args_upto(edited, files, edited.len() as int) + st.seeks.args + filter_args(
        st.filters,
    ) + sections;
    let n = g.inputs.len() as int;
    let yes = seq!["-y"@];
    let post = lemma_input_split(g.inputs, p + 1, n);
    let pre = yes + input_args_upto(g.inputs, p);
    lemma_words_differ();
    lemma_one_word("-y"@);
    lemma_inputs_open(g.inputs, p);
    lemma_read_on(yes, input_args_upto(g.inputs, p));
    lemma_option_words(g.inputs[p].extra_args, g.inputs[p].extra_args.len() as int);
    let m = g.inputs[p].extra_args;
    assert(m.take(m.len() as int) =~= m);
    assert(ffmpeg_args(g, files, ns) =~= pre + option_words(m) + seq!["-i"@, g.inputs[p].path] + (
    post + rest));
    (pre, post + rest)
}

proof fn lemma_input_split(inputs: Seq<InputView>, k: int, n: int) -> (post: Args)
    requires
        0 <= k <= n <= inputs.len(),
    ensures
        input_args_upto(inputs, n) == input_args_upto(inputs, k) + post,
    decreases n,
{
    if k == n {
        assert(input_args_upto(inputs, n) =~= input_args_upto(inputs, k) + Seq::empty());
        Seq::empty()
    } else {
        let post = lemma_input_split(inputs, k, n - 1);
        let more = tokens(inputs[n - 1].extra_args) + seq!["-i"@, inputs[n - 1].path];
        assert(input_args_upto(inputs, n) =~= input_args_upto(inputs, k) + (post + more));
        post + more
    }
}

/// Options as words, from the first on: a dash and the name, and then the
/// value where there is one.
pub open spec fn option_words(m: Seq<Entry>) -> Args
    decreases m.len(),
{
    if m.len() == 0 {
        Seq::empty()
    } else {
        let name = seq!["-"@ + m[0].0];
        let value = if m[0].1.len() == 0 {
            Seq::empty()
        } else {
            seq![m[0].1]
        };
        name + value + option_words(m.skip(1))
    }
}

proof fn lemma_option_words_push(m: Seq<Entry>)
    requires
        m.len() > 0,
    ensures
        option_words(m) == option_words(m.drop_last()) + option_tokens(m.last()),
    decreases m.len(),
{
    if m.len() == 1 {
        assert(m.skip(1) =~= Seq::empty());
        assert(m.drop_last() =~= Seq::empty());
        assert(option_words(m) =~= option_words(m.drop_last()) + option_tokens(m.last()));
    } else {
        lemma_option_words_push(m.skip(1));
        assert(m.skip(1).drop_last() =~= m.drop_last().skip(1));
        assert(option_words(m) =~= option_words(m.drop_last()) + option_tokens(m.last()));
    }
}

pub(crate) proof fn lemma_option_words(m: Seq<Entry>, n: int)
    requires
        0 <= n <= m.len(),
    ensures
        tokens_upto(m, n) == option_words(m.take(n)),
    decreases n,
{
    if n > 0 {
        lemma_option_words(m, n - 1);
        lemma_option_words_push(m.take(n));
        assert(m.take(n).drop_last() =~= m.take(n - 1));
    } else {
        assert(m.take(0) =~= Seq::empty());
    }
}

/// Chapters that come from an input are taken from the file of that number,
/// and those of a chapter node from the file that was written for it.
pub proof fn chapters_come_from_their_file(
    g: GraphView,
    files: Seq<ChapterFileView>,
    ns: Seq<NumeralView>,
    source: ChapterSource,
)
    requires
        only_inputs_open(g),
    ensures
        ({
            let sourced = sourced_upto(g, g.outputs.len() as int);
            let edited = edited_upto(sourced, files, sourced.len() as int);
            let all = opened(ffmpeg_args(g, files, ns));
            match (source, chapter_index(Some(source), g.inputs.len(), edited)) {
                (ChapterSource::FromInput { input_file_index }, index) => index == Some(
                    input_file_index as nat,
                ),
                (ChapterSource::Edited { modifier_id }, Some(index)) => index < all.len()
                    && file_of(files, modifier_id) == Some(all[index as int]),
                (ChapterSource::Edited { modifier_id }, None) => !edited.contains(modifier_id),
            }
        }),
{
    files_are_numbered_as_they_are_opened(g, files, ns);
    let sourced = sourced_upto(g, g.outputs.len() as int);
    let edited = edited_upto(sourced, files, sourced.len() as int);
    if let ChapterSource::Edited { modifier_id } = source {
        lemma_node_found(edited, modifier_id, 0);
    }
}

proof fn lemma_node_found(s: Seq<NodeId>, id: NodeId, i: int)
    requires
        0 <= i <= s.len(),
        forall|j: int| 0 <= j < i ==> s[j] != id,
    ensures
        match node_from(s, id, i) {
            Some(p) => i <= p < s.len() && s[p] == id,
            None => !s.contains(id),
        },
    decreases s.len() - i,
{
    if i < s.len() && s[i] != id {
        lemma_node_found(s, id, i + 1);
    } else if i >= s.len() {
        if s.contains(id) {
            let j = choose|j: int| 0 <= j < s.len() && s[j] == id;
            assert(s[j] == id);
        }
    }
}

/// Chapter sources are kept by output id.
spec fn by_output(m: Seq<Sourced>) -> bool {
    forall|i: int, j: int| 0 <= i < j < m.len() ==> (#[trigger] m[i]).0 < (#[trigger] m[j]).0
}

proof fn lemma_sourced_rank(m: Seq<Sourced>, id: NodeId, i: int)
    requires
        0 <= i <= m.len(),
    ensures
        i <= sourced_rank(m, id, i) <= m.len(),
        forall|j: int| i <= j < sourced_rank(m, id, i) ==> (#[trigger] m[j]).0 < id,
        sourced_rank(m, id, i) < m.len() ==> m[sourced_rank(m, id, i)].0 >= id,
    decreases m.len() - i,
{
    if i < m.len() && m[i].0 < id {
        lemma_sourced_rank(m, id, i + 1);
    }
}

proof fn lemma_sourced_found(m: Seq<Sourced>, id: NodeId, i: int)
    requires
        0 <= i <= m.len(),
    ensures
        match sourced_from(m, id, i) {
            Some(source) => exists|j: int|
                i <= j < m.len() && #[trigger] m[j] == (id, source),
            None => forall|j: int| i <= j < m.len() ==> (#[trigger] m[j]).0 != id,
        },
    decreases m.len() - i,
{
    if i < m.len() && m[i].0 != id {
        lemma_sourced_found(m, id, i + 1);
    } else if i < m.len() {
        assert(m[i] == (id, m[i].1));
    }
}

proof fn lemma_sourced_set(m: Seq<Sourced>, id: NodeId, source: ChapterSource, other: NodeId)
    requires
        by_output(m),
    ensures
        by_output(sourced_set(m, id, source)),
        sourced_from(sourced_set(m, id, source), id, 0) == Some(source),
        other != id ==> sourced_from(sourced_set(m, id, source), other, 0) == sourced_from(
            m,
            other,
            0,
        ),
{
    let r = sourced_rank(m, id, 0);
    let out = sourced_set(m, id, source);
    lemma_sourced_rank(m, id, 0);
    let there = r < m.len() && m[r].0 == id;
    assert(by_output(out)) by {
        assert forall|i: int, j: int| 0 <= i < j < out.len() implies (#[trigger] out[i]).0 < (
        #[trigger] out[j]).0 by {
            if !there {
                let a = if i < r {
                    i
                } else {
                    i - 1
                };
                let b = if j < r {
                    j
                } else {
                    j - 1
                };
                if i != r && j != r {
                    assert(m[a].0 < m[b].0);
                } else if i == r {
                    assert(out[j] == m[b]);
                    if b > r {
                        assert(m[r].0 < m[b].0);
                    }
                }
            } else {
                assert(m[i].0 < m[j].0);
            }
        }
    }
    assert(out[r] == (id, source));
    lemma_sourced_found(out, id, 0);
    lemma_sourced_found(out, other, 0);
    lemma_sourced_found(m, other, 0);
    let found = sourced_from(out, id, 0)->0;
    let k = choose|j: int| 0 <= j < out.len() && #[trigger] out[j] == (id, found);
    if k < r {
        assert(out[k].0 < out[r].0);
    } else if r < k {
        assert(out[r].0 < out[k].0);
    }
    if other != id {
        match sourced_from(m, other, 0) {
            Some(old) => {
                let j = choose|j: int| 0 <= j < m.len() && #[trigger] m[j] == (other, old);
                let q = if there || j < r {
                    j
                } else {
                    j + 1
                };
                assert(out[q] == (other, old));
                let now = sourced_from(out, other, 0)->0;
                let z = choose|z: int| 0 <= z < out.len() && #[trigger] out[z] == (other, now);
                if z < q {
                    assert(out[z].0 < out[q].0);
                } else if q < z {
                    assert(out[q].0 < out[z].0);
                }
            },
            None => {
                if let Some(now) = sourced_from(out, other, 0) {
                    let z = choose|z: int| 0 <= z < out.len() && #[trigger] out[z] == (other, now);
                    let j = if there || z < r {
                        z
                    } else {
                        z - 1
                    };
                    assert(m[j].0 == other);
                }
            },
        }
    }
}

proof fn lemma_sources_noted(g: GraphView, n: int, k: int)
    requires
        g.well_formed(),
        0 <= n <= g.outputs.len(),
        0 <= k < g.outputs.len(),
    ensures
        by_output(sourced_upto(g, n)),
        k < n ==> sourced_from(sourced_upto(g, n), g.outputs[k].id, 0) == output_chapters_spec(
            g,
            g.outputs[k].id,
        ),
        k >= n ==> sourced_from(sourced_upto(g, n), g.outputs[k].id, 0) is None,
    decreases n,
{
    if n > 0 {
        lemma_sources_noted(g, n - 1, k);
        lemma_sources_noted(g, n - 1, n - 1);
        let id = g.outputs[n - 1].id;
        let other = g.outputs[k].id;
        assert(<OutputNode as Identified>::tag(g.outputs[n - 1]) == id);
        assert(<OutputNode as Identified>::tag(g.outputs[k]) == other);
        if let Some(source) = output_chapters_spec(g, id) {
            lemma_sourced_set(sourced_upto(g, n - 1), id, source, other);
        }
    }
}

proof fn lemma_edited_listed(m: Seq<Sourced>, files: Seq<ChapterFileView>, n: int, k: int)
    requires
        0 <= k < n <= m.len(),
    ensures
        m[k].1 matches ChapterSource::Edited { modifier_id } ==> (file_of(
            files,
            modifier_id,
        ) is Some ==> edited_upto(m, files, n).contains(modifier_id)),
    decreases n,
{
    if let ChapterSource::Edited { modifier_id } = m[k].1 {
        if file_of(files, modifier_id) is Some {
            let before = edited_upto(m, files, n - 1);
            let now = edited_upto(m, files, n);
            if k < n - 1 {
                lemma_edited_listed(m, files, n - 1, k);
            }
            if before.contains(modifier_id) {
                let j = choose|j: int| 0 <= j < before.len() && before[j] == modifier_id;
                assert(now[j] == modifier_id);
            } else {
                assert(now.last() == modifier_id);
            }
        }
    }
}

/// Every output that has something mapped into it has its arguments in the
/// command line, with the path and the options of its own. Where an input
/// feeds its chapters slot, the number of that input's file is given for its
/// chapters; where a chapter node does, the number of the file that was
/// written for it.
pub proof fn every_output_gets_its_section(
    g: GraphView,
    files: Seq<ChapterFileView>,
    ns: Seq<NumeralView>,
    n: int,
) -> (r: (Args, Args, Plumbing, Option<nat>))
    requires
        g.well_formed(),
        only_inputs_open(g),
        0 <= n < g.outputs.len(),
    ensures
        ({
            let output = g.outputs[n];
            let (section, _) = section_spec(g, output, output.path, Seq::empty(), ns, r.3, r.2);
            let args = ffmpeg_args(g, files, ns);
            &&& section matches Some(own) ==> args == r.0 + own + r.1
            &&& match output_chapters_spec(g, output.id) {
                Some(ChapterSource::FromInput { input_file_index }) => r.3 == Some(
                    input_file_index as nat,
                ),
                Some(ChapterSource::Edited { modifier_id }) => match file_of(files, modifier_id) {
                    Some(path) => r.3 matches Some(index) && index < opened(args).len() && opened(
                        args,
                    )[index as int] == path,
                    None => r.3 is None,
                },
                None => r.3 is None,
            }
        }),
{
    let count = g.outputs.len() as int;
    let sourced = sourced_upto(g, count);
    let edited = edited_upto(sourced, files, sourced.len() as int);
    let start = at_start(g, edited.len());
    assert(start.seeks == SeekView::starting_at((g.inputs.len() + edited.len()) as nat));
    let output = g.outputs[n];
    let source = output_chapters_spec(g, output.id);
    lemma_sources_noted(g, count, n);
    lemma_sourced_found(sourced, output.id, 0);
    let index = chapter_index(source, g.inputs.len(), edited);
    if let Some(s) = source {
        chapters_come_from_their_file(g, files, ns, s);
        let k = choose|j: int| 0 <= j < sourced.len() && #[trigger] sourced[j] == (output.id, s);
        lemma_edited_listed(sourced, files, sourced.len() as int, k);
        lemma_edited_have_files(sourced, files, sourced.len() as int);
        if let ChapterSource::Edited { modifier_id } = s {
            lemma_node_found(edited, modifier_id, 0);
        }
    }
    let (done, st) = sections_upto(g, ns, sourced, edited, start, n);
    let (own, after) = section_spec(g, output, output.path, Seq::empty(), ns, index, st);
    let post = lemma_sections_split(g, ns, sourced, edited, start, n + 1, count);
    let (sections, last) = sections_upto(g, ns, sourced, edited, start, count);
    let head = seq!["-y"@] + input_args_upto(g.inputs, g.inputs.len() as int) + file_args_upto(
        edited,
        files,
        edited.len() as int,
    ) + last.seeks.args + filter_args(last.filters);
    if let Some(words) = own {
        assert(ffmpeg_args(g, files, ns) =~= head + done + words + post);
    }
    (head + done, post, st, index)
}

proof fn lemma_sections_split(
    g: GraphView,
    ns: Seq<NumeralView>,
    sourced: Seq<Sourced>,
    edited: Seq<NodeId>,
    st: Plumbing,
    k: int,
    n: int,
) -> (post: Args)
    requires
        0 <= k <= n,
    ensures
        sections_upto(g, ns, sourced, edited, st, n).0 == sections_upto(
            g,
            ns,
            sourced,
            edited,
            st,
            k,
        ).0 + post,
    decreases n,
{
    let first = sections_upto(g, ns, sourced, edited, st, k).0;
    let all = sections_upto(g, ns, sourced, edited, st, n).0;
    if k == n {
        assert(all =~= first + Seq::empty());
        Seq::empty()
    } else {
        let post = lemma_sections_split(g, ns, sourced, edited, st, k, n - 1);
        let (before, mid) = sections_upto(g, ns, sourced, edited, st, n - 1);
        let output = g.outputs[n - 1];
        let own = section_spec(
            g,
            output,
            output.path,
            Seq::empty(),
            ns,
            chapter_index(sourced_from(sourced, output.id, 0), g.inputs.len(), edited),
            mid,
        ).0;
        match own {
            Some(more) => {
                assert(all =~= first + (post + more));
                post + more
            },
            None => post,
        }
    }
}

/// An output whose chapters slot is fed by the chapters of an input takes them
/// from that input; one that a chapter node feeds takes that node's; and
/// nothing else feeds chapters.
pub proof fn chapters_slot_says_where_chapters_come_from(
    g: GraphView,
    output: NodeId,
    from: Endpoint,
    at: int,
    p: int,
)
    requires
        g.well_formed(),
        first_wire(
            g.wires,
            at,
            from,
            Target::OutputChapters(output),
        ),
        from matches Endpoint::Stream { node, .. } ==> 0 <= p < g.inputs.len()
            && g.inputs[p].id == node,
    ensures
        output_chapters_spec(g, output) == (match from {
            Endpoint::Stream { stream_idx, .. } => if (stream_idx as int)
                < g.inputs[p].streams.len() && g.inputs[p].streams[stream_idx as int].kind
                == StreamKind::Chapter {
                Some(ChapterSource::FromInput { input_file_index: p as usize })
            } else {
                None
            },
            Endpoint::ModifierOut(id) => match g.modifier(id) {
                Some(m) => if m.kind is ChapterEdit {
                    Some(ChapterSource::Edited { modifier_id: id })
                } else {
                    None
                },
                None => None,
            },
        }),
{
    lemma_first_wire(
        g.wires,
        at,
        from,
        Target::OutputChapters(output),
        0,
    );
    if let Endpoint::Stream { node, .. } = from {
        lemma_input_at(g, p);
    }
}

/// In a well-formed graph an input is found at its position by its id.
pub(crate) proof fn lemma_input_at(g: GraphView, p: int)
    requires
        g.well_formed(),
        0 <= p < g.inputs.len(),
    ensures
        g.input(g.inputs[p].id) == Some(g.inputs[p]),
        g.inputs[p].file_index == p,
{
    let id = g.inputs[p].id;
    lemma_position::<InputNode>(g.inputs, id);
    let k = position::<InputNode>(g.inputs, id)->0;
    assert(<InputNode as Identified>::tag(g.inputs[p]) == id);
    if k < p {
        assert(<InputNode as Identified>::tag(g.inputs[k])
            != <InputNode as Identified>::tag(g.inputs[p]));
    }
}

} // verus!
