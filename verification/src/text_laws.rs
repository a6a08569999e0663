//! What texts and paths are cut into and put together from.
use vstd::prelude::*;

use crate::app::picker::path_for_container;
use crate::graph::chapter::{all_digits, digits_value, lemma_decimal, lemma_leading_zero};
use crate::paths::{
    clean_path, component_end, component_start, copy_name, expand_tilde_spec, extension_dot,
    extension_spec, stem_spec, typed_dir, typed_name, with_home_slash,
};
use crate::text::{
    decimal, join_spec, join_upto, last_before, last_of, padded, signed_decimal, split_spec,
    split_upto, text_less, trim_end_spec, trim_spec, trim_start_spec, white, words_spec,
    words_upto,
};

verus! {

// ---------------------------------------------------------------------
// Order
// ---------------------------------------------------------------------

/// Texts come in the order of the first character in which they differ.
pub proof fn texts_are_ordered_by_their_first_difference(
    same: Seq<char>,
    x: char,
    y: char,
    s: Seq<char>,
    t: Seq<char>,
)
    requires
        (x as int) < (y as int),
    ensures
        text_less(same + seq![x] + s, same + seq![y] + t),
        !text_less(same + seq![y] + t, same + seq![x] + s),
    decreases same.len(),
{
    let a = same + seq![x] + s;
    let b = same + seq![y] + t;
    if same.len() > 0 {
        texts_are_ordered_by_their_first_difference(same.drop_first(), x, y, s, t);
        assert(a.drop_first() == same.drop_first() + seq![x] + s);
        assert(b.drop_first() == same.drop_first() + seq![y] + t);
    }
}

/// A text comes before every longer one that it begins.
pub proof fn beginnings_come_first(s: Seq<char>, t: Seq<char>)
    requires
        t.len() > 0,
    ensures
        text_less(s, s + t),
        !text_less(s + t, s),
    decreases s.len(),
{
    if s.len() > 0 {
        beginnings_come_first(s.drop_first(), t);
        assert((s + t).drop_first() == s.drop_first() + t);
    }
}

// ---------------------------------------------------------------------
// Cutting
// ---------------------------------------------------------------------

proof fn lemma_split(s: Seq<char>, sep: char, n: int)
    requires
        0 <= n <= s.len(),
    ensures
        ({
            let p = split_upto(s, sep, n);
            &&& p.len() > 0
            &&& forall|i: int| 0 <= i < p.len() ==> !(#[trigger] p[i]).contains(sep)
            &&& join_upto(p, seq![sep], p.len() as int) == s.take(n)
        }),
    decreases n,
{
    let p = split_upto(s, sep, n);
    let by = seq![sep];
    if n == 0 {
        assert(p[0] == Seq::<char>::empty());
        assert(s.take(0) == Seq::<char>::empty());
    } else {
        lemma_split(s, sep, n - 1);
        let q = split_upto(s, sep, n - 1);
        let k = q.len() as int;
        assert(s.take(n) == s.take(n - 1).push(s[n - 1]));
        if s[n - 1] == sep {
            lemma_join_prefix(q, p, by, k);
            assert(join_upto(p, by, k + 1) == join_upto(p, by, k) + by + Seq::<char>::empty());
            assert(join_upto(p, by, k + 1) == s.take(n));
        } else {
            lemma_join_prefix(q, p, by, k - 1);
            let last = q.last().push(s[n - 1]);
            assert(p[k - 1] == last);
            assert(!last.contains(sep)) by {
                assert forall|i: int| 0 <= i < last.len() implies last[i] != sep by {
                    if i < q.last().len() {
                        assert(last[i] == q[k - 1][i]);
                        assert(!q[k - 1].contains(sep));
                    }
                }
            }
            assert(join_upto(p, by, k) == join_upto(q, by, k).push(s[n - 1]));
        }
    }
}

proof fn lemma_join_prefix(a: Seq<Seq<char>>, b: Seq<Seq<char>>, by: Seq<char>, n: int)
    requires
        0 <= n <= a.len(),
        n <= b.len(),
        forall|i: int| 0 <= i < n ==> a[i] == b[i],
    ensures
        join_upto(a, by, n) == join_upto(b, by, n),
    decreases n,
{
    if n > 1 {
        lemma_join_prefix(a, b, by, n - 1);
    }
}

/// The parts that a text is split into hold no separator, and give the text
/// back when they are joined by it.
pub proof fn split_parts_join_back(s: Seq<char>, sep: char)
    ensures
        split_spec(s, sep).len() > 0,
        forall|i: int| 0 <= i < split_spec(s, sep).len() ==> !(#[trigger] split_spec(s, sep)[i]).contains(sep),
        join_spec(split_spec(s, sep), seq![sep]) == s,
{
    lemma_split(s, sep, s.len() as int);
    assert(s.take(s.len() as int) == s);
}

/// Every character is a blank.
pub open spec fn blank(s: Seq<char>) -> bool {
    forall|i: int| 0 <= i < s.len() ==> white(#[trigger] s[i])
}

proof fn lemma_trim_start(s: Seq<char>) -> (n: int)
    ensures
        0 <= n <= s.len(),
        blank(s.take(n)),
        trim_start_spec(s) == s.skip(n),
        n < s.len() ==> !white(s[n]),
    decreases s.len(),
{
    if s.len() > 0 && white(s[0]) {
        let k = lemma_trim_start(s.drop_first());
        assert(s.skip(k + 1) == s.drop_first().skip(k));
        assert forall|i: int| 0 <= i < k + 1 implies white(#[trigger] s.take(k + 1)[i]) by {
            if i > 0 {
                assert(s.drop_first().take(k)[i - 1] == s[i]);
            }
        }
        k + 1
    } else {
        assert(s.skip(0) == s);
        0
    }
}

proof fn lemma_trim_end(s: Seq<char>) -> (n: int)
    ensures
        0 <= n <= s.len(),
        blank(s.skip(n)),
        trim_end_spec(s) == s.take(n),
        n > 0 ==> !white(s[n - 1]),
    decreases s.len(),
{
    if s.len() > 0 && white(s.last()) {
        let k = lemma_trim_end(s.drop_last());
        assert(s.take(k) == s.drop_last().take(k));
        assert forall|i: int| 0 <= i < s.len() - k implies white(#[trigger] s.skip(k)[i]) by {
            if i < s.len() - k - 1 {
                assert(s.drop_last().skip(k)[i] == s[k + i]);
            }
        }
        k
    } else {
        assert(s.take(s.len() as int) == s);
        s.len() as int
    }
}

/// Trimming takes the blanks at both ends away and nothing else: what is left
/// neither begins nor ends with one, and stands in the text with only blanks
/// around it.
pub proof fn trimming_takes_the_blanks_around(s: Seq<char>) -> (cut: (int, int))
    ensures
        0 <= cut.0 <= cut.1 <= s.len(),
        trim_spec(s) == s.subrange(cut.0, cut.1),
        blank(s.take(cut.0)) && blank(s.skip(cut.1)),
        cut.0 < cut.1 ==> !white(s[cut.0]) && !white(s[cut.1 - 1]),
{
    let n = lemma_trim_start(s);
    let t = s.skip(n);
    let k = lemma_trim_end(t);
    assert(t.take(k) == s.subrange(n, n + k));
    assert(s.skip(n + k) == t.skip(k));
    if k > 0 {
        assert(t[k - 1] == s[n + k - 1]);
    }
    (n, n + k)
}

/// A word of a line: some characters, none of them a blank.
pub open spec fn is_word(w: Seq<char>) -> bool {
    w.len() > 0 && forall|i: int| 0 <= i < w.len() ==> !white(#[trigger] w[i])
}

proof fn lemma_words(s: Seq<char>, n: int)
    requires
        0 <= n <= s.len(),
    ensures
        ({
            let (done, open) = words_upto(s, n);
            &&& forall|i: int| 0 <= i < done.len() ==> is_word(#[trigger] done[i])
            &&& forall|i: int| 0 <= i < open.len() ==> !white(#[trigger] open[i])
        }),
    decreases n,
{
    if n > 0 {
        lemma_words(s, n - 1);
        let (d, o) = words_upto(s, n - 1);
        let (done, open) = words_upto(s, n);
        if white(s[n - 1]) && o.len() > 0 {
            assert(is_word(o));
            assert(done == d.push(o));
        }
        assert forall|i: int| 0 <= i < done.len() implies is_word(#[trigger] done[i]) by {
            if i < d.len() {
                assert(done[i] == d[i]);
            }
        }
    }
}

proof fn lemma_words_prefix(s: Seq<char>, t: Seq<char>, n: int)
    requires
        0 <= n <= s.len(),
    ensures
        words_upto(s + t, n) == words_upto(s, n),
    decreases n,
{
    if n > 0 {
        lemma_words_prefix(s, t, n - 1);
    }
}

proof fn lemma_blank_tail(s: Seq<char>, t: Seq<char>, n: int)
    requires
        0 <= n <= t.len(),
        blank(t),
    ensures
        ({
            let (done, open) = words_upto(s + t, s.len() + n);
            let (d, o) = words_upto(s, s.len() as int);
            if n == 0 || o.len() == 0 {
                done == d && open == o
            } else {
                done == d.push(o) && open.len() == 0
            }
        }),
    decreases n,
{
    if n == 0 {
        lemma_words_prefix(s, t, s.len() as int);
    } else {
        lemma_blank_tail(s, t, n - 1);
        assert((s + t)[s.len() + n - 1] == t[n - 1]);
    }
}

proof fn lemma_word_tail(s: Seq<char>, w: Seq<char>, n: int)
    requires
        0 <= n <= w.len(),
        is_word(w),
        words_upto(s, s.len() as int).1.len() == 0,
    ensures
        words_upto(s + w, s.len() + n).0 == words_upto(s, s.len() as int).0,
        words_upto(s + w, s.len() + n).1 == w.take(n),
    decreases n,
{
    if n == 0 {
        lemma_words_prefix(s, w, s.len() as int);
    } else {
        lemma_word_tail(s, w, n - 1);
        assert((s + w)[s.len() + n - 1] == w[n - 1]);
        assert(w.take(n) == w.take(n - 1).push(w[n - 1]));
    }
}

/// The words of a line have some characters each, and none of them a blank. A
/// word behind a blank is one more word, and blanks at the end add none.
pub proof fn words_stand_between_blanks(s: Seq<char>, gap: Seq<char>, w: Seq<char>, tail: Seq<char>)
    requires
        blank(gap) && gap.len() > 0,
        is_word(w),
        blank(tail),
    ensures
        forall|i: int| 0 <= i < words_spec(s).len() ==> is_word(#[trigger] words_spec(s)[i]),
        words_spec(s + gap + w + tail) == words_spec(s).push(w),
        words_spec(tail) == Seq::<Seq<char>>::empty(),
        words_spec(w) == seq![w],
{
    lemma_words(s, s.len() as int);
    lemma_blank_tail(s, gap, gap.len() as int);
    let t = s + gap;
    assert(words_upto(t, t.len() as int).1.len() == 0);
    lemma_word_tail(t, w, w.len() as int);
    assert(w.take(w.len() as int) == w);
    let u = t + w;
    lemma_blank_tail(u, tail, tail.len() as int);
    assert(words_upto(t, t.len() as int).0 == words_spec(s));
    assert(u + tail == s + gap + w + tail);
    let none = Seq::<char>::empty();
    assert(words_upto(none, 0).1.len() == 0);
    lemma_blank_tail(none, tail, tail.len() as int);
    assert(none + tail == tail);
    lemma_word_tail(none, w, w.len() as int);
    assert(none + w == w);
    assert(seq![w] == Seq::<Seq<char>>::empty().push(w));
}

// ---------------------------------------------------------------------
// Numbers
// ---------------------------------------------------------------------

/// A number is written in digits that have its value, behind a minus where it
/// is below zero. Zeros in front change no value and fill it up to its width.
pub proof fn written_numbers_read_back(n: int, width: nat)
    ensures
        n >= 0 ==> all_digits(signed_decimal(n)) && digits_value(signed_decimal(n)) == n,
        n < 0 ==> signed_decimal(n).len() > 1 && signed_decimal(n)[0] == '-' && all_digits(
            signed_decimal(n).drop_first(),
        ) && digits_value(signed_decimal(n).drop_first()) == -n,
        n >= 0 ==> all_digits(padded(decimal(n as nat), width)) && digits_value(
            padded(decimal(n as nat), width),
        ) == n && padded(decimal(n as nat), width).len() >= width,
{
    reveal_strlit("-");
    if n < 0 {
        lemma_decimal((-n) as nat);
        assert(signed_decimal(n).drop_first() == decimal((-n) as nat));
    } else {
        lemma_decimal(n as nat);
        lemma_filled(decimal(n as nat), width);
    }
}

proof fn lemma_filled(s: Seq<char>, width: nat)
    requires
        all_digits(s),
        s.len() > 0,
    ensures
        digits_value(padded(s, width)) == digits_value(s),
        all_digits(padded(s, width)),
        padded(s, width).len() >= width,
    decreases width - s.len(),
{
    if s.len() < width {
        lemma_leading_zero(s);
        lemma_filled(seq!['0'] + s, width);
    }
}

// ---------------------------------------------------------------------
// Paths
// ---------------------------------------------------------------------

pub(crate) proof fn lemma_last_before(s: Seq<char>, c: char, n: int)
    requires
        0 <= n <= s.len(),
    ensures
        match last_before(s, c, n) {
            Some(i) => 0 <= i < n && s[i] == c && forall|j: int| i < j < n ==> s[j] != c,
            None => forall|j: int| 0 <= j < n ==> s[j] != c,
        },
    decreases n,
{
    if n > 0 {
        lemma_last_before(s, c, n - 1);
    }
}

/// Whether a text can stand behind the last point of a name.
pub open spec fn suffix(e: Seq<char>) -> bool {
    e.len() > 0 && !e.contains('.') && !e.contains('/')
}

proof fn lemma_extension_dot(a: Seq<char>, e: Seq<char>)
    requires
        a.len() > 0 && a.last() != '/',
        suffix(e),
    ensures
        ({
            let p = a + seq!['.'] + e;
            &&& extension_dot(p) == Some(a.len() as int)
            &&& component_end(p, p.len() as int) == p.len()
        }),
{
    reveal_strlit(".");
    reveal_strlit("..");
    let p = a + seq!['.'] + e;
    let n = p.len() as int;
    let dot = a.len() as int;
    assert(p[n - 1] == e[e.len() - 1]);
    assert(e.contains(e[e.len() - 1]));
    assert(component_end(p, n) == n);
    assert forall|j: int| dot < j < n implies p[j] != '.' && p[j] != '/' by {
        assert(p[j] == e[j - dot - 1]);
        assert(e.contains(e[j - dot - 1]));
    }
    assert(p[dot] == '.');
    assert(p[dot - 1] == a.last());
    lemma_last_before(p, '.', n);
    lemma_last_before(p, '/', n);
    assert(last_before(p, '.', n) == Some(dot));
    let start = component_start(p, n);
    assert(start < dot);
    let name = p.subrange(start, n);
    assert(name[name.len() - 1] == p[n - 1]);
    assert("."@[0] == '.' && ".."@[1] == '.');
}

/// The extension of a path is what stands behind the last point of its name,
/// and its stem is what stands before it.
pub proof fn extension_is_behind_the_last_point(a: Seq<char>, e: Seq<char>)
    requires
        a.len() > 0 && a.last() != '/',
        suffix(e),
    ensures
        extension_spec(a + seq!['.'] + e) == Some(e),
        stem_spec(a + seq!['.'] + e) == a,
{
    lemma_extension_dot(a, e);
    let p = a + seq!['.'] + e;
    assert(p.subrange((a.len() + 1) as int, p.len() as int) == e);
    assert(p.subrange(0, a.len() as int) == a);
}

/// A copy is named like the original, with `-copy` before its extension.
pub proof fn copies_keep_the_extension(a: Seq<char>, e: Seq<char>, n: nat)
    requires
        a.len() > 0 && a.last() != '/',
        suffix(e),
        n > 1,
    ensures
        copy_name(a + seq!['.'] + e, 1) == a + "-copy."@ + e,
        copy_name(a + seq!['.'] + e, n) == a + "-copy"@ + decimal(n) + seq!['.'] + e,
        extension_spec(copy_name(a + seq!['.'] + e, n)) == Some(e),
{
    reveal_strlit("-copy");
    reveal_strlit("-copy.");
    lemma_extension_dot(a, e);
    let p = a + seq!['.'] + e;
    let dot = a.len() as int;
    assert(p.subrange(0, dot) == a);
    assert(p.subrange(dot, p.len() as int) == seq!['.'] + e);
    assert("-copy."@ == "-copy"@ + seq!['.']);
    assert(copy_name(p, 1) == a + "-copy."@ + e);
    let b = a + "-copy"@ + decimal(n);
    assert(copy_name(p, n) == b + seq!['.'] + e);
    lemma_decimal(n);
    assert(b.last() == decimal(n).last());
    extension_is_behind_the_last_point(b, e);
}

/// The path of an output changes its extension with the container.
pub proof fn path_follows_the_container(a: Seq<char>, e: Seq<char>)
    requires
        a.len() > 0 && a.last() != '/',
        suffix(e),
    ensures
        ({
            let p = a + seq!['.'] + e;
            &&& path_for_container(p, "matroska"@) == a + ".mkv"@
            &&& path_for_container(p, "mp4"@) == a + ".mp4"@
            &&& path_for_container(p, "mov"@) == a + ".mov"@
            &&& path_for_container(p, "webm"@) == a + ".webm"@
            &&& path_for_container(p, "avi"@) == a + ".avi"@
        }),
{
    extension_is_behind_the_last_point(a, e);
    reveal_strlit("matroska");
    reveal_strlit("mp4");
    reveal_strlit("mov");
    reveal_strlit("webm");
    reveal_strlit("avi");
    reveal_strlit("mkv");
    reveal_strlit(".");
    reveal_strlit(".mkv");
    reveal_strlit(".mp4");
    reveal_strlit(".mov");
    reveal_strlit(".webm");
    reveal_strlit(".avi");
    assert("mov"@[1] == 'o' && "mp4"@[1] == 'p' && "avi"@[0] == 'a');
    assert("."@ + "mkv"@ == ".mkv"@);
    assert("."@ + "mp4"@ == ".mp4"@);
    assert("."@ + "mov"@ == ".mov"@);
    assert("."@ + "webm"@ == ".webm"@);
    assert("."@ + "avi"@ == ".avi"@);
    assert(a + "."@ + "mkv"@ == a + ".mkv"@);
    assert(a + "."@ + "mp4"@ == a + ".mp4"@);
    assert(a + "."@ + "mov"@ == a + ".mov"@);
    assert(a + "."@ + "webm"@ == a + ".webm"@);
    assert(a + "."@ + "avi"@ == a + ".avi"@);
}

/// A leading tilde stands for the home directory, where that is known, and
/// any other path stands for itself.
pub proof fn tilde_is_the_home_directory(home: Seq<char>, rest: Seq<char>, other: Seq<char>)
    requires
        other.len() > 0 ==> other[0] != '~',
    ensures
        expand_tilde_spec(seq!['~', '/'] + rest, Some(home)) == home + seq!['/'] + rest,
        expand_tilde_spec(seq!['~'], Some(home)) == home,
        expand_tilde_spec(other, Some(home)) == other,
        expand_tilde_spec(other, None) == other,
        expand_tilde_spec(seq!['~', '/'] + rest, None) == seq!['~', '/'] + rest,
{
    reveal_strlit("~");
    reveal_strlit("/");
    let s = seq!['~', '/'] + rest;
    assert(s.subrange(2, s.len() as int) == rest);
    assert("/"@ == seq!['/']);
    assert("~"@ == seq!['~']);
    assert("~"@[0] == '~');
}

/// Quotes around a typed path make no difference, and neither do the blanks
/// around it.
pub proof fn quotes_around_a_path_are_dropped(s: Seq<char>, home: Option<Seq<char>>)
    requires
        s.len() > 0,
        !white(s[0]) && !white(s.last()),
        s[0] != '\'' && s[0] != '"',
    ensures
        clean_path(seq!['\''] + s + seq!['\''], home) == expand_tilde_spec(s, home),
        clean_path(seq!['"'] + s + seq!['"'], home) == expand_tilde_spec(s, home),
        clean_path(s, home) == expand_tilde_spec(s, home),
{
    let a = seq!['\''] + s + seq!['\''];
    let b = seq!['"'] + s + seq!['"'];
    assert(trim_spec(s) == s);
    assert(trim_spec(a) == a);
    assert(trim_spec(b) == b);
    assert(a.subrange(1, a.len() - 1) == s);
    assert(b.subrange(1, b.len() - 1) == s);
}

/// The directory and the name of a typed path are the path, cut behind its
/// last slash.
pub proof fn typed_path_is_cut_behind_the_last_slash(buffer: Seq<char>)
    ensures
        typed_dir(buffer) + typed_name(buffer) == with_home_slash(buffer),
        !typed_name(buffer).contains('/'),
        typed_dir(buffer).len() > 0 ==> typed_dir(buffer).last() == '/',
        buffer.contains('/') ==> with_home_slash(buffer) == buffer,
{
    let b = with_home_slash(buffer);
    lemma_last_before(b, '/', b.len() as int);
    assert(typed_dir(buffer) + typed_name(buffer) == b);
    let name = typed_name(buffer);
    assert forall|i: int| 0 <= i < name.len() implies name[i] != '/' by {
        match last_of(b, '/') {
            Some(k) => {
                assert(name[i] == b[k + 1 + i]);
            },
            None => {
                assert(name[i] == b[i]);
            },
        }
    }
}

} // verus!
