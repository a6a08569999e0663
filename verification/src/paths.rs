//! Paths as text: what the user types, and the parts of a file name.
use vstd::prelude::*;

use crate::text::{cat2, cat3, chars_of, decimal, find_last_before, first_is, group_views, has_char, last_before, last_of, less, list_contains, number, opt_text, same_text, starts_with, starts_with_spec, text_less, text_less_irreflexive, text_less_transitive, text_of, trim, trim_spec, views};

verus! {

// ---------------------------------------------------------------------
// Typed paths
// ---------------------------------------------------------------------

/// A path with a leading `~` or `~/` expanded to the home directory, where
/// that is known.
pub open spec fn expand_tilde_spec(s: Seq<char>, home: Option<Seq<char>>) -> Seq<char> {
    match home {
        Some(h) => if s.len() >= 2 && s[0] == '~' && s[1] == '/' {
            h + "/"@ + s.subrange(2, s.len() as int)
        } else if s == "~"@ {
            h
        } else {
            s
        },
        None => s,
    }
}

/// A path with a leading `~` or `~/` expanded to the home directory, where
/// that is known.
pub fn expand_tilde(s: &str, home: Option<&str>) -> (r: String)
    ensures
        r@ == expand_tilde_spec(s@, crate::text::opt_str(home)),
{
    match home {
        Some(h) => {
            let v = chars_of(s);
            if v.len() >= 2 && v[0] == '~' && v[1] == '/' {
                let rest = text_of(&v, 2, v.len());
                cat3(h, "/", rest.as_str())
            } else if same_text(s, "~") {
                h.to_owned()
            } else {
                s.to_owned()
            }
        },
        None => s.to_owned(),
    }
}

/// Whether a text is wrapped in one pair of quotes.
pub open spec fn quoted(s: Seq<char>) -> bool {
    s.len() >= 2 && s[0] == s.last() && (s[0] == '\'' || s[0] == '"')
}

/// A typed path without surrounding whitespace, without one pair of wrapping
/// quotes, and with `~` expanded.
pub open spec fn clean_path(raw: Seq<char>, home: Option<Seq<char>>) -> Seq<char> {
    let s = trim_spec(raw);
    expand_tilde_spec(
        if quoted(s) {
            s.subrange(1, s.len() - 1)
        } else {
            s
        },
        home,
    )
}

/// A typed path without surrounding whitespace, without one pair of wrapping
/// quotes, and with `~` expanded.
pub fn clean_path_input(raw: &str, home: Option<&str>) -> (r: String)
    ensures
        r@ == clean_path(raw@, crate::text::opt_str(home)),
{
    let s = trim(raw);
    let v = chars_of(s.as_str());
    if v.len() >= 2 && v[0] == v[v.len() - 1] && (v[0] == '\'' || v[0] == '"') {
        let inner = text_of(&v, 1, v.len() - 1);
        expand_tilde(inner.as_str(), home)
    } else {
        expand_tilde(s.as_str(), home)
    }
}

// ---------------------------------------------------------------------
// Completion
// ---------------------------------------------------------------------

/// A typed path with a bare `~...` read as `~/...`.
pub open spec fn with_home_slash(buffer: Seq<char>) -> Seq<char> {
    if first_is(buffer, '~') && !buffer.contains('/') {
        "~/"@ + buffer.subrange(1, buffer.len() as int)
    } else {
        buffer
    }
}

/// Where the name that is being typed starts: behind the last slash.
pub open spec fn name_start(b: Seq<char>) -> int {
    match last_of(b, '/') {
        Some(i) => i + 1,
        None => 0,
    }
}

/// The directory part of a typed path, as it was typed.
pub open spec fn typed_dir(buffer: Seq<char>) -> Seq<char> {
    let b = with_home_slash(buffer);
    b.subrange(0, name_start(b))
}

/// The beginning of a name that was typed.
pub open spec fn typed_name(buffer: Seq<char>) -> Seq<char> {
    let b = with_home_slash(buffer);
    b.subrange(name_start(b), b.len() as int)
}

/// The directory to list for a typed path.
pub open spec fn scan_dir(buffer: Seq<char>, home: Option<Seq<char>>) -> Seq<char> {
    let dir = typed_dir(buffer);
    if dir.len() == 0 {
        "."@
    } else {
        expand_tilde_spec(dir, home)
    }
}

/// A typed path, split behind its last slash.
fn split_typed(buffer: &str) -> (r: (String, String))
    ensures
        r.0@ == typed_dir(buffer@),
        r.1@ == typed_name(buffer@),
{
    let v = chars_of(buffer);
    let b = if v.len() > 0 && v[0] == '~' && !has_char(buffer, '/') {
        let rest = text_of(&v, 1, v.len());
        cat2("~/", rest.as_str())
    } else {
        buffer.to_owned()
    };
    let w = chars_of(b.as_str());
    let at: usize = match find_last_before(&w, '/', w.len()) {
        Some(i) => i + 1,
        None => 0,
    };
    (text_of(&w, 0, at), text_of(&w, at, w.len()))
}

/// The directory to list for a typed path.
pub fn suggestion_dir(buffer: &str, home: Option<&str>) -> (r: String)
    ensures
        r@ == scan_dir(buffer@, crate::text::opt_str(home)),
{
    let (dir, _name) = split_typed(buffer);
    if dir.as_str().is_empty() {
        ".".to_owned()
    } else {
        expand_tilde(dir.as_str(), home)
    }
}

/// A file or directory in a listing.
pub struct DirEntry {
    pub name: String,
    pub is_dir: bool,
}

pub struct DirEntryView {
    pub name: Seq<char>,
    pub is_dir: bool,
}

impl View for DirEntry {
    type V = DirEntryView;

    open spec fn view(&self) -> DirEntryView {
        DirEntryView { name: self.name@, is_dir: self.is_dir }
    }
}

/// Whether an entry completes the name that was typed. Names with a leading
/// dot only complete one that has it too.
pub open spec fn completes(e: DirEntryView, prefix: Seq<char>) -> bool {
    starts_with_spec(e.name, prefix) && (first_is(e.name, '.') ==> first_is(prefix, '.'))
}

/// The first position from `i` on whose name comes behind `name`.
pub open spec fn entry_rank(s: Seq<DirEntryView>, name: Seq<char>, i: int) -> int
    decreases s.len() - i,
{
    if i >= s.len() {
        s.len() as int
    } else if text_less(name, s[i].name) {
        i
    } else {
        entry_rank(s, name, i + 1)
    }
}

/// Those of the first `n` entries that complete the typed name, by name;
/// entries with the same name keep their order.
pub open spec fn completions_upto(s: Seq<DirEntryView>, prefix: Seq<char>, n: int) -> Seq<
    DirEntryView,
>
    decreases n,
{
    if n <= 0 {
        Seq::empty()
    } else {
        let p = completions_upto(s, prefix, n - 1);
        if completes(s[n - 1], prefix) {
            p.insert(entry_rank(p, s[n - 1].name, 0), s[n - 1])
        } else {
            p
        }
    }
}

/// The path that an entry completes a typed path to; directories end in a
/// slash.
pub open spec fn completed(dir: Seq<char>, e: DirEntryView) -> Seq<char> {
    if e.is_dir {
        dir + e.name + "/"@
    } else {
        dir + e.name
    }
}

/// The paths that a typed path can be completed to, given the entries of the
/// directory that it names.
pub open spec fn suggestions_spec(buffer: Seq<char>, entries: Seq<DirEntryView>) -> Seq<Seq<char>> {
    let found = completions_upto(entries, typed_name(buffer), entries.len() as int);
    Seq::new(found.len(), |i: int| completed(typed_dir(buffer), found[i]))
}

/// The paths that a typed path can be completed to, given the entries of the
/// directory that it names.
pub fn suggestions_from(buffer: &str, entries: &Vec<DirEntry>) -> (r: Vec<String>)
    ensures
        views(r@) == suggestions_spec(buffer@, views(entries@)),
{
    let (dir, prefix) = split_typed(buffer);
    let show_hidden = crate::text::begins(prefix.as_str(), '.');
    let ghost all = views(entries@);
    let mut found: Vec<DirEntry> = Vec::new();
    let mut i: usize = 0;
    assert(views(found@) == Seq::<DirEntryView>::empty());
    while i < entries.len()
        invariant
            i <= entries@.len(),
            all == views(entries@),
            show_hidden == first_is(prefix@, '.'),
            views(found@) == completions_upto(all, prefix@, i as int),
        decreases entries@.len() - i,
    {
        broadcast use group_views;

        let e = &entries[i];
        assert(e@ == all[i as int]);
        if starts_with(e.name.as_str(), prefix.as_str()) && (show_hidden || !crate::text::begins(
            e.name.as_str(),
            '.',
        )) {
            let mut k: usize = 0;
            while k < found.len() && !less(e.name.as_str(), found[k].name.as_str())
                invariant
                    k <= found@.len(),
                    entry_rank(views(found@), e.name@, 0) == entry_rank(
                        views(found@),
                        e.name@,
                        k as int,
                    ),
                decreases found@.len() - k,
            {
                k += 1;
            }
            found.insert(k, DirEntry { name: e.name.clone(), is_dir: e.is_dir });
        }
        i += 1;
    }
    let mut out: Vec<String> = Vec::new();
    let mut j: usize = 0;
    while j < found.len()
        invariant
            j <= found@.len(),
            out@.len() == j,
            forall|m: int|
                0 <= m < j ==> (#[trigger] out@[m])@ == completed(dir@, views(found@)[m]),
        decreases found@.len() - j,
    {
        let e = &found[j];
        let mut s = cat2(dir.as_str(), e.name.as_str());
        if e.is_dir {
            s.append("/");
        }
        out.push(s);
        j += 1;
    }
    assert(views(out@) =~= suggestions_spec(buffer@, all));
    out
}

proof fn lemma_entry_rank(s: Seq<DirEntryView>, name: Seq<char>, i: int)
    requires
        0 <= i <= s.len(),
    ensures
        i <= entry_rank(s, name, i) <= s.len(),
        forall|j: int|
            i <= j < entry_rank(s, name, i) ==> !text_less(name, (#[trigger] s[j]).name),
        entry_rank(s, name, i) < s.len() ==> text_less(name, s[entry_rank(s, name, i)].name),
    decreases s.len() - i,
{
    if i < s.len() && !text_less(name, s[i].name) {
        lemma_entry_rank(s, name, i + 1);
    }
}

/// Entries in the order of their names.
pub open spec fn by_name(s: Seq<DirEntryView>) -> bool {
    forall|i: int, j: int|
        0 <= i < j < s.len() ==> !text_less((#[trigger] s[j]).name, (#[trigger] s[i]).name)
}

proof fn lemma_insert_by_name(s: Seq<DirEntryView>, e: DirEntryView)
    requires
        by_name(s),
    ensures
        by_name(s.insert(entry_rank(s, e.name, 0), e)),
{
    let r = entry_rank(s, e.name, 0);
    lemma_entry_rank(s, e.name, 0);
    let t = s.insert(r, e);
    assert forall|i: int, j: int| 0 <= i < j < t.len() implies !text_less(
        (#[trigger] t[j]).name,
        (#[trigger] t[i]).name,
    ) by {
        if i == r && text_less(t[j].name, e.name) {
            assert(t[j] == s[j - 1]);
            text_less_transitive(s[j - 1].name, e.name, s[r].name);
            text_less_irreflexive(s[r].name);
        }
    }
}

/// The completions are exactly the entries that complete the typed name, in
/// the order of their names.
pub proof fn completions_are_the_matches_in_order(
    entries: Seq<DirEntryView>,
    prefix: Seq<char>,
    n: int,
)
    requires
        0 <= n <= entries.len(),
    ensures
        ({
            let found = completions_upto(entries, prefix, n);
            &&& by_name(found)
            &&& found.to_multiset() == entries.take(n).filter(
                |e: DirEntryView| completes(e, prefix),
            ).to_multiset()
        }),
    decreases n,
{
    let keep = |e: DirEntryView| completes(e, prefix);
    reveal(Seq::filter);
    if n > 0 {
        completions_are_the_matches_in_order(entries, prefix, n - 1);
        let p = completions_upto(entries, prefix, n - 1);
        let e = entries[n - 1];
        assert(entries.take(n).drop_last() == entries.take(n - 1));
        if completes(e, prefix) {
            lemma_insert_by_name(p, e);
            lemma_entry_rank(p, e.name, 0);
            vstd::seq_lib::to_multiset_insert(p, entry_rank(p, e.name, 0), e);
            vstd::seq_lib::to_multiset_build(entries.take(n - 1).filter(keep), e);
        }
    } else {
        assert(entries.take(n) == Seq::<DirEntryView>::empty());
    }
}

proof fn lemma_completes(entries: Seq<DirEntryView>, prefix: Seq<char>, n: int)
    requires
        0 <= n <= entries.len(),
    ensures
        forall|i: int|
            0 <= i < completions_upto(entries, prefix, n).len() ==> completes(
                #[trigger] completions_upto(entries, prefix, n)[i],
                prefix,
            ),
    decreases n,
{
    if n > 0 {
        lemma_completes(entries, prefix, n - 1);
        let p = completions_upto(entries, prefix, n - 1);
        let e = entries[n - 1];
        lemma_entry_rank(p, e.name, 0);
        let q = completions_upto(entries, prefix, n);
        assert forall|i: int| 0 <= i < q.len() implies completes(#[trigger] q[i], prefix) by {
            if completes(e, prefix) {
                let r = entry_rank(p, e.name, 0);
                if i < r {
                    assert(q[i] == p[i]);
                } else if i > r {
                    assert(q[i] == p[i - 1]);
                }
            }
        }
    }
}

/// Every suggestion begins with what was typed, so that taking it only ever
/// adds to that.
pub proof fn suggestions_extend_what_was_typed(
    buffer: Seq<char>,
    entries: Seq<DirEntryView>,
    i: int,
)
    requires
        0 <= i < suggestions_spec(buffer, entries).len(),
    ensures
        starts_with_spec(suggestions_spec(buffer, entries)[i], with_home_slash(buffer)),
{
    let b = with_home_slash(buffer);
    let name = typed_name(buffer);
    lemma_completes(entries, name, entries.len() as int);
    lemma_last_before(b, '/', b.len() as int);
    let e = completions_upto(entries, name, entries.len() as int)[i];
    assert(completes(e, name));
    let whole = completed(typed_dir(buffer), e);
    assert(e.name.subrange(0, name.len() as int) == name);
    let dir = typed_dir(buffer);
    assert forall|j: int| 0 <= j < b.len() implies whole[j] == b[j] by {
        if j >= dir.len() {
            assert(e.name.subrange(0, name.len() as int)[j - dir.len()] == name[j - dir.len()]);
        }
    }
    assert(whole.subrange(0, b.len() as int) == b);
}

// ---------------------------------------------------------------------
// File names
// ---------------------------------------------------------------------

/// Where a path's last component ends: trailing slashes, and trailing `.`
/// components, are no part of it.
pub open spec fn component_end(p: Seq<char>, n: int) -> int
    decreases n,
{
    if n <= 0 {
        0
    } else if p[n - 1] == '/' {
        component_end(p, n - 1)
    } else if p[n - 1] == '.' && n >= 2 && p[n - 2] == '/' {
        component_end(p, n - 1)
    } else {
        n
    }
}

/// Where a path's last component starts.
pub open spec fn component_start(p: Seq<char>, end: int) -> int {
    match last_before(p, '/', end) {
        Some(i) => i + 1,
        None => 0,
    }
}

/// Whether a path's last component is a file name, and not `.`, `..` or empty.
pub open spec fn is_file_name(name: Seq<char>) -> bool {
    name.len() > 0 && name != "."@ && name != ".."@
}

/// The position of the dot in front of the extension. A name that begins with
/// its only dot has no extension.
pub open spec fn extension_dot(p: Seq<char>) -> Option<int> {
    let end = component_end(p, p.len() as int);
    let start = component_start(p, end);
    if !is_file_name(p.subrange(start, end)) {
        None
    } else {
        match last_before(p, '.', end) {
            Some(i) => if i > start {
                Some(i)
            } else {
                None
            },
            None => None,
        }
    }
}

/// A path's extension, without the dot.
pub open spec fn extension_spec(p: Seq<char>) -> Option<Seq<char>> {
    match extension_dot(p) {
        Some(i) => Some(p.subrange(i + 1, component_end(p, p.len() as int))),
        None => None,
    }
}

/// A path up to the end of its file name's stem.
pub open spec fn stem_spec(p: Seq<char>) -> Seq<char> {
    let end = component_end(p, p.len() as int);
    match extension_dot(p) {
        Some(i) => p.subrange(0, i),
        None => if is_file_name(p.subrange(component_start(p, end), end)) {
            p.subrange(0, end)
        } else {
            p
        },
    }
}

fn find_component_end(v: &Vec<char>) -> (r: usize)
    ensures
        r == component_end(v@, v@.len() as int),
        r <= v@.len(),
{
    let mut n: usize = v.len();
    while n > 0 && (v[n - 1] == '/' || (v[n - 1] == '.' && n >= 2 && v[n - 2] == '/'))
        invariant
            n <= v@.len(),
            component_end(v@, v@.len() as int) == component_end(v@, n as int),
        decreases n,
    {
        n -= 1;
    }
    n
}

proof fn lemma_last_before(s: Seq<char>, c: char, n: int)
    requires
        0 <= n <= s.len(),
    ensures
        last_before(s, c, n) matches Some(i) ==> 0 <= i < n,
    decreases n,
{
    if n > 0 {
        lemma_last_before(s, c, n - 1);
    }
}

/// The position of the dot in front of the extension, and where the last
/// component ends and whether it is a file name.
fn find_extension(v: &Vec<char>) -> (r: (Option<usize>, usize, bool))
    ensures
        match r.0 {
            Some(i) => extension_dot(v@) == Some(i as int) && i < r.1,
            None => extension_dot(v@) is None,
        },
        r.1 == component_end(v@, v@.len() as int),
        r.1 <= v@.len(),
        r.2 == is_file_name(v@.subrange(component_start(v@, r.1 as int), r.1 as int)),
{
    let end: usize = find_component_end(v);
    let start: usize = match find_last_before(v, '/', end) {
        Some(i) => i + 1,
        None => 0,
    };
    let name = text_of(v, start, end);
    let ok = !name.as_str().is_empty() && !same_text(name.as_str(), ".") && !same_text(
        name.as_str(),
        "..",
    );
    if !ok {
        return (None, end, false);
    }
    match find_last_before(v, '.', end) {
        Some(i) => if i > start {
            (Some(i), end, true)
        } else {
            (None, end, true)
        },
        None => (None, end, true),
    }
}

/// A path's extension, without the dot.
pub fn extension(path: &str) -> (r: Option<String>)
    ensures
        opt_text(r) == extension_spec(path@),
{
    let v = chars_of(path);
    let (dot, end, _name) = find_extension(&v);
    match dot {
        Some(i) => Some(text_of(&v, i + 1, end)),
        None => None,
    }
}

/// A path up to the end of its file name's stem.
pub fn without_extension(path: &str) -> (r: String)
    ensures
        r@ == stem_spec(path@),
{
    let v = chars_of(path);
    let (dot, end, named) = find_extension(&v);
    match dot {
        Some(i) => text_of(&v, 0, i),
        None => if named {
            text_of(&v, 0, end)
        } else {
            path.to_owned()
        },
    }
}

// ---------------------------------------------------------------------
// Copies
// ---------------------------------------------------------------------

/// Where a copy's suffix goes: before the extension of the file name, or else
/// at the end.
pub open spec fn copy_point(path: Seq<char>) -> int {
    match extension_dot(path) {
        Some(i) => i,
        None => path.len() as int,
    }
}

proof fn lemma_component_end(p: Seq<char>, n: int)
    requires
        0 <= n <= p.len(),
    ensures
        0 <= component_end(p, n) <= n,
    decreases n,
{
    if n > 0 {
        lemma_component_end(p, n - 1);
    }
}

proof fn lemma_copy_point(path: Seq<char>)
    ensures
        0 <= copy_point(path) <= path.len(),
{
    let n = path.len() as int;
    lemma_component_end(path, n);
    lemma_last_before(path, '.', component_end(path, n));
}

/// The `n`th name for a copy of a path: `-copy`, `-copy2`, and so on.
pub open spec fn copy_name(path: Seq<char>, n: nat) -> Seq<char> {
    let at = copy_point(path);
    path.subrange(0, at) + (if n == 1 {
        "-copy"@
    } else {
        "-copy"@ + decimal(n)
    }) + path.subrange(at, path.len() as int)
}

/// `n` is the first count from one on whose name is not taken.
pub open spec fn first_free(path: Seq<char>, taken: Seq<Seq<char>>, n: nat) -> bool {
    &&& n >= 1
    &&& !taken.contains(copy_name(path, n))
    &&& forall|k: nat| 1 <= k < n ==> taken.contains(#[trigger] copy_name(path, k))
}

/// The name of a copy: the first one that is not taken.
pub open spec fn copied_path(path: Seq<char>, taken: Seq<Seq<char>>) -> Seq<char> {
    copy_name(path, choose|n: nat| first_free(path, taken, n))
}

proof fn lemma_copy_names_differ(path: Seq<char>, a: nat, b: nat)
    requires
        1 <= a < b,
    ensures
        copy_name(path, a) != copy_name(path, b),
{
    let at = copy_point(path);
    lemma_copy_point(path);
    let x = copy_name(path, a);
    let y = copy_name(path, b);
    reveal_strlit("-copy");
    crate::graph::chapter::lemma_decimal(a);
    crate::graph::chapter::lemma_decimal(b);
    let tail = path.subrange(at, path.len() as int);
    if x == y {
        assert(y.subrange(at + 5, y.len() - tail.len()) == decimal(b));
        if a == 1 {
            assert(x.len() == at + 5 + tail.len());
            assert(y.len() == at + 5 + decimal(b).len() + tail.len());
        } else {
            assert(x.subrange(at + 5, x.len() - tail.len()) == decimal(a));
        }
    }
}

/// The names that are taken, without the `n`th of them.
proof fn lemma_some_name_is_free(path: Seq<char>, taken: Seq<Seq<char>>, n: nat)
    requires
        forall|k: nat| 1 <= k <= n ==> taken.contains(#[trigger] copy_name(path, k)),
    ensures
        n <= taken.len(),
    decreases n,
{
    if n > 0 {
        assert(taken.contains(copy_name(path, n)));
        let p = choose|p: int| 0 <= p < taken.len() && taken[p] == copy_name(path, n);
        let rest = taken.remove(p);
        assert forall|k: nat| 1 <= k <= (n - 1) as nat implies rest.contains(
            #[trigger] copy_name(path, k),
        ) by {
            lemma_copy_names_differ(path, k, n);
            let q = choose|q: int| 0 <= q < taken.len() && taken[q] == copy_name(path, k);
            assert(q != p);
            if q < p {
                assert(rest[q] == copy_name(path, k));
            } else {
                assert(rest[q - 1] == copy_name(path, k));
            }
        }
        lemma_some_name_is_free(path, rest, (n - 1) as nat);
    }
}

/// A path for a copy that no other path of `taken` equals: the first of
/// `-copy`, `-copy2`, ... before the extension that is free.
pub fn copy_path(path: &str, taken: &Vec<String>) -> (r: String)
    ensures
        r@ == copied_path(path@, views(taken@)),
        exists|n: nat| #[trigger] first_free(path@, views(taken@), n) && r@ == copy_name(path@, n),
{
    let v = chars_of(path);
    let (dot, _end, _name) = find_extension(&v);
    let at: usize = match dot {
        Some(i) => i,
        None => v.len(),
    };
    let stem = text_of(&v, 0, at);
    let ext = text_of(&v, at, v.len());
    let total: usize = taken.len();
    let mut n: u128 = 1;
    loop
        invariant
            1 <= n,
            total == taken@.len(),
            n <= total + 1,
            stem@ == path@.subrange(0, copy_point(path@)),
            ext@ == path@.subrange(copy_point(path@), path@.len() as int),
            forall|k: nat|
                1 <= k < n ==> views(taken@).contains(#[trigger] copy_name(path@, k)),
        decreases total + 2 - n,
    {
        let suffix = if n == 1 {
            "-copy".to_owned()
        } else {
            let count = number(n);
            cat2("-copy", count.as_str())
        };
        let candidate = cat3(stem.as_str(), suffix.as_str(), ext.as_str());
        assert(candidate@ == copy_name(path@, n as nat));
        if !list_contains(taken, candidate.as_str()) {
            proof {
                assert(first_free(path@, views(taken@), n as nat));
                first_free_is_unique(
                    path@,
                    views(taken@),
                    n as nat,
                    choose|m: nat| first_free(path@, views(taken@), m),
                );
            }
            return candidate;
        }
        proof {
            assert forall|k: nat| 1 <= k <= n as nat implies views(taken@).contains(
                #[trigger] copy_name(path@, k),
            ) by {}
            lemma_some_name_is_free(path@, views(taken@), n as nat);
        }
        n = n + 1;
    }
}

/// The name of a copy is one that no taken path has, and there is only one
/// such first name.
pub proof fn first_free_is_unique(path: Seq<char>, taken: Seq<Seq<char>>, a: nat, b: nat)
    requires
        first_free(path, taken, a),
        first_free(path, taken, b),
    ensures
        a == b,
{
    if a < b {
        assert(taken.contains(copy_name(path, a)));
    } else if b < a {
        assert(taken.contains(copy_name(path, b)));
    }
}

proof fn lemma_first_free_exists(path: Seq<char>, taken: Seq<Seq<char>>, n: nat)
    requires
        n >= 1,
        forall|k: nat| 1 <= k < n ==> taken.contains(#[trigger] copy_name(path, k)),
    ensures
        exists|m: nat| first_free(path, taken, m),
    decreases taken.len() + 1 - n,
{
    if taken.contains(copy_name(path, n)) {
        assert forall|k: nat| 1 <= k <= n implies taken.contains(#[trigger] copy_name(path, k)) by {}
        lemma_some_name_is_free(path, taken, n);
        lemma_first_free_exists(path, taken, n + 1);
    } else {
        assert(first_free(path, taken, n));
    }
}

/// There always is a name for a copy, and no taken path has it.
pub proof fn copied_path_is_free(path: Seq<char>, taken: Seq<Seq<char>>)
    ensures
        !taken.contains(copied_path(path, taken)),
{
    lemma_first_free_exists(path, taken, 1);
    let n = choose|n: nat| first_free(path, taken, n);
    assert(first_free(path, taken, n));
}

} // verus!
