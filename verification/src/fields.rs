//! Ordered collections of texts: a map from field names to values, and a set
//! of flags. Both keep their keys in text order, so walking them is stable.
use vstd::prelude::*;

use crate::text::{group_views, less, same_text, text_less, text_less_irreflexive, text_less_total, text_less_transitive, views};

verus! {

pub type Entry = (Seq<char>, Seq<char>);

/// The keys of a list of entries.
pub open spec fn keys_of(m: Seq<Entry>) -> Seq<Seq<char>> {
    Seq::new(m.len(), |i: int| m[i].0)
}

/// Keys in strictly ascending text order: no key occurs twice.
pub open spec fn ascending(keys: Seq<Seq<char>>) -> bool {
    forall|i: int, j: int| 0 <= i < j < keys.len() ==> #[trigger] text_less(keys[i], keys[j])
}

/// The first position from `i` on at which `keys` holds `k`.
pub open spec fn key_from(keys: Seq<Seq<char>>, k: Seq<char>, i: int) -> Option<int>
    decreases keys.len() - i,
{
    if i >= keys.len() {
        None
    } else if keys[i] == k {
        Some(i)
    } else {
        key_from(keys, k, i + 1)
    }
}

/// Where `keys` holds `k`.
pub open spec fn key_at(keys: Seq<Seq<char>>, k: Seq<char>) -> Option<int> {
    key_from(keys, k, 0)
}

/// The first position from `i` on whose key does not come before `k`.
pub open spec fn rank_from(keys: Seq<Seq<char>>, k: Seq<char>, i: int) -> int
    decreases keys.len() - i,
{
    if i >= keys.len() {
        keys.len() as int
    } else if text_less(keys[i], k) {
        rank_from(keys, k, i + 1)
    } else {
        i
    }
}

/// Where `k` belongs among the ascending `keys`.
pub open spec fn rank(keys: Seq<Seq<char>>, k: Seq<char>) -> int {
    rank_from(keys, k, 0)
}

/// The value stored under `k`.
pub open spec fn field_get(m: Seq<Entry>, k: Seq<char>) -> Option<Seq<char>> {
    match key_at(keys_of(m), k) {
        Some(i) => Some(m[i].1),
        None => None,
    }
}

/// `m` with `v` stored under `k`.
pub open spec fn field_set(m: Seq<Entry>, k: Seq<char>, v: Seq<char>) -> Seq<Entry> {
    match key_at(keys_of(m), k) {
        Some(i) => m.update(i, (k, v)),
        None => m.insert(rank(keys_of(m), k), (k, v)),
    }
}

/// `m` without `k`.
pub open spec fn field_unset(m: Seq<Entry>, k: Seq<char>) -> Seq<Entry> {
    match key_at(keys_of(m), k) {
        Some(i) => m.remove(i),
        None => m,
    }
}

/// `m` with the first `n` entries of `more` added, except those whose key `m`
/// already holds.
pub open spec fn field_fill(m: Seq<Entry>, more: Seq<Entry>, n: int) -> Seq<Entry>
    decreases n,
{
    if n <= 0 {
        m
    } else {
        let p = field_fill(m, more, n - 1);
        if field_get(p, more[n - 1].0) is Some {
            p
        } else {
            field_set(p, more[n - 1].0, more[n - 1].1)
        }
    }
}

/// `s` with `k` added.
pub open spec fn flag_set(s: Seq<Seq<char>>, k: Seq<char>) -> Seq<Seq<char>> {
    if key_at(s, k) is Some {
        s
    } else {
        s.insert(rank(s, k), k)
    }
}

/// `s` without `k`.
pub open spec fn flag_unset(s: Seq<Seq<char>>, k: Seq<char>) -> Seq<Seq<char>> {
    match key_at(s, k) {
        Some(i) => s.remove(i),
        None => s,
    }
}

/// `s` with the membership of `k` flipped.
pub open spec fn flag_toggle(s: Seq<Seq<char>>, k: Seq<char>) -> Seq<Seq<char>> {
    if key_at(s, k) is Some {
        flag_unset(s, k)
    } else {
        flag_set(s, k)
    }
}

proof fn lemma_key_from(keys: Seq<Seq<char>>, k: Seq<char>, i: int)
    requires
        0 <= i,
    ensures
        match key_from(keys, k, i) {
            Some(p) => i <= p < keys.len() && keys[p] == k && forall|j: int|
                i <= j < p ==> keys[j] != k,
            None => forall|j: int| i <= j < keys.len() ==> keys[j] != k,
        },
    decreases keys.len() - i,
{
    if i < keys.len() && keys[i] != k {
        lemma_key_from(keys, k, i + 1);
    }
}

/// What a found or missing key means for the positions of `keys`.
pub proof fn lemma_key_at(keys: Seq<Seq<char>>, k: Seq<char>)
    ensures
        match key_at(keys, k) {
            Some(p) => 0 <= p < keys.len() && keys[p] == k && forall|j: int|
                0 <= j < p ==> keys[j] != k,
            None => forall|j: int| 0 <= j < keys.len() ==> keys[j] != k,
        },
{
    lemma_key_from(keys, k, 0);
}

pub(crate) proof fn lemma_rank_from(keys: Seq<Seq<char>>, k: Seq<char>, i: int)
    requires
        0 <= i <= keys.len(),
    ensures
        i <= rank_from(keys, k, i) <= keys.len(),
        forall|j: int| i <= j < rank_from(keys, k, i) ==> text_less(#[trigger] keys[j], k),
        rank_from(keys, k, i) < keys.len() ==> !text_less(keys[rank_from(keys, k, i)], k),
    decreases keys.len() - i,
{
    if i < keys.len() && text_less(keys[i], k) {
        lemma_rank_from(keys, k, i + 1);
    }
}

/// Putting a missing key where it belongs keeps the keys ascending.
proof fn lemma_insert_ascending(keys: Seq<Seq<char>>, k: Seq<char>)
    requires
        ascending(keys),
        key_at(keys, k) is None,
    ensures
        0 <= rank(keys, k) <= keys.len(),
        ascending(keys.insert(rank(keys, k), k)),
{
    let r = rank(keys, k);
    lemma_rank_from(keys, k, 0);
    lemma_key_at(keys, k);
    let out = keys.insert(r, k);
    assert forall|j: int| r <= j < keys.len() implies text_less(k, #[trigger] keys[j]) by {
        text_less_total(keys[r], k);
        if j > r {
            assert(text_less(keys[r], keys[j]));
            text_less_transitive(k, keys[r], keys[j]);
        }
    }
    assert forall|i: int, j: int| 0 <= i < j < out.len() implies #[trigger] text_less(
        out[i],
        out[j],
    ) by {
        if i < r && j > r {
            assert(text_less(keys[i], keys[j - 1]));
        } else if i > r {
            assert(text_less(keys[i - 1], keys[j - 1]));
        } else if j < r {
            assert(text_less(keys[i], keys[j]));
        }
    }
}

proof fn lemma_remove_ascending(keys: Seq<Seq<char>>, p: int)
    requires
        ascending(keys),
        0 <= p < keys.len(),
    ensures
        ascending(keys.remove(p)),
{
    let out = keys.remove(p);
    assert forall|i: int, j: int| 0 <= i < j < out.len() implies #[trigger] text_less(
        out[i],
        out[j],
    ) by {
        let a = if i < p {
            i
        } else {
            i + 1
        };
        let b = if j < p {
            j
        } else {
            j + 1
        };
        assert(text_less(keys[a], keys[b]));
    }
}

proof fn lemma_ascending_distinct(keys: Seq<Seq<char>>, i: int, j: int)
    requires
        ascending(keys),
        0 <= i < keys.len(),
        0 <= j < keys.len(),
        keys[i] == keys[j],
    ensures
        i == j,
{
    text_less_irreflexive(keys[i]);
    if i < j {
        assert(text_less(keys[i], keys[j]));
    } else if j < i {
        assert(text_less(keys[j], keys[i]));
    }
}

/// Setting a field keeps the keys ascending.
pub proof fn field_set_ascending(m: Seq<Entry>, k: Seq<char>, v: Seq<char>)
    requires
        ascending(keys_of(m)),
    ensures
        ascending(keys_of(field_set(m, k, v))),
{
    let keys = keys_of(m);
    lemma_key_at(keys, k);
    match key_at(keys, k) {
        Some(i) => {
            assert(keys_of(m.update(i, (k, v))) == keys);
        },
        None => {
            lemma_insert_ascending(keys, k);
            assert(keys_of(m.insert(rank(keys, k), (k, v))) == keys.insert(rank(keys, k), k));
        },
    }
}

/// Clearing a field keeps the keys ascending.
pub proof fn field_unset_ascending(m: Seq<Entry>, k: Seq<char>)
    requires
        ascending(keys_of(m)),
    ensures
        ascending(keys_of(field_unset(m, k))),
{
    let keys = keys_of(m);
    lemma_key_at(keys, k);
    if let Some(i) = key_at(keys, k) {
        lemma_remove_ascending(keys, i);
        assert(keys_of(m.remove(i)) == keys.remove(i));
    }
}

/// A set field reads back as the value it was set to, and every other field
/// reads as before.
pub proof fn field_get_after_set(m: Seq<Entry>, k: Seq<char>, v: Seq<char>, other: Seq<char>)
    requires
        ascending(keys_of(m)),
    ensures
        field_get(field_set(m, k, v), k) == Some(v),
        other != k ==> field_get(field_set(m, k, v), other) == field_get(m, other),
{
    let keys = keys_of(m);
    let out = field_set(m, k, v);
    lemma_key_at(keys, k);
    lemma_key_at(keys, other);
    lemma_rank_from(keys, k, 0);
    field_set_ascending(m, k, v);
    lemma_key_at(keys_of(out), k);
    lemma_key_at(keys_of(out), other);
    match key_at(keys, k) {
        Some(i) => {
            assert(keys_of(out) == keys);
        },
        None => {
            let r = rank(keys, k);
            assert(keys_of(out) == keys.insert(r, k));
            assert(keys_of(out)[r] == k);
            lemma_ascending_distinct(keys_of(out), r, key_at(keys_of(out), k)->0);
            if other != k {
                match key_at(keys, other) {
                    Some(p) => {
                        let q = if p < r {
                            p
                        } else {
                            p + 1
                        };
                        assert(keys_of(out)[q] == other);
                        lemma_ascending_distinct(keys_of(out), q, key_at(keys_of(out), other)->0);
                    },
                    None => {
                        assert forall|j: int| 0 <= j < keys_of(out).len() implies keys_of(out)[j]
                            != other by {
                            if j < r {
                                assert(keys_of(out)[j] == keys[j]);
                            } else if j > r {
                                assert(keys_of(out)[j] == keys[j - 1]);
                            }
                        }
                    },
                }
            }
        },
    }
}

/// A cleared field reads as unset, and every other field reads as before.
pub proof fn field_get_after_unset(m: Seq<Entry>, k: Seq<char>, other: Seq<char>)
    requires
        ascending(keys_of(m)),
    ensures
        field_get(field_unset(m, k), k) is None,
        other != k ==> field_get(field_unset(m, k), other) == field_get(m, other),
{
    let keys = keys_of(m);
    let out = field_unset(m, k);
    lemma_key_at(keys, k);
    lemma_key_at(keys, other);
    field_unset_ascending(m, k);
    lemma_key_at(keys_of(out), k);
    lemma_key_at(keys_of(out), other);
    if let Some(i) = key_at(keys, k) {
        assert(keys_of(out) == keys.remove(i));
        assert forall|j: int| 0 <= j < keys_of(out).len() implies keys_of(out)[j] != k by {
            let q = if j < i {
                j
            } else {
                j + 1
            };
            if keys[q] == k {
                lemma_ascending_distinct(keys, q, i);
            }
        }
        if other != k {
            match key_at(keys, other) {
                Some(p) => {
                    let q = if p < i {
                        p
                    } else {
                        p - 1
                    };
                    assert(keys_of(out)[q] == other);
                    lemma_ascending_distinct(keys_of(out), q, key_at(keys_of(out), other)->0);
                },
                None => {
                    assert forall|j: int| 0 <= j < keys_of(out).len() implies keys_of(out)[j]
                        != other by {
                        if j < i {
                            assert(keys_of(out)[j] == keys[j]);
                        } else {
                            assert(keys_of(out)[j] == keys[j + 1]);
                        }
                    }
                },
            }
        }
    }
}

/// Toggling a flag flips its membership, and toggling it again gives back the
/// set as it was.
pub proof fn flag_toggle_twice(s: Seq<Seq<char>>, k: Seq<char>)
    requires
        ascending(s),
    ensures
        ascending(flag_toggle(s, k)),
        (key_at(flag_toggle(s, k), k) is Some) != (key_at(s, k) is Some),
        flag_toggle(flag_toggle(s, k), k) == s,
{
    lemma_key_at(s, k);
    lemma_rank_from(s, k, 0);
    let t = flag_toggle(s, k);
    lemma_key_at(t, k);
    match key_at(s, k) {
        Some(i) => {
            lemma_remove_ascending(s, i);
            assert forall|j: int| 0 <= j < t.len() implies t[j] != k by {
                let q = if j < i {
                    j
                } else {
                    j + 1
                };
                assert(t[j] == s[q]);
                if s[q] == k {
                    lemma_ascending_distinct(s, q, i);
                }
            }
            lemma_rank_from(t, k, 0);
            let r = rank(t, k);
            if r < i {
                assert(t[r] == s[r]);
                assert(text_less(s[r], s[i]));
            } else if r > i {
                assert(t[i] == s[i + 1]);
                assert(text_less(s[i], s[i + 1]));
                assert(text_less(t[i], k));
                text_less_transitive(s[i], s[i + 1], k);
                text_less_irreflexive(k);
            }
            assert(t.insert(i, k) == s);
        },
        None => {
            lemma_insert_ascending(s, k);
            let r = rank(s, k);
            assert(t[r] == k);
            lemma_ascending_distinct(t, r, key_at(t, k)->0);
            assert(t.remove(r) == s);
        },
    }
}

/// A map from field names to values, walked in the order of the names.
pub struct FieldMap {
    entries: Vec<(String, String)>,
}

impl View for FieldMap {
    type V = Seq<Entry>;

    closed spec fn view(&self) -> Seq<Entry> {
        views(self.entries@)
    }
}

impl FieldMap {
    #[verifier::type_invariant]
    spec fn keys_ascend(self) -> bool {
        ascending(keys_of(views(self.entries@)))
    }

    /// The map with no fields.
    pub fn new() -> (r: FieldMap)
        ensures
            r@ == Seq::<Entry>::empty(),
    {
        broadcast use group_views;

        FieldMap { entries: Vec::new() }
    }

    pub fn len(&self) -> (r: usize)
        ensures
            r == self@.len(),
    {
        self.entries.len()
    }

    pub fn is_empty(&self) -> (r: bool)
        ensures
            r == (self@.len() == 0),
    {
        self.entries.len() == 0
    }

    /// The name of the field at position `i`.
    pub fn key(&self, i: usize) -> (r: &str)
        requires
            i < self@.len(),
        ensures
            r@ == self@[i as int].0,
    {
        self.entries[i].0.as_str()
    }

    /// The value of the field at position `i`.
    pub fn value(&self, i: usize) -> (r: &str)
        requires
            i < self@.len(),
        ensures
            r@ == self@[i as int].1,
    {
        self.entries[i].1.as_str()
    }

    fn position(&self, k: &str) -> (r: Option<usize>)
        ensures
            match r {
                Some(i) => i < self@.len() && key_at(keys_of(self@), k@) == Some(i as int),
                None => key_at(keys_of(self@), k@) is None,
            },
    {
        let mut i: usize = 0;
        while i < self.entries.len()
            invariant
                i <= self.entries@.len(),
                key_at(keys_of(self@), k@) == key_from(keys_of(self@), k@, i as int),
            decreases self.entries@.len() - i,
        {
            if same_text(self.entries[i].0.as_str(), k) {
                return Some(i);
            }
            i += 1;
        }
        None
    }

    /// The value stored under `k`.
    pub fn get(&self, k: &str) -> (r: Option<&str>)
        ensures
            match r {
                Some(v) => field_get(self@, k@) == Some(v@),
                None => field_get(self@, k@) is None,
            },
    {
        match self.position(k) {
            Some(i) => Some(self.entries[i].1.as_str()),
            None => None,
        }
    }

    /// Whether a value is stored under `k`.
    pub fn contains_key(&self, k: &str) -> (r: bool)
        ensures
            r == (field_get(self@, k@) is Some),
    {
        self.position(k).is_some()
    }

    /// Stores `v` under `k`.
    pub fn insert(&mut self, k: String, v: String)
        ensures
            final(self)@ == field_set(old(self)@, k@, v@),
    {
        broadcast use group_views;

        proof {
            use_type_invariant(&*self);
            field_set_ascending(self@, k@, v@);
        }
        let found = self.position(k.as_str());
        let mut entries: Vec<(String, String)> = Vec::new();
        std::mem::swap(&mut entries, &mut self.entries);
        let ghost before = entries@;
        match found {
            Some(i) => {
                entries.set(i, (k, v));
            },
            None => {
                let mut i: usize = 0;
                while i < entries.len() && less(entries[i].0.as_str(), k.as_str())
                    invariant
                        i <= entries@.len(),
                        entries@ == before,
                        rank(keys_of(views(before)), k@) == rank_from(
                            keys_of(views(before)),
                            k@,
                            i as int,
                        ),
                    decreases entries@.len() - i,
                {
                    i += 1;
                }
                entries.insert(i, (k, v));
            },
        }
        self.entries = entries;
    }

    /// Drops what is stored under `k`; returns whether there was anything.
    pub fn remove(&mut self, k: &str) -> (r: bool)
        ensures
            final(self)@ == field_unset(old(self)@, k@),
            r == (field_get(old(self)@, k@) is Some),
    {
        broadcast use group_views;

        proof {
            use_type_invariant(&*self);
            field_unset_ascending(self@, k@);
        }
        let found = self.position(k);
        match found {
            Some(i) => {
                let mut entries: Vec<(String, String)> = Vec::new();
                std::mem::swap(&mut entries, &mut self.entries);
                entries.remove(i);
                self.entries = entries;
                true
            },
            None => false,
        }
    }

    /// Adds every entry of `more` whose key is not stored yet.
    pub fn fill(&mut self, more: &FieldMap)
        ensures
            final(self)@ == field_fill(old(self)@, more@, more@.len() as int),
    {
        let mut i: usize = 0;
        while i < more.len()
            invariant
                i <= more@.len(),
                self@ == field_fill(old(self)@, more@, i as int),
            decreases more@.len() - i,
        {
            if !self.contains_key(more.key(i)) {
                self.insert(more.key(i).to_owned(), more.value(i).to_owned());
            }
            i += 1;
        }
    }
}

impl Clone for FieldMap {
    fn clone(&self) -> (r: FieldMap)
        ensures
            r@ == self@,
    {
        broadcast use group_views;

        proof {
            use_type_invariant(self);
        }
        let mut entries: Vec<(String, String)> = Vec::new();
        let mut i: usize = 0;
        while i < self.entries.len()
            invariant
                i <= self.entries@.len(),
                views(entries@) == views(self.entries@).take(i as int),
            decreases self.entries@.len() - i,
        {
            broadcast use group_views;

            entries.push((self.entries[i].0.clone(), self.entries[i].1.clone()));
            i += 1;
            assert(views(self.entries@).take(i as int) == views(self.entries@).take(i - 1).push(
                self.entries@[i - 1]@,
            ));
        }
        assert(views(self.entries@).take(self.entries@.len() as int) == views(self.entries@));
        FieldMap { entries }
    }
}

/// A set of flags, walked in text order.
pub struct FlagSet {
    flags: Vec<String>,
}

impl View for FlagSet {
    type V = Seq<Seq<char>>;

    closed spec fn view(&self) -> Seq<Seq<char>> {
        views(self.flags@)
    }
}

impl FlagSet {
    #[verifier::type_invariant]
    spec fn flags_ascend(self) -> bool {
        ascending(views(self.flags@))
    }

    /// The set with no flags.
    pub fn new() -> (r: FlagSet)
        ensures
            r@ == Seq::<Seq<char>>::empty(),
    {
        broadcast use group_views;

        FlagSet { flags: Vec::new() }
    }

    pub fn len(&self) -> (r: usize)
        ensures
            r == self@.len(),
    {
        self.flags.len()
    }

    pub fn is_empty(&self) -> (r: bool)
        ensures
            r == (self@.len() == 0),
    {
        self.flags.len() == 0
    }

    /// All flags, in order.
    pub fn names(&self) -> (r: &Vec<String>)
        ensures
            views(r@) == self@,
    {
        &self.flags
    }

    fn position(&self, k: &str) -> (r: Option<usize>)
        ensures
            match r {
                Some(i) => i < self@.len() && key_at(self@, k@) == Some(i as int),
                None => key_at(self@, k@) is None,
            },
    {
        let mut i: usize = 0;
        while i < self.flags.len()
            invariant
                i <= self.flags@.len(),
                key_at(self@, k@) == key_from(self@, k@, i as int),
            decreases self.flags@.len() - i,
        {
            if same_text(self.flags[i].as_str(), k) {
                return Some(i);
            }
            i += 1;
        }
        None
    }

    /// Whether `k` is in the set.
    pub fn contains(&self, k: &str) -> (r: bool)
        ensures
            r == (key_at(self@, k@) is Some),
            r == self@.contains(k@),
    {
        proof {
            lemma_key_at(self@, k@);
        }
        self.position(k).is_some()
    }

    /// Adds `k` to the set.
    pub fn insert(&mut self, k: String)
        ensures
            final(self)@ == flag_set(old(self)@, k@),
    {
        broadcast use group_views;

        proof {
            use_type_invariant(&*self);
            if key_at(self@, k@) is None {
                lemma_insert_ascending(self@, k@);
            }
        }
        if self.position(k.as_str()).is_none() {
            let mut flags: Vec<String> = Vec::new();
            std::mem::swap(&mut flags, &mut self.flags);
            let ghost before = flags@;
            let mut i: usize = 0;
            while i < flags.len() && less(flags[i].as_str(), k.as_str())
                invariant
                    i <= flags@.len(),
                    flags@ == before,
                    rank(views(before), k@) == rank_from(views(before), k@, i as int),
                decreases flags@.len() - i,
            {
                i += 1;
            }
            flags.insert(i, k);
            self.flags = flags;
        }
    }

    /// Takes `k` out of the set; returns whether it was there.
    pub fn remove(&mut self, k: &str) -> (r: bool)
        ensures
            final(self)@ == flag_unset(old(self)@, k@),
            r == (key_at(old(self)@, k@) is Some),
    {
        broadcast use group_views;

        proof {
            use_type_invariant(&*self);
            lemma_key_at(self@, k@);
            if let Some(i) = key_at(self@, k@) {
                lemma_remove_ascending(self@, i);
            }
        }
        match self.position(k) {
            Some(i) => {
                let mut flags: Vec<String> = Vec::new();
                std::mem::swap(&mut flags, &mut self.flags);
                flags.remove(i);
                self.flags = flags;
                true
            },
            None => false,
        }
    }
}

impl Clone for FlagSet {
    fn clone(&self) -> (r: FlagSet)
        ensures
            r@ == self@,
    {
        proof {
            use_type_invariant(self);
        }
        let flags = crate::text::copy_texts(&self.flags);
        FlagSet { flags }
    }
}

} // verus!
