//! Wires, their ends, and ordered sets of their sources.
use vstd::prelude::*;

verus! {

pub type NodeId = usize;

/// The source side of a connection: a stream of an input file, or the single
/// output of a modifier node. Ordered, so that a set of these has a stable
/// order to walk.
#[derive(Clone, Copy, Debug, PartialEq, Eq, Structural)]
pub enum Endpoint {
    Stream { node: NodeId, stream_idx: usize },
    ModifierOut(NodeId),
}

/// The destination side of a connection: a modifier's input (one wire at a
/// time, any number for a concat node), an output's list of mapped streams
/// (any number), or an output's chapters slot (one wire).
#[derive(Clone, Copy, Debug, PartialEq, Eq, Structural)]
pub enum Target {
    ModifierIn(NodeId),
    Output(NodeId),
    OutputChapters(NodeId),
}

/// A connection in the graph.
#[derive(Clone, Copy, Debug, PartialEq, Eq, Structural)]
pub struct Wire {
    pub from: Endpoint,
    pub to: Target,
}

// ---------------------------------------------------------------------
// Sets of endpoints
// ---------------------------------------------------------------------

/// The order of endpoints: streams first, by node and then by stream; then
/// modifier outputs, by node.
pub open spec fn endpoint_less(a: Endpoint, b: Endpoint) -> bool {
    match (a, b) {
        (
            Endpoint::Stream { node: n1, stream_idx: s1 },
            Endpoint::Stream { node: n2, stream_idx: s2 },
        ) => n1 < n2 || (n1 == n2 && s1 < s2),
        (Endpoint::Stream { .. }, Endpoint::ModifierOut(_)) => true,
        (Endpoint::ModifierOut(_), Endpoint::Stream { .. }) => false,
        (Endpoint::ModifierOut(m1), Endpoint::ModifierOut(m2)) => m1 < m2,
    }
}

fn comes_before(a: Endpoint, b: Endpoint) -> (r: bool)
    ensures
        r == endpoint_less(a, b),
{
    match (a, b) {
        (
            Endpoint::Stream { node: n1, stream_idx: s1 },
            Endpoint::Stream { node: n2, stream_idx: s2 },
        ) => n1 < n2 || (n1 == n2 && s1 < s2),
        (Endpoint::Stream { .. }, Endpoint::ModifierOut(_)) => true,
        (Endpoint::ModifierOut(_), Endpoint::Stream { .. }) => false,
        (Endpoint::ModifierOut(m1), Endpoint::ModifierOut(m2)) => m1 < m2,
    }
}

/// Endpoints in strictly ascending order: none occurs twice.
pub open spec fn endpoints_ascend(s: Seq<Endpoint>) -> bool {
    forall|i: int, j: int| 0 <= i < j < s.len() ==> #[trigger] endpoint_less(s[i], s[j])
}

/// The first position from `i` on whose endpoint does not come before `e`.
pub open spec fn endpoint_rank_from(s: Seq<Endpoint>, e: Endpoint, i: int) -> int
    decreases s.len() - i,
{
    if i >= s.len() {
        s.len() as int
    } else if endpoint_less(s[i], e) {
        endpoint_rank_from(s, e, i + 1)
    } else {
        i
    }
}

/// `s` with `e` added.
pub open spec fn endpoint_set(s: Seq<Endpoint>, e: Endpoint) -> Seq<Endpoint> {
    if s.contains(e) {
        s
    } else {
        s.insert(endpoint_rank_from(s, e, 0), e)
    }
}

/// `s` with the streams `lo..hi` of `node` added, in order.
pub open spec fn endpoint_set_range(s: Seq<Endpoint>, node: NodeId, lo: int, hi: int) -> Seq<
    Endpoint,
>
    decreases hi - lo,
{
    if hi <= lo {
        s
    } else {
        endpoint_set(
            endpoint_set_range(s, node, lo, hi - 1),
            Endpoint::Stream { node, stream_idx: (hi - 1) as usize },
        )
    }
}

/// The first `n` endpoints of `s` that are not `e`.
pub open spec fn endpoints_except(s: Seq<Endpoint>, e: Endpoint, n: int) -> Seq<Endpoint>
    decreases n,
{
    if n <= 0 {
        Seq::empty()
    } else {
        let p = endpoints_except(s, e, n - 1);
        if s[n - 1] == e {
            p
        } else {
            p.push(s[n - 1])
        }
    }
}

/// Whether an endpoint is a stream of input node `id`.
pub open spec fn from_input(e: Endpoint, id: NodeId) -> bool {
    e matches Endpoint::Stream { node, .. } && node == id
}

/// Those of the first `n` endpoints of `s` that are no stream of node `id`.
pub open spec fn endpoints_off_input(s: Seq<Endpoint>, id: NodeId, n: int) -> Seq<Endpoint>
    decreases n,
{
    if n <= 0 {
        Seq::empty()
    } else {
        let p = endpoints_off_input(s, id, n - 1);
        if from_input(s[n - 1], id) {
            p
        } else {
            p.push(s[n - 1])
        }
    }
}

/// Whether an endpoint is a stream of input node `id`.
pub fn is_from_input(e: Endpoint, id: NodeId) -> (r: bool)
    ensures
        r == from_input(e, id),
{
    match e {
        Endpoint::Stream { node, .. } => node == id,
        Endpoint::ModifierOut(_) => false,
    }
}

proof fn lemma_rank(s: Seq<Endpoint>, e: Endpoint, i: int)
    requires
        0 <= i <= s.len(),
    ensures
        i <= endpoint_rank_from(s, e, i) <= s.len(),
        forall|j: int|
            i <= j < endpoint_rank_from(s, e, i) ==> endpoint_less(#[trigger] s[j], e),
        endpoint_rank_from(s, e, i) < s.len() ==> !endpoint_less(
            s[endpoint_rank_from(s, e, i)],
            e,
        ),
    decreases s.len() - i,
{
    if i < s.len() && endpoint_less(s[i], e) {
        lemma_rank(s, e, i + 1);
    }
}

/// Adding an endpoint keeps the order, adds that one and keeps the others.
pub proof fn endpoint_set_adds(s: Seq<Endpoint>, e: Endpoint)
    requires
        endpoints_ascend(s),
    ensures
        endpoints_ascend(endpoint_set(s, e)),
        forall|x: Endpoint| #[trigger]
            endpoint_set(s, e).contains(x) <==> (x == e || s.contains(x)),
{
    if !s.contains(e) {
        lemma_rank(s, e, 0);
        let r = endpoint_rank_from(s, e, 0);
        let t = s.insert(r, e);
        assert forall|i: int, j: int| 0 <= i < j < t.len() implies #[trigger] endpoint_less(
            t[i],
            t[j],
        ) by {
            if i == r {
                assert(s.contains(s[r]));
                if j - 1 > r {
                    assert(endpoint_less(s[r], s[j - 1]));
                }
            } else if j == r {
            } else {
                let a = if i < r {
                    i
                } else {
                    i - 1
                };
                let b = if j < r {
                    j
                } else {
                    j - 1
                };
                assert(endpoint_less(s[a], s[b]));
            }
        }
        assert forall|x: Endpoint| #[trigger] t.contains(x) <==> (x == e || s.contains(x)) by {
            if x == e {
                assert(t[r] == e);
            }
            if s.contains(x) {
                let k = choose|k: int| 0 <= k < s.len() && s[k] == x;
                if k < r {
                    assert(t[k] == x);
                } else {
                    assert(t[k + 1] == x);
                }
            }
            if t.contains(x) {
                let k = choose|k: int| 0 <= k < t.len() && t[k] == x;
                if k < r {
                    assert(s[k] == x);
                } else if k > r {
                    assert(s[k - 1] == x);
                }
            }
        }
    }
}

proof fn lemma_except(s: Seq<Endpoint>, e: Endpoint, n: int)
    requires
        endpoints_ascend(s),
        0 <= n <= s.len(),
    ensures
        endpoints_ascend(endpoints_except(s, e, n)),
        forall|x: Endpoint| #[trigger]
            endpoints_except(s, e, n).contains(x) <==> (x != e && s.take(n).contains(x)),
    decreases n,
{
    if n > 0 {
        lemma_except(s, e, n - 1);
        let p = endpoints_except(s, e, n - 1);
        let q = endpoints_except(s, e, n);
        assert(s.take(n) == s.take(n - 1).push(s[n - 1]));
        assert forall|i: int| 0 <= i < p.len() implies endpoint_less(#[trigger] p[i], s[n - 1]) by {
            assert(p.contains(p[i]));
            let head = s.take(n - 1);
            assert(head.contains(p[i]));
            let k = choose|k: int| 0 <= k < head.len() && head[k] == p[i];
            assert(endpoint_less(s[k], s[n - 1]));
        }
        assert forall|x: Endpoint| #[trigger] q.contains(x) <==> (x != e && s.take(n).contains(
            x,
        )) by {
            assert(s.take(n).contains(x) <==> (s.take(n - 1).contains(x) || x == s[n - 1])) by {
                if s.take(n - 1).contains(x) {
                    let head = s.take(n - 1);
                    let k = choose|k: int| 0 <= k < head.len() && head[k] == x;
                    assert(s.take(n)[k] == x);
                }
                if x == s[n - 1] {
                    assert(s.take(n)[n - 1] == x);
                }
            }
            if s[n - 1] != e {
                assert(q.contains(x) <==> (p.contains(x) || x == s[n - 1])) by {
                    if p.contains(x) {
                        let k = choose|k: int| 0 <= k < p.len() && p[k] == x;
                        assert(q[k] == x);
                    }
                    if x == s[n - 1] {
                        assert(q[p.len() as int] == x);
                    }
                }
            }
        }
    } else {
        assert(s.take(0) == Seq::<Endpoint>::empty());
    }
}

/// Taking an endpoint out keeps the order, drops that one and keeps the
/// others.
pub proof fn endpoint_unset_drops(s: Seq<Endpoint>, e: Endpoint)
    requires
        endpoints_ascend(s),
    ensures
        endpoints_ascend(endpoints_except(s, e, s.len() as int)),
        forall|x: Endpoint| #[trigger]
            endpoints_except(s, e, s.len() as int).contains(x) <==> (x != e && s.contains(x)),
{
    lemma_except(s, e, s.len() as int);
    assert(s.take(s.len() as int) == s);
}

proof fn lemma_off_input(s: Seq<Endpoint>, id: NodeId, n: int)
    requires
        endpoints_ascend(s),
        0 <= n <= s.len(),
    ensures
        endpoints_ascend(endpoints_off_input(s, id, n)),
        forall|x: Endpoint| #[trigger]
            endpoints_off_input(s, id, n).contains(x) <==> (!from_input(x, id) && s.take(
                n,
            ).contains(x)),
    decreases n,
{
    if n > 0 {
        lemma_off_input(s, id, n - 1);
        let p = endpoints_off_input(s, id, n - 1);
        let q = endpoints_off_input(s, id, n);
        let head = s.take(n - 1);
        assert(s.take(n) == head.push(s[n - 1]));
        assert forall|i: int| 0 <= i < p.len() implies endpoint_less(#[trigger] p[i], s[n - 1]) by {
            assert(p.contains(p[i]));
            assert(head.contains(p[i]));
            let k = choose|k: int| 0 <= k < head.len() && head[k] == p[i];
            assert(endpoint_less(s[k], s[n - 1]));
        }
        assert forall|x: Endpoint| #[trigger] q.contains(x) <==> (!from_input(x, id) && s.take(
            n,
        ).contains(x)) by {
            lemma_push_contains(head, s[n - 1], x);
            lemma_push_contains(p, s[n - 1], x);
        }
    } else {
        assert(s.take(0) == Seq::<Endpoint>::empty());
    }
}

proof fn lemma_push_contains(s: Seq<Endpoint>, e: Endpoint, x: Endpoint)
    ensures
        s.push(e).contains(x) <==> (s.contains(x) || x == e),
{
    if s.contains(x) {
        let k = choose|k: int| 0 <= k < s.len() && s[k] == x;
        assert(s.push(e)[k] == x);
    }
    assert(s.push(e)[s.len() as int] == e);
}

/// Taking an input's streams out keeps the order, drops those and keeps the
/// others.
pub proof fn input_unset_drops(s: Seq<Endpoint>, id: NodeId)
    requires
        endpoints_ascend(s),
    ensures
        endpoints_ascend(endpoints_off_input(s, id, s.len() as int)),
        forall|x: Endpoint| #[trigger]
            endpoints_off_input(s, id, s.len() as int).contains(x) <==> (!from_input(x, id)
                && s.contains(x)),
{
    lemma_off_input(s, id, s.len() as int);
    assert(s.take(s.len() as int) == s);
}

/// Whether an endpoint is one of the streams `lo..hi` of `node`.
pub open spec fn in_range(x: Endpoint, node: NodeId, lo: int, hi: int) -> bool {
    x matches Endpoint::Stream { node: n, stream_idx } && n == node && lo <= stream_idx < hi
}

/// Adding a range of streams keeps the order, adds those and keeps the others.
pub proof fn range_set_adds(s: Seq<Endpoint>, node: NodeId, lo: int, hi: int)
    requires
        endpoints_ascend(s),
        0 <= lo,
        hi <= usize::MAX + 1,
    ensures
        endpoints_ascend(endpoint_set_range(s, node, lo, hi)),
        forall|x: Endpoint| #[trigger]
            endpoint_set_range(s, node, lo, hi).contains(x) <==> (in_range(x, node, lo, hi)
                || s.contains(x)),
    decreases hi - lo,
{
    if lo < hi {
        range_set_adds(s, node, lo, hi - 1);
        let p = endpoint_set_range(s, node, lo, hi - 1);
        endpoint_set_adds(p, Endpoint::Stream { node, stream_idx: (hi - 1) as usize });
        assert forall|x: Endpoint| #[trigger]
            endpoint_set_range(s, node, lo, hi).contains(x) <==> (in_range(x, node, lo, hi)
                || s.contains(x)) by {
            assert(p.contains(x) <==> (in_range(x, node, lo, hi - 1) || s.contains(x)));
        }
    }
}

/// A set of endpoints is written down in one way only.
pub proof fn same_endpoints_same_set(s: Seq<Endpoint>, t: Seq<Endpoint>)
    requires
        endpoints_ascend(s),
        endpoints_ascend(t),
        forall|x: Endpoint| #[trigger] s.contains(x) <==> t.contains(x),
    ensures
        s == t,
    decreases s.len(),
{
    if s.len() == 0 {
        if t.len() > 0 {
            assert(t.contains(t[0]));
            assert(s.contains(t[0]));
        }
    } else {
        let m = s.last();
        assert(s.contains(m));
        assert(t.contains(m));
        let i = choose|i: int| 0 <= i < t.len() && t[i] == m;
        let top = t.last();
        assert(t.contains(top));
        assert(s.contains(top));
        let j = choose|j: int| 0 <= j < s.len() && s[j] == top;
        if i < t.len() - 1 {
            assert(endpoint_less(t[i], t[t.len() - 1]));
            if j < s.len() - 1 {
                assert(endpoint_less(s[j], s[s.len() - 1]));
            }
            assert(false);
        }
        let a = s.drop_last();
        let b = t.drop_last();
        assert forall|x: int, y: int| 0 <= x < y < a.len() implies #[trigger] endpoint_less(
            a[x],
            a[y],
        ) by {
            assert(endpoint_less(s[x], s[y]));
        }
        assert forall|x: int, y: int| 0 <= x < y < b.len() implies #[trigger] endpoint_less(
            b[x],
            b[y],
        ) by {
            assert(endpoint_less(t[x], t[y]));
        }
        assert forall|x: Endpoint| #[trigger] a.contains(x) <==> b.contains(x) by {
            assert(a.push(m) == s);
            assert(b.push(m) == t);
            lemma_push_contains(a, m, x);
            lemma_push_contains(b, m, x);
            assert(s.contains(x) <==> t.contains(x));
            if a.contains(m) {
                let k = choose|k: int| 0 <= k < a.len() && a[k] == m;
                assert(endpoint_less(s[k], s[s.len() - 1]));
            }
            if b.contains(m) {
                let k = choose|k: int| 0 <= k < b.len() && b[k] == m;
                assert(endpoint_less(t[k], t[t.len() - 1]));
            }
        }
        same_endpoints_same_set(a, b);
        assert(a.push(m) == s);
        assert(b.push(m) == t);
    }
}

/// A set of endpoints, walked in their order.
pub struct EndpointSet {
    items: Vec<Endpoint>,
}

impl View for EndpointSet {
    type V = Seq<Endpoint>;

    closed spec fn view(&self) -> Seq<Endpoint> {
        self.items@
    }
}

impl EndpointSet {
    #[verifier::type_invariant]
    spec fn in_order(self) -> bool {
        endpoints_ascend(self.items@)
    }

    /// The set with no endpoints.
    pub fn new() -> (r: EndpointSet)
        ensures
            r@ == Seq::<Endpoint>::empty(),
    {
        EndpointSet { items: Vec::new() }
    }

    pub fn len(&self) -> (r: usize)
        ensures
            r == self@.len(),
    {
        self.items.len()
    }

    pub fn is_empty(&self) -> (r: bool)
        ensures
            r == (self@.len() == 0),
    {
        self.items.len() == 0
    }

    /// The endpoint at position `i`.
    pub fn at(&self, i: usize) -> (r: Endpoint)
        requires
            i < self@.len(),
        ensures
            r == self@[i as int],
    {
        self.items[i]
    }

    /// Whether `e` is in the set.
    pub fn contains(&self, e: Endpoint) -> (r: bool)
        ensures
            r == self@.contains(e),
    {
        let mut i: usize = 0;
        while i < self.items.len()
            invariant
                i <= self.items@.len(),
                forall|j: int| 0 <= j < i ==> self.items@[j] != e,
            decreases self.items@.len() - i,
        {
            if self.items[i] == e {
                return true;
            }
            i += 1;
        }
        false
    }

    /// Adds `e`; returns whether it was new.
    pub fn insert(&mut self, e: Endpoint) -> (r: bool)
        ensures
            final(self)@ == endpoint_set(old(self)@, e),
            r == !old(self)@.contains(e),
    {
        proof {
            use_type_invariant(&*self);
            endpoint_set_adds(self@, e);
        }
        if self.contains(e) {
            return false;
        }
        let mut items: Vec<Endpoint> = Vec::new();
        std::mem::swap(&mut items, &mut self.items);
        let ghost before = items@;
        let mut i: usize = 0;
        while i < items.len() && comes_before(items[i], e)
            invariant
                i <= items@.len(),
                items@ == before,
                endpoint_rank_from(before, e, 0) == endpoint_rank_from(before, e, i as int),
            decreases items@.len() - i,
        {
            i += 1;
        }
        items.insert(i, e);
        self.items = items;
        true
    }

    /// Takes `e` out.
    pub fn remove(&mut self, e: Endpoint)
        ensures
            final(self)@ == endpoints_except(old(self)@, e, old(self)@.len() as int),
    {
        proof {
            use_type_invariant(&*self);
            endpoint_unset_drops(self@, e);
        }
        let mut kept: Vec<Endpoint> = Vec::new();
        let mut i: usize = 0;
        while i < self.items.len()
            invariant
                i <= self.items@.len(),
                *self == *old(self),
                kept@ == endpoints_except(self.items@, e, i as int),
            decreases self.items@.len() - i,
        {
            if self.items[i] != e {
                kept.push(self.items[i]);
            }
            i += 1;
        }
        self.items = kept;
    }

    /// Takes every stream of input node `id` out.
    pub fn remove_input(&mut self, id: NodeId)
        ensures
            final(self)@ == endpoints_off_input(old(self)@, id, old(self)@.len() as int),
    {
        proof {
            use_type_invariant(&*self);
            input_unset_drops(self@, id);
        }
        let mut kept: Vec<Endpoint> = Vec::new();
        let mut i: usize = 0;
        while i < self.items.len()
            invariant
                i <= self.items@.len(),
                *self == *old(self),
                kept@ == endpoints_off_input(self.items@, id, i as int),
            decreases self.items@.len() - i,
        {
            if !is_from_input(self.items[i], id) {
                kept.push(self.items[i]);
            }
            i += 1;
        }
        self.items = kept;
    }

    /// Takes everything out.
    pub fn clear(&mut self)
        ensures
            final(self)@ == Seq::<Endpoint>::empty(),
    {
        self.items = Vec::new();
    }

    /// Takes everything out, and gives it back as a set of its own.
    pub fn take(&mut self) -> (r: EndpointSet)
        ensures
            r@ == old(self)@,
            final(self)@ == Seq::<Endpoint>::empty(),
    {
        let mut r = EndpointSet::new();
        std::mem::swap(&mut r, self);
        r
    }

    /// Adds the streams `lo..hi` of `node`.
    pub fn insert_range(&mut self, node: NodeId, lo: usize, hi: usize)
        requires
            lo <= hi,
        ensures
            final(self)@ == endpoint_set_range(old(self)@, node, lo as int, hi as int),
    {
        let mut i: usize = lo;
        while i < hi
            invariant
                lo <= i <= hi,
                self@ == endpoint_set_range(old(self)@, node, lo as int, i as int),
            decreases hi - i,
        {
            self.insert(Endpoint::Stream { node, stream_idx: i });
            i += 1;
        }
    }
}

} // verus!
