//! Fragments of source buffers laid out in the composite document: the
//! local ranges to query in each, and the remapping of the bracket pairs found
//! there into composite offsets.
use vstd::prelude::*;

verus! {

/// A half-open range of offsets, `start..end`.
#[derive(Clone, Copy, Debug, PartialEq, Eq, Structural)]
pub struct Span {
    pub start: usize,
    pub end: usize,
}

/// A slice `local_start..local_end` of a source buffer, shown in the
/// composite document from offset `composite_start` on.
#[derive(Clone, Copy, Debug, PartialEq, Eq, Structural)]
pub struct Fragment {
    pub composite_start: usize,
    pub local_start: usize,
    pub local_end: usize,
}

/// A matched opening and closing token in local offsets, with the nesting
/// depth that the fragment's own discovery gave it.
#[derive(Clone, Copy, Debug, PartialEq, Eq, Structural)]
pub struct BracketPair {
    pub open: Span,
    pub close: Span,
    pub depth: usize,
}

/// A bracket pair in composite offsets.
#[derive(Clone, Copy, Debug, PartialEq, Eq, Structural)]
pub struct DepthPair {
    pub depth: usize,
    pub open: Span,
    pub close: Span,
}

/// The local range of one fragment to hand to bracket discovery.
#[derive(Clone, Copy, Debug, PartialEq, Eq, Structural)]
pub struct FragmentQuery {
    pub fragment: usize,
    pub local: Span,
}

impl BracketPair {
    /// The opening token comes before the closing one, each a range.
    pub open spec fn wf(&self) -> bool {
        self.open.start <= self.open.end <= self.close.start <= self.close.end
    }
}

impl Fragment {
    pub open spec fn wf(&self) -> bool {
        &&& self.local_start <= self.local_end
        &&& self.composite_start + (self.local_end - self.local_start) <= usize::MAX
    }

    pub open spec fn composite_end(&self) -> int {
        self.composite_start + (self.local_end - self.local_start)
    }

    pub open spec fn spec_contains_local(&self, r: Span) -> bool {
        self.local_start <= r.start && r.end <= self.local_end
    }

    pub open spec fn spec_to_composite(&self, x: int) -> int {
        x - self.local_start + self.composite_start
    }

    pub open spec fn spec_to_local(&self, x: int) -> int {
        x - self.composite_start + self.local_start
    }

    /// The composite range that the fragment shares with `w`, ends included.
    pub open spec fn spec_intersects(&self, w: Span) -> bool {
        &&& self.composite_start <= w.end
        &&& w.start <= self.composite_end()
    }

    pub open spec fn spec_intersection(&self, w: Span) -> Span {
        Span {
            start: if w.start > self.composite_start { w.start } else { self.composite_start },
            end: if w.end < self.composite_end() { w.end } else { self.composite_end() as usize },
        }
    }

    /// Whether the local range lies wholly inside the fragment.
    pub fn contains_local_range(&self, r: Span) -> (b: bool)
        ensures
            b == self.spec_contains_local(r),
    {
        self.local_start <= r.start && r.end <= self.local_end
    }

    /// A local range inside the fragment in composite offsets.
    pub fn to_composite(&self, r: Span) -> (c: Span)
        requires
            self.wf(),
            self.local_start <= r.start <= self.local_end,
            self.local_start <= r.end <= self.local_end,
        ensures
            c.start == self.spec_to_composite(r.start as int),
            c.end == self.spec_to_composite(r.end as int),
    {
        Span {
            start: r.start - self.local_start + self.composite_start,
            end: r.end - self.local_start + self.composite_start,
        }
    }

    /// A composite range inside the fragment in local offsets.
    pub fn to_local(&self, r: Span) -> (l: Span)
        requires
            self.wf(),
            self.composite_start <= r.start <= self.composite_end(),
            self.composite_start <= r.end <= self.composite_end(),
        ensures
            l.start == self.spec_to_local(r.start as int),
            l.end == self.spec_to_local(r.end as int),
    {
        Span {
            start: r.start - self.composite_start + self.local_start,
            end: r.end - self.composite_start + self.local_start,
        }
    }
}

/// Fragments are well formed, in display order and do not overlap.
pub open spec fn fragments_wf(fs: Seq<Fragment>) -> bool {
    &&& forall|i: int| 0 <= i < fs.len() ==> #[trigger] fs[i].wf()
    &&& forall|i: int|
        0 <= i < fs.len() - 1 ==> #[trigger] fs[i].composite_end() <= fs[i + 1].composite_start
}

/// The query for fragment `i` against window `w`.
pub open spec fn query_of(fs: Seq<Fragment>, i: int, w: Span) -> FragmentQuery {
    let x = fs[i].spec_intersection(w);
    FragmentQuery {
        fragment: i as usize,
        local: Span {
            start: fs[i].spec_to_local(x.start as int) as usize,
            end: fs[i].spec_to_local(x.end as int) as usize,
        },
    }
}

/// The queries for the first `n` fragments: one for each that meets the window.
pub open spec fn queries_upto(fs: Seq<Fragment>, w: Span, n: nat) -> Seq<FragmentQuery>
    decreases n,
{
    if n == 0 || n > fs.len() {
        Seq::empty()
    } else {
        let prev = queries_upto(fs, w, (n - 1) as nat);
        if fs[n - 1].spec_intersects(w) {
            prev.push(query_of(fs, n - 1, w))
        } else {
            prev
        }
    }
}

/// For every fragment that meets the window `w`, the local range to query:
/// the part of the window that the fragment covers, in local offsets.
pub fn fragment_queries(fragments: &Vec<Fragment>, w: Span) -> (r: Vec<FragmentQuery>)
    requires
        fragments_wf(fragments@),
        w.start <= w.end,
    ensures
        r@ == queries_upto(fragments@, w, fragments@.len()),
{
    let mut r: Vec<FragmentQuery> = Vec::new();
    let mut i: usize = 0;
    while i < fragments.len()
        invariant
            fragments_wf(fragments@),
            w.start <= w.end,
            i <= fragments@.len(),
            r@ == queries_upto(fragments@, w, i as nat),
        decreases fragments@.len() - i,
    {
        let f = fragments[i];
        assert(f.wf());
        let f_end: usize = f.composite_start + (f.local_end - f.local_start);
        if f.composite_start <= w.end && w.start <= f_end {
            let start = if w.start > f.composite_start { w.start } else { f.composite_start };
            let end = if w.end < f_end { w.end } else { f_end };
            let local = f.to_local(Span { start, end });
            r.push(FragmentQuery { fragment: i, local });
        }
        i = i + 1;
    }
    r
}

/// Whether a discovered pair lies wholly inside its fragment.
pub open spec fn pair_kept(f: Fragment, p: BracketPair) -> bool {
    f.spec_contains_local(Span { start: p.open.start, end: p.close.end })
}

/// A kept pair in composite offsets.
pub open spec fn pair_mapped(f: Fragment, p: BracketPair) -> DepthPair {
    DepthPair {
        depth: p.depth,
        open: Span {
            start: f.spec_to_composite(p.open.start as int) as usize,
            end: f.spec_to_composite(p.open.end as int) as usize,
        },
        close: Span {
            start: f.spec_to_composite(p.close.start as int) as usize,
            end: f.spec_to_composite(p.close.end as int) as usize,
        },
    }
}

/// The first `n` discovered pairs that lie inside `f`, in composite offsets.
pub open spec fn remapped_upto(f: Fragment, ps: Seq<BracketPair>, n: nat) -> Seq<DepthPair>
    decreases n,
{
    if n == 0 || n > ps.len() {
        Seq::empty()
    } else {
        let prev = remapped_upto(f, ps, (n - 1) as nat);
        if pair_kept(f, ps[n - 1]) {
            prev.push(pair_mapped(f, ps[n - 1]))
        } else {
            prev
        }
    }
}

pub open spec fn pairs_wf(ps: Seq<BracketPair>) -> bool {
    forall|i: int| 0 <= i < ps.len() ==> #[trigger] ps[i].wf()
}

/// Keeps the pairs discovered in fragment `f` whose span, from the start of
/// the opening token to the end of the closing one, lies inside the
/// fragment, and maps them to composite offsets.
pub fn remap_pairs(f: Fragment, pairs: &Vec<BracketPair>) -> (r: Vec<DepthPair>)
    requires
        f.wf(),
        pairs_wf(pairs@),
    ensures
        r@ == remapped_upto(f, pairs@, pairs@.len()),
{
    let mut r: Vec<DepthPair> = Vec::new();
    let mut i: usize = 0;
    while i < pairs.len()
        invariant
            f.wf(),
            pairs_wf(pairs@),
            i <= pairs@.len(),
            r@ == remapped_upto(f, pairs@, i as nat),
        decreases pairs@.len() - i,
    {
        let p = pairs[i];
        assert(p.wf());
        if f.contains_local_range(Span { start: p.open.start, end: p.close.end }) {
            let open = f.to_composite(p.open);
            let close = f.to_composite(p.close);
            r.push(DepthPair { depth: p.depth, open, close });
        }
        i = i + 1;
    }
    r
}

/// The pairs of the first `n` queries: those of each query whose fragment
/// exists, kept and remapped; those of a query with no fragment dropped.
pub open spec fn collected_upto(
    fs: Seq<Fragment>,
    qs: Seq<FragmentQuery>,
    found: Seq<Seq<BracketPair>>,
    n: nat,
) -> Seq<DepthPair>
    decreases n,
{
    if n == 0 || n > qs.len() {
        Seq::empty()
    } else {
        let prev = collected_upto(fs, qs, found, (n - 1) as nat);
        let q = qs[n - 1];
        if q.fragment < fs.len() {
            prev + remapped_upto(fs[q.fragment as int], found[n - 1], found[n - 1].len())
        } else {
            prev
        }
    }
}

pub open spec fn found_wf(found: Seq<Vec<BracketPair>>) -> bool {
    forall|i: int| 0 <= i < found.len() ==> #[trigger] pairs_wf(found[i]@)
}

pub open spec fn found_view(found: Seq<Vec<BracketPair>>) -> Seq<Seq<BracketPair>> {
    found.map_values(|v: Vec<BracketPair>| v@)
}

/// The visible bracket pairs in composite offsets, from what discovery
/// returned for each query (`found[i]` for `queries[i]`).
pub fn collect_pairs(
    fragments: &Vec<Fragment>,
    queries: &Vec<FragmentQuery>,
    found: &Vec<Vec<BracketPair>>,
) -> (r: Vec<DepthPair>)
    requires
        fragments_wf(fragments@),
        found@.len() == queries@.len(),
        found_wf(found@),
    ensures
        r@ == collected_upto(fragments@, queries@, found_view(found@), queries@.len()),
{
    let mut r: Vec<DepthPair> = Vec::new();
    let mut i: usize = 0;
    while i < queries.len()
        invariant
            fragments_wf(fragments@),
            found@.len() == queries@.len(),
            found_wf(found@),
            i <= queries@.len(),
            r@ == collected_upto(fragments@, queries@, found_view(found@), i as nat),
        decreases queries@.len() - i,
    {
        let q = queries[i];
        if q.fragment < fragments.len() {
            let f = fragments[q.fragment];
            assert(f.wf());
            assert(pairs_wf(found@[i as int]@));
            let mut part = remap_pairs(f, &found[i]);
            r.append(&mut part);
        }
        i = i + 1;
    }
    r
}

/// Whether `d` is the composite form of one of the first `n` pairs of `ps`
/// that lie inside `f`.
pub open spec fn from_kept_pair(f: Fragment, ps: Seq<BracketPair>, n: nat, d: DepthPair) -> bool {
    exists|i: int| 0 <= i < n && pair_kept(f, ps[i]) && d == #[trigger] pair_mapped(f, ps[i])
}

/// No pair whose span crosses its fragment's bounds is kept: every pair
/// that remapping returns comes from a discovered pair inside the fragment.
pub proof fn lemma_straddling_pairs_dropped(f: Fragment, ps: Seq<BracketPair>, n: nat)
    requires
        n <= ps.len(),
    ensures
        forall|j: int|
            0 <= j < remapped_upto(f, ps, n).len() ==> from_kept_pair(
                f,
                ps,
                n,
                #[trigger] remapped_upto(f, ps, n)[j],
            ),
    decreases n,
{
    if n > 0 {
        lemma_straddling_pairs_dropped(f, ps, (n - 1) as nat);
        let prev = remapped_upto(f, ps, (n - 1) as nat);
        let cur = remapped_upto(f, ps, n);
        assert forall|j: int| 0 <= j < cur.len() implies from_kept_pair(
            f,
            ps,
            n,
            #[trigger] cur[j],
        ) by {
            if j < prev.len() {
                assert(cur[j] == prev[j]);
                assert(from_kept_pair(f, ps, (n - 1) as nat, prev[j]));
                let i = choose|i: int|
                    0 <= i < n - 1 && pair_kept(f, ps[i]) && prev[j] == #[trigger] pair_mapped(
                        f,
                        ps[i],
                    );
                assert(pair_mapped(f, ps[i]) == cur[j]);
            } else {
                assert(cur[j] == pair_mapped(f, ps[n - 1]));
            }
        }
    }
}

/// Whether `d` is the composite form of a pair found for one of the first
/// `n` queries that lies inside that query's fragment.
pub open spec fn from_found_pair(
    fs: Seq<Fragment>,
    qs: Seq<FragmentQuery>,
    found: Seq<Seq<BracketPair>>,
    n: nat,
    d: DepthPair,
) -> bool {
    exists|i: int, j: int|
        0 <= i < n && qs[i].fragment < fs.len() && 0 <= j < found[i].len() && pair_kept(
            fs[qs[i].fragment as int],
            found[i][j],
        ) && d == #[trigger] pair_mapped(fs[qs[i].fragment as int], found[i][j])
}

/// Every pair collected over all queries lies, with both its tokens, inside
/// the fragment it was found in: no pair crossing a fragment's bounds is
/// ever shown.
pub proof fn lemma_collected_pairs_inside_fragments(
    fs: Seq<Fragment>,
    qs: Seq<FragmentQuery>,
    found: Seq<Seq<BracketPair>>,
    n: nat,
)
    requires
        n <= qs.len(),
        found.len() == qs.len(),
    ensures
        forall|k: int|
            0 <= k < collected_upto(fs, qs, found, n).len() ==> from_found_pair(
                fs,
                qs,
                found,
                n,
                #[trigger] collected_upto(fs, qs, found, n)[k],
            ),
    decreases n,
{
    if n > 0 {
        lemma_collected_pairs_inside_fragments(fs, qs, found, (n - 1) as nat);
        let prev = collected_upto(fs, qs, found, (n - 1) as nat);
        let cur = collected_upto(fs, qs, found, n);
        let i = n - 1;
        assert forall|k: int| 0 <= k < cur.len() implies from_found_pair(
            fs,
            qs,
            found,
            n,
            #[trigger] cur[k],
        ) by {
            if k < prev.len() {
                assert(cur[k] == prev[k]);
                assert(from_found_pair(fs, qs, found, (n - 1) as nat, prev[k]));
                let (a, b) = choose|a: int, b: int|
                    0 <= a < n - 1 && qs[a].fragment < fs.len() && 0 <= b < found[a].len()
                        && pair_kept(fs[qs[a].fragment as int], found[a][b]) && prev[k]
                        == #[trigger] pair_mapped(fs[qs[a].fragment as int], found[a][b]);
                assert(pair_mapped(fs[qs[a].fragment as int], found[a][b]) == cur[k]);
            } else {
                let f = fs[qs[i].fragment as int];
                let ps = found[i];
                let part = remapped_upto(f, ps, ps.len());
                assert(qs[i].fragment < fs.len());
                assert(cur == prev + part);
                assert(cur[k] == part[k - prev.len()]);
                lemma_straddling_pairs_dropped(f, ps, ps.len());
                assert(from_kept_pair(f, ps, ps.len(), part[k - prev.len()]));
                let j = choose|j: int|
                    0 <= j < ps.len() && pair_kept(f, ps[j]) && part[k - prev.len()]
                        == #[trigger] pair_mapped(f, ps[j]);
                assert(pair_mapped(fs[qs[i].fragment as int], found[i][j]) == cur[k]);
            }
        }
    }
}

} // verus!
