//! The highlight layers and the refresh that recomputes them. A refresh is
//! planned first (which fragment ranges to query, what to do under the
//! cursor); the caller runs the queries and hands their answers to `apply`.
use crate::cursor::{
    enclosing_after, next_char_fits, selection_step, spec_selection_step, CursorShape, CursorStep,
    EnclosingPair, Selection,
};
use crate::fragments::{
    collect_pairs, collected_upto, found_view, found_wf, fragment_queries, fragments_wf,
    queries_upto, BracketPair, DepthPair, Fragment, FragmentQuery, Span,
};
use crate::geometry::{
    spec_visible_rows, visible_window, DocumentShape, Point, VisibleLines,
};
use crate::rainbow::{depth_occurs, distinct_depths, ranges_at_depth, ranges_of_depth, RainbowSettings};
use vstd::prelude::*;

verus! {

/// Why the highlights are refreshed.
#[derive(Clone, Copy, Debug, PartialEq, Eq, Structural)]
pub enum RefreshReason {
    BufferEdited,
    ScrollPositionChanged,
    SelectionsChanged,
}

/// The token ranges shown in the color of one depth.
#[derive(Debug)]
pub struct DepthGroup {
    pub depth: usize,
    pub ranges: Vec<Span>,
}

/// The rainbow layers, one per depth, and the enclosing-pair layer.
#[derive(Debug)]
pub struct HighlightLayers {
    pub rainbow: Vec<DepthGroup>,
    pub enclosing: Option<EnclosingPair>,
}

/// The map from depth to ranges of the first `n` groups.
pub open spec fn groups_map_upto(gs: Seq<DepthGroup>, n: nat) -> Map<usize, Seq<Span>>
    decreases n,
{
    if n == 0 || n > gs.len() {
        Map::empty()
    } else {
        groups_map_upto(gs, (n - 1) as nat).insert(gs[n - 1].depth, gs[n - 1].ranges@)
    }
}

pub open spec fn groups_map(gs: Seq<DepthGroup>) -> Map<usize, Seq<Span>> {
    groups_map_upto(gs, gs.len())
}

pub open spec fn depths_distinct(gs: Seq<DepthGroup>) -> bool {
    forall|i: int, j: int|
        0 <= i < gs.len() && 0 <= j < gs.len() && i != j ==> #[trigger] gs[i].depth
            != #[trigger] gs[j].depth
}

proof fn lemma_groups_map_update(gs: Seq<DepthGroup>, k: int, g: DepthGroup, n: nat)
    requires
        depths_distinct(gs),
        0 <= k < gs.len(),
        g.depth == gs[k].depth,
        n <= gs.len(),
    ensures
        groups_map_upto(gs.update(k, g), n) == if k < n {
            groups_map_upto(gs, n).insert(g.depth, g.ranges@)
        } else {
            groups_map_upto(gs, n)
        },
    decreases n,
{
    if n > 0 {
        lemma_groups_map_update(gs, k, g, (n - 1) as nat);
        let u = gs.update(k, g);
        if k < n - 1 {
            assert(gs[n - 1].depth != g.depth);
            assert(groups_map_upto(u, n) =~= groups_map_upto(gs, n).insert(g.depth, g.ranges@));
        } else if k == n - 1 {
            assert(groups_map_upto(u, n) =~= groups_map_upto(gs, n).insert(g.depth, g.ranges@));
        }
    }
}

proof fn lemma_groups_map_keys(gs: Seq<DepthGroup>, d: usize, n: nat)
    requires
        n <= gs.len(),
    ensures
        groups_map_upto(gs, n).contains_key(d) <==> exists|i: int|
            0 <= i < n && #[trigger] gs[i].depth == d,
    decreases n,
{
    if n > 0 {
        lemma_groups_map_keys(gs, d, (n - 1) as nat);
        if gs[n - 1].depth == d {
            assert(gs[n - 1].depth == d);
        }
    }
}

/// The rainbow layers after the pairs `ps` are submitted, one layer per depth
/// that occurs: each such depth shows its pairs' tokens, and every other
/// depth keeps what it had.
pub open spec fn refreshed_rainbow(m: Map<usize, Seq<Span>>, ps: Seq<DepthPair>) -> Map<
    usize,
    Seq<Span>,
> {
    Map::new(
        |d: usize| m.contains_key(d) || depth_occurs(ps, d),
        |d: usize|
            if depth_occurs(ps, d) {
                ranges_of_depth(ps, d)
            } else {
                m[d]
            },
    )
}

impl HighlightLayers {
    pub open spec fn wf(&self) -> bool {
        depths_distinct(self.rainbow@)
    }

    /// The ranges shown for each depth.
    pub open spec fn rainbow_map(&self) -> Map<usize, Seq<Span>> {
        groups_map(self.rainbow@)
    }

    /// No highlight at all.
    pub fn new() -> (r: HighlightLayers)
        ensures
            r.wf(),
            r.rainbow_map() == Map::<usize, Seq<Span>>::empty(),
            r.enclosing is None,
    {
        HighlightLayers { rainbow: Vec::new(), enclosing: None }
    }

    /// The ranges shown for a depth, if it has a layer.
    pub fn rainbow_layer(&self, depth: usize) -> (r: Option<&Vec<Span>>)
        requires
            self.wf(),
        ensures
            match r {
                Some(v) => self.rainbow_map().contains_key(depth) && v@ == self.rainbow_map()[depth],
                None => !self.rainbow_map().contains_key(depth),
            },
    {
        let mut k: usize = 0;
        while k < self.rainbow.len()
            invariant
                k <= self.rainbow@.len(),
                self.wf(),
                forall|j: int| 0 <= j < k ==> self.rainbow@[j].depth != depth,
            decreases self.rainbow@.len() - k,
        {
            if self.rainbow[k].depth == depth {
                proof {
                    let gs = self.rainbow@;
                    let g = DepthGroup { depth, ranges: gs[k as int].ranges };
                    assert(gs.update(k as int, g) == gs) by {
                        assert(gs.update(k as int, g) =~= gs);
                    }
                    lemma_groups_map_update(gs, k as int, g, gs.len());
                }
                return Some(&self.rainbow[k].ranges);
            }
            k = k + 1;
        }
        proof {
            lemma_groups_map_keys(self.rainbow@, depth, self.rainbow@.len());
        }
        None
    }

    /// Shows `ranges` for `depth`, replacing what that depth showed.
    pub fn submit_rainbow(&mut self, depth: usize, ranges: Vec<Span>)
        requires
            old(self).wf(),
        ensures
            final(self).wf(),
            final(self).rainbow_map() == old(self).rainbow_map().insert(depth, ranges@),
            final(self).enclosing == old(self).enclosing,
    {
        let mut k: usize = 0;
        while k < self.rainbow.len()
            invariant
                k <= self.rainbow@.len(),
                self.wf(),
                self.rainbow@ == old(self).rainbow@,
                self.enclosing == old(self).enclosing,
                forall|j: int| 0 <= j < k ==> self.rainbow@[j].depth != depth,
            decreases self.rainbow@.len() - k,
        {
            if self.rainbow[k].depth == depth {
                let ghost gs = self.rainbow@;
                let g = DepthGroup { depth, ranges };
                proof {
                    lemma_groups_map_update(gs, k as int, g, gs.len());
                }
                self.rainbow.set(k, g);
                assert(self.rainbow@ == gs.update(k as int, g));
                proof {
                    assert forall|i: int, j: int|
                        0 <= i < self.rainbow@.len() && 0 <= j < self.rainbow@.len() && i
                            != j implies #[trigger] self.rainbow@[i].depth
                        != #[trigger] self.rainbow@[j].depth by {
                        assert(gs[i].depth != gs[j].depth);
                    }
                }
                return;
            }
            k = k + 1;
        }
        let ghost gs = self.rainbow@;
        self.rainbow.push(DepthGroup { depth, ranges });
        proof {
            let ns = self.rainbow@;
            assert(ns.len() == gs.len() + 1);
            assert(ns.drop_last() == gs);
            lemma_prefix_map_agrees(gs, ns, gs.len());
            assert forall|i: int, j: int|
                0 <= i < ns.len() && 0 <= j < ns.len() && i != j implies #[trigger] ns[i].depth
                != #[trigger] ns[j].depth by {
                if i < gs.len() && j < gs.len() {
                    assert(gs[i].depth != gs[j].depth);
                }
            }
        }
    }

    /// Clears the enclosing-pair layer.
    pub fn clear_enclosing(&mut self)
        ensures
            final(self).rainbow@ == old(self).rainbow@,
            final(self).enclosing is None,
    {
        self.enclosing = None;
    }
}

proof fn lemma_prefix_map_agrees(a: Seq<DepthGroup>, b: Seq<DepthGroup>, n: nat)
    requires
        n <= a.len() <= b.len(),
        forall|i: int| 0 <= i < a.len() ==> a[i] == b[i],
    ensures
        groups_map_upto(a, n) == groups_map_upto(b, n),
    decreases n,
{
    if n > 0 {
        lemma_prefix_map_agrees(a, b, (n - 1) as nat);
    }
}

/// Submits, for every depth among the pairs, the opening and closing token
/// ranges of its pairs as that depth's layer.
pub fn emit_rainbow(layers: &mut HighlightLayers, ps: &Vec<DepthPair>)
    requires
        old(layers).wf(),
    ensures
        final(layers).wf(),
        final(layers).rainbow_map() == refreshed_rainbow(old(layers).rainbow_map(), ps@),
        final(layers).enclosing == old(layers).enclosing,
{
    let depths = distinct_depths(ps);
    let ghost m0 = layers.rainbow_map();
    let mut k: usize = 0;
    while k < depths.len()
        invariant
            k <= depths@.len(),
            layers.wf(),
            layers.enclosing == old(layers).enclosing,
            m0 == old(layers).rainbow_map(),
            layers.rainbow_map() == Map::new(
                |d: usize| m0.contains_key(d) || depths@.take(k as int).contains(d),
                |d: usize|
                    if depths@.take(k as int).contains(d) {
                        ranges_of_depth(ps@, d)
                    } else {
                        m0[d]
                    },
            ),
        decreases depths@.len() - k,
    {
        let d = depths[k];
        let ranges = ranges_at_depth(ps, d);
        let ghost before = layers.rainbow_map();
        layers.submit_rainbow(d, ranges);
        proof {
            let t0 = depths@.take(k as int);
            let t1 = depths@.take(k + 1);
            assert(t1 == t0.push(d));
            assert forall|e: usize| t1.contains(e) <==> (t0.contains(e) || e == d) by {
                if t1.contains(e) && e != d {
                    let i = choose|i: int| 0 <= i < t1.len() && t1[i] == e;
                    assert(t0[i] == e);
                }
                if t0.contains(e) {
                    let i = choose|i: int| 0 <= i < t0.len() && t0[i] == e;
                    assert(t1[i] == e);
                }
                assert(t1[k as int] == d);
            }
            assert(layers.rainbow_map() =~= Map::new(
                |e: usize| m0.contains_key(e) || t1.contains(e),
                |e: usize|
                    if t1.contains(e) {
                        ranges_of_depth(ps@, e)
                    } else {
                        m0[e]
                    },
            ));
        }
        k = k + 1;
    }
    proof {
        assert(depths@.take(depths@.len() as int) == depths@);
        assert(layers.rainbow_map() =~= refreshed_rainbow(m0, ps@));
    }
}

/// Submitting the same pairs a second time changes nothing.
pub proof fn lemma_rainbow_refresh_idempotent(m: Map<usize, Seq<Span>>, ps: Seq<DepthPair>)
    ensures
        refreshed_rainbow(refreshed_rainbow(m, ps), ps) == refreshed_rainbow(m, ps),
{
    assert(refreshed_rainbow(refreshed_rainbow(m, ps), ps) =~= refreshed_rainbow(m, ps));
}

/// What a refresh will do: the local ranges to query for bracket pairs,
/// one per fragment in view (none when depth coloring is off), and the
/// step for the enclosing-pair highlight.
#[derive(Debug)]
pub struct RefreshPlan {
    pub queries: Option<Vec<FragmentQuery>>,
    pub cursor: CursorStep,
}

/// The visible window in composite offsets.
pub open spec fn spec_window_span(doc: DocumentShape, anchor: Point, lines: Option<VisibleLines>) -> Span {
    Span {
        start: doc.spec_offset(anchor) as usize,
        end: doc.spec_offset(doc.spec_window_end(anchor, spec_visible_rows(lines))) as usize,
    }
}

/// The queries of a refresh: those of the visible window when depth
/// coloring is on, none when it is off.
pub open spec fn spec_planned_queries(
    settings: RainbowSettings,
    doc: DocumentShape,
    anchor: Point,
    lines: Option<VisibleLines>,
    fragments: Seq<Fragment>,
) -> Option<Seq<FragmentQuery>> {
    if settings.enabled {
        Some(queries_upto(fragments, spec_window_span(doc, anchor, lines), fragments.len()))
    } else {
        None
    }
}

/// The enclosing-pair step of a refresh: a scroll leaves the highlight as
/// it is; any other reason recomputes it from the selection.
pub open spec fn spec_cursor_step(
    reason: RefreshReason,
    sel: Selection,
    doc_len: int,
    shape: CursorShape,
    next: Option<char>,
) -> CursorStep {
    if reason == RefreshReason::ScrollPositionChanged {
        CursorStep::Keep
    } else {
        spec_selection_step(sel, doc_len, shape, next)
    }
}

pub open spec fn queries_view(q: Option<Vec<FragmentQuery>>) -> Option<Seq<FragmentQuery>> {
    match q {
        Some(v) => Some(v@),
        None => None,
    }
}

/// The rainbow layers after a refresh with the given queries and the pairs
/// found for each: unchanged when there were no queries.
pub open spec fn spec_rainbow_after(
    m: Map<usize, Seq<Span>>,
    fragments: Seq<Fragment>,
    queries: Option<Seq<FragmentQuery>>,
    found: Seq<Seq<BracketPair>>,
) -> Map<usize, Seq<Span>> {
    match queries {
        Some(qs) => refreshed_rainbow(m, collected_upto(fragments, qs, found, qs.len())),
        None => m,
    }
}

/// Plans a refresh. `anchor` is the scroll position, `lines` the visible
/// line count if known, `sel` the newest selection and `next` the
/// character that starts at its head, if any.
pub fn plan_refresh(
    reason: RefreshReason,
    settings: &RainbowSettings,
    doc: &DocumentShape,
    anchor: Point,
    lines: Option<VisibleLines>,
    fragments: &Vec<Fragment>,
    sel: Selection,
    shape: CursorShape,
    next: Option<char>,
) -> (p: RefreshPlan)
    requires
        doc.wf(),
        doc.is_valid(anchor),
        lines matches Some(l) ==> l.denom > 0,
        fragments_wf(fragments@),
        sel.head < doc.spec_len() ==> next_char_fits(sel.head as int, doc.spec_len(), next),
    ensures
        queries_view(p.queries) == spec_planned_queries(*settings, *doc, anchor, lines, fragments@),
        p.cursor == spec_cursor_step(reason, sel, doc.spec_len(), shape, next),
{
    let queries = if settings.enabled {
        let w = visible_window(doc, anchor, lines);
        proof {
            crate::geometry::lemma_window_within_document(doc, anchor, lines);
        }
        let span = Span { start: doc.point_to_offset(w.start), end: doc.point_to_offset(w.end) };
        Some(fragment_queries(fragments, span))
    } else {
        None
    };
    let cursor = if reason == RefreshReason::ScrollPositionChanged {
        CursorStep::Keep
    } else {
        selection_step(sel, doc.len(), shape, next)
    };
    RefreshPlan { queries, cursor }
}

/// Carries out a planned refresh: `found[i]` holds the pairs that bracket
/// discovery returned for the plan's `i`-th query, and `enclosing` the
/// innermost pair enclosing the range of a `Query` step.
pub fn apply_refresh(
    layers: &mut HighlightLayers,
    plan: &RefreshPlan,
    fragments: &Vec<Fragment>,
    found: &Vec<Vec<BracketPair>>,
    enclosing: Option<EnclosingPair>,
)
    requires
        old(layers).wf(),
        fragments_wf(fragments@),
        plan.queries matches Some(qs) ==> found@.len() == qs@.len(),
        found_wf(found@),
    ensures
        final(layers).wf(),
        final(layers).rainbow_map() == spec_rainbow_after(
            old(layers).rainbow_map(),
            fragments@,
            queries_view(plan.queries),
            found_view(found@),
        ),
        final(layers).enclosing == enclosing_after(plan.cursor, old(layers).enclosing, enclosing),
{
    match &plan.queries {
        Some(qs) => {
            let pairs = collect_pairs(fragments, qs, found);
            emit_rainbow(layers, &pairs);
        },
        None => {},
    }
    match plan.cursor {
        CursorStep::Keep => {},
        CursorStep::Clear => {
            layers.clear_enclosing();
        },
        CursorStep::Query(_) => {
            layers.clear_enclosing();
            layers.enclosing = enclosing;
        },
    }
}

/// A refresh that runs twice on the same document, settings and cursor
/// leaves the layers as the first run left them.
pub proof fn lemma_refresh_idempotent(
    m: Map<usize, Seq<Span>>,
    prev: Option<EnclosingPair>,
    fragments: Seq<Fragment>,
    queries: Option<Seq<FragmentQuery>>,
    found: Seq<Seq<BracketPair>>,
    step: CursorStep,
    enclosing: Option<EnclosingPair>,
)
    ensures
        spec_rainbow_after(spec_rainbow_after(m, fragments, queries, found), fragments, queries, found)
            == spec_rainbow_after(m, fragments, queries, found),
        enclosing_after(step, enclosing_after(step, prev, enclosing), enclosing) == enclosing_after(
            step,
            prev,
            enclosing,
        ),
{
    if let Some(qs) = queries {
        lemma_rainbow_refresh_idempotent(m, collected_upto(fragments, qs, found, qs.len()));
    }
}

/// A refresh for a scroll leaves the enclosing-pair highlight as it was.
pub proof fn lemma_scroll_keeps_enclosing(
    sel: Selection,
    doc_len: int,
    shape: CursorShape,
    next: Option<char>,
    prev: Option<EnclosingPair>,
    found: Option<EnclosingPair>,
)
    ensures
        enclosing_after(
            spec_cursor_step(RefreshReason::ScrollPositionChanged, sel, doc_len, shape, next),
            prev,
            found,
        ) == prev,
{
}

/// With depth coloring off, a refresh submits no rainbow layer: there is
/// nothing to query and the layers stay as they were.
pub proof fn lemma_disabled_leaves_rainbow(
    settings: RainbowSettings,
    doc: DocumentShape,
    anchor: Point,
    lines: Option<VisibleLines>,
    fragments: Seq<Fragment>,
    m: Map<usize, Seq<Span>>,
    found: Seq<Seq<BracketPair>>,
)
    requires
        !settings.enabled,
    ensures
        spec_planned_queries(settings, doc, anchor, lines, fragments) is None,
        spec_rainbow_after(
            m,
            fragments,
            spec_planned_queries(settings, doc, anchor, lines, fragments),
            found,
        ) == m,
{
}

} // verus!
