//! Nearest palette colour to a point of the perceptual space.
//!
//! Distances are squared Euclidean distances on the fixed-point coordinates;
//! among equally near colours the one that was given first wins, so a query
//! has one answer.
//!
//! A small palette is searched from end to end. A larger one is searched
//! along its colours in the order of their lightness, from the query's
//! lightness outwards, and only as far as the difference in lightness alone
//! does not exceed the best distance found: no colour beyond can be nearer.

use crate::error::PatternError;
use crate::models::{DmcColorPrecomputed, LabPoint};
use rayon::iter::{IntoParallelRefIterator, ParallelIterator};
use vstd::prelude::*;

verus! {

/// The squared Euclidean distance between two points.
pub open spec fn squared_distance(p: LabPoint, q: LabPoint) -> int {
    (p.l - q.l) * (p.l - q.l) + (p.a - q.a) * (p.a - q.a) + (p.b - q.b) * (p.b - q.b)
}

/// Whether `points[i]` is nearest to `q`: no point is nearer, and every
/// earlier point is farther.
pub open spec fn is_nearest(points: Seq<LabPoint>, q: LabPoint, i: int) -> bool {
    &&& 0 <= i < points.len()
    &&& forall|j: int|
        0 <= j < points.len() ==> squared_distance(points[i], q) <= squared_distance(
            #[trigger] points[j],
            q,
        )
    &&& forall|j: int|
        0 <= j < i ==> squared_distance(points[i], q) < squared_distance(#[trigger] points[j], q)
}

/// The index of the point nearest to `q`, the first of them on a tie
/// (0 where there is no point).
pub open spec fn nearest_in(points: Seq<LabPoint>, q: LabPoint) -> int
    decreases points.len(),
{
    if points.len() <= 1 {
        0
    } else {
        let best = nearest_in(points.drop_last(), q);
        if squared_distance(points.last(), q) < squared_distance(points[best], q) {
            points.len() - 1
        } else {
            best
        }
    }
}

/// `nearest_in` names the nearest point.
pub proof fn lemma_nearest_in_is_nearest(points: Seq<LabPoint>, q: LabPoint)
    requires
        points.len() > 0,
    ensures
        is_nearest(points, q, nearest_in(points, q)),
    decreases points.len(),
{
    if points.len() > 1 {
        let front = points.drop_last();
        lemma_nearest_in_is_nearest(front, q);
        let best = nearest_in(front, q);
        assert forall|j: int| 0 <= j < front.len() implies front[j] == points[j] by {}
        let i = nearest_in(points, q);
        assert forall|j: int| 0 <= j < points.len() implies squared_distance(points[i], q)
            <= squared_distance(#[trigger] points[j], q) by {
            if j < front.len() {
                assert(squared_distance(front[best], q) <= squared_distance(front[j], q));
            }
        }
        assert forall|j: int| 0 <= j < i implies squared_distance(points[i], q)
            < squared_distance(#[trigger] points[j], q) by {
            if i == best {
                assert(squared_distance(front[best], q) < squared_distance(front[j], q));
            } else {
                assert(squared_distance(front[best], q) <= squared_distance(front[j], q));
            }
        }
    }
}

/// A query has one answer: two indices that are both nearest are the same.
pub proof fn lemma_nearest_is_unique(points: Seq<LabPoint>, q: LabPoint, i: int, k: int)
    requires
        is_nearest(points, q, i),
        is_nearest(points, q, k),
    ensures
        i == k,
{
    if i < k {
        assert(squared_distance(points[k], q) < squared_distance(points[i], q));
        assert(squared_distance(points[k], q) <= squared_distance(points[i], q));
    } else if k < i {
        assert(squared_distance(points[i], q) < squared_distance(points[k], q));
    }
}

/// Whether no identifier occurs twice among the colours.
pub open spec fn distinct_ids(colors: Seq<DmcColorPrecomputed>) -> bool {
    forall|i: int, j: int|
        0 <= i < j < colors.len() ==> (#[trigger] colors[i]).floss@ != (#[trigger] colors[j]).floss@
}

/// The places of the colours in the perceptual space, in palette order.
pub open spec fn points_of(colors: Seq<DmcColorPrecomputed>) -> Seq<LabPoint> {
    Seq::new(colors.len(), |i: int| colors[i].lab())
}

/// The palette index of each sample: the nearest colour's.
pub open spec fn classified(points: Seq<LabPoint>, samples: Seq<LabPoint>) -> Seq<usize> {
    Seq::new(samples.len(), |k: int| nearest_in(points, samples[k]) as usize)
}

/// The largest palette that is searched from end to end.
pub const LINEAR_SCAN_LIMIT: usize = 16;

/// Whether colour `candidate` is a better answer to `q` than colour `best`:
/// it is nearer, or as near and earlier in the palette.
pub open spec fn beats(points: Seq<LabPoint>, q: LabPoint, candidate: int, best: int) -> bool {
    let d = squared_distance(points[candidate], q);
    let b = squared_distance(points[best], q);
    d < b || (d == b && candidate < best)
}

/// The square of the difference of two lightness values.
pub open spec fn gap_squared(l: int, query_l: int) -> int {
    (l - query_l) * (l - query_l)
}

/// Whether `order` lists every palette index, by rising lightness.
pub open spec fn is_lightness_order(order: Seq<usize>, colors: Seq<DmcColorPrecomputed>) -> bool {
    &&& order.len() == colors.len()
    &&& forall|k: int| 0 <= k < order.len() ==> (#[trigger] order[k]) < colors.len()
    &&& forall|a: int, b: int|
        0 <= a < b < order.len() ==> colors[(#[trigger] order[a]) as int].lab_l <= colors[(
        #[trigger] order[b]) as int].lab_l
    &&& forall|i: usize| i < colors.len() ==> #[trigger] order.contains(i)
}

/// A colour that no colour beats is the nearest.
pub proof fn lemma_unbeaten_is_nearest(points: Seq<LabPoint>, q: LabPoint, best: int)
    requires
        0 <= best < points.len(),
        forall|j: int| 0 <= j < points.len() ==> !beats(points, q, j, best),
    ensures
        is_nearest(points, q, best),
{
    assert forall|j: int| 0 <= j < points.len() implies squared_distance(points[best], q)
        <= squared_distance(#[trigger] points[j], q) by {
        assert(!beats(points, q, j, best));
    }
    assert forall|j: int| 0 <= j < best implies squared_distance(points[best], q)
        < squared_distance(#[trigger] points[j], q) by {
        assert(!beats(points, q, j, best));
    }
}

/// A colour is at least as far from the query as its lightness is.
pub proof fn lemma_distance_at_least_gap(p: LabPoint, q: LabPoint)
    ensures
        squared_distance(p, q) >= gap_squared(p.l as int, q.l as int),
{
    let da = p.a - q.a;
    let db = p.b - q.b;
    assert(da * da >= 0 && db * db >= 0) by (nonlinear_arith);
}

/// Of two differences on the same side the larger has the larger square.
proof fn lemma_gap_grows(near: int, far: int)
    requires
        0 <= near <= far,
    ensures
        near * near <= far * far,
{
    assert(near * near <= far * far) by (nonlinear_arith)
        requires
            0 <= near <= far,
    ;
}

/// A palette of at least one colour, ready to be searched.
#[derive(Debug)]
pub struct PaletteIndex {
    colors: Vec<DmcColorPrecomputed>,
    /// The palette indices by rising lightness.
    by_lightness: Vec<usize>,
}

impl PaletteIndex {
    /// The colours, in the order in which they were given.
    pub closed spec fn colors(&self) -> Seq<DmcColorPrecomputed> {
        self.colors@
    }

    /// The colours' places in the perceptual space.
    pub open spec fn points(&self) -> Seq<LabPoint> {
        points_of(self.colors())
    }

    /// Whether the index lists every colour by rising lightness.
    pub closed spec fn is_indexed(&self) -> bool {
        is_lightness_order(self.by_lightness@, self.colors@)
    }

    /// A palette holds at least one colour, all of them indexed.
    pub open spec fn wf(&self) -> bool {
        &&& self.colors().len() > 0
        &&& self.is_indexed()
    }

    /// Whether no identifier occurs twice in the palette.
    pub open spec fn has_distinct_ids(&self) -> bool {
        distinct_ids(self.colors())
    }

    /// Builds the index over `colors`; fails with `EmptyPalette` exactly
    /// where there is no colour.
    pub fn new(colors: Vec<DmcColorPrecomputed>) -> (result: Result<PaletteIndex, PatternError>)
        ensures
            colors@.len() == 0 <==> result == Err::<PaletteIndex, PatternError>(
                PatternError::EmptyPalette,
            ),
            colors@.len() > 0 <==> result is Ok,
            result matches Ok(index) ==> index.wf() && index.colors() == colors@,
    {
        if colors.len() == 0 {
            Err(PatternError::EmptyPalette)
        } else {
            let by_lightness = lightness_order(&colors);
            Ok(PaletteIndex { colors, by_lightness })
        }
    }

    /// The number of colours.
    pub fn len(&self) -> (n: usize)
        ensures
            n == self.colors().len(),
    {
        self.colors.len()
    }

    /// Whether no identifier occurs twice in the palette.
    pub fn check_distinct_ids(&self) -> (distinct: bool)
        ensures
            distinct == self.has_distinct_ids(),
    {
        let n = self.colors.len();
        let mut j: usize = 0;
        while j < n
            invariant
                j <= n,
                n == self.colors@.len(),
                forall|a: int, b: int|
                    0 <= a < b < j ==> (#[trigger] self.colors@[a]).floss@ != (
                    #[trigger] self.colors@[b]).floss@,
            decreases n - j,
        {
            let mut i: usize = 0;
            while i < j
                invariant
                    i <= j < n,
                    n == self.colors@.len(),
                    forall|a: int|
                        0 <= a < i ==> (#[trigger] self.colors@[a]).floss@ != self.colors@[j as int].floss@,
                decreases j - i,
            {
                if self.colors[i].floss == self.colors[j].floss {
                    return false;
                }
                i = i + 1;
            }
            j = j + 1;
        }
        true
    }

    /// The colour at palette index `i`.
    pub fn color(&self, i: usize) -> (c: &DmcColorPrecomputed)
        requires
            i < self.colors().len(),
        ensures
            *c == self.colors()[i as int],
    {
        &self.colors[i]
    }

    /// The palette index of the colour nearest to `q`, the first of them on
    /// a tie.
    pub fn nearest(&self, q: &LabPoint) -> (best: usize)
        requires
            self.wf(),
        ensures
            is_nearest(self.points(), *q, best as int),
            best == nearest_in(self.points(), *q),
    {
        let best = if self.colors.len() <= LINEAR_SCAN_LIMIT {
            self.scan(q)
        } else {
            self.search(q)
        };
        proof {
            lemma_nearest_in_is_nearest(self.points(), *q);
            lemma_nearest_is_unique(
                self.points(),
                *q,
                best as int,
                nearest_in(self.points(), *q),
            );
        }
        best
    }

    /// The nearest colour, found by looking at every colour in turn.
    fn scan(&self, q: &LabPoint) -> (best: usize)
        requires
            self.wf(),
        ensures
            is_nearest(self.points(), *q, best as int),
    {
        let ghost points = self.points();
        let mut best: usize = 0;
        let mut best_distance: i128 = distance_between(&self.colors[0], q);
        let mut k: usize = 1;
        while k < self.colors.len()
            invariant
                points == self.points(),
                1 <= k <= self.colors@.len(),
                best < k,
                best_distance == squared_distance(points[best as int], *q),
                is_nearest(points.take(k as int), *q, best as int),
            decreases self.colors@.len() - k,
        {
            let d = distance_between(&self.colors[k], q);
            let ghost seen = points.take(k as int);
            let ghost next = points.take(k + 1);
            proof {
                assert forall|j: int| 0 <= j < k implies next[j] == seen[j] by {}
            }
            if d < best_distance {
                proof {
                    assert forall|j: int| 0 <= j < next.len() implies d <= squared_distance(
                        #[trigger] next[j],
                        *q,
                    ) by {
                        if j < k {
                            assert(best_distance <= squared_distance(seen[j], *q));
                        }
                    }
                    assert forall|j: int| 0 <= j < k implies d < squared_distance(
                        #[trigger] next[j],
                        *q,
                    ) by {
                        assert(best_distance <= squared_distance(seen[j], *q));
                    }
                }
                best = k;
                best_distance = d;
            } else {
                proof {
                    assert forall|j: int| 0 <= j < next.len() implies best_distance
                        <= squared_distance(#[trigger] next[j], *q) by {
                        if j < k {
                            assert(best_distance <= squared_distance(seen[j], *q));
                        }
                    }
                    assert forall|j: int| 0 <= j < best implies best_distance < squared_distance(
                        #[trigger] next[j],
                        *q,
                    ) by {
                        assert(best_distance < squared_distance(seen[j], *q));
                    }
                }
            }
            k = k + 1;
        }
        proof {
            assert(points.take(k as int) == points);
        }
        best
    }

    /// The squared difference in lightness between the query and the colour
    /// at place `p` of the lightness order.
    fn gap_at(&self, p: usize, q: &LabPoint) -> (gap: i128)
        requires
            self.wf(),
            p < self.colors().len(),
        ensures
            gap == gap_squared(self.colors@[self.by_lightness@[p as int] as int].lab_l as int, q.l as int),
            gap >= 0,
    {
        let d: i128 = self.colors[self.by_lightness[p]].lab_l as i128 - q.l as i128;
        assert(0 <= d * d <= 0x1_0000_0000 * 0x1_0000_0000) by (nonlinear_arith)
            requires
                -0x1_0000_0000 <= d <= 0x1_0000_0000,
        ;
        d * d
    }

    /// The first place of the lightness order whose colour is at least as
    /// light as the query, or the number of colours where none is.
    fn first_not_darker(&self, q: &LabPoint) -> (pos: usize)
        requires
            self.wf(),
        ensures
            pos <= self.colors().len(),
            forall|p: int|
                0 <= p < pos ==> self.colors@[(#[trigger] self.by_lightness@[p]) as int].lab_l < q.l,
            forall|p: int|
                pos <= p < self.colors().len() ==> self.colors@[(
                #[trigger] self.by_lightness@[p]) as int].lab_l >= q.l,
    {
        let mut lo: usize = 0;
        let mut hi: usize = self.by_lightness.len();
        while lo < hi
            invariant
                self.wf(),
                lo <= hi <= self.colors@.len(),
                forall|p: int|
                    0 <= p < lo ==> self.colors@[(#[trigger] self.by_lightness@[p]) as int].lab_l
                        < q.l,
                forall|p: int|
                    hi <= p < self.colors@.len() ==> self.colors@[(
                    #[trigger] self.by_lightness@[p]) as int].lab_l >= q.l,
            decreases hi - lo,
        {
            let mid = lo + (hi - lo) / 2;
            if self.colors[self.by_lightness[mid]].lab_l < q.l {
                lo = mid + 1;
            } else {
                hi = mid;
            }
        }
        lo
    }

    /// The better of `best` and the colour at place `p` of the lightness
    /// order.
    fn better_of(&self, best: usize, p: usize, q: &LabPoint) -> (better: usize)
        requires
            self.wf(),
            best < self.colors().len(),
            p < self.colors().len(),
        ensures
            better == best || better == self.by_lightness@[p as int],
            better < self.colors().len(),
            !beats(self.points(), *q, best as int, better as int),
            !beats(self.points(), *q, self.by_lightness@[p as int] as int, better as int),
            forall|j: int|
                0 <= j < self.colors().len() && !beats(self.points(), *q, j, best as int)
                    ==> !#[trigger] beats(self.points(), *q, j, better as int),
    {
        let candidate = self.by_lightness[p];
        let d = distance_between(&self.colors[candidate], q);
        let b = distance_between(&self.colors[best], q);
        if d < b || (d == b && candidate < best) {
            candidate
        } else {
            best
        }
    }

    /// The nearest colour, found along the lightness order from the query's
    /// lightness outwards.
    fn search(&self, q: &LabPoint) -> (best: usize)
        requires
            self.wf(),
        ensures
            is_nearest(self.points(), *q, best as int),
    {
        let n = self.by_lightness.len();
        let ghost points = self.points();
        let ghost order = self.by_lightness@;
        let pos = self.first_not_darker(q);
        let start = if pos < n {
            pos
        } else {
            pos - 1
        };
        let mut best: usize = self.by_lightness[start];
        let mut up: usize = pos;
        while up < n && self.gap_at(up, q) <= distance_between(&self.colors[best], q)
            invariant
                self.wf(),
                n == self.colors@.len(),
                points == self.points(),
                order == self.by_lightness@,
                pos <= up <= n,
                best < n,
                forall|p: int|
                    pos <= p < up ==> !beats(points, *q, (#[trigger] order[p]) as int, best as int),
            decreases n - up,
        {
            let next = self.better_of(best, up, q);
            proof {
                assert forall|p: int| pos <= p < up + 1 implies !beats(
                    points,
                    *q,
                    (#[trigger] order[p]) as int,
                    next as int,
                ) by {
                    if p < up {
                        assert(!beats(points, *q, order[p] as int, best as int));
                    }
                }
            }
            best = next;
            up = up + 1;
        }
        let ghost bound_up = squared_distance(points[best as int], *q);
        let mut down: usize = pos;
        while down > 0 && self.gap_at(down - 1, q) <= distance_between(&self.colors[best], q)
            invariant
                self.wf(),
                n == self.colors@.len(),
                points == self.points(),
                order == self.by_lightness@,
                down <= pos <= up <= n,
                best < n,
                squared_distance(points[best as int], *q) <= bound_up,
                forall|p: int|
                    down <= p < up ==> !beats(points, *q, (#[trigger] order[p]) as int, best as int),
            decreases down,
        {
            let next = self.better_of(best, (down - 1) as usize, q);
            proof {
                assert forall|p: int| down - 1 <= p < up implies !beats(
                    points,
                    *q,
                    (#[trigger] order[p]) as int,
                    next as int,
                ) by {
                    if p >= down {
                        assert(!beats(points, *q, order[p] as int, best as int));
                    }
                }
                assert(!beats(points, *q, best as int, next as int));
            }
            best = next;
            down = down - 1;
        }
        proof {
            let found = squared_distance(points[best as int], *q);
            let ql = q.l as int;
            assert forall|j: int| 0 <= j < points.len() implies !beats(points, *q, j, best as int) by {
                assert(order.contains(j as usize));
                let p = choose|p: int| 0 <= p < order.len() && order[p] == j as usize;
                let l = self.colors@[j].lab_l as int;
                lemma_distance_at_least_gap(points[j], *q);
                if p >= up {
                    // Beyond where the search upwards stopped: too light.
                    let edge = self.colors@[order[up as int] as int].lab_l as int;
                    assert(ql <= edge <= l);
                    lemma_gap_grows(edge - ql, l - ql);
                    assert(gap_squared(l, ql) > bound_up);
                } else if p < down {
                    // Beyond where the search downwards stopped: too dark.
                    let edge = self.colors@[order[down - 1] as int].lab_l as int;
                    assert(l <= edge < ql);
                    lemma_gap_grows(ql - edge, ql - l);
                    assert(gap_squared(edge, ql) == (ql - edge) * (ql - edge)) by (nonlinear_arith);
                    assert(gap_squared(l, ql) == (ql - l) * (ql - l)) by (nonlinear_arith);
                    assert(gap_squared(l, ql) > found);
                } else {
                    assert(!beats(points, *q, order[p] as int, best as int));
                }
            }
            lemma_unbeaten_is_nearest(points, *q, best as int);
        }
        best
    }

    /// The palette index of each sample, in the samples' order.
    pub fn classify(&self, samples: &Vec<LabPoint>) -> (cells: Vec<usize>)
        requires
            self.wf(),
        ensures
            cells@ == classified(self.points(), samples@),
            forall|k: int| 0 <= k < cells@.len() ==> (#[trigger] cells@[k]) < self.colors().len(),
    {
        let cells = nearest_for_each(self, samples);
        proof {
            assert forall|k: int| 0 <= k < cells@.len() implies (#[trigger] cells@[k])
                < self.colors().len() by {
                lemma_nearest_in_is_nearest(self.points(), samples@[k]);
            }
            assert(cells@ =~= classified(self.points(), samples@));
        }
        cells
    }
}

/// The palette indices by rising lightness, colours of one lightness in
/// palette order.
fn lightness_order(colors: &Vec<DmcColorPrecomputed>) -> (order: Vec<usize>)
    ensures
        is_lightness_order(order@, colors@),
{
    let n = colors.len();
    let mut order: Vec<usize> = Vec::new();
    let mut i: usize = 0;
    while i < n
        invariant
            i <= n,
            n == colors@.len(),
            order@.len() == i,
            forall|k: int| 0 <= k < order@.len() ==> (#[trigger] order@[k]) < i,
            forall|a: int, b: int|
                0 <= a < b < order@.len() ==> colors@[(#[trigger] order@[a]) as int].lab_l
                    <= colors@[(#[trigger] order@[b]) as int].lab_l,
            forall|j: usize| j < i ==> #[trigger] order@.contains(j),
        decreases n - i,
    {
        let lightness = colors[i].lab_l;
        let mut at: usize = 0;
        while at < order.len() && colors[order[at]].lab_l <= lightness
            invariant
                at <= order@.len(),
                i < n,
                n == colors@.len(),
                lightness == colors@[i as int].lab_l,
                forall|k: int| 0 <= k < order@.len() ==> (#[trigger] order@[k]) < i,
                forall|k: int|
                    0 <= k < at ==> colors@[(#[trigger] order@[k]) as int].lab_l <= lightness,
            decreases order@.len() - at,
        {
            at = at + 1;
        }
        let ghost before = order@;
        order.insert(at, i);
        proof {
            let after = order@;
            assert(after == before.insert(at as int, i));
            assert forall|k: int| 0 <= k < after.len() implies (#[trigger] after[k]) < i + 1 by {
                if k < at {
                    assert(after[k] == before[k]);
                } else if k > at {
                    assert(after[k] == before[k - 1]);
                }
            }
            assert forall|a: int, b: int| 0 <= a < b < after.len() implies colors@[(
            #[trigger] after[a]) as int].lab_l <= colors@[(#[trigger] after[b]) as int].lab_l by {
                let la = if a < at {
                    before[a]
                } else if a == at {
                    i
                } else {
                    before[a - 1]
                };
                let lb = if b < at {
                    before[b]
                } else if b == at {
                    i
                } else {
                    before[b - 1]
                };
                assert(after[a] == la && after[b] == lb);
                if a >= at && at < before.len() {
                    assert(colors@[before[at as int] as int].lab_l > lightness);
                }
            }
            assert forall|j: usize| j < i + 1 implies #[trigger] after.contains(j) by {
                if j == i {
                    assert(after[at as int] == i);
                } else {
                    assert(before.contains(j));
                    let k = choose|k: int| 0 <= k < before.len() && before[k] == j;
                    if k < at {
                        assert(after[k] == j);
                    } else {
                        assert(after[k + 1] == j);
                    }
                }
            }
        }
        i = i + 1;
    }
    order
}

/// The squared distance between a palette colour and a point.
fn distance_between(color: &DmcColorPrecomputed, q: &LabPoint) -> (d: i128)
    ensures
        d == squared_distance(color.lab(), *q),
{
    let dl: i128 = color.lab_l as i128 - q.l as i128;
    let da: i128 = color.lab_a as i128 - q.a as i128;
    let db: i128 = color.lab_b as i128 - q.b as i128;
    assert(dl * dl <= 0x1_0000_0000 * 0x1_0000_0000 && da * da <= 0x1_0000_0000 * 0x1_0000_0000
        && db * db <= 0x1_0000_0000 * 0x1_0000_0000 && dl * dl >= 0 && da * da >= 0 && db * db
        >= 0) by (nonlinear_arith)
        requires
            -0x1_0000_0000 <= dl <= 0x1_0000_0000,
            -0x1_0000_0000 <= da <= 0x1_0000_0000,
            -0x1_0000_0000 <= db <= 0x1_0000_0000,
    ;
    dl * dl + da * da + db * db
}

/// Runs `PaletteIndex::nearest` on every sample through rayon's
/// `par_iter().map(..).collect()`. Rayon documents that `map` applies the
/// closure to each item and that collecting an indexed parallel iterator into
/// a `Vec` keeps the items' order, so the result holds, at each position, what
/// `nearest` returns for the sample at that position.
#[verifier::external_body]
fn nearest_for_each(index: &PaletteIndex, samples: &Vec<LabPoint>) -> (cells: Vec<usize>)
    requires
        index.wf(),
    ensures
        cells@.len() == samples@.len(),
        forall|k: int|
            0 <= k < samples@.len() ==> (#[trigger] cells@[k]) as int == nearest_in(
                index.points(),
                samples@[k],
            ),
{
    samples.par_iter().map(|sample| index.nearest(sample)).collect()
}

} // verus!
