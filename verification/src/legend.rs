//! The legend of a pattern: how many cells use each colour, in which order
//! the colours are listed, and which label each of them carries.
//!
//! Colours are listed by falling cell count, colours of equal count in the
//! natural order of their identifiers; colours that no cell uses are left out.
//! The colour at rank `r` (from 1) carries the label of `r`.

use crate::grid::GemGrid;
use crate::ident::{
    id_before, id_precedes, lemma_id_before_asymmetric, lemma_id_before_total,
    lemma_id_before_transitive,
};
use crate::models::{DmcColorPrecomputed, GemCount, GemCountView, LabPoint};
use crate::palette_index::{
    distinct_ids, is_nearest, lemma_nearest_is_unique, points_of, PaletteIndex,
};
use crate::utils::{label_of, to_excel_column};
use vstd::prelude::*;

verus! {

/// The number of cells that hold palette index `color`.
pub open spec fn occurrences(cells: Seq<usize>, color: int) -> nat
    decreases cells.len(),
{
    if cells.len() == 0 {
        0
    } else {
        occurrences(cells.drop_last(), color) + if cells.last() == color {
            1nat
        } else {
            0nat
        }
    }
}

/// For each of `colors` palette indices, the number of cells that hold it.
pub open spec fn tallies_of(cells: Seq<usize>, colors: nat) -> Seq<nat> {
    Seq::new(colors, |c: int| occurrences(cells, c))
}

/// The sum of the first `n` tallies.
pub open spec fn sum_of(tallies: Seq<nat>, n: nat) -> nat
    decreases n,
{
    if n == 0 {
        0
    } else {
        sum_of(tallies, (n - 1) as nat) + tallies[n - 1]
    }
}

/// The sum of the tallies of the colours that `order` lists.
pub open spec fn listed_sum(order: Seq<usize>, tallies: Seq<nat>) -> nat
    decreases order.len(),
{
    if order.len() == 0 {
        0
    } else {
        listed_sum(order.drop_last(), tallies) + tallies[order.last() as int]
    }
}

/// Whether colour `c` is listed before colour `d`: it has more cells, or as
/// many and the identifier that comes first.
pub open spec fn ranks_before(
    tallies: Seq<nat>,
    colors: Seq<DmcColorPrecomputed>,
    c: int,
    d: int,
) -> bool {
    tallies[c] > tallies[d] || (tallies[c] == tallies[d] && id_before(
        colors[c].floss@,
        colors[d].floss@,
    ))
}

/// Whether `order` is the legend's order of the palette indices: it lists
/// the colours that have cells, all of them, each before those that rank
/// after it.
pub open spec fn is_ranking(
    order: Seq<usize>,
    tallies: Seq<nat>,
    colors: Seq<DmcColorPrecomputed>,
) -> bool {
    &&& forall|i: int|
        0 <= i < order.len() ==> (#[trigger] order[i]) < colors.len() && tallies[order[i] as int]
            > 0
    &&& forall|c: int|
        0 <= c < colors.len() && #[trigger] tallies[c] > 0 ==> order.contains(c as usize)
    &&& forall|i: int, j: int|
        0 <= i < j < order.len() ==> ranks_before(
            tallies,
            colors,
            #[trigger] order[i] as int,
            #[trigger] order[j] as int,
        )
}

/// The legend's order of the palette indices for these tallies.
pub open spec fn ranking_of(tallies: Seq<nat>, colors: Seq<DmcColorPrecomputed>) -> Seq<usize> {
    choose|order: Seq<usize>| is_ranking(order, tallies, colors)
}

/// The legend entry of palette index `c`.
pub open spec fn entry_of(tallies: Seq<nat>, colors: Seq<DmcColorPrecomputed>, c: int)
    -> GemCountView {
    GemCountView { floss: colors[c].floss@, count: tallies[c], hex: colors[c].hex@ }
}

/// The legend entries of a grid's cells, in the legend's order.
pub open spec fn usage_of(cells: Seq<usize>, colors: Seq<DmcColorPrecomputed>) -> Seq<
    GemCountView,
> {
    let tallies = tallies_of(cells, colors.len());
    let order = ranking_of(tallies, colors);
    Seq::new(order.len(), |i: int| entry_of(tallies, colors, order[i] as int))
}

/// What a list of counts holds, as mathematical values.
pub open spec fn views_of(counts: Seq<GemCount>) -> Seq<GemCountView> {
    Seq::new(counts.len(), |i: int| counts[i]@)
}

/// The sum of the counts of a list of entries.
pub open spec fn total_count(entries: Seq<GemCountView>) -> nat
    decreases entries.len(),
{
    if entries.len() == 0 {
        0
    } else {
        total_count(entries.drop_last()) + entries.last().count
    }
}

/// The labels of the ranks 1 to `n`, in order.
pub open spec fn labels_of(n: nat) -> Seq<Seq<char>> {
    Seq::new(n, |i: int| label_of((i + 1) as nat))
}

/// Whether `ranks` holds, for each palette index, its rank in `order`
/// (from 1), and 0 for the colours that `order` does not list.
pub open spec fn is_rank_table(ranks: Seq<usize>, order: Seq<usize>) -> bool {
    &&& forall|i: int| 0 <= i < order.len() ==> ranks[(#[trigger] order[i]) as int] == i + 1
    &&& forall|c: int|
        0 <= c < ranks.len() && !order.contains(c as usize) ==> #[trigger] ranks[c] == 0
}

/// Of two colours with different identifiers at most one is listed before
/// the other, and none before itself.
pub proof fn lemma_ranks_before_asymmetric(
    tallies: Seq<nat>,
    colors: Seq<DmcColorPrecomputed>,
    c: int,
    d: int,
)
    ensures
        !(ranks_before(tallies, colors, c, d) && ranks_before(tallies, colors, d, c)),
{
    lemma_id_before_asymmetric(colors[c].floss@, colors[d].floss@);
}

/// A ranking lists no colour twice.
pub proof fn lemma_ranking_no_duplicates(
    order: Seq<usize>,
    tallies: Seq<nat>,
    colors: Seq<DmcColorPrecomputed>,
)
    requires
        is_ranking(order, tallies, colors),
    ensures
        order.no_duplicates(),
{
    assert forall|i: int, j: int| 0 <= i < order.len() && 0 <= j < order.len() && i != j implies order[i]
        != order[j] by {
        lemma_ranks_before_asymmetric(tallies, colors, order[i] as int, order[j] as int);
        if i < j {
            assert(ranks_before(tallies, colors, order[i] as int, order[j] as int));
        } else {
            assert(ranks_before(tallies, colors, order[j] as int, order[i] as int));
        }
    }
}

/// Two rankings of the same tallies agree at every position that both have.
proof fn lemma_rankings_agree_at(
    a: Seq<usize>,
    b: Seq<usize>,
    tallies: Seq<nat>,
    colors: Seq<DmcColorPrecomputed>,
    i: int,
)
    requires
        is_ranking(a, tallies, colors),
        is_ranking(b, tallies, colors),
        0 <= i < a.len(),
        0 <= i < b.len(),
    ensures
        a[i] == b[i],
    decreases i,
{
    assert forall|k: int| 0 <= k < i implies a[k] == b[k] by {
        lemma_rankings_agree_at(a, b, tallies, colors, k);
    }
    lemma_ranking_no_duplicates(a, tallies, colors);
    lemma_ranking_no_duplicates(b, tallies, colors);
    let x = a[i];
    let y = b[i];
    if x != y {
        // `x` stands in `b` and `y` in `a`, each behind position `i`.
        assert(tallies[x as int] > 0);
        assert(b.contains(x));
        let jb = choose|j: int| 0 <= j < b.len() && b[j] == x;
        assert(tallies[y as int] > 0);
        assert(a.contains(y));
        let ja = choose|j: int| 0 <= j < a.len() && a[j] == y;
        if jb < i {
            assert(a[jb] == b[jb]);
        }
        if ja < i {
            assert(a[ja] == b[ja]);
        }
        assert(ranks_before(tallies, colors, b[i] as int, b[jb] as int));
        assert(ranks_before(tallies, colors, a[i] as int, a[ja] as int));
        lemma_ranks_before_asymmetric(tallies, colors, x as int, y as int);
    }
}

/// The legend's order is determined by the tallies and the palette: two
/// rankings of the same tallies are the same list.
pub proof fn lemma_ranking_is_unique(
    a: Seq<usize>,
    b: Seq<usize>,
    tallies: Seq<nat>,
    colors: Seq<DmcColorPrecomputed>,
)
    requires
        is_ranking(a, tallies, colors),
        is_ranking(b, tallies, colors),
    ensures
        a == b,
{
    assert forall|i: int| 0 <= i < a.len() && 0 <= i < b.len() implies a[i] == b[i] by {
        lemma_rankings_agree_at(a, b, tallies, colors, i);
    }
    lemma_ranking_no_duplicates(a, tallies, colors);
    lemma_ranking_no_duplicates(b, tallies, colors);
    if a.len() < b.len() {
        let y = b[a.len() as int];
        assert(tallies[y as int] > 0);
        assert(a.contains(y));
        let j = choose|j: int| 0 <= j < a.len() && a[j] == y;
        assert(b[j] == y);
    } else if b.len() < a.len() {
        let x = a[b.len() as int];
        assert(tallies[x as int] > 0);
        assert(b.contains(x));
        let j = choose|j: int| 0 <= j < b.len() && b[j] == x;
        assert(a[j] == x);
    }
    assert(a =~= b);
}

/// Any ranking of the tallies is the one that `ranking_of` names.
pub proof fn lemma_ranking_of(
    order: Seq<usize>,
    tallies: Seq<nat>,
    colors: Seq<DmcColorPrecomputed>,
)
    requires
        is_ranking(order, tallies, colors),
    ensures
        ranking_of(tallies, colors) == order,
{
    lemma_ranking_is_unique(ranking_of(tallies, colors), order, tallies, colors);
}

/// One more cell of colour `color` raises that colour's count by one and
/// no other.
proof fn lemma_occurrences_push(cells: Seq<usize>, cell: usize, color: int)
    ensures
        occurrences(cells.push(cell), color) == occurrences(cells, color) + if cell == color {
            1nat
        } else {
            0nat
        },
{
    assert(cells.push(cell).drop_last() == cells);
}

/// Raising one of the first `n` tallies by one raises their sum by one.
proof fn lemma_sum_of_update(tallies: Seq<nat>, n: nat, c: int)
    requires
        n <= tallies.len(),
        0 <= c < tallies.len(),
    ensures
        sum_of(tallies.update(c, tallies[c] + 1), n) == sum_of(tallies, n) + if c < n {
            1nat
        } else {
            0nat
        },
    decreases n,
{
    if n > 0 {
        lemma_sum_of_update(tallies, (n - 1) as nat, c);
    }
}

/// The sum of any number of tallies that are all zero is zero.
proof fn lemma_sum_of_zeros(tallies: Seq<nat>, n: nat)
    requires
        n <= tallies.len(),
        forall|c: int| 0 <= c < tallies.len() ==> tallies[c] == 0,
    ensures
        sum_of(tallies, n) == 0,
    decreases n,
{
    if n > 0 {
        lemma_sum_of_zeros(tallies, (n - 1) as nat);
    }
}

/// Listing one more colour adds its tally to the listed sum, wherever in
/// the list it goes.
proof fn lemma_listed_sum_insert(order: Seq<usize>, tallies: Seq<nat>, at: int, c: usize)
    requires
        0 <= at <= order.len(),
    ensures
        listed_sum(order.insert(at, c), tallies) == listed_sum(order, tallies) + tallies[c as int],
    decreases order.len(),
{
    let longer = order.insert(at, c);
    if at == order.len() {
        assert(longer.drop_last() == order);
    } else {
        assert(longer.drop_last() == order.drop_last().insert(at, c));
        assert(longer.last() == order.last());
        lemma_listed_sum_insert(order.drop_last(), tallies, at, c);
    }
}

/// The entries of a list add up to the listed sum of their colours.
proof fn lemma_total_is_listed_sum(
    order: Seq<usize>,
    tallies: Seq<nat>,
    colors: Seq<DmcColorPrecomputed>,
)
    ensures
        total_count(Seq::new(order.len(), |i: int| entry_of(tallies, colors, order[i] as int)))
            == listed_sum(order, tallies),
    decreases order.len(),
{
    if order.len() > 0 {
        let entries = Seq::new(order.len(), |i: int| entry_of(tallies, colors, order[i] as int));
        let front = order.drop_last();
        assert(entries.drop_last() == Seq::new(
            front.len(),
            |i: int| entry_of(tallies, colors, front[i] as int),
        ));
        lemma_total_is_listed_sum(front, tallies, colors);
    }
}

/// Counts the cells of each palette index.
fn tally(cells: &Vec<usize>, colors: usize) -> (tallies: Vec<u32>)
    requires
        cells@.len() <= u32::MAX,
        forall|k: int| 0 <= k < cells@.len() ==> (#[trigger] cells@[k]) < colors,
    ensures
        tallies@.len() == colors,
        forall|c: int|
            0 <= c < colors ==> (#[trigger] tallies@[c]) as nat == occurrences(cells@, c),
        sum_of(tallies_of(cells@, colors as nat), colors as nat) == cells@.len(),
{
    let mut tallies: Vec<u32> = Vec::new();
    let mut c: usize = 0;
    while c < colors
        invariant
            c <= colors,
            tallies@.len() == c,
            forall|d: int| 0 <= d < c ==> (#[trigger] tallies@[d]) == 0,
        decreases colors - c,
    {
        tallies.push(0);
        c = c + 1;
    }
    let ghost mut counted: Seq<nat> = Seq::new(colors as nat, |c: int| 0nat);
    proof {
        lemma_sum_of_zeros(counted, colors as nat);
        assert(cells@.take(0).len() == 0);
    }
    let mut k: usize = 0;
    while k < cells.len()
        invariant
            k <= cells@.len(),
            cells@.len() <= u32::MAX,
            forall|k: int| 0 <= k < cells@.len() ==> (#[trigger] cells@[k]) < colors,
            tallies@.len() == colors,
            counted.len() == colors,
            forall|c: int| 0 <= c < colors ==> (#[trigger] tallies@[c]) as nat == counted[c],
            forall|c: int|
                0 <= c < colors ==> (#[trigger] counted[c]) == occurrences(
                    cells@.take(k as int),
                    c,
                ),
            sum_of(counted, colors as nat) == k,
        decreases cells@.len() - k,
    {
        let color = cells[k];
        proof {
            let seen = cells@.take(k as int);
            assert(cells@.take(k + 1) == seen.push(color));
            assert forall|c: int| 0 <= c < colors implies occurrences(cells@.take(k + 1), c)
                == occurrences(seen, c) + if color == c {
                1nat
            } else {
                0nat
            } by {
                lemma_occurrences_push(seen, color, c);
            }
            lemma_sum_of_update(counted, colors as nat, color as int);
            lemma_tally_at_most_sum(counted, colors as nat, color as int);
            counted = counted.update(color as int, counted[color as int] + 1);
        }
        let count = tallies[color];
        tallies.set(color, count + 1);
        k = k + 1;
    }
    proof {
        assert(cells@.take(k as int) == cells@);
        assert(counted =~= tallies_of(cells@, colors as nat));
    }
    tallies
}

/// Each of the first `n` tallies is at most their sum.
proof fn lemma_tally_at_most_sum(tallies: Seq<nat>, n: nat, c: int)
    requires
        0 <= c < n <= tallies.len(),
    ensures
        tallies[c] <= sum_of(tallies, n),
    decreases n,
{
    if c < n - 1 {
        lemma_tally_at_most_sum(tallies, (n - 1) as nat, c);
    }
}

/// Whether palette index `c` is listed before palette index `d`.
fn listed_before(tallies: &Vec<u32>, palette: &PaletteIndex, c: usize, d: usize) -> (before: bool)
    requires
        tallies@.len() == palette.colors().len(),
        c < tallies@.len(),
        d < tallies@.len(),
    ensures
        before == ranks_before(
            Seq::new(tallies@.len(), |i: int| tallies@[i] as nat),
            palette.colors(),
            c as int,
            d as int,
        ),
{
    if tallies[c] != tallies[d] {
        tallies[c] > tallies[d]
    } else {
        id_precedes(palette.color(c).floss.as_str(), palette.color(d).floss.as_str())
    }
}

/// The legend's order of the palette indices for a grid's cells.
pub fn usage_order(cells: &Vec<usize>, palette: &PaletteIndex) -> (result: (Vec<usize>, Vec<u32>))
    requires
        palette.has_distinct_ids(),
        cells@.len() <= u32::MAX,
        forall|k: int| 0 <= k < cells@.len() ==> (#[trigger] cells@[k]) < palette.colors().len(),
    ensures
        result.0@ == ranking_of(
            tallies_of(cells@, palette.colors().len()),
            palette.colors(),
        ),
        is_ranking(result.0@, tallies_of(cells@, palette.colors().len()), palette.colors()),
        result.1@.len() == palette.colors().len(),
        forall|c: int|
            0 <= c < result.1@.len() ==> (#[trigger] result.1@[c]) as nat == occurrences(cells@, c),
        listed_sum(result.0@, tallies_of(cells@, palette.colors().len())) == cells@.len(),
{
    let colors = palette.len();
    let tallies = tally(cells, colors);
    let ghost all = tallies_of(cells@, colors as nat);
    let ghost palette_colors = palette.colors();
    assert(all =~= Seq::new(tallies@.len(), |i: int| tallies@[i] as nat));
    let mut order: Vec<usize> = Vec::new();
    let mut c: usize = 0;
    while c < colors
        invariant
            c <= colors,
            colors == palette_colors.len(),
            palette_colors == palette.colors(),
            distinct_ids(palette_colors),
            tallies@.len() == colors,
            all.len() == colors,
            all == Seq::new(tallies@.len(), |i: int| tallies@[i] as nat),
            forall|i: int| 0 <= i < order@.len() ==> (#[trigger] order@[i]) < c && all[order@[i] as int] > 0,
            forall|d: int| 0 <= d < c && #[trigger] all[d] > 0 ==> order@.contains(d as usize),
            forall|i: int, j: int|
                0 <= i < j < order@.len() ==> ranks_before(
                    all,
                    palette_colors,
                    #[trigger] order@[i] as int,
                    #[trigger] order@[j] as int,
                ),
            listed_sum(order@, all) == sum_of(all, c as nat),
        decreases colors - c,
    {
        if tallies[c] > 0 {
            // The colour goes in front of the first listed colour that
            // ranks after it.
            let mut at: usize = 0;
            while at < order.len() && !listed_before(&tallies, palette, c, order[at])
                invariant
                    at <= order@.len(),
                    c < colors,
                    colors == palette_colors.len(),
                    palette_colors == palette.colors(),
                    distinct_ids(palette_colors),
                    tallies@.len() == colors,
                    all == Seq::new(tallies@.len(), |i: int| tallies@[i] as nat),
                    forall|i: int| 0 <= i < order@.len() ==> (#[trigger] order@[i]) < c,
                    forall|i: int|
                        0 <= i < at ==> ranks_before(
                            all,
                            palette_colors,
                            #[trigger] order@[i] as int,
                            c as int,
                        ),
                decreases order@.len() - at,
            {
                proof {
                    let d = order@[at as int];
                    assert(palette_colors[d as int].floss@ != palette_colors[c as int].floss@);
                    lemma_id_before_total(
                        palette_colors[d as int].floss@,
                        palette_colors[c as int].floss@,
                    );
                }
                at = at + 1;
            }
            let ghost before = order@;
            order.insert(at, c);
            proof {
                let after = order@;
                assert(after == before.insert(at as int, c));
                lemma_listed_sum_insert(before, all, at as int, c);
                assert forall|i: int| 0 <= i < after.len() implies (#[trigger] after[i]) < c + 1
                    && all[after[i] as int] > 0 by {
                    if i < at {
                        assert(after[i] == before[i]);
                    } else if i > at {
                        assert(after[i] == before[i - 1]);
                    }
                }
                assert forall|d: int| 0 <= d < c + 1 && #[trigger] all[d] > 0 implies after.contains(
                    d as usize,
                ) by {
                    if d == c {
                        assert(after[at as int] == c);
                    } else {
                        assert(before.contains(d as usize));
                        let j = choose|j: int| 0 <= j < before.len() && before[j] == d as usize;
                        if j < at {
                            assert(after[j] == d as usize);
                        } else {
                            assert(after[j + 1] == d as usize);
                        }
                    }
                }
                assert forall|i: int, j: int| 0 <= i < j < after.len() implies ranks_before(
                    all,
                    palette_colors,
                    #[trigger] after[i] as int,
                    #[trigger] after[j] as int,
                ) by {
                    lemma_insert_keeps_order(before, all, palette_colors, at as int, c, i, j);
                }
            }
        }
        c = c + 1;
    }
    proof {
        lemma_ranking_of(order@, all, palette_colors);
    }
    (order, tallies)
}

/// Where a colour goes in front of the first listed colour that ranks after
/// it, the longer list is in order at every pair of positions.
proof fn lemma_insert_keeps_order(
    before: Seq<usize>,
    tallies: Seq<nat>,
    colors: Seq<DmcColorPrecomputed>,
    at: int,
    c: usize,
    i: int,
    j: int,
)
    requires
        0 <= at <= before.len(),
        0 <= i < j < before.len() + 1,
        forall|i: int, j: int|
            0 <= i < j < before.len() ==> ranks_before(
                tallies,
                colors,
                #[trigger] before[i] as int,
                #[trigger] before[j] as int,
            ),
        forall|i: int|
            0 <= i < at ==> ranks_before(tallies, colors, #[trigger] before[i] as int, c as int),
        at < before.len() ==> ranks_before(tallies, colors, c as int, before[at] as int),
    ensures
        ranks_before(
            tallies,
            colors,
            before.insert(at, c)[i] as int,
            before.insert(at, c)[j] as int,
        ),
{
    let after = before.insert(at, c);
    if j < at {
        assert(after[i] == before[i] && after[j] == before[j]);
    } else if j == at {
        assert(after[i] == before[i]);
    } else if i == at {
        // `c` ranks before `before[at]`, which ranks before all behind it.
        assert(after[j] == before[j - 1]);
        if j - 1 > at {
            assert(ranks_before(tallies, colors, before[at] as int, before[j - 1] as int));
            lemma_ranks_before_transitive(
                tallies,
                colors,
                c as int,
                before[at] as int,
                before[j - 1] as int,
            );
        }
    } else if i < at {
        assert(after[i] == before[i] && after[j] == before[j - 1]);
    } else {
        assert(after[i] == before[i - 1] && after[j] == before[j - 1]);
    }
}

/// The legend's order is transitive.
pub proof fn lemma_ranks_before_transitive(
    tallies: Seq<nat>,
    colors: Seq<DmcColorPrecomputed>,
    c: int,
    d: int,
    e: int,
)
    requires
        ranks_before(tallies, colors, c, d),
        ranks_before(tallies, colors, d, e),
    ensures
        ranks_before(tallies, colors, c, e),
{
    if tallies[c] == tallies[d] && tallies[d] == tallies[e] {
        lemma_id_before_transitive(colors[c].floss@, colors[d].floss@, colors[e].floss@);
    }
}

/// The entries of the colours that `order` lists, in that order.
fn list_entries(
    order: &Vec<usize>,
    tallies: &Vec<u32>,
    palette: &PaletteIndex,
    Ghost(all): Ghost<Seq<nat>>,
) -> (counts: Vec<GemCount>)
    requires
        tallies@.len() == palette.colors().len(),
        all.len() == tallies@.len(),
        forall|c: int| 0 <= c < tallies@.len() ==> (#[trigger] tallies@[c]) as nat == all[c],
        forall|i: int| 0 <= i < order@.len() ==> (#[trigger] order@[i]) < tallies@.len(),
    ensures
        views_of(counts@) == Seq::new(
            order@.len(),
            |i: int| entry_of(all, palette.colors(), order@[i] as int),
        ),
{
    let ghost colors = palette.colors();
    let mut counts: Vec<GemCount> = Vec::new();
    let mut i: usize = 0;
    while i < order.len()
        invariant
            i <= order@.len(),
            colors == palette.colors(),
            tallies@.len() == colors.len(),
            all.len() == tallies@.len(),
            forall|c: int| 0 <= c < tallies@.len() ==> (#[trigger] tallies@[c]) as nat == all[c],
            forall|i: int| 0 <= i < order@.len() ==> (#[trigger] order@[i]) < tallies@.len(),
            counts@.len() == i,
            forall|k: int|
                0 <= k < i ==> (#[trigger] counts@[k])@ == entry_of(all, colors, order@[k] as int),
        decreases order@.len() - i,
    {
        let c = order[i];
        let color = palette.color(c);
        counts.push(
            GemCount { floss: color.floss.clone(), count: tallies[c], hex: color.hex.clone() },
        );
        i = i + 1;
    }
    proof {
        let entries = Seq::new(order@.len(), |i: int| entry_of(all, colors, order@[i] as int));
        assert(views_of(counts@) =~= entries);
    }
    counts
}

/// The legend of a grid: one entry for each colour that has cells, by
/// falling count and then by identifier. The counts add up to the number of
/// cells.
pub fn count_usage(grid: &GemGrid, palette: &PaletteIndex) -> (counts: Vec<GemCount>)
    requires
        palette.has_distinct_ids(),
        grid.wf(palette.colors().len()),
    ensures
        views_of(counts@) == usage_of(grid.cells@, palette.colors()),
        total_count(views_of(counts@)) == grid.cells@.len(),
        total_count(views_of(counts@)) == grid.cols * grid.rows,
{
    let (order, tallies) = usage_order(&grid.cells, palette);
    let ghost all = tallies_of(grid.cells@, palette.colors().len());
    let counts = list_entries(&order, &tallies, palette, Ghost(all));
    proof {
        lemma_total_is_listed_sum(order@, all, palette.colors());
    }
    counts
}

/// The legend of a pattern: the colours in the legend's order, their
/// entries, each colour's rank and each rank's label.
#[derive(Debug)]
pub struct Legend {
    /// The palette indices of the colours that have cells, in the legend's
    /// order.
    pub order: Vec<usize>,
    /// The entry of each listed colour, in the same order.
    pub counts: Vec<GemCount>,
    /// For each palette index its rank (from 1), or 0 where no cell has the
    /// colour.
    pub ranks: Vec<usize>,
    /// The label of each rank, that of rank 1 first.
    pub labels: Vec<String>,
}

impl Legend {
    /// Whether this is the legend of the cells over the palette's colours.
    pub open spec fn is_legend_of(
        &self,
        cells: Seq<usize>,
        colors: Seq<DmcColorPrecomputed>,
    ) -> bool {
        &&& self.order@ == ranking_of(tallies_of(cells, colors.len()), colors)
        &&& is_ranking(self.order@, tallies_of(cells, colors.len()), colors)
        &&& views_of(self.counts@) == usage_of(cells, colors)
        &&& self.counts@.len() == self.order@.len()
        &&& self.ranks@.len() == colors.len()
        &&& is_rank_table(self.ranks@, self.order@)
        &&& self.labels@.len() == self.order@.len()
        &&& forall|i: int|
            0 <= i < self.labels@.len() ==> (#[trigger] self.labels@[i])@ == label_of(
                (i + 1) as nat,
            )
    }

    /// The label of a cell of palette index `color`.
    pub fn label_of_color(&self, color: usize) -> (label: &String)
        requires
            self.ranks@.len() > color,
            is_rank_table(self.ranks@, self.order@),
            self.labels@.len() == self.order@.len(),
            forall|i: int|
                0 <= i < self.labels@.len() ==> (#[trigger] self.labels@[i])@ == label_of(
                    (i + 1) as nat,
                ),
            self.order@.contains(color),
        ensures
            1 <= self.ranks@[color as int] <= self.order@.len(),
            self.order@[self.ranks@[color as int] - 1] == color,
            label@ == label_of(self.ranks@[color as int] as nat),
    {
        proof {
            let i = choose|i: int| 0 <= i < self.order@.len() && self.order@[i] == color;
            assert(self.ranks@[self.order@[i] as int] == i + 1);
        }
        &self.labels[self.ranks[color] - 1]
    }
}

/// Builds the legend of a grid.
pub fn build_legend(grid: &GemGrid, palette: &PaletteIndex) -> (legend: Legend)
    requires
        palette.has_distinct_ids(),
        grid.wf(palette.colors().len()),
    ensures
        legend.is_legend_of(grid.cells@, palette.colors()),
        total_count(views_of(legend.counts@)) == grid.cols * grid.rows,
        forall|k: int|
            0 <= k < grid.cells@.len() ==> legend.order@.contains(#[trigger] grid.cells@[k]),
{
    let (order, tallies) = usage_order(&grid.cells, palette);
    let ghost all = tallies_of(grid.cells@, palette.colors().len());
    let counts = list_entries(&order, &tallies, palette, Ghost(all));
    proof {
        lemma_total_is_listed_sum(order@, all, palette.colors());
        lemma_ranking_no_duplicates(order@, all, palette.colors());
        assert forall|k: int| 0 <= k < grid.cells@.len() implies order@.contains(
            #[trigger] grid.cells@[k],
        ) by {
            lemma_cell_is_counted(grid.cells@, k);
            assert(all[grid.cells@[k] as int] > 0);
        }
    }
    let ranks = color_ranks(&order, palette.len());
    let labels = legend_labels(order.len());
    Legend { order, counts, ranks, labels }
}

/// A colour that a cell holds occurs at least once.
proof fn lemma_cell_is_counted(cells: Seq<usize>, k: int)
    requires
        0 <= k < cells.len(),
    ensures
        occurrences(cells, cells[k] as int) > 0,
    decreases cells.len(),
{
    if k < cells.len() - 1 {
        lemma_cell_is_counted(cells.drop_last(), k);
    }
}

/// Where every cell holds the same colour, that colour occurs as often as
/// there are cells.
proof fn lemma_occurrences_of_one_color(cells: Seq<usize>, color: int)
    requires
        forall|k: int| 0 <= k < cells.len() ==> (#[trigger] cells[k]) == color,
    ensures
        occurrences(cells, color) == cells.len(),
    decreases cells.len(),
{
    if cells.len() > 0 {
        let front = cells.drop_last();
        assert forall|k: int| 0 <= k < front.len() implies (#[trigger] front[k]) == color by {
            assert(front[k] == cells[k]);
        }
        lemma_occurrences_of_one_color(front, color);
    }
}

/// With a palette of one colour the legend has one entry: that colour's,
/// with all the cells.
pub proof fn lemma_one_color_usage(cells: Seq<usize>, colors: Seq<DmcColorPrecomputed>)
    requires
        colors.len() == 1,
        cells.len() > 0,
        forall|k: int| 0 <= k < cells.len() ==> (#[trigger] cells[k]) < colors.len(),
    ensures
        usage_of(cells, colors) == seq![
            GemCountView { floss: colors[0].floss@, count: cells.len(), hex: colors[0].hex@ },
        ],
{
    let tallies = tallies_of(cells, colors.len());
    lemma_occurrences_of_one_color(cells, 0);
    let order: Seq<usize> = seq![0usize];
    assert(order[0] == 0usize);
    assert(order.contains(0usize));
    assert(is_ranking(order, tallies, colors));
    lemma_ranking_of(order, tallies, colors);
    assert(usage_of(cells, colors) =~= seq![
        GemCountView { floss: colors[0].floss@, count: cells.len(), hex: colors[0].hex@ },
    ]);
}

/// A conversion has one result: grids whose cells each hold the nearest
/// colour of the same palette for the same samples are the same grid, and
/// their legends list the same colours in the same order, under the same
/// labels.
pub proof fn lemma_pattern_is_determined(
    colors: Seq<DmcColorPrecomputed>,
    samples: Seq<LabPoint>,
    cells_a: Seq<usize>,
    cells_b: Seq<usize>,
    order_a: Seq<usize>,
    order_b: Seq<usize>,
)
    requires
        cells_a.len() == samples.len(),
        cells_b.len() == samples.len(),
        forall|k: int|
            0 <= k < samples.len() ==> is_nearest(
                points_of(colors),
                samples[k],
                (#[trigger] cells_a[k]) as int,
            ),
        forall|k: int|
            0 <= k < samples.len() ==> is_nearest(
                points_of(colors),
                samples[k],
                (#[trigger] cells_b[k]) as int,
            ),
        is_ranking(order_a, tallies_of(cells_a, colors.len()), colors),
        is_ranking(order_b, tallies_of(cells_b, colors.len()), colors),
    ensures
        cells_a == cells_b,
        order_a == order_b,
        usage_of(cells_a, colors) == usage_of(cells_b, colors),
        labels_of(order_a.len()) == labels_of(order_b.len()),
{
    assert forall|k: int| 0 <= k < samples.len() implies cells_a[k] == cells_b[k] by {
        lemma_nearest_is_unique(
            points_of(colors),
            samples[k],
            cells_a[k] as int,
            cells_b[k] as int,
        );
    }
    assert(cells_a =~= cells_b);
    lemma_ranking_is_unique(order_a, order_b, tallies_of(cells_a, colors.len()), colors);
}

/// The labels of a legend with `entries` entries: the label of rank 1 first.
pub fn legend_labels(entries: usize) -> (labels: Vec<String>)
    ensures
        labels@.len() == entries,
        forall|i: int| 0 <= i < entries ==> (#[trigger] labels@[i])@ == label_of((i + 1) as nat),
{
    let mut labels: Vec<String> = Vec::new();
    let mut i: usize = 0;
    while i < entries
        invariant
            i <= entries,
            labels@.len() == i,
            forall|k: int| 0 <= k < i ==> (#[trigger] labels@[k])@ == label_of((k + 1) as nat),
        decreases entries - i,
    {
        labels.push(to_excel_column(i + 1));
        i = i + 1;
    }
    labels
}

/// For each of `colors` palette indices its rank in the legend's order
/// (from 1), or 0 where the legend does not list the colour.
pub fn color_ranks(order: &Vec<usize>, colors: usize) -> (ranks: Vec<usize>)
    requires
        order@.no_duplicates(),
        forall|i: int| 0 <= i < order@.len() ==> (#[trigger] order@[i]) < colors,
    ensures
        ranks@.len() == colors,
        is_rank_table(ranks@, order@),
{
    let mut ranks: Vec<usize> = Vec::new();
    let mut c: usize = 0;
    while c < colors
        invariant
            c <= colors,
            ranks@.len() == c,
            forall|d: int| 0 <= d < c ==> (#[trigger] ranks@[d]) == 0,
        decreases colors - c,
    {
        ranks.push(0);
        c = c + 1;
    }
    let mut i: usize = 0;
    while i < order.len()
        invariant
            i <= order@.len(),
            ranks@.len() == colors,
            order@.no_duplicates(),
            forall|k: int| 0 <= k < order@.len() ==> (#[trigger] order@[k]) < colors,
            forall|k: int| 0 <= k < i ==> ranks@[(#[trigger] order@[k]) as int] == k + 1,
            forall|d: int|
                0 <= d < colors && !order@.take(i as int).contains(d as usize)
                    ==> #[trigger] ranks@[d] == 0,
        decreases order@.len() - i,
    {
        let color = order[i];
        let ghost before = ranks@;
        ranks.set(color, i + 1);
        proof {
            let seen = order@.take(i as int);
            let next = order@.take(i + 1);
            assert forall|k: int| 0 <= k < i + 1 implies ranks@[(#[trigger] order@[k]) as int] == k
                + 1 by {
                if k < i {
                    assert(order@[k] != order@[i as int]);
                }
            }
            assert forall|d: int| 0 <= d < colors && !next.contains(d as usize) implies #[trigger] ranks@[d]
                == 0 by {
                assert(next[i as int] == color);
                if seen.contains(d as usize) {
                    let k = choose|k: int| 0 <= k < seen.len() && seen[k] == d as usize;
                    assert(next[k] == d as usize);
                }
                assert(before[d] == 0);
            }
        }
        i = i + 1;
    }
    proof {
        assert(order@.take(i as int) == order@);
    }
    ranks
}

} // verus!
