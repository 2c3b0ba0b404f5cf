//! The palette of one conversion: the reference colours that the user
//! selected, each once, in the order of the selection.

use crate::models::{Color, DmcColorPrecomputed};
use crate::palette_index::distinct_ids;
use vstd::prelude::*;
use vstd::string::StrSliceExecFns;

verus! {

/// Whether `c` is white space (the characters with Unicode's `White_Space`
/// property).
pub open spec fn is_space(c: char) -> bool {
    let u = c as u32;
    ||| 0x09 <= u <= 0x0d
    ||| u == 0x20
    ||| u == 0x85
    ||| u == 0xa0
    ||| u == 0x1680
    ||| 0x2000 <= u <= 0x200a
    ||| u == 0x2028
    ||| u == 0x2029
    ||| u == 0x202f
    ||| u == 0x205f
    ||| u == 0x3000
}

/// The text without the white space that it starts with.
pub open spec fn trimmed_start(s: Seq<char>) -> Seq<char>
    decreases s.len(),
{
    if s.len() > 0 && is_space(s[0]) {
        trimmed_start(s.drop_first())
    } else {
        s
    }
}

/// The text without the white space that it ends with.
pub open spec fn trimmed_end(s: Seq<char>) -> Seq<char>
    decreases s.len(),
{
    if s.len() > 0 && is_space(s.last()) {
        trimmed_end(s.drop_last())
    } else {
        s
    }
}

/// The text without white space at either end.
pub open spec fn trimmed(s: Seq<char>) -> Seq<char> {
    trimmed_end(trimmed_start(s))
}

/// Whether two identifiers name the same colour: they are the same text but
/// for white space at either end.
pub open spec fn same_id(a: Seq<char>, b: Seq<char>) -> bool {
    trimmed(a) == trimmed(b)
}

/// The place of the first of `all` that `id` names, or the number of
/// colours where it names none.
pub open spec fn first_match(all: Seq<DmcColorPrecomputed>, id: Seq<char>) -> int
    decreases all.len(),
{
    if all.len() == 0 || same_id(all[0].floss@, id) {
        0
    } else {
        1 + first_match(all.drop_first(), id)
    }
}

/// The places in `all` of the colours that the selection names, in the
/// order of the selection, each place once; a selected colour that names
/// none of `all` is passed over.
pub open spec fn selected_places(all: Seq<DmcColorPrecomputed>, selected: Seq<Color>) -> Seq<int>
    decreases selected.len(),
{
    if selected.len() == 0 {
        Seq::empty()
    } else {
        let earlier = selected_places(all, selected.drop_last());
        let place = first_match(all, selected.last().floss_number@);
        if place < all.len() && !earlier.contains(place) {
            earlier.push(place)
        } else {
            earlier
        }
    }
}

/// Whether each of `places` is the first place in `all` of its identifier,
/// and none occurs twice.
pub open spec fn first_places(all: Seq<DmcColorPrecomputed>, places: Seq<int>) -> bool {
    &&& places.no_duplicates()
    &&& forall|i: int|
        0 <= i < places.len() ==> 0 <= #[trigger] places[i] < all.len() && first_match(
            all,
            all[places[i]].floss@,
        ) == places[i]
}

/// The first match lies within the colours or at their end; where it lies
/// within, the colour there is named, and no colour before it is.
pub proof fn lemma_first_match(all: Seq<DmcColorPrecomputed>, id: Seq<char>)
    ensures
        0 <= first_match(all, id) <= all.len(),
        first_match(all, id) < all.len() ==> same_id(all[first_match(all, id)].floss@, id),
        forall|k: int| 0 <= k < first_match(all, id) ==> !same_id((#[trigger] all[k]).floss@, id),
    decreases all.len(),
{
    if all.len() > 0 && !same_id(all[0].floss@, id) {
        let rest = all.drop_first();
        lemma_first_match(rest, id);
        assert forall|k: int| 0 <= k < first_match(all, id) implies !same_id(
            (#[trigger] all[k]).floss@,
            id,
        ) by {
            if k > 0 {
                assert(rest[k - 1] == all[k]);
            }
        }
    }
}

/// The place that an identifier's first match names is the first place of
/// that colour's own identifier.
proof fn lemma_first_match_is_first_place(all: Seq<DmcColorPrecomputed>, id: Seq<char>)
    requires
        first_match(all, id) < all.len(),
    ensures
        first_match(all, all[first_match(all, id)].floss@) == first_match(all, id),
{
    let place = first_match(all, id);
    let own = all[place].floss@;
    lemma_first_match(all, id);
    lemma_first_match(all, own);
    let again = first_match(all, own);
    if again < place {
        assert(same_id(all[again].floss@, own));
        assert(!same_id(all[again].floss@, id));
    } else if again > place {
        assert(!same_id(all[place].floss@, own));
    }
}

/// Colours at different first places have different identifiers.
pub proof fn lemma_first_places_distinct(all: Seq<DmcColorPrecomputed>, places: Seq<int>)
    requires
        first_places(all, places),
    ensures
        distinct_ids(Seq::new(places.len(), |i: int| all[places[i]])),
{
    let chosen = Seq::new(places.len(), |i: int| all[places[i]]);
    assert forall|i: int, j: int| 0 <= i < j < chosen.len() implies (#[trigger] chosen[i]).floss@
        != (#[trigger] chosen[j]).floss@ by {
        assert(places[i] != places[j]);
    }
}

/// The selected places are first places.
pub proof fn lemma_selected_places(all: Seq<DmcColorPrecomputed>, selected: Seq<Color>)
    ensures
        first_places(all, selected_places(all, selected)),
    decreases selected.len(),
{
    if selected.len() > 0 {
        let earlier = selected_places(all, selected.drop_last());
        lemma_selected_places(all, selected.drop_last());
        let id = selected.last().floss_number@;
        let place = first_match(all, id);
        lemma_first_match(all, id);
        if place < all.len() && !earlier.contains(place) {
            lemma_first_match_is_first_place(all, id);
            let places = earlier.push(place);
            assert forall|i: int, j: int|
                0 <= i < places.len() && 0 <= j < places.len() && i != j implies places[i]
                != places[j] by {
                if i < earlier.len() && j < earlier.len() {
                    assert(earlier[i] != earlier[j]);
                } else if i < earlier.len() {
                    assert(earlier.contains(earlier[i]));
                } else {
                    assert(earlier.contains(earlier[j]));
                }
            }
        }
    }
}

/// Whether `c` is white space.
pub fn is_white_space(c: char) -> (space: bool)
    ensures
        space == is_space(c),
{
    let u: u32 = c as u32;
    (0x09 <= u && u <= 0x0d) || u == 0x20 || u == 0x85 || u == 0xa0 || u == 0x1680 || (0x2000 <= u
        && u <= 0x200a) || u == 0x2028 || u == 0x2029 || u == 0x202f || u == 0x205f || u == 0x3000
}

/// The part of the text between its white space at either end, by the
/// places of its first character and behind its last.
fn trimmed_range(s: &str) -> (range: (usize, usize))
    ensures
        range.0 <= range.1 <= s@.len(),
        trimmed(s@) == s@.subrange(range.0 as int, range.1 as int),
{
    let n = s.unicode_len();
    let mut start: usize = 0;
    assert(s@.subrange(0, n as int) == s@);
    while start < n && is_white_space(s.get_char(start))
        invariant
            n == s@.len(),
            start <= n,
            trimmed_start(s@) == trimmed_start(s@.subrange(start as int, n as int)),
        decreases n - start,
    {
        proof {
            let rest = s@.subrange(start as int, n as int);
            assert(rest[0] == s@[start as int]);
            assert(rest.drop_first() == s@.subrange(start + 1, n as int));
        }
        start = start + 1;
    }
    proof {
        let rest = s@.subrange(start as int, n as int);
        if start < n {
            assert(rest[0] == s@[start as int]);
        }
        assert(trimmed_start(s@) == rest);
    }
    let mut end: usize = n;
    while end > start && is_white_space(s.get_char(end - 1))
        invariant
            n == s@.len(),
            start <= end <= n,
            trimmed(s@) == trimmed_end(s@.subrange(start as int, end as int)),
        decreases end - start,
    {
        proof {
            let rest = s@.subrange(start as int, end as int);
            assert(rest.last() == s@[end - 1]);
            assert(rest.drop_last() == s@.subrange(start as int, end - 1));
        }
        end = end - 1;
    }
    proof {
        let rest = s@.subrange(start as int, end as int);
        if end > start {
            assert(rest.last() == s@[end - 1]);
        }
    }
    (start, end)
}

/// Whether two identifiers name the same colour.
pub fn ids_match(a: &str, b: &str) -> (same: bool)
    ensures
        same == same_id(a@, b@),
{
    let (a0, a1) = trimmed_range(a);
    let (b0, b1) = trimmed_range(b);
    let ghost ta = a@.subrange(a0 as int, a1 as int);
    let ghost tb = b@.subrange(b0 as int, b1 as int);
    if a1 - a0 != b1 - b0 {
        assert(ta.len() != tb.len());
        return false;
    }
    let len = a1 - a0;
    let mut i: usize = 0;
    while i < len
        invariant
            i <= len,
            len == a1 - a0,
            len == b1 - b0,
            a0 <= a1 <= a@.len(),
            b0 <= b1 <= b@.len(),
            ta == a@.subrange(a0 as int, a1 as int),
            tb == b@.subrange(b0 as int, b1 as int),
            ta == trimmed(a@),
            tb == trimmed(b@),
            forall|k: int| 0 <= k < i ==> ta[k] == tb[k],
        decreases len - i,
    {
        if a.get_char(a0 + i) != b.get_char(b0 + i) {
            assert(ta[i as int] != tb[i as int]);
            return false;
        }
        i = i + 1;
    }
    assert(ta =~= tb);
    true
}

/// A copy of the colour.
pub fn copy_of(color: &DmcColorPrecomputed) -> (copy: DmcColorPrecomputed)
    ensures
        copy == *color,
{
    DmcColorPrecomputed {
        floss: color.floss.clone(),
        dmc_name: color.dmc_name.clone(),
        r: color.r,
        g: color.g,
        b: color.b,
        hex: color.hex.clone(),
        lab_l: color.lab_l,
        lab_a: color.lab_a,
        lab_b: color.lab_b,
        blended_r: color.blended_r,
        blended_g: color.blended_g,
        blended_b: color.blended_b,
    }
}

/// The place of the first of `all` that `id` names.
fn find_match(all: &Vec<DmcColorPrecomputed>, id: &str) -> (place: usize)
    ensures
        place == first_match(all@, id@),
{
    let mut k: usize = 0;
    assert(all@.skip(0) == all@);
    while k < all.len() && !ids_match(all[k].floss.as_str(), id)
        invariant
            k <= all@.len(),
            first_match(all@, id@) == k + first_match(all@.skip(k as int), id@),
        decreases all@.len() - k,
    {
        proof {
            assert(all@.skip(k as int).drop_first() == all@.skip(k + 1));
        }
        k = k + 1;
    }
    proof {
        if k < all@.len() {
            assert(all@.skip(k as int)[0] == all@[k as int]);
        }
    }
    k
}

/// The palette of a conversion: of the reference colours `all`, those that
/// `selected` names, in the order of the selection and each once. No two of
/// them have the same identifier.
pub fn select_palette(all: &Vec<DmcColorPrecomputed>, selected: &Vec<Color>) -> (palette: Vec<
    DmcColorPrecomputed,
>)
    ensures
        palette@ == Seq::new(
            selected_places(all@, selected@).len(),
            |i: int| all@[selected_places(all@, selected@)[i]],
        ),
        distinct_ids(palette@),
{
    let mut palette: Vec<DmcColorPrecomputed> = Vec::new();
    let mut places: Vec<usize> = Vec::new();
    let mut s: usize = 0;
    assert(selected@.take(0) == Seq::<Color>::empty());
    while s < selected.len()
        invariant
            s <= selected@.len(),
            places@.len() == palette@.len(),
            places@.len() == selected_places(all@, selected@.take(s as int)).len(),
            forall|i: int|
                0 <= i < places@.len() ==> (#[trigger] places@[i]) as int == selected_places(
                    all@,
                    selected@.take(s as int),
                )[i],
            forall|i: int|
                0 <= i < places@.len() ==> 0 <= places@[i] < all@.len() && #[trigger] palette@[i]
                    == all@[places@[i] as int],
        decreases selected@.len() - s,
    {
        let ghost earlier = selected_places(all@, selected@.take(s as int));
        proof {
            assert(selected@.take(s + 1).drop_last() == selected@.take(s as int));
            assert(selected@.take(s + 1).last() == selected@[s as int]);
            lemma_first_match(all@, selected@[s as int].floss_number@);
            lemma_selected_places(all@, selected@.take(s as int));
        }
        let place = find_match(all, selected[s].floss_number.as_str());
        if place < all.len() {
            let mut seen = false;
            let mut i: usize = 0;
            while i < places.len()
                invariant
                    i <= places@.len(),
                    seen <==> exists|k: int| 0 <= k < i && places@[k] == place,
                decreases places@.len() - i,
            {
                if places[i] == place {
                    seen = true;
                }
                i = i + 1;
            }
            proof {
                if seen {
                    let k = choose|k: int| 0 <= k < places@.len() && places@[k] == place;
                    assert(earlier[k] == place);
                } else if earlier.contains(place as int) {
                    let k = choose|k: int| 0 <= k < earlier.len() && earlier[k] == place as int;
                    assert(places@[k] == place);
                }
                assert(seen == earlier.contains(place as int));
            }
            if !seen {
                palette.push(copy_of(&all[place]));
                places.push(place);
            }
        }
        s = s + 1;
    }
    proof {
        assert(selected@.take(s as int) == selected@);
        let all_places = selected_places(all@, selected@);
        lemma_selected_places(all@, selected@);
        lemma_first_places_distinct(all@, all_places);
        assert(palette@ =~= Seq::new(all_places.len(), |i: int| all@[all_places[i]]));
    }
    palette
}

} // verus!
