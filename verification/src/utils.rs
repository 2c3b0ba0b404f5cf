//! Legend labels in bijective base 26 and hex colour shorthand.

use vstd::prelude::*;
use vstd::string::{StrSliceExecFns, StringExecFns, StringSliceAdditionalSpecFns};
use vstd::utf8::encode_utf8;

verus! {

/// The letter for a digit `d` in `0..26`: `'A'` for 0 up to `'Z'` for 25.
pub open spec fn letter(d: int) -> char {
    (65 + d) as char
}

/// The label of a rank in bijective base 26 (spreadsheet column naming):
/// 1 is "A", 26 is "Z", 27 is "AA". Rank 0 has the empty label.
pub open spec fn label_of(n: nat) -> Seq<char>
    decreases n,
{
    if n == 0 {
        Seq::empty()
    } else {
        label_of(((n - 1) / 26) as nat).push(letter((n - 1) % 26))
    }
}

/// Whether every character of `s` is one of `'A'..='Z'`.
pub open spec fn is_label(s: Seq<char>) -> bool {
    forall|i: int| 0 <= i < s.len() ==> 'A' <= #[trigger] s[i] <= 'Z'
}

/// The rank that a label stands for; the inverse of `label_of` on labels.
pub open spec fn rank_of(s: Seq<char>) -> nat
    decreases s.len(),
{
    if s.len() == 0 {
        0
    } else {
        (rank_of(s.drop_last()) * 26 + (s.last() as int - 65) + 1) as nat
    }
}

/// The largest rank whose label has at most `len` letters: 0, 26, 702, 18278, ...
pub open spec fn last_rank_of_len(len: nat) -> nat
    decreases len,
{
    if len == 0 {
        0
    } else {
        26 * (last_rank_of_len((len - 1) as nat) + 1)
    }
}

/// Every label is made of the letters `'A'..='Z'`.
pub proof fn lemma_label_is_label(n: nat)
    ensures
        is_label(label_of(n)),
    decreases n,
{
    if n > 0 {
        lemma_label_is_label(((n - 1) / 26) as nat);
    }
}

/// Labelling loses nothing: the rank can be read back from its label, so two
/// ranks with one label are the same rank.
pub proof fn lemma_rank_of_label(n: nat)
    ensures
        rank_of(label_of(n)) == n,
    decreases n,
{
    if n > 0 {
        let q = ((n - 1) / 26) as nat;
        let r = (n - 1) % 26;
        lemma_rank_of_label(q);
        let s = label_of(n);
        assert(s.drop_last() == label_of(q));
        assert(s.last() == letter(r));
        assert(letter(r) as int - 65 == r);
    }
}

/// Every text of the letters `'A'..='Z'` is the label of a rank, the one that
/// `rank_of` gives.
pub proof fn lemma_label_of_rank(s: Seq<char>)
    requires
        is_label(s),
    ensures
        label_of(rank_of(s)) == s,
    decreases s.len(),
{
    if s.len() > 0 {
        let front = s.drop_last();
        let d = s.last() as int - 65;
        assert(0 <= d < 26);
        assert(is_label(front)) by {
            assert forall|i: int| 0 <= i < front.len() implies 'A' <= #[trigger] front[i]
                <= 'Z' by {
                assert(front[i] == s[i]);
            }
        }
        lemma_label_of_rank(front);
        let m = rank_of(s);
        assert(m - 1 == rank_of(front) * 26 + d);
        vstd::arithmetic::div_mod::lemma_fundamental_div_mod_converse(
            m - 1,
            26,
            rank_of(front) as int,
            d,
        );
        assert(letter(d) == s.last());
        assert(front.push(s.last()) == s);
    }
}

/// Two ranks have the same label only where they are the same rank.
pub proof fn lemma_label_injective(a: nat, b: nat)
    requires
        label_of(a) == label_of(b),
    ensures
        a == b,
{
    lemma_rank_of_label(a);
    lemma_rank_of_label(b);
}

/// A label has at most `len` letters exactly up to rank `last_rank_of_len(len)`:
/// the length grows by one each time the rank passes 26, 702, 18278, ...
pub proof fn lemma_label_len(n: nat, len: nat)
    ensures
        label_of(n).len() <= len <==> n <= last_rank_of_len(len),
    decreases n,
{
    if n > 0 && len > 0 {
        let q = ((n - 1) / 26) as nat;
        let bound = last_rank_of_len((len - 1) as nat);
        lemma_label_len(q, (len - 1) as nat);
        assert(label_of(n).len() == label_of(q).len() + 1);
        assert(q <= bound <==> n <= 26 * (bound + 1));
    }
}

/// Labels never get shorter as the rank grows.
pub proof fn lemma_label_len_monotonic(a: nat, b: nat)
    requires
        a <= b,
    ensures
        label_of(a).len() <= label_of(b).len(),
{
    lemma_label_len(b, label_of(b).len());
    lemma_label_len(a, label_of(b).len());
}

/// `String::insert` at position 0 puts the character in front of the text.
pub assume_specification[ String::insert ](s: &mut String, idx: usize, ch: char)
    requires
        idx == 0,
    ensures
        final(s)@ == seq![ch] + old(s)@,
;

/// `String::push` puts the character at the end of the text.
pub assume_specification[ String::push ](s: &mut String, ch: char)
    ensures
        final(s)@ == old(s)@.push(ch),
;

/// The legend label of rank `num`.
pub fn to_excel_column(num: usize) -> (result: String)
    ensures
        result@ == label_of(num as nat),
{
    let mut result = String::new();
    let mut n: usize = num;
    // `result` holds the letters of the low digits already taken off `num`.
    while n > 0
        invariant
            label_of(num as nat) == label_of(n as nat) + result@,
        decreases n,
    {
        let remainder: usize = (n - 1) % 26;
        let c: char = (65u8 + remainder as u8) as char;
        proof {
            let rest = label_of(((n - 1) / 26) as nat);
            assert(c == letter(((n - 1) % 26) as int));
            assert(rest.push(c) + result@ == rest + (seq![c] + result@));
        }
        result.insert(0, c);
        n = (n - 1) / 26;
    }
    proof {
        assert(label_of(0) + result@ == result@);
    }
    result
}

/// The text without the `'#'` characters that it starts with.
pub open spec fn without_leading_hashes(s: Seq<char>) -> Seq<char>
    decreases s.len(),
{
    if s.len() > 0 && s[0] == '#' {
        without_leading_hashes(s.drop_first())
    } else {
        s
    }
}

/// The text with each character written twice.
pub open spec fn doubled(s: Seq<char>) -> Seq<char> {
    Seq::new(2 * s.len(), |i: int| s[i / 2])
}

/// The long form of a hex colour: leading `'#'` characters go, and where
/// three bytes of text are left (the shorthand `rgb`), each character is
/// doubled (`rrggbb`); any other text stays as it is.
pub open spec fn expanded_hex(s: Seq<char>) -> Seq<char> {
    let digits = without_leading_hashes(s);
    if encode_utf8(digits).len() == 3 {
        doubled(digits)
    } else {
        digits
    }
}

/// Expands a shorthand hex colour such as `#fa0` to `ffaa00`.
pub fn expand_shorthand_hex(hex: &str) -> (result: String)
    ensures
        result@ == expanded_hex(hex@),
{
    let n = hex.unicode_len();
    let mut start: usize = 0;
    assert(hex@.subrange(0, n as int) == hex@);
    while start < n && hex.get_char(start) == '#'
        invariant
            n == hex@.len(),
            start <= n,
            without_leading_hashes(hex@) == without_leading_hashes(
                hex@.subrange(start as int, n as int),
            ),
        decreases n - start,
    {
        proof {
            let rest = hex@.subrange(start as int, n as int);
            assert(rest[0] == '#');
            assert(rest.drop_first() == hex@.subrange(start + 1, n as int));
        }
        start = start + 1;
    }
    let digits = hex.substring_char(start, n);
    proof {
        if start < n {
            assert(digits@[0] == hex@[start as int]);
        }
        assert(without_leading_hashes(digits@) == digits@);
    }
    if digits.as_bytes().len() == 3 {
        let m = digits.unicode_len();
        let mut expanded = String::new();
        let mut i: usize = 0;
        while i < m
            invariant
                m == digits@.len(),
                i <= m,
                expanded@ == doubled(digits@.take(i as int)),
            decreases m - i,
        {
            let c = digits.get_char(i);
            let ghost before = expanded@;
            expanded.push(c);
            expanded.push(c);
            proof {
                let seen = digits@.take(i as int);
                let next = digits@.take(i + 1);
                assert(expanded@ == before.push(c).push(c));
                assert forall|k: int| 0 <= k < 2 * (i + 1) implies expanded@[k] == next[k / 2] by {
                    if k < 2 * i {
                        assert(before[k] == seen[k / 2]);
                    }
                }
                assert(expanded@ =~= doubled(next));
            }
            i = i + 1;
        }
        proof {
            assert(digits@.take(m as int) == digits@);
        }
        expanded
    } else {
        String::from_str(digits)
    }
}

} // verus!
