//! The natural order of palette identifiers: numbers by value, before all
//! other identifiers, which go by their text.

use vstd::prelude::*;
use vstd::string::StrSliceExecFns;

verus! {

/// Whether `c` is one of `'0'..='9'`.
pub open spec fn is_digit(c: char) -> bool {
    '0' <= c <= '9'
}

/// Whether the identifier is a number: 1 to 18 decimal digits.
pub open spec fn is_number(s: Seq<char>) -> bool {
    &&& 1 <= s.len() <= 18
    &&& forall|i: int| 0 <= i < s.len() ==> is_digit(#[trigger] s[i])
}

/// The value of a text of decimal digits.
pub open spec fn number_of(s: Seq<char>) -> nat
    decreases s.len(),
{
    if s.len() == 0 {
        0
    } else {
        (number_of(s.drop_last()) * 10 + (s.last() as int - 48)) as nat
    }
}

/// Whether `a` comes before `b` in the order of a dictionary, characters
/// compared by code point.
pub open spec fn text_before(a: Seq<char>, b: Seq<char>) -> bool
    decreases a.len(),
{
    if b.len() == 0 {
        false
    } else if a.len() == 0 {
        true
    } else if a[0] != b[0] {
        a[0] < b[0]
    } else {
        text_before(a.drop_first(), b.drop_first())
    }
}

/// Whether identifier `a` comes before `b`: two numbers go by value (by text
/// where they are the same number, as "7" and "07"), a number goes before any
/// other identifier, and two others go by text.
pub open spec fn id_before(a: Seq<char>, b: Seq<char>) -> bool {
    if is_number(a) && is_number(b) {
        number_of(a) < number_of(b) || (number_of(a) == number_of(b) && text_before(a, b))
    } else if is_number(a) != is_number(b) {
        is_number(a)
    } else {
        text_before(a, b)
    }
}

/// No text comes before itself, and of two texts at most one comes before
/// the other.
pub proof fn lemma_text_before_asymmetric(a: Seq<char>, b: Seq<char>)
    ensures
        !(text_before(a, b) && text_before(b, a)),
    decreases a.len(),
{
    if a.len() > 0 && b.len() > 0 && a[0] == b[0] {
        lemma_text_before_asymmetric(a.drop_first(), b.drop_first());
    }
}

/// Of two different texts one comes before the other.
pub proof fn lemma_text_before_total(a: Seq<char>, b: Seq<char>)
    requires
        a != b,
    ensures
        text_before(a, b) || text_before(b, a),
    decreases a.len(),
{
    if a.len() > 0 && b.len() > 0 && a[0] == b[0] {
        let ra = a.drop_first();
        let rb = b.drop_first();
        if ra == rb {
            assert(a =~= seq![a[0]] + ra);
            assert(b =~= seq![b[0]] + rb);
        }
        lemma_text_before_total(ra, rb);
    } else if a.len() == 0 && b.len() == 0 {
        assert(a =~= b);
    }
}

/// What comes before a text that comes before a third comes before the third.
pub proof fn lemma_text_before_transitive(a: Seq<char>, b: Seq<char>, c: Seq<char>)
    requires
        text_before(a, b),
        text_before(b, c),
    ensures
        text_before(a, c),
    decreases a.len(),
{
    if a.len() > 0 && a[0] == b[0] && b[0] == c[0] {
        lemma_text_before_transitive(a.drop_first(), b.drop_first(), c.drop_first());
    }
}

/// Of two identifiers at most one comes before the other; none comes before
/// itself.
pub proof fn lemma_id_before_asymmetric(a: Seq<char>, b: Seq<char>)
    ensures
        !(id_before(a, b) && id_before(b, a)),
{
    lemma_text_before_asymmetric(a, b);
}

/// Of two different identifiers one comes before the other.
pub proof fn lemma_id_before_total(a: Seq<char>, b: Seq<char>)
    requires
        a != b,
    ensures
        id_before(a, b) || id_before(b, a),
{
    lemma_text_before_total(a, b);
}

/// The identifier order is transitive.
pub proof fn lemma_id_before_transitive(a: Seq<char>, b: Seq<char>, c: Seq<char>)
    requires
        id_before(a, b),
        id_before(b, c),
    ensures
        id_before(a, c),
{
    if text_before(a, b) && text_before(b, c) {
        lemma_text_before_transitive(a, b, c);
    }
}

/// The value of the identifier where it is a number.
pub fn number_value(s: &str) -> (value: Option<u64>)
    ensures
        value is Some <==> is_number(s@),
        value matches Some(v) ==> v == number_of(s@),
{
    let n = s.unicode_len();
    if n == 0 || n > 18 {
        return None;
    }
    let mut value: u64 = 0;
    let mut i: usize = 0;
    while i < n
        invariant
            n == s@.len(),
            n <= 18,
            i <= n,
            forall|k: int| 0 <= k < i ==> is_digit(#[trigger] s@[k]),
            value == number_of(s@.take(i as int)),
            value < pow10(i as nat),
        decreases n - i,
    {
        let c = s.get_char(i);
        if c < '0' || c > '9' {
            return None;
        }
        let digit: u64 = (c as u32 - 48) as u64;
        proof {
            let next = s@.take(i + 1);
            assert(next.drop_last() == s@.take(i as int));
            assert(next.last() == c);
            lemma_pow10_bound((i + 1) as nat);
        }
        value = value * 10 + digit;
        i = i + 1;
    }
    proof {
        assert(s@.take(n as int) == s@);
    }
    Some(value)
}

/// Ten to the power `e`.
pub open spec fn pow10(e: nat) -> nat
    decreases e,
{
    if e == 0 {
        1
    } else {
        10 * pow10((e - 1) as nat)
    }
}

/// Powers of ten up to the eighteenth fit in 64 bits.
proof fn lemma_pow10_bound(e: nat)
    requires
        e <= 18,
    ensures
        pow10(e) <= 1_000_000_000_000_000_000,
{
    reveal_with_fuel(pow10, 19);
}

/// Whether `a` comes before `b` in the order of a dictionary.
pub fn text_precedes(a: &str, b: &str) -> (before: bool)
    ensures
        before == text_before(a@, b@),
{
    let na = a.unicode_len();
    let nb = b.unicode_len();
    let mut i: usize = 0;
    assert(a@.subrange(0, na as int) == a@);
    assert(b@.subrange(0, nb as int) == b@);
    while i < na && i < nb
        invariant
            na == a@.len(),
            nb == b@.len(),
            i <= na,
            i <= nb,
            text_before(a@, b@) == text_before(
                a@.subrange(i as int, na as int),
                b@.subrange(i as int, nb as int),
            ),
        decreases na - i,
    {
        let ca = a.get_char(i);
        let cb = b.get_char(i);
        let ghost ra = a@.subrange(i as int, na as int);
        let ghost rb = b@.subrange(i as int, nb as int);
        proof {
            assert(ra[0] == ca && rb[0] == cb);
            assert(ra.drop_first() == a@.subrange(i + 1, na as int));
            assert(rb.drop_first() == b@.subrange(i + 1, nb as int));
        }
        if ca != cb {
            return ca < cb;
        }
        i = i + 1;
    }
    i < nb
}

/// Whether identifier `a` comes before identifier `b`.
pub fn id_precedes(a: &str, b: &str) -> (before: bool)
    ensures
        before == id_before(a@, b@),
{
    let va = number_value(a);
    let vb = number_value(b);
    match (va, vb) {
        (Some(x), Some(y)) => x < y || (x == y && text_precedes(a, b)),
        (Some(_), None) => true,
        (None, Some(_)) => false,
        (None, None) => text_precedes(a, b),
    }
}

} // verus!
