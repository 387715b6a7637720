//! Case-insensitive comparison of names.
//!
//! Two names are compared by folding each to lower case and comparing the
//! folded texts character by character.

use vstd::prelude::*;
use vstd::std_specs::iter::IteratorSpec;

verus! {

/// The lower-case form of `text`, as `str::to_lowercase` computes it.
pub uninterp spec fn lowercase(text: Seq<char>) -> Seq<char>;

/// `str::to_lowercase`: the result is the lower-case form of the argument,
/// by Unicode's lower-case mapping. It depends on the argument alone.
#[verifier::external_body]
pub(crate) fn to_lowercase(text: &str) -> (folded: String)
    ensures
        folded@ == lowercase(text@),
{
    text.to_lowercase()
}

/// `a` and `b` have the same first `n` characters.
pub open spec fn agree_before(a: Seq<char>, b: Seq<char>, n: int) -> bool {
    &&& 0 <= n <= a.len()
    &&& n <= b.len()
    &&& forall|i: int| 0 <= i < n ==> a[i] == b[i]
}

/// `a` comes strictly before `b` in lexicographic order by code point: at
/// the first place where they differ, `a` has ended or holds the smaller
/// character.
pub open spec fn text_lt(a: Seq<char>, b: Seq<char>) -> bool {
    exists|n: int| #[trigger]
        agree_before(a, b, n) && n < b.len() && (n == a.len() || a[n] < b[n])
}

/// `a` comes before `b` or equals it.
pub open spec fn text_le(a: Seq<char>, b: Seq<char>) -> bool {
    !text_lt(b, a)
}

/// No text comes before itself.
pub proof fn lemma_text_lt_irreflexive(a: Seq<char>)
    ensures
        !text_lt(a, a),
{
}

/// The order is transitive.
pub proof fn lemma_text_lt_transitive(a: Seq<char>, b: Seq<char>, c: Seq<char>)
    requires
        text_lt(a, b),
        text_lt(b, c),
    ensures
        text_lt(a, c),
{
    let i = choose|n: int| #[trigger]
        agree_before(a, b, n) && n < b.len() && (n == a.len() || a[n] < b[n]);
    let j = choose|n: int| #[trigger]
        agree_before(b, c, n) && n < c.len() && (n == b.len() || b[n] < c[n]);
    let m = if i <= j { i } else { j };
    assert(agree_before(a, c, m));
}

/// Of two texts, one comes before the other, or they are equal.
pub proof fn lemma_text_lt_total(a: Seq<char>, b: Seq<char>)
    ensures
        text_lt(a, b) || a == b || text_lt(b, a),
{
    lemma_decided_after(a, b, 0);
}

/// Two texts that agree on their first `n` characters are equal, or differ
/// at some later place, which decides their order.
proof fn lemma_decided_after(a: Seq<char>, b: Seq<char>, n: int)
    requires
        agree_before(a, b, n),
    ensures
        text_lt(a, b) || a == b || text_lt(b, a),
    decreases a.len() - n,
{
    if n == a.len() && n == b.len() {
        assert(a =~= b);
    } else if n == a.len() || n == b.len() || a[n] != b[n] {
        assert(agree_before(b, a, n));
    } else {
        assert(agree_before(a, b, n + 1));
        lemma_decided_after(a, b, n + 1);
    }
}

/// Whether `a` comes strictly before `b` in lexicographic order by code
/// point.
pub fn text_precedes(a: &str, b: &str) -> (r: bool)
    ensures
        r == text_lt(a@, b@),
{
    let mut left = a.chars();
    let mut right = b.chars();
    let ghost mut n: int = 0;
    loop
        invariant
            agree_before(a@, b@, n),
            left.remaining() == a@.skip(n),
            right.remaining() == b@.skip(n),
        decreases a@.len() - n,
    {
        let x = left.next();
        let y = right.next();
        match (x, y) {
            (_, None) => {
                return false;
            },
            (None, Some(_)) => {
                return true;
            },
            (Some(c), Some(d)) => {
                if c != d {
                    return c < d;
                }
            },
        }
        proof {
            n = n + 1;
        }
    }
}

} // verus!
