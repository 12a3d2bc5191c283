//! Lexicographic order on character sequences.
//!
//! The store keeps its rows ordered by their timestamp strings. Timestamps are
//! written as RFC 3339 UTC text of a fixed shape, so the lexicographic order
//! of the text agrees with the order of the instants; the store's contracts
//! are stated over this order.

use vstd::prelude::*;
use vstd::string::StrSliceExecFns;

verus! {

/// `a` is lexicographically at most `b`, comparing characters by code point.
pub open spec fn lex_le(a: Seq<char>, b: Seq<char>) -> bool
    decreases a.len(),
{
    if a.len() == 0 {
        true
    } else if b.len() == 0 {
        false
    } else if (a[0] as int) < (b[0] as int) {
        true
    } else if (a[0] as int) > (b[0] as int) {
        false
    } else {
        lex_le(a.drop_first(), b.drop_first())
    }
}

/// The order is total: any two sequences compare one way or the other.
pub proof fn lemma_lex_total(a: Seq<char>, b: Seq<char>)
    ensures
        lex_le(a, b) || lex_le(b, a),
    decreases a.len(),
{
    if a.len() == 0 || b.len() == 0 {
    } else if (a[0] as int) == (b[0] as int) {
        lemma_lex_total(a.drop_first(), b.drop_first());
    }
}

/// The order is reflexive: every sequence compares at most itself.
pub proof fn lemma_lex_refl(a: Seq<char>)
    ensures
        lex_le(a, a),
    decreases a.len(),
{
    if a.len() > 0 {
        lemma_lex_refl(a.drop_first());
    }
}

/// The order is antisymmetric: sequences that compare at most each other are
/// the same sequence.
pub proof fn lemma_lex_antisym(a: Seq<char>, b: Seq<char>)
    requires
        lex_le(a, b),
        lex_le(b, a),
    ensures
        a == b,
    decreases a.len(),
{
    if a.len() == 0 {
        assert(b.len() == 0);
        assert(a =~= b);
    } else {
        assert(b.len() > 0);
        assert((a[0] as int) == (b[0] as int));
        lemma_lex_antisym(a.drop_first(), b.drop_first());
        assert forall|i: int| 0 <= i < a.len() implies a[i] == b[i] by {
            if i > 0 {
                assert(a[i] == a.drop_first()[i - 1]);
                assert(b[i] == b.drop_first()[i - 1]);
            }
        }
        assert(a =~= b);
    }
}

/// The order is transitive.
pub proof fn lemma_lex_trans(a: Seq<char>, b: Seq<char>, c: Seq<char>)
    requires
        lex_le(a, b),
        lex_le(b, c),
    ensures
        lex_le(a, c),
    decreases a.len(),
{
    if a.len() == 0 {
    } else if b.len() == 0 {
    } else if c.len() == 0 {
    } else {
        if (a[0] as int) == (b[0] as int) && (b[0] as int) == (c[0] as int) {
            lemma_lex_trans(a.drop_first(), b.drop_first(), c.drop_first());
        }
    }
}

/// Sequences that agree on their first `i` characters compare the same way
/// as their remainders.
proof fn lemma_lex_skip(a: Seq<char>, b: Seq<char>, i: int)
    requires
        0 <= i <= a.len(),
        i <= b.len(),
        forall|j: int| 0 <= j < i ==> a[j] == b[j],
    ensures
        lex_le(a, b) == lex_le(a.skip(i), b.skip(i)),
    decreases i,
{
    if i > 0 {
        assert(a.len() > 0 && b.len() > 0);
        assert(a[0] == b[0]);
        assert(a.drop_first().skip(i - 1) =~= a.skip(i));
        assert(b.drop_first().skip(i - 1) =~= b.skip(i));
        assert(forall|j: int| 0 <= j < i - 1 ==> a.drop_first()[j] == b.drop_first()[j]);
        lemma_lex_skip(a.drop_first(), b.drop_first(), i - 1);
    } else {
        assert(a.skip(0) =~= a);
        assert(b.skip(0) =~= b);
    }
}

/// The keys are in descending lexicographic order: every later key is at
/// most every earlier one.
pub open spec fn sorted_desc(keys: Seq<Seq<char>>) -> bool {
    forall|i: int, j: int|
        0 <= i < j < keys.len() ==> lex_le(#[trigger] keys[j], #[trigger] keys[i])
}

/// Inserting `key` at a position `k` that the two bounds describe keeps the
/// keys in descending order.
pub proof fn lemma_sorted_desc_insert(keys: Seq<Seq<char>>, key: Seq<char>, k: int)
    requires
        sorted_desc(keys),
        0 <= k <= keys.len(),
        forall|j: int| 0 <= j < k ==> !lex_le(#[trigger] keys[j], key),
        k < keys.len() ==> lex_le(keys[k], key),
    ensures
        sorted_desc(keys.insert(k, key)),
{
    keys.insert_ensures(k, key);
    let t = keys.insert(k, key);
    assert forall|i: int, j: int| 0 <= i < j < t.len() implies lex_le(#[trigger] t[j], #[trigger] t[i]) by {
        if j < k {
            assert(t[i] == keys[i] && t[j] == keys[j]);
        } else if i < k && j == k {
            lemma_lex_total(keys[i], key);
            assert(t[i] == keys[i] && t[j] == key);
        } else if i < k && j > k {
            assert(t[i] == keys[i] && t[j] == keys[j - 1]);
        } else if i == k {
            assert(t[i] == key && t[j] == keys[j - 1]);
            if j - 1 > k {
                lemma_lex_trans(keys[j - 1], keys[k], key);
            }
        } else {
            assert(t[i] == keys[i - 1] && t[j] == keys[j - 1]);
        }
    }
}

/// Removing a key keeps the rest in descending order.
pub proof fn lemma_sorted_desc_remove(keys: Seq<Seq<char>>, k: int)
    requires
        sorted_desc(keys),
        0 <= k < keys.len(),
    ensures
        sorted_desc(keys.remove(k)),
{
    keys.remove_ensures(k);
    let t = keys.remove(k);
    assert forall|i: int, j: int| 0 <= i < j < t.len() implies lex_le(#[trigger] t[j], #[trigger] t[i]) by {
        let i0: int = if i < k { i } else { i + 1 };
        let j0: int = if j < k { j } else { j + 1 };
        assert(t[i] == keys[i0] && t[j] == keys[j0]);
    }
}

/// Decides `lex_le` on string slices.
pub fn str_le(a: &str, b: &str) -> (r: bool)
    ensures
        r == lex_le(a@, b@),
{
    let la: usize = a.unicode_len();
    let lb: usize = b.unicode_len();
    let mut i: usize = 0;
    loop
        invariant
            0 <= i <= la,
            i <= lb,
            la == a@.len(),
            lb == b@.len(),
            forall|j: int| 0 <= j < i ==> a@[j] == b@[j],
        ensures
            lex_le(a@, b@) == lex_le(a@.skip(i as int), b@.skip(i as int)),
            i <= la,
            i <= lb,
            i == la || i == lb || (a@[i as int] as int) != (b@[i as int] as int),
        decreases la - i,
    {
        if i == la || i == lb {
            proof {
                lemma_lex_skip(a@, b@, i as int);
            }
            break;
        }
        let ca = a.get_char(i);
        let cb = b.get_char(i);
        if ca != cb {
            proof {
                lemma_lex_skip(a@, b@, i as int);
            }
            break;
        }
        i = i + 1;
    }
    if i == la {
        proof {
            assert(a@.skip(i as int).len() == 0);
        }
        true
    } else if i == lb {
        proof {
            assert(b@.skip(i as int).len() == 0);
            assert(a@.skip(i as int).len() > 0);
        }
        false
    } else {
        let ca = a.get_char(i);
        let cb = b.get_char(i);
        proof {
            assert(a@.skip(i as int)[0] == a@[i as int]);
            assert(b@.skip(i as int)[0] == b@[i as int]);
        }
        (ca as u32) < (cb as u32)
    }
}

/// Decides view equality of string slices.
pub fn str_eq(a: &str, b: &str) -> (r: bool)
    ensures
        r == (a@ == b@),
{
    let la: usize = a.unicode_len();
    let lb: usize = b.unicode_len();
    if la != lb {
        return false;
    }
    let mut i: usize = 0;
    while i < la
        invariant
            0 <= i <= la,
            la == a@.len(),
            la == b@.len(),
            forall|j: int| 0 <= j < i ==> a@[j] == b@[j],
        decreases la - i,
    {
        let ca = a.get_char(i);
        let cb = b.get_char(i);
        if ca != cb {
            return false;
        }
        i = i + 1;
    }
    proof {
        assert(a@ =~= b@);
    }
    true
}

} // verus!
