//! The order in which paths are listed: component by component, each
//! component compared character by character, a proper prefix first.

use vstd::prelude::*;

verus! {

/// Whether `a` comes strictly before `b`, comparing characters in turn and
/// putting a proper prefix first.
pub open spec fn chars_lt(a: Seq<char>, b: Seq<char>) -> bool
    decreases a.len(),
{
    if a.len() == 0 {
        b.len() > 0
    } else if b.len() == 0 {
        false
    } else if a[0] != b[0] {
        a[0] < b[0]
    } else {
        chars_lt(a.drop_first(), b.drop_first())
    }
}

/// Whether path `a` comes strictly before path `b`, comparing components in
/// turn with [`chars_lt`] and putting a proper prefix first.
pub open spec fn components_lt(a: Seq<Seq<char>>, b: Seq<Seq<char>>) -> bool
    decreases a.len(),
{
    if a.len() == 0 {
        b.len() > 0
    } else if b.len() == 0 {
        false
    } else if a[0] != b[0] {
        chars_lt(a[0], b[0])
    } else {
        components_lt(a.drop_first(), b.drop_first())
    }
}

/// Whether path `a` comes no later than path `b`.
pub open spec fn components_le(a: Seq<Seq<char>>, b: Seq<Seq<char>>) -> bool {
    a == b || components_lt(a, b)
}

/// Characters are ordered: exactly one of `a < b`, `a == b`, `b < a`.
pub proof fn lemma_chars_trichotomy(a: Seq<char>, b: Seq<char>)
    ensures
        !(chars_lt(a, b) && chars_lt(b, a)),
        chars_lt(a, b) ==> a != b,
        a != b ==> chars_lt(a, b) || chars_lt(b, a),
    decreases a.len(),
{
    if a.len() > 0 && b.len() > 0 && a[0] == b[0] {
        lemma_chars_trichotomy(a.drop_first(), b.drop_first());
        if a.drop_first() == b.drop_first() {
            assert(a =~= seq![a[0]] + a.drop_first());
            assert(b =~= seq![b[0]] + b.drop_first());
        }
    } else if a.len() == 0 && b.len() == 0 {
        assert(a =~= b);
    }
}

/// [`chars_lt`] is transitive.
pub proof fn lemma_chars_transitive(a: Seq<char>, b: Seq<char>, c: Seq<char>)
    requires
        chars_lt(a, b),
        chars_lt(b, c),
    ensures
        chars_lt(a, c),
    decreases a.len(),
{
    if a.len() > 0 && b.len() > 0 && c.len() > 0 && a[0] == b[0] && b[0] == c[0] {
        lemma_chars_transitive(a.drop_first(), b.drop_first(), c.drop_first());
    }
}

/// Paths are ordered: exactly one of `a < b`, `a == b`, `b < a`.
pub proof fn lemma_components_trichotomy(a: Seq<Seq<char>>, b: Seq<Seq<char>>)
    ensures
        !(components_lt(a, b) && components_lt(b, a)),
        components_lt(a, b) ==> a != b,
        a != b ==> components_lt(a, b) || components_lt(b, a),
    decreases a.len(),
{
    if a.len() > 0 && b.len() > 0 {
        if a[0] == b[0] {
            lemma_components_trichotomy(a.drop_first(), b.drop_first());
            if a.drop_first() == b.drop_first() {
                assert(a =~= seq![a[0]] + a.drop_first());
                assert(b =~= seq![b[0]] + b.drop_first());
            }
        } else {
            lemma_chars_trichotomy(a[0], b[0]);
        }
    } else if a.len() == 0 && b.len() == 0 {
        assert(a =~= b);
    }
}

/// [`components_lt`] is transitive.
pub proof fn lemma_components_transitive(a: Seq<Seq<char>>, b: Seq<Seq<char>>, c: Seq<Seq<char>>)
    requires
        components_lt(a, b),
        components_lt(b, c),
    ensures
        components_lt(a, c),
    decreases a.len(),
{
    if a.len() > 0 && b.len() > 0 && c.len() > 0 {
        if a[0] == b[0] && b[0] == c[0] {
            lemma_components_transitive(a.drop_first(), b.drop_first(), c.drop_first());
        } else if a[0] == b[0] {
        } else if b[0] == c[0] {
        } else {
            lemma_chars_transitive(a[0], b[0], c[0]);
            lemma_chars_trichotomy(a[0], c[0]);
        }
    }
}

/// Compares two strings character by character.
pub fn string_lt(a: &String, b: &String) -> (res: bool)
    ensures
        res == chars_lt(a@, b@),
{
    let n = a.as_str().unicode_len();
    let m = b.as_str().unicode_len();
    let mut i: usize = 0;
    assert(a@.skip(0) =~= a@);
    assert(b@.skip(0) =~= b@);
    while i < n && i < m
        invariant
            i <= n,
            i <= m,
            n == a@.len(),
            m == b@.len(),
            chars_lt(a@, b@) == chars_lt(a@.skip(i as int), b@.skip(i as int)),
        decreases n - i,
    {
        let x = a.as_str().get_char(i);
        let y = b.as_str().get_char(i);
        assert(a@.skip(i as int)[0] == x);
        assert(b@.skip(i as int)[0] == y);
        if x != y {
            return x < y;
        }
        assert(a@.skip(i as int).drop_first() =~= a@.skip(i + 1));
        assert(b@.skip(i as int).drop_first() =~= b@.skip(i + 1));
        i = i + 1;
    }
    i < m && i == n
}

} // verus!

verus! {

/// The listing order as a relation.
pub open spec fn listing_le() -> spec_fn(Seq<Seq<char>>, Seq<Seq<char>>) -> bool {
    |a: Seq<Seq<char>>, b: Seq<Seq<char>>| components_le(a, b)
}

/// Paths listed in order: the one sorted arrangement of `paths`.
pub open spec fn listing(paths: Seq<Seq<Seq<char>>>) -> Seq<Seq<Seq<char>>> {
    paths.sort_by(listing_le())
}

/// The listing order is a total order.
pub proof fn lemma_listing_total()
    ensures
        vstd::relations::total_ordering(listing_le()),
{
    let r = listing_le();
    assert forall|x: Seq<Seq<char>>, y: Seq<Seq<char>>| #[trigger] r(x, y) && #[trigger] r(y, x) implies x
        == y by {
        lemma_components_trichotomy(x, y);
    }
    assert forall|x: Seq<Seq<char>>, y: Seq<Seq<char>>, z: Seq<Seq<char>>| #[trigger] r(x, y) && #[trigger] r(
        y,
        z,
    ) implies r(x, z) by {
        if x != y && y != z {
            lemma_components_transitive(x, y, z);
        }
    }
    assert forall|x: Seq<Seq<char>>, y: Seq<Seq<char>>| #[trigger] r(x, y) || #[trigger] r(y, x) by {
        lemma_components_trichotomy(x, y);
    }
}

/// A sorted arrangement of `paths` is its listing.
pub proof fn lemma_listing_unique(sorted: Seq<Seq<Seq<char>>>, paths: Seq<Seq<Seq<char>>>)
    requires
        vstd::relations::sorted_by(sorted, listing_le()),
        sorted.to_multiset() == paths.to_multiset(),
    ensures
        sorted == listing(paths),
{
    lemma_listing_total();
    paths.lemma_sort_by_ensures(listing_le());
    vstd::seq_lib::lemma_sorted_unique(sorted, listing(paths), listing_le());
}

} // verus!
