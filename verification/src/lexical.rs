//! Lexicographic order on sequences, over any strict total order of the items.

use vstd::prelude::*;

verus! {

/// `a` and `b` agree before `i`, and at `i` either `a` has ended or its item comes first.
pub open spec fn breaks_at<T>(
    a: Seq<T>,
    b: Seq<T>,
    before: spec_fn(T, T) -> bool,
    i: int,
) -> bool {
    &&& 0 <= i < b.len()
    &&& i <= a.len()
    &&& forall|j: int| 0 <= j < i ==> a[j] == b[j]
    &&& i == a.len() || before(a[i], b[i])
}

/// Dictionary order: at the first place where they differ, `a` has ended or has the earlier item.
pub open spec fn comes_before<T>(a: Seq<T>, b: Seq<T>, before: spec_fn(T, T) -> bool) -> bool {
    exists|i: int| #[trigger] breaks_at(a, b, before, i)
}

/// `before` is a strict total order.
pub open spec fn strict_total_order<T>(before: spec_fn(T, T) -> bool) -> bool {
    &&& forall|x: T| !#[trigger] before(x, x)
    &&& forall|x: T, y: T, z: T| #[trigger] before(x, y) && #[trigger] before(y, z) ==> before(x, z)
    &&& forall|x: T, y: T| #[trigger] before(x, y) || x == y || before(y, x)
}

/// Nothing comes before itself.
pub proof fn irreflexive<T>(a: Seq<T>, before: spec_fn(T, T) -> bool)
    requires
        strict_total_order(before),
    ensures
        !comes_before(a, a, before),
{
}

/// Dictionary order is transitive.
pub proof fn transitive<T>(a: Seq<T>, b: Seq<T>, c: Seq<T>, before: spec_fn(T, T) -> bool)
    requires
        strict_total_order(before),
        comes_before(a, b, before),
        comes_before(b, c, before),
    ensures
        comes_before(a, c, before),
{
    let i = choose|i: int| breaks_at(a, b, before, i);
    let j = choose|j: int| breaks_at(b, c, before, j);
    let k = if i < j {
        i
    } else {
        j
    };
    assert(breaks_at(a, c, before, k));
}

/// Of two sequences that differ, one comes first.
pub proof fn total<T>(a: Seq<T>, b: Seq<T>, before: spec_fn(T, T) -> bool)
    requires
        strict_total_order(before),
    ensures
        comes_before(a, b, before) || a == b || comes_before(b, a, before),
{
    total_from(a, b, before, 0);
}

proof fn total_from<T>(a: Seq<T>, b: Seq<T>, before: spec_fn(T, T) -> bool, i: int)
    requires
        strict_total_order(before),
        0 <= i <= a.len(),
        i <= b.len(),
        forall|j: int| 0 <= j < i ==> a[j] == b[j],
    ensures
        comes_before(a, b, before) || a == b || comes_before(b, a, before),
    decreases a.len() - i,
{
    if i == a.len() && i == b.len() {
        assert(a =~= b);
    } else if i == a.len() {
        assert(breaks_at(a, b, before, i));
    } else if i == b.len() {
        assert(breaks_at(b, a, before, i));
    } else if a[i] == b[i] {
        total_from(a, b, before, i + 1);
    } else if before(a[i], b[i]) {
        assert(breaks_at(a, b, before, i));
    } else {
        assert(before(b[i], a[i]));
        assert(breaks_at(b, a, before, i));
    }
}

/// Two sequences never come before each other.
pub proof fn asymmetric<T>(a: Seq<T>, b: Seq<T>, before: spec_fn(T, T) -> bool)
    requires
        strict_total_order(before),
        comes_before(a, b, before),
    ensures
        !comes_before(b, a, before),
        a != b,
{
    if comes_before(b, a, before) {
        transitive(a, b, a, before);
        irreflexive(a, before);
    }
    irreflexive(a, before);
}

/// A sequence comes before every longer one that starts with it.
pub proof fn prefix_comes_first<T>(a: Seq<T>, rest: Seq<T>, before: spec_fn(T, T) -> bool)
    requires
        rest.len() > 0,
    ensures
        comes_before(a, a + rest, before),
{
    assert(breaks_at(a, a + rest, before, a.len() as int));
}

/// After the same beginning, the first items that differ decide, whatever comes after them.
pub proof fn first_difference_decides<T>(
    start: Seq<T>,
    x: T,
    a: Seq<T>,
    y: T,
    b: Seq<T>,
    before: spec_fn(T, T) -> bool,
)
    requires
        before(x, y),
    ensures
        comes_before(start.push(x) + a, start.push(y) + b, before),
{
    let first = start.push(x) + a;
    let second = start.push(y) + b;
    let i = start.len() as int;
    assert(first[i] == x && second[i] == y);
    assert forall|j: int| 0 <= j < i implies first[j] == second[j] by {}
    assert(breaks_at(first, second, before, i));
}

} // verus!
