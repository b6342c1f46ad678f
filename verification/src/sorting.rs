//! Stable ordering of records by a key.

use crate::text::{chars_less, lemma_lex_asymmetric, lemma_lex_transitive, lex_less};
use vstd::prelude::*;
use vstd::seq_lib::seq_to_set_is_finite;
use vstd::set_lib::{lemma_int_range, lemma_len_subset, lemma_subset_equality, set_int_range};

verus! {

/// The value a record is ordered by.
pub enum SortValue {
    /// A text, ordered by code point.
    Text(Seq<char>),
    /// A whole number.
    Number(int),
    /// A fraction with a positive denominator, ordered by its value.
    Ratio(int, int),
    /// No value: all records are alike.
    Nothing,
}

/// A sort value as held at run time.
pub enum KeyValue {
    Text(Vec<char>),
    Number(i128),
    /// A number that is not negative.
    Count(u128),
    Ratio(i64, i64),
    Nothing,
}

impl View for KeyValue {
    type V = SortValue;

    open spec fn view(&self) -> SortValue {
        match *self {
            KeyValue::Text(t) => SortValue::Text(t@),
            KeyValue::Number(n) => SortValue::Number(n as int),
            KeyValue::Count(n) => SortValue::Number(n as int),
            KeyValue::Ratio(n, d) => SortValue::Ratio(n as int, d as int),
            KeyValue::Nothing => SortValue::Nothing,
        }
    }
}

/// The values of a list of keys.
pub open spec fn values_of(keys: Seq<KeyValue>) -> Seq<SortValue> {
    Seq::new(keys.len(), |i: int| keys[i]@)
}

/// Two values of one kind, fractions with positive denominators.
pub open spec fn comparable(a: SortValue, b: SortValue) -> bool {
    match (a, b) {
        (SortValue::Text(_), SortValue::Text(_)) => true,
        (SortValue::Number(_), SortValue::Number(_)) => true,
        (SortValue::Ratio(_, d), SortValue::Ratio(_, e)) => d > 0 && e > 0,
        (SortValue::Nothing, SortValue::Nothing) => true,
        _ => false,
    }
}

/// All values are of one kind.
pub open spec fn uniform(values: Seq<SortValue>) -> bool {
    forall|i: int, j: int|
        0 <= i < values.len() && 0 <= j < values.len() ==> comparable(
            #[trigger] values[i],
            #[trigger] values[j],
        )
}

/// `a` is strictly less than `b`.
pub open spec fn value_less(a: SortValue, b: SortValue) -> bool {
    match (a, b) {
        (SortValue::Text(x), SortValue::Text(y)) => lex_less(x, y),
        (SortValue::Number(x), SortValue::Number(y)) => x < y,
        (SortValue::Ratio(n, d), SortValue::Ratio(m, e)) => n * e < m * d,
        _ => false,
    }
}

/// `a` has to come before `b`: it is less when ascending, greater when
/// descending.
pub open spec fn precedes(a: SortValue, b: SortValue, descending: bool) -> bool {
    if descending {
        value_less(b, a)
    } else {
        value_less(a, b)
    }
}

/// Neither value has to come before the other.
pub open spec fn tied(a: SortValue, b: SortValue) -> bool {
    !value_less(a, b) && !value_less(b, a)
}

/// `order` lists each of the positions `0..n` once.
pub open spec fn is_permutation(order: Seq<usize>, n: int) -> bool {
    &&& order.len() == n
    &&& forall|i: int| 0 <= i < order.len() ==> (#[trigger] order[i] as int) < n
    &&& forall|i: int, j: int|
        0 <= i < j < order.len() ==> #[trigger] order[i] != #[trigger] order[j]
}

/// `order` is the stable sort of the positions of `values`: it lists every
/// position once, no value stands behind one it has to come before, and
/// values that tie stand in the order of their positions.
pub open spec fn is_stable_order(order: Seq<usize>, values: Seq<SortValue>, descending: bool) -> bool {
    &&& is_permutation(order, values.len() as int)
    &&& forall|i: int, j: int|
        #![trigger order[i], order[j]]
        0 <= i < j < order.len() ==> !precedes(
            values[order[j] as int],
            values[order[i] as int],
            descending,
        )
    &&& forall|i: int, j: int|
        #![trigger order[i], order[j]]
        0 <= i < j < order.len() && tied(values[order[i] as int], values[order[j] as int])
            ==> order[i] < order[j]
}

/// Of two comparable values at most one has to come before the other.
pub proof fn lemma_precedes_asymmetric(a: SortValue, b: SortValue, descending: bool)
    requires
        comparable(a, b),
    ensures
        !(precedes(a, b, descending) && precedes(b, a, descending)),
{
    match (a, b) {
        (SortValue::Text(x), SortValue::Text(y)) => {
            lemma_lex_asymmetric(x, y);
        },
        _ => {},
    }
}

/// If `a` need not come before `b`, nor `b` before `c`, then `a` need not
/// come before `c`.
pub proof fn lemma_precedes_chain(a: SortValue, b: SortValue, c: SortValue, descending: bool)
    requires
        comparable(a, b),
        comparable(b, c),
        !precedes(a, b, descending),
        !precedes(b, c, descending),
    ensures
        !precedes(a, c, descending),
{
    match (a, b, c) {
        (SortValue::Text(x), SortValue::Text(y), SortValue::Text(z)) => {
            if descending {
                lemma_lex_transitive(x, y, z);
            } else {
                lemma_lex_transitive(z, y, x);
            }
        },
        (SortValue::Ratio(n1, d1), SortValue::Ratio(n2, d2), SortValue::Ratio(n3, d3)) => {
            if descending {
                lemma_ratio_chain(n3, d3, n2, d2, n1, d1);
            } else {
                lemma_ratio_chain(n1, d1, n2, d2, n3, d3);
            }
        },
        _ => {},
    }
}

proof fn lemma_ratio_chain(n1: int, d1: int, n2: int, d2: int, n3: int, d3: int)
    requires
        d1 > 0,
        d2 > 0,
        d3 > 0,
        n1 * d2 >= n2 * d1,
        n2 * d3 >= n3 * d2,
    ensures
        n1 * d3 >= n3 * d1,
{
    assert(n1 * d2 * d3 >= n2 * d1 * d3) by (nonlinear_arith)
        requires
            n1 * d2 >= n2 * d1,
            d3 > 0,
    ;
    assert(n2 * d3 * d1 >= n3 * d2 * d1) by (nonlinear_arith)
        requires
            n2 * d3 >= n3 * d2,
            d1 > 0,
    ;
    assert(n2 * d1 * d3 == n2 * d3 * d1) by (nonlinear_arith);
    assert(n1 * d2 * d3 == (n1 * d3) * d2) by (nonlinear_arith);
    assert(n3 * d2 * d1 == (n3 * d1) * d2) by (nonlinear_arith);
    assert(n1 * d3 >= n3 * d1) by (nonlinear_arith)
        requires
            (n1 * d3) * d2 >= (n3 * d1) * d2,
            d2 > 0,
    ;
}

/// Decides [`value_less`].
pub fn key_less(a: &KeyValue, b: &KeyValue) -> (less: bool)
    ensures
        less == value_less(a@, b@),
{
    match (a, b) {
        (KeyValue::Text(x), KeyValue::Text(y)) => chars_less(x, y),
        (KeyValue::Number(x), KeyValue::Number(y)) => *x < *y,
        (KeyValue::Count(x), KeyValue::Count(y)) => *x < *y,
        (KeyValue::Number(x), KeyValue::Count(y)) => *x < 0 || (*x as u128) < *y,
        (KeyValue::Count(x), KeyValue::Number(y)) => *y >= 0 && *x < (*y as u128),
        (KeyValue::Ratio(n, d), KeyValue::Ratio(m, e)) => {
            let n: i128 = *n as i128;
            let d: i128 = *d as i128;
            let m: i128 = *m as i128;
            let e: i128 = *e as i128;
            assert(-0x4000_0000_0000_0000_0000_0000_0000_0000 <= n * e
                <= 0x4000_0000_0000_0000_0000_0000_0000_0000) by (nonlinear_arith)
                requires
                    -0x8000_0000_0000_0000 <= n <= 0x8000_0000_0000_0000,
                    -0x8000_0000_0000_0000 <= e <= 0x8000_0000_0000_0000,
            ;
            assert(-0x4000_0000_0000_0000_0000_0000_0000_0000 <= m * d
                <= 0x4000_0000_0000_0000_0000_0000_0000_0000) by (nonlinear_arith)
                requires
                    -0x8000_0000_0000_0000 <= m <= 0x8000_0000_0000_0000,
                    -0x8000_0000_0000_0000 <= d <= 0x8000_0000_0000_0000,
            ;
            n * e < m * d
        },
        _ => false,
    }
}

/// Decides [`precedes`].
pub fn key_precedes(a: &KeyValue, b: &KeyValue, descending: bool) -> (first: bool)
    ensures
        first == precedes(a@, b@, descending),
{
    if descending {
        key_less(b, a)
    } else {
        key_less(a, b)
    }
}

/// No position occurs twice in `order`, no value stands behind one it has to
/// come before, and values that tie stand in the order of their positions.
spec fn is_ordered(order: Seq<usize>, values: Seq<SortValue>, descending: bool) -> bool {
    &&& forall|i: int, j: int|
        0 <= i < j < order.len() ==> #[trigger] order[i] != #[trigger] order[j]
    &&& forall|i: int, j: int|
        #![trigger order[i], order[j]]
        0 <= i < j < order.len() ==> !precedes(
            values[order[j] as int],
            values[order[i] as int],
            descending,
        )
    &&& forall|i: int, j: int|
        #![trigger order[i], order[j]]
        0 <= i < j < order.len() && tied(values[order[i] as int], values[order[j] as int])
            ==> order[i] < order[j]
}

/// `order` is the stable sort of the positions `lo..hi`.
spec fn is_stable_run(
    order: Seq<usize>,
    values: Seq<SortValue>,
    descending: bool,
    lo: int,
    hi: int,
) -> bool {
    &&& order.len() == hi - lo
    &&& forall|i: int| 0 <= i < order.len() ==> lo <= (#[trigger] order[i] as int) < hi
    &&& is_ordered(order, values, descending)
}

/// Every entry of `out` is one of the first `i` entries of `left` or one of
/// the first `j` entries of `right`, as `source` tells.
spec fn is_merged_from(
    out: Seq<usize>,
    source: Seq<int>,
    left: Seq<usize>,
    right: Seq<usize>,
    i: int,
    j: int,
    mid: int,
) -> bool {
    &&& source.len() == out.len()
    &&& forall|k: int|
        0 <= k < out.len() ==> if (#[trigger] out[k] as int) < mid {
            0 <= source[k] < i && left[source[k]] == out[k]
        } else {
            0 <= source[k] < j && right[source[k]] == out[k]
        }
}

fn merge_runs(
    keys: &Vec<KeyValue>,
    descending: bool,
    left: &Vec<usize>,
    right: &Vec<usize>,
    Ghost(lo): Ghost<int>,
    Ghost(mid): Ghost<int>,
    Ghost(hi): Ghost<int>,
) -> (out: Vec<usize>)
    requires
        0 <= lo <= mid <= hi <= keys.len(),
        uniform(values_of(keys@)),
        is_stable_run(left@, values_of(keys@), descending, lo, mid),
        is_stable_run(right@, values_of(keys@), descending, mid, hi),
    ensures
        is_stable_run(out@, values_of(keys@), descending, lo, hi),
{
    let ghost values = values_of(keys@);
    let ghost mut source: Seq<int> = Seq::empty();
    let mut out: Vec<usize> = Vec::new();
    let mut i: usize = 0;
    let mut j: usize = 0;
    while i < left.len() || j < right.len()
        invariant
            i <= left.len(),
            j <= right.len(),
            out.len() == i + j,
            0 <= lo <= mid <= hi <= keys.len(),
            values == values_of(keys@),
            uniform(values),
            is_stable_run(left@, values, descending, lo, mid),
            is_stable_run(right@, values, descending, mid, hi),
            is_merged_from(out@, source, left@, right@, i as int, j as int, mid),
            is_ordered(out@, values, descending),
            i < left.len() ==> forall|k: int|
                0 <= k < out.len() && (#[trigger] out[k] as int) >= mid ==> precedes(
                    values[out[k] as int],
                    values[left[i as int] as int],
                    descending,
                ),
            j < right.len() ==> forall|k: int|
                0 <= k < out.len() && (#[trigger] out[k] as int) < mid ==> !precedes(
                    values[right[j as int] as int],
                    values[out[k] as int],
                    descending,
                ),
        decreases left.len() - i + (right.len() - j),
    {
        let ghost before = out@;
        let ghost old_source = source;
        let mut take_left: bool = false;
        if i < left.len() {
            assert(lo <= (left@[i as int] as int) < mid);
            if j < right.len() {
                assert(mid <= (right@[j as int] as int) < hi);
                take_left = !key_precedes(&keys[right[j]], &keys[left[i]], descending);
            } else {
                take_left = true;
            }
        }
        if take_left {
            let x = left[i];
            out.push(x);
            proof {
                source = old_source.push(i as int);
                let vx = values[x as int];
                assert forall|a: int, b: int| 0 <= a < b < out.len() implies #[trigger] out[a]
                    != #[trigger] out[b] && !precedes(
                    values[out[b] as int],
                    values[out[a] as int],
                    descending,
                ) && (tied(values[out[a] as int], values[out[b] as int]) ==> out[a] < out[b]) by {
                    if b < before.len() {
                        assert(before[a] == out[a] && before[b] == out[b]);
                    } else {
                        assert(before[a] == out[a]);
                        let va = values[before[a] as int];
                        if (before[a] as int) < mid {
                            let s = old_source[a];
                            assert(left[s] == before[a] && left[i as int] == x);
                        } else {
                            assert(precedes(va, vx, descending));
                            lemma_precedes_asymmetric(va, vx, descending);
                        }
                    }
                }
                assert forall|k: int| 0 <= k < out.len() implies if (#[trigger] out[k] as int)
                    < mid {
                    0 <= source[k] < i + 1 && left[source[k]] == out[k]
                } else {
                    0 <= source[k] < j && right[source[k]] == out[k]
                } by {
                    if k < before.len() {
                        assert(before[k] == out[k]);
                    }
                }
                if i + 1 < left.len() {
                    let next = values[left[i + 1] as int];
                    assert(!precedes(next, vx, descending)) by {
                        assert(left[i as int] == x);
                    }
                    assert forall|k: int|
                        0 <= k < out.len() && (#[trigger] out[k] as int) >= mid implies precedes(
                        values[out[k] as int],
                        next,
                        descending,
                    ) by {
                        assert(before[k] == out[k]);
                        let vk = values[out[k] as int];
                        assert(precedes(vk, vx, descending));
                        if !precedes(vk, next, descending) {
                            lemma_precedes_chain(vk, next, vx, descending);
                        }
                    }
                }
                if j < right.len() {
                    assert forall|k: int|
                        0 <= k < out.len() && (#[trigger] out[k] as int) < mid implies !precedes(
                        values[right[j as int] as int],
                        values[out[k] as int],
                        descending,
                    ) by {
                        if k < before.len() {
                            assert(before[k] == out[k]);
                        }
                    }
                }
            }
            i += 1;
        } else {
            assert(mid <= (right@[j as int] as int) < hi);
            let y = right[j];
            out.push(y);
            proof {
                source = old_source.push(j as int);
                let vy = values[y as int];
                assert forall|a: int, b: int| 0 <= a < b < out.len() implies #[trigger] out[a]
                    != #[trigger] out[b] && !precedes(
                    values[out[b] as int],
                    values[out[a] as int],
                    descending,
                ) && (tied(values[out[a] as int], values[out[b] as int]) ==> out[a] < out[b]) by {
                    if b < before.len() {
                        assert(before[a] == out[a] && before[b] == out[b]);
                    } else {
                        assert(before[a] == out[a]);
                        if (before[a] as int) >= mid {
                            let s = old_source[a];
                            assert(right[s] == before[a] && right[j as int] == y);
                        }
                    }
                }
                assert forall|k: int| 0 <= k < out.len() implies if (#[trigger] out[k] as int)
                    < mid {
                    0 <= source[k] < i && left[source[k]] == out[k]
                } else {
                    0 <= source[k] < j + 1 && right[source[k]] == out[k]
                } by {
                    if k < before.len() {
                        assert(before[k] == out[k]);
                    }
                }
                if i < left.len() {
                    assert forall|k: int|
                        0 <= k < out.len() && (#[trigger] out[k] as int) >= mid implies precedes(
                        values[out[k] as int],
                        values[left[i as int] as int],
                        descending,
                    ) by {
                        if k < before.len() {
                            assert(before[k] == out[k]);
                        }
                    }
                }
                if j + 1 < right.len() {
                    let next = values[right[j + 1] as int];
                    assert(!precedes(next, vy, descending)) by {
                        assert(right[j as int] == y);
                    }
                    assert forall|k: int|
                        0 <= k < out.len() && (#[trigger] out[k] as int) < mid implies !precedes(
                        next,
                        values[out[k] as int],
                        descending,
                    ) by {
                        assert(before[k] == out[k]);
                        lemma_precedes_chain(next, vy, values[out[k] as int], descending);
                    }
                }
            }
            j += 1;
        }
    }
    assert forall|k: int| 0 <= k < out.len() implies lo <= (#[trigger] out[k] as int) < hi by {
        if (out[k] as int) < mid {
            assert(left[source[k]] == out[k]);
        } else {
            assert(right[source[k]] == out[k]);
        }
    }
    out
}

fn sort_run(keys: &Vec<KeyValue>, descending: bool, lo: usize, hi: usize) -> (order: Vec<usize>)
    requires
        lo <= hi <= keys.len(),
        uniform(values_of(keys@)),
    ensures
        is_stable_run(order@, values_of(keys@), descending, lo as int, hi as int),
    decreases hi - lo,
{
    if hi - lo <= 1 {
        let mut order: Vec<usize> = Vec::new();
        if lo < hi {
            order.push(lo);
        }
        return order;
    }
    let mid: usize = lo + (hi - lo) / 2;
    let left = sort_run(keys, descending, lo, mid);
    let right = sort_run(keys, descending, mid, hi);
    merge_runs(keys, descending, &left, &right, Ghost(lo as int), Ghost(mid as int), Ghost(hi as int))
}

/// Sorts the positions of `keys` by their values, ascending or descending.
/// The sort is stable: positions whose values tie keep their order.
pub fn stable_order(keys: &Vec<KeyValue>, descending: bool) -> (order: Vec<usize>)
    requires
        uniform(values_of(keys@)),
    ensures
        is_stable_order(order@, values_of(keys@), descending),
{
    sort_run(keys, descending, 0, keys.len())
}

/// `order` lists every position once, and no value stands behind one it has
/// to come before.
pub open spec fn is_sorted_order(order: Seq<usize>, values: Seq<SortValue>, descending: bool) -> bool {
    &&& is_permutation(order, values.len() as int)
    &&& forall|i: int, j: int|
        #![trigger order[i], order[j]]
        0 <= i < j < order.len() ==> !precedes(
            values[order[j] as int],
            values[order[i] as int],
            descending,
        )
}

proof fn lemma_permutation_covers(order: Seq<usize>, n: int, x: usize)
    requires
        is_permutation(order, n),
        (x as int) < n,
    ensures
        exists|m: int| 0 <= m < n && order[m] == x,
{
    let ints = order.map_values(|p: usize| p as int);
    assert(ints.no_duplicates()) by {
        assert forall|i: int, j: int|
            0 <= i < ints.len() && 0 <= j < ints.len() && i != j implies ints[i] != ints[j] by {
            if i < j {
                assert(order[i] != order[j]);
            } else {
                assert(order[j] != order[i]);
            }
        }
    }
    ints.unique_seq_to_set();
    seq_to_set_is_finite(ints);
    lemma_int_range(0, n);
    assert(ints.to_set().subset_of(set_int_range(0, n))) by {
        assert forall|a: int| ints.to_set().contains(a) implies set_int_range(0, n).contains(
            a,
        ) by {
            let m = choose|m: int| 0 <= m < ints.len() && ints[m] == a;
            assert((order[m] as int) < n);
        }
    }
    lemma_subset_equality(ints.to_set(), set_int_range(0, n));
    assert(set_int_range(0, n).contains(x as int));
    assert(ints.contains(x as int));
    let m = choose|m: int| 0 <= m < ints.len() && ints[m] == x as int;
    assert(order[m] == x);
}

proof fn lemma_sorted_orders_agree(
    a: Seq<usize>,
    b: Seq<usize>,
    values: Seq<SortValue>,
    descending: bool,
    i: int,
)
    requires
        uniform(values),
        is_sorted_order(a, values, descending),
        is_sorted_order(b, values, descending),
        0 <= i < values.len(),
    ensures
        !precedes(values[a[i] as int], values[b[i] as int], descending),
{
    let n = values.len() as int;
    let va = values[a[i] as int];
    let vb = values[b[i] as int];
    if precedes(va, vb, descending) {
        let s = a.take(i + 1);
        let t = b.take(i);
        assert forall|x: usize| s.to_set().contains(x) implies t.to_set().contains(x) by {
            let m = choose|m: int| 0 <= m < s.len() && s[m] == x;
            assert(a[m] == x);
            assert((a[m] as int) < n);
            lemma_permutation_covers(b, n, x);
            let k = choose|k: int| 0 <= k < n && b[k] == x;
            let vx = values[x as int];
            if k >= i {
                if m < i {
                    assert(!precedes(values[a[i] as int], values[a[m] as int], descending));
                } else {
                    lemma_precedes_asymmetric(va, va, descending);
                }
                if k > i {
                    assert(!precedes(values[b[k] as int], values[b[i] as int], descending));
                } else {
                    lemma_precedes_asymmetric(vb, vb, descending);
                }
                lemma_precedes_chain(va, vx, vb, descending);
                assert(false);
            }
            assert(t[k] == x);
        }
        assert(s.no_duplicates()) by {
            assert forall|p: int, q: int|
                0 <= p < s.len() && 0 <= q < s.len() && p != q implies s[p] != s[q] by {
                if p < q {
                    assert(a[p] != a[q]);
                } else {
                    assert(a[q] != a[p]);
                }
            }
        }
        assert(t.no_duplicates()) by {
            assert forall|p: int, q: int|
                0 <= p < t.len() && 0 <= q < t.len() && p != q implies t[p] != t[q] by {
                if p < q {
                    assert(b[p] != b[q]);
                } else {
                    assert(b[q] != b[p]);
                }
            }
        }
        s.unique_seq_to_set();
        t.unique_seq_to_set();
        seq_to_set_is_finite(t);
        lemma_len_subset(s.to_set(), t.to_set());
        assert(false);
    }
}

/// The order read backwards.
pub open spec fn reversed(order: Seq<usize>) -> Seq<usize> {
    Seq::new(order.len(), |k: int| order[order.len() - 1 - k])
}

/// Sorting descending gives the ascending order read backwards, up to the
/// order within runs of tied values: at every place the two hold values that
/// tie. Where no two values tie, the descending order is exactly the
/// ascending order reversed.
pub proof fn lemma_descending_reverses_ascending(
    values: Seq<SortValue>,
    ascending: Seq<usize>,
    descending: Seq<usize>,
)
    requires
        uniform(values),
        is_stable_order(ascending, values, false),
        is_stable_order(descending, values, true),
    ensures
        forall|i: int|
            0 <= i < values.len() ==> tied(
                values[#[trigger] descending[i] as int],
                values[reversed(ascending)[i] as int],
            ),
        (forall|p: int, q: int|
            0 <= p < q < values.len() ==> !tied(#[trigger] values[p], #[trigger] values[q]))
            ==> descending == reversed(ascending),
{
    let n = values.len() as int;
    let back = reversed(ascending);
    assert(is_sorted_order(back, values, true)) by {
        assert forall|i: int, j: int| 0 <= i < j < back.len() implies !precedes(
            values[#[trigger] back[j] as int],
            values[#[trigger] back[i] as int],
            true,
        ) by {
            assert(back[i] == ascending[n - 1 - i]);
            assert(back[j] == ascending[n - 1 - j]);
        }
        assert forall|i: int, j: int| 0 <= i < j < back.len() implies #[trigger] back[i]
            != #[trigger] back[j] by {
            assert(ascending[n - 1 - j] != ascending[n - 1 - i]);
        }
        assert forall|i: int| 0 <= i < back.len() implies (#[trigger] back[i] as int) < n by {
            assert((ascending[n - 1 - i] as int) < n);
        }
    }
    assert(is_sorted_order(descending, values, true));
    assert forall|i: int| 0 <= i < values.len() implies tied(
        values[#[trigger] descending[i] as int],
        values[back[i] as int],
    ) by {
        lemma_sorted_orders_agree(descending, back, values, true, i);
        lemma_sorted_orders_agree(back, descending, values, true, i);
    }
    if forall|p: int, q: int|
        0 <= p < q < values.len() ==> !tied(#[trigger] values[p], #[trigger] values[q]) {
        assert forall|i: int| 0 <= i < n implies descending[i] == back[i] by {
            let p = descending[i] as int;
            let q = back[i] as int;
            assert(tied(values[p], values[q]));
            assert((back[i] as int) < n);
            if p < q {
                assert(!tied(values[p], values[q]));
            } else if q < p {
                assert(!tied(values[q], values[p]));
            }
        }
        assert(descending =~= back);
    }
}

} // verus!
