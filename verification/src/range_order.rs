//! Orders on byte ranges, and sorting by them.

use std::cmp::Ordering;
use std::ops::Range;
use vstd::prelude::*;
use vstd::relations::*;

verus! {

/// The number of bytes a range spans.
pub open spec fn span(r: Range<u64>) -> int {
    r.end - r.start
}

/// A range is non-empty and well ordered: `start < end`.
pub open spec fn nonempty(r: Range<u64>) -> bool {
    r.start < r.end
}

/// Every range of the sequence is non-empty.
pub open spec fn all_nonempty(rs: Seq<Range<u64>>) -> bool {
    forall|i: int| 0 <= i < rs.len() ==> nonempty(#[trigger] rs[i])
}

/// The order in which ranges are tried for removal: longer ranges first, and
/// among ranges of equal length, those starting later in the file first.
pub open spec fn removal_leq(a: Range<u64>, b: Range<u64>) -> bool {
    span(a) > span(b) || (span(a) == span(b) && a.start >= b.start)
}

/// Ranges ordered by their start offset, then by their end offset.
pub open spec fn start_leq(a: Range<u64>, b: Range<u64>) -> bool {
    a.start < b.start || (a.start == b.start && a.end <= b.end)
}

/// `removal_leq` as a relation value.
pub open spec fn removal_order() -> spec_fn(Range<u64>, Range<u64>) -> bool {
    |a: Range<u64>, b: Range<u64>| removal_leq(a, b)
}

/// `start_leq` as a relation value.
pub open spec fn start_order() -> spec_fn(Range<u64>, Range<u64>) -> bool {
    |a: Range<u64>, b: Range<u64>| start_leq(a, b)
}

/// Both orders on ranges are total orders.
pub proof fn lemma_orders_total()
    ensures
        total_ordering(removal_order()),
        total_ordering(start_order()),
{
    assert forall|a: Range<u64>, b: Range<u64>|
        #[trigger] removal_order()(a, b) && removal_order()(b, a) implies a == b by {
        assert(a.start == b.start && a.end == b.end);
    }
    assert forall|a: Range<u64>, b: Range<u64>|
        #[trigger] start_order()(a, b) && start_order()(b, a) implies a == b by {
        assert(a.start == b.start && a.end == b.end);
    }
}

/// Compare two ranges in the order in which they should be tried for
/// removal: the longer range sorts first, and ties are broken by trying the
/// range that starts later first.
pub fn sort_ranges_by(a: &Range<u64>, b: &Range<u64>) -> (ord: Ordering)
    requires
        a.start <= a.end,
        b.start <= b.end,
    ensures
        (ord == Ordering::Less) == (span(*a) > span(*b) || (span(*a) == span(*b) && a.start
            > b.start)),
        (ord == Ordering::Equal) == (span(*a) == span(*b) && a.start == b.start),
        (ord == Ordering::Greater) == (span(*a) < span(*b) || (span(*a) == span(*b) && a.start
            < b.start)),
{
    let a_len = a.end - a.start;
    let b_len = b.end - b.start;
    if a_len > b_len {
        Ordering::Less
    } else if a_len < b_len {
        Ordering::Greater
    } else if a.start > b.start {
        Ordering::Less
    } else if a.start < b.start {
        Ordering::Greater
    } else {
        Ordering::Equal
    }
}

/// A copy of a range.
pub fn copy_range(r: &Range<u64>) -> (c: Range<u64>)
    ensures
        c == *r,
{
    Range { start: r.start, end: r.end }
}

/// An order in which ranges are tried for removal. It must be a total
/// order: `lemma_total_order` proves it of each implementation.
pub trait RangeOrder: Sized {
    /// Whether `a` comes no later than `b`.
    spec fn spec_in_order(a: Range<u64>, b: Range<u64>) -> bool;

    /// The order is total: reflexive, antisymmetric, transitive, and any two
    /// ranges are ordered one way or the other.
    proof fn lemma_total_order()
        ensures
            forall|a: Range<u64>| #[trigger] Self::spec_in_order(a, a),
            forall|a: Range<u64>, b: Range<u64>|
                #[trigger] Self::spec_in_order(a, b) && #[trigger] Self::spec_in_order(b, a) ==> a == b,
            forall|a: Range<u64>, b: Range<u64>, c: Range<u64>|
                #[trigger] Self::spec_in_order(a, b) && #[trigger] Self::spec_in_order(b, c)
                    ==> Self::spec_in_order(a, c),
            forall|a: Range<u64>, b: Range<u64>|
                #[trigger] Self::spec_in_order(a, b) || #[trigger] Self::spec_in_order(b, a),
    ;

    /// Whether `a` comes no later than `b`.
    fn in_order(a: &Range<u64>, b: &Range<u64>) -> (r: bool)
        ensures
            r == Self::spec_in_order(*a, *b),
    ;
}

/// The order of `O` as a relation value.
pub open spec fn order<O: RangeOrder>() -> spec_fn(Range<u64>, Range<u64>) -> bool {
    |a: Range<u64>, b: Range<u64>| O::spec_in_order(a, b)
}

/// The order of `O` is a total order.
pub proof fn lemma_order_total<O: RangeOrder>()
    ensures
        total_ordering(order::<O>()),
{
    O::lemma_total_order();
}

/// The default order of removal: longer ranges first, and among ranges of
/// equal length, those starting later in the file first.
pub struct RemovalOrder;

impl RangeOrder for RemovalOrder {
    open spec fn spec_in_order(a: Range<u64>, b: Range<u64>) -> bool {
        removal_leq(a, b)
    }

    proof fn lemma_total_order() {
        assert forall|a: Range<u64>, b: Range<u64>|
            #[trigger] removal_leq(a, b) && #[trigger] removal_leq(b, a) implies a == b by {
            assert(a.start == b.start && a.end == b.end);
        }
    }

    fn in_order(a: &Range<u64>, b: &Range<u64>) -> (r: bool) {
        // span(a) > span(b) exactly when a.end + b.start > b.end + a.start.
        let left = a.end as u128 + b.start as u128;
        let right = b.end as u128 + a.start as u128;
        left > right || (left == right && a.start >= b.start)
    }
}

/// Ranges by their start offset, then by their end offset.
pub struct StartOrder;

impl RangeOrder for StartOrder {
    open spec fn spec_in_order(a: Range<u64>, b: Range<u64>) -> bool {
        start_leq(a, b)
    }

    proof fn lemma_total_order() {
        assert forall|a: Range<u64>, b: Range<u64>|
            #[trigger] start_leq(a, b) && #[trigger] start_leq(b, a) implies a == b by {
            assert(a.start == b.start && a.end == b.end);
        }
    }

    fn in_order(a: &Range<u64>, b: &Range<u64>) -> (r: bool) {
        a.start < b.start || (a.start == b.start && a.end <= b.end)
    }
}

/// Sort ranges in the order `O`. Equal ranges are kept.
pub fn sort_ranges<O: RangeOrder>(v: &Vec<Range<u64>>) -> (out: Vec<Range<u64>>)
    ensures
        out@ == v@.sort_by(order::<O>()),
{
    let ghost leq = order::<O>();
    proof {
        lemma_order_total::<O>();
    }
    let mut out: Vec<Range<u64>> = Vec::new();
    let mut k: usize = 0;
    proof {
        assert(v@.take(0) =~= Seq::<Range<u64>>::empty());
        assert(out@ =~= Seq::<Range<u64>>::empty());
    }
    while k < v.len()
        invariant
            k <= v.len(),
            leq == order::<O>(),
            total_ordering(leq),
            sorted_by(out@, leq),
            out@.to_multiset() == v@.take(k as int).to_multiset(),
            forall|i: int| 0 <= i < out.len() ==> v@.take(k as int).contains(#[trigger] out@[i]),
        decreases v.len() - k,
    {
        let x = copy_range(&v[k]);
        let mut p: usize = 0;
        while p < out.len() && !O::in_order(&x, &out[p])
            invariant
                p <= out.len(),
                x == v@[k as int],
                k < v.len(),
                leq == order::<O>(),
                total_ordering(leq),
                forall|i: int| 0 <= i < out.len() ==> v@.take(k as int).contains(#[trigger] out@[i]),
                forall|i: int| 0 <= i < p ==> !leq(x, #[trigger] out@[i]),
            decreases out.len() - p,
        {
            proof {
                let j = choose|j: int| 0 <= j < k && v@.take(k as int)[j] == out@[p as int];
                assert(v@[j] == out@[p as int]);
            }
            p = p + 1;
        }
        let ghost old_out = out@;
        proof {
            vstd::seq_lib::to_multiset_insert(old_out, p as int, x);
            assert(v@.take(k as int + 1) =~= v@.take(k as int).push(x));
            vstd::seq_lib::to_multiset_build(v@.take(k as int), x);
        }
        out.insert(p, x);
        proof {
            assert forall|i: int, j: int| 0 <= i < j < out.len() implies #[trigger] leq(
                out@[i],
                out@[j],
            ) by {
                if j < p {
                    assert(out@[i] == old_out[i] && out@[j] == old_out[j]);
                } else if j == p {
                    assert(out@[i] == old_out[i]);
                    assert(!leq(x, old_out[i]));
                    assert(leq(old_out[i], x));
                } else if i == p {
                    assert(out@[j] == old_out[j - 1]);
                    assert(O::spec_in_order(x, old_out[p as int]));
                    assert(leq(x, old_out[p as int]));
                    if p < j - 1 {
                        assert(leq(old_out[p as int], old_out[j - 1]));
                        assert(leq(x, old_out[j - 1]));
                    }
                } else if i < p {
                    assert(out@[i] == old_out[i] && out@[j] == old_out[j - 1]);
                } else {
                    assert(out@[i] == old_out[i - 1] && out@[j] == old_out[j - 1]);
                }
            }
            assert forall|i: int| 0 <= i < out.len() implies v@.take(k as int + 1).contains(
                #[trigger] out@[i],
            ) by {
                if i == p {
                    assert(v@.take(k as int + 1)[k as int] == x);
                } else {
                    let oi = if i < p {
                        i
                    } else {
                        i - 1
                    };
                    assert(out@[i] == old_out[oi]);
                    let j = choose|j: int| 0 <= j < k && v@.take(k as int)[j] == old_out[oi];
                    assert(v@.take(k as int + 1)[j] == old_out[oi]);
                }
            }
        }
        k = k + 1;
    }
    proof {
        assert(v@.take(v.len() as int) =~= v@);
        v@.lemma_sort_by_ensures(leq);
        vstd::seq_lib::lemma_sorted_unique(out@, v@.sort_by(leq), leq);
    }
    out
}

/// Sort ranges by start, then by end.
pub fn sort_by_start(v: &Vec<Range<u64>>) -> (out: Vec<Range<u64>>)
    ensures
        out@ == v@.sort_by(start_order()),
{
    proof {
        assert(order::<StartOrder>() =~= start_order());
    }
    sort_ranges::<StartOrder>(v)
}

/// Strictly sorted by `leq`: no two equal ranges.
pub open spec fn strictly_sorted(rs: Seq<Range<u64>>, leq: spec_fn(Range<u64>, Range<u64>) -> bool) -> bool {
    forall|i: int, j: int|
        #![trigger rs[i], rs[j]]
        0 <= i < j < rs.len() ==> leq(rs[i], rs[j]) && rs[i] != rs[j]
}

proof fn lemma_insert_keeps_strict(
    leq: spec_fn(Range<u64>, Range<u64>) -> bool,
    old: Seq<Range<u64>>,
    p: int,
    x: Range<u64>,
    i: int,
    j: int,
)
    requires
        total_ordering(leq),
        strictly_sorted(old, leq),
        0 <= p <= old.len(),
        forall|k: int| 0 <= k < p ==> !leq(x, #[trigger] old[k]),
        p < old.len() ==> leq(x, old[p]) && old[p] != x,
        0 <= i < j < old.len() + 1,
    ensures
        leq(old.insert(p, x)[i], old.insert(p, x)[j]),
        old.insert(p, x)[i] != old.insert(p, x)[j],
{
    let out = old.insert(p, x);
    if j < p {
        assert(leq(old[i], old[j]) && old[i] != old[j]);
    } else if j == p {
        assert(!leq(x, old[i]));
        assert(leq(x, x));
    } else if i == p {
        if p < j - 1 {
            assert(leq(old[p], old[j - 1]) && old[p] != old[j - 1]);
            assert(leq(x, old[j - 1]));
            if x == old[j - 1] {
                assert(leq(old[j - 1], old[p]));
            }
        }
    } else if i < p {
        assert(leq(old[i], old[j - 1]) && old[i] != old[j - 1]);
    } else {
        assert(leq(old[i - 1], old[j - 1]) && old[i - 1] != old[j - 1]);
    }
}

/// Sort ranges in the order `O`, keeping one copy of each distinct range.
pub fn sort_ranges_dedup<O: RangeOrder>(v: &Vec<Range<u64>>) -> (out: Vec<Range<u64>>)
    ensures
        strictly_sorted(out@, order::<O>()),
        forall|r: Range<u64>| out@.contains(r) <==> v@.contains(r),
{
    let ghost leq = order::<O>();
    proof {
        lemma_order_total::<O>();
    }
    let mut out: Vec<Range<u64>> = Vec::new();
    let mut k: usize = 0;
    while k < v.len()
        invariant
            k <= v.len(),
            leq == order::<O>(),
            total_ordering(leq),
            strictly_sorted(out@, leq),
            forall|r: Range<u64>| out@.contains(r) <==> v@.take(k as int).contains(r),
        decreases v.len() - k,
    {
        let x = copy_range(&v[k]);
        proof {
            assert(v@.take(k as int + 1) =~= v@.take(k as int).push(x));
        }
        let mut p: usize = 0;
        while p < out.len() && !O::in_order(&x, &out[p])
            invariant
                p <= out.len(),
                x == v@[k as int],
                k < v.len(),
                leq == order::<O>(),
                total_ordering(leq),
                strictly_sorted(out@, leq),
                forall|r: Range<u64>| out@.contains(r) <==> v@.take(k as int).contains(r),
                forall|i: int| 0 <= i < p ==> !leq(x, #[trigger] out@[i]),
            decreases out.len() - p,
        {
            proof {
                assert(out@.contains(out@[p as int]));
                let j = choose|j: int| 0 <= j < k && v@.take(k as int)[j] == out@[p as int];
                assert(v@[j] == out@[p as int]);
            }
            p = p + 1;
        }
        let dup = p < out.len() && out[p].start == x.start && out[p].end == x.end;
        if dup {
            proof {
                assert(out@[p as int] == x);
                assert forall|r: Range<u64>| out@.contains(r) <==> v@.take(k as int + 1).contains(
                    r,
                ) by {
                    if r == x {
                        assert(out@.contains(out@[p as int]));
                        assert(v@.take(k as int + 1)[k as int] == x);
                    } else if v@.take(k as int + 1).contains(r) {
                        let j = choose|j: int| 0 <= j < k + 1 && #[trigger] v@.take(k as int + 1)[j] == r;
                        assert(v@.take(k as int)[j] == r);
                    }
                }
            }
        } else {
            let ghost old_out = out@;
            out.insert(p, x);
            proof {
                assert forall|i: int, j: int| #![trigger out@[i], out@[j]] 0 <= i < j < out.len() implies leq(
                    out@[i],
                    out@[j],
                ) && out@[i] != out@[j] by {
                    lemma_insert_keeps_strict(leq, old_out, p as int, x, i, j);
                }
                assert forall|r: Range<u64>| out@.contains(r) <==> v@.take(k as int + 1).contains(
                    r,
                ) by {
                    if out@.contains(r) {
                        let i = choose|i: int| 0 <= i < out.len() && out@[i] == r;
                        if i == p {
                            assert(v@.take(k as int + 1)[k as int] == x);
                        } else if i < p {
                            assert(old_out[i] == r);
                            assert(old_out.contains(r));
                            let j = choose|j: int| 0 <= j < k && v@.take(k as int)[j] == r;
                            assert(v@.take(k as int + 1)[j] == r);
                        } else {
                            assert(old_out[i - 1] == r);
                            assert(old_out.contains(r));
                            let j = choose|j: int| 0 <= j < k && v@.take(k as int)[j] == r;
                            assert(v@.take(k as int + 1)[j] == r);
                        }
                    }
                    if v@.take(k as int + 1).contains(r) {
                        let j = choose|j: int| 0 <= j < k + 1 && #[trigger] v@.take(k as int + 1)[j] == r;
                        if j == k {
                            assert(out@[p as int] == x);
                        } else {
                            assert(v@.take(k as int)[j] == r);
                            assert(old_out.contains(r));
                            let i = choose|i: int| 0 <= i < old_out.len() && old_out[i] == r;
                            if i < p {
                                assert(out@[i] == r);
                            } else {
                                assert(out@[i + 1] == r);
                            }
                        }
                    }
                }
            }
        }
        k = k + 1;
    }
    proof {
        assert(v@.take(v.len() as int) =~= v@);
    }
    out
}

} // verus!
