//! The per-asset window of feeder price points: eviction of stale points,
//! insertion in price order and the median over the window.
use vstd::prelude::*;

verus! {

/// One feeder's observation. Prices are fixed-point numbers with nine
/// decimal places, held as their inner `i64`.
#[derive(Clone, Copy, Debug, PartialEq, Eq, Structural)]
pub struct PricePoint {
    pub block_number: u64,
    pub timestamp: u64,
    pub price: i64,
    pub account_id: u64,
}

/// Whether a point survives eviction: it is younger than the point timeout
/// at `now`, and it does not belong to the feeder `who` who is submitting.
pub open spec fn is_kept(p: PricePoint, now: u64, timeout: u64, who: u64) -> bool {
    p.timestamp + timeout > now && p.account_id != who
}

/// The points of `s` that survive eviction, in their order.
pub open spec fn kept_points(s: Seq<PricePoint>, now: u64, timeout: u64, who: u64) -> Seq<
    PricePoint,
>
    decreases s.len(),
{
    if s.len() == 0 {
        s
    } else if is_kept(s.last(), now, timeout, who) {
        kept_points(s.drop_last(), now, timeout, who).push(s.last())
    } else {
        kept_points(s.drop_last(), now, timeout, who)
    }
}

/// The points of `s` that do not belong to `who`, in their order.
pub open spec fn without_feeder(s: Seq<PricePoint>, who: u64) -> Seq<PricePoint>
    decreases s.len(),
{
    if s.len() == 0 {
        s
    } else if s.last().account_id != who {
        without_feeder(s.drop_last(), who).push(s.last())
    } else {
        without_feeder(s.drop_last(), who)
    }
}

/// `s` with `p` inserted after every point whose price is not above `p`'s
/// and before the trailing points that are dearer.
pub open spec fn insert_by_price(s: Seq<PricePoint>, p: PricePoint) -> Seq<PricePoint>
    decreases s.len(),
{
    if s.len() == 0 {
        seq![p]
    } else if s.last().price <= p.price {
        s.push(p)
    } else {
        insert_by_price(s.drop_last(), p).push(s.last())
    }
}

/// The points are in ascending order of price.
pub open spec fn sorted_by_price(s: Seq<PricePoint>) -> bool {
    forall|i: int, j: int| 0 <= i < j < s.len() ==> s[i].price <= s[j].price
}

/// Half of `x`, rounded toward zero, as fixed-point division by two does.
pub open spec fn half_toward_zero(x: int) -> int {
    if x >= 0 {
        x / 2
    } else {
        -((-x) / 2)
    }
}

/// The median of a window: its middle price when its length is odd, the
/// mean of its two middle prices (rounded toward zero) when it is even.
pub open spec fn median_of(s: Seq<PricePoint>) -> int {
    if s.len() % 2 == 0 {
        half_toward_zero(s[s.len() / 2 - 1].price + s[(s.len() / 2) as int].price)
    } else {
        s[(s.len() / 2) as int].price as int
    }
}

/// The prices of the points, in their order.
pub open spec fn prices_of(s: Seq<PricePoint>) -> Seq<i64> {
    s.map_values(|p: PricePoint| p.price)
}

pub proof fn lemma_insert_len(s: Seq<PricePoint>, p: PricePoint)
    ensures
        insert_by_price(s, p).len() == s.len() + 1,
    decreases s.len(),
{
    if s.len() > 0 && s.last().price > p.price {
        lemma_insert_len(s.drop_last(), p);
    }
}

pub proof fn lemma_median_in_range(s: Seq<PricePoint>)
    requires
        s.len() > 0,
    ensures
        i64::MIN <= median_of(s) <= i64::MAX,
{
    if s.len() % 2 == 0 {
        let a = s[s.len() / 2 - 1].price as int;
        let b = s[(s.len() / 2) as int].price as int;
        assert(i64::MIN <= half_toward_zero(a + b) <= i64::MAX) by (nonlinear_arith)
            requires
                i64::MIN <= a <= i64::MAX,
                i64::MIN <= b <= i64::MAX,
        ;
    }
}

/// The median of a non-empty window.
pub fn calc_median_price(points: &Vec<PricePoint>) -> (r: i64)
    requires
        points.len() > 0,
    ensures
        r == median_of(points@),
{
    let len = points.len();
    if len % 2 == 0 {
        let a = points[len / 2 - 1].price as i128;
        let b = points[len / 2].price as i128;
        let sum = a + b;
        let half: i128 = if sum >= 0 {
            sum / 2
        } else {
            0 - ((0 - sum) / 2)
        };
        proof {
            lemma_median_in_range(points@);
        }
        half as i64
    } else {
        points[len / 2].price
    }
}

/// The points that survive eviction at `now` when `who` submits.
pub fn retain_live_points(points: &Vec<PricePoint>, now: u64, timeout: u64, who: u64) -> (r: Vec<
    PricePoint,
>)
    ensures
        r@ == kept_points(points@, now, timeout, who),
{
    let mut out: Vec<PricePoint> = Vec::new();
    let mut i: usize = 0;
    while i < points.len()
        invariant
            i <= points.len(),
            out@ == kept_points(points@.take(i as int), now, timeout, who),
        decreases points.len() - i,
    {
        let p = points[i];
        assert(points@.take(i + 1).drop_last() =~= points@.take(i as int));
        if (p.timestamp as u128) + (timeout as u128) > now as u128 && p.account_id != who {
            out.push(p);
        }
        i = i + 1;
    }
    assert(points@.take(i as int) =~= points@);
    out
}

/// The points that do not belong to `who`.
pub fn retain_other_feeders(points: &Vec<PricePoint>, who: u64) -> (r: Vec<PricePoint>)
    ensures
        r@ == without_feeder(points@, who),
{
    let mut out: Vec<PricePoint> = Vec::new();
    let mut i: usize = 0;
    while i < points.len()
        invariant
            i <= points.len(),
            out@ == without_feeder(points@.take(i as int), who),
        decreases points.len() - i,
    {
        let p = points[i];
        assert(points@.take(i + 1).drop_last() =~= points@.take(i as int));
        if p.account_id != who {
            out.push(p);
        }
        i = i + 1;
    }
    assert(points@.take(i as int) =~= points@);
    out
}

/// Where `insert_by_price` puts `p` in a sorted window: after the points
/// that are not dearer, before the dearer ones.
proof fn lemma_insert_at(s: Seq<PricePoint>, p: PricePoint, pos: int)
    requires
        0 <= pos <= s.len(),
        forall|i: int| 0 <= i < pos ==> (#[trigger] s[i]).price <= p.price,
        forall|i: int| pos <= i < s.len() ==> (#[trigger] s[i]).price > p.price,
    ensures
        insert_by_price(s, p) == s.take(pos).push(p) + s.skip(pos),
    decreases s.len(),
{
    if s.len() == 0 {
        assert(s.take(pos).push(p) + s.skip(pos) =~= seq![p]);
    } else if pos == s.len() {
        assert(s[s.len() - 1] == s.last());
        assert(s.take(pos).push(p) + s.skip(pos) =~= s.push(p));
    } else {
        let d = s.drop_last();
        assert(s[s.len() - 1] == s.last());
        assert forall|i: int| 0 <= i < pos implies (#[trigger] d[i]).price <= p.price by {
            assert(d[i] == s[i]);
        }
        assert forall|i: int| pos <= i < d.len() implies (#[trigger] d[i]).price > p.price by {
            assert(d[i] == s[i]);
        }
        lemma_insert_at(d, p, pos);
        assert((d.take(pos).push(p) + d.skip(pos)).push(s.last()) =~= s.take(pos).push(p)
            + s.skip(pos));
    }
}

/// Inserts `p` into a sorted window after the last point whose price is not
/// above `p`'s, finding the place by binary search.
pub fn insert_point(points: &mut Vec<PricePoint>, p: PricePoint)
    requires
        sorted_by_price(old(points)@),
    ensures
        final(points)@ == insert_by_price(old(points)@, p),
{
    let ghost s = points@;
    let mut lo: usize = 0;
    let mut hi: usize = points.len();
    while lo < hi
        invariant
            s == points@,
            sorted_by_price(s),
            0 <= lo <= hi <= s.len(),
            forall|i: int| 0 <= i < lo ==> (#[trigger] s[i]).price <= p.price,
            forall|i: int| hi <= i < s.len() ==> (#[trigger] s[i]).price > p.price,
        decreases hi - lo,
    {
        let mid = lo + (hi - lo) / 2;
        if points[mid].price <= p.price {
            assert forall|i: int| 0 <= i <= mid implies (#[trigger] s[i]).price <= p.price by {
                if i < mid {
                    assert(s[i].price <= s[mid as int].price);
                }
            }
            lo = mid + 1;
        } else {
            assert forall|i: int| mid <= i < s.len() implies (#[trigger] s[i]).price > p.price by {
                if i > mid {
                    assert(s[mid as int].price <= s[i].price);
                }
            }
            hi = mid;
        }
    }
    proof {
        lemma_insert_at(s, p, lo as int);
    }
    points.insert(lo, p);
    assert(points@ =~= s.take(lo as int).push(p) + s.skip(lo as int));
}

/// Every point of `insert_by_price(s, p)` is `p` or a point of `s`, and `p`
/// is among them.
pub proof fn lemma_insert_elements(s: Seq<PricePoint>, p: PricePoint)
    ensures
        forall|i: int|
            0 <= i < insert_by_price(s, p).len() ==> #[trigger] insert_by_price(s, p)[i] == p
                || s.contains(insert_by_price(s, p)[i]),
        insert_by_price(s, p).contains(p),
    decreases s.len(),
{
    lemma_insert_len(s, p);
    if s.len() == 0 {
        assert(insert_by_price(s, p)[0] == p);
    } else if s.last().price <= p.price {
        let w = insert_by_price(s, p);
        assert(w[s.len() as int] == p);
        assert forall|i: int| 0 <= i < w.len() implies #[trigger] w[i] == p || s.contains(w[i]) by {
            if i < s.len() {
                assert(w[i] == s[i]);
            }
        }
    } else {
        let d = s.drop_last();
        lemma_insert_elements(d, p);
        lemma_insert_len(d, p);
        let w = insert_by_price(s, p);
        let v = insert_by_price(d, p);
        assert forall|i: int| 0 <= i < w.len() implies #[trigger] w[i] == p || s.contains(w[i]) by {
            if i < v.len() {
                assert(w[i] == v[i]);
                if v[i] != p {
                    let k = choose|k: int| 0 <= k < d.len() && #[trigger] d[k] == v[i];
                    assert(s[k] == v[i]);
                }
            } else {
                assert(w[i] == s.last());
                assert(s[s.len() - 1] == s.last());
            }
        }
        let k = choose|k: int| 0 <= k < v.len() && #[trigger] v[k] == p;
        assert(w[k] == p);
    }
}

/// Inserting into a window sorted by price keeps it sorted.
pub proof fn lemma_insert_sorted(s: Seq<PricePoint>, p: PricePoint)
    requires
        sorted_by_price(s),
    ensures
        sorted_by_price(insert_by_price(s, p)),
    decreases s.len(),
{
    lemma_insert_len(s, p);
    if s.len() == 0 {
    } else if s.last().price <= p.price {
    } else {
        let d = s.drop_last();
        lemma_insert_sorted(d, p);
        lemma_insert_elements(d, p);
        lemma_insert_len(d, p);
        let v = insert_by_price(d, p);
        assert forall|i: int| 0 <= i < v.len() implies #[trigger] v[i].price <= s.last().price by {
            if v[i] != p {
                let k = choose|k: int| 0 <= k < d.len() && #[trigger] d[k] == v[i];
                assert(s[k] == v[i]);
            }
        }
    }
}

/// Inserting a point adds its price to the prices of the window.
pub proof fn lemma_insert_prices(s: Seq<PricePoint>, p: PricePoint)
    ensures
        prices_of(insert_by_price(s, p)).to_multiset() == prices_of(s).to_multiset().insert(
            p.price,
        ),
    decreases s.len(),
{
    broadcast use vstd::seq_lib::group_to_multiset_ensures;

    if s.len() == 0 {
        assert(prices_of(seq![p]) =~= prices_of(s).push(p.price));
    } else if s.last().price <= p.price {
        assert(prices_of(s.push(p)) =~= prices_of(s).push(p.price));
    } else {
        let d = s.drop_last();
        lemma_insert_prices(d, p);
        assert(prices_of(insert_by_price(d, p).push(s.last())) =~= prices_of(
            insert_by_price(d, p),
        ).push(s.last().price));
        assert(prices_of(s) =~= prices_of(d).push(s.last().price));
        assert(prices_of(d).to_multiset().insert(p.price).insert(s.last().price)
            =~= prices_of(d).to_multiset().insert(s.last().price).insert(p.price));
    }
}

/// Every point that survives eviction is live and comes from the window.
pub proof fn lemma_kept_elements(s: Seq<PricePoint>, now: u64, timeout: u64, who: u64)
    ensures
        forall|i: int|
            0 <= i < kept_points(s, now, timeout, who).len() ==> is_kept(
                #[trigger] kept_points(s, now, timeout, who)[i],
                now,
                timeout,
                who,
            ) && s.contains(kept_points(s, now, timeout, who)[i]),
    decreases s.len(),
{
    if s.len() > 0 {
        let d = s.drop_last();
        lemma_kept_elements(d, now, timeout, who);
        let k = kept_points(s, now, timeout, who);
        let kd = kept_points(d, now, timeout, who);
        assert forall|i: int| 0 <= i < k.len() implies is_kept(#[trigger] k[i], now, timeout, who)
            && s.contains(k[i]) by {
            if i < kd.len() {
                assert(k[i] == kd[i]);
                let j = choose|j: int| 0 <= j < d.len() && #[trigger] d[j] == kd[i];
                assert(s[j] == kd[i]);
            } else {
                assert(k[i] == s.last());
                assert(s[s.len() - 1] == s.last());
            }
        }
    }
}

/// A window whose points are all live loses none of them.
pub proof fn lemma_kept_all_live(s: Seq<PricePoint>, now: u64, timeout: u64, who: u64)
    requires
        forall|i: int| 0 <= i < s.len() ==> is_kept(#[trigger] s[i], now, timeout, who),
    ensures
        kept_points(s, now, timeout, who) == s,
    decreases s.len(),
{
    if s.len() > 0 {
        let d = s.drop_last();
        assert forall|i: int| 0 <= i < d.len() implies is_kept(#[trigger] d[i], now, timeout, who) by {
            assert(d[i] == s[i]);
        }
        lemma_kept_all_live(d, now, timeout, who);
        assert(s[s.len() - 1] == s.last());
        assert(d.push(s.last()) =~= s);
    }
}

/// Every point left after removing `who`'s is from another feeder and
/// comes from the window; and a point of another feeder is left.
pub proof fn lemma_without_feeder_elements(s: Seq<PricePoint>, who: u64)
    ensures
        forall|i: int|
            0 <= i < without_feeder(s, who).len() ==> (#[trigger] without_feeder(s, who)[i]).account_id
                != who && s.contains(without_feeder(s, who)[i]),
        forall|i: int|
            0 <= i < s.len() && (#[trigger] s[i]).account_id != who ==> without_feeder(
                s,
                who,
            ).contains(s[i]),
        without_feeder(s, who).len() <= s.len(),
    decreases s.len(),
{
    if s.len() > 0 {
        let d = s.drop_last();
        lemma_without_feeder_elements(d, who);
        let w = without_feeder(s, who);
        let wd = without_feeder(d, who);
        assert forall|i: int| 0 <= i < w.len() implies (#[trigger] w[i]).account_id != who
            && s.contains(w[i]) by {
            if i < wd.len() {
                assert(w[i] == wd[i]);
                let j = choose|j: int| 0 <= j < d.len() && #[trigger] d[j] == wd[i];
                assert(s[j] == wd[i]);
            } else {
                assert(w[i] == s.last());
                assert(s[s.len() - 1] == s.last());
            }
        }
        assert forall|i: int| 0 <= i < s.len() && (#[trigger] s[i]).account_id != who implies w.contains(
            s[i],
        ) by {
            if i < d.len() {
                assert(d[i] == s[i]);
                let j = choose|j: int| 0 <= j < wd.len() && #[trigger] wd[j] == d[i];
                assert(w[j] == wd[j]);
            } else {
                assert(s[i] == s.last());
                assert(w[w.len() - 1] == s.last());
            }
        }
    }
}

/// No two points of the window come from the same feeder.
pub open spec fn distinct_accounts(s: Seq<PricePoint>) -> bool {
    forall|i: int, j: int| 0 <= i < j < s.len() ==> s[i].account_id != s[j].account_id
}

/// A well-formed window: ascending by price, one point per feeder.
pub open spec fn window_wf(s: Seq<PricePoint>) -> bool {
    sorted_by_price(s) && distinct_accounts(s)
}

proof fn lemma_push_wf(s: Seq<PricePoint>, x: PricePoint)
    requires
        window_wf(s),
        forall|i: int| 0 <= i < s.len() ==> (#[trigger] s[i]).price <= x.price,
        forall|i: int| 0 <= i < s.len() ==> (#[trigger] s[i]).account_id != x.account_id,
    ensures
        window_wf(s.push(x)),
{
    let t = s.push(x);
    assert forall|i: int, j: int| 0 <= i < j < t.len() implies t[i].price <= t[j].price
        && t[i].account_id != t[j].account_id by {
        assert(t[i] == s[i]);
        if j < s.len() {
            assert(t[j] == s[j]);
        }
    }
}

proof fn lemma_drop_last_wf(s: Seq<PricePoint>)
    requires
        window_wf(s),
        s.len() > 0,
    ensures
        window_wf(s.drop_last()),
        forall|i: int|
            0 <= i < s.drop_last().len() ==> (#[trigger] s.drop_last()[i]).price <= s.last().price
                && s.drop_last()[i].account_id != s.last().account_id,
{
    let d = s.drop_last();
    assert forall|i: int| 0 <= i < d.len() implies (#[trigger] d[i]).price <= s.last().price
        && d[i].account_id != s.last().account_id by {
        assert(d[i] == s[i]);
        assert(s[s.len() - 1] == s.last());
    }
    assert forall|i: int, j: int| 0 <= i < j < d.len() implies d[i].price <= d[j].price
        && d[i].account_id != d[j].account_id by {
        assert(d[i] == s[i] && d[j] == s[j]);
    }
}

/// Eviction keeps a window well formed.
pub proof fn lemma_kept_wf(s: Seq<PricePoint>, now: u64, timeout: u64, who: u64)
    requires
        window_wf(s),
    ensures
        window_wf(kept_points(s, now, timeout, who)),
        forall|i: int|
            0 <= i < kept_points(s, now, timeout, who).len() ==> (#[trigger] kept_points(
                s,
                now,
                timeout,
                who,
            )[i]).account_id != who,
    decreases s.len(),
{
    lemma_kept_elements(s, now, timeout, who);
    if s.len() > 0 {
        let d = s.drop_last();
        lemma_drop_last_wf(s);
        lemma_kept_wf(d, now, timeout, who);
        lemma_kept_elements(d, now, timeout, who);
        let k = kept_points(d, now, timeout, who);
        if is_kept(s.last(), now, timeout, who) {
            assert forall|i: int| 0 <= i < k.len() implies (#[trigger] k[i]).price <= s.last().price
                && k[i].account_id != s.last().account_id by {
                let j = choose|j: int| 0 <= j < d.len() && #[trigger] d[j] == k[i];
            }
            lemma_push_wf(k, s.last());
        }
    }
}

/// Removing a feeder keeps a window well formed.
pub proof fn lemma_without_feeder_wf(s: Seq<PricePoint>, who: u64)
    requires
        window_wf(s),
    ensures
        window_wf(without_feeder(s, who)),
    decreases s.len(),
{
    if s.len() > 0 {
        let d = s.drop_last();
        lemma_drop_last_wf(s);
        lemma_without_feeder_wf(d, who);
        lemma_without_feeder_elements(d, who);
        let k = without_feeder(d, who);
        if s.last().account_id != who {
            assert forall|i: int| 0 <= i < k.len() implies (#[trigger] k[i]).price <= s.last().price
                && k[i].account_id != s.last().account_id by {
                let j = choose|j: int| 0 <= j < d.len() && #[trigger] d[j] == k[i];
            }
            lemma_push_wf(k, s.last());
        }
    }
}

/// A removal that leaves every point in place changes nothing.
pub proof fn lemma_without_feeder_same_len(s: Seq<PricePoint>, who: u64)
    requires
        without_feeder(s, who).len() == s.len(),
    ensures
        without_feeder(s, who) == s,
    decreases s.len(),
{
    if s.len() > 0 {
        let d = s.drop_last();
        lemma_without_feeder_elements(d, who);
        if s.last().account_id != who {
            lemma_without_feeder_same_len(d, who);
            assert(d.push(s.last()) =~= s);
        }
    }
}

/// Inserting a new feeder's point keeps a window well formed.
pub proof fn lemma_insert_wf(s: Seq<PricePoint>, p: PricePoint)
    requires
        window_wf(s),
        forall|i: int| 0 <= i < s.len() ==> (#[trigger] s[i]).account_id != p.account_id,
    ensures
        window_wf(insert_by_price(s, p)),
    decreases s.len(),
{
    lemma_insert_sorted(s, p);
    if s.len() == 0 {
    } else if s.last().price <= p.price {
        assert forall|i: int| 0 <= i < s.len() implies (#[trigger] s[i]).price <= p.price by {
            assert(s[s.len() - 1] == s.last());
        }
        lemma_push_wf(s, p);
    } else {
        let d = s.drop_last();
        lemma_drop_last_wf(s);
        assert forall|i: int| 0 <= i < d.len() implies (#[trigger] d[i]).account_id != p.account_id by {
            assert(d[i] == s[i]);
        }
        lemma_insert_wf(d, p);
        lemma_insert_elements(d, p);
        let v = insert_by_price(d, p);
        assert(s[s.len() - 1] == s.last());
        assert forall|i: int| 0 <= i < v.len() implies (#[trigger] v[i]).price <= s.last().price
            && v[i].account_id != s.last().account_id by {
            if v[i] != p {
                let j = choose|j: int| 0 <= j < d.len() && #[trigger] d[j] == v[i];
            }
        }
        lemma_push_wf(v, s.last());
    }
}

/// A window whose points are all stale loses all of them.
pub proof fn lemma_kept_none(s: Seq<PricePoint>, now: u64, timeout: u64, who: u64)
    requires
        forall|i: int| 0 <= i < s.len() ==> (#[trigger] s[i]).timestamp + timeout <= now,
    ensures
        kept_points(s, now, timeout, who).len() == 0,
    decreases s.len(),
{
    if s.len() > 0 {
        let d = s.drop_last();
        assert forall|i: int| 0 <= i < d.len() implies (#[trigger] d[i]).timestamp + timeout
            <= now by {
            assert(d[i] == s[i]);
        }
        lemma_kept_none(d, now, timeout, who);
        assert(s[s.len() - 1] == s.last());
    }
}

} // verus!
