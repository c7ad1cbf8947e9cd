//! The order of strings, and sorting by it.

use vstd::prelude::*;

verus! {

/// Whether `a` comes before `b` in the order of strings: the first
/// character in which they differ decides, and a string comes after each
/// of its proper beginnings.
pub open spec fn text_less(a: Seq<char>, b: Seq<char>) -> bool
    decreases a.len(),
{
    if b.len() == 0 {
        false
    } else if a.len() == 0 {
        true
    } else if a[0] != b[0] {
        (a[0] as u32) < (b[0] as u32)
    } else {
        text_less(a.drop_first(), b.drop_first())
    }
}

/// Whether `a` comes before `b` in the order of strings.
pub fn text_before(a: &Vec<char>, b: &Vec<char>) -> (r: bool)
    ensures
        r == text_less(a@, b@),
{
    let mut i: usize = 0;
    assert(a@.skip(0) =~= a@);
    assert(b@.skip(0) =~= b@);
    while i < a.len() && i < b.len() && a[i] == b[i]
        invariant
            i <= a@.len(),
            i <= b@.len(),
            text_less(a@, b@) == text_less(a@.skip(i as int), b@.skip(i as int)),
        decreases a@.len() - i,
    {
        assert(a@.skip(i as int).drop_first() =~= a@.skip(i + 1));
        assert(b@.skip(i as int).drop_first() =~= b@.skip(i + 1));
        i = i + 1;
    }
    if i >= b.len() {
        false
    } else if i >= a.len() {
        true
    } else {
        (a[i] as u32) < (b[i] as u32)
    }
}

/// `order`, which lists positions of `keys` in ascending order of their
/// keys, with the position `k` put in: behind every position whose key
/// does not come after the key of `k`.
pub open spec fn placed(keys: Seq<Seq<char>>, order: Seq<usize>, k: usize) -> Seq<usize>
    decreases order.len(),
{
    if order.len() == 0 {
        seq![k]
    } else if 0 <= k < keys.len() && 0 <= order.last() < keys.len() && text_less(
        keys[k as int],
        keys[order.last() as int],
    ) {
        placed(keys, order.drop_last(), k).push(order.last())
    } else {
        order.push(k)
    }
}

/// The first `n` positions of `keys` in ascending order of their keys;
/// positions with equal keys keep their order.
pub open spec fn sorted_order(keys: Seq<Seq<char>>, n: nat) -> Seq<usize>
    decreases n,
{
    if n == 0 {
        Seq::empty()
    } else {
        placed(keys, sorted_order(keys, (n - 1) as nat), (n - 1) as usize)
    }
}

/// The views of a vector of character vectors.
pub open spec fn char_views(keys: Seq<Vec<char>>) -> Seq<Seq<char>> {
    Seq::new(keys.len(), |i: int| keys[i]@)
}

proof fn placed_in_range(keys: Seq<Seq<char>>, order: Seq<usize>, k: usize, bound: nat)
    requires
        k < bound,
        forall|i: int| 0 <= i < order.len() ==> 0 <= (#[trigger] order[i]) < bound,
    ensures
        placed(keys, order, k).len() == order.len() + 1,
        forall|i: int|
            0 <= i < order.len() + 1 ==> 0 <= (#[trigger] placed(keys, order, k)[i]) < bound,
    decreases order.len(),
{
    if order.len() > 0 {
        placed_in_range(keys, order.drop_last(), k, bound);
    }
}

/// The positions of `keys` in ascending order of their keys.
pub fn sort_positions(keys: &Vec<Vec<char>>) -> (r: Vec<usize>)
    ensures
        r@ == sorted_order(char_views(keys@), keys@.len() as nat),
        r@.len() == keys@.len(),
        forall|i: int| 0 <= i < r@.len() ==> 0 <= (#[trigger] r@[i]) < keys@.len(),
{
    let ghost all = char_views(keys@);
    let mut order: Vec<usize> = Vec::new();
    let mut n: usize = 0;
    while n < keys.len()
        invariant
            n <= keys@.len(),
            all == char_views(keys@),
            order@ == sorted_order(all, n as nat),
            order@.len() == n,
            forall|i: int| 0 <= i < order@.len() ==> 0 <= (#[trigger] order@[i]) < n,
        decreases keys@.len() - n,
    {
        let mut p: usize = order.len();
        assert(order@.take(p as int) =~= order@);
        assert(placed(all, order@, n) + order@.skip(p as int) =~= placed(all, order@, n));
        while p > 0 && text_before(&keys[n], &keys[order[p - 1]])
            invariant
                p <= order@.len(),
                n < keys@.len(),
                all == char_views(keys@),
                forall|i: int| 0 <= i < order@.len() ==> 0 <= (#[trigger] order@[i]) < n,
                placed(all, order@, n) == placed(all, order@.take(p as int), n) + order@.skip(
                    p as int,
                ),
            decreases p,
        {
            proof {
                let upto = order@.take(p as int);
                assert(upto.last() == order@[p - 1]);
                assert(upto.drop_last() =~= order@.take(p - 1));
                assert(placed(all, upto, n) == placed(all, upto.drop_last(), n).push(upto.last()));
                assert(placed(all, upto.drop_last(), n).push(upto.last()) + order@.skip(p as int)
                    =~= placed(all, order@.take(p - 1), n) + order@.skip(p - 1));
            }
            p = p - 1;
        }
        proof {
            let upto = order@.take(p as int);
            if p > 0 {
                assert(upto.last() == order@[p - 1]);
            }
            assert(placed(all, upto, n) == upto.push(n));
            assert(upto.push(n) + order@.skip(p as int) =~= order@.insert(p as int, n));
            assert(order@.take(order@.len() as int) =~= order@);
        }
        order.insert(p, n);
        proof {
            placed_in_range(all, sorted_order(all, n as nat), n, (n + 1) as nat);
        }
        n = n + 1;
    }
    order
}

/// Whether `a` does not come after `b` in the order of strings.
pub open spec fn text_le(a: Seq<char>, b: Seq<char>) -> bool {
    !text_less(b, a)
}

/// Of two strings, one does not come after the other: where `a` comes
/// before `b`, `b` does not come before `a`.
pub proof fn text_less_is_one_way(a: Seq<char>, b: Seq<char>)
    requires
        text_less(a, b),
    ensures
        !text_less(b, a),
    decreases a.len(),
{
    if a.len() > 0 && b.len() > 0 && a[0] == b[0] {
        text_less_is_one_way(a.drop_first(), b.drop_first());
    }
}

/// Of two different strings, one comes before the other.
pub proof fn text_order_is_total(a: Seq<char>, b: Seq<char>)
    requires
        a != b,
    ensures
        text_less(a, b) || text_less(b, a),
    decreases a.len(),
{
    if a.len() > 0 && b.len() > 0 {
        if a[0] == b[0] {
            if a.drop_first() == b.drop_first() {
                assert(a =~= seq![a[0]] + a.drop_first());
                assert(b =~= seq![b[0]] + b.drop_first());
            }
            text_order_is_total(a.drop_first(), b.drop_first());
        } else {
            vstd::utf8::char_u32_cast(a[0], a[0] as u32);
            vstd::utf8::char_u32_cast(b[0], b[0] as u32);
        }
    } else if a.len() == 0 && b.len() == 0 {
        assert(a =~= b);
    }
}

/// The order of strings passes on: where `a` does not come after `b`, nor
/// `b` after `c`, `a` does not come after `c`.
pub proof fn text_le_passes_on(a: Seq<char>, b: Seq<char>, c: Seq<char>)
    requires
        text_le(a, b),
        text_le(b, c),
    ensures
        text_le(a, c),
    decreases a.len(),
{
    if a.len() > 0 {
        if c.len() == 0 {
            assert(b.len() == 0);
        } else {
            assert(b.len() > 0);
            if a[0] == b[0] && b[0] == c[0] {
                text_le_passes_on(a.drop_first(), b.drop_first(), c.drop_first());
            } else if a[0] == c[0] {
                assert((a[0] as u32) <= (b[0] as u32));
                assert((b[0] as u32) <= (c[0] as u32));
                assert((b[0] as u32) == (a[0] as u32));
                vstd::utf8::char_u32_cast(a[0], a[0] as u32);
                vstd::utf8::char_u32_cast(b[0], b[0] as u32);
            }
        }
    }
}

/// Whether the positions in `order` are positions of `keys` and come in
/// ascending order of their keys.
pub open spec fn ascending(keys: Seq<Seq<char>>, order: Seq<usize>) -> bool {
    &&& forall|i: int| 0 <= i < order.len() ==> 0 <= (#[trigger] order[i]) < keys.len()
    &&& forall|i: int, j: int|
        0 <= i < j < order.len() ==> text_le(
            keys[(#[trigger] order[i]) as int],
            keys[(#[trigger] order[j]) as int],
        )
}

proof fn placed_holds(keys: Seq<Seq<char>>, order: Seq<usize>, k: usize)
    ensures
        placed(keys, order, k).len() == order.len() + 1,
        forall|x: usize| #[trigger]
            placed(keys, order, k).contains(x) <==> (x == k || order.contains(x)),
    decreases order.len(),
{
    let out = placed(keys, order, k);
    if order.len() == 0 {
        assert(out[0] == k);
        assert forall|x: usize| x == k || order.contains(x) implies #[trigger] out.contains(x) by {
            assert(out[0] == x);
        }
    } else if 0 <= k < keys.len() && 0 <= order.last() < keys.len() && text_less(
        keys[k as int],
        keys[order.last() as int],
    ) {
        let shorter = placed(keys, order.drop_last(), k);
        placed_holds(keys, order.drop_last(), k);
        assert(out == shorter.push(order.last()));
        assert forall|x: usize| #[trigger] out.contains(x) <==> (x == k || order.contains(x)) by {
            if out.contains(x) {
                let i = choose|i: int| 0 <= i < out.len() && out[i] == x;
                if i < shorter.len() {
                    assert(shorter.contains(shorter[i]));
                    if x != k {
                        let j = choose|j: int|
                            0 <= j < order.drop_last().len() && order.drop_last()[j] == x;
                        assert(order[j] == x);
                    }
                } else {
                    assert(order[order.len() - 1] == x);
                }
            }
            if x == k {
                assert(shorter.contains(k));
                let i = choose|i: int| 0 <= i < shorter.len() && shorter[i] == x;
                assert(out[i] == x);
            } else if order.contains(x) {
                let j = choose|j: int| 0 <= j < order.len() && order[j] == x;
                if j < order.len() - 1 {
                    assert(order.drop_last()[j] == x);
                    assert(order.drop_last().contains(x));
                    assert(shorter.contains(x));
                    let i = choose|i: int| 0 <= i < shorter.len() && shorter[i] == x;
                    assert(out[i] == x);
                } else {
                    assert(out[out.len() - 1] == x);
                }
            }
        }
    } else {
        assert(out == order.push(k));
        assert forall|x: usize| #[trigger] out.contains(x) <==> (x == k || order.contains(x)) by {
            if out.contains(x) {
                let i = choose|i: int| 0 <= i < out.len() && out[i] == x;
                if i < order.len() {
                    assert(order[i] == x);
                }
            }
            if x == k {
                assert(out[out.len() - 1] == x);
            } else if order.contains(x) {
                let j = choose|j: int| 0 <= j < order.len() && order[j] == x;
                assert(out[j] == x);
            }
        }
    }
}

proof fn placed_stays_single(keys: Seq<Seq<char>>, order: Seq<usize>, k: usize)
    requires
        order.no_duplicates(),
        !order.contains(k),
    ensures
        placed(keys, order, k).no_duplicates(),
    decreases order.len(),
{
    let out = placed(keys, order, k);
    placed_holds(keys, order, k);
    if order.len() == 0 {
    } else if 0 <= k < keys.len() && 0 <= order.last() < keys.len() && text_less(
        keys[k as int],
        keys[order.last() as int],
    ) {
        let last = order.last();
        let shorter = placed(keys, order.drop_last(), k);
        assert(order.contains(last));
        assert forall|x: usize| order.drop_last().contains(x) implies order.contains(x) by {
            let i = choose|i: int| 0 <= i < order.drop_last().len() && order.drop_last()[i] == x;
            assert(order[i] == x);
        }
        placed_stays_single(keys, order.drop_last(), k);
        placed_holds(keys, order.drop_last(), k);
        assert(out == shorter.push(last));
        if order.drop_last().contains(last) {
            let i = choose|i: int|
                0 <= i < order.drop_last().len() && order.drop_last()[i] == last;
            assert(order[i] == order[order.len() - 1]);
        }
        assert(!shorter.contains(last));
        assert forall|i: int, j: int|
            0 <= i < out.len() && 0 <= j < out.len() && i != j implies out[i] != out[j] by {
            if i < shorter.len() && j < shorter.len() {
                assert(out[i] == shorter[i] && out[j] == shorter[j]);
            } else if i < shorter.len() {
                assert(shorter.contains(shorter[i]));
            } else {
                assert(shorter.contains(shorter[j]));
            }
        }
    } else {
        assert(out == order.push(k));
        assert forall|i: int, j: int|
            0 <= i < out.len() && 0 <= j < out.len() && i != j implies out[i] != out[j] by {
            if i < order.len() && j < order.len() {
            } else if i < order.len() {
                assert(order.contains(order[i]));
            } else {
                assert(order.contains(order[j]));
            }
        }
    }
}

proof fn placed_stays_ascending(keys: Seq<Seq<char>>, order: Seq<usize>, k: usize)
    requires
        ascending(keys, order),
        k < keys.len(),
    ensures
        ascending(keys, placed(keys, order, k)),
    decreases order.len(),
{
    let out = placed(keys, order, k);
    placed_holds(keys, order, k);
    if order.len() == 0 {
    } else if text_less(keys[k as int], keys[order.last() as int]) {
        let last = order.last();
        let shorter = placed(keys, order.drop_last(), k);
        placed_stays_ascending(keys, order.drop_last(), k);
        placed_holds(keys, order.drop_last(), k);
        assert(out == shorter.push(last));
        text_less_is_one_way(keys[k as int], keys[last as int]);
        assert forall|i: int, j: int| 0 <= i < j < out.len() implies text_le(
            keys[(#[trigger] out[i]) as int],
            keys[(#[trigger] out[j]) as int],
        ) by {
            if j < shorter.len() {
                assert(out[i] == shorter[i] && out[j] == shorter[j]);
            } else {
                assert(out[j] == last);
                assert(shorter.contains(shorter[i]));
                if shorter[i] != k {
                    let at = choose|at: int|
                        0 <= at < order.drop_last().len() && order.drop_last()[at] == shorter[i];
                    assert(order[at] == shorter[i]);
                    assert(text_le(keys[order[at] as int], keys[order[order.len() - 1] as int]));
                }
            }
        }
        assert forall|i: int| 0 <= i < out.len() implies 0 <= (#[trigger] out[i]) < keys.len() by {
            if i < shorter.len() {
                assert(out[i] == shorter[i]);
            }
        }
    } else {
        assert(out == order.push(k));
        assert forall|i: int, j: int| 0 <= i < j < out.len() implies text_le(
            keys[(#[trigger] out[i]) as int],
            keys[(#[trigger] out[j]) as int],
        ) by {
            if j < order.len() {
            } else {
                let last = order.last();
                if i < order.len() - 1 {
                    assert(text_le(keys[order[i] as int], keys[order[order.len() - 1] as int]));
                } else if text_less(keys[last as int], keys[last as int]) {
                    text_less_is_one_way(keys[last as int], keys[last as int]);
                }
                text_le_passes_on(keys[order[i] as int], keys[last as int], keys[k as int]);
            }
        }
    }
}

/// A sorted order is sorted: it holds each of the first `n` positions,
/// each once, and their keys ascend.
pub proof fn sorted_order_is_sorted(keys: Seq<Seq<char>>, n: nat)
    requires
        n <= keys.len(),
        keys.len() <= usize::MAX,
    ensures
        sorted_order(keys, n).len() == n,
        forall|k: usize| #[trigger] sorted_order(keys, n).contains(k) <==> k < n,
        sorted_order(keys, n).no_duplicates(),
        ascending(keys, sorted_order(keys, n)),
    decreases n,
{
    if n > 0 {
        let before = sorted_order(keys, (n - 1) as nat);
        sorted_order_is_sorted(keys, (n - 1) as nat);
        placed_holds(keys, before, (n - 1) as usize);
        placed_stays_single(keys, before, (n - 1) as usize);
        placed_stays_ascending(keys, before, (n - 1) as usize);
    } else {
        assert forall|k: usize| !(#[trigger] sorted_order(keys, n).contains(k)) by {}
    }
}

} // verus!
