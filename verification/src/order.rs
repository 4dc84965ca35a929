use vstd::prelude::*;

verus! {

/// Position `a` comes before position `b` when its key is larger, or when
/// the keys are equal and `a` is earlier (a stable sort by descending key).
pub open spec fn comes_before(keys: Seq<i64>, a: int, b: int) -> bool {
    keys[a] > keys[b] || (keys[a] == keys[b] && a < b)
}

/// `ord` lists every position of `keys` once, by descending key, equal keys
/// in their input order.
pub open spec fn is_descending_order(keys: Seq<i64>, ord: Seq<usize>) -> bool {
    &&& ord.len() == keys.len()
    &&& forall|p: int| 0 <= p < ord.len() ==> #[trigger] ord[p] < keys.len()
    &&& forall|j: int| 0 <= j < keys.len() ==> #[trigger] ord.contains(j as usize)
    &&& forall|p: int, q: int|
        0 <= p < q < ord.len() ==> comes_before(keys, #[trigger] ord[p] as int, #[trigger] ord[q] as int)
}

/// The positions of `keys` by descending key, ties kept in order.
pub open spec fn descending_positions(keys: Seq<i64>) -> Seq<usize> {
    choose|ord: Seq<usize>| is_descending_order(keys, ord)
}

/// There is one descending order only: two orders that both list every
/// position once, by descending key with ties in input order, are equal.
pub proof fn lemma_descending_order_unique(keys: Seq<i64>, a: Seq<usize>, b: Seq<usize>)
    requires
        is_descending_order(keys, a),
        is_descending_order(keys, b),
    ensures
        a == b,
{
    if a.len() > 0 {
        lemma_orders_agree(keys, a, b, a.len() - 1);
    }
    assert(a =~= b);
}

proof fn lemma_orders_agree(keys: Seq<i64>, a: Seq<usize>, b: Seq<usize>, p: int)
    requires
        is_descending_order(keys, a),
        is_descending_order(keys, b),
        0 <= p < a.len(),
    ensures
        forall|m: int| 0 <= m <= p ==> a[m] == b[m],
    decreases p,
{
    if p > 0 {
        lemma_orders_agree(keys, a, b, p - 1);
    }
    let x = a[p];
    let y = b[p];
    if x != y {
        assert(b[p] < keys.len());
        assert(a.contains((y as int) as usize));
        let q = choose|q: int| 0 <= q < a.len() && a[q] == y;
        assert(a[p] < keys.len());
        assert(b.contains((x as int) as usize));
        let r = choose|r: int| 0 <= r < b.len() && b[r] == x;
        if q < p {
            assert(b[q] == y);
            assert(comes_before(keys, b[q] as int, b[p] as int));
        }
        if r < p {
            assert(a[r] == x);
            assert(comes_before(keys, a[r] as int, a[p] as int));
        }
        assert(comes_before(keys, a[p] as int, a[q] as int));
        assert(comes_before(keys, b[p] as int, b[r] as int));
    }
}

/// Positions `0..keys.len()` by descending key, equal keys in their
/// input order (an insertion sort on positions).
pub fn descending_order(keys: &Vec<i64>) -> (ord: Vec<usize>)
    ensures
        is_descending_order(keys@, ord@),
        ord@ == descending_positions(keys@),
{
    let mut ord: Vec<usize> = Vec::new();
    let n = keys.len();
    for i in 0..n
        invariant
            n == keys@.len(),
            ord@.len() == i,
            forall|p: int| 0 <= p < ord@.len() ==> #[trigger] ord@[p] < i,
            forall|j: int| 0 <= j < i ==> #[trigger] ord@.contains(j as usize),
            forall|p: int, q: int|
                0 <= p < q < ord@.len() ==> comes_before(keys@, #[trigger] ord@[p] as int, #[trigger] ord@[q] as int),
    {
        let k = keys[i];
        let mut pos: usize = 0;
        while pos < ord.len() && keys[ord[pos]] >= k
            invariant
                n == keys@.len(),
                ord@.len() == i,
                i < n,
                k == keys@[i as int],
                pos <= ord@.len(),
                forall|p: int| 0 <= p < ord@.len() ==> #[trigger] ord@[p] < i,
                forall|p: int| 0 <= p < pos ==> keys@[#[trigger] ord@[p] as int] >= k,
            decreases ord@.len() - pos,
        {
            pos = pos + 1;
        }
        let ghost before = ord@;
        proof {
            assert forall|q: int| pos <= q < before.len() implies keys@[#[trigger] before[q] as int] < k by {
                if q > pos {
                    assert(comes_before(keys@, before[pos as int] as int, before[q] as int));
                }
            }
        }
        ord.insert(pos, i);
        proof {
            assert(ord@ == before.insert(pos as int, i));
            assert forall|p: int, q: int|
                0 <= p < q < ord@.len() implies comes_before(keys@, #[trigger] ord@[p] as int, #[trigger] ord@[q] as int) by {
                if q < pos {
                    assert(ord@[p] == before[p] && ord@[q] == before[q]);
                } else if q == pos {
                    assert(ord@[p] == before[p]);
                } else if p == pos {
                    assert(ord@[q] == before[q - 1]);
                } else if p < pos {
                    assert(ord@[p] == before[p] && ord@[q] == before[q - 1]);
                } else {
                    assert(ord@[p] == before[p - 1] && ord@[q] == before[q - 1]);
                }
            }
            assert forall|p: int| 0 <= p < ord@.len() implies #[trigger] ord@[p] < i + 1 by {
                if p < pos {
                    assert(ord@[p] == before[p]);
                } else if p > pos {
                    assert(ord@[p] == before[p - 1]);
                }
            }
            assert forall|j: int| 0 <= j < i + 1 implies #[trigger] ord@.contains(j as usize) by {
                if j == i {
                    assert(ord@[pos as int] == i);
                } else {
                    assert(before.contains(j as usize));
                    let p = choose|p: int| 0 <= p < before.len() && before[p] == j as usize;
                    if p < pos {
                        assert(ord@[p] == j as usize);
                    } else {
                        assert(ord@[p + 1] == j as usize);
                    }
                }
            }
        }
    }
    proof {
        assert(is_descending_order(keys@, ord@));
        lemma_descending_order_unique(keys@, ord@, descending_positions(keys@));
    }
    ord
}

} // verus!
