use vstd::prelude::*;

verus! {

/// Index `a` goes before index `b` when ordering by `keys`, largest first: it has the
/// larger key, or the same key and the smaller index.
pub open spec fn goes_before(keys: Seq<i64>, a: int, b: int) -> bool {
    keys[a] > keys[b] || (keys[a] == keys[b] && a < b)
}

/// Index `q` occurs in `p`.
pub open spec fn index_listed(p: Seq<int>, q: int) -> bool {
    exists|k: int| 0 <= k < p.len() && p[k] == q
}

/// `p` lists every index below `n` exactly once.
pub open spec fn is_index_permutation(p: Seq<int>, n: nat) -> bool {
    &&& p.len() == n
    &&& forall|k: int| 0 <= k < p.len() ==> 0 <= #[trigger] p[k] < n
    &&& forall|k: int, l: int| 0 <= k < l < p.len() ==> p[k] != p[l]
    &&& forall|q: int| 0 <= q < n ==> #[trigger] index_listed(p, q)
}

/// `p` orders indices into `keys` by key, largest first, ties by index.
pub open spec fn ordered_desc(keys: Seq<i64>, p: Seq<int>) -> bool {
    forall|k: int, l: int| 0 <= k < l < p.len() ==> goes_before(keys, #[trigger] p[k], #[trigger] p[l])
}

/// The positions in `p` as integers.
pub open spec fn as_ints(p: Seq<usize>) -> Seq<int> {
    p.map_values(|x: usize| x as int)
}

proof fn lemma_insert_index(keys: Seq<i64>, before: Seq<int>, after: Seq<int>, j: int, pos: int)
    requires
        0 <= j < keys.len(),
        0 <= pos <= before.len(),
        after == before.insert(pos, j),
        is_index_permutation(before, j as nat),
        ordered_desc(keys, before),
        forall|k: int| 0 <= k < pos ==> keys[#[trigger] before[k]] >= keys[j],
        pos < before.len() ==> keys[before[pos]] < keys[j],
    ensures
        is_index_permutation(after, (j + 1) as nat),
        ordered_desc(keys, after),
{
    assert forall|k: int| 0 <= k < after.len() implies 0 <= #[trigger] after[k] < j + 1 by {
        if k < pos {
            assert(after[k] == before[k]);
        } else if k > pos {
            assert(after[k] == before[k - 1]);
        }
    }
    assert forall|k: int, l: int| 0 <= k < l < after.len() implies after[k] != after[l] by {
        if l < pos {
            assert(after[k] == before[k] && after[l] == before[l]);
        } else if l == pos {
            assert(after[k] == before[k]);
        } else if k < pos {
            assert(after[k] == before[k] && after[l] == before[l - 1]);
        } else if k == pos {
            assert(after[l] == before[l - 1]);
        } else {
            assert(after[k] == before[k - 1] && after[l] == before[l - 1]);
        }
    }
    assert forall|q: int| 0 <= q < j + 1 implies #[trigger] index_listed(after, q) by {
        if q < j {
            assert(index_listed(before, q));
            let k = choose|k: int| 0 <= k < before.len() && before[k] == q;
            if k < pos {
                assert(after[k] == q);
            } else {
                assert(after[k + 1] == q);
            }
        } else {
            assert(after[pos] == q);
        }
    }
    assert forall|k: int| pos <= k < before.len() implies keys[#[trigger] before[k]] < keys[j] by {
        if k > pos {
            assert(goes_before(keys, before[pos], before[k]));
        }
    }
    assert forall|k: int, l: int| 0 <= k < l < after.len() implies goes_before(keys, #[trigger] after[k], #[trigger] after[l]) by {
        if l < pos {
            assert(after[k] == before[k] && after[l] == before[l]);
            assert(goes_before(keys, before[k], before[l]));
        } else if l == pos {
            assert(after[k] == before[k]);
            assert(keys[before[k]] >= keys[j]);
        } else if k < pos {
            assert(after[k] == before[k] && after[l] == before[l - 1]);
            assert(goes_before(keys, before[k], before[l - 1]));
        } else if k == pos {
            assert(after[l] == before[l - 1]);
            assert(keys[before[l - 1]] < keys[j]);
        } else {
            assert(after[k] == before[k - 1] && after[l] == before[l - 1]);
            assert(goes_before(keys, before[k - 1], before[l - 1]));
        }
    }
}

/// The indices of `keys` ordered by key, largest first; equal keys keep their order.
pub fn order_desc(keys: &Vec<i64>) -> (p: Vec<usize>)
    ensures
        is_index_permutation(as_ints(p@), keys@.len()),
        ordered_desc(keys@, as_ints(p@)),
{
    let n = keys.len();
    let mut p: Vec<usize> = Vec::new();
    let mut j: usize = 0;
    assert(as_ints(p@) =~= Seq::<int>::empty());
    while j < n
        invariant
            n == keys@.len(),
            j <= n,
            is_index_permutation(as_ints(p@), j as nat),
            ordered_desc(keys@, as_ints(p@)),
        decreases n - j,
    {
        let x = keys[j];
        let m = p.len();
        let mut pos: usize = 0;
        assert forall|k: int| 0 <= k < m implies #[trigger] p@[k] < j by {
            assert(as_ints(p@)[k] == p@[k] as int);
        }
        while pos < m && keys[p[pos]] >= x
            invariant
                forall|k: int| 0 <= k < m ==> #[trigger] p@[k] < j,
                n == keys@.len(),
                j < n,
                m == p@.len(),
                pos <= m,
                is_index_permutation(as_ints(p@), j as nat),
                x == keys@[j as int],
                forall|k: int| 0 <= k < pos ==> keys@[#[trigger] as_ints(p@)[k]] >= x,
            decreases m - pos,
        {
            assert(as_ints(p@)[pos as int] == p@[pos as int] as int);
            pos = pos + 1;
        }
        let ghost before = as_ints(p@);
        p.insert(pos, j);
        proof {
            assert(as_ints(p@) =~= before.insert(pos as int, j as int));
            lemma_insert_index(keys@, before, as_ints(p@), j as int, pos as int);
        }
        j = j + 1;
    }
    p
}

} // verus!
