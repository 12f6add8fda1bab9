use vstd::prelude::*;

verus! {

/// Row `a` comes before row `b` in a ranking by `keys`: its key is larger, or the keys
/// are equal and `a` came first in the input.
pub open spec fn ranks_before(keys: Seq<u64>, a: int, b: int) -> bool {
    keys[a] > keys[b] || (keys[a] == keys[b] && a < b)
}

/// `idx` lists every row index once, in descending order of key, equal keys in input order.
pub open spec fn is_ranking(keys: Seq<u64>, idx: Seq<usize>) -> bool {
    &&& idx.len() == keys.len()
    &&& forall|i: int| 0 <= i < idx.len() ==> #[trigger] idx[i] < keys.len()
    &&& forall|k: int| 0 <= k < keys.len() ==> #[trigger] idx.contains(k as usize)
    &&& forall|i: int, j: int|
        0 <= i < j < idx.len() ==> ranks_before(keys, #[trigger] idx[i] as int, #[trigger] idx[j] as int)
}

/// The indices `0..n` in order.
pub open spec fn identity(n: nat) -> Seq<usize> {
    Seq::new(n, |i: int| i as usize)
}

/// The rows of `keys` ranked by key: largest first, equal keys in input order.
pub fn rank_by(keys: &Vec<u64>) -> (r: Vec<usize>)
    ensures
        is_ranking(keys@, r@),
{
    let n = keys.len();
    let mut idx: Vec<usize> = Vec::new();
    let mut i: usize = 0;
    while i < n
        invariant
            n == keys@.len(),
            i <= n,
            idx@.len() == i,
            forall|m: int| 0 <= m < idx@.len() ==> #[trigger] idx@[m] < i,
            forall|k: int| 0 <= k < i ==> #[trigger] idx@.contains(k as usize),
            forall|a: int, b: int|
                0 <= a < b < idx@.len() ==> ranks_before(
                    keys@,
                    #[trigger] idx@[a] as int,
                    #[trigger] idx@[b] as int,
                ),
        decreases n - i,
    {
        let key = keys[i];
        let mut pos: usize = 0;
        while pos < idx.len() && keys[idx[pos]] >= key
            invariant
                n == keys@.len(),
                i < n,
                pos <= idx@.len(),
                forall|m: int| 0 <= m < idx@.len() ==> #[trigger] idx@[m] < i,
                forall|m: int| 0 <= m < pos ==> keys@[#[trigger] idx@[m] as int] >= key,
            decreases idx@.len() - pos,
        {
            pos = pos + 1;
        }
        let ghost old_idx = idx@;
        idx.insert(pos, i);
        proof {
            assert forall|m: int| 0 <= m < idx@.len() implies #[trigger] idx@[m] < i + 1 by {
                if m < pos {
                    assert(idx@[m] == old_idx[m]);
                } else if m > pos {
                    assert(idx@[m] == old_idx[m - 1]);
                }
            }
            assert forall|k: int| 0 <= k < i + 1 implies #[trigger] idx@.contains(k as usize) by {
                if k == i {
                    assert(idx@[pos as int] == i);
                } else {
                    assert(old_idx.contains(k as usize));
                    let w = choose|w: int| 0 <= w < old_idx.len() && old_idx[w] == k as usize;
                    if w < pos {
                        assert(idx@[w] == k as usize);
                    } else {
                        assert(idx@[w + 1] == k as usize);
                    }
                }
            }
            assert forall|a: int, b: int| 0 <= a < b < idx@.len() implies ranks_before(
                keys@,
                #[trigger] idx@[a] as int,
                #[trigger] idx@[b] as int,
            ) by {
                if b < pos {
                    assert(idx@[a] == old_idx[a] && idx@[b] == old_idx[b]);
                } else if b == pos {
                    assert(idx@[a] == old_idx[a]);
                } else if a < pos {
                    assert(idx@[a] == old_idx[a] && idx@[b] == old_idx[b - 1]);
                } else if a == pos {
                    assert(idx@[b] == old_idx[b - 1]);
                    assert(keys@[old_idx[pos as int] as int] < key);
                    if b - 1 > pos {
                        assert(ranks_before(keys@, old_idx[pos as int] as int, old_idx[b - 1] as int));
                    }
                } else {
                    assert(idx@[a] == old_idx[a - 1] && idx@[b] == old_idx[b - 1]);
                }
            }
        }
        i = i + 1;
    }
    idx
}


proof fn lemma_sorted_unique(keys: Seq<u64>, a: Seq<usize>, b: Seq<usize>)
    requires
        a.len() == b.len(),
        forall|i: int| 0 <= i < a.len() ==> #[trigger] a[i] < keys.len(),
        forall|i: int| 0 <= i < b.len() ==> #[trigger] b[i] < keys.len(),
        forall|x: usize| a.contains(x) <==> b.contains(x),
        forall|i: int, j: int|
            0 <= i < j < a.len() ==> ranks_before(keys, #[trigger] a[i] as int, #[trigger] a[j] as int),
        forall|i: int, j: int|
            0 <= i < j < b.len() ==> ranks_before(keys, #[trigger] b[i] as int, #[trigger] b[j] as int),
    ensures
        a == b,
    decreases a.len(),
{
    if a.len() == 0 {
        assert(a =~= b);
    } else {
        assert(a.contains(a[0]));
        assert(b.contains(a[0]));
        let j = choose|j: int| 0 <= j < b.len() && b[j] == a[0];
        assert(b.contains(b[0]));
        assert(a.contains(b[0]));
        let m = choose|m: int| 0 <= m < a.len() && a[m] == b[0];
        if j > 0 {
            assert(ranks_before(keys, b[0] as int, b[j] as int));
            if m > 0 {
                assert(ranks_before(keys, a[0] as int, a[m] as int));
            }
        }
        assert(a[0] == b[0]);
        let ta = a.drop_first();
        let tb = b.drop_first();
        assert forall|x: usize| ta.contains(x) <==> tb.contains(x) by {
            if ta.contains(x) {
                let i = choose|i: int| 0 <= i < ta.len() && ta[i] == x;
                assert(a[i + 1] == x);
                assert(ranks_before(keys, a[0] as int, a[i + 1] as int));
                assert(a.contains(x));
                let k = choose|k: int| 0 <= k < b.len() && b[k] == x;
                assert(k != 0);
                assert(tb[k - 1] == x);
            }
            if tb.contains(x) {
                let i = choose|i: int| 0 <= i < tb.len() && tb[i] == x;
                assert(b[i + 1] == x);
                assert(ranks_before(keys, b[0] as int, b[i + 1] as int));
                assert(b.contains(x));
                let k = choose|k: int| 0 <= k < a.len() && a[k] == x;
                assert(k != 0);
                assert(ta[k - 1] == x);
            }
        }
        assert forall|i: int, j: int| 0 <= i < j < ta.len() implies ranks_before(
            keys,
            #[trigger] ta[i] as int,
            #[trigger] ta[j] as int,
        ) by {
            assert(ta[i] == a[i + 1] && ta[j] == a[j + 1]);
        }
        assert forall|i: int, j: int| 0 <= i < j < tb.len() implies ranks_before(
            keys,
            #[trigger] tb[i] as int,
            #[trigger] tb[j] as int,
        ) by {
            assert(tb[i] == b[i + 1] && tb[j] == b[j + 1]);
        }
        assert forall|i: int| 0 <= i < ta.len() implies #[trigger] ta[i] < keys.len() by {
            assert(ta[i] == a[i + 1]);
        }
        assert forall|i: int| 0 <= i < tb.len() implies #[trigger] tb[i] < keys.len() by {
            assert(tb[i] == b[i + 1]);
        }
        lemma_sorted_unique(keys, ta, tb);
        assert forall|i: int| 0 <= i < a.len() implies a[i] == b[i] by {
            if i > 0 {
                assert(a[i] == ta[i - 1] && b[i] == tb[i - 1]);
            }
        }
        assert(a =~= b);
    }
}

/// A ranking is determined by the keys alone: two rankings of the same keys are equal,
/// ties included.
pub proof fn lemma_ranking_unique(keys: Seq<u64>, a: Seq<usize>, b: Seq<usize>)
    requires
        is_ranking(keys, a),
        is_ranking(keys, b),
    ensures
        a == b,
{
    assert forall|x: usize| a.contains(x) <==> b.contains(x) by {
        if a.contains(x) {
            let i = choose|i: int| 0 <= i < a.len() && a[i] == x;
            assert(b.contains(x as int as usize));
        }
        if b.contains(x) {
            let i = choose|i: int| 0 <= i < b.len() && b[i] == x;
            assert(a.contains(x as int as usize));
        }
    }
    lemma_sorted_unique(keys, a, b);
}

} // verus!
