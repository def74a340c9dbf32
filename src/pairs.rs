//! Pairs of distinct positions in a list, as used to check that the component types one
//! system asks for are pairwise distinct.

use vstd::prelude::*;

verus! {

/// Every pair `(s[i], s[j])` with `i < j`, ordered by `i`, then by `j`.
pub open spec fn triangle_pairs<T>(s: Seq<T>) -> Seq<(T, T)>
    decreases s.len(),
{
    if s.len() == 0 {
        Seq::empty()
    } else {
        s.drop_first().map_values(|y: T| (s[0], y)) + triangle_pairs(s.drop_first())
    }
}

/// Every pair of items at two positions `i < j` of `items`, ordered by `i`, then by `j`.
pub fn triangle_perms<T: Copy>(items: &[T]) -> (r: Vec<(T, T)>)
    ensures
        r@ == triangle_pairs(items@),
{
    let n = items.len();
    let mut out: Vec<(T, T)> = Vec::new();
    let mut i: usize = 0;
    assert(items@.skip(0) =~= items@);
    assert(out@ + triangle_pairs(items@) =~= triangle_pairs(items@));
    while i < n
        invariant
            n == items@.len(),
            i <= n,
            out@ + triangle_pairs(items@.skip(i as int)) == triangle_pairs(items@),
        decreases n - i,
    {
        let ghost rest = items@.skip(i as int);
        let ghost row = rest.drop_first().map_values(|y: T| (rest[0], y));
        let ghost start = out@;
        assert(rest.drop_first() =~= items@.skip(i + 1));
        let x = items[i];
        let mut j: usize = i + 1;
        while j < n
            invariant
                n == items@.len(),
                i < j <= n,
                x == items@[i as int],
                rest == items@.skip(i as int),
                row == rest.drop_first().map_values(|y: T| (rest[0], y)),
                row.len() == n - i - 1,
                out@ == start + row.take(j - i - 1),
            decreases n - j,
        {
            out.push((x, items[j]));
            j = j + 1;
            assert(row.take(j - i - 1) =~= row.take(j - i - 2).push((x, items@[j - 1])));
        }
        assert(row.take(n - i - 1) =~= row);
        assert(out@ + triangle_pairs(items@.skip(i + 1)) =~= start + triangle_pairs(rest));
        i = i + 1;
    }
    assert(items@.skip(n as int) =~= Seq::<T>::empty());
    assert(out@ =~= out@ + triangle_pairs(items@.skip(n as int)));
    out
}

/// Whether some pair in `ps` has two equal sides.
pub open spec fn has_equal_pair(ps: Seq<(usize, usize)>) -> bool {
    exists|k: int| 0 <= k < ps.len() && (#[trigger] ps[k]).0 == ps[k].1
}

/// Whether some value occurs twice in `s`.
pub open spec fn has_repeat(s: Seq<usize>) -> bool {
    exists|i: int, j: int| 0 <= i < j < s.len() && #[trigger] s[i] == #[trigger] s[j]
}

/// The pairs of `s` have two equal sides exactly when some value occurs twice in `s`.
proof fn lemma_equal_pair_iff_repeat(s: Seq<usize>)
    ensures
        has_equal_pair(triangle_pairs(s)) == has_repeat(s),
    decreases s.len(),
{
    if s.len() > 0 {
        let rest = s.drop_first();
        let row = rest.map_values(|y: usize| (s[0], y));
        let tp = triangle_pairs(s);
        lemma_equal_pair_iff_repeat(rest);
        assert(tp == row + triangle_pairs(rest));
        if has_equal_pair(tp) {
            let k = choose|k: int| 0 <= k < tp.len() && (#[trigger] tp[k]).0 == tp[k].1;
            if k < row.len() {
                assert(s[0] == s[k + 1]);
                assert(has_repeat(s));
            } else {
                let k2 = k - row.len();
                assert(triangle_pairs(rest)[k2] == tp[k]);
                assert(has_equal_pair(triangle_pairs(rest)));
                let (i, j) = choose|i: int, j: int|
                    0 <= i < j < rest.len() && #[trigger] rest[i] == #[trigger] rest[j];
                assert(s[i + 1] == s[j + 1]);
                assert(has_repeat(s));
            }
        }
        if has_repeat(s) {
            let (i, j) = choose|i: int, j: int|
                0 <= i < j < s.len() && #[trigger] s[i] == #[trigger] s[j];
            if i == 0 {
                assert(tp[j - 1] == row[j - 1]);
                assert(has_equal_pair(tp));
            } else {
                assert(rest[i - 1] == s[i] && rest[j - 1] == s[j]);
                assert(has_repeat(rest));
                let k = choose|k: int|
                    0 <= k < triangle_pairs(rest).len() && (#[trigger] triangle_pairs(rest)[k]).0
                        == triangle_pairs(rest)[k].1;
                assert(tp[row.len() + k] == triangle_pairs(rest)[k]);
                assert(has_equal_pair(tp));
            }
        }
    }
}

/// Whether the kinds in `kinds` are pairwise distinct: no two of its positions hold the same
/// kind. Each pair of positions is checked, as `triangle_perms` lists them.
pub fn kinds_distinct(kinds: &[usize]) -> (r: bool)
    ensures
        r == !has_repeat(kinds@),
{
    let pairs = triangle_perms(kinds);
    proof {
        lemma_equal_pair_iff_repeat(kinds@);
    }
    let mut k: usize = 0;
    while k < pairs.len()
        invariant
            k <= pairs@.len(),
            pairs@ == triangle_pairs(kinds@),
            has_equal_pair(triangle_pairs(kinds@)) == has_repeat(kinds@),
            forall|m: int| 0 <= m < k ==> (#[trigger] pairs@[m]).0 != pairs@[m].1,
        decreases pairs@.len() - k,
    {
        if pairs[k].0 == pairs[k].1 {
            assert(has_equal_pair(pairs@));
            return false;
        }
        k = k + 1;
    }
    true
}

} // verus!
