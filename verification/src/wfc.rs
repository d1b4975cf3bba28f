//! Constraint propagation over a square grid of cells, each holding the indices
//! of the blocks it may still use (arc consistency, AC-3).
use vstd::prelude::*;
use crate::rng::rng_range_usize;

verus! {

/// Every candidate of every cell names one of the `nb` blocks.
pub open spec fn cands_in_range(cands: Seq<Vec<usize>>, nb: int) -> bool {
    forall|c: int, j: int|
        0 <= c < cands.len() && 0 <= j < cands[c]@.len() ==> #[trigger] cands[c]@[j] < nb
}

/// The four compatibility tables are `nb` by `nb`, indexed `a * nb + b`.
pub open spec fn compat_shape(compat: Seq<Vec<bool>>, nb: int) -> bool {
    compat.len() == 4 && forall|d: int| 0 <= d < 4 ==> (#[trigger] compat[d])@.len() == nb * nb
}

/// Neighbour `k` of cell `c` (0 = left, 1 = right, 2 = above, 3 = below), with the
/// compatibility table that relates the cell to it, when that neighbour exists.
pub open spec fn grid_nbr(size: int, c: int, k: int) -> Option<(int, int)> {
    let x = c % size;
    let y = c / size;
    if k == 0 {
        if x > 0 {
            Some((c - 1, 1))
        } else {
            None
        }
    } else if k == 1 {
        if x < size - 1 {
            Some((c + 1, 0))
        } else {
            None
        }
    } else if k == 2 {
        if y > 0 {
            Some((c - size, 3))
        } else {
            None
        }
    } else {
        if y < size - 1 {
            Some((c + size, 2))
        } else {
            None
        }
    }
}

/// Every pair of neighbouring cells in the assignment `s` is allowed by the
/// compatibility tables, in both directions.
pub open spec fn consistent(s: Seq<usize>, compat: Seq<Vec<bool>>, nb: int, size: int) -> bool {
    forall|c: int, k: int|
        0 <= c < size * size && 0 <= k < 4 ==> match #[trigger] grid_nbr(size, c, k) {
            Some((n, d)) => compat[d]@[s[c] * nb + s[n]],
            None => true,
        }
}

/// `s` picks one candidate in every cell and is consistent: a full solution
/// within the candidate lists.
pub open spec fn is_solution(s: Seq<usize>, cands: Seq<Vec<usize>>, compat: Seq<Vec<bool>>, nb: int, size: int) -> bool {
    &&& s.len() == cands.len()
    &&& forall|c: int| 0 <= c < cands.len() ==> cands[c]@.contains(#[trigger] s[c])
    &&& consistent(s, compat, nb, size)
}

/// Block `b` has a compatible partner among `from` in table `row`.
pub open spec fn supported(from: Seq<usize>, row: Seq<bool>, nb: int, b: usize) -> bool {
    exists|i: int| 0 <= i < from.len() && #[trigger] row[from[i] * nb + b]
}

/// Every candidate of the `k`-th neighbour of `c` is supported by some
/// candidate of `c` (vacuous when that neighbour does not exist).
pub open spec fn arc_ok(cands: Seq<Vec<usize>>, compat: Seq<Vec<bool>>, nb: int, size: int, c: int, k: int) -> bool {
    match grid_nbr(size, c, k) {
        Some((n, d)) => forall|j: int|
            0 <= j < cands[n]@.len() ==> #[trigger] supported(cands[c]@, compat[d]@, nb, cands[n]@[j]),
        None => true,
    }
}

/// `now` is `before` with some candidates dropped: each list only keeps old
/// entries, and a list that kept its length is unchanged.
pub open spec fn narrowed(before: Seq<Vec<usize>>, now: Seq<Vec<usize>>) -> bool {
    &&& now.len() == before.len()
    &&& forall|c: int, j: int|
        0 <= c < now.len() && 0 <= j < now[c]@.len() ==> before[c]@.contains(#[trigger] now[c]@[j])
    &&& forall|c: int| 0 <= c < now.len() ==> (#[trigger] now[c])@.len() <= before[c]@.len()
    &&& forall|c: int| 0 <= c < now.len() && now[c]@.len() == before[c]@.len() ==> (#[trigger] now[c])@ == before[c]@
}

/// An arc that propagation is owed: it held before, or its source cell was a
/// start, or its source cell lost candidates.
pub open spec fn arc_owed(
    old: Seq<Vec<usize>>,
    cur: Seq<Vec<usize>>,
    compat: Seq<Vec<bool>>,
    nb: int,
    size: int,
    starts: Seq<usize>,
    c: int,
    k: int,
) -> bool {
    arc_ok(old, compat, nb, size, c, k) || starts.contains(c as usize) || cur[c]@.len() < old[c]@.len()
}

pub open spec fn total_len(s: Seq<Vec<usize>>) -> int
    decreases s.len(),
{
    if s.len() == 0 {
        0
    } else {
        total_len(s.drop_last()) + s.last()@.len()
    }
}

proof fn lemma_total_len_update(s: Seq<Vec<usize>>, i: int, v: Vec<usize>)
    requires
        0 <= i < s.len(),
    ensures
        total_len(s.update(i, v)) == total_len(s) - s[i]@.len() + v@.len(),
    decreases s.len(),
{
    let t = s.update(i, v);
    if i == s.len() - 1 {
        assert(t.drop_last() =~= s.drop_last());
    } else {
        lemma_total_len_update(s.drop_last(), i, v);
        assert(t.drop_last() =~= s.drop_last().update(i, v));
    }
}

proof fn lemma_total_len_nonneg(s: Seq<Vec<usize>>)
    ensures
        total_len(s) >= 0,
    decreases s.len(),
{
    if s.len() > 0 {
        lemma_total_len_nonneg(s.drop_last());
    }
}

pub(crate) proof fn lemma_nbr_in_range(size: int, c: int, k: int)
    requires
        size >= 1,
        0 <= c < size * size,
        0 <= k < 4,
    ensures
        grid_nbr(size, c, k) matches Some((n, d)) ==> 0 <= n < size * size && 0 <= d < 4 && n != c,
{
    let x = c % size;
    let y = c / size;
    assert(c == y * size + x && 0 <= x < size && 0 <= y < size) by (nonlinear_arith)
        requires
            size >= 1,
            0 <= c < size * size,
            x == c % size,
            y == c / size,
    ;
    if x < size - 1 {
        assert(c + 1 < size * size) by (nonlinear_arith)
            requires
                c == y * size + x,
                0 <= x < size - 1,
                0 <= y < size,
        ;
    }
    if y < size - 1 {
        assert(c + size < size * size) by (nonlinear_arith)
            requires
                c == y * size + x,
                0 <= x < size,
                0 <= y < size - 1,
        ;
    }
    if y > 0 {
        assert(c - size >= 0) by (nonlinear_arith)
            requires
                c == y * size + x,
                0 <= x,
                y >= 1,
                size >= 1,
        ;
    }
}

proof fn lemma_row_index(a: int, b: int, nb: int)
    requires
        0 <= a < nb,
        0 <= b < nb,
    ensures
        0 <= a * nb + b < nb * nb,
{
    assert(0 <= a * nb + b < nb * nb) by (nonlinear_arith)
        requires
            0 <= a < nb,
            0 <= b < nb,
    ;
}

/// Keeps the candidates of a neighbour that have a compatible partner among
/// `cell_cands`, in their original order.
fn filter_supported(cell_cands: &Vec<usize>, nbr_cands: &Vec<usize>, row: &Vec<bool>, nb: usize) -> (r: Vec<usize>)
    requires
        forall|i: int| 0 <= i < cell_cands@.len() ==> #[trigger] cell_cands@[i] < nb,
        forall|j: int| 0 <= j < nbr_cands@.len() ==> #[trigger] nbr_cands@[j] < nb,
        row@.len() == nb * nb,
    ensures
        r@.len() <= nbr_cands@.len(),
        r@.len() == nbr_cands@.len() ==> r@ == nbr_cands@,
        forall|j: int| 0 <= j < r@.len() ==> nbr_cands@.contains(#[trigger] r@[j]),
        forall|j: int| 0 <= j < r@.len() ==> supported(cell_cands@, row@, nb as int, #[trigger] r@[j]),
        forall|j: int|
            0 <= j < nbr_cands@.len() && supported(cell_cands@, row@, nb as int, #[trigger] nbr_cands@[j])
                ==> r@.contains(nbr_cands@[j]),
{
    let mut out: Vec<usize> = Vec::new();
    let row_len = row.len();
    let mut j: usize = 0;
    while j < nbr_cands.len()
        invariant
            j <= nbr_cands@.len(),
            forall|i: int| 0 <= i < cell_cands@.len() ==> #[trigger] cell_cands@[i] < nb,
            forall|t: int| 0 <= t < nbr_cands@.len() ==> #[trigger] nbr_cands@[t] < nb,
            row@.len() == nb * nb,
            row_len == row@.len(),
            out@.len() <= j,
            out@.len() == j ==> out@ == nbr_cands@.take(j as int),
            forall|t: int| 0 <= t < out@.len() ==> nbr_cands@.contains(#[trigger] out@[t]),
            forall|t: int| 0 <= t < out@.len() ==> supported(cell_cands@, row@, nb as int, #[trigger] out@[t]),
            forall|t: int|
                0 <= t < j && supported(cell_cands@, row@, nb as int, #[trigger] nbr_cands@[t])
                    ==> out@.contains(nbr_cands@[t]),
        decreases nbr_cands@.len() - j,
    {
        let b = nbr_cands[j];
        let mut found = false;
        let mut i: usize = 0;
        while i < cell_cands.len()
            invariant
                i <= cell_cands@.len(),
                b < nb,
                forall|t: int| 0 <= t < cell_cands@.len() ==> #[trigger] cell_cands@[t] < nb,
                row@.len() == nb * nb,
                row_len == row@.len(),
                found == exists|t: int| 0 <= t < i && #[trigger] row@[cell_cands@[t] * nb + b],
            decreases cell_cands@.len() - i,
        {
            let a = cell_cands[i];
            proof {
                lemma_row_index(a as int, b as int, nb as int);
            }
            if row[a * nb + b] {
                found = true;
            }
            i = i + 1;
        }
        assert(found == supported(cell_cands@, row@, nb as int, b));
        let ghost before = out@;
        if found {
            out.push(b);
            assert(out@[out@.len() - 1] == b);
            assert(nbr_cands@[j as int] == b);
            proof {
                if before.len() == j as nat {
                    assert(out@ =~= nbr_cands@.take(j + 1));
                }
            }
        }
        assert forall|t: int| 0 <= t < out@.len() implies nbr_cands@.contains(#[trigger] out@[t]) by {
            if t < before.len() {
                assert(out@[t] == before[t]);
            } else {
                assert(nbr_cands@[j as int] == out@[t]);
            }
        }
        assert forall|t: int|
            0 <= t < j + 1 && supported(cell_cands@, row@, nb as int, #[trigger] nbr_cands@[t]) implies out@.contains(
            nbr_cands@[t],
        ) by {
            if t < j {
                assert(before.contains(nbr_cands@[t]));
                let w = choose|w: int| 0 <= w < before.len() && before[w] == nbr_cands@[t];
                assert(out@[w] == before[w]);
            } else {
                assert(out@[out@.len() - 1] == nbr_cands@[t]);
            }
        }
        j = j + 1;
    }
    assert(nbr_cands@.take(nbr_cands@.len() as int) =~= nbr_cands@);
    out
}

/// Neighbour `k` of `cell` and the table relating them, computed.
fn nbr_of(cell: usize, k: usize, size: usize) -> (r: Option<(usize, usize)>)
    requires
        size >= 1,
        cell < size * size,
        size * size <= usize::MAX,
        k < 4,
    ensures
        r.is_some() == grid_nbr(size as int, cell as int, k as int).is_some(),
        r matches Some((n, d)) ==> grid_nbr(size as int, cell as int, k as int) == Some((n as int, d as int))
            && n < size * size && d < 4 && n != cell,
{
    proof {
        lemma_nbr_in_range(size as int, cell as int, k as int);
    }
    let x = cell % size;
    let y = cell / size;
    if k == 0 {
        if x > 0 {
            Some((cell - 1, 1))
        } else {
            None
        }
    } else if k == 1 {
        if x < size - 1 {
            Some((cell + 1, 0))
        } else {
            None
        }
    } else if k == 2 {
        if y > 0 {
            Some((cell - size, 3))
        } else {
            None
        }
    } else {
        if y < size - 1 {
            Some((cell + size, 2))
        } else {
            None
        }
    }
}

/// An arc from `c` stays consistent when another cell `n` only loses candidates.
proof fn lemma_arc_after_narrowing(
    cands: Seq<Vec<usize>>,
    n: int,
    v: Vec<usize>,
    compat: Seq<Vec<bool>>,
    nb: int,
    size: int,
    c: int,
    k: int,
)
    requires
        size >= 1,
        cands.len() == size * size,
        0 <= n < cands.len(),
        0 <= c < cands.len(),
        c != n,
        0 <= k < 4,
        forall|j: int| 0 <= j < v@.len() ==> cands[n]@.contains(#[trigger] v@[j]),
        arc_ok(cands, compat, nb, size, c, k),
    ensures
        arc_ok(cands.update(n, v), compat, nb, size, c, k),
{
    lemma_nbr_in_range(size, c, k);
    let after = cands.update(n, v);
    match grid_nbr(size, c, k) {
        Some((t, d)) => {
            assert(after[c]@ == cands[c]@);
            if t == n {
                assert forall|j: int| 0 <= j < after[t]@.len() implies #[trigger] supported(
                    after[c]@,
                    compat[d]@,
                    nb,
                    after[t]@[j],
                ) by {
                    assert(cands[n]@.contains(v@[j]));
                    let w = choose|w: int| 0 <= w < cands[n]@.len() && cands[n]@[w] == v@[j];
                    assert(supported(cands[c]@, compat[d]@, nb, cands[t]@[w]));
                }
            } else {
                assert(after[t]@ == cands[t]@);
                assert forall|j: int| 0 <= j < after[t]@.len() implies #[trigger] supported(
                    after[c]@,
                    compat[d]@,
                    nb,
                    after[t]@[j],
                ) by {
                    assert(supported(cands[c]@, compat[d]@, nb, cands[t]@[j]));
                }
            }
        },
        None => {},
    }
}

/// Arc consistency only looks at the candidate lists' contents.
proof fn lemma_arc_same_views(
    a: Seq<Vec<usize>>,
    b: Seq<Vec<usize>>,
    compat: Seq<Vec<bool>>,
    nb: int,
    size: int,
    c: int,
    k: int,
)
    requires
        size >= 1,
        a.len() == size * size,
        b.len() == a.len(),
        0 <= c < a.len(),
        0 <= k < 4,
        forall|x: int| 0 <= x < a.len() ==> (#[trigger] a[x])@ == b[x]@,
    ensures
        arc_ok(a, compat, nb, size, c, k) == arc_ok(b, compat, nb, size, c, k),
{
    lemma_nbr_in_range(size, c, k);
    match grid_nbr(size, c, k) {
        Some((t, d)) => {
            assert(a[t]@ == b[t]@);
            assert(a[c]@ == b[c]@);
        },
        None => {},
    }
}

/// Constraint propagation (AC-3). `starts` are the cells whose candidates just
/// changed. Repeatedly drops every neighbour candidate that has no compatible
/// partner in the changed cell, queueing each neighbour that lost candidates,
/// until nothing changes (`Ok`) or some cell has no candidate left (`Err`).
/// No full solution is ever pruned, so a solvable grid always gives `Ok`.
pub fn wfc_propagate(
    starts: &Vec<usize>,
    candidates: &mut Vec<Vec<usize>>,
    size: usize,
    nb: usize,
    compat: &Vec<Vec<bool>>,
) -> (r: Result<(), ()>)
    requires
        size >= 1,
        old(candidates)@.len() == size * size,
        cands_in_range(old(candidates)@, nb as int),
        compat_shape(compat@, nb as int),
        forall|i: int| 0 <= i < starts@.len() ==> #[trigger] starts@[i] < size * size,
    ensures
        final(candidates)@.len() == size * size,
        narrowed(old(candidates)@, final(candidates)@),
        cands_in_range(final(candidates)@, nb as int),
        r is Err ==> exists|c: int| 0 <= c < size * size && (#[trigger] final(candidates)@[c])@.len() == 0,
        r is Ok ==> forall|c: int|
            0 <= c < size * size && (#[trigger] old(candidates)@[c])@.len() > 0 ==> final(candidates)@[c]@.len() > 0,
        r is Ok ==> forall|c: int, k: int|
            0 <= c < size * size && 0 <= k < 4 && arc_owed(
                old(candidates)@,
                final(candidates)@,
                compat@,
                nb as int,
                size as int,
                starts@,
                c,
                k,
            ) ==> #[trigger] arc_ok(final(candidates)@, compat@, nb as int, size as int, c, k),
        forall|s: Seq<usize>|
            #[trigger] is_solution(s, old(candidates)@, compat@, nb as int, size as int) ==> r is Ok && is_solution(
                s,
                final(candidates)@,
                compat@,
                nb as int,
                size as int,
            ),
{
    let ghost old_c = candidates@;
    let n = candidates.len();
    let mut queue: Vec<usize> = starts.clone();
    assert(queue@ =~= starts@);
    let mut in_queue: Vec<bool> = Vec::new();
    let mut i: usize = 0;
    while i < n
        invariant
            i <= n,
            in_queue@.len() == i,
            forall|c: int| 0 <= c < i ==> !(#[trigger] in_queue@[c]),
        decreases n - i,
    {
        in_queue.push(false);
        i = i + 1;
    }
    let mut s: usize = 0;
    while s < starts.len()
        invariant
            s <= starts@.len(),
            n == size * size,
            in_queue@.len() == n,
            queue@ == starts@,
            forall|t: int| 0 <= t < starts@.len() ==> #[trigger] starts@[t] < size * size,
            forall|c: int| 0 <= c < n && #[trigger] in_queue@[c] ==> queue@.contains(c as usize),
            forall|t: int| 0 <= t < s ==> in_queue@[#[trigger] starts@[t] as int],
        decreases starts@.len() - s,
    {
        let st = starts[s];
        in_queue.set(st, true);
        assert(queue@[s as int] == st);
        s = s + 1;
    }
    proof {
        lemma_total_len_nonneg(candidates@);
        assert forall|c: int, k: int|
            0 <= c < n && 0 <= k < 4 && arc_owed(old_c, candidates@, compat@, nb as int, size as int, starts@, c, k)
                implies #[trigger] arc_ok(candidates@, compat@, nb as int, size as int, c, k) || in_queue@[c] by {
            if starts@.contains(c as usize) {
                let t = choose|t: int| 0 <= t < starts@.len() && starts@[t] == c as usize;
                assert(in_queue@[starts@[t] as int]);
            }
        }
    }
    while queue.len() > 0
        invariant
            size >= 1,
            n == size * size,
            old_c == old(candidates)@,
            compat_shape(compat@, nb as int),
            candidates@.len() == n,
            cands_in_range(candidates@, nb as int),
            narrowed(old_c, candidates@),
            forall|c: int| 0 <= c < n && (#[trigger] candidates@[c])@.len() == 0 ==> old_c[c]@.len() == 0,
            in_queue@.len() == n,
            forall|t: int| 0 <= t < queue@.len() ==> #[trigger] queue@[t] < n,
            forall|c: int| 0 <= c < n && #[trigger] in_queue@[c] ==> queue@.contains(c as usize),
            forall|c: int, k: int|
                0 <= c < n && 0 <= k < 4 && arc_owed(old_c, candidates@, compat@, nb as int, size as int, starts@, c, k)
                    ==> #[trigger] arc_ok(candidates@, compat@, nb as int, size as int, c, k) || in_queue@[c],
            forall|s: Seq<usize>|
                #[trigger] is_solution(s, old_c, compat@, nb as int, size as int) ==> is_solution(
                    s,
                    candidates@,
                    compat@,
                    nb as int,
                    size as int,
                ),
        decreases total_len(candidates@) + queue@.len(),
    {
        let ghost measure = total_len(candidates@) + queue@.len();
        let ghost q_old = queue@;
        let cell = queue.pop().unwrap();
        in_queue.set(cell, false);
        proof {
            assert(queue@ =~= q_old.drop_last());
            assert forall|c: int| 0 <= c < n && #[trigger] in_queue@[c] implies queue@.contains(c as usize) by {
                let w = choose|w: int| 0 <= w < q_old.len() && q_old[w] == c as usize;
                assert(w != q_old.len() - 1);
                assert(queue@[w] == c as usize);
            }
        }
        let cell_cands = candidates[cell].clone();
        assert(cell_cands@ =~= candidates@[cell as int]@);
        let mut k: usize = 0;
        while k < 4
            invariant
                size >= 1,
                n == size * size,
                cell < n,
                k <= 4,
                old_c == old(candidates)@,
                compat_shape(compat@, nb as int),
                candidates@.len() == n,
                cands_in_range(candidates@, nb as int),
                narrowed(old_c, candidates@),
                forall|c: int| 0 <= c < n && (#[trigger] candidates@[c])@.len() == 0 ==> old_c[c]@.len() == 0,
                candidates@[cell as int]@ == cell_cands@,
                !in_queue@[cell as int],
                in_queue@.len() == n,
                forall|t: int| 0 <= t < queue@.len() ==> #[trigger] queue@[t] < n,
                forall|c: int| 0 <= c < n && #[trigger] in_queue@[c] ==> queue@.contains(c as usize),
                forall|c: int, kk: int|
                    0 <= c < n && 0 <= kk < 4 && arc_owed(
                        old_c,
                        candidates@,
                        compat@,
                        nb as int,
                        size as int,
                        starts@,
                        c,
                        kk,
                    ) && !(c == cell && kk >= k) ==> #[trigger] arc_ok(
                        candidates@,
                        compat@,
                        nb as int,
                        size as int,
                        c,
                        kk,
                    ) || in_queue@[c],
                total_len(candidates@) + queue@.len() < measure,
                forall|s: Seq<usize>|
                    #[trigger] is_solution(s, old_c, compat@, nb as int, size as int) ==> is_solution(
                        s,
                        candidates@,
                        compat@,
                        nb as int,
                        size as int,
                    ),
            decreases 4 - k,
        {
            match nbr_of(cell, k, size) {
                Some((nbr, d)) => {
                    let ghost before = candidates@;
                    let ghost q_before = in_queue@;
                    let ghost list_before = queue@;
                    let prev_len = candidates[nbr].len();
                    let filtered = filter_supported(&cell_cands, &candidates[nbr], &compat[d], nb);
                    candidates.set(nbr, filtered);
                    proof {
                        lemma_total_len_update(before, nbr as int, filtered);
                        assert(candidates@ == before.update(nbr as int, filtered));
                        assert forall|c: int, j: int|
                            0 <= c < candidates@.len() && 0 <= j < candidates@[c]@.len() implies #[trigger] candidates@[c]@[j]
                            < nb by {
                            if c == nbr {
                                assert(before[c]@.contains(candidates@[c]@[j]));
                            }
                        }
                        assert forall|c: int, j: int|
                            0 <= c < candidates@.len() && 0 <= j < candidates@[c]@.len() implies old_c[c]@.contains(
                            #[trigger] candidates@[c]@[j],
                        ) by {
                            if c == nbr {
                                assert(before[c]@.contains(candidates@[c]@[j]));
                                let w = choose|w: int| 0 <= w < before[c]@.len() && before[c]@[w] == candidates@[c]@[j];
                                assert(old_c[c]@.contains(before[c]@[w]));
                            }
                        }
                        assert forall|c: int| 0 <= c < candidates@.len() implies (#[trigger] candidates@[c])@.len()
                            <= old_c[c]@.len() by {
                            if c == nbr {
                                assert(before[c]@.len() <= old_c[c]@.len());
                            }
                        }
                        assert forall|c: int|
                            0 <= c < candidates@.len() && candidates@[c]@.len() == old_c[c]@.len() implies (
                            #[trigger] candidates@[c])@ == old_c[c]@ by {
                            if c == nbr {
                                assert(before[c]@.len() <= old_c[c]@.len());
                                assert(before[c]@ == old_c[c]@);
                            }
                        }
                        assert(narrowed(old_c, candidates@));
                        assert forall|s: Seq<usize>| #[trigger] is_solution(s, old_c, compat@, nb as int, size as int) implies is_solution(
                            s,
                            candidates@,
                            compat@,
                            nb as int,
                            size as int,
                        ) by {
                            assert(is_solution(s, before, compat@, nb as int, size as int));
                            assert(before[cell as int]@.contains(s[cell as int]));
                            let w = choose|w: int| 0 <= w < cell_cands@.len() && cell_cands@[w] == s[cell as int];
                            assert(match grid_nbr(size as int, cell as int, k as int) {
                                Some((n2, d2)) => compat@[d2]@[s[cell as int] * nb + s[n2]],
                                None => true,
                            });
                            assert(compat@[d as int]@[cell_cands@[w] * nb + s[nbr as int]]);
                            assert(supported(cell_cands@, compat@[d as int]@, nb as int, s[nbr as int]));
                            assert(before[nbr as int]@.contains(s[nbr as int]));
                            let j = choose|j: int| 0 <= j < before[nbr as int]@.len() && before[nbr as int]@[j] == s[nbr as int];
                            assert(supported(cell_cands@, compat@[d as int]@, nb as int, before[nbr as int]@[j]));
                            assert(filtered@.contains(s[nbr as int]));
                            assert forall|c: int| 0 <= c < candidates@.len() implies candidates@[c]@.contains(#[trigger] s[c]) by {
                                if c != nbr {
                                    assert(candidates@[c] == before[c]);
                                }
                            }
                        }
                    }
                    if candidates[nbr].len() == 0 {
                        proof {
                            assert forall|s: Seq<usize>| #[trigger] is_solution(s, old_c, compat@, nb as int, size as int) implies false by {
                                assert(candidates@[nbr as int]@.contains(s[nbr as int]));
                            }
                        }
                        return Err(());
                    }
                    if candidates[nbr].len() < prev_len && !in_queue[nbr] {
                        queue.push(nbr);
                        in_queue.set(nbr, true);
                        assert(queue@[queue@.len() - 1] == nbr);
                    }
                    proof {
                        assert forall|c: int| 0 <= c < n && #[trigger] in_queue@[c] implies queue@.contains(c as usize) by {
                            if c != nbr || q_before[c] {
                                assert(q_before[c]);
                                let w = choose|w: int| 0 <= w < list_before.len() && list_before[w] == c as usize;
                                assert(queue@[w] == c as usize);
                            }
                        }
                        assert forall|c: int, kk: int|
                            0 <= c < n && 0 <= kk < 4 && arc_owed(
                                old_c,
                                candidates@,
                                compat@,
                                nb as int,
                                size as int,
                                starts@,
                                c,
                                kk,
                            ) && !(c == cell && kk >= k + 1) implies #[trigger] arc_ok(
                            candidates@,
                            compat@,
                            nb as int,
                            size as int,
                            c,
                            kk,
                        ) || in_queue@[c] by {
                            if c == cell && kk == k {
                                assert(arc_ok(candidates@, compat@, nb as int, size as int, c, kk));
                            } else if c == nbr {
                                if filtered@.len() == prev_len {
                                    lemma_arc_same_views(before, candidates@, compat@, nb as int, size as int, c, kk);
                                    assert(arc_owed(old_c, before, compat@, nb as int, size as int, starts@, c, kk));
                                } else {
                                    assert(in_queue@[c]);
                                }
                            } else {
                                assert(arc_owed(old_c, before, compat@, nb as int, size as int, starts@, c, kk));
                                if arc_ok(before, compat@, nb as int, size as int, c, kk) {
                                    lemma_arc_after_narrowing(before, nbr as int, filtered, compat@, nb as int, size as int, c, kk);
                                }
                            }
                        }
                    }
                },
                None => {
                    proof {
                        assert forall|c: int, kk: int|
                            0 <= c < n && 0 <= kk < 4 && arc_owed(
                                old_c,
                                candidates@,
                                compat@,
                                nb as int,
                                size as int,
                                starts@,
                                c,
                                kk,
                            ) && !(c == cell && kk >= k + 1) implies #[trigger] arc_ok(
                            candidates@,
                            compat@,
                            nb as int,
                            size as int,
                            c,
                            kk,
                        ) || in_queue@[c] by {
                            if c == cell && kk == k {
                                assert(grid_nbr(size as int, c, kk).is_none());
                            }
                        }
                    }
                },
            }
            k = k + 1;
        }
        proof {
            lemma_total_len_nonneg(candidates@);
        }
    }
    Ok(())
}

// ---------------------------------------------------------------------------
// Solving
// ---------------------------------------------------------------------------

/// Every candidate of `now` was a candidate of the same cell in `before`.
pub open spec fn within(before: Seq<Vec<usize>>, now: Seq<Vec<usize>>) -> bool {
    &&& now.len() == before.len()
    &&& forall|c: int, j: int|
        0 <= c < now.len() && 0 <= j < now[c]@.len() ==> before[c]@.contains(#[trigger] now[c]@[j])
}

pub open spec fn all_nonempty(cands: Seq<Vec<usize>>) -> bool {
    forall|c: int| 0 <= c < cands.len() ==> (#[trigger] cands[c])@.len() > 0
}

/// The cell the solver collapses next: the first cell with the fewest
/// candidates among those with more than one.
pub open spec fn is_min_entropy_cell(cands: Seq<Vec<usize>>, c: int) -> bool {
    &&& 0 <= c < cands.len()
    &&& cands[c]@.len() > 1
    &&& forall|c2: int| 0 <= c2 < cands.len() && cands[c2]@.len() > 1 ==> cands[c]@.len() <= (#[trigger] cands[c2])@.len()
    &&& forall|c2: int| 0 <= c2 < c && cands[c2]@.len() > 1 ==> cands[c]@.len() < (#[trigger] cands[c2])@.len()
}

proof fn lemma_total_len_le(a: Seq<Vec<usize>>, b: Seq<Vec<usize>>)
    requires
        a.len() == b.len(),
        forall|i: int| 0 <= i < a.len() ==> (#[trigger] a[i])@.len() <= b[i]@.len(),
    ensures
        total_len(a) <= total_len(b),
    decreases a.len(),
{
    if a.len() > 0 {
        lemma_total_len_le(a.drop_last(), b.drop_last());
    }
}

proof fn lemma_total_len_lt(a: Seq<Vec<usize>>, b: Seq<Vec<usize>>, k: int)
    requires
        a.len() == b.len(),
        0 <= k < a.len(),
        forall|i: int| 0 <= i < a.len() ==> (#[trigger] a[i])@.len() <= b[i]@.len(),
        a[k]@.len() < b[k]@.len(),
    ensures
        total_len(a) < total_len(b),
    decreases a.len(),
{
    if k == a.len() - 1 {
        lemma_total_len_le(a.drop_last(), b.drop_last());
    } else {
        lemma_total_len_lt(a.drop_last(), b.drop_last(), k);
    }
}

proof fn lemma_within_trans(a: Seq<Vec<usize>>, b: Seq<Vec<usize>>, c: Seq<Vec<usize>>)
    requires
        within(a, b),
        within(b, c),
    ensures
        within(a, c),
{
    assert forall|x: int, j: int| 0 <= x < c.len() && 0 <= j < c[x]@.len() implies a[x]@.contains(#[trigger] c[x]@[j]) by {
        assert(b[x]@.contains(c[x]@[j]));
        let w = choose|w: int| 0 <= w < b[x]@.len() && b[x]@[w] == c[x]@[j];
        assert(a[x]@.contains(b[x]@[w]));
    }
}

fn min_entropy_cell(cands: &Vec<Vec<usize>>) -> (r: Option<usize>)
    ensures
        r is None <==> forall|c: int| 0 <= c < cands@.len() ==> (#[trigger] cands@[c])@.len() <= 1,
        r matches Some(c) ==> is_min_entropy_cell(cands@, c as int),
{
    let mut best: Option<usize> = None;
    let mut i: usize = 0;
    while i < cands.len()
        invariant
            i <= cands@.len(),
            best is None <==> forall|c: int| 0 <= c < i ==> (#[trigger] cands@[c])@.len() <= 1,
            best matches Some(b) ==> b < i && cands@[b as int]@.len() > 1
                && (forall|c2: int| 0 <= c2 < i && cands@[c2]@.len() > 1 ==> cands@[b as int]@.len() <= (#[trigger] cands@[c2])@.len())
                && (forall|c2: int| 0 <= c2 < b && cands@[c2]@.len() > 1 ==> cands@[b as int]@.len() < (#[trigger] cands@[c2])@.len()),
        decreases cands@.len() - i,
    {
        let len = cands[i].len();
        if len > 1 {
            match best {
                None => {
                    best = Some(i);
                },
                Some(b) => {
                    if len < cands[b].len() {
                        best = Some(i);
                    }
                },
            }
        }
        i = i + 1;
    }
    best
}

/// A copy of every candidate list.
fn clone_cands(cands: &Vec<Vec<usize>>) -> (r: Vec<Vec<usize>>)
    ensures
        r@.len() == cands@.len(),
        forall|c: int| 0 <= c < cands@.len() ==> (#[trigger] r@[c])@ == cands@[c]@,
{
    let mut out: Vec<Vec<usize>> = Vec::new();
    let mut i: usize = 0;
    while i < cands.len()
        invariant
            i <= cands@.len(),
            out@.len() == i,
            forall|c: int| 0 <= c < i ==> (#[trigger] out@[c])@ == cands@[c]@,
        decreases cands@.len() - i,
    {
        let v = cands[i].clone();
        assert(v@ =~= cands@[i as int]@);
        out.push(v);
        i = i + 1;
    }
    out
}

/// The list without any occurrence of `x`, in order.
fn without_value(v: &Vec<usize>, x: usize) -> (r: Vec<usize>)
    ensures
        r@.len() <= v@.len(),
        v@.contains(x) ==> r@.len() < v@.len(),
        forall|j: int| 0 <= j < r@.len() ==> (#[trigger] r@[j]) != x && v@.contains(r@[j]),
        forall|j: int| 0 <= j < v@.len() && (#[trigger] v@[j]) != x ==> r@.contains(v@[j]),
{
    let mut out: Vec<usize> = Vec::new();
    let mut i: usize = 0;
    while i < v.len()
        invariant
            i <= v@.len(),
            out@.len() <= i,
            v@.take(i as int).contains(x) ==> out@.len() < i,
            forall|j: int| 0 <= j < out@.len() ==> (#[trigger] out@[j]) != x && v@.contains(out@[j]),
            forall|j: int| 0 <= j < i && (#[trigger] v@[j]) != x ==> out@.contains(v@[j]),
        decreases v@.len() - i,
    {
        let ghost before = out@;
        assert(v@.take(i + 1).drop_last() =~= v@.take(i as int));
        if v[i] != x {
            out.push(v[i]);
            assert(out@[out@.len() - 1] == v@[i as int]);
        }
        assert forall|j: int| 0 <= j < i + 1 && (#[trigger] v@[j]) != x implies out@.contains(v@[j]) by {
            if j < i {
                let w = choose|w: int| 0 <= w < before.len() && before[w] == v@[j];
                assert(out@[w] == before[w]);
            }
        }
        proof {
            if v@.take(i + 1).contains(x) && !v@.take(i as int).contains(x) {
                let w = choose|w: int| 0 <= w < i + 1 && #[trigger] v@.take(i + 1)[w] == x;
                if w < i {
                    assert(v@.take(i as int)[w] == x);
                }
            }
        }
        i = i + 1;
    }
    assert(v@.take(v@.len() as int) =~= v@);
    out
}

/// Whether the full assignment `s` is consistent (see [`consistent`]).
fn assignment_fits(s: &Vec<usize>, compat: &Vec<Vec<bool>>, nb: usize, size: usize) -> (r: bool)
    requires
        size >= 1,
        s@.len() == size * size,
        forall|c: int| 0 <= c < s@.len() ==> #[trigger] s@[c] < nb,
        compat_shape(compat@, nb as int),
    ensures
        r == consistent(s@, compat@, nb as int, size as int),
{
    let n = s.len();
    let mut c: usize = 0;
    while c < n
        invariant
            size >= 1,
            n == s@.len(),
            n == size * size,
            forall|c2: int| 0 <= c2 < s@.len() ==> #[trigger] s@[c2] < nb,
            compat_shape(compat@, nb as int),
            c <= n,
            forall|c2: int, k2: int|
                0 <= c2 < c && 0 <= k2 < 4 ==> match #[trigger] grid_nbr(size as int, c2, k2) {
                    Some((m, d)) => compat@[d]@[s@[c2] * nb + s@[m]],
                    None => true,
                },
        decreases n - c,
    {
        let mut k: usize = 0;
        while k < 4
            invariant
                size >= 1,
                n == s@.len(),
                n == size * size,
                forall|c2: int| 0 <= c2 < s@.len() ==> #[trigger] s@[c2] < nb,
                compat_shape(compat@, nb as int),
                c < n,
                k <= 4,
                forall|c2: int, k2: int|
                    0 <= c2 < c && 0 <= k2 < 4 ==> match #[trigger] grid_nbr(size as int, c2, k2) {
                        Some((m, d)) => compat@[d]@[s@[c2] * nb + s@[m]],
                        None => true,
                    },
                forall|k2: int|
                    0 <= k2 < k ==> match #[trigger] grid_nbr(size as int, c as int, k2) {
                        Some((m, d)) => compat@[d]@[s@[c as int] * nb + s@[m]],
                        None => true,
                    },
            decreases 4 - k,
        {
            match nbr_of(c, k, size) {
                Some((m, d)) => {
                    let a = s[c];
                    let b = s[m];
                    let row = &compat[d];
                    let row_len = row.len();
                    proof {
                        lemma_row_index(a as int, b as int, nb as int);
                        assert(row_len == nb * nb);
                    }
                    if !row[a * nb + b] {
                        return false;
                    }
                },
                None => {},
            }
            k = k + 1;
        }
        c = c + 1;
    }
    true
}

/// A solution within narrowed candidates is a solution within the wider ones.
proof fn lemma_solution_widens(wide: Seq<Vec<usize>>, narrow: Seq<Vec<usize>>, s: Seq<usize>, compat: Seq<Vec<bool>>, nb: int, size: int)
    requires
        within(wide, narrow),
        is_solution(s, narrow, compat, nb, size),
    ensures
        is_solution(s, wide, compat, nb, size),
{
    assert forall|c: int| 0 <= c < wide.len() implies wide[c]@.contains(#[trigger] s[c]) by {
        assert(narrow[c]@.contains(s[c]));
        let w = choose|w: int| 0 <= w < narrow[c]@.len() && narrow[c]@[w] == s[c];
        assert(wide[c]@.contains(narrow[c]@[w]));
    }
}

/// One level of the backtracking search: collapse the minimum-entropy cell to a
/// randomly drawn candidate, propagate, and search on; a candidate that leads
/// to a contradiction is struck from this level and another is tried. `None`
/// when every candidate of some cell at this level has failed, or when every
/// cell is down to one candidate and those clash, which happens only when no
/// full solution (see [`is_solution`]) lies within the candidates. A result
/// is always such a solution.
fn solve_level(
    size: usize,
    nb: usize,
    compat: &Vec<Vec<bool>>,
    candidates: Vec<Vec<usize>>,
    rng: &mut rltk::RandomNumberGenerator,
) -> (r: Option<Vec<usize>>)
    requires
        size >= 1,
        candidates@.len() == size * size,
        cands_in_range(candidates@, nb as int),
        compat_shape(compat@, nb as int),
        all_nonempty(candidates@),
    ensures
        r matches Some(v) ==> v@.len() == size * size && is_solution(v@, candidates@, compat@, nb as int, size as int),
        forall|s: Seq<usize>| #[trigger] is_solution(s, candidates@, compat@, nb as int, size as int) ==> r is Some,
    decreases total_len(candidates@),
{
    let ghost init = candidates@;
    let mut cands = candidates;
    assert(within(init, cands@));
    loop
        invariant
            size >= 1,
            cands@.len() == size * size,
            cands_in_range(cands@, nb as int),
            compat_shape(compat@, nb as int),
            all_nonempty(cands@),
            within(init, cands@),
            total_len(cands@) <= total_len(init),
            init == candidates@,
            forall|s: Seq<usize>|
                #[trigger] is_solution(s, init, compat@, nb as int, size as int) ==> is_solution(
                    s,
                    cands@,
                    compat@,
                    nb as int,
                    size as int,
                ),
        decreases total_len(cands@),
    {
        match min_entropy_cell(&cands) {
            None => {
                let mut out: Vec<usize> = Vec::new();
                let mut i: usize = 0;
                while i < cands.len()
                    invariant
                        i <= cands@.len(),
                        cands@.len() == size * size,
                        all_nonempty(cands@),
                        within(init, cands@),
                        forall|c: int| 0 <= c < cands@.len() ==> (#[trigger] cands@[c])@.len() <= 1,
                        out@.len() == i,
                        forall|c: int| 0 <= c < i ==> init[c]@.contains(#[trigger] out@[c]),
                        forall|c: int| 0 <= c < i ==> #[trigger] out@[c] == cands@[c]@[0],
                    decreases cands@.len() - i,
                {
                    let v = cands[i][0];
                    assert(init[i as int]@.contains(cands@[i as int]@[0]));
                    out.push(v);
                    i = i + 1;
                }
                proof {
                    assert forall|c: int| 0 <= c < out@.len() implies #[trigger] out@[c] < nb by {
                        assert(cands@[c]@[0] < nb);
                    }
                }
                if assignment_fits(&out, compat, nb, size) {
                    return Some(out);
                }
                proof {
                    assert forall|s: Seq<usize>| #[trigger] is_solution(s, init, compat@, nb as int, size as int) implies false by {
                        assert(is_solution(s, cands@, compat@, nb as int, size as int));
                        assert forall|c: int| 0 <= c < s.len() implies s[c] == out@[c] by {
                            assert(cands@[c]@.contains(s[c]));
                            let w = choose|w: int| 0 <= w < cands@[c]@.len() && cands@[c]@[w] == s[c];
                            assert(w == 0);
                        }
                        assert(s =~= out@);
                    }
                }
                return None;
            },
            Some(cell) => {
                let len = cands[cell].len();
                let pick = rng_range_usize(rng, 0, len);
                let chosen = cands[cell][pick];
                let mut next = clone_cands(&cands);
                let mut single: Vec<usize> = Vec::new();
                single.push(chosen);
                next.set(cell, single);
                let mut starts: Vec<usize> = Vec::new();
                starts.push(cell);
                let ghost collapsed = next@;
                proof {
                    assert(within(cands@, collapsed)) by {
                        assert forall|c: int, j: int|
                            0 <= c < collapsed.len() && 0 <= j < collapsed[c]@.len() implies cands@[c]@.contains(
                            #[trigger] collapsed[c]@[j],
                        ) by {
                            if c == cell {
                                assert(cands@[c]@[pick as int] == chosen);
                            } else {
                                assert(collapsed[c]@ == cands@[c]@);
                                assert(cands@[c]@[j] == collapsed[c]@[j]);
                            }
                        }
                    }
                    assert(cands_in_range(collapsed, nb as int)) by {
                        assert forall|c: int, j: int|
                            0 <= c < collapsed.len() && 0 <= j < collapsed[c]@.len() implies #[trigger] collapsed[c]@[j]
                            < nb by {
                            if c == cell {
                                assert(cands@[c]@[pick as int] == chosen);
                            } else {
                                assert(collapsed[c]@ == cands@[c]@);
                            }
                        }
                    }
                    assert(all_nonempty(collapsed)) by {
                        assert forall|c: int| 0 <= c < collapsed.len() implies (#[trigger] collapsed[c])@.len() > 0 by {
                            if c != cell {
                                assert(collapsed[c]@ == cands@[c]@);
                            }
                        }
                    }
                    assert forall|i: int| 0 <= i < collapsed.len() implies (#[trigger] collapsed[i])@.len()
                        <= cands@[i]@.len() by {
                        if i != cell {
                            assert(collapsed[i]@ == cands@[i]@);
                        }
                    }
                    lemma_total_len_lt(collapsed, cands@, cell as int);
                }
                let ghost before_collapse = cands@;
                proof {
                    assert forall|s: Seq<usize>|
                        #[trigger] is_solution(s, before_collapse, compat@, nb as int, size as int) && s[cell as int] == chosen
                            implies is_solution(s, collapsed, compat@, nb as int, size as int) by {
                        assert forall|c: int| 0 <= c < collapsed.len() implies collapsed[c]@.contains(#[trigger] s[c]) by {
                            if c == cell {
                                assert(collapsed[c]@[0] == chosen);
                            } else {
                                assert(collapsed[c]@ == before_collapse[c]@);
                            }
                        }
                    }
                }
                match wfc_propagate(&starts, &mut next, size, nb, compat) {
                    Ok(()) => {
                        let ghost propagated = next@;
                        proof {
                            assert(within(collapsed, next@));
                            lemma_within_trans(cands@, collapsed, next@);
                            lemma_within_trans(init, cands@, next@);
                            lemma_total_len_le(next@, collapsed);
                            lemma_total_len_nonneg(next@);
                        }
                        match solve_level(size, nb, compat, next, rng) {
                            Some(v) => {
                                proof {
                                    lemma_within_trans(init, cands@, next@);
                                    lemma_solution_widens(init, next@, v@, compat@, nb as int, size as int);
                                }
                                return Some(v);
                            },
                            None => {
                                proof {
                                    assert forall|s: Seq<usize>|
                                        #[trigger] is_solution(s, before_collapse, compat@, nb as int, size as int)
                                            implies s[cell as int] != chosen by {
                                        if s[cell as int] == chosen {
                                            assert(is_solution(s, collapsed, compat@, nb as int, size as int));
                                            assert(is_solution(s, propagated, compat@, nb as int, size as int));
                                        }
                                    }
                                }
                            },
                        }
                    },
                    Err(()) => {
                        proof {
                            assert forall|s: Seq<usize>|
                                #[trigger] is_solution(s, before_collapse, compat@, nb as int, size as int) implies s[cell as int]
                                    != chosen by {
                                if s[cell as int] == chosen {
                                    assert(is_solution(s, collapsed, compat@, nb as int, size as int));
                                }
                            }
                        }
                    },
                }
                let ghost before = cands@;
                assert(before == before_collapse);
                assert(before[cell as int]@.contains(chosen)) by {
                    assert(before[cell as int]@[pick as int] == chosen);
                }
                let remaining = without_value(&cands[cell], chosen);
                proof {
                    assert forall|s: Seq<usize>| #[trigger] is_solution(s, init, compat@, nb as int, size as int) implies remaining@.contains(
                        s[cell as int],
                    ) by {
                        assert(is_solution(s, before, compat@, nb as int, size as int));
                        assert(before[cell as int]@.contains(s[cell as int]));
                        let j = choose|j: int| 0 <= j < before[cell as int]@.len() && before[cell as int]@[j] == s[cell as int];
                        assert(before[cell as int]@[j] != chosen);
                    }
                }
                if remaining.len() == 0 {
                    proof {
                        assert forall|s: Seq<usize>| #[trigger] is_solution(s, init, compat@, nb as int, size as int) implies false by {
                            assert(remaining@.contains(s[cell as int]));
                        }
                    }
                    return None;
                }
                cands.set(cell, remaining);
                proof {
                    assert forall|s: Seq<usize>| #[trigger] is_solution(s, init, compat@, nb as int, size as int) implies is_solution(
                        s,
                        cands@,
                        compat@,
                        nb as int,
                        size as int,
                    ) by {
                        assert(is_solution(s, before, compat@, nb as int, size as int));
                        assert(remaining@.contains(s[cell as int]));
                        assert forall|c: int| 0 <= c < cands@.len() implies cands@[c]@.contains(#[trigger] s[c]) by {
                            if c != cell {
                                assert(cands@[c] == before[c]);
                            }
                        }
                    }
                }
                proof {
                    lemma_total_len_update(before, cell as int, remaining);
                    lemma_total_len_nonneg(cands@);
                    assert(within(before, cands@));
                    lemma_within_trans(init, before, cands@);
                    assert(cands_in_range(cands@, nb as int)) by {
                        assert forall|c: int, j: int|
                            0 <= c < cands@.len() && 0 <= j < cands@[c]@.len() implies #[trigger] cands@[c]@[j]
                            < nb by {
                            if c == cell {
                                let w = choose|w: int| 0 <= w < before[c]@.len() && before[c]@[w] == cands@[c]@[j];
                            }
                        }
                    }
                }
            },
        }
    }
}

/// Wave-function-collapse with backtracking. Returns one chosen block index per
/// cell, each drawn from that cell's candidates and each pair of neighbours
/// allowed by the compatibility tables, or `None` when the search runs out of
/// candidates to try. The search is exhaustive: when some full solution lies
/// within the candidates, it returns a result whatever the draws.
pub fn wfc_solve(
    size: usize,
    nb: usize,
    compat: &Vec<Vec<bool>>,
    candidates: Vec<Vec<usize>>,
    rng: &mut rltk::RandomNumberGenerator,
) -> (r: Option<Vec<usize>>)
    requires
        size >= 1,
        candidates@.len() == size * size,
        cands_in_range(candidates@, nb as int),
        compat_shape(compat@, nb as int),
        all_nonempty(candidates@),
    ensures
        r matches Some(v) ==> v@.len() == size * size && is_solution(v@, candidates@, compat@, nb as int, size as int),
        forall|s: Seq<usize>| #[trigger] is_solution(s, candidates@, compat@, nb as int, size as int) ==> r is Some,
{
    solve_level(size, nb, compat, candidates, rng)
}

} // verus!
