//! Linear systems over GF(2), solved by Gaussian elimination.

use vstd::prelude::*;

verus! {

/// A bit: 0 or 1.
pub open spec fn is_bit(v: u8) -> bool {
    v == 0 || v == 1
}

/// A vector of `m` bits.
pub open spec fn bit_vector(x: Seq<u8>, m: int) -> bool {
    x.len() == m && forall|j: int| 0 <= j < m ==> is_bit(#[trigger] x[j])
}

/// An augmented system of bit rows: `m` coefficients then the right-hand side.
pub open spec fn bit_rows(a: Seq<Seq<u8>>, m: int) -> bool {
    forall|i: int| 0 <= i < a.len() ==> bit_vector(#[trigger] a[i], m + 1)
}

/// The rows of a matrix as sequences.
pub open spec fn rows_view(a: Seq<Vec<u8>>) -> Seq<Seq<u8>> {
    a.map_values(|r: Vec<u8>| r@)
}

/// Parity of the first `k` products of a row with `x`.
pub open spec fn row_dot(row: Seq<u8>, x: Seq<u8>, k: int) -> bool
    decreases k,
{
    if k <= 0 {
        false
    } else {
        row_dot(row, x, k - 1) != (row[k - 1] == 1 && x[k - 1] == 1)
    }
}

/// `x` satisfies the row: the parity of its products equals the right-hand side.
pub open spec fn row_holds(row: Seq<u8>, x: Seq<u8>, m: int) -> bool {
    row_dot(row, x, m) == (row[m] == 1)
}

/// `x` is a bit vector that satisfies every row of the system.
pub open spec fn solves(a: Seq<Seq<u8>>, x: Seq<u8>, m: int) -> bool {
    bit_vector(x, m) && forall|i: int| 0 <= i < a.len() ==> row_holds(#[trigger] a[i], x, m)
}

/// Bitwise exclusive or of two rows.
pub open spec fn xor_row(p: Seq<u8>, q: Seq<u8>) -> Seq<u8> {
    Seq::new(p.len(), |j: int| if p[j] == q[j] { 0u8 } else { 1u8 })
}

/// The parity of products is additive over the exclusive or of rows.
pub proof fn lemma_dot_xor(p: Seq<u8>, q: Seq<u8>, x: Seq<u8>, k: int)
    requires
        0 <= k <= p.len(),
        p.len() == q.len(),
        forall|j: int| 0 <= j < p.len() ==> is_bit(#[trigger] p[j]) && is_bit(q[j]),
    ensures
        row_dot(xor_row(p, q), x, k) == (row_dot(p, x, k) != row_dot(q, x, k)),
    decreases k,
{
    if k > 0 {
        lemma_dot_xor(p, q, x, k - 1);
    }
}

/// A row whose only nonzero product (below `k`) is at `t` has that product's parity.
pub proof fn lemma_dot_single(row: Seq<u8>, x: Seq<u8>, k: int, t: int)
    requires
        forall|j: int| 0 <= j < k && j != t ==> !(row[j] == 1 && #[trigger] x[j] == 1),
    ensures
        row_dot(row, x, k) == (0 <= t < k && row[t] == 1 && x[t] == 1),
    decreases k,
{
    if k > 0 {
        lemma_dot_single(row, x, k - 1, t);
    }
}

/// Exclusive or of row `r` into row `i` keeps the set of solutions.
pub proof fn lemma_xor_keeps_solutions(a: Seq<Seq<u8>>, i: int, r: int, m: int)
    requires
        bit_rows(a, m),
        0 <= i < a.len(),
        0 <= r < a.len(),
        i != r,
        m >= 0,
    ensures
        forall|x: Seq<u8>| #[trigger] solves(a.update(i, xor_row(a[i], a[r])), x, m) <==> solves(a, x, m),
{
    let b = a.update(i, xor_row(a[i], a[r]));
    assert forall|x: Seq<u8>| #[trigger] solves(b, x, m) <==> solves(a, x, m) by {
        lemma_dot_xor(a[i], a[r], x, m);
        if solves(a, x, m) {
            assert(row_holds(a[i], x, m));
            assert(row_holds(a[r], x, m));
            assert forall|k: int| 0 <= k < b.len() implies row_holds(#[trigger] b[k], x, m) by {
                if k != i {
                    assert(row_holds(a[k], x, m));
                }
            }
        }
        if solves(b, x, m) {
            assert(row_holds(b[i], x, m));
            assert(row_holds(b[r], x, m));
            assert forall|k: int| 0 <= k < a.len() implies row_holds(#[trigger] a[k], x, m) by {
                if k != i {
                    assert(row_holds(b[k], x, m));
                }
            }
        }
    }
}

/// Swapping two rows keeps the set of solutions.
pub proof fn lemma_swap_keeps_solutions(a: Seq<Seq<u8>>, i: int, j: int, m: int)
    requires
        0 <= i < a.len(),
        0 <= j < a.len(),
    ensures
        forall|x: Seq<u8>| #[trigger] solves(a.update(i, a[j]).update(j, a[i]), x, m) <==> solves(a, x, m),
{
    let b = a.update(i, a[j]).update(j, a[i]);
    assert forall|x: Seq<u8>| #[trigger] solves(b, x, m) <==> solves(a, x, m) by {
        if solves(a, x, m) {
            assert forall|k: int| 0 <= k < b.len() implies row_holds(#[trigger] b[k], x, m) by {
                if k == i {
                    assert(row_holds(a[j], x, m));
                } else if k == j {
                    assert(row_holds(a[i], x, m));
                } else {
                    assert(row_holds(a[k], x, m));
                }
            }
        }
        if solves(b, x, m) {
            assert forall|k: int| 0 <= k < a.len() implies row_holds(#[trigger] a[k], x, m) by {
                if k == i {
                    assert(row_holds(b[j], x, m));
                } else if k == j {
                    assert(row_holds(b[i], x, m));
                } else {
                    assert(row_holds(b[k], x, m));
                }
            }
        }
    }
}

/// Exclusive or of two bits.
fn xor_bits(p: u8, q: u8) -> (r: u8)
    requires
        is_bit(p),
        is_bit(q),
    ensures
        r == (if p == q { 0u8 } else { 1u8 }),
{
    assert(is_bit(p) && is_bit(q) ==> (p ^ q) == (if p == q { 0u8 } else { 1u8 })) by (bit_vector);
    p ^ q
}

/// Swaps rows `i` and `j`.
fn swap_rows(a: &mut Vec<Vec<u8>>, i: usize, j: usize)
    requires
        i < old(a)@.len(),
        j < old(a)@.len(),
    ensures
        final(a)@.len() == old(a)@.len(),
        rows_view(final(a)@) == rows_view(old(a)@).update(i as int, rows_view(old(a)@)[j as int]).update(
            j as int,
            rows_view(old(a)@)[i as int],
        ),
{
    let ghost a0 = rows_view(a@);
    if i == j {
        assert(a0.update(i as int, a0[j as int]).update(j as int, a0[i as int]) =~= a0);
        return;
    }
    let mut tmp: Vec<u8> = Vec::new();
    a.set_and_swap(i, &mut tmp);
    a.set_and_swap(j, &mut tmp);
    a.set(i, tmp);
    assert(rows_view(a@) =~= a0.update(i as int, a0[j as int]).update(j as int, a0[i as int]));
}

/// Exclusive or of row `r` into row `i`, on the columns from `from` to `m`; the columns of row
/// `r` before `from` are zero.
fn xor_into(a: &mut Vec<Vec<u8>>, i: usize, r: usize, from: usize, m: usize)
    requires
        bit_rows(rows_view(old(a)@), m as int),
        i < old(a)@.len(),
        r < old(a)@.len(),
        i != r,
        from <= m,
        m < usize::MAX,
        forall|j: int| 0 <= j < from ==> #[trigger] rows_view(old(a)@)[r as int][j] == 0,
    ensures
        final(a)@.len() == old(a)@.len(),
        rows_view(final(a)@) == rows_view(old(a)@).update(
            i as int,
            xor_row(rows_view(old(a)@)[i as int], rows_view(old(a)@)[r as int]),
        ),
{
    let ghost a0 = rows_view(a@);
    let mut row: Vec<u8> = Vec::new();
    a.set_and_swap(i, &mut row);
    assert(row@ == a0[i as int]);
    let mut col: usize = from;
    while col <= m
        invariant
            from <= col <= m + 1,
            m < usize::MAX,
            a@.len() == a0.len(),
            i < a0.len(),
            r < a0.len(),
            i != r,
            a@[r as int]@ == a0[r as int],
            bit_rows(a0, m as int),
            row@.len() == m + 1,
            forall|j: int| 0 <= j < col ==> #[trigger] row@[j] == xor_row(a0[i as int], a0[r as int])[j],
            forall|j: int| col <= j <= m ==> #[trigger] row@[j] == a0[i as int][j],
            forall|j: int| 0 <= j < from ==> #[trigger] a0[r as int][j] == 0,
            forall|k: int| 0 <= k < a0.len() && k != i ==> #[trigger] a@[k]@ == a0[k],
        decreases m + 1 - col,
    {
        assert(is_bit(a0[i as int][col as int]) && is_bit(a0[r as int][col as int]));
        let v = xor_bits(row[col], a[r][col]);
        row.set(col, v);
        col = col + 1;
    }
    proof {
        assert forall|j: int| 0 <= j < from implies #[trigger] row@[j] == xor_row(a0[i as int], a0[r as int])[j] by {
            assert(is_bit(a0[i as int][j]));
        }
    }
    a.set(i, row);
    proof {
        assert(row@ =~= xor_row(a0[i as int], a0[r as int]));
        assert(rows_view(a@) =~= a0.update(i as int, xor_row(a0[i as int], a0[r as int])));
    }
}

/// Solves the system of `a.len()` rows with `m` unknowns over GF(2) by Gaussian elimination.
/// Returns a solution (the free unknowns set to 0), or `None` when the system has none.
pub fn solve_gf2(system: Vec<Vec<u8>>, m: usize) -> (x: Option<Vec<u8>>)
    requires
        bit_rows(rows_view(system@), m as int),
        m < usize::MAX,
    ensures
        x matches Some(v) ==> solves(rows_view(system@), v@, m as int),
        x is None ==> forall|v: Seq<u8>| !solves(rows_view(system@), v, m as int),
{
    let ghost a0 = rows_view(system@);
    let mut a = system;
    let num_rows = a.len();
    let mut r: usize = 0;
    let mut pivots: Vec<usize> = Vec::new();
    let mut c: usize = 0;
    while c < m
        invariant
            c <= m,
            m < usize::MAX,
            a0 == rows_view(system@),
            num_rows == a@.len(),
            bit_rows(rows_view(a@), m as int),
            forall|v: Seq<u8>| #[trigger] solves(rows_view(a@), v, m as int) <==> solves(a0, v, m as int),
            r <= num_rows,
            r <= c,
            pivots@.len() == r,
            forall|k: int| 0 <= k < r ==> #[trigger] pivots@[k] < c,
            forall|k: int| 0 <= k < r ==> rows_view(a@)[k][#[trigger] pivots@[k] as int] == 1,
            forall|k: int, i: int| 0 <= k < r && 0 <= i < num_rows && i != k ==> #[trigger] rows_view(a@)[i][pivots@[k] as int] == 0,
            forall|k1: int, k2: int| 0 <= k1 < k2 < r ==> #[trigger] pivots@[k1] < #[trigger] pivots@[k2],
            forall|i: int, j: int| r <= i < num_rows && 0 <= j < c ==> #[trigger] rows_view(a@)[i][j] == 0,
        ensures
            c == m || r == num_rows,
        decreases m - c,
    {
        if r >= num_rows {
            break;
        }
        let ghost before = rows_view(a@);
        let mut pivot_row: Option<usize> = None;
        let mut i: usize = r;
        while i < num_rows
            invariant_except_break
                pivot_row is None,
            invariant
                r <= i <= num_rows,
                num_rows == a@.len(),
                c < m,
                rows_view(a@) == before,
                bit_rows(before, m as int),
                forall|k: int| r <= k < i ==> #[trigger] before[k][c as int] == 0,
            ensures
                pivot_row matches Some(p) ==> r <= p < num_rows && before[p as int][c as int] == 1,
                pivot_row is None ==> forall|k: int| r <= k < num_rows ==> #[trigger] before[k][c as int] == 0,
            decreases num_rows - i,
        {
            assert(is_bit(before[i as int][c as int]));
            if a[i][c] == 1 {
                pivot_row = Some(i);
                break;
            }
            i = i + 1;
        }
        match pivot_row {
            Some(p_row) => {
                swap_rows(&mut a, r, p_row);
                proof {
                    lemma_swap_keeps_solutions(before, r as int, p_row as int, m as int);
                }
                let ghost swapped = rows_view(a@);
                let mut i2: usize = 0;
                while i2 < num_rows
                    invariant
                        0 <= i2 <= num_rows,
                        m < usize::MAX,
                        num_rows == a@.len(),
                        r < num_rows,
                        c < m,
                        r <= c,
                        bit_rows(rows_view(a@), m as int),
                        forall|v: Seq<u8>| #[trigger] solves(rows_view(a@), v, m as int) <==> solves(a0, v, m as int),
                        rows_view(a@)[r as int] == swapped[r as int],
                        swapped[r as int][c as int] == 1,
                        forall|j: int| 0 <= j < c ==> #[trigger] swapped[r as int][j] == 0,
                        pivots@.len() == r,
                        forall|k: int| 0 <= k < r ==> #[trigger] pivots@[k] < c,
                        forall|k: int| 0 <= k < r ==> rows_view(a@)[k][#[trigger] pivots@[k] as int] == 1,
                        forall|k: int, i: int| 0 <= k < r && 0 <= i < num_rows && i != k ==> #[trigger] rows_view(a@)[i][pivots@[k] as int] == 0,
                        forall|k1: int, k2: int| 0 <= k1 < k2 < r ==> #[trigger] pivots@[k1] < #[trigger] pivots@[k2],
                        forall|i: int, j: int| r <= i < num_rows && 0 <= j < c ==> #[trigger] rows_view(a@)[i][j] == 0,
                        forall|k: int| 0 <= k < i2 && k != r ==> #[trigger] rows_view(a@)[k][c as int] == 0,
                    decreases num_rows - i2,
                {
                    assert(rows_view(a@)[i2 as int] == a@[i2 as int]@);
                    if i2 != r && a[i2][c] == 1 {
                        let ghost pre = rows_view(a@);
                        proof {
                            lemma_xor_keeps_solutions(pre, i2 as int, r as int, m as int);
                        }
                        xor_into(&mut a, i2, r, c, m);
                        proof {
                            let post = rows_view(a@);
                            assert forall|k: int| 0 <= k < post.len() implies bit_vector(#[trigger] post[k], m + 1) by {
                                if k == i2 {
                                    assert forall|j: int| 0 <= j < m + 1 implies is_bit(#[trigger] post[k][j]) by {}
                                }
                            }
                            assert forall|k: int, i: int| 0 <= k < r && 0 <= i < num_rows && i != k implies
                                #[trigger] post[i][pivots@[k] as int] == 0 by {
                                if i == i2 {
                                    assert(pre[r as int][pivots@[k] as int] == 0);
                                }
                            }
                            assert forall|k: int| 0 <= k < r implies post[k][#[trigger] pivots@[k] as int] == 1 by {
                                if k == i2 {
                                    assert(pre[r as int][pivots@[k] as int] == 0);
                                }
                            }
                        }
                    }
                    i2 = i2 + 1;
                }
                pivots.push(c);
                r = r + 1;
                proof {
                    let cur = rows_view(a@);
                    assert forall|k: int, i: int| 0 <= k < r && 0 <= i < num_rows && i != k implies #[trigger] cur[i][pivots@[k] as int] == 0 by {
                        if k == r - 1 {
                            assert(pivots@[k] == c);
                        }
                    }
                    assert forall|k: int| 0 <= k < r implies cur[k][#[trigger] pivots@[k] as int] == 1 by {}
                    assert forall|i: int, j: int| r <= i < num_rows && 0 <= j < c + 1 implies #[trigger] cur[i][j] == 0 by {
                        if j < c {
                            assert(cur[i][j] == 0);
                        } else {
                            assert(i != r - 1);
                        }
                    }
                }
            },
            None => {
                proof {
                    let cur = rows_view(a@);
                    assert forall|i: int, j: int| r <= i < num_rows && 0 <= j < c + 1 implies #[trigger] cur[i][j] == 0 by {
                        if j == c {
                            assert(before[i][c as int] == 0);
                        }
                    }
                }
            },
        }
        c = c + 1;
    }
    // Rows below the pivots have no nonzero coefficient: a nonzero right-hand side there
    // makes the system unsolvable.
    let mut i: usize = r;
    while i < num_rows
        invariant
            r <= i <= num_rows,
            num_rows == a@.len(),
            c <= m,
            a0 == rows_view(system@),
            pivots@.len() == r,
            forall|k: int| 0 <= k < r ==> #[trigger] pivots@[k] < c,
            forall|k: int| 0 <= k < r ==> rows_view(a@)[k][#[trigger] pivots@[k] as int] == 1,
            forall|k: int, i: int| 0 <= k < r && 0 <= i < num_rows && i != k ==> #[trigger] rows_view(a@)[i][pivots@[k] as int] == 0,
            forall|k1: int, k2: int| 0 <= k1 < k2 < r ==> #[trigger] pivots@[k1] < #[trigger] pivots@[k2],
            c == m || r == num_rows,
            bit_rows(rows_view(a@), m as int),
            forall|v: Seq<u8>| #[trigger] solves(rows_view(a@), v, m as int) <==> solves(a0, v, m as int),
            forall|i: int, j: int| r <= i < num_rows && 0 <= j < c ==> #[trigger] rows_view(a@)[i][j] == 0,
            forall|k: int| r <= k < i ==> #[trigger] rows_view(a@)[k][m as int] == 0,
        decreases num_rows - i,
    {
        assert(rows_view(a@)[i as int] == a@[i as int]@);
        if a[i][m] == 1 {
            proof {
                let cur = rows_view(a@);
                assert forall|v: Seq<u8>| !solves(a0, v, m as int) by {
                    if solves(a0, v, m as int) {
                        assert(solves(cur, v, m as int));
                        assert(row_holds(cur[i as int], v, m as int));
                        lemma_dot_single(cur[i as int], v, m as int, -1);
                    }
                }
            }
            return None;
        }
        i = i + 1;
    }
    // A particular solution: each pivot unknown takes its row's right-hand side, the others 0.
    let mut x: Vec<u8> = Vec::new();
    let mut j: usize = 0;
    while j < m
        invariant
            j <= m,
            x@.len() == j,
            num_rows == a@.len(),
            r <= num_rows,
            c <= m,
            c == m || r == num_rows,
            a0 == rows_view(system@),
            bit_rows(rows_view(a@), m as int),
            forall|v: Seq<u8>| #[trigger] solves(rows_view(a@), v, m as int) <==> solves(a0, v, m as int),
            pivots@.len() == r,
            forall|q: int| 0 <= q < r ==> #[trigger] pivots@[q] < c,
            forall|q: int| 0 <= q < r ==> rows_view(a@)[q][#[trigger] pivots@[q] as int] == 1,
            forall|q: int, i: int| 0 <= q < r && 0 <= i < num_rows && i != q ==> #[trigger] rows_view(a@)[i][pivots@[q] as int] == 0,
            forall|k1: int, k2: int| 0 <= k1 < k2 < r ==> #[trigger] pivots@[k1] < #[trigger] pivots@[k2],
            forall|i: int, j: int| r <= i < num_rows && 0 <= j < c ==> #[trigger] rows_view(a@)[i][j] == 0,
            forall|q: int| r <= q < num_rows ==> #[trigger] rows_view(a@)[q][m as int] == 0,
            forall|t: int| 0 <= t < j ==> #[trigger] x@[t] == 0,
        decreases m - j,
    {
        x.push(0);
        j = j + 1;
    }
    let mut k: usize = 0;
    while k < r
        invariant
            k <= r,
            x@.len() == m,
            num_rows == a@.len(),
            r <= num_rows,
            c <= m,
            c == m || r == num_rows,
            a0 == rows_view(system@),
            bit_rows(rows_view(a@), m as int),
            forall|v: Seq<u8>| #[trigger] solves(rows_view(a@), v, m as int) <==> solves(a0, v, m as int),
            pivots@.len() == r,
            forall|q: int| 0 <= q < r ==> #[trigger] pivots@[q] < c,
            forall|q: int| 0 <= q < r ==> rows_view(a@)[q][#[trigger] pivots@[q] as int] == 1,
            forall|q: int, i: int| 0 <= q < r && 0 <= i < num_rows && i != q ==> #[trigger] rows_view(a@)[i][pivots@[q] as int] == 0,
            forall|k1: int, k2: int| 0 <= k1 < k2 < r ==> #[trigger] pivots@[k1] < #[trigger] pivots@[k2],
            forall|i: int, j: int| r <= i < num_rows && 0 <= j < c ==> #[trigger] rows_view(a@)[i][j] == 0,
            forall|q: int| r <= q < num_rows ==> #[trigger] rows_view(a@)[q][m as int] == 0,
            forall|q: int| 0 <= q < k ==> x@[#[trigger] pivots@[q] as int] == rows_view(a@)[q][m as int],
            forall|t: int| 0 <= t < m && (forall|q: int| 0 <= q < k ==> pivots@[q] != t) ==> #[trigger] x@[t] == 0,
        decreases r - k,
    {
        let pc = pivots[k];
        assert(rows_view(a@)[k as int] == a@[k as int]@);
        x.set(pc, a[k][m]);
        proof {
            assert forall|q: int| 0 <= q < k implies x@[#[trigger] pivots@[q] as int] == rows_view(a@)[q][m as int] by {
                assert(pivots@[q] < pivots@[k as int]);
            }
        }
        k = k + 1;
    }
    proof {
        let cur = rows_view(a@);
        assert(bit_vector(x@, m as int)) by {
            assert forall|t: int| 0 <= t < m implies is_bit(#[trigger] x@[t]) by {
                if exists|q: int| 0 <= q < r && pivots@[q] == t {
                    let q = choose|q: int| 0 <= q < r && pivots@[q] == t;
                    assert(bit_vector(cur[q], m + 1));
                } else {
                    assert(x@[t] == 0);
                }
            }
        }
        assert forall|row: int| 0 <= row < cur.len() implies row_holds(#[trigger] cur[row], x@, m as int) by {
            if row < r {
                let t = pivots@[row] as int;
                assert forall|jj: int| 0 <= jj < m && jj != t implies !(cur[row][jj] == 1 && #[trigger] x@[jj] == 1) by {
                    if exists|q: int| 0 <= q < r && pivots@[q] == jj {
                        let q = choose|q: int| 0 <= q < r && pivots@[q] == jj;
                        assert(q != row);
                        assert(cur[row][pivots@[q] as int] == 0);
                    } else {
                        assert(x@[jj] == 0);
                    }
                }
                lemma_dot_single(cur[row], x@, m as int, t);
                assert(bit_vector(cur[row], m + 1));
            } else {
                lemma_dot_single(cur[row], x@, m as int, -1);
            }
        }
        assert(solves(cur, x@, m as int));
    }
    Some(x)
}

} // verus!
