//! Panels: rectangular tables indexed by period and unit.
use vstd::prelude::*;

verus! {

/// Table of `rows` periods by `cols` units, stored row by row.
#[derive(Debug)]
pub struct Matrix<T> {
    pub rows: usize,
    pub cols: usize,
    pub data: Vec<T>,
}

/// Position of cell `(t, i)` in a table stored row by row.
pub open spec fn offset(cols: int, t: int, i: int) -> int {
    t * cols + i
}

pub proof fn lemma_offset_in_range(rows: int, cols: int, t: int, i: int)
    requires
        0 <= t < rows,
        0 <= i < cols,
    ensures
        0 <= t * cols,
        0 <= offset(cols, t, i) < rows * cols,
{
    assert(0 <= t * cols) by (nonlinear_arith)
        requires
            0 <= t,
            0 <= cols,
    ;
    assert(t * cols + cols <= rows * cols) by (nonlinear_arith)
        requires
            t + 1 <= rows,
            0 <= cols,
    ;
}

pub proof fn lemma_offset_injective(cols: int, t: int, i: int, t2: int, i2: int)
    requires
        0 <= i < cols,
        0 <= i2 < cols,
        offset(cols, t, i) == offset(cols, t2, i2),
    ensures
        t == t2,
        i == i2,
{
    if t < t2 {
        assert(t * cols + cols <= t2 * cols) by (nonlinear_arith)
            requires
                t + 1 <= t2,
                0 <= cols,
        ;
    }
    if t2 < t {
        assert(t2 * cols + cols <= t * cols) by (nonlinear_arith)
            requires
                t2 + 1 <= t,
                0 <= cols,
        ;
    }
}

/// Order of the cells of a table: by period, and within a period by unit.
pub open spec fn before(a: (usize, usize), b: (usize, usize)) -> bool {
    a.0 < b.0 || (a.0 == b.0 && a.1 < b.1)
}

proof fn lemma_before_offset(cols: int, a: (usize, usize), b: (usize, usize))
    requires
        a.1 < cols,
        b.1 <= cols,
        before(a, b),
    ensures
        0 <= a.0 * cols,
        0 <= offset(cols, a.0 as int, a.1 as int) < offset(cols, b.0 as int, b.1 as int),
{
    let (t, i) = (a.0 as int, a.1 as int);
    let (t2, i2) = (b.0 as int, b.1 as int);
    assert(0 <= t * cols) by (nonlinear_arith)
        requires
            0 <= t,
            0 <= cols,
    ;
    if t < t2 {
        assert(t * cols + cols <= t2 * cols) by (nonlinear_arith)
            requires
                t + 1 <= t2,
                0 <= cols,
        ;
    }
}

/// `s` lists exactly the cells of a `rows` by `cols` table that satisfy `p`,
/// each once, in the order of the table.
pub open spec fn lists_cells(
    s: Seq<(usize, usize)>,
    rows: int,
    cols: int,
    p: spec_fn(int, int) -> bool,
) -> bool {
    &&& forall|k: int|
        0 <= k < s.len() ==> (#[trigger] s[k]).0 < rows && s[k].1 < cols && p(
            s[k].0 as int,
            s[k].1 as int,
        )
    &&& forall|j: int, k: int| 0 <= j < k < s.len() ==> before(#[trigger] s[j], #[trigger] s[k])
    &&& forall|t: usize, i: usize|
        t < rows && i < cols && p(t as int, i as int) ==> #[trigger] s.contains((t, i))
}

/// `s` lists exactly the indices below `n` that satisfy `p`, in increasing
/// order.
pub open spec fn lists_units(s: Seq<usize>, n: int, p: spec_fn(int) -> bool) -> bool {
    &&& forall|k: int| 0 <= k < s.len() ==> (#[trigger] s[k]) < n && p(s[k] as int)
    &&& forall|j: int, k: int| 0 <= j < k < s.len() ==> #[trigger] s[j] < #[trigger] s[k]
    &&& forall|i: usize| i < n && p(i as int) ==> #[trigger] s.contains(i)
}

proof fn lemma_listing_prefix(
    a: Seq<(usize, usize)>,
    b: Seq<(usize, usize)>,
    rows: int,
    cols: int,
    p: spec_fn(int, int) -> bool,
    n: int,
)
    requires
        lists_cells(a, rows, cols, p),
        lists_cells(b, rows, cols, p),
        0 <= n <= a.len(),
    ensures
        n <= b.len(),
        forall|k: int| 0 <= k < n ==> a[k] == b[k],
    decreases n,
{
    if n > 0 {
        let m = n - 1;
        lemma_listing_prefix(a, b, rows, cols, p, m);
        assert(b.contains((a[m].0, a[m].1)));
        let j = choose|j: int| 0 <= j < b.len() && b[j] == a[m];
        if j < m {
            assert(before(a[j], a[m]));
        }
        assert(m < b.len());
        if b[m] != a[m] {
            assert(before(b[m], b[j]));
            assert(a.contains((b[m].0, b[m].1)));
            let i = choose|i: int| 0 <= i < a.len() && a[i] == b[m];
            if i < m {
                assert(before(b[i], b[m]));
            } else if i > m {
                assert(before(a[m], a[i]));
            }
            assert(false);
        }
    }
}

/// A table has one listing of the cells that satisfy a condition.
pub proof fn law_listing_unique(
    a: Seq<(usize, usize)>,
    b: Seq<(usize, usize)>,
    rows: int,
    cols: int,
    p: spec_fn(int, int) -> bool,
)
    requires
        lists_cells(a, rows, cols, p),
        lists_cells(b, rows, cols, p),
    ensures
        a == b,
{
    lemma_listing_prefix(a, b, rows, cols, p, a.len() as int);
    lemma_listing_prefix(b, a, rows, cols, p, b.len() as int);
    assert(a =~= b);
}

/// A listing depends on its condition only through the cells of the table.
pub proof fn lemma_same_listing(
    s: Seq<(usize, usize)>,
    rows: int,
    cols: int,
    p: spec_fn(int, int) -> bool,
    q: spec_fn(int, int) -> bool,
)
    requires
        lists_cells(s, rows, cols, p),
        forall|t: usize, i: usize|
            t < rows && i < cols ==> #[trigger] p(t as int, i as int) == q(t as int, i as int),
    ensures
        lists_cells(s, rows, cols, q),
{
    assert forall|t: usize, i: usize|
        t < rows && i < cols && q(t as int, i as int) implies #[trigger] s.contains((t, i)) by {
        assert(p(t as int, i as int));
    }
}

/// Listing the indices below `n + 1` continues a listing of those below `n`.
pub proof fn lemma_extend_listing(s: Seq<usize>, n: usize, p: spec_fn(int) -> bool)
    requires
        lists_units(s, n as int, p),
    ensures
        p(n as int) ==> lists_units(s.push(n), n + 1, p),
        !p(n as int) ==> lists_units(s, n + 1, p),
{
    let next = s.push(n);
    if p(n as int) {
        assert forall|k: usize| k < n + 1 && p(k as int) implies #[trigger] next.contains(k) by {
            if k < n {
                assert(s.contains(k));
                let j = choose|j: int| 0 <= j < s.len() && s[j] == k;
                assert(next[j] == k);
            } else {
                assert(next[s.len() as int] == n);
            }
        }
    }
}

/// Cells at which `mask` is set.
pub fn true_cells(mask: &Matrix<bool>) -> (r: Vec<(usize, usize)>)
    requires
        mask.wf(),
    ensures
        lists_cells(
            r@,
            mask.rows as int,
            mask.cols as int,
            |t: int, i: int| mask.at(t, i),
        ),
{
    let mut r: Vec<(usize, usize)> = Vec::new();
    let mut t: usize = 0;
    while t < mask.rows
        invariant
            mask.wf(),
            t <= mask.rows,
            lists_cells(r@, t as int, mask.cols as int, |t: int, i: int| mask.at(t, i)),
        decreases mask.rows - t,
    {
        let mut i: usize = 0;
        while i < mask.cols
            invariant
                mask.wf(),
                t < mask.rows,
                i <= mask.cols,
                forall|k: int|
                    0 <= k < r@.len() ==> before(#[trigger] r@[k], (t, i)) && r@[k].1 < mask.cols
                        && mask.at(r@[k].0 as int, r@[k].1 as int),
                forall|j: int, k: int|
                    0 <= j < k < r@.len() ==> before(#[trigger] r@[j], #[trigger] r@[k]),
                forall|a: usize, b: usize|
                    before((a, b), (t, i)) && b < mask.cols && mask.at(a as int, b as int)
                        ==> #[trigger] r@.contains((a, b)),
            decreases mask.cols - i,
        {
            let ghost prev = r@;
            if mask.get(t, i) {
                r.push((t, i));
            }
            proof {
                assert forall|a: usize, b: usize|
                    before((a, b), (t, (i + 1) as usize)) && b < mask.cols && mask.at(
                        a as int,
                        b as int,
                    ) implies #[trigger] r@.contains((a, b)) by {
                    if before((a, b), (t, i)) {
                        assert(prev.contains((a, b)));
                        let j = choose|j: int| 0 <= j < prev.len() && prev[j] == (a, b);
                        assert(r@[j] == (a, b));
                    } else {
                        assert(r@[prev.len() as int] == (t, i));
                    }
                }
            }
            i = i + 1;
        }
        t = t + 1;
    }
    r
}

impl<T: Copy> Matrix<T> {
    /// A table holds one value for each of its cells.
    pub open spec fn wf(&self) -> bool {
        self.data@.len() == self.rows * self.cols
    }

    /// The table is well formed and has a cell `(t, i)`.
    pub open spec fn has(&self, t: usize, i: usize) -> bool {
        self.wf() && t < self.rows && i < self.cols
    }

    /// Value of cell `(t, i)`.
    pub open spec fn at(&self, t: int, i: int) -> T {
        self.data@[offset(self.cols as int, t, i)]
    }

    /// Table from its cells row by row; `None` where their number is wrong.
    pub fn from_rows(rows: usize, cols: usize, data: Vec<T>) -> (r: Option<Matrix<T>>)
        ensures
            r is Some <==> data@.len() == rows * cols,
            r is Some ==> r->0.wf() && r->0.rows == rows && r->0.cols == cols && r->0.data@
                == data@,
    {
        let len: usize = data.len();
        match rows.checked_mul(cols) {
            Some(n) => {
                if n == len {
                    Some(Matrix { rows, cols, data })
                } else {
                    None
                }
            },
            None => None,
        }
    }

    pub fn get(&self, t: usize, i: usize) -> (v: T)
        requires
            self.wf(),
            t < self.rows,
            i < self.cols,
        ensures
            v == self.at(t as int, i as int),
    {
        proof {
            lemma_offset_in_range(self.rows as int, self.cols as int, t as int, i as int);
            assert(self.data.len() == self.rows * self.cols);
        }
        self.data[t * self.cols + i]
    }

    /// Replaces the value of cell `(t, i)`.
    pub fn set(&mut self, t: usize, i: usize, v: T)
        requires
            old(self).has(t, i),
        ensures
            final(self).wf(),
            final(self).rows == old(self).rows,
            final(self).cols == old(self).cols,
            final(self).at(t as int, i as int) == v,
            forall|a: int, b: int|
                0 <= a < old(self).rows && 0 <= b < old(self).cols && (a != t || b != i)
                    ==> #[trigger] final(self).at(a, b) == old(self).at(a, b),
    {
        proof {
            lemma_offset_in_range(self.rows as int, self.cols as int, t as int, i as int);
            assert(self.data.len() == self.rows * self.cols);
            assert forall|a: int, b: int|
                0 <= a < self.rows && 0 <= b < self.cols && (a != t || b != i) implies 0
                <= #[trigger] offset(self.cols as int, a, b) < self.data@.len() && offset(
                self.cols as int,
                a,
                b,
            ) != offset(self.cols as int, t as int, i as int) by {
                lemma_offset_in_range(self.rows as int, self.cols as int, a, b);
                if offset(self.cols as int, a, b) == offset(self.cols as int, t as int, i as int) {
                    lemma_offset_injective(self.cols as int, a, b, t as int, i as int);
                }
            }
        }
        let k: usize = t * self.cols + i;
        self.data.set(k, v);
    }

    /// Table from its cells column by column; `None` where their number is
    /// wrong.
    pub fn from_column_major(rows: usize, cols: usize, data: &Vec<T>) -> (r: Option<Matrix<T>>)
        ensures
            r is Some <==> data@.len() == rows * cols,
            r is Some ==> r->0.wf() && r->0.rows == rows && r->0.cols == cols && (forall|
                t: usize,
                i: usize,
            |
                t < rows && i < cols ==> #[trigger] r->0.at(t as int, i as int) == data@[offset(
                    rows as int,
                    i as int,
                    t as int,
                )]),
    {
        let len: usize = data.len();
        match rows.checked_mul(cols) {
            Some(n) => {
                if n != len {
                    return None;
                }
            },
            None => {
                return None;
            },
        }
        let f = |t: usize, i: usize| -> (v: T)
            requires
                t < rows && i < cols && data@.len() == rows * cols,
            ensures
                v == data@[offset(rows as int, i as int, t as int)],
        {
            proof {
                lemma_offset_in_range(cols as int, rows as int, i as int, t as int);
                assert(cols * rows == rows * cols) by (nonlinear_arith);
                assert(data.len() == rows * cols);
            }
            data[i * rows + t]
        };
        Some(Matrix::build(rows, cols, f))
    }

    /// Cells column by column.
    pub fn to_column_major(&self) -> (r: Vec<T>)
        requires
            self.wf(),
        ensures
            r@.len() == self.rows * self.cols,
            forall|t: usize, i: usize|
                t < self.rows && i < self.cols ==> r@[#[trigger] offset(
                    self.rows as int,
                    i as int,
                    t as int,
                )] == self.at(t as int, i as int),
    {
        proof {
            assert(self.data.len() == self.rows * self.cols);
            assert(self.cols * self.rows == self.rows * self.cols) by (nonlinear_arith);
        }
        let f = |i: usize, t: usize| -> (v: T)
            requires
                self.has(t, i),
            ensures
                v == self.at(t as int, i as int),
        { self.get(t, i) };
        let flipped: Matrix<T> = Matrix::build(self.cols, self.rows, f);
        proof {
            assert forall|t: usize, i: usize| t < self.rows && i < self.cols implies flipped.data@[
            #[trigger] offset(self.rows as int, i as int, t as int)] == self.at(
                t as int,
                i as int,
            ) by {
                assert(flipped.at(i as int, t as int) == self.at(t as int, i as int));
            }
        }
        flipped.data
    }

    /// Table of `rows` by `cols` cells whose cell `(t, i)` is `f(t, i)`.
    pub fn build<F: Fn(usize, usize) -> T>(rows: usize, cols: usize, f: F) -> (r: Matrix<T>)
        requires
            rows * cols <= usize::MAX,
            forall|t: usize, i: usize|
                t < rows && i < cols ==> #[trigger] call_requires(f, (t, i)),
        ensures
            r.wf(),
            r.rows == rows,
            r.cols == cols,
            forall|t: usize, i: usize|
                t < rows && i < cols ==> call_ensures(
                    f,
                    (t, i),
                    #[trigger] r.at(t as int, i as int),
                ),
    {
        let mut data: Vec<T> = Vec::new();
        let mut t: usize = 0;
        while t < rows
            invariant
                t <= rows,
                forall|t: usize, i: usize|
                    t < rows && i < cols ==> #[trigger] call_requires(f, (t, i)),
                data@.len() == t * cols,
                forall|a: usize, b: usize|
                    a < t && b < cols ==> call_ensures(
                        f,
                        (a, b),
                        data@[#[trigger] offset(cols as int, a as int, b as int)],
                    ),
            decreases rows - t,
        {
            let mut i: usize = 0;
            while i < cols
                invariant
                    t < rows,
                    i <= cols,
                    forall|t: usize, i: usize|
                        t < rows && i < cols ==> #[trigger] call_requires(f, (t, i)),
                    data@.len() == t * cols + i,
                    forall|a: usize, b: usize|
                        before((a, b), (t, i)) && b < cols ==> call_ensures(
                            f,
                            (a, b),
                            data@[#[trigger] offset(cols as int, a as int, b as int)],
                        ),
                decreases cols - i,
            {
                let ghost prev = data@;
                let v: T = f(t, i);
                data.push(v);
                proof {
                    assert forall|a: usize, b: usize|
                        before((a, b), (t, (i + 1) as usize)) && b < cols implies call_ensures(
                        f,
                        (a, b),
                        data@[#[trigger] offset(cols as int, a as int, b as int)],
                    ) by {
                        if before((a, b), (t, i)) {
                            lemma_before_offset(cols as int, (a, b), (t, i));
                            assert(data@[offset(cols as int, a as int, b as int)] == prev[offset(
                                cols as int,
                                a as int,
                                b as int,
                            )]);
                        } else {
                            assert((a, b) == (t, i));
                            assert(data@[offset(cols as int, t as int, i as int)] == v);
                        }
                    }
                }
                i = i + 1;
            }
            proof {
                assert((t + 1) * cols == t * cols + cols) by (nonlinear_arith);
            }
            t = t + 1;
        }
        Matrix { rows, cols, data }
    }
}

/// Writing a table column by column and reading it back gives the same cells.
pub proof fn law_column_major_round_trip<T: Copy>(
    original: &Matrix<T>,
    written: Seq<T>,
    read: &Matrix<T>,
    t: usize,
    i: usize,
)
    requires
        original.wf(),
        t < original.rows,
        i < original.cols,
        forall|t: usize, i: usize|
            t < original.rows && i < original.cols ==> written[#[trigger] offset(
                original.rows as int,
                i as int,
                t as int,
            )] == original.at(t as int, i as int),
        forall|t: usize, i: usize|
            t < original.rows && i < original.cols ==> #[trigger] read.at(t as int, i as int)
                == written[offset(original.rows as int, i as int, t as int)],
    ensures
        read.at(t as int, i as int) == original.at(t as int, i as int),
{
}

/// A table is stored row by row: cell `(t, i)` stands `t` rows and `i` places
/// after the first.
pub proof fn law_row_major<T: Copy>(m: &Matrix<T>, t: usize, i: usize, v: T)
    requires
        call_ensures(Matrix::<T>::get, (m, t, i), v),
    ensures
        v == m.data@[t * m.cols + i],
{
}

/// Reading a table column by column puts the value that stands `i` columns and
/// `t` places after the first into cell `(t, i)`; the size has to agree.
pub proof fn law_reading_columns<T: Copy>(
    rows: usize,
    cols: usize,
    data: &Vec<T>,
    r: Option<Matrix<T>>,
)
    requires
        call_ensures(Matrix::<T>::from_column_major, (rows, cols, data), r),
    ensures
        r is Some <==> data@.len() == rows * cols,
        r matches Some(m) ==> m.rows == rows && m.cols == cols && m.data@.len() == rows * cols
            && forall|t: usize, i: usize|
            t < rows && i < cols ==> #[trigger] m.data@[t * cols + i] == data@[i * rows + t],
{
    if let Some(m) = r {
        assert forall|t: usize, i: usize| t < rows && i < cols implies #[trigger] m.data@[t * cols
            + i] == data@[i * rows + t] by {
            assert(m.at(t as int, i as int) == data@[offset(rows as int, i as int, t as int)]);
        }
    }
}

/// The cells that a mask sets are listed completely: each once, by row and within
/// a row by column, and no other.
pub proof fn law_every_set_cell_is_listed(mask: &Matrix<bool>, r: Vec<(usize, usize)>)
    requires
        call_ensures(true_cells, (mask,), r),
    ensures
        forall|t: usize, i: usize|
            #![trigger r@.contains((t, i))]
            r@.contains((t, i)) <==> t < mask.rows && i < mask.cols && mask.data@[t * mask.cols
                + i],
        forall|j: int, k: int|
            0 <= j < k < r@.len() ==> (#[trigger] r@[j]).0 < (#[trigger] r@[k]).0 || r@[j].0
                == r@[k].0 && r@[j].1 < r@[k].1,
{
    assert forall|t: usize, i: usize|
        #![trigger r@.contains((t, i))]
        r@.contains((t, i)) <==> t < mask.rows && i < mask.cols && mask.data@[t * mask.cols
            + i] by {
        if t < mask.rows && i < mask.cols && mask.at(t as int, i as int) {
            assert(r@.contains((t, i)));
        }
        if r@.contains((t, i)) {
            let k = choose|k: int| 0 <= k < r@.len() && r@[k] == (t, i);
            assert(r@[k].0 < mask.rows && mask.at(r@[k].0 as int, r@[k].1 as int));
        }
    }
}

proof fn lemma_cell_of(k: int, rows: int, cols: int)
    requires
        0 <= k < rows * cols,
        rows >= 0,
        cols >= 0,
    ensures
        cols > 0,
        0 <= k / cols < rows,
        0 <= k % cols < cols,
        k == (k / cols) * cols + k % cols,
{
    assert(cols > 0) by (nonlinear_arith)
        requires
            0 <= k < rows * cols,
            cols >= 0,
    ;
    vstd::arithmetic::div_mod::lemma_fundamental_div_mod(k, cols);
    let (q, r) = (k / cols, k % cols);
    assert(cols * q == q * cols) by (nonlinear_arith);
    assert(0 <= q < rows) by (nonlinear_arith)
        requires
            0 <= k < rows * cols,
            k == cols * q + r,
            0 <= r < cols,
    ;
}

/// A listing of every cell of a table has as many entries as the table has cells.
pub proof fn lemma_listing_of_all(s: Seq<(usize, usize)>, rows: usize, cols: usize, p: spec_fn(
    int,
    int,
) -> bool)
    requires
        lists_cells(s, rows as int, cols as int, p),
        forall|t: int, i: int| 0 <= t < rows && 0 <= i < cols ==> #[trigger] p(t, i),
    ensures
        s.len() == rows * cols,
{
    let n = rows * cols;
    let all = Seq::new(
        n as nat,
        |k: int| ((k / cols as int) as usize, (k % cols as int) as usize),
    );
    assert(n >= 0) by (nonlinear_arith)
        requires
            n == rows * cols,
            rows >= 0,
            cols >= 0,
    ;
    assert(lists_cells(all, rows as int, cols as int, p)) by {
        assert forall|k: int| 0 <= k < all.len() implies (#[trigger] all[k]).0 < rows && all[k].1
            < cols && p(all[k].0 as int, all[k].1 as int) by {
            lemma_cell_of(k, rows as int, cols as int);
        }
        assert forall|j: int, k: int| 0 <= j < k < all.len() implies before(
            #[trigger] all[j],
            #[trigger] all[k],
        ) by {
            let c = cols as int;
            lemma_cell_of(j, rows as int, c);
            lemma_cell_of(k, rows as int, c);
            if j / c > k / c {
                assert((j / c) * c >= (k / c) * c + c) by (nonlinear_arith)
                    requires
                        j / c >= k / c + 1,
                        c >= 0,
                ;
            }
        }
        assert forall|t: usize, i: usize|
            t < rows && i < cols && p(t as int, i as int) implies #[trigger] all.contains(
            (t, i),
        ) by {
            let k = offset(cols as int, t as int, i as int);
            lemma_offset_in_range(rows as int, cols as int, t as int, i as int);
            vstd::arithmetic::div_mod::lemma_fundamental_div_mod_converse(
                k,
                cols as int,
                t as int,
                i as int,
            );
            assert(all[k] == (t, i));
        }
    }
    law_listing_unique(s, all, rows as int, cols as int, p);
}

/// Writing a table column by column puts cell `(t, i)` `i` columns and `t` places
/// after the first.
pub proof fn law_cells_written_in_columns<T: Copy>(m: &Matrix<T>, r: Vec<T>, t: usize, i: usize)
    requires
        call_ensures(Matrix::<T>::to_column_major, (m,), r),
        t < m.rows,
        i < m.cols,
    ensures
        r@.len() == m.rows * m.cols,
        r@[i * m.rows + t] == m.data@[t * m.cols + i],
{
    assert(r@[offset(m.rows as int, i as int, t as int)] == m.at(t as int, i as int));
}

/// A table takes over its cells row by row, and needs one for each.
pub proof fn law_cells_read_in_rows<T: Copy>(
    rows: usize,
    cols: usize,
    data: Vec<T>,
    r: Option<Matrix<T>>,
)
    requires
        call_ensures(Matrix::<T>::from_rows, (rows, cols, data), r),
    ensures
        r is Some <==> data@.len() == rows * cols,
        r matches Some(m) ==> m.rows == rows && m.cols == cols && m.data@ == data@,
{
}

} // verus!
