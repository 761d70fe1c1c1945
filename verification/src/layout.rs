//! Shape-level operations on dense row-major matrices and state vectors.

use vstd::prelude::*;

verus! {

/// Entry `(r, c)` of a row-major matrix.
pub open spec fn entry<T>(a: Seq<Vec<T>>, r: int, c: int) -> T {
    a[r]@[c]
}

/// Entry `(r, c)` is column `c` of row `r`.
pub proof fn lemma_entry_reads_row_then_column<T>(a: Seq<Vec<T>>)
    ensures
        forall|r: int, c: int|
            0 <= r < a.len() && 0 <= c < a[r]@.len() ==> #[trigger] entry(a, r, c) == a[r]@[c],
{
}

/// Every row of `a` has exactly `cols` entries.
pub open spec fn has_row_len<T>(a: Seq<Vec<T>>, cols: nat) -> bool {
    forall|r: int| 0 <= r < a.len() ==> (#[trigger] a[r]@).len() == cols
}

/// `a` has `rows` rows of `cols` entries each.
pub open spec fn has_shape<T>(a: Seq<Vec<T>>, rows: nat, cols: nat) -> bool {
    a.len() == rows && has_row_len(a, cols)
}

/// Every row is at least as long as the first one.
pub open spec fn rows_cover_first<T>(a: Seq<Vec<T>>) -> bool {
    a.len() > 0 && forall|r: int| 0 <= r < a.len() ==> (#[trigger] a[r]@).len() >= a[0]@.len()
}

/// A vector of `len` copies of `value`.
pub fn vec_filled<T: Copy>(len: usize, value: T) -> (v: Vec<T>)
    ensures
        v@.len() == len,
        forall|i: int| 0 <= i < len ==> v@[i] == value,
{
    let mut v: Vec<T> = Vec::new();
    let mut i: usize = 0;
    while i < len
        invariant
            i <= len,
            v@.len() == i,
            forall|k: int| 0 <= k < i ==> v@[k] == value,
        decreases len - i,
    {
        v.push(value);
        i = i + 1;
    }
    v
}

/// A `rows` by `cols` matrix with every entry equal to `value`.
pub fn mat_filled<T: Copy>(rows: usize, cols: usize, value: T) -> (m: Vec<Vec<T>>)
    ensures
        has_shape(m@, rows as nat, cols as nat),
        forall|r: int, c: int| 0 <= r < rows && 0 <= c < cols ==> entry(m@, r, c) == value,
{
    let mut m: Vec<Vec<T>> = Vec::new();
    let mut r: usize = 0;
    while r < rows
        invariant
            r <= rows,
            has_shape(m@, r as nat, cols as nat),
            forall|i: int, c: int| 0 <= i < r && 0 <= c < cols ==> entry(m@, i, c) == value,
        decreases rows - r,
    {
        let row = vec_filled(cols, value);
        let ghost prev = m@;
        m.push(row);
        assert forall|i: int, c: int| 0 <= i <= r && 0 <= c < cols implies entry(m@, i, c) == value by {
            if i < r {
                assert(m@[i] == prev[i]);
                assert(entry(m@, i, c) == entry(prev, i, c));
            }
        }
        r = r + 1;
    }
    m
}

/// The `n` by `n` identity pattern: `one` on the diagonal, `zero` elsewhere.
pub fn mat_identity<T: Copy>(n: usize, zero: T, one: T) -> (m: Vec<Vec<T>>)
    ensures
        has_shape(m@, n as nat, n as nat),
        forall|r: int, c: int|
            0 <= r < n && 0 <= c < n ==> entry(m@, r, c) == (if r == c { one } else { zero }),
{
    let mut m: Vec<Vec<T>> = Vec::new();
    let mut r: usize = 0;
    while r < n
        invariant
            r <= n,
            has_shape(m@, r as nat, n as nat),
            forall|i: int, c: int|
                0 <= i < r && 0 <= c < n ==> entry(m@, i, c) == (if i == c { one } else { zero }),
        decreases n - r,
    {
        let mut row = vec_filled(n, zero);
        row.set(r, one);
        let ghost prev = m@;
        m.push(row);
        assert forall|i: int, c: int| 0 <= i <= r && 0 <= c < n implies entry(m@, i, c) == (if i == c {
            one
        } else {
            zero
        }) by {
            if i < r {
                assert(m@[i] == prev[i]);
                assert(entry(m@, i, c) == entry(prev, i, c));
            }
        }
        r = r + 1;
    }
    m
}

/// The transpose of `a`, whose column count is that of its first row.
pub open spec fn is_transpose_of<T>(t: Seq<Vec<T>>, a: Seq<Vec<T>>) -> bool {
    &&& has_shape(t, a[0]@.len(), a.len())
    &&& forall|c: int, r: int|
        0 <= c < a[0]@.len() && 0 <= r < a.len() ==> entry(t, c, r) == entry(a, r, c)
}

/// A transpose has the first row's length many rows, each with one entry
/// per row of the original, and entry `(c, r)` of the transpose is entry
/// `(r, c)` of the original, square matrices included.
pub proof fn lemma_transpose_entries<T>(t: Seq<Vec<T>>, a: Seq<Vec<T>>)
    requires
        rows_cover_first(a),
        is_transpose_of(t, a),
    ensures
        t.len() == a[0]@.len(),
        forall|c: int| 0 <= c < t.len() ==> (#[trigger] t[c]@).len() == a.len(),
        forall|c: int, r: int|
            0 <= c < a[0]@.len() && 0 <= r < a.len() ==> #[trigger] t[c]@[r] == a[r]@[c],
{
    assert forall|c: int, r: int| 0 <= c < a[0]@.len() && 0 <= r < a.len() implies #[trigger] t[c]@[r]
        == a[r]@[c] by {
        assert(entry(t, c, r) == entry(a, r, c));
    }
}

/// Transpose of a matrix. The column count is read from the first row, so
/// the matrix must have a row and no row may be shorter than the first.
pub fn mat_transpose<T: Copy>(a: &Vec<Vec<T>>) -> (t: Vec<Vec<T>>)
    requires
        rows_cover_first(a@),
    ensures
        is_transpose_of(t@, a@),
        t@.len() == a@[0]@.len(),
        forall|c: int| 0 <= c < t@.len() ==> (#[trigger] t@[c]@).len() == a@.len(),
        forall|c: int, r: int|
            0 <= c < a@[0]@.len() && 0 <= r < a@.len() ==> #[trigger] t@[c]@[r] == a@[r]@[c],
{
    let rows = a.len();
    let cols = a[0].len();
    let mut t: Vec<Vec<T>> = Vec::new();
    let mut c: usize = 0;
    while c < cols
        invariant
            rows == a@.len(),
            cols == a@[0]@.len(),
            rows_cover_first(a@),
            c <= cols,
            has_shape(t@, c as nat, rows as nat),
            forall|j: int, r: int| 0 <= j < c && 0 <= r < rows ==> entry(t@, j, r) == entry(a@, r, j),
        decreases cols - c,
    {
        let mut col: Vec<T> = Vec::new();
        let mut r: usize = 0;
        while r < rows
            invariant
                rows == a@.len(),
                cols == a@[0]@.len(),
                rows_cover_first(a@),
                c < cols,
                r <= rows,
                col@.len() == r,
                forall|i: int| 0 <= i < r ==> col@[i] == entry(a@, i, c as int),
            decreases rows - r,
        {
            assert(a@[r as int]@.len() >= a@[0]@.len());
            col.push(a[r][c]);
            r = r + 1;
        }
        t.push(col);
        c = c + 1;
    }
    proof {
        lemma_transpose_entries(t@, a@);
    }
    t
}

/// Transposing twice gives back a matrix whose rows all have one length.
pub proof fn lemma_transpose_twice<T>(a: Seq<Vec<T>>, t: Seq<Vec<T>>, tt: Seq<Vec<T>>)
    requires
        a.len() > 0,
        has_row_len(a, a[0]@.len()),
        a[0]@.len() > 0,
        is_transpose_of(t, a),
        is_transpose_of(tt, t),
    ensures
        tt.len() == a.len(),
        forall|r: int| 0 <= r < a.len() ==> (#[trigger] tt[r]@) == a[r]@,
{
    assert forall|r: int| 0 <= r < a.len() implies (#[trigger] tt[r]@) == a[r]@ by {
        assert(tt[r]@.len() == a[r]@.len());
        assert forall|c: int| 0 <= c < a[r]@.len() implies tt[r]@[c] == a[r]@[c] by {
            assert(entry(tt, r, c) == entry(t, c, r));
        }
        assert(tt[r]@ =~= a[r]@);
    }
}

/// The augmented matrix `[a | b]`: row `r` is row `r` of `a` (its first
/// `a.len()` entries) followed by row `r` of `b` (its first `b[0].len()`
/// entries).
pub fn augment<T: Copy>(a: &Vec<Vec<T>>, b: &Vec<Vec<T>>) -> (aug: Vec<Vec<T>>)
    requires
        b@.len() > 0,
        b@.len() >= a@.len(),
        forall|r: int| 0 <= r < a@.len() ==> (#[trigger] a@[r]@).len() >= a@.len(),
        forall|r: int| 0 <= r < a@.len() ==> (#[trigger] b@[r]@).len() >= b@[0]@.len(),
        a@.len() + b@[0]@.len() <= usize::MAX,
    ensures
        has_shape(aug@, a@.len(), a@.len() + b@[0]@.len()),
        forall|r: int, c: int|
            0 <= r < a@.len() && 0 <= c < a@.len() ==> entry(aug@, r, c) == entry(a@, r, c),
        forall|r: int, c: int|
            0 <= r < a@.len() && 0 <= c < b@[0]@.len() ==> entry(aug@, r, a@.len() + c) == entry(b@, r, c),
{
    let n = a.len();
    let m = b[0].len();
    let mut aug: Vec<Vec<T>> = Vec::new();
    let mut r: usize = 0;
    while r < n
        invariant
            n == a@.len(),
            m == b@[0]@.len(),
            b@.len() >= n,
            forall|i: int| 0 <= i < n ==> (#[trigger] a@[i]@).len() >= n,
            forall|i: int| 0 <= i < n ==> (#[trigger] b@[i]@).len() >= m,
            r <= n,
            has_shape(aug@, r as nat, (n + m) as nat),
            forall|i: int, c: int| 0 <= i < r && 0 <= c < n ==> entry(aug@, i, c) == entry(a@, i, c),
            forall|i: int, c: int| 0 <= i < r && 0 <= c < m ==> entry(aug@, i, n + c) == entry(b@, i, c),
        decreases n - r,
    {
        let mut row: Vec<T> = Vec::new();
        let mut c: usize = 0;
        while c < n
            invariant
                n == a@.len(),
                r < n,
                forall|i: int| 0 <= i < n ==> (#[trigger] a@[i]@).len() >= n,
                c <= n,
                row@.len() == c,
                forall|k: int| 0 <= k < c ==> row@[k] == entry(a@, r as int, k),
            decreases n - c,
        {
            assert(a@[r as int]@.len() >= n);
            row.push(a[r][c]);
            c = c + 1;
        }
        let mut c: usize = 0;
        while c < m
            invariant
                n == a@.len(),
                m == b@[0]@.len(),
                b@.len() >= n,
                r < n,
                forall|i: int| 0 <= i < n ==> (#[trigger] b@[i]@).len() >= m,
                c <= m,
                row@.len() == n + c,
                forall|k: int| 0 <= k < n ==> row@[k] == entry(a@, r as int, k),
                forall|k: int| 0 <= k < c ==> row@[n + k] == entry(b@, r as int, k),
            decreases m - c,
        {
            assert(b@[r as int]@.len() >= m);
            row.push(b[r][c]);
            c = c + 1;
        }
        let ghost prev = aug@;
        aug.push(row);
        assert forall|i: int, c: int| 0 <= i <= r && 0 <= c < n implies entry(aug@, i, c) == entry(
            a@,
            i,
            c,
        ) by {
            if i < r {
                assert(aug@[i] == prev[i]);
                assert(entry(aug@, i, c) == entry(prev, i, c));
            }
        }
        assert forall|i: int, c: int| 0 <= i <= r && 0 <= c < m implies entry(aug@, i, n + c)
            == entry(b@, i, c) by {
            if i < r {
                assert(aug@[i] == prev[i]);
                assert(entry(aug@, i, n + c) == entry(prev, i, n + c));
            }
        }
        r = r + 1;
    }
    aug
}

/// The block of `aug` made of its first `rows` rows and of the `cols`
/// columns that start at column `from`.
pub fn column_block<T: Copy>(aug: &Vec<Vec<T>>, rows: usize, from: usize, cols: usize) -> (m: Vec<Vec<T>>)
    requires
        rows <= aug@.len(),
        from + cols <= usize::MAX,
        forall|r: int| 0 <= r < rows ==> (#[trigger] aug@[r]@).len() >= from + cols,
    ensures
        has_shape(m@, rows as nat, cols as nat),
        forall|r: int, c: int|
            0 <= r < rows && 0 <= c < cols ==> entry(m@, r, c) == entry(aug@, r, from + c),
{
    let mut m: Vec<Vec<T>> = Vec::new();
    let mut r: usize = 0;
    while r < rows
        invariant
            rows <= aug@.len(),
            from + cols <= usize::MAX,
            forall|i: int| 0 <= i < rows ==> (#[trigger] aug@[i]@).len() >= from + cols,
            r <= rows,
            has_shape(m@, r as nat, cols as nat),
            forall|i: int, c: int| 0 <= i < r && 0 <= c < cols ==> entry(m@, i, c) == entry(aug@, i, from + c),
        decreases rows - r,
    {
        let mut row: Vec<T> = Vec::new();
        let mut c: usize = 0;
        while c < cols
            invariant
                rows <= aug@.len(),
                from + cols <= usize::MAX,
                forall|i: int| 0 <= i < rows ==> (#[trigger] aug@[i]@).len() >= from + cols,
                r < rows,
                c <= cols,
                row@.len() == c,
                forall|k: int| 0 <= k < c ==> row@[k] == entry(aug@, r as int, from + k),
            decreases cols - c,
        {
            assert(aug@[r as int]@.len() >= from + cols);
            row.push(aug[r][from + c]);
            c = c + 1;
        }
        let ghost prev = m@;
        m.push(row);
        assert forall|i: int, c: int| 0 <= i <= r && 0 <= c < cols implies entry(m@, i, c) == entry(
            aug@,
            i,
            from + c,
        ) by {
            if i < r {
                assert(m@[i] == prev[i]);
                assert(entry(m@, i, c) == entry(prev, i, c));
            }
        }
        r = r + 1;
    }
    m
}

} // verus!
