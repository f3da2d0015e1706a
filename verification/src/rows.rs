//! Joining the rows of a list of lists into one flat buffer of values.

use vstd::prelude::*;

verus! {

/// Why rows could not be joined.
pub enum RowsError<E> {
    /// A row could not be read; its own error.
    Item(E),
    /// A row has `got` values where `expected` were asked for.
    DimMismatch { expected: usize, got: usize },
}

/// Whether a row was read and has exactly `dim` values.
pub open spec fn row_fits<T, E>(r: Result<Vec<T>, E>, dim: usize) -> bool {
    match r {
        Ok(v) => v@.len() == dim,
        Err(_) => false,
    }
}

/// The values of a row that was read; none for one that was not.
pub open spec fn row_values<T, E>(r: Result<Vec<T>, E>) -> Seq<T> {
    match r {
        Ok(v) => v@,
        Err(_) => Seq::empty(),
    }
}

/// The values of all rows, one row after the other.
pub open spec fn concat_rows<T, E>(rows: Seq<Result<Vec<T>, E>>) -> Seq<T>
    decreases rows.len(),
{
    if rows.len() == 0 {
        Seq::empty()
    } else {
        concat_rows(rows.drop_last()) + row_values(rows.last())
    }
}

/// Every row before `i` fits.
pub open spec fn fits_before<T, E>(rows: Seq<Result<Vec<T>, E>>, dim: usize, i: int) -> bool {
    forall|j: int| 0 <= j < i ==> row_fits(#[trigger] rows[j], dim)
}

/// Joins rows of `dim` values each, in order. The first row, in order, that
/// was not read or does not have `dim` values decides the error: its own
/// error for one that was not read, the expected and the actual count for
/// one of the wrong length.
pub fn assemble_rows<T: Copy, E>(rows: Vec<Result<Vec<T>, E>>, dim: usize) -> (r: Result<
    Vec<T>,
    RowsError<E>,
>)
    ensures
        r is Ok <==> fits_before(rows@, dim, rows@.len() as int),
        r is Ok <==> forall|j: int|
            0 <= j < rows@.len() ==> (#[trigger] rows@[j] matches Ok(w) && w@.len() == dim),
        r matches Ok(v) ==> v@ == concat_rows(rows@),
        r matches Ok(v) ==> v@.len() == rows@.len() * dim && forall|i: int|
            0 <= i < rows@.len() ==> (match #[trigger] rows@[i] {
                Ok(w) => v@.subrange(i * dim, i * dim + dim) == w@,
                Err(_) => false,
            }),
        r matches Err(RowsError::Item(e)) ==> exists|i: int|
            0 <= i < rows@.len() && fits_before(rows@, dim, i) && #[trigger] rows@[i] == Err::<
                Vec<T>,
                E,
            >(e),
        r matches Err(RowsError::DimMismatch { expected, got }) ==> expected == dim && got != dim
            && exists|i: int|
            0 <= i < rows@.len() && fits_before(rows@, dim, i) && (match #[trigger] rows@[i] {
                Ok(w) => w@.len() == got,
                Err(_) => false,
            }),
{
    let ghost all = rows@;
    let mut out: Vec<T> = Vec::new();
    for r in it: rows.into_iter()
        invariant
            it.seq() == all,
            fits_before(all, dim, it.index() as int),
            out@ == concat_rows(all.take(it.index() as int)),
    {
        let ghost i = it.index() as int;
        match r {
            Err(e) => {
                proof {
                    lemma_rows_fit_exactly(all, dim);
                }
                return Err(RowsError::Item(e));
            },
            Ok(w) => {
                if w.len() != dim {
                    proof {
                        lemma_rows_fit_exactly(all, dim);
                    }
                    return Err(RowsError::DimMismatch { expected: dim, got: w.len() });
                }
                let ghost before = out@;
                let mut j: usize = 0;
                while j < w.len()
                    invariant
                        0 <= j <= w@.len(),
                        out@ == before + w@.take(j as int),
                    decreases w@.len() - j,
                {
                    out.push(w[j]);
                    assert(w@.take(j + 1) =~= w@.take(j as int).push(w@[j as int]));
                    j = j + 1;
                }
                assert(w@.take(w@.len() as int) =~= w@);
                assert(all.take(i + 1).drop_last() =~= all.take(i));
            },
        }
    }
    assert(all.take(all.len() as int) =~= all);
    proof {
        lemma_rows_fit_exactly(all, dim);
        lemma_joined_rows_layout(all, dim);
    }
    Ok(out)
}

/// Rows fit exactly when each of them was read and has `dim` values, no
/// fewer and no more.
pub proof fn lemma_rows_fit_exactly<T, E>(rows: Seq<Result<Vec<T>, E>>, dim: usize)
    ensures
        fits_before(rows, dim, rows.len() as int) <==> forall|j: int|
            0 <= j < rows.len() ==> (#[trigger] rows[j] matches Ok(w) && w@.len() == dim),
{
    if fits_before(rows, dim, rows.len() as int) {
        assert forall|j: int| 0 <= j < rows.len() implies (#[trigger] rows[j] matches Ok(w)
            && w@.len() == dim) by {
            assert(row_fits(rows[j], dim));
        }
    }
}

/// Rows of `dim` values each, joined, make a buffer of `dim` values per
/// row in which row `i` fills the values from `i * dim` up to `(i + 1) * dim`.
pub proof fn lemma_joined_rows_layout<T, E>(rows: Seq<Result<Vec<T>, E>>, dim: usize)
    requires
        forall|j: int| 0 <= j < rows.len() ==> (#[trigger] rows[j] matches Ok(w) && w@.len() == dim),
    ensures
        concat_rows(rows).len() == rows.len() * dim,
        forall|i: int|
            0 <= i < rows.len() ==> (match #[trigger] rows[i] {
                Ok(w) => concat_rows(rows).subrange(i * dim, i * dim + dim) == w@,
                Err(_) => false,
            }),
    decreases rows.len(),
{
    if rows.len() > 0 {
        let init = rows.drop_last();
        assert forall|j: int| 0 <= j < init.len() implies (#[trigger] init[j] matches Ok(w)
            && w@.len() == dim) by {
            assert(init[j] == rows[j]);
        }
        lemma_joined_rows_layout(init, dim);
        let n = rows.len() - 1;
        let whole = concat_rows(rows);
        let front = concat_rows(init);
        assert(rows[n] matches Ok(w) && w@.len() == dim);
        assert(whole == front + row_values(rows[n]));
        assert(rows.len() * dim == n * dim + dim) by (nonlinear_arith)
            requires
                n == rows.len() - 1,
        ;
        assert forall|i: int| 0 <= i < rows.len() implies (match #[trigger] rows[i] {
            Ok(w) => whole.subrange(i * dim, i * dim + dim) == w@,
            Err(_) => false,
        }) by {
            if i < n {
                assert(init[i] == rows[i]);
                assert(i * dim + dim <= n * dim) by (nonlinear_arith)
                    requires
                        0 <= i < n,
                ;
                assert(0 <= i * dim) by (nonlinear_arith)
                    requires
                        0 <= i,
                ;
                assert(whole.subrange(i * dim, i * dim + dim) =~= front.subrange(
                    i * dim,
                    i * dim + dim,
                ));
            } else {
                assert(whole.subrange(n * dim, n * dim + dim) =~= row_values(rows[n]));
            }
        }
    }
}

} // verus!
