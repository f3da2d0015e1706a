//! The table functions: for each, the arguments it takes and the decisions
//! of its bind and output steps, over plain values.
//!
//! Reading the arguments from DuckDB, the index and file I/O and the
//! floating-point work happen around these functions; each one here takes
//! what such a step produced and says what comes next.

use vstd::prelude::*;
use crate::index::{
    index_bit_width, index_dim, index_len, index_size, index_vectors, swap_remove_vector,
};
use crate::results::{chunk_len, take_chunk};
use turbovec::TurboQuantIndex;
use crate::sizing::{auto_detect_dim, dim_candidates, first_dividing, lemma_detected_dim_divides};

verus! {

/// The SQL type of a table function argument.
#[derive(Clone, Copy, PartialEq, Eq, Debug)]
pub enum ParamKind {
    Varchar,
    Integer,
    FloatList,
}

/// Why the vectors of a call were refused.
#[derive(Clone, Copy, PartialEq, Eq, Debug)]
pub enum VectorsError {
    /// Fewer values than one vector.
    NoVectors,
}

/// Why the flat values of a concatenated list were refused.
#[derive(Clone, Copy, PartialEq, Eq, Debug)]
pub enum ConcatError {
    /// The number of values is not a multiple of the dimension.
    NotDivisible { values: usize, dim: usize },
    /// No values at all.
    NoVectors,
}

/// Why a list of values without a dimension was refused.
#[derive(Clone, Copy, PartialEq, Eq, Debug)]
pub enum ListError {
    /// The list is empty.
    EmptyList,
    /// No candidate dimension divides the number of values.
    NoDimension { values: usize },
}

/// Why a removal was refused.
#[derive(Clone, Copy, PartialEq, Eq, Debug)]
pub enum RemoveError {
    /// The position is not below the number of vectors.
    OutOfRange { target: usize, len: usize },
}

/// Why an inverted-file build was refused.
#[derive(Clone, Copy, PartialEq, Eq, Debug)]
pub enum IvfBuildError {
    /// Fewer values than one vector.
    NoVectors,
    /// Zero clusters were asked for.
    NoLists,
}

/// The table function `turboquant_search(index_path, query, k)`.
pub struct TurboQuantSearchVTab;

impl TurboQuantSearchVTab {
    /// The types of its arguments, in order.
    pub fn parameters() -> (p: Vec<ParamKind>)
        ensures
            p@ == seq![ParamKind::Varchar, ParamKind::Varchar, ParamKind::Integer],
    {
        let mut p: Vec<ParamKind> = Vec::new();
        p.push(ParamKind::Varchar);
        p.push(ParamKind::Varchar);
        p.push(ParamKind::Integer);
        assert(p@ =~= seq![ParamKind::Varchar, ParamKind::Varchar, ParamKind::Integer]);
        p
    }

    /// Whether a call with `count` arguments has all of them.
    pub fn has_arguments(count: usize) -> (ok: bool)
        ensures
            ok == (count >= 3),
    {
        count >= 3
    }
}

/// The output state of `turboquant_search`: how many of its rows are already out.
pub struct SearchInitData {
    pub offset: usize,
}

impl SearchInitData {
    /// The state before the first output step.
    pub fn new() -> (s: Self)
        ensures
            s.offset == 0,
    {
        SearchInitData { offset: 0 }
    }

    /// One output step over `total` rows: the first row and the number of
    /// rows to emit now (see [`chunk_len`]); none once every row is out.
    /// Repeated, the steps emit every row once, in order (see
    /// [`crate::results::lemma_chunks_emit_every_row`]).
    pub fn next_batch(&mut self, total: usize) -> (r: (usize, usize))
        ensures
            r.0 == old(self).offset,
            r.1 == chunk_len(old(self).offset, total),
            final(self).offset == r.0 + r.1,
    {
        take_chunk(&mut self.offset, total)
    }
}

/// The table function `turboquant_score(index_path, query)`.
pub struct TurboQuantScoreVTab;

impl TurboQuantScoreVTab {
    /// The types of its arguments, in order.
    pub fn parameters() -> (p: Vec<ParamKind>)
        ensures
            p@ == seq![ParamKind::Varchar, ParamKind::Varchar],
    {
        let mut p: Vec<ParamKind> = Vec::new();
        p.push(ParamKind::Varchar);
        p.push(ParamKind::Varchar);
        assert(p@ =~= seq![ParamKind::Varchar, ParamKind::Varchar]);
        p
    }

    /// Whether a call with `count` arguments has all of them.
    pub fn has_arguments(count: usize) -> (ok: bool)
        ensures
            ok == (count >= 2),
    {
        count >= 2
    }
}

/// The output state of `turboquant_score`: how many of its rows are already out.
pub struct ScoreInitData {
    pub offset: usize,
}

impl ScoreInitData {
    /// The state before the first output step.
    pub fn new() -> (s: Self)
        ensures
            s.offset == 0,
    {
        ScoreInitData { offset: 0 }
    }

    /// One output step over `total` rows: the first row and the number of
    /// rows to emit now (see [`chunk_len`]); none once every row is out.
    /// Repeated, the steps emit every row once, in order (see
    /// [`crate::results::lemma_chunks_emit_every_row`]).
    pub fn next_batch(&mut self, total: usize) -> (r: (usize, usize))
        ensures
            r.0 == old(self).offset,
            r.1 == chunk_len(old(self).offset, total),
            final(self).offset == r.0 + r.1,
    {
        take_chunk(&mut self.offset, total)
    }
}

/// The table function `turboquant_build(vectors, dim, bit_width, output_path)`.
pub struct TurboQuantBuildVTab;

impl TurboQuantBuildVTab {
    /// The types of its arguments, in order.
    pub fn parameters() -> (p: Vec<ParamKind>)
        ensures
            p@ == seq![ParamKind::Varchar, ParamKind::Integer, ParamKind::Integer, ParamKind::Varchar],
    {
        let mut p: Vec<ParamKind> = Vec::new();
        p.push(ParamKind::Varchar);
        p.push(ParamKind::Integer);
        p.push(ParamKind::Integer);
        p.push(ParamKind::Varchar);
        assert(p@ =~= seq![ParamKind::Varchar, ParamKind::Integer, ParamKind::Integer, ParamKind::Varchar]);
        p
    }

    /// Whether a call with `count` arguments has all of them.
    pub fn has_arguments(count: usize) -> (ok: bool)
        ensures
            ok == (count >= 4),
    {
        count >= 4
    }
}

/// The output state of `turboquant_build`: how many of its rows are already out.
pub struct BuildInitData {
    pub offset: usize,
}

impl BuildInitData {
    /// The state before the first output step.
    pub fn new() -> (s: Self)
        ensures
            s.offset == 0,
    {
        BuildInitData { offset: 0 }
    }

    /// One output step over `total` rows: the first row and the number of
    /// rows to emit now (see [`chunk_len`]); none once every row is out.
    /// Repeated, the steps emit every row once, in order (see
    /// [`crate::results::lemma_chunks_emit_every_row`]).
    pub fn next_batch(&mut self, total: usize) -> (r: (usize, usize))
        ensures
            r.0 == old(self).offset,
            r.1 == chunk_len(old(self).offset, total),
            final(self).offset == r.0 + r.1,
    {
        take_chunk(&mut self.offset, total)
    }
}

/// The table function `turboquant_build_list(values, bit_width, output_path)`.
pub struct TurboQuantBuildListVTab;

impl TurboQuantBuildListVTab {
    /// The types of its arguments, in order.
    pub fn parameters() -> (p: Vec<ParamKind>)
        ensures
            p@ == seq![ParamKind::FloatList, ParamKind::Integer, ParamKind::Varchar],
    {
        let mut p: Vec<ParamKind> = Vec::new();
        p.push(ParamKind::FloatList);
        p.push(ParamKind::Integer);
        p.push(ParamKind::Varchar);
        assert(p@ =~= seq![ParamKind::FloatList, ParamKind::Integer, ParamKind::Varchar]);
        p
    }

    /// Whether a call with `count` arguments has all of them.
    pub fn has_arguments(count: usize) -> (ok: bool)
        ensures
            ok == (count >= 3),
    {
        count >= 3
    }
}

/// The output state of `turboquant_build_list`: how many of its rows are already out.
pub struct BuildListInitData {
    pub offset: usize,
}

impl BuildListInitData {
    /// The state before the first output step.
    pub fn new() -> (s: Self)
        ensures
            s.offset == 0,
    {
        BuildListInitData { offset: 0 }
    }

    /// One output step over `total` rows: the first row and the number of
    /// rows to emit now (see [`chunk_len`]); none once every row is out.
    /// Repeated, the steps emit every row once, in order (see
    /// [`crate::results::lemma_chunks_emit_every_row`]).
    pub fn next_batch(&mut self, total: usize) -> (r: (usize, usize))
        ensures
            r.0 == old(self).offset,
            r.1 == chunk_len(old(self).offset, total),
            final(self).offset == r.0 + r.1,
    {
        take_chunk(&mut self.offset, total)
    }
}

/// The table function `turboquant_build_concat(output_path, dim, bit_width, values)`.
pub struct TurboQuantBuildConcatVTab;

impl TurboQuantBuildConcatVTab {
    /// The types of its arguments, in order.
    pub fn parameters() -> (p: Vec<ParamKind>)
        ensures
            p@ == seq![ParamKind::Varchar, ParamKind::Integer, ParamKind::Integer, ParamKind::Varchar],
    {
        let mut p: Vec<ParamKind> = Vec::new();
        p.push(ParamKind::Varchar);
        p.push(ParamKind::Integer);
        p.push(ParamKind::Integer);
        p.push(ParamKind::Varchar);
        assert(p@ =~= seq![ParamKind::Varchar, ParamKind::Integer, ParamKind::Integer, ParamKind::Varchar]);
        p
    }

    /// Whether a call with `count` arguments has all of them.
    pub fn has_arguments(count: usize) -> (ok: bool)
        ensures
            ok == (count >= 4),
    {
        count >= 4
    }
}

/// The output state of `turboquant_build_concat`: how many of its rows are already out.
pub struct BuildConcatInitData {
    pub offset: usize,
}

impl BuildConcatInitData {
    /// The state before the first output step.
    pub fn new() -> (s: Self)
        ensures
            s.offset == 0,
    {
        BuildConcatInitData { offset: 0 }
    }

    /// One output step over `total` rows: the first row and the number of
    /// rows to emit now (see [`chunk_len`]); none once every row is out.
    /// Repeated, the steps emit every row once, in order (see
    /// [`crate::results::lemma_chunks_emit_every_row`]).
    pub fn next_batch(&mut self, total: usize) -> (r: (usize, usize))
        ensures
            r.0 == old(self).offset,
            r.1 == chunk_len(old(self).offset, total),
            final(self).offset == r.0 + r.1,
    {
        take_chunk(&mut self.offset, total)
    }
}

/// The table function `turboquant_add(index_path, vectors, dim)`.
pub struct TurboQuantAddVTab;

impl TurboQuantAddVTab {
    /// The types of its arguments, in order.
    pub fn parameters() -> (p: Vec<ParamKind>)
        ensures
            p@ == seq![ParamKind::Varchar, ParamKind::Varchar, ParamKind::Integer],
    {
        let mut p: Vec<ParamKind> = Vec::new();
        p.push(ParamKind::Varchar);
        p.push(ParamKind::Varchar);
        p.push(ParamKind::Integer);
        assert(p@ =~= seq![ParamKind::Varchar, ParamKind::Varchar, ParamKind::Integer]);
        p
    }

    /// Whether a call with `count` arguments has all of them.
    pub fn has_arguments(count: usize) -> (ok: bool)
        ensures
            ok == (count >= 3),
    {
        count >= 3
    }
}

/// The output state of `turboquant_add`: how many of its rows are already out.
pub struct AddInitData {
    pub offset: usize,
}

impl AddInitData {
    /// The state before the first output step.
    pub fn new() -> (s: Self)
        ensures
            s.offset == 0,
    {
        AddInitData { offset: 0 }
    }

    /// One output step over `total` rows: the first row and the number of
    /// rows to emit now (see [`chunk_len`]); none once every row is out.
    /// Repeated, the steps emit every row once, in order (see
    /// [`crate::results::lemma_chunks_emit_every_row`]).
    pub fn next_batch(&mut self, total: usize) -> (r: (usize, usize))
        ensures
            r.0 == old(self).offset,
            r.1 == chunk_len(old(self).offset, total),
            final(self).offset == r.0 + r.1,
    {
        take_chunk(&mut self.offset, total)
    }
}

/// The table function `turboquant_remove(index_path, idx)`.
pub struct TurboQuantRemoveVTab;

impl TurboQuantRemoveVTab {
    /// The types of its arguments, in order.
    pub fn parameters() -> (p: Vec<ParamKind>)
        ensures
            p@ == seq![ParamKind::Varchar, ParamKind::Integer],
    {
        let mut p: Vec<ParamKind> = Vec::new();
        p.push(ParamKind::Varchar);
        p.push(ParamKind::Integer);
        assert(p@ =~= seq![ParamKind::Varchar, ParamKind::Integer]);
        p
    }

    /// Whether a call with `count` arguments has all of them.
    pub fn has_arguments(count: usize) -> (ok: bool)
        ensures
            ok == (count >= 2),
    {
        count >= 2
    }
}

/// The output state of `turboquant_remove`: how many of its rows are already out.
pub struct RemoveInitData {
    pub offset: usize,
}

impl RemoveInitData {
    /// The state before the first output step.
    pub fn new() -> (s: Self)
        ensures
            s.offset == 0,
    {
        RemoveInitData { offset: 0 }
    }

    /// One output step over `total` rows: the first row and the number of
    /// rows to emit now (see [`chunk_len`]); none once every row is out.
    /// Repeated, the steps emit every row once, in order (see
    /// [`crate::results::lemma_chunks_emit_every_row`]).
    pub fn next_batch(&mut self, total: usize) -> (r: (usize, usize))
        ensures
            r.0 == old(self).offset,
            r.1 == chunk_len(old(self).offset, total),
            final(self).offset == r.0 + r.1,
    {
        take_chunk(&mut self.offset, total)
    }
}

/// The table function `turboquant_build_ivf(vectors, dim, bit_width, num_lists, output_dir)`.
pub struct IvfBuildVTab;

impl IvfBuildVTab {
    /// The types of its arguments, in order.
    pub fn parameters() -> (p: Vec<ParamKind>)
        ensures
            p@ == seq![ParamKind::Varchar, ParamKind::Integer, ParamKind::Integer, ParamKind::Integer, ParamKind::Varchar],
    {
        let mut p: Vec<ParamKind> = Vec::new();
        p.push(ParamKind::Varchar);
        p.push(ParamKind::Integer);
        p.push(ParamKind::Integer);
        p.push(ParamKind::Integer);
        p.push(ParamKind::Varchar);
        assert(p@ =~= seq![ParamKind::Varchar, ParamKind::Integer, ParamKind::Integer, ParamKind::Integer, ParamKind::Varchar]);
        p
    }

    /// Whether a call with `count` arguments has all of them.
    pub fn has_arguments(count: usize) -> (ok: bool)
        ensures
            ok == (count >= 5),
    {
        count >= 5
    }
}

/// The output state of `turboquant_build_ivf`: how many of its rows are already out.
pub struct IvfBuildInitData {
    pub offset: usize,
}

impl IvfBuildInitData {
    /// The state before the first output step.
    pub fn new() -> (s: Self)
        ensures
            s.offset == 0,
    {
        IvfBuildInitData { offset: 0 }
    }

    /// One output step over `total` rows: the first row and the number of
    /// rows to emit now (see [`chunk_len`]); none once every row is out.
    /// Repeated, the steps emit every row once, in order (see
    /// [`crate::results::lemma_chunks_emit_every_row`]).
    pub fn next_batch(&mut self, total: usize) -> (r: (usize, usize))
        ensures
            r.0 == old(self).offset,
            r.1 == chunk_len(old(self).offset, total),
            final(self).offset == r.0 + r.1,
    {
        take_chunk(&mut self.offset, total)
    }
}

/// The table function `turboquant_search_ivf(index_dir, query, k, probes)`.
pub struct IvfSearchVTab;

impl IvfSearchVTab {
    /// The types of its arguments, in order.
    pub fn parameters() -> (p: Vec<ParamKind>)
        ensures
            p@ == seq![ParamKind::Varchar, ParamKind::Varchar, ParamKind::Integer, ParamKind::Integer],
    {
        let mut p: Vec<ParamKind> = Vec::new();
        p.push(ParamKind::Varchar);
        p.push(ParamKind::Varchar);
        p.push(ParamKind::Integer);
        p.push(ParamKind::Integer);
        assert(p@ =~= seq![ParamKind::Varchar, ParamKind::Varchar, ParamKind::Integer, ParamKind::Integer]);
        p
    }

    /// Whether a call with `count` arguments has all of them.
    pub fn has_arguments(count: usize) -> (ok: bool)
        ensures
            ok == (count >= 4),
    {
        count >= 4
    }
}

/// The output state of `turboquant_search_ivf`: how many of its rows are already out.
pub struct IvfSearchInitData {
    pub offset: usize,
}

impl IvfSearchInitData {
    /// The state before the first output step.
    pub fn new() -> (s: Self)
        ensures
            s.offset == 0,
    {
        IvfSearchInitData { offset: 0 }
    }

    /// One output step over `total` rows: the first row and the number of
    /// rows to emit now (see [`chunk_len`]); none once every row is out.
    /// Repeated, the steps emit every row once, in order (see
    /// [`crate::results::lemma_chunks_emit_every_row`]).
    pub fn next_batch(&mut self, total: usize) -> (r: (usize, usize))
        ensures
            r.0 == old(self).offset,
            r.1 == chunk_len(old(self).offset, total),
            final(self).offset == r.0 + r.1,
    {
        take_chunk(&mut self.offset, total)
    }
}

impl TurboQuantSearchVTab {
    /// How many hits a search asks for: `k`, but no more than the index
    /// holds.
    pub fn result_count(k: usize, len: usize) -> (r: usize)
        ensures
            r == (if k < len { k } else { len }),
    {
        if k < len {
            k
        } else {
            len
        }
    }
}

/// What a build reports: the file written and the number of vectors.
pub struct BuildBindData {
    pub output_path: String,
    pub rows: usize,
}

impl TurboQuantBuildVTab {
    /// The report of a build of `values` values of dimension `dim`: one
    /// vector per `dim` values (a partial vector is dropped), refused when
    /// that is none.
    pub fn plan(output_path: String, values: usize, dim: usize) -> (r: Result<
        BuildBindData,
        VectorsError,
    >)
        requires
            dim > 0,
        ensures
            r is Ok <==> values / dim > 0,
            r matches Ok(b) ==> b.rows == values / dim && b.output_path@ == output_path@,
            r matches Err(e) ==> e == VectorsError::NoVectors,
    {
        let n = values / dim;
        if n == 0 {
            return Err(VectorsError::NoVectors);
        }
        Ok(BuildBindData { output_path, rows: n })
    }
}

/// What a build from a flat list reports: the file written, the number of
/// vectors and the dimension inferred.
pub struct BuildListBindData {
    pub output_path: String,
    pub rows: usize,
    pub dim: usize,
}

impl TurboQuantBuildListVTab {
    /// Whether the list of values is empty, which is refused before
    /// anything else is read.
    pub fn check_nonempty(values: usize) -> (r: Result<(), ListError>)
        ensures
            r is Ok <==> values > 0,
            r matches Err(e) ==> e == ListError::EmptyList,
    {
        if values == 0 {
            Err(ListError::EmptyList)
        } else {
            Ok(())
        }
    }

    /// The report of a build of `values` values whose dimension is
    /// inferred (see [`auto_detect_dim`]): refused when the list is empty
    /// or no dimension fits; else the inferred dimension divides the number
    /// of values and the vectors are its multiples.
    pub fn plan(output_path: String, values: usize) -> (r: Result<BuildListBindData, ListError>)
        ensures
            values == 0 ==> r == Err::<BuildListBindData, ListError>(ListError::EmptyList),
            values > 0 && first_dividing(dim_candidates(), values) is None ==> r == Err::<
                BuildListBindData,
                ListError,
            >(ListError::NoDimension { values }),
            r matches Ok(b) ==> values > 0 && first_dividing(dim_candidates(), values) == Some(
                b.dim,
            ) && b.dim > 0 && values % b.dim == 0 && b.rows == values / b.dim
                && b.output_path@ == output_path@,
            r is Ok <==> values > 0 && first_dividing(dim_candidates(), values) is Some,
    {
        if values == 0 {
            return Err(ListError::EmptyList);
        }
        match auto_detect_dim(values) {
            None => Err(ListError::NoDimension { values }),
            Some(dim) => {
                proof {
                    lemma_detected_dim_divides(values);
                }
                Ok(BuildListBindData { output_path, rows: values / dim, dim })
            },
        }
    }
}

/// What a build from concatenated values reports: the file written and the
/// number of vectors.
pub struct BuildConcatBindData {
    pub output_path: String,
    pub rows: usize,
}

impl TurboQuantBuildConcatVTab {
    /// The report of a build of `values` values of dimension `dim`: refused
    /// when the values do not fill whole vectors, or when there are none.
    pub fn plan(output_path: String, values: usize, dim: usize) -> (r: Result<
        BuildConcatBindData,
        ConcatError,
    >)
        requires
            dim > 0,
        ensures
            values % dim != 0 ==> r == Err::<BuildConcatBindData, ConcatError>(
                ConcatError::NotDivisible { values, dim },
            ),
            values % dim == 0 && values == 0 ==> r == Err::<BuildConcatBindData, ConcatError>(
                ConcatError::NoVectors,
            ),
            r is Ok <==> values % dim == 0 && values > 0,
            r matches Ok(b) ==> b.rows == values / dim && b.output_path@ == output_path@,
    {
        if values % dim != 0 {
            return Err(ConcatError::NotDivisible { values, dim });
        }
        let n = values / dim;
        proof {
            vstd::arithmetic::div_mod::lemma_fundamental_div_mod(values as int, dim as int);
            assert(n == 0 ==> values == 0) by (nonlinear_arith)
                requires
                    values == dim * n + values % dim,
                    values % dim == 0,
            ;
        }
        if n == 0 {
            return Err(ConcatError::NoVectors);
        }
        Ok(BuildConcatBindData { output_path, rows: n })
    }
}

/// What an addition reports: the file rewritten, the vectors added and the
/// vectors held afterwards.
pub struct AddBindData {
    pub output_path: String,
    pub added: usize,
    pub total: usize,
}

impl TurboQuantAddVTab {
    /// How many vectors `values` values of dimension `dim` add: one per
    /// `dim` values; refused when that is none.
    pub fn vectors_to_add(values: usize, dim: usize) -> (r: Result<usize, VectorsError>)
        requires
            dim > 0,
        ensures
            r is Ok <==> values / dim > 0,
            r matches Ok(n) ==> n == values / dim,
            r matches Err(e) ==> e == VectorsError::NoVectors,
    {
        let n = values / dim;
        if n == 0 {
            Err(VectorsError::NoVectors)
        } else {
            Ok(n)
        }
    }

    /// The report of adding `added` vectors to an index that held `before`.
    pub fn report(output_path: String, added: usize, before: usize) -> (b: AddBindData)
        requires
            before + added <= usize::MAX,
        ensures
            b.output_path@ == output_path@,
            b.added == added,
            b.total == before + added,
    {
        AddBindData { output_path, added, total: before + added }
    }

    /// The report of adding `added` vectors to `idx`, taken before the
    /// vectors go in: the total is what the index held plus `added`. `None`
    /// only when that total does not fit a `usize`.
    pub fn report_for(output_path: String, added: usize, idx: &TurboQuantIndex) -> (r: Option<
        AddBindData,
    >)
        ensures
            r is Some <==> index_len(*idx) + added <= usize::MAX,
            r matches Some(b) ==> b.output_path@ == output_path@ && b.added == added && b.total
                == index_len(*idx) + added,
    {
        let before = index_size(idx);
        if before > usize::MAX - added {
            return None;
        }
        Some(Self::report(output_path, added, before))
    }
}

/// What a removal reports: the file rewritten, the position removed and the
/// vectors left.
pub struct RemoveBindData {
    pub output_path: String,
    pub removed_idx: usize,
    pub remaining: usize,
}

impl TurboQuantRemoveVTab {
    /// The report of removing the vector at `target` from an index of
    /// `before` vectors; refused when there is no such vector.
    pub fn plan(output_path: String, target: usize, before: usize) -> (r: Result<
        RemoveBindData,
        RemoveError,
    >)
        ensures
            r is Ok <==> target < before,
            r matches Ok(b) ==> b.removed_idx == target && b.remaining + 1 == before
                && b.output_path@ == output_path@,
            r matches Err(e) ==> e == (RemoveError::OutOfRange { target, len: before }),
    {
        if target >= before {
            return Err(RemoveError::OutOfRange { target, len: before });
        }
        Ok(RemoveBindData { output_path, removed_idx: target, remaining: before - 1 })
    }

    /// Removes the vector at `target` from `idx`, the last vector taking its
    /// place and every other vector staying where it was, and reports the
    /// removal; refused, with the index untouched, when there is no such
    /// vector.
    pub fn remove(idx: &mut TurboQuantIndex, output_path: String, target: usize) -> (r: Result<
        RemoveBindData,
        RemoveError,
    >)
        ensures
            r is Ok <==> target < index_len(*old(idx)),
            r matches Ok(b) ==> b.removed_idx == target && b.output_path@ == output_path@
                && b.remaining == index_len(*final(idx)) && index_len(*final(idx)) + 1
                == index_len(*old(idx)),
            r is Ok ==> index_vectors(*final(idx)) == index_vectors(*old(idx)).update(
                target as int,
                index_vectors(*old(idx)).last(),
            ).drop_last(),
            r is Ok ==> index_dim(*final(idx)) == index_dim(*old(idx)) && index_bit_width(
                *final(idx),
            ) == index_bit_width(*old(idx)),
            r matches Err(e) ==> e == (RemoveError::OutOfRange {
                target,
                len: index_len(*old(idx)),
            }) && *final(idx) == *old(idx),
    {
        let before = index_size(idx);
        let report = Self::plan(output_path, target, before);
        if report.is_ok() {
            swap_remove_vector(idx, target);
        }
        report
    }
}

/// What an inverted-file build reports: the directory written, the number
/// of vectors and the number of clusters.
pub struct IvfBuildBindData {
    pub output_dir: String,
    pub rows: usize,
    pub num_lists: usize,
}

impl IvfBuildVTab {
    /// The report of clustering `values` values of dimension `dim` into
    /// `num_lists` clusters: one vector per `dim` values, and no more
    /// clusters than vectors; refused when there are no vectors or no
    /// clusters.
    pub fn plan(output_dir: String, values: usize, dim: usize, num_lists: usize) -> (r: Result<
        IvfBuildBindData,
        IvfBuildError,
    >)
        requires
            dim > 0,
        ensures
            values / dim == 0 ==> r == Err::<IvfBuildBindData, IvfBuildError>(
                IvfBuildError::NoVectors,
            ),
            values / dim > 0 && num_lists == 0 ==> r == Err::<IvfBuildBindData, IvfBuildError>(
                IvfBuildError::NoLists,
            ),
            r is Ok <==> values / dim > 0 && num_lists > 0,
            r matches Ok(b) ==> b.rows == values / dim && b.num_lists == (if num_lists < b.rows {
                num_lists
            } else {
                b.rows
            }) && 1 <= b.num_lists <= b.rows && b.output_dir@ == output_dir@,
    {
        let n = values / dim;
        if n == 0 {
            return Err(IvfBuildError::NoVectors);
        }
        let lists = if num_lists < n {
            num_lists
        } else {
            n
        };
        if lists < 1 {
            return Err(IvfBuildError::NoLists);
        }
        Ok(IvfBuildBindData { output_dir, rows: n, num_lists: lists })
    }
}

impl IvfSearchVTab {
    /// How many hits a search inside a cluster of `len` vectors asks for:
    /// `k`, but no more than the cluster holds.
    pub fn cluster_result_count(k: usize, len: usize) -> (r: usize)
        ensures
            r == (if k < len { k } else { len }),
    {
        if k < len {
            k
        } else {
            len
        }
    }
}

} // verus!
