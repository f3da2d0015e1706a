//! Creating the quantized index that backs a flat index file or one cluster
//! of an inverted-file index.

use vstd::prelude::*;
use turbovec::{ConstructError, TurboQuantIndex};

verus! {

#[verifier::external_type_specification]
#[verifier::external_body]
pub struct ExTurboQuantIndex(TurboQuantIndex);

#[verifier::external_type_specification]
#[verifier::external_body]
pub struct ExConstructError(ConstructError);

/// The largest dimension an index accepts (`turbovec::MAX_DIM`).
pub const MAX_INDEX_DIM: usize = 16384;

/// Whether an index of dimension `dim` and `bit_width` bits per coordinate
/// can be created: the bit width is 2, 3 or 4, and the dimension is a
/// positive multiple of 8 no larger than [`MAX_INDEX_DIM`].
pub open spec fn index_config_ok(dim: usize, bit_width: usize) -> bool {
    2 <= bit_width <= 4 && dim > 0 && dim % 8 == 0 && dim <= MAX_INDEX_DIM
}

/// The dimension an index is locked to, where it has one: every vector it
/// holds or takes has this many coordinates (`TurboQuantIndex::dim_opt`).
pub uninterp spec fn index_dim(i: TurboQuantIndex) -> usize;

/// The bits per coordinate an index stores (`TurboQuantIndex::bit_width`);
/// fixed when the index is made.
pub uninterp spec fn index_bit_width(i: TurboQuantIndex) -> usize;

/// The vectors an index holds, by position: each one as it is stored, its
/// packed code bytes and the bytes of its scale.
pub uninterp spec fn index_vectors(i: TurboQuantIndex) -> Seq<Seq<u8>>;

/// How many vectors an index holds (`TurboQuantIndex::len`).
pub open spec fn index_len(i: TurboQuantIndex) -> usize {
    index_vectors(i).len() as usize
}

/// Why an index could not be created, one variant per reason that
/// `TurboQuantIndex::new` gives.
pub enum IndexError {
    /// The bit width is not 2, 3 or 4.
    BitWidthOutOfRange(usize),
    /// The dimension is 0 or not a multiple of 8.
    DimNotPositiveMultipleOf8(usize),
    /// The dimension is above the largest one an index accepts.
    DimTooLarge { dim: usize, max: usize },
    /// A reason this version of the index does not give.
    Other(ConstructError),
}

/// The reason an index of dimension `dim` and `bit_width` bits is refused:
/// the bit width is checked first, then whether the dimension is a positive
/// multiple of 8, then its size.
pub open spec fn refusal(dim: usize, bit_width: usize) -> IndexError {
    if !(2 <= bit_width <= 4) {
        IndexError::BitWidthOutOfRange(bit_width)
    } else if dim == 0 || dim % 8 != 0 {
        IndexError::DimNotPositiveMultipleOf8(dim)
    } else {
        IndexError::DimTooLarge { dim, max: MAX_INDEX_DIM }
    }
}

/// `TurboQuantIndex::new(dim, bit_width)`: the source refuses the arguments
/// exactly when [`index_config_ok`] does not hold, with the reason
/// [`refusal`] names, and otherwise returns an index locked to `dim`, with
/// `bit_width` bits per coordinate and no vectors.
#[verifier::external_body]
fn construct_index(dim: usize, bit_width: usize) -> (r: Result<TurboQuantIndex, IndexError>)
    ensures
        r is Ok <==> index_config_ok(dim, bit_width),
        r matches Ok(i) ==> index_dim(i) == dim && index_bit_width(i) == bit_width
            && index_vectors(i) == Seq::<Seq<u8>>::empty(),
        r matches Err(e) ==> e == refusal(dim, bit_width),
{
    match TurboQuantIndex::new(dim, bit_width) {
        Ok(idx) => Ok(idx),
        Err(ConstructError::BitWidthOutOfRange(b)) => Err(IndexError::BitWidthOutOfRange(b)),
        Err(ConstructError::DimNotPositiveMultipleOf8(d)) => Err(
            IndexError::DimNotPositiveMultipleOf8(d),
        ),
        Err(ConstructError::DimTooLarge { dim, max }) => Err(IndexError::DimTooLarge { dim, max }),
        Err(other) => Err(IndexError::Other(other)),
    }
}

/// `TurboQuantIndex::len`: the number of vectors the index holds.
#[verifier::external_body]
fn index_length(idx: &TurboQuantIndex) -> (n: usize)
    ensures
        n as nat == index_vectors(*idx).len(),
{
    idx.len()
}

/// `TurboQuantIndex::swap_remove(target)`: the last vector takes the place
/// of the one at `target` and the last position goes, so the index holds
/// one vector fewer and every other vector stays where it was; it returns
/// the position the moved vector had, the last one before the call. The
/// dimension and bit width stay. The source panics when `target` is not
/// below the length, which the precondition rules out.
#[verifier::external_body]
pub(crate) fn swap_remove_vector(idx: &mut TurboQuantIndex, target: usize) -> (moved: usize)
    requires
        target < index_vectors(*old(idx)).len(),
    ensures
        moved == index_vectors(*old(idx)).len() - 1,
        index_vectors(*final(idx)) == index_vectors(*old(idx)).update(
            target as int,
            index_vectors(*old(idx)).last(),
        ).drop_last(),
        index_dim(*final(idx)) == index_dim(*old(idx)),
        index_bit_width(*final(idx)) == index_bit_width(*old(idx)),
{
    idx.swap_remove(target)
}

/// Creates an empty index for vectors of `dim` coordinates stored with
/// `bit_width` bits each; succeeds exactly when [`index_config_ok`] holds,
/// and otherwise says why, as [`refusal`] does.
pub fn create_index(dim: usize, bit_width: usize) -> (r: Result<TurboQuantIndex, IndexError>)
    ensures
        r is Ok <==> index_config_ok(dim, bit_width),
        r matches Ok(i) ==> index_dim(i) == dim && index_bit_width(i) == bit_width
            && index_vectors(i) == Seq::<Seq<u8>>::empty() && index_len(i) == 0,
        r matches Err(e) ==> e == refusal(dim, bit_width),
{
    construct_index(dim, bit_width)
}

/// The number of vectors `idx` holds.
pub fn index_size(idx: &TurboQuantIndex) -> (n: usize)
    ensures
        n == index_len(*idx),
        n as nat == index_vectors(*idx).len(),
{
    index_length(idx)
}

} // verus!
