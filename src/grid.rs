use vstd::prelude::*;

verus! {

/// Why a generation request was refused.
#[derive(Clone, Copy, Debug, PartialEq, Eq, Structural)]
pub enum GenError {
    /// A width or a height of zero.
    InvalidDimensions,
    /// An octave count of zero.
    InvalidParameter,
}

/// `m` has `w` columns, each holding `h` entries; it is addressed as `m[x][y]`.
pub open spec fn is_rect<T>(m: Seq<Vec<T>>, w: int, h: int) -> bool {
    &&& m.len() == w
    &&& forall|x: int| 0 <= x < w ==> #[trigger] m[x]@.len() == h
}

} // verus!
