//! In-place quicksort over `i64` vectors and over any element type that can
//! compare itself with another value of its type and duplicate itself.
mod perm;
pub mod numeric;
pub mod generic;

pub use generic::{sort_gen, Comparator, Copier};
pub use numeric::sort;
