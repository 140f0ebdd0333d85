//! Tristate numbers: an abstract domain over 64-bit words in which each bit is known to be
//! zero, known to be one, or unknown, with its lattice, bitwise, arithmetic and
//! multiplication operators.
pub mod arith;
pub mod bits;
pub mod bitwise;
pub mod compare;
pub mod high_mul;
pub mod mul;
pub mod mul_rec;
pub mod render;
pub mod split_mul;
pub mod tnum;

pub use arith::{tnum_add, tnum_sub};
pub use bitwise::{
    tnum_and, tnum_arshift, tnum_clear_subreg, tnum_const_subreg, tnum_lshift, tnum_or,
    tnum_rshift, tnum_subreg, tnum_with_subreg, tnum_xor,
};
pub use compare::{compare_outputs, methods, tnum_from_raw, Comparison, MulMethod};
pub use high_mul::xtnum_mul_high_top;
pub use mul::{tnum_mul, tnum_mul_opt};
pub use mul_rec::tnum_mul_rec;
pub use render::tnum_sbin;
pub use split_mul::{xtnum_mul, xtnum_mul_top};
pub use tnum::{
    tnum_cast, tnum_const, tnum_in, tnum_intersect, tnum_is_aligned, tnum_join, tnum_range, Tnum,
    TnumView,
};
