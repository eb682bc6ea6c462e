//! Core logic of a small blog engine: article parsing and listing,
//! comment bookkeeping, configuration themes, and an image-thumbnail
//! subsystem (deterministic naming, directory scanning, grouped listing,
//! and progress tracking for background generation).

pub mod strutil;
pub mod markdown;
pub mod article;
pub mod errors;
pub mod comments;
pub mod article_view;
pub mod config;
pub mod handlers;
pub mod hb;
pub mod static_files;
pub mod typography;
pub mod slug;
pub mod thumbnails;

use vstd::prelude::*;

verus! {

/// What `div_ceil` returns: the quotient, rounded up.
pub open spec fn div_ceil_spec(lhs: int, rhs: int) -> int
    recommends
        rhs > 0,
{
    lhs / rhs + if lhs % rhs > 0 {
        1int
    } else {
        0int
    }
}

/// Integer division rounding up, used for page counts.
pub fn div_ceil(lhs: usize, rhs: usize) -> (r: usize)
    requires
        rhs > 0,
    ensures
        r == div_ceil_spec(lhs as int, rhs as int),
{
    let d = lhs / rhs;
    let rem = lhs % rhs;
    if rem > 0 {
        assert(d < lhs) by (nonlinear_arith)
            requires
                rhs >= 1,
                d == lhs as int / rhs as int,
                lhs as int % rhs as int > 0,
        ;
        d + 1
    } else {
        d
    }
}

} // verus!
