//! The manifest describing a dataset's paired record streams.

use vstd::prelude::*;

verus! {

/// Counts and dimensions declared once at export time and held against every
/// record at import time: `d` is the dimension of train/test vectors, `n` the
/// count of train vectors, `m` the count of test vectors, and `k` the width
/// of each groundtruth answer array.
#[derive(Clone, Copy, Debug, PartialEq, Eq, Structural)]
pub struct Manifest {
    pub d: usize,
    pub n: usize,
    pub m: usize,
    pub k: usize,
}

} // verus!
