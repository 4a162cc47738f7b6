//! The radial falloff kernel: a precomputed table mapping integer squared
//! distance to a fixed-point falloff factor, replacing a transcendental
//! evaluation per sample. Entry `i` is the sigmoid `1 / (1 + exp(sqrt(i) - 5))`
//! scaled by `SCALE` and rounded to the nearest unit; the table is monotone
//! nonincreasing and ends at the interaction cutoff, squared distance 256.
use vstd::prelude::*;

verus! {

/// Number of kernel buckets: squared distances at or past this contribute
/// nothing.
pub const KERNEL_CUTOFF: usize = 256;

/// The falloff factor for each integer squared distance below the cutoff.
pub const KERNEL_TABLE: [i64; 256] = [
    65097, 64357, 63769, 63132, 62428, 61649, 60792, 59852,
    58830, 57724, 56537, 55270, 53927, 52514, 51036, 49499,
    47911, 46280, 44616, 42926, 41221, 39509, 37800, 36102,
    34422, 32768, 31147, 29565, 28026, 26534, 25094, 23708,
    22377, 21103, 19886, 18727, 17625, 16580, 15589, 14652,
    13767, 12932, 12145, 11404, 10708, 10053, 9438, 8861,
    8320, 7812, 7336, 6890, 6472, 6081, 5714, 5370,
    5049, 4747, 4465, 4201, 3953, 3721, 3503, 3299,
    3108, 2929, 2761, 2603, 2455, 2316, 2186, 2064,
    1949, 1841, 1739, 1644, 1554, 1470, 1390, 1315,
    1245, 1179, 1116, 1057, 1002, 950, 900, 854,
    810, 769, 729, 693, 658, 625, 593, 564,
    536, 510, 485, 461, 439, 417, 397, 378,
    360, 343, 327, 312, 297, 283, 270, 257,
    246, 234, 224, 213, 204, 195, 186, 177,
    170, 162, 155, 148, 142, 135, 129, 124,
    118, 113, 109, 104, 99, 95, 91, 87,
    84, 80, 77, 74, 71, 68, 65, 62,
    60, 57, 55, 53, 51, 49, 47, 45,
    43, 41, 40, 38, 37, 35, 34, 32,
    31, 30, 29, 28, 27, 26, 25, 24,
    23, 22, 21, 20, 20, 19, 18, 17,
    17, 16, 16, 15, 14, 14, 13, 13,
    12, 12, 12, 11, 11, 10, 10, 10,
    9, 9, 9, 8, 8, 8, 8, 7,
    7, 7, 7, 6, 6, 6, 6, 5,
    5, 5, 5, 5, 5, 4, 4, 4,
    4, 4, 4, 4, 4, 3, 3, 3,
    3, 3, 3, 3, 3, 3, 3, 2,
    2, 2, 2, 2, 2, 2, 2, 2,
    2, 2, 2, 2, 2, 2, 2, 1,
    1, 1, 1, 1, 1, 1, 1, 1,
];

/// Build the radial falloff table the field engine samples from.
pub fn create_field_vec() -> (r: Vec<i64>)
    ensures
        r@ == KERNEL_TABLE@,
        r@.len() == 256,
{
    let mut result: Vec<i64> = Vec::new();
    let mut i: usize = 0;
    while i < 256
        invariant
            i <= 256,
            result@ == KERNEL_TABLE@.subrange(0, i as int),
        decreases 256 - i,
    {
        result.push(KERNEL_TABLE[i]);
        proof {
            assert(result@ == KERNEL_TABLE@.subrange(0, i + 1));
        }
        i = i + 1;
    }
    proof {
        assert(result@ == KERNEL_TABLE@.subrange(0, 256));
        assert(KERNEL_TABLE@.subrange(0, 256) == KERNEL_TABLE@);
    }
    result
}

} // verus!
