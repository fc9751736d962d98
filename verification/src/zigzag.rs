//! The zigzag scan order of an 8x8 block, its inverse, and the proof
//! that the two are a bijection on the 64 block positions.

use vstd::prelude::*;

verus! {

/// Natural (raster) position of the coefficient at zigzag position `k`.
pub open spec fn zz_nat(k: int) -> int {
    if k == 0 { 0 } else if k == 1 { 1 } else if k == 2 { 8 } else if k == 3 { 16 } else if k == 4 { 9 } else if k == 5 { 2 } else if k == 6 { 3 } else if k == 7 { 10 } else if k == 8 { 17 } else if k == 9 { 24 } else if k == 10 { 32 } else if k == 11 { 25 } else if k == 12 { 18 } else if k == 13 { 11 } else if k == 14 { 4 } else if k == 15 { 5 } else if k == 16 { 12 } else if k == 17 { 19 } else if k == 18 { 26 } else if k == 19 { 33 } else if k == 20 { 40 } else if k == 21 { 48 } else if k == 22 { 41 } else if k == 23 { 34 } else if k == 24 { 27 } else if k == 25 { 20 } else if k == 26 { 13 } else if k == 27 { 6 } else if k == 28 { 7 } else if k == 29 { 14 } else if k == 30 { 21 } else if k == 31 { 28 } else if k == 32 { 35 } else if k == 33 { 42 } else if k == 34 { 49 } else if k == 35 { 56 } else if k == 36 { 57 } else if k == 37 { 50 } else if k == 38 { 43 } else if k == 39 { 36 } else if k == 40 { 29 } else if k == 41 { 22 } else if k == 42 { 15 } else if k == 43 { 23 } else if k == 44 { 30 } else if k == 45 { 37 } else if k == 46 { 44 } else if k == 47 { 51 } else if k == 48 { 58 } else if k == 49 { 59 } else if k == 50 { 52 } else if k == 51 { 45 } else if k == 52 { 38 } else if k == 53 { 31 } else if k == 54 { 39 } else if k == 55 { 46 } else if k == 56 { 53 } else if k == 57 { 60 } else if k == 58 { 61 } else if k == 59 { 54 } else if k == 60 { 47 } else if k == 61 { 55 } else if k == 62 { 62 } else if k == 63 { 63 } else { 0 }
}

/// Zigzag position of the coefficient at natural (raster) position `n`.
pub open spec fn nat_zz(n: int) -> int {
    if n == 0 { 0 } else if n == 1 { 1 } else if n == 2 { 5 } else if n == 3 { 6 } else if n == 4 { 14 } else if n == 5 { 15 } else if n == 6 { 27 } else if n == 7 { 28 } else if n == 8 { 2 } else if n == 9 { 4 } else if n == 10 { 7 } else if n == 11 { 13 } else if n == 12 { 16 } else if n == 13 { 26 } else if n == 14 { 29 } else if n == 15 { 42 } else if n == 16 { 3 } else if n == 17 { 8 } else if n == 18 { 12 } else if n == 19 { 17 } else if n == 20 { 25 } else if n == 21 { 30 } else if n == 22 { 41 } else if n == 23 { 43 } else if n == 24 { 9 } else if n == 25 { 11 } else if n == 26 { 18 } else if n == 27 { 24 } else if n == 28 { 31 } else if n == 29 { 40 } else if n == 30 { 44 } else if n == 31 { 53 } else if n == 32 { 10 } else if n == 33 { 19 } else if n == 34 { 23 } else if n == 35 { 32 } else if n == 36 { 39 } else if n == 37 { 45 } else if n == 38 { 52 } else if n == 39 { 54 } else if n == 40 { 20 } else if n == 41 { 22 } else if n == 42 { 33 } else if n == 43 { 38 } else if n == 44 { 46 } else if n == 45 { 51 } else if n == 46 { 55 } else if n == 47 { 60 } else if n == 48 { 21 } else if n == 49 { 34 } else if n == 50 { 37 } else if n == 51 { 47 } else if n == 52 { 50 } else if n == 53 { 56 } else if n == 54 { 59 } else if n == 55 { 61 } else if n == 56 { 35 } else if n == 57 { 36 } else if n == 58 { 48 } else if n == 59 { 49 } else if n == 60 { 57 } else if n == 61 { 58 } else if n == 62 { 62 } else if n == 63 { 63 } else { 0 }
}

/// Natural position of zigzag position `k`, as executable code.
pub fn zigzag_to_natural(k: usize) -> (r: usize)
    requires
        k < 64,
    ensures
        r == zz_nat(k as int),
        r < 64,
{
    match k {
        0 => 0,
        1 => 1,
        2 => 8,
        3 => 16,
        4 => 9,
        5 => 2,
        6 => 3,
        7 => 10,
        8 => 17,
        9 => 24,
        10 => 32,
        11 => 25,
        12 => 18,
        13 => 11,
        14 => 4,
        15 => 5,
        16 => 12,
        17 => 19,
        18 => 26,
        19 => 33,
        20 => 40,
        21 => 48,
        22 => 41,
        23 => 34,
        24 => 27,
        25 => 20,
        26 => 13,
        27 => 6,
        28 => 7,
        29 => 14,
        30 => 21,
        31 => 28,
        32 => 35,
        33 => 42,
        34 => 49,
        35 => 56,
        36 => 57,
        37 => 50,
        38 => 43,
        39 => 36,
        40 => 29,
        41 => 22,
        42 => 15,
        43 => 23,
        44 => 30,
        45 => 37,
        46 => 44,
        47 => 51,
        48 => 58,
        49 => 59,
        50 => 52,
        51 => 45,
        52 => 38,
        53 => 31,
        54 => 39,
        55 => 46,
        56 => 53,
        57 => 60,
        58 => 61,
        59 => 54,
        60 => 47,
        61 => 55,
        62 => 62,
        63 => 63,
        _ => 0,
    }
}

/// Zigzag position of natural position `n`, as executable code.
pub fn natural_to_zigzag(n: usize) -> (r: usize)
    requires
        n < 64,
    ensures
        r == nat_zz(n as int),
        r < 64,
{
    match n {
        0 => 0,
        1 => 1,
        2 => 5,
        3 => 6,
        4 => 14,
        5 => 15,
        6 => 27,
        7 => 28,
        8 => 2,
        9 => 4,
        10 => 7,
        11 => 13,
        12 => 16,
        13 => 26,
        14 => 29,
        15 => 42,
        16 => 3,
        17 => 8,
        18 => 12,
        19 => 17,
        20 => 25,
        21 => 30,
        22 => 41,
        23 => 43,
        24 => 9,
        25 => 11,
        26 => 18,
        27 => 24,
        28 => 31,
        29 => 40,
        30 => 44,
        31 => 53,
        32 => 10,
        33 => 19,
        34 => 23,
        35 => 32,
        36 => 39,
        37 => 45,
        38 => 52,
        39 => 54,
        40 => 20,
        41 => 22,
        42 => 33,
        43 => 38,
        44 => 46,
        45 => 51,
        46 => 55,
        47 => 60,
        48 => 21,
        49 => 34,
        50 => 37,
        51 => 47,
        52 => 50,
        53 => 56,
        54 => 59,
        55 => 61,
        56 => 35,
        57 => 36,
        58 => 48,
        59 => 49,
        60 => 57,
        61 => 58,
        62 => 62,
        63 => 63,
        _ => 0,
    }
}

/// A 64-element sequence reordered into zigzag order.
pub open spec fn to_zigzag_seq<T>(s: Seq<T>) -> Seq<T> {
    Seq::new(64, |k: int| s[zz_nat(k)])
}

/// A 64-element zigzag-order sequence restored to natural order.
pub open spec fn from_zigzag_seq<T>(s: Seq<T>) -> Seq<T> {
    Seq::new(64, |n: int| s[nat_zz(n)])
}

/// The zigzag/natural permutation is a bijection on positions 0..64.
pub proof fn lemma_zigzag_bijection()
    ensures
        forall|k: int| 0 <= k < 64 ==> 0 <= #[trigger] zz_nat(k) < 64,
        forall|n: int| 0 <= n < 64 ==> 0 <= #[trigger] nat_zz(n) < 64,
        forall|k: int| 0 <= k < 64 ==> nat_zz(#[trigger] zz_nat(k)) == k,
        forall|n: int| 0 <= n < 64 ==> zz_nat(#[trigger] nat_zz(n)) == n,
{
}

/// Serializing a block in zigzag order and reading it back round-trips
/// any 64-element sequence exactly, and so does the other direction.
pub proof fn lemma_zigzag_round_trip<T>(s: Seq<T>)
    requires
        s.len() == 64,
    ensures
        from_zigzag_seq(to_zigzag_seq(s)) == s,
        to_zigzag_seq(from_zigzag_seq(s)) == s,
{
    lemma_zigzag_bijection();
    assert(from_zigzag_seq(to_zigzag_seq(s)) =~= s);
    assert(to_zigzag_seq(from_zigzag_seq(s)) =~= s);
}

/// Reorders a 64-element block into zigzag order.
pub fn zigzag<T: Copy>(vec: Vec<T>) -> (r: Vec<T>)
    requires
        vec.len() == 64,
    ensures
        r@ == to_zigzag_seq(vec@),
{
    let mut r: Vec<T> = Vec::new();
    let mut k: usize = 0;
    while k < 64
        invariant
            vec.len() == 64,
            k <= 64,
            r@.len() == k,
            forall|j: int| 0 <= j < k ==> r@[j] == vec@[zz_nat(j)],
        decreases 64 - k,
    {
        let idx = zigzag_to_natural(k);
        r.push(vec[idx]);
        k = k + 1;
    }
    assert(r@ =~= to_zigzag_seq(vec@));
    r
}

/// Restores a 64-element zigzag-order block to natural (raster) order.
pub fn unzigzag<T: Copy>(vec: &Vec<T>) -> (r: Vec<T>)
    requires
        vec.len() == 64,
    ensures
        r@ == from_zigzag_seq(vec@),
{
    let mut r: Vec<T> = Vec::new();
    let mut n: usize = 0;
    while n < 64
        invariant
            vec.len() == 64,
            n <= 64,
            r@.len() == n,
            forall|j: int| 0 <= j < n ==> r@[j] == vec@[nat_zz(j)],
        decreases 64 - n,
    {
        let idx = natural_to_zigzag(n);
        r.push(vec[idx]);
        n = n + 1;
    }
    assert(r@ =~= from_zigzag_seq(vec@));
    r
}

} // verus!
