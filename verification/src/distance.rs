use vstd::prelude::*;

verus! {

/// Square of the difference of two components.
pub open spec fn sq_diff(x: i32, y: i32) -> nat {
    ((x - y) * (x - y)) as nat
}

/// Squared Euclidean distance of two vectors of equal length: the sum of the
/// squared component differences.
pub open spec fn sq_dist(a: Seq<i32>, b: Seq<i32>) -> nat
    recommends
        a.len() == b.len(),
    decreases a.len(),
{
    if a.len() == 0 {
        0
    } else {
        sq_dist(a.drop_last(), b.drop_last()) + sq_diff(a.last(), b.last())
    }
}

/// A squared component difference is below 2^64.
pub proof fn lemma_sq_diff_bound(x: i32, y: i32)
    ensures
        sq_diff(x, y) == (x - y) * (x - y),
        sq_diff(x, y) <= 0xFFFF_FFFF_0000_0000,
{
    let d: int = x - y;
    assert(-0xFFFF_FFFF <= d <= 0xFFFF_FFFF);
    assert(0 <= d * d <= 0xFFFF_FFFF * 0xFFFF_FFFF) by (nonlinear_arith)
        requires
            -0xFFFF_FFFF <= d <= 0xFFFF_FFFF,
    ;
}

/// The distance of `len` components is at most `len` times the bound of one.
pub proof fn lemma_sq_dist_bound(a: Seq<i32>, b: Seq<i32>)
    requires
        a.len() == b.len(),
    ensures
        sq_dist(a, b) <= a.len() * 0xFFFF_FFFF_0000_0000,
    decreases a.len(),
{
    if a.len() > 0 {
        lemma_sq_dist_bound(a.drop_last(), b.drop_last());
        lemma_sq_diff_bound(a.last(), b.last());
    }
}

/// A vector is at distance zero from itself.
pub proof fn lemma_sq_dist_self(a: Seq<i32>)
    ensures
        sq_dist(a, a) == 0,
    decreases a.len(),
{
    if a.len() > 0 {
        lemma_sq_dist_self(a.drop_last());
    }
}

/// Distance zero is reached only by the vector itself.
pub proof fn lemma_sq_dist_zero(a: Seq<i32>, b: Seq<i32>)
    requires
        a.len() == b.len(),
        sq_dist(a, b) == 0,
    ensures
        a == b,
    decreases a.len(),
{
    if a.len() > 0 {
        lemma_sq_diff_bound(a.last(), b.last());
        lemma_sq_dist_zero(a.drop_last(), b.drop_last());
        let d: int = a.last() - b.last();
        assert(d * d == 0 ==> d == 0) by (nonlinear_arith);
        assert(a.last() == b.last());
        assert(a =~= a.drop_last().push(a.last()));
        assert(b =~= b.drop_last().push(b.last()));
    } else {
        assert(a =~= b);
    }
}

/// Computes the squared Euclidean distance of two vectors of equal length.
pub fn squared_distance(a: &Vec<i32>, b: &Vec<i32>) -> (d: u128)
    requires
        a.len() == b.len(),
    ensures
        d == sq_dist(a@, b@),
{
    let n: usize = a.len();
    let mut total: u128 = 0;
    let mut i: usize = 0;
    while i < n
        invariant
            n == a.len(),
            n == b.len(),
            i <= n,
            total == sq_dist(a@.take(i as int), b@.take(i as int)),
        decreases n - i,
    {
        let x: i64 = a[i] as i64;
        let y: i64 = b[i] as i64;
        let mag: u64 = if x >= y {
            (x - y) as u64
        } else {
            (y - x) as u64
        };
        proof {
            lemma_sq_diff_bound(a[i as int], b[i as int]);
            assert(mag * mag == (x - y) * (x - y)) by (nonlinear_arith)
                requires
                    mag == x - y || mag == -(x - y),
            ;
            assert(a@.take(i + 1).drop_last() =~= a@.take(i as int));
            assert(b@.take(i + 1).drop_last() =~= b@.take(i as int));
            lemma_sq_dist_bound(a@.take(i + 1), b@.take(i + 1));
            assert((i + 1) * 0xFFFF_FFFF_0000_0000 <= 0xFFFF_FFFF_FFFF_FFFF
                * 0xFFFF_FFFF_0000_0000) by (nonlinear_arith)
                requires
                    i + 1 <= 0xFFFF_FFFF_FFFF_FFFF,
            ;
        }
        let term: u128 = (mag as u128) * (mag as u128);
        total = total + term;
        i = i + 1;
    }
    proof {
        assert(a@.take(n as int) =~= a@);
        assert(b@.take(n as int) =~= b@);
    }
    total
}

} // verus!
