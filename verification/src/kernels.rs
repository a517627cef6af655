//! Checked executable kernels over flat `i64` buffers: elementwise
//! combination, matrix product, transpose and the axis reductions that the
//! backward rules need.  Each kernel returns `None` exactly when some
//! intermediate value of the exact computation leaves the `i64` range.

use vstd::prelude::*;

use crate::nums::{
    add_fits, add_seqs, at2, const_int, csum, csum_fits, dotp, in64, iv, lemma_flat_index,
    lemma_flat_index_inverse, mm, mm_fits, mul_fits, mul_seqs, nrsum, nrsum_fits, psum, psum_fits,
    sub_fits, sub_seqs,
};

verus! {

/// The constant buffer of length `n` filled with `v`.
#[verifier::loop_isolation(false)]
pub fn const_vec(n: usize, v: i64) -> (r: Vec<i64>)
    ensures
        r@.len() == n,
        forall|k: int| 0 <= k < n ==> r@[k] == v,
        iv(r@) == const_int(n as nat, v as int),
{
    let mut r: Vec<i64> = Vec::new();
    let mut i: usize = 0;
    while i < n
        invariant
            i <= n,
            r@.len() == i,
            forall|k: int| 0 <= k < i ==> r@[k] == v,
        decreases n - i,
    {
        r.push(v);
        i += 1;
    }
    proof {
        assert(iv(r@) =~= const_int(n as nat, v as int));
    }
    r
}

/// A fresh buffer with the same contents.
#[verifier::loop_isolation(false)]
pub fn copy_vec(v: &Vec<i64>) -> (r: Vec<i64>)
    ensures
        r@ == v@,
{
    let mut r: Vec<i64> = Vec::new();
    let mut i: usize = 0;
    while i < v.len()
        invariant
            i <= v@.len(),
            r@ == v@.take(i as int),
        decreases v@.len() - i,
    {
        r.push(v[i]);
        proof {
            assert(r@ =~= v@.take(i + 1));
        }
        i += 1;
    }
    proof {
        assert(v@.take(v@.len() as int) =~= v@);
    }
    r
}

/// Elementwise checked sum of two buffers of equal length.
#[verifier::loop_isolation(false)]
pub fn ew_add(a: &Vec<i64>, b: &Vec<i64>) -> (r: Option<Vec<i64>>)
    requires
        a@.len() == b@.len(),
    ensures
        match r {
            Some(v) => add_fits(iv(a@), iv(b@)) && iv(v@) == add_seqs(iv(a@), iv(b@)),
            None => !add_fits(iv(a@), iv(b@)),
        },
{
    let mut r: Vec<i64> = Vec::new();
    let mut i: usize = 0;
    while i < a.len()
        invariant
            i <= a@.len(),
            r@.len() == i,
            forall|k: int| 0 <= k < i ==> in64(#[trigger] (a@[k] as int) + (b@[k] as int)),
            forall|k: int| 0 <= k < i ==> #[trigger] (r@[k] as int) == (a@[k] as int) + (
            b@[k] as int),
        decreases a@.len() - i,
    {
        match a[i].checked_add(b[i]) {
            Some(x) => {
                r.push(x);
            },
            None => {
                assert(!in64(iv(a@)[i as int] + iv(b@)[i as int]));
                return None;
            },
        }
        i += 1;
    }
    proof {
        assert(iv(r@) =~= add_seqs(iv(a@), iv(b@)));
    }
    Some(r)
}

/// Elementwise checked difference of two buffers of equal length.
#[verifier::loop_isolation(false)]
pub fn ew_sub(a: &Vec<i64>, b: &Vec<i64>) -> (r: Option<Vec<i64>>)
    requires
        a@.len() == b@.len(),
    ensures
        match r {
            Some(v) => sub_fits(iv(a@), iv(b@)) && iv(v@) == sub_seqs(iv(a@), iv(b@)),
            None => !sub_fits(iv(a@), iv(b@)),
        },
{
    let mut r: Vec<i64> = Vec::new();
    let mut i: usize = 0;
    while i < a.len()
        invariant
            i <= a@.len(),
            r@.len() == i,
            forall|k: int| 0 <= k < i ==> in64(#[trigger] ((a@[k] as int) - (b@[k] as int))),
            forall|k: int| 0 <= k < i ==> #[trigger] (r@[k] as int) == (a@[k] as int) - (
            b@[k] as int),
        decreases a@.len() - i,
    {
        match a[i].checked_sub(b[i]) {
            Some(x) => {
                r.push(x);
            },
            None => {
                assert(!in64(iv(a@)[i as int] - iv(b@)[i as int]));
                return None;
            },
        }
        i += 1;
    }
    proof {
        assert(iv(r@) =~= sub_seqs(iv(a@), iv(b@)));
    }
    Some(r)
}

/// Elementwise checked product of two buffers of equal length.
#[verifier::loop_isolation(false)]
pub fn ew_mul(a: &Vec<i64>, b: &Vec<i64>) -> (r: Option<Vec<i64>>)
    requires
        a@.len() == b@.len(),
    ensures
        match r {
            Some(v) => mul_fits(iv(a@), iv(b@)) && iv(v@) == mul_seqs(iv(a@), iv(b@)),
            None => !mul_fits(iv(a@), iv(b@)),
        },
{
    let mut r: Vec<i64> = Vec::new();
    let mut i: usize = 0;
    while i < a.len()
        invariant
            i <= a@.len(),
            r@.len() == i,
            forall|k: int| 0 <= k < i ==> in64(#[trigger] ((a@[k] as int) * (b@[k] as int))),
            forall|k: int| 0 <= k < i ==> #[trigger] (r@[k] as int) == (a@[k] as int) * (
            b@[k] as int),
        decreases a@.len() - i,
    {
        match a[i].checked_mul(b[i]) {
            Some(x) => {
                r.push(x);
            },
            None => {
                assert(!in64(iv(a@)[i as int] * iv(b@)[i as int]));
                return None;
            },
        }
        i += 1;
    }
    proof {
        assert(iv(r@) =~= mul_seqs(iv(a@), iv(b@)));
    }
    Some(r)
}

/// Checked sum of all elements of a buffer.
#[verifier::loop_isolation(false)]
pub fn vsum(a: &Vec<i64>) -> (r: Option<i64>)
    ensures
        match r {
            Some(x) => psum_fits(iv(a@)) && x as int == psum(iv(a@), a@.len() as int),
            None => !psum_fits(iv(a@)),
        },
{
    let mut acc: i64 = 0;
    let mut i: usize = 0;
    while i < a.len()
        invariant
            i <= a@.len(),
            acc as int == psum(iv(a@), i as int),
            forall|p: int| 0 <= p <= i ==> in64(#[trigger] psum(iv(a@), p)),
        decreases a@.len() - i,
    {
        match acc.checked_add(a[i]) {
            Some(x) => {
                acc = x;
            },
            None => {
                assert(!in64(psum(iv(a@), i + 1)));
                return None;
            },
        }
        i += 1;
    }
    Some(acc)
}

/// The product of two values in the `i64` range fits in the `i128` range.
proof fn lemma_prod_bound(x: int, y: int)
    requires
        in64(x),
        in64(y),
    ensures
        -(i64::MIN * i64::MIN) <= x * y <= i64::MIN * i64::MIN,
{
    assert(x * y <= i64::MIN * i64::MIN && x * y >= -(i64::MIN * i64::MIN)) by (nonlinear_arith)
        requires
            i64::MIN <= x <= i64::MAX,
            i64::MIN <= y <= i64::MAX,
    ;
}

/// Checked row-major matrix product of an `m x n` by an `n x o` buffer.
#[verifier::loop_isolation(false)]
pub fn matmul(x: &Vec<i64>, y: &Vec<i64>, m: usize, n: usize, o: usize) -> (res: Option<Vec<i64>>)
    requires
        x@.len() == m * n,
        y@.len() == n * o,
    ensures
        match res {
            Some(v) => mm_fits(iv(x@), iv(y@), m as int, n as int, o as int) && iv(v@) == mm(
                iv(x@),
                iv(y@),
                m as int,
                n as int,
                o as int,
            ),
            None => !mm_fits(iv(x@), iv(y@), m as int, n as int, o as int),
        },
{
    // Bind the lengths so the element count is known to fit in a machine
    // word when indexing below.
    let _xlen = x.len();
    let _ylen = y.len();
    let ghost xv = iv(x@);
    let ghost yv = iv(y@);
    let mut result: Vec<i64> = Vec::new();
    let mut r: usize = 0;
    while r < m
        invariant
            r <= m,
            result@.len() == r * o,
            forall|rr: int, cc: int, p: int|
                0 <= rr < r && 0 <= cc < o && 0 <= p <= n ==> in64(
                    #[trigger] dotp(xv, yv, rr, cc, p, n as int, o as int),
                ),
            forall|idx: int| 0 <= idx < result@.len() ==> #[trigger] (result@[idx] as int) == dotp(
                xv,
                yv,
                idx / (o as int),
                idx % (o as int),
                n as int,
                n as int,
                o as int,
            ),
        decreases m - r,
    {
        let mut c: usize = 0;
        while c < o
            invariant
                c <= o,
                r < m,
                result@.len() == r * o + c,
                forall|rr: int, cc: int, p: int|
                    0 <= rr < m && 0 <= cc < o && 0 <= p <= n && (rr < r || (rr == r && cc < c))
                        ==> in64(#[trigger] dotp(xv, yv, rr, cc, p, n as int, o as int)),
                forall|idx: int| 0 <= idx < result@.len() ==> #[trigger] (result@[idx] as int)
                    == dotp(
                    xv,
                    yv,
                    idx / (o as int),
                    idx % (o as int),
                    n as int,
                    n as int,
                    o as int,
                ),
            decreases o - c,
        {
            let mut acc: i128 = 0;
            let mut k: usize = 0;
            while k < n
                invariant
                    k <= n,
                    c < o,
                    r < m,
                    acc as int == dotp(xv, yv, r as int, c as int, k as int, n as int, o as int),
                    in64(acc as int),
                    forall|p: int|
                        0 <= p <= k ==> in64(
                            #[trigger] dotp(xv, yv, r as int, c as int, p, n as int, o as int),
                        ),
                decreases n - k,
            {
                proof {
                    lemma_flat_index(r as int, k as int, m as int, n as int);
                    lemma_flat_index(k as int, c as int, n as int, o as int);
                }
                let xe = x[r * n + k];
                let ye = y[k * o + c];
                proof {
                    lemma_prod_bound(xe as int, ye as int);
                    assert((i64::MIN * i64::MIN) + i64::MAX <= i128::MAX);
                    assert(-(i64::MIN * i64::MIN) + i64::MIN >= i128::MIN);
                }
                let prod: i128 = (xe as i128) * (ye as i128);
                let acc2: i128 = acc + prod;
                assert(acc2 as int == dotp(
                    xv,
                    yv,
                    r as int,
                    c as int,
                    k + 1,
                    n as int,
                    o as int,
                ));
                if acc2 > (i64::MAX as i128) || acc2 < (i64::MIN as i128) {
                    assert(!in64(dotp(xv, yv, r as int, c as int, k + 1, n as int, o as int)));
                    assert(!mm_fits(xv, yv, m as int, n as int, o as int));
                    return None;
                }
                acc = acc2;
                k += 1;
            }
            result.push(acc as i64);
            proof {
                lemma_flat_index(r as int, c as int, m as int, o as int);
                lemma_flat_index_inverse(r as int, c as int, o as int);
            }
            c += 1;
        }
        proof {
            assert((r + 1) * o == r * o + o) by (nonlinear_arith);
        }
        r += 1;
    }
    proof {
        assert(iv(result@) =~= mm(xv, yv, m as int, n as int, o as int));
    }
    Some(result)
}

/// Row-major transpose of an `m x n` buffer into an `n x m` buffer.
#[verifier::loop_isolation(false)]
pub fn transpose(x: &Vec<i64>, m: usize, n: usize) -> (r: Vec<i64>)
    requires
        x@.len() == m * n,
    ensures
        r@.len() == n * m,
        forall|i: int, j: int| 0 <= i < m && 0 <= j < n ==> #[trigger] at2(iv(r@), m as int, j, i)
            == at2(iv(x@), n as int, i, j),
{
    let _xlen = x.len();
    let mut result: Vec<i64> = Vec::new();
    let mut j: usize = 0;
    while j < n
        invariant
            j <= n,
            result@.len() == j * m,
            forall|idx: int| 0 <= idx < result@.len() ==> #[trigger] (result@[idx] as int) == (x@[(
            idx % (m as int)) * n + idx / (m as int)] as int),
        decreases n - j,
    {
        let mut i: usize = 0;
        while i < m
            invariant
                i <= m,
                j < n,
                result@.len() == j * m + i,
                forall|idx: int| 0 <= idx < result@.len() ==> #[trigger] (result@[idx] as int) == (
                x@[(idx % (m as int)) * n + idx / (m as int)] as int),
            decreases m - i,
        {
            proof {
                lemma_flat_index(i as int, j as int, m as int, n as int);
                lemma_flat_index(j as int, i as int, n as int, m as int);
                lemma_flat_index_inverse(j as int, i as int, m as int);
            }
            result.push(x[i * n + j]);
            i += 1;
        }
        proof {
            assert((j + 1) * m == j * m + m) by (nonlinear_arith);
        }
        j += 1;
    }
    proof {
        assert(n * m == result@.len());
        assert forall|i: int, j: int| 0 <= i < m && 0 <= j < n implies #[trigger] at2(
            iv(result@),
            m as int,
            j,
            i,
        ) == at2(iv(x@), n as int, i, j) by {
            lemma_flat_index(j, i, n as int, m as int);
            lemma_flat_index(i, j, m as int, n as int);
            lemma_flat_index_inverse(j, i, m as int);
            assert(result@[j * (m as int) + i] as int == x@[i * (n as int) + j] as int);
        }
    }
    result
}

/// Checked per-column sums of an `m x n` buffer, a length-`n` buffer.
#[verifier::loop_isolation(false)]
pub fn col_sums(s: &Vec<i64>, m: usize, n: usize) -> (r: Option<Vec<i64>>)
    requires
        s@.len() == m * n,
    ensures
        match r {
            Some(v) => {
                &&& csum_fits(iv(s@), m as int, n as int)
                &&& v@.len() == n
                &&& forall|j: int| 0 <= j < n ==> #[trigger] (v@[j] as int) == csum(
                    iv(s@),
                    m as int,
                    n as int,
                    j,
                )
            },
            None => !csum_fits(iv(s@), m as int, n as int),
        },
{
    let _slen = s.len();
    let ghost sv = iv(s@);
    let mut result: Vec<i64> = Vec::new();
    let mut j: usize = 0;
    while j < n
        invariant
            j <= n,
            result@.len() == j,
            forall|jj: int, p: int| 0 <= jj < j && 0 <= p <= m ==> in64(
                #[trigger] csum(sv, p, n as int, jj),
            ),
            forall|jj: int| 0 <= jj < j ==> #[trigger] (result@[jj] as int) == csum(
                sv,
                m as int,
                n as int,
                jj,
            ),
        decreases n - j,
    {
        let mut acc: i64 = 0;
        let mut i: usize = 0;
        while i < m
            invariant
                i <= m,
                j < n,
                acc as int == csum(sv, i as int, n as int, j as int),
                forall|p: int| 0 <= p <= i ==> in64(#[trigger] csum(sv, p, n as int, j as int)),
            decreases m - i,
        {
            proof {
                lemma_flat_index(i as int, j as int, m as int, n as int);
            }
            match acc.checked_add(s[i * n + j]) {
                Some(x) => {
                    acc = x;
                },
                None => {
                    assert(!in64(csum(sv, i + 1, n as int, j as int)));
                    return None;
                },
            }
            i += 1;
        }
        result.push(acc);
        j += 1;
    }
    Some(result)
}

/// Checked negated per-group sums of an `outer x inner` buffer, a
/// length-`outer` buffer.
#[verifier::loop_isolation(false)]
pub fn neg_group_sums(s: &Vec<i64>, outer: usize, inner: usize) -> (r: Option<Vec<i64>>)
    requires
        s@.len() == outer * inner,
    ensures
        match r {
            Some(v) => {
                &&& nrsum_fits(iv(s@), outer as int, inner as int)
                &&& v@.len() == outer
                &&& forall|g: int| 0 <= g < outer ==> #[trigger] (v@[g] as int) == nrsum(
                    iv(s@),
                    g,
                    inner as int,
                    inner as int,
                )
            },
            None => !nrsum_fits(iv(s@), outer as int, inner as int),
        },
{
    let _slen = s.len();
    let ghost sv = iv(s@);
    let mut result: Vec<i64> = Vec::new();
    let mut g: usize = 0;
    while g < outer
        invariant
            g <= outer,
            result@.len() == g,
            forall|gg: int, p: int| 0 <= gg < g && 0 <= p <= inner ==> in64(
                #[trigger] nrsum(sv, gg, p, inner as int),
            ),
            forall|gg: int| 0 <= gg < g ==> #[trigger] (result@[gg] as int) == nrsum(
                sv,
                gg,
                inner as int,
                inner as int,
            ),
        decreases outer - g,
    {
        let mut acc: i64 = 0;
        let mut i: usize = 0;
        while i < inner
            invariant
                i <= inner,
                g < outer,
                acc as int == nrsum(sv, g as int, i as int, inner as int),
                forall|p: int| 0 <= p <= i ==> in64(
                    #[trigger] nrsum(sv, g as int, p, inner as int),
                ),
            decreases inner - i,
        {
            proof {
                lemma_flat_index(g as int, i as int, outer as int, inner as int);
            }
            match acc.checked_sub(s[g * inner + i]) {
                Some(x) => {
                    acc = x;
                },
                None => {
                    assert(!in64(nrsum(sv, g as int, i + 1, inner as int)));
                    return None;
                },
            }
            i += 1;
        }
        result.push(acc);
        g += 1;
    }
    Some(result)
}

} // verus!
