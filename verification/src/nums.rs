//! Mathematical model of the tensor arithmetic: sequences of unbounded
//! integers, elementwise combinations, dot products and axis sums, together
//! with the range predicates that say when a value is representable as `i64`.

use vstd::prelude::*;

verus! {

/// An unbounded integer lies within the representable range of `i64`.
pub open spec fn in64(x: int) -> bool {
    i64::MIN <= x <= i64::MAX
}

/// The view of a machine-integer sequence as a sequence of unbounded integers.
pub open spec fn iv(s: Seq<i64>) -> Seq<int> {
    s.map_values(|x: i64| x as int)
}

/// Viewing machine integers as unbounded integers keeps the length.
pub proof fn lemma_iv_len(s: Seq<i64>)
    ensures
        iv(s).len() == s.len(),
{
}

/// The constant sequence of length `n` whose every element is `v`.
pub open spec fn const_int(n: nat, v: int) -> Seq<int> {
    Seq::new(n, |i: int| v)
}

/// Elementwise sum; the length follows the first operand.
pub open spec fn add_seqs(a: Seq<int>, b: Seq<int>) -> Seq<int> {
    Seq::new(a.len(), |i: int| a[i] + b[i])
}

/// Elementwise difference; the length follows the first operand.
pub open spec fn sub_seqs(a: Seq<int>, b: Seq<int>) -> Seq<int> {
    Seq::new(a.len(), |i: int| a[i] - b[i])
}

/// Elementwise product; the length follows the first operand.
pub open spec fn mul_seqs(a: Seq<int>, b: Seq<int>) -> Seq<int> {
    Seq::new(a.len(), |i: int| a[i] * b[i])
}

/// Every elementwise sum of `a` and `b` is representable.
pub open spec fn add_fits(a: Seq<int>, b: Seq<int>) -> bool {
    forall|i: int| 0 <= i < a.len() ==> in64(a[i] + b[i])
}

/// Every elementwise difference of `a` and `b` is representable.
pub open spec fn sub_fits(a: Seq<int>, b: Seq<int>) -> bool {
    forall|i: int| 0 <= i < a.len() ==> in64(a[i] - b[i])
}

/// Every elementwise product of `a` and `b` is representable.
pub open spec fn mul_fits(a: Seq<int>, b: Seq<int>) -> bool {
    forall|i: int| 0 <= i < a.len() ==> in64(a[i] * b[i])
}

/// The entry in row `r`, column `c` of a row-major matrix with `cols`
/// columns.
pub open spec fn at2(s: Seq<int>, cols: int, r: int, c: int) -> int {
    s[r * cols + c]
}

/// Sum of the first `p` elements of `s`.
pub open spec fn psum(s: Seq<int>, p: int) -> int
    decreases p,
{
    if p <= 0 {
        0
    } else {
        psum(s, p - 1) + s[p - 1]
    }
}

/// The dot product of row `r` of an `_ x n` matrix `x` (stored row-major)
/// with column `c` of an `n x o` matrix `y`, truncated to the first `p`
/// summands.
pub open spec fn dotp(x: Seq<int>, y: Seq<int>, r: int, c: int, p: int, n: int, o: int) -> int
    decreases p,
{
    if p <= 0 {
        0
    } else {
        dotp(x, y, r, c, p - 1, n, o) + x[r * n + (p - 1)] * y[(p - 1) * o + c]
    }
}

/// The row-major `m x o` product of an `m x n` matrix `x` with an `n x o`
/// matrix `y`, over unbounded integers.
pub open spec fn mm(x: Seq<int>, y: Seq<int>, m: int, n: int, o: int) -> Seq<int> {
    Seq::new((m * o) as nat, |idx: int| dotp(x, y, idx / o, idx % o, n, n, o))
}

/// Every prefix of every dot product of the `m x n` by `n x o` product is
/// representable.  This is exactly the condition under which an accumulating
/// evaluation never leaves the `i64` range.
pub open spec fn mm_fits(x: Seq<int>, y: Seq<int>, m: int, n: int, o: int) -> bool {
    forall|r: int, c: int, p: int|
        0 <= r < m && 0 <= c < o && 0 <= p <= n ==> in64(#[trigger] dotp(x, y, r, c, p, n, o))
}

/// Sum of the first `p` entries of column `j` of an `_ x n` row-major matrix.
pub open spec fn csum(s: Seq<int>, p: int, n: int, j: int) -> int
    decreases p,
{
    if p <= 0 {
        0
    } else {
        csum(s, p - 1, n, j) + s[(p - 1) * n + j]
    }
}

/// Every column-sum prefix over `m` rows is representable.
pub open spec fn csum_fits(s: Seq<int>, m: int, n: int) -> bool {
    forall|j: int, p: int| 0 <= j < n && 0 <= p <= m ==> in64(#[trigger] csum(s, p, n, j))
}

/// Negated sum of the first `p` entries of group `g` of a row-major matrix
/// with `inner` entries per group.
pub open spec fn nrsum(s: Seq<int>, g: int, p: int, inner: int) -> int
    decreases p,
{
    if p <= 0 {
        0
    } else {
        nrsum(s, g, p - 1, inner) - s[g * inner + (p - 1)]
    }
}

/// Every negated group-sum prefix over `outer` groups is representable.
pub open spec fn nrsum_fits(s: Seq<int>, outer: int, inner: int) -> bool {
    forall|g: int, p: int|
        0 <= g < outer && 0 <= p <= inner ==> in64(#[trigger] nrsum(s, g, p, inner))
}

/// Every prefix sum of `s` is representable.
pub open spec fn psum_fits(s: Seq<int>) -> bool {
    forall|p: int| 0 <= p <= s.len() ==> in64(#[trigger] psum(s, p))
}

/// One entry of a broadcast sum: element `idx` of an `_ x n` matrix plus the
/// bias entry of its column.
pub open spec fn badd_at(x: Seq<int>, b: Seq<int>, n: int, idx: int) -> int {
    x[idx] + b[idx % n]
}

/// Every entry of the broadcast sum of an `m x n` matrix and a length-`n`
/// bias is representable.
pub open spec fn badd_fits(x: Seq<int>, b: Seq<int>, m: int, n: int) -> bool {
    forall|idx: int| 0 <= idx < m * n ==> in64(#[trigger] badd_at(x, b, n, idx))
}

/// One entry of a broadcast difference: element `idx` of an
/// `outer x inner` matrix minus the entry of its group.
pub open spec fn bsub_at(x: Seq<int>, b: Seq<int>, inner: int, idx: int) -> int {
    x[idx] - b[idx / inner]
}

/// Every entry of the broadcast difference of an `outer x inner` matrix and
/// a length-`outer` operand is representable.
pub open spec fn bsub_fits(x: Seq<int>, b: Seq<int>, outer: int, inner: int) -> bool {
    forall|idx: int| 0 <= idx < outer * inner ==> in64(#[trigger] bsub_at(x, b, inner, idx))
}

/// The number of elements of a tensor with the given dimensions.
pub open spec fn prod(s: Seq<usize>) -> int
    decreases s.len(),
{
    if s.len() == 0 {
        1
    } else {
        prod(s.drop_last()) * s.last()
    }
}

/// A zero dimension makes the whole element count zero.
pub proof fn lemma_prod_zero(s: Seq<usize>, k: int)
    requires
        0 <= k < s.len(),
        s[k] == 0,
    ensures
        prod(s) == 0,
    decreases s.len(),
{
    if k == s.len() - 1 {
        assert(prod(s) == prod(s.drop_last()) * 0);
    } else {
        lemma_prod_zero(s.drop_last(), k);
        assert(prod(s) == prod(s.drop_last()) * s.last());
        assert(0 * s.last() == 0);
    }
}

/// With every dimension positive, the element count is positive.
pub proof fn lemma_prod_pos(s: Seq<usize>)
    requires
        forall|i: int| 0 <= i < s.len() ==> s[i] >= 1,
    ensures
        prod(s) >= 1,
    decreases s.len(),
{
    if s.len() > 0 {
        lemma_prod_pos(s.drop_last());
        assert(prod(s.drop_last()) * s.last() >= 1) by (nonlinear_arith)
            requires
                prod(s.drop_last()) >= 1,
                s.last() >= 1,
        ;
    }
}

/// With every dimension positive, a prefix of the dimensions has an element
/// count no larger than the whole.
pub proof fn lemma_prod_prefix_mono(s: Seq<usize>, k: int)
    requires
        0 <= k <= s.len(),
        forall|i: int| 0 <= i < s.len() ==> s[i] >= 1,
    ensures
        prod(s.take(k)) <= prod(s),
    decreases s.len() - k,
{
    if k == s.len() {
        assert(s.take(k) =~= s);
    } else {
        lemma_prod_prefix_mono(s, k + 1);
        assert(s.take(k + 1).drop_last() =~= s.take(k));
        assert(forall|i: int| 0 <= i < s.take(k).len() ==> s.take(k)[i] >= 1);
        lemma_prod_pos(s.take(k));
        assert(prod(s.take(k + 1)) == prod(s.take(k)) * s[k]);
        assert(prod(s.take(k)) * s[k] >= prod(s.take(k))) by (nonlinear_arith)
            requires
                prod(s.take(k)) >= 1,
                s[k] >= 1,
        ;
    }
}

/// A flat row-major index stays within the element count of the matrix.
pub proof fn lemma_flat_index(r: int, c: int, rows: int, cols: int)
    requires
        0 <= r < rows,
        0 <= c < cols,
    ensures
        0 <= r * cols + c < rows * cols,
        r * cols <= (rows - 1) * cols,
{
    assert(r * cols <= (rows - 1) * cols && (rows - 1) * cols + cols == rows * cols)
        by (nonlinear_arith)
        requires
            0 <= r < rows,
            0 <= c < cols,
    ;
}

/// Recovering the row and column of a flat row-major index.
pub proof fn lemma_flat_index_inverse(r: int, c: int, cols: int)
    requires
        0 <= r,
        0 <= c < cols,
    ensures
        (r * cols + c) / cols == r,
        (r * cols + c) % cols == c,
{
    vstd::arithmetic::div_mod::lemma_fundamental_div_mod_converse(r * cols + c, cols, r, c);
}

/// The product of a two-dimensional shape is the product of its dimensions.
pub proof fn lemma_prod2(s: Seq<usize>)
    requires
        s.len() == 2,
    ensures
        prod(s) == s[0] * s[1],
{
    assert(s.drop_last().drop_last() =~= Seq::<usize>::empty());
    assert(prod(Seq::<usize>::empty()) == 1);
    assert(prod(s.drop_last()) == prod(s.drop_last().drop_last()) * s.drop_last().last());
    assert(prod(s.drop_last()) == s[0]);
}

/// The product of a one-dimensional shape is its single dimension.
pub proof fn lemma_prod1(s: Seq<usize>)
    requires
        s.len() == 1,
    ensures
        prod(s) == s[0],
{
    assert(s.drop_last() =~= Seq::<usize>::empty());
    assert(prod(Seq::<usize>::empty()) == 1);
}

} // verus!
