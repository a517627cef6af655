//! The differentiation laws.  Each proof function states, over the replay
//! model of the tape, what the backward pass computes for one operation
//! followed by a full sum: exactly the tape that `sum_all` leaves on the
//! result of that operation, replayed from the seed gradient that
//! `backward` plants.

use vstd::prelude::*;

use crate::nums::{add_seqs, at2, const_int, csum, iv, mm, mul_seqs, nrsum};
use crate::store::{accum, lookup};
use crate::tape::{
    apply, is_broadcast_add_rec, is_broadcast_sub_rec, is_elementwise_rec, is_matmul_rec,
    is_sum_rec, replay, OpRecord,
};

verus! {

/// Sum of the first `p` entries of group `g` of a row-major matrix with
/// `inner` entries per group.
pub open spec fn rsum(s: Seq<int>, g: int, p: int, inner: int) -> int
    decreases p,
{
    if p <= 0 {
        0
    } else {
        rsum(s, g, p - 1, inner) + s[g * inner + (p - 1)]
    }
}

/// The gradient map that `backward` seeds before draining a fresh tape
/// whose final scalar has identity `sum_id`.
pub open spec fn seeded(sum_id: u64) -> Map<u64, Seq<int>> {
    Map::<u64, Seq<int>>::empty().insert(sum_id, const_int(1, 1))
}

/// Replaying a two-record tape applies the records in reverse registration
/// order.
proof fn lemma_replay_two(ops: Seq<OpRecord>, init: Map<u64, Seq<int>>)
    requires
        ops.len() == 2,
    ensures
        replay(ops, init) == apply(apply(init, ops[1]), ops[0]),
{
    let g1 = apply(init, ops[1]);
    assert(ops.last() == ops[1]);
    assert(replay(ops, init) == replay(ops.drop_last(), g1));
    assert(ops.drop_last() =~= seq![ops[0]]);
    assert(seq![ops[0]].last() == ops[0]);
    assert(seq![ops[0]].drop_last() =~= Seq::<OpRecord>::empty());
    assert(replay(seq![ops[0]], g1) == replay(Seq::<OpRecord>::empty(), apply(g1, ops[0])));
    assert(replay(Seq::<OpRecord>::empty(), apply(g1, ops[0])) == apply(g1, ops[0]));
}

/// Adding a contribution onto an all-zero entry gives the contribution.
proof fn lemma_add_zero(n: nat, c: Seq<int>)
    requires
        c.len() == n,
    ensures
        add_seqs(const_int(n, 0), c) == c,
{
    assert(add_seqs(const_int(n, 0), c) =~= c);
}

/// A coefficient buffer of ones leaves the gradient unchanged.
proof fn lemma_mul_one(n: nat, c: Seq<int>)
    requires
        c.len() == n,
    ensures
        mul_seqs(const_int(n, 1), c) == c,
{
    assert(mul_seqs(const_int(n, 1), c) =~= c);
}

/// Multiplying an all-one gradient with a coefficient buffer gives the
/// coefficients.
proof fn lemma_one_mul(n: nat, c: Seq<int>)
    requires
        c.len() == n,
    ensures
        mul_seqs(c, const_int(n, 1)) == c,
{
    assert(mul_seqs(c, const_int(n, 1)) =~= c);
}

/// The state after replaying the full-sum record on the seeded map: the
/// summed tensor's entry holds gradient one at every element.
proof fn lemma_sum_step(ops: Seq<OpRecord>, out_id: u64, sum_id: u64, n: nat)
    requires
        ops.len() == 2,
        is_sum_rec(ops[1], out_id, sum_id, n as int),
        out_id != sum_id,
    ensures
        apply(seeded(sum_id), ops[1]) == seeded(sum_id).insert(out_id, const_int(n, 1)),
{
    let init = seeded(sum_id);
    let grad = lookup(init, sum_id, 1);
    assert(grad == const_int(1, 1));
    assert(grad[0] == 1);
    assert(const_int(n as nat, grad[0]) =~= const_int(n, 1));
    assert(!init.contains_key(out_id));
    lemma_add_zero(n, const_int(n, 1));
    assert(apply(init, ops[1]) == accum(init, out_id, const_int(n, 1)));
}

/// Backward through `sum_all(add(a, b))` on a fresh tape: the fixed operand
/// `a` and the tracked operand `b` both receive gradient one at every
/// element.
pub proof fn law_add_backward(
    ops: Seq<OpRecord>,
    a_id: u64,
    b_id: u64,
    out_id: u64,
    sum_id: u64,
    n: nat,
)
    requires
        ops.len() == 2,
        is_elementwise_rec(ops[0], a_id, b_id, out_id, const_int(n, 1), const_int(n, 1)),
        is_sum_rec(ops[1], out_id, sum_id, n as int),
        a_id != b_id,
        a_id != out_id,
        b_id != out_id,
        a_id != sum_id,
        b_id != sum_id,
        out_id != sum_id,
    ensures
        ({
            let g = replay(ops, seeded(sum_id));
            &&& g.contains_key(a_id) && g[a_id] == const_int(n, 1)
            &&& g.contains_key(b_id) && g[b_id] == const_int(n, 1)
        }),
{
    lemma_replay_two(ops, seeded(sum_id));
    lemma_sum_step(ops, out_id, sum_id, n);
    let g1 = apply(seeded(sum_id), ops[1]);
    let grad = lookup(g1, out_id, n);
    assert(grad == const_int(n, 1));
    lemma_mul_one(n, grad);
    assert(!g1.contains_key(a_id));
    lemma_add_zero(n, const_int(n, 1));
    let g2 = accum(g1, a_id, const_int(n, 1));
    assert(g2[a_id] == const_int(n, 1));
    assert(!g2.contains_key(b_id));
    let g3 = accum(g2, b_id, const_int(n, 1));
    assert(apply(g1, ops[0]) == g3);
}

/// Backward through `sum_all(sub(a, b))` on a fresh tape: the fixed operand
/// `a` receives gradient plus one and the tracked operand `b` minus one at
/// every element.
pub proof fn law_sub_backward(
    ops: Seq<OpRecord>,
    a_id: u64,
    b_id: u64,
    out_id: u64,
    sum_id: u64,
    n: nat,
)
    requires
        ops.len() == 2,
        is_elementwise_rec(ops[0], a_id, b_id, out_id, const_int(n, 1), const_int(n, -1)),
        is_sum_rec(ops[1], out_id, sum_id, n as int),
        a_id != b_id,
        a_id != out_id,
        b_id != out_id,
        a_id != sum_id,
        b_id != sum_id,
        out_id != sum_id,
    ensures
        ({
            let g = replay(ops, seeded(sum_id));
            &&& g.contains_key(a_id) && g[a_id] == const_int(n, 1)
            &&& g.contains_key(b_id) && g[b_id] == const_int(n, -1)
        }),
{
    lemma_replay_two(ops, seeded(sum_id));
    lemma_sum_step(ops, out_id, sum_id, n);
    let g1 = apply(seeded(sum_id), ops[1]);
    let grad = lookup(g1, out_id, n);
    assert(grad == const_int(n, 1));
    lemma_mul_one(n, grad);
    assert(mul_seqs(const_int(n, -1), grad) =~= const_int(n, -1));
    assert(!g1.contains_key(a_id));
    lemma_add_zero(n, const_int(n, 1));
    lemma_add_zero(n, const_int(n, -1));
    let g2 = accum(g1, a_id, const_int(n, 1));
    assert(g2[a_id] == const_int(n, 1));
    assert(!g2.contains_key(b_id));
    let g3 = accum(g2, b_id, const_int(n, -1));
    assert(apply(g1, ops[0]) == g3);
}

/// Backward through `sum_all(mul(a, b))` on a fresh tape (the product
/// rule): the fixed operand `a` receives `b`'s forward value and the
/// tracked operand `b` receives `a`'s forward value.
pub proof fn law_mul_backward(
    ops: Seq<OpRecord>,
    a_id: u64,
    b_id: u64,
    out_id: u64,
    sum_id: u64,
    av: Seq<int>,
    bv: Seq<int>,
)
    requires
        ops.len() == 2,
        av.len() == bv.len(),
        is_elementwise_rec(ops[0], a_id, b_id, out_id, bv, av),
        is_sum_rec(ops[1], out_id, sum_id, bv.len() as int),
        a_id != b_id,
        a_id != out_id,
        b_id != out_id,
        a_id != sum_id,
        b_id != sum_id,
        out_id != sum_id,
    ensures
        ({
            let g = replay(ops, seeded(sum_id));
            &&& g.contains_key(a_id) && g[a_id] == bv
            &&& g.contains_key(b_id) && g[b_id] == av
        }),
{
    let n = bv.len();
    lemma_replay_two(ops, seeded(sum_id));
    lemma_sum_step(ops, out_id, sum_id, n);
    let g1 = apply(seeded(sum_id), ops[1]);
    let grad = lookup(g1, out_id, n);
    assert(grad == const_int(n, 1));
    lemma_one_mul(n, bv);
    lemma_one_mul(n, av);
    assert(!g1.contains_key(a_id));
    lemma_add_zero(n, bv);
    lemma_add_zero(n, av);
    let g2 = accum(g1, a_id, bv);
    assert(g2[a_id] == bv);
    assert(!g2.contains_key(b_id));
    let g3 = accum(g2, b_id, av);
    assert(apply(g1, ops[0]) == g3);
}

/// A dot product against an all-one left matrix is a column sum of the
/// right matrix.
proof fn lemma_dotp_ones(len: nat, rt: Seq<int>, i: int, j: int, p: int, o: int, n: int, m: int)
    requires
        0 <= i < m,
        0 <= j,
        0 <= p <= o,
        len == m * o,
    ensures
        crate::nums::dotp(const_int(len, 1), rt, i, j, p, o, n) == csum(rt, p, n, j),
    decreases p,
{
    if p > 0 {
        lemma_dotp_ones(len, rt, i, j, p - 1, o, n, m);
        crate::nums::lemma_flat_index(i, p - 1, m, o);
        assert(const_int(len, 1)[i * o + (p - 1)] == 1);
    }
}

/// Under the transpose relation of a matrix-multiply record, a column sum
/// of the stored transpose is a row sum of the forward operand.
proof fn lemma_csum_transpose(rt: Seq<int>, wv: Seq<int>, n: int, o: int, j: int, p: int)
    requires
        0 <= j < n,
        0 <= p <= o,
        forall|i: int, jj: int|
            0 <= i < n && 0 <= jj < o ==> #[trigger] at2(rt, n, jj, i) == at2(wv, o, i, jj),
    ensures
        csum(rt, p, n, j) == rsum(wv, j, p, o),
    decreases p,
{
    if p > 0 {
        lemma_csum_transpose(rt, wv, n, o, j, p - 1);
        assert(at2(rt, n, p - 1, j) == at2(wv, o, j, p - 1));
    }
}

/// Backward through `sum_all(matmat_mul(x, w))` on a fresh tape: the
/// gradient of the tracked `m x n` operand `x` holds, at every entry of
/// column `j`, the sum of row `j` of the fixed `n x o` operand `w` — `w`
/// summed along its output axis, broadcast down the rows.
pub proof fn law_matmul_backward(
    ops: Seq<OpRecord>,
    x_id: u64,
    w_id: u64,
    out_id: u64,
    sum_id: u64,
    m: int,
    n: int,
    o: int,
    xv: Seq<int>,
    wv: Seq<int>,
)
    requires
        ops.len() == 2,
        0 <= m && 0 <= n && 0 <= o,
        xv.len() == m * n,
        wv.len() == n * o,
        is_matmul_rec(ops[0], x_id, w_id, out_id, m, n, o, xv, wv),
        is_sum_rec(ops[1], out_id, sum_id, m * o),
        x_id != w_id,
        x_id != out_id,
        w_id != out_id,
        x_id != sum_id,
        w_id != sum_id,
        out_id != sum_id,
    ensures
        ({
            let g = replay(ops, seeded(sum_id));
            &&& g.contains_key(x_id)
            &&& g[x_id].len() == m * n
            &&& forall|i: int, j: int|
                0 <= i < m && 0 <= j < n ==> #[trigger] at2(g[x_id], n, i, j) == rsum(wv, j, o, o)
        }),
{
    let init = seeded(sum_id);
    let len = (m * o) as nat;
    lemma_replay_two(ops, init);
    lemma_sum_step(ops, out_id, sum_id, len);
    let g1 = apply(init, ops[1]);
    let grad = lookup(g1, out_id, len);
    assert(grad == const_int(len, 1));
    let rt = iv_rt(ops[0]);
    let dl = mm(grad, rt, m, o, n);
    assert(dl.len() == m * n);
    assert(!g1.contains_key(x_id));
    lemma_add_zero((m * n) as nat, dl);
    let g2 = accum(g1, x_id, dl);
    assert(g2[x_id] == dl);
    let g3 = apply(g1, ops[0]);
    assert(g3[x_id] == dl);
    assert(g3.contains_key(x_id));
    assert forall|i: int, j: int| 0 <= i < m && 0 <= j < n implies #[trigger] at2(dl, n, i, j)
        == rsum(wv, j, o, o) by {
        crate::nums::lemma_flat_index(i, j, m, n);
        crate::nums::lemma_flat_index_inverse(i, j, n);
        assert(dl[i * n + j] == crate::nums::dotp(grad, rt, i, j, o, o, n));
        lemma_dotp_ones(len, rt, i, j, o, o, n, m);
        lemma_csum_transpose(rt, wv, n, o, j, o);
    }
}

/// The transposed right-operand buffer stored in a matrix-multiply record.
pub open spec fn iv_rt(op: OpRecord) -> Seq<int> {
    match op {
        OpRecord::MatMul { rhs_t, .. } => iv(rhs_t@),
        _ => Seq::<int>::empty(),
    }
}

/// A column sum of an all-one `m x n` matrix over `p` rows is `p`.
proof fn lemma_csum_ones(len: nat, m: int, n: int, j: int, p: int)
    requires
        0 <= j < n,
        0 <= p <= m,
        len == m * n,
    ensures
        csum(const_int(len, 1), p, n, j) == p,
    decreases p,
{
    if p > 0 {
        lemma_csum_ones(len, m, n, j, p - 1);
        crate::nums::lemma_flat_index(p - 1, j, m, n);
        assert(const_int(len, 1)[(p - 1) * n + j] == 1);
    }
}

/// Backward through `sum_all(broadcast_outer_add(x, b))` on a fresh tape:
/// the tracked `m x n` operand receives gradient one everywhere, and every
/// element of the length-`n` bias receives exactly `m` — one contribution
/// per row, independent of `n`.
pub proof fn law_broadcast_add_backward(
    ops: Seq<OpRecord>,
    x_id: u64,
    b_id: u64,
    out_id: u64,
    sum_id: u64,
    m: int,
    n: int,
)
    requires
        ops.len() == 2,
        0 <= m && 0 <= n,
        is_broadcast_add_rec(ops[0], x_id, b_id, out_id, m, n),
        is_sum_rec(ops[1], out_id, sum_id, m * n),
        x_id != b_id,
        x_id != out_id,
        b_id != out_id,
        x_id != sum_id,
        b_id != sum_id,
        out_id != sum_id,
    ensures
        ({
            let g = replay(ops, seeded(sum_id));
            &&& g.contains_key(x_id) && g[x_id] == const_int((m * n) as nat, 1)
            &&& g.contains_key(b_id) && g[b_id] == const_int(n as nat, m)
        }),
{
    let init = seeded(sum_id);
    let len = (m * n) as nat;
    lemma_replay_two(ops, init);
    lemma_sum_step(ops, out_id, sum_id, len);
    let g1 = apply(init, ops[1]);
    let grad = lookup(g1, out_id, len);
    assert(grad == const_int(len, 1));
    assert(!g1.contains_key(x_id));
    lemma_add_zero(len, grad);
    let g2 = accum(g1, x_id, grad);
    assert(g2[x_id] == const_int(len, 1));
    let dr = Seq::new(n as nat, |j: int| csum(grad, m, n, j));
    assert forall|j: int| 0 <= j < n implies dr[j] == m by {
        lemma_csum_ones(len, m, n, j, m);
    }
    assert(dr =~= const_int(n as nat, m));
    assert(!g2.contains_key(b_id));
    lemma_add_zero(n as nat, dr);
    let g3 = accum(g2, b_id, dr);
    assert(apply(g1, ops[0]) == g3);
    assert(g3[b_id] == const_int(n as nat, m));
    assert(g3[x_id] == const_int(len, 1));
}

/// A negated group sum of an all-one `outer x inner` matrix over `p`
/// entries is `-p`.
proof fn lemma_nrsum_ones(len: nat, outer: int, inner: int, g: int, p: int)
    requires
        0 <= g < outer,
        0 <= p <= inner,
        len == outer * inner,
    ensures
        nrsum(const_int(len, 1), g, p, inner) == -p,
    decreases p,
{
    if p > 0 {
        lemma_nrsum_ones(len, outer, inner, g, p - 1);
        crate::nums::lemma_flat_index(g, p - 1, outer, inner);
        assert(const_int(len, 1)[g * inner + (p - 1)] == 1);
    }
}

/// Backward through `sum_all(broadcast_sub(a, b))` on a fresh tape: the
/// tracked full-rank operand receives gradient one everywhere, and every
/// element of the lower-rank operand receives minus the broadcast width —
/// one negated contribution per element of the dropped trailing dimension.
pub proof fn law_broadcast_sub_backward(
    ops: Seq<OpRecord>,
    a_id: u64,
    b_id: u64,
    out_id: u64,
    sum_id: u64,
    outer: int,
    inner: int,
)
    requires
        ops.len() == 2,
        0 <= outer && 0 <= inner,
        is_broadcast_sub_rec(ops[0], a_id, b_id, out_id, outer, inner),
        is_sum_rec(ops[1], out_id, sum_id, outer * inner),
        a_id != b_id,
        a_id != out_id,
        b_id != out_id,
        a_id != sum_id,
        b_id != sum_id,
        out_id != sum_id,
    ensures
        ({
            let g = replay(ops, seeded(sum_id));
            &&& g.contains_key(a_id) && g[a_id] == const_int((outer * inner) as nat, 1)
            &&& g.contains_key(b_id) && g[b_id] == const_int(outer as nat, -inner)
        }),
{
    let init = seeded(sum_id);
    let len = (outer * inner) as nat;
    lemma_replay_two(ops, init);
    lemma_sum_step(ops, out_id, sum_id, len);
    let g1 = apply(init, ops[1]);
    let grad = lookup(g1, out_id, len);
    assert(grad == const_int(len, 1));
    assert(!g1.contains_key(a_id));
    lemma_add_zero(len, grad);
    let g2 = accum(g1, a_id, grad);
    assert(g2[a_id] == const_int(len, 1));
    let dr = Seq::new(outer as nat, |gg: int| nrsum(grad, gg, inner, inner));
    assert forall|gg: int| 0 <= gg < outer implies dr[gg] == -inner by {
        lemma_nrsum_ones(len, outer, inner, gg, inner);
    }
    assert(dr =~= const_int(outer as nat, -inner));
    assert(!g2.contains_key(b_id));
    lemma_add_zero(outer as nat, dr);
    let g3 = accum(g2, b_id, dr);
    assert(apply(g1, ops[0]) == g3);
    assert(g3[b_id] == const_int(outer as nat, -inner));
    assert(g3[a_id] == const_int(len, 1));
}

} // verus!
