//! The binary operations and the terminal backward pass.  Every operation
//! takes exactly one operand that may carry a tape (the tracked operand,
//! passed by value and consumed) and one operand that must be detached (the
//! fixed operand, passed by reference).  It computes the forward result,
//! moves the tape out of the tracked operand, appends one backward record,
//! and wraps the result with the longer tape.

use vstd::prelude::*;

use crate::kernels::{const_vec, copy_vec, ew_add, ew_mul, ew_sub, matmul, transpose, vsum};
use crate::nums::{
    add_fits, add_seqs, badd_at, badd_fits, bsub_at, bsub_fits, const_int, in64, iv,
    lemma_flat_index, lemma_flat_index_inverse, lemma_iv_len, lemma_prod1, lemma_prod2, mm,
    mm_fits, mul_fits, mul_seqs, prod, psum, psum_fits, sub_fits, sub_seqs,
};
use crate::store::GradStore;
use crate::tape::{
    apply_record, is_broadcast_add_rec, is_broadcast_sub_rec, is_elementwise_rec, is_matmul_rec,
    is_sum_rec, replay, replay_fits, OpRecord, Tape, TapeHolder,
};
use crate::tensor::{IdGen, Tensor};

verus! {

/// The result's holder is the input's holder with (when attached) exactly
/// one more record, and an unchanged gradient store.
pub open spec fn appends_record(out: TapeHolder, input: TapeHolder) -> bool {
    &&& out.is_attached() == input.is_attached()
    &&& out.grads() == input.grads()
    &&& input.is_attached() ==> out.ops().len() == input.ops().len() + 1 && out.ops().drop_last()
        == input.ops()
    &&& !input.is_attached() ==> out.ops() == input.ops()
}

/// The bookkeeping every operation promises of its result: a well-formed
/// tensor with the fresh identity token, and the generator advanced once.
pub open spec fn fresh_result(out: Tensor, gen_before: IdGen, gen_after: IdGen) -> bool {
    &&& out.wf()
    &&& out.id == gen_before.next
    &&& gen_after.next == gen_before.next + 1
}

/// Elementwise sum of a fixed and a tracked tensor of the same shape.
/// Backward: the output gradient flows unchanged into both operands.
pub fn add(lhs: &Tensor, rhs: Tensor, gen: &mut IdGen) -> (r: Option<Tensor>)
    requires
        lhs.wf(),
        rhs.wf(),
        !lhs.holder.is_attached(),
        lhs.shape@ == rhs.shape@,
        old(gen).next < u64::MAX,
    ensures
        match r {
            Some(out) => {
                &&& add_fits(iv(lhs.data@), iv(rhs.data@))
                &&& iv(out.data@) == add_seqs(iv(lhs.data@), iv(rhs.data@))
                &&& out.shape@ == rhs.shape@
                &&& fresh_result(out, *old(gen), *final(gen))
                &&& appends_record(out.holder, rhs.holder)
                &&& rhs.holder.is_attached() ==> is_elementwise_rec(
                    out.holder.ops().last(),
                    lhs.id,
                    rhs.id,
                    out.id,
                    const_int(rhs.data@.len(), 1),
                    const_int(rhs.data@.len(), 1),
                )
            },
            None => !add_fits(iv(lhs.data@), iv(rhs.data@)) && *final(gen) == *old(gen),
        },
{
    let data = match ew_add(&lhs.data, &rhs.data) {
        None => { return None; },
        Some(d) => d,
    };
    let n = rhs.data.len();
    let lhs_coeff = const_vec(n, 1);
    let rhs_coeff = const_vec(n, 1);
    let (core, mut holder) = rhs.split_tape_holder();
    let id = gen.fresh();
    holder.add_operation(
        OpRecord::Elementwise {
            lhs_id: lhs.id,
            rhs_id: core.id,
            out_id: id,
            lhs_coeff,
            rhs_coeff,
        },
    );
    let out = Tensor { data, shape: core.shape, id, holder };
    proof {
        lemma_iv_len(out.data@);
        lemma_iv_len(lhs.data@);
        if rhs.holder.is_attached() {
            assert(out.holder.ops().drop_last() =~= rhs.holder.ops());
        }
    }
    Some(out)
}

/// Elementwise difference of a fixed and a tracked tensor of the same
/// shape.  Backward: the fixed operand receives the output gradient, the
/// tracked operand its negation.
pub fn sub(lhs: &Tensor, rhs: Tensor, gen: &mut IdGen) -> (r: Option<Tensor>)
    requires
        lhs.wf(),
        rhs.wf(),
        !lhs.holder.is_attached(),
        lhs.shape@ == rhs.shape@,
        old(gen).next < u64::MAX,
    ensures
        match r {
            Some(out) => {
                &&& sub_fits(iv(lhs.data@), iv(rhs.data@))
                &&& iv(out.data@) == sub_seqs(iv(lhs.data@), iv(rhs.data@))
                &&& out.shape@ == rhs.shape@
                &&& fresh_result(out, *old(gen), *final(gen))
                &&& appends_record(out.holder, rhs.holder)
                &&& rhs.holder.is_attached() ==> is_elementwise_rec(
                    out.holder.ops().last(),
                    lhs.id,
                    rhs.id,
                    out.id,
                    const_int(rhs.data@.len(), 1),
                    const_int(rhs.data@.len(), -1),
                )
            },
            None => !sub_fits(iv(lhs.data@), iv(rhs.data@)) && *final(gen) == *old(gen),
        },
{
    let data = match ew_sub(&lhs.data, &rhs.data) {
        None => { return None; },
        Some(d) => d,
    };
    let n = rhs.data.len();
    let lhs_coeff = const_vec(n, 1);
    let rhs_coeff = const_vec(n, -1);
    let (core, mut holder) = rhs.split_tape_holder();
    let id = gen.fresh();
    holder.add_operation(
        OpRecord::Elementwise {
            lhs_id: lhs.id,
            rhs_id: core.id,
            out_id: id,
            lhs_coeff,
            rhs_coeff,
        },
    );
    let out = Tensor { data, shape: core.shape, id, holder };
    proof {
        lemma_iv_len(out.data@);
        lemma_iv_len(lhs.data@);
        if rhs.holder.is_attached() {
            assert(out.holder.ops().drop_last() =~= rhs.holder.ops());
        }
    }
    Some(out)
}

/// Elementwise product of a fixed and a tracked tensor of the same shape.
/// Backward (product rule): each operand receives the output gradient
/// multiplied elementwise with the other operand's forward value, captured
/// before the tape moves.
pub fn mul(lhs: &Tensor, rhs: Tensor, gen: &mut IdGen) -> (r: Option<Tensor>)
    requires
        lhs.wf(),
        rhs.wf(),
        !lhs.holder.is_attached(),
        lhs.shape@ == rhs.shape@,
        old(gen).next < u64::MAX,
    ensures
        match r {
            Some(out) => {
                &&& mul_fits(iv(lhs.data@), iv(rhs.data@))
                &&& iv(out.data@) == mul_seqs(iv(lhs.data@), iv(rhs.data@))
                &&& out.shape@ == rhs.shape@
                &&& fresh_result(out, *old(gen), *final(gen))
                &&& appends_record(out.holder, rhs.holder)
                &&& rhs.holder.is_attached() ==> is_elementwise_rec(
                    out.holder.ops().last(),
                    lhs.id,
                    rhs.id,
                    out.id,
                    iv(rhs.data@),
                    iv(lhs.data@),
                )
            },
            None => !mul_fits(iv(lhs.data@), iv(rhs.data@)) && *final(gen) == *old(gen),
        },
{
    let data = match ew_mul(&lhs.data, &rhs.data) {
        None => { return None; },
        Some(d) => d,
    };
    let lhs_coeff = copy_vec(&rhs.data);
    let rhs_coeff = copy_vec(&lhs.data);
    let (core, mut holder) = rhs.split_tape_holder();
    let id = gen.fresh();
    holder.add_operation(
        OpRecord::Elementwise {
            lhs_id: lhs.id,
            rhs_id: core.id,
            out_id: id,
            lhs_coeff,
            rhs_coeff,
        },
    );
    let out = Tensor { data, shape: core.shape, id, holder };
    proof {
        lemma_iv_len(out.data@);
        lemma_iv_len(lhs.data@);
        if rhs.holder.is_attached() {
            assert(out.holder.ops().drop_last() =~= rhs.holder.ops());
        }
    }
    Some(out)
}

/// Matrix product of a tracked `m x n` tensor with a fixed `n x o` tensor.
/// Backward (matrix vector-Jacobian rule): with output gradient `G`, the
/// tracked operand receives `G * transpose(rhs)` and the fixed operand
/// `transpose(lhs) * G`; both transposes are captured from the forward data.
pub fn matmat_mul(lhs: Tensor, rhs: &Tensor, gen: &mut IdGen) -> (r: Option<Tensor>)
    requires
        lhs.wf(),
        rhs.wf(),
        !rhs.holder.is_attached(),
        lhs.shape@.len() == 2,
        rhs.shape@.len() == 2,
        lhs.shape@[1] == rhs.shape@[0],
        old(gen).next < u64::MAX,
    ensures
        ({
            let m = lhs.shape@[0] as int;
            let n = lhs.shape@[1] as int;
            let o = rhs.shape@[1] as int;
            match r {
                Some(out) => {
                    &&& mm_fits(iv(lhs.data@), iv(rhs.data@), m, n, o)
                    &&& iv(out.data@) == mm(iv(lhs.data@), iv(rhs.data@), m, n, o)
                    &&& out.shape@ == seq![lhs.shape@[0], rhs.shape@[1]]
                    &&& fresh_result(out, *old(gen), *final(gen))
                    &&& appends_record(out.holder, lhs.holder)
                    &&& lhs.holder.is_attached() ==> is_matmul_rec(
                        out.holder.ops().last(),
                        lhs.id,
                        rhs.id,
                        out.id,
                        m,
                        n,
                        o,
                        iv(lhs.data@),
                        iv(rhs.data@),
                    )
                },
                None => !mm_fits(iv(lhs.data@), iv(rhs.data@), m, n, o) && *final(gen) == *old(
                    gen,
                ),
            }
        }),
{
    let m = lhs.shape[0];
    let n = lhs.shape[1];
    let o = rhs.shape[1];
    proof {
        lemma_prod2(lhs.shape@);
        lemma_prod2(rhs.shape@);
    }
    let data = match matmul(&lhs.data, &rhs.data, m, n, o) {
        None => { return None; },
        Some(d) => d,
    };
    let lhs_t = transpose(&lhs.data, m, n);
    let rhs_t = transpose(&rhs.data, n, o);
    let (core, mut holder) = lhs.split_tape_holder();
    let id = gen.fresh();
    holder.add_operation(
        OpRecord::MatMul { lhs_id: core.id, rhs_id: rhs.id, out_id: id, m, n, o, lhs_t, rhs_t },
    );
    let mut shape: Vec<usize> = Vec::new();
    shape.push(m);
    shape.push(o);
    proof {
        assert(shape@ =~= seq![m, o]);
        lemma_prod2(shape@);
    }
    let out = Tensor { data, shape, id, holder };
    proof {
        lemma_iv_len(out.data@);
        lemma_iv_len(lhs.data@);
        if lhs.holder.is_attached() {
            assert(out.holder.ops().drop_last() =~= lhs.holder.ops());
        }
    }
    Some(out)
}

/// Product of a tracked length-`n` vector, read as a `1 x n` matrix, with a
/// fixed `n x o` tensor.  Backward registers the same vector-Jacobian rule
/// as the matrix product, with the vector's gradient read back at rank one.
pub fn vecmat_mul(lhs: Tensor, rhs: &Tensor, gen: &mut IdGen) -> (r: Option<Tensor>)
    requires
        lhs.wf(),
        rhs.wf(),
        !rhs.holder.is_attached(),
        lhs.shape@.len() == 1,
        rhs.shape@.len() == 2,
        lhs.shape@[0] == rhs.shape@[0],
        old(gen).next < u64::MAX,
    ensures
        ({
            let n = lhs.shape@[0] as int;
            let o = rhs.shape@[1] as int;
            match r {
                Some(out) => {
                    &&& mm_fits(iv(lhs.data@), iv(rhs.data@), 1, n, o)
                    &&& iv(out.data@) == mm(iv(lhs.data@), iv(rhs.data@), 1, n, o)
                    &&& out.shape@ == seq![rhs.shape@[1]]
                    &&& fresh_result(out, *old(gen), *final(gen))
                    &&& appends_record(out.holder, lhs.holder)
                    &&& lhs.holder.is_attached() ==> is_matmul_rec(
                        out.holder.ops().last(),
                        lhs.id,
                        rhs.id,
                        out.id,
                        1,
                        n,
                        o,
                        iv(lhs.data@),
                        iv(rhs.data@),
                    )
                },
                None => !mm_fits(iv(lhs.data@), iv(rhs.data@), 1, n, o) && *final(gen) == *old(
                    gen,
                ),
            }
        }),
{
    let n = lhs.shape[0];
    let o = rhs.shape[1];
    proof {
        lemma_prod1(lhs.shape@);
        lemma_prod2(rhs.shape@);
    }
    let data = match matmul(&lhs.data, &rhs.data, 1, n, o) {
        None => { return None; },
        Some(d) => d,
    };
    let lhs_t = transpose(&lhs.data, 1, n);
    let rhs_t = transpose(&rhs.data, n, o);
    let (core, mut holder) = lhs.split_tape_holder();
    let id = gen.fresh();
    holder.add_operation(
        OpRecord::MatMul {
            lhs_id: core.id,
            rhs_id: rhs.id,
            out_id: id,
            m: 1,
            n,
            o,
            lhs_t,
            rhs_t,
        },
    );
    let mut shape: Vec<usize> = Vec::new();
    shape.push(o);
    proof {
        assert(shape@ =~= seq![o]);
        lemma_prod1(shape@);
    }
    let out = Tensor { data, shape, id, holder };
    proof {
        lemma_iv_len(out.data@);
        lemma_iv_len(lhs.data@);
        if lhs.holder.is_attached() {
            assert(out.holder.ops().drop_last() =~= lhs.holder.ops());
        }
    }
    Some(out)
}

/// A tracked `m x n` tensor plus a fixed length-`n` bias added identically
/// to every row.  Backward: the tracked operand receives the output gradient
/// unchanged; the bias receives the gradient summed over all `m` rows, one
/// contribution per row.
pub fn broadcast_outer_add(lhs: Tensor, rhs: &Tensor, gen: &mut IdGen) -> (r: Option<Tensor>)
    requires
        lhs.wf(),
        rhs.wf(),
        !rhs.holder.is_attached(),
        lhs.shape@.len() == 2,
        rhs.shape@.len() == 1,
        rhs.shape@[0] == lhs.shape@[1],
        old(gen).next < u64::MAX,
    ensures
        ({
            let m = lhs.shape@[0] as int;
            let n = lhs.shape@[1] as int;
            match r {
                Some(out) => {
                    &&& badd_fits(iv(lhs.data@), iv(rhs.data@), m, n)
                    &&& out.data@.len() == m * n
                    &&& forall|idx: int|
                        0 <= idx < m * n ==> (#[trigger] out.data@[idx]) as int == badd_at(
                            iv(lhs.data@),
                            iv(rhs.data@),
                            n,
                            idx,
                        )
                    &&& out.shape@ == lhs.shape@
                    &&& fresh_result(out, *old(gen), *final(gen))
                    &&& appends_record(out.holder, lhs.holder)
                    &&& lhs.holder.is_attached() ==> is_broadcast_add_rec(
                        out.holder.ops().last(),
                        lhs.id,
                        rhs.id,
                        out.id,
                        m,
                        n,
                    )
                },
                None => !badd_fits(iv(lhs.data@), iv(rhs.data@), m, n) && *final(gen) == *old(gen),
            }
        }),
{
    let m = lhs.shape[0];
    let n = lhs.shape[1];
    proof {
        lemma_prod2(lhs.shape@);
        lemma_prod1(rhs.shape@);
    }
    let data = match broadcast_add_forward(&lhs.data, &rhs.data, m, n) {
        None => { return None; },
        Some(d) => d,
    };
    let (core, mut holder) = lhs.split_tape_holder();
    let id = gen.fresh();
    holder.add_operation(
        OpRecord::BroadcastAdd { lhs_id: core.id, rhs_id: rhs.id, out_id: id, m, n },
    );
    let out = Tensor { data, shape: core.shape, id, holder };
    proof {
        if lhs.holder.is_attached() {
            assert(out.holder.ops().drop_last() =~= lhs.holder.ops());
        }
    }
    Some(out)
}

/// The checked forward value of the broadcast sum.
#[verifier::loop_isolation(false)]
fn broadcast_add_forward(x: &Vec<i64>, b: &Vec<i64>, m: usize, n: usize) -> (r: Option<Vec<i64>>)
    requires
        x@.len() == m * n,
        b@.len() == n,
    ensures
        match r {
            Some(v) => {
                &&& badd_fits(iv(x@), iv(b@), m as int, n as int)
                &&& v@.len() == m * n
                &&& forall|idx: int|
                    0 <= idx < m * n ==> (#[trigger] v@[idx]) as int == badd_at(
                        iv(x@),
                        iv(b@),
                        n as int,
                        idx,
                    )
            },
            None => !badd_fits(iv(x@), iv(b@), m as int, n as int),
        },
{
    let _xlen = x.len();
    let mut data: Vec<i64> = Vec::new();
    let mut i: usize = 0;
    while i < m
        invariant
            i <= m,
            data@.len() == i * n,
            forall|idx: int| 0 <= idx < data@.len() ==> in64(
                #[trigger] badd_at(iv(x@), iv(b@), n as int, idx),
            ),
            forall|idx: int| 0 <= idx < data@.len() ==> (#[trigger] data@[idx]) as int == badd_at(
                iv(x@),
                iv(b@),
                n as int,
                idx,
            ),
        decreases m - i,
    {
        let mut j: usize = 0;
        while j < n
            invariant
                j <= n,
                i < m,
                data@.len() == i * n + j,
                forall|idx: int| 0 <= idx < data@.len() ==> in64(
                    #[trigger] badd_at(iv(x@), iv(b@), n as int, idx),
                ),
                forall|idx: int| 0 <= idx < data@.len() ==> (#[trigger] data@[idx]) as int
                    == badd_at(iv(x@), iv(b@), n as int, idx),
            decreases n - j,
        {
            proof {
                lemma_flat_index(i as int, j as int, m as int, n as int);
                lemma_flat_index_inverse(i as int, j as int, n as int);
            }
            match x[i * n + j].checked_add(b[j]) {
                Some(v) => {
                    data.push(v);
                },
                None => {
                    proof {
                        assert(!in64(badd_at(iv(x@), iv(b@), n as int, i * n + j)));
                    }
                    return None;
                },
            }
            j += 1;
        }
        proof {
            assert((i + 1) * n == i * n + n) by (nonlinear_arith);
        }
        i += 1;
    }
    Some(data)
}

/// A tracked rank-`R` tensor minus a fixed rank-`(R-1)` tensor broadcast
/// across the trailing dimension.  Backward: the tracked operand receives
/// the output gradient unchanged; the lower-rank operand receives the
/// negated gradient summed across exactly the broadcast dimension.
pub fn broadcast_sub(lhs: Tensor, rhs: &Tensor, gen: &mut IdGen) -> (r: Option<Tensor>)
    requires
        lhs.wf(),
        rhs.wf(),
        !rhs.holder.is_attached(),
        lhs.shape@.len() >= 1,
        rhs.shape@ == lhs.shape@.drop_last(),
        old(gen).next < u64::MAX,
    ensures
        ({
            let outer = rhs.data@.len() as int;
            let inner = lhs.shape@.last() as int;
            match r {
                Some(out) => {
                    &&& bsub_fits(iv(lhs.data@), iv(rhs.data@), outer, inner)
                    &&& out.data@.len() == outer * inner
                    &&& forall|idx: int|
                        0 <= idx < outer * inner ==> (#[trigger] out.data@[idx]) as int == bsub_at(
                            iv(lhs.data@),
                            iv(rhs.data@),
                            inner,
                            idx,
                        )
                    &&& out.shape@ == lhs.shape@
                    &&& fresh_result(out, *old(gen), *final(gen))
                    &&& appends_record(out.holder, lhs.holder)
                    &&& lhs.holder.is_attached() ==> is_broadcast_sub_rec(
                        out.holder.ops().last(),
                        lhs.id,
                        rhs.id,
                        out.id,
                        outer,
                        inner,
                    )
                },
                None => !bsub_fits(iv(lhs.data@), iv(rhs.data@), outer, inner) && *final(gen)
                    == *old(gen),
            }
        }),
{
    let inner = lhs.shape[lhs.shape.len() - 1];
    let outer = rhs.data.len();
    proof {
        assert(prod(lhs.shape@) == prod(lhs.shape@.drop_last()) * lhs.shape@.last());
    }
    let data = match broadcast_sub_forward(&lhs.data, &rhs.data, outer, inner) {
        None => { return None; },
        Some(d) => d,
    };
    let (core, mut holder) = lhs.split_tape_holder();
    let id = gen.fresh();
    holder.add_operation(
        OpRecord::BroadcastSub { lhs_id: core.id, rhs_id: rhs.id, out_id: id, outer, inner },
    );
    let out = Tensor { data, shape: core.shape, id, holder };
    proof {
        if lhs.holder.is_attached() {
            assert(out.holder.ops().drop_last() =~= lhs.holder.ops());
        }
    }
    Some(out)
}

/// The checked forward value of the broadcast difference.
#[verifier::loop_isolation(false)]
fn broadcast_sub_forward(x: &Vec<i64>, b: &Vec<i64>, outer: usize, inner: usize) -> (r: Option<
    Vec<i64>,
>)
    requires
        x@.len() == outer * inner,
        b@.len() == outer,
    ensures
        match r {
            Some(v) => {
                &&& bsub_fits(iv(x@), iv(b@), outer as int, inner as int)
                &&& v@.len() == outer * inner
                &&& forall|idx: int|
                    0 <= idx < outer * inner ==> (#[trigger] v@[idx]) as int == bsub_at(
                        iv(x@),
                        iv(b@),
                        inner as int,
                        idx,
                    )
            },
            None => !bsub_fits(iv(x@), iv(b@), outer as int, inner as int),
        },
{
    let _xlen = x.len();
    let mut data: Vec<i64> = Vec::new();
    let mut g: usize = 0;
    while g < outer
        invariant
            g <= outer,
            data@.len() == g * inner,
            forall|idx: int| 0 <= idx < data@.len() ==> in64(
                #[trigger] bsub_at(iv(x@), iv(b@), inner as int, idx),
            ),
            forall|idx: int| 0 <= idx < data@.len() ==> (#[trigger] data@[idx]) as int == bsub_at(
                iv(x@),
                iv(b@),
                inner as int,
                idx,
            ),
        decreases outer - g,
    {
        let mut j: usize = 0;
        while j < inner
            invariant
                j <= inner,
                g < outer,
                data@.len() == g * inner + j,
                forall|idx: int| 0 <= idx < data@.len() ==> in64(
                    #[trigger] bsub_at(iv(x@), iv(b@), inner as int, idx),
                ),
                forall|idx: int| 0 <= idx < data@.len() ==> (#[trigger] data@[idx]) as int
                    == bsub_at(iv(x@), iv(b@), inner as int, idx),
            decreases inner - j,
        {
            proof {
                lemma_flat_index(g as int, j as int, outer as int, inner as int);
                lemma_flat_index_inverse(g as int, j as int, inner as int);
            }
            match x[g * inner + j].checked_sub(b[g]) {
                Some(v) => {
                    data.push(v);
                },
                None => {
                    proof {
                        assert(!in64(bsub_at(iv(x@), iv(b@), inner as int, g * inner + j)));
                    }
                    return None;
                },
            }
            j += 1;
        }
        proof {
            assert((g + 1) * inner == g * inner + inner) by (nonlinear_arith);
        }
        g += 1;
    }
    Some(data)
}

/// Sum of every element of a tracked tensor, as a rank-zero tensor.
/// Backward: the scalar output gradient is broadcast back over every input
/// element.
pub fn sum_all(t: Tensor, gen: &mut IdGen) -> (r: Option<Tensor>)
    requires
        t.wf(),
        old(gen).next < u64::MAX,
    ensures
        match r {
            Some(out) => {
                &&& psum_fits(iv(t.data@))
                &&& out.data@.len() == 1
                &&& out.data@[0] as int == psum(iv(t.data@), t.data@.len() as int)
                &&& out.shape@ == Seq::<usize>::empty()
                &&& fresh_result(out, *old(gen), *final(gen))
                &&& appends_record(out.holder, t.holder)
                &&& t.holder.is_attached() ==> is_sum_rec(
                    out.holder.ops().last(),
                    t.id,
                    out.id,
                    t.data@.len() as int,
                )
            },
            None => !psum_fits(iv(t.data@)) && *final(gen) == *old(gen),
        },
{
    let total = match vsum(&t.data) {
        None => { return None; },
        Some(v) => v,
    };
    let n = t.data.len();
    let (core, mut holder) = t.split_tape_holder();
    let id = gen.fresh();
    holder.add_operation(OpRecord::SumAll { in_id: core.id, out_id: id, n });
    let mut data: Vec<i64> = Vec::new();
    data.push(total);
    let shape: Vec<usize> = Vec::new();
    proof {
        assert(shape@ =~= Seq::<usize>::empty());
        assert(prod(shape@) == 1);
    }
    let out = Tensor { data, shape, id, holder };
    proof {
        if t.holder.is_attached() {
            assert(out.holder.ops().drop_last() =~= t.holder.ops());
        }
    }
    Some(out)
}

/// The terminal backward pass.  Consumes a scalar tracked tensor, seeds its
/// gradient with one, drains the tape in exact reverse registration order,
/// and returns the completed gradient store.  Because the tensor (and with
/// it the tape) is consumed, the pass cannot run twice.  Fails exactly when
/// the tensor carries no tape or some intermediate of the exact replay
/// leaves the `i64` range.
pub fn backward(t: Tensor) -> (r: Option<GradStore>)
    requires
        t.wf(),
        t.shape@.len() == 0,
    ensures
        ({
            let init = t.holder.grads().insert(t.id, const_int(1, 1));
            match r {
                Some(g) => {
                    &&& t.holder.is_attached()
                    &&& replay_fits(t.holder.ops(), init)
                    &&& g@ == replay(t.holder.ops(), init)
                },
                None => !(t.holder.is_attached() && replay_fits(t.holder.ops(), init)),
            }
        }),
{
    let (core, holder) = t.split_tape_holder();
    let tape = match holder {
        TapeHolder::Detached => { return None; },
        TapeHolder::Attached(tp) => tp,
    };
    let Tape { mut grads, records } = tape;
    let seed = const_vec(1, 1);
    grads.insert_grad(core.id, seed);
    let ghost init = t.holder.grads().insert(t.id, const_int(1, 1));
    proof {
        assert(grads@ == init);
    }
    backward_loop(grads, &records, Ghost(init))
}

/// Drain the records against the store, last record first.
#[verifier::loop_isolation(false)]
#[verifier::rlimit(50)]
fn backward_loop(grads: GradStore, records: &Vec<OpRecord>, init: Ghost<Map<u64, Seq<int>>>) -> (r:
    Option<GradStore>)
    requires
        grads@ == init@,
    ensures
        match r {
            Some(g) => replay_fits(records@, init@) && g@ == replay(records@, init@),
            None => !replay_fits(records@, init@),
        },
{
    let mut store = grads;
    let mut i: usize = records.len();
    proof {
        assert(records@.take(records@.len() as int) =~= records@);
    }
    while i > 0
        invariant
            i <= records@.len(),
            replay(records@, init@) == replay(records@.take(i as int), store@),
            replay_fits(records@, init@) <==> replay_fits(records@.take(i as int), store@),
        decreases i,
    {
        let ghost pre = store@;
        proof {
            assert(records@.take(i as int).drop_last() =~= records@.take(i - 1));
            assert(records@.take(i as int).last() == records@[i - 1]);
        }
        let ok = apply_record(&mut store, &records[i - 1]);
        if !ok {
            proof {
                assert(!replay_fits(records@.take(i as int), pre));
            }
            return None;
        }
        i -= 1;
    }
    proof {
        assert(records@.take(0) =~= Seq::<OpRecord>::empty());
    }
    Some(store)
}

} // verus!
