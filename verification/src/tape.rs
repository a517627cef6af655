//! The gradient tape: an ordered ledger of backward records plus a gradient
//! store.  Each record is the defunctionalized environment of one backward
//! rule — the identities of the operands and the result together with the
//! precomputed local derivative buffers that the forward pass captured.
//! Replaying the records in reverse registration order accumulates every
//! gradient contribution; the replay of a whole tape has an exact
//! mathematical model (`replay`) together with the condition (`replay_fits`)
//! under which no intermediate value leaves the `i64` range.

use vstd::prelude::*;

use crate::kernels::{col_sums, const_vec, ew_mul, matmul, neg_group_sums};
use crate::nums::{at2, const_int, csum, iv, mm, mm_fits, mul_fits, mul_seqs, nrsum};
use crate::store::{accum, accum_fits, lookup, read_fits, GradStore};

verus! {

/// One recorded backward rule.  `Elementwise` covers add, sub and mul: the
/// contribution of each operand is a captured coefficient buffer multiplied
/// elementwise with the output gradient.  `MatMul` captures the transposes
/// of both forward operands.  The broadcast records capture only dimensions,
/// since their local derivatives are all ones (or all minus ones folded into
/// the reduction).  `SumAll` broadcasts the scalar output gradient back over
/// every input element.
pub enum OpRecord {
    Elementwise {
        lhs_id: u64,
        rhs_id: u64,
        out_id: u64,
        lhs_coeff: Vec<i64>,
        rhs_coeff: Vec<i64>,
    },
    MatMul {
        lhs_id: u64,
        rhs_id: u64,
        out_id: u64,
        m: usize,
        n: usize,
        o: usize,
        lhs_t: Vec<i64>,
        rhs_t: Vec<i64>,
    },
    BroadcastAdd { lhs_id: u64, rhs_id: u64, out_id: u64, m: usize, n: usize },
    BroadcastSub { lhs_id: u64, rhs_id: u64, out_id: u64, outer: usize, inner: usize },
    SumAll { in_id: u64, out_id: u64, n: usize },
}

/// `op` is an elementwise record with the given identities and coefficients.
pub open spec fn is_elementwise_rec(
    op: OpRecord,
    l: u64,
    r: u64,
    out: u64,
    lc: Seq<int>,
    rc: Seq<int>,
) -> bool {
    op matches OpRecord::Elementwise { lhs_id, rhs_id, out_id, lhs_coeff, rhs_coeff }
        && lhs_id == l && rhs_id == r && out_id == out && iv(lhs_coeff@) == lc && iv(rhs_coeff@)
        == rc
}

/// `op` is a matrix-multiply record for forward operands `x` (`m x n`) and
/// `y` (`n x o`): it stores their transposes.
pub open spec fn is_matmul_rec(
    op: OpRecord,
    l: u64,
    r: u64,
    out: u64,
    m_d: int,
    n_d: int,
    o_d: int,
    x: Seq<int>,
    y: Seq<int>,
) -> bool {
    op matches OpRecord::MatMul { lhs_id, rhs_id, out_id, m, n, o, lhs_t, rhs_t }
        && lhs_id == l && rhs_id == r && out_id == out && m == m_d && n == n_d && o == o_d && iv(
        lhs_t@,
    ).len() == n_d * m_d && iv(rhs_t@).len() == o_d * n_d && (forall|i: int, j: int|
        0 <= i < m_d && 0 <= j < n_d ==> #[trigger] at2(iv(lhs_t@), m_d, j, i) == at2(x, n_d, i, j))
        && (forall|i: int, j: int|
        0 <= i < n_d && 0 <= j < o_d ==> #[trigger] at2(iv(rhs_t@), n_d, j, i) == at2(y, o_d, i, j))
}

/// `op` is a broadcast-add record with the given identities and dimensions.
pub open spec fn is_broadcast_add_rec(op: OpRecord, l: u64, r: u64, out: u64, m_d: int, n_d: int) -> bool {
    op matches OpRecord::BroadcastAdd { lhs_id, rhs_id, out_id, m, n } && lhs_id == l && rhs_id
        == r && out_id == out && m == m_d && n == n_d
}

/// `op` is a broadcast-sub record with the given identities and dimensions.
pub open spec fn is_broadcast_sub_rec(
    op: OpRecord,
    l: u64,
    r: u64,
    out: u64,
    outer_d: int,
    inner_d: int,
) -> bool {
    op matches OpRecord::BroadcastSub { lhs_id, rhs_id, out_id, outer, inner } && lhs_id == l
        && rhs_id == r && out_id == out && outer == outer_d && inner == inner_d
}

/// `op` is a full-sum record with the given identities and input length.
pub open spec fn is_sum_rec(op: OpRecord, input: u64, out: u64, n_d: int) -> bool {
    op matches OpRecord::SumAll { in_id, out_id, n } && in_id == input && out_id == out && n == n_d
}

/// Replaying an elementwise record: the output gradient, multiplied with
/// each captured coefficient buffer, is accumulated into each operand.
pub open spec fn apply_elementwise(
    g: Map<u64, Seq<int>>,
    l: u64,
    r: u64,
    out: u64,
    lc: Seq<int>,
    rc: Seq<int>,
) -> Map<u64, Seq<int>> {
    let grad = lookup(g, out, lc.len());
    accum(accum(g, l, mul_seqs(lc, grad)), r, mul_seqs(rc, grad))
}

/// Every intermediate of `apply_elementwise` stays representable.
pub open spec fn elementwise_fits(
    g: Map<u64, Seq<int>>,
    l: u64,
    r: u64,
    out: u64,
    lc: Seq<int>,
    rc: Seq<int>,
) -> bool {
    let grad = lookup(g, out, lc.len());
    &&& rc.len() == lc.len()
    &&& read_fits(g, out, lc.len())
    &&& mul_fits(lc, grad)
    &&& accum_fits(g, l, mul_seqs(lc, grad))
    &&& mul_fits(rc, grad)
    &&& accum_fits(accum(g, l, mul_seqs(lc, grad)), r, mul_seqs(rc, grad))
}

/// Replaying a matrix-multiply record (the standard vector-Jacobian rule):
/// with output gradient `G` (`m x o`), the left operand receives
/// `G * transpose(rhs)` and the right operand receives `transpose(lhs) * G`.
pub open spec fn apply_matmul(
    g: Map<u64, Seq<int>>,
    l: u64,
    r: u64,
    out: u64,
    m: int,
    n: int,
    o: int,
    lt: Seq<int>,
    rt: Seq<int>,
) -> Map<u64, Seq<int>> {
    let grad = lookup(g, out, (m * o) as nat);
    accum(accum(g, l, mm(grad, rt, m, o, n)), r, mm(lt, grad, n, m, o))
}

/// Every intermediate of `apply_matmul` stays representable.
pub open spec fn matmul_fits(
    g: Map<u64, Seq<int>>,
    l: u64,
    r: u64,
    out: u64,
    m: int,
    n: int,
    o: int,
    lt: Seq<int>,
    rt: Seq<int>,
) -> bool {
    let grad = lookup(g, out, (m * o) as nat);
    &&& m * o <= usize::MAX
    &&& read_fits(g, out, (m * o) as nat)
    &&& rt.len() == o * n
    &&& mm_fits(grad, rt, m, o, n)
    &&& accum_fits(g, l, mm(grad, rt, m, o, n))
    &&& lt.len() == n * m
    &&& mm_fits(lt, grad, n, m, o)
    &&& accum_fits(accum(g, l, mm(grad, rt, m, o, n)), r, mm(lt, grad, n, m, o))
}

/// Replaying a broadcast-add record: the output gradient flows unchanged
/// into the full-rank operand, and its per-column sums flow into the bias.
pub open spec fn apply_broadcast_add(
    g: Map<u64, Seq<int>>,
    l: u64,
    r: u64,
    out: u64,
    m: int,
    n: int,
) -> Map<u64, Seq<int>> {
    let grad = lookup(g, out, (m * n) as nat);
    accum(accum(g, l, grad), r, Seq::new(n as nat, |j: int| csum(grad, m, n, j)))
}

/// Every intermediate of `apply_broadcast_add` stays representable.
pub open spec fn broadcast_add_fits(
    g: Map<u64, Seq<int>>,
    l: u64,
    r: u64,
    out: u64,
    m: int,
    n: int,
) -> bool {
    let grad = lookup(g, out, (m * n) as nat);
    &&& m * n <= usize::MAX
    &&& read_fits(g, out, (m * n) as nat)
    &&& accum_fits(g, l, grad)
    &&& crate::nums::csum_fits(grad, m, n)
    &&& accum_fits(accum(g, l, grad), r, Seq::new(n as nat, |j: int| csum(grad, m, n, j)))
}

/// Replaying a broadcast-sub record: the output gradient flows unchanged
/// into the full-rank operand, and its negated per-group sums flow into the
/// lower-rank operand.
pub open spec fn apply_broadcast_sub(
    g: Map<u64, Seq<int>>,
    l: u64,
    r: u64,
    out: u64,
    outer: int,
    inner: int,
) -> Map<u64, Seq<int>> {
    let grad = lookup(g, out, (outer * inner) as nat);
    accum(
        accum(g, l, grad),
        r,
        Seq::new(outer as nat, |gg: int| nrsum(grad, gg, inner, inner)),
    )
}

/// Every intermediate of `apply_broadcast_sub` stays representable.
pub open spec fn broadcast_sub_fits(
    g: Map<u64, Seq<int>>,
    l: u64,
    r: u64,
    out: u64,
    outer: int,
    inner: int,
) -> bool {
    let grad = lookup(g, out, (outer * inner) as nat);
    &&& outer * inner <= usize::MAX
    &&& read_fits(g, out, (outer * inner) as nat)
    &&& accum_fits(g, l, grad)
    &&& crate::nums::nrsum_fits(grad, outer, inner)
    &&& accum_fits(
        accum(g, l, grad),
        r,
        Seq::new(outer as nat, |gg: int| nrsum(grad, gg, inner, inner)),
    )
}

/// Replaying a full-sum record: the scalar output gradient is broadcast
/// over every element of the input.
pub open spec fn apply_sum(g: Map<u64, Seq<int>>, input: u64, out: u64, n: int) -> Map<
    u64,
    Seq<int>,
> {
    let grad = lookup(g, out, 1);
    accum(g, input, const_int(n as nat, grad[0]))
}

/// Every intermediate of `apply_sum` stays representable.
pub open spec fn sum_fits(g: Map<u64, Seq<int>>, input: u64, out: u64, n: int) -> bool {
    let grad = lookup(g, out, 1);
    &&& read_fits(g, out, 1)
    &&& accum_fits(g, input, const_int(n as nat, grad[0]))
}

/// The gradient map after replaying one record on `g`.
pub open spec fn apply(g: Map<u64, Seq<int>>, op: OpRecord) -> Map<u64, Seq<int>> {
    match op {
        OpRecord::Elementwise { lhs_id, rhs_id, out_id, lhs_coeff, rhs_coeff } =>
            apply_elementwise(g, lhs_id, rhs_id, out_id, iv(lhs_coeff@), iv(rhs_coeff@)),
        OpRecord::MatMul { lhs_id, rhs_id, out_id, m, n, o, lhs_t, rhs_t } => apply_matmul(
            g,
            lhs_id,
            rhs_id,
            out_id,
            m as int,
            n as int,
            o as int,
            iv(lhs_t@),
            iv(rhs_t@),
        ),
        OpRecord::BroadcastAdd { lhs_id, rhs_id, out_id, m, n } => apply_broadcast_add(
            g,
            lhs_id,
            rhs_id,
            out_id,
            m as int,
            n as int,
        ),
        OpRecord::BroadcastSub { lhs_id, rhs_id, out_id, outer, inner } => apply_broadcast_sub(
            g,
            lhs_id,
            rhs_id,
            out_id,
            outer as int,
            inner as int,
        ),
        OpRecord::SumAll { in_id, out_id, n } => apply_sum(g, in_id, out_id, n as int),
    }
}

/// Replaying one record on `g` keeps every intermediate representable.
pub open spec fn step_fits(g: Map<u64, Seq<int>>, op: OpRecord) -> bool {
    match op {
        OpRecord::Elementwise { lhs_id, rhs_id, out_id, lhs_coeff, rhs_coeff } =>
            elementwise_fits(g, lhs_id, rhs_id, out_id, iv(lhs_coeff@), iv(rhs_coeff@)),
        OpRecord::MatMul { lhs_id, rhs_id, out_id, m, n, o, lhs_t, rhs_t } => matmul_fits(
            g,
            lhs_id,
            rhs_id,
            out_id,
            m as int,
            n as int,
            o as int,
            iv(lhs_t@),
            iv(rhs_t@),
        ),
        OpRecord::BroadcastAdd { lhs_id, rhs_id, out_id, m, n } => broadcast_add_fits(
            g,
            lhs_id,
            rhs_id,
            out_id,
            m as int,
            n as int,
        ),
        OpRecord::BroadcastSub { lhs_id, rhs_id, out_id, outer, inner } => broadcast_sub_fits(
            g,
            lhs_id,
            rhs_id,
            out_id,
            outer as int,
            inner as int,
        ),
        OpRecord::SumAll { in_id, out_id, n } => sum_fits(g, in_id, out_id, n as int),
    }
}

/// The gradient map after replaying all of `ops` on `g`, last record first —
/// the exact reverse of registration order.
pub open spec fn replay(ops: Seq<OpRecord>, g: Map<u64, Seq<int>>) -> Map<u64, Seq<int>>
    decreases ops.len(),
{
    if ops.len() == 0 {
        g
    } else {
        replay(ops.drop_last(), apply(g, ops.last()))
    }
}

/// Replaying all of `ops` on `g` keeps every intermediate representable.
pub open spec fn replay_fits(ops: Seq<OpRecord>, g: Map<u64, Seq<int>>) -> bool
    decreases ops.len(),
{
    ops.len() == 0 || (step_fits(g, ops.last()) && replay_fits(ops.drop_last(), apply(g, ops.last())))
}

/// The mutable ledger: a gradient store keyed by identity and the ordered
/// list of recorded backward rules.
pub struct Tape {
    pub grads: GradStore,
    pub records: Vec<OpRecord>,
}

impl Tape {
    /// The recorded backward rules, in registration order.
    pub open spec fn ops(self) -> Seq<OpRecord> {
        self.records@
    }

    /// A fresh tape with no records and an empty gradient store.
    pub fn new() -> (t: Tape)
        ensures
            t.ops() == Seq::<OpRecord>::empty(),
            t.grads@ == Map::<u64, Seq<int>>::empty(),
    {
        let t = Tape { grads: GradStore::new(), records: Vec::new() };
        proof {
            assert(t.records@ =~= Seq::<OpRecord>::empty());
        }
        t
    }
}

/// Whether a tensor value carries a gradient tape.  A detached value is
/// never differentiated; an attached value exclusively owns one tape, which
/// moves (never copies) into the result of each operation that consumes the
/// value.
pub enum TapeHolder {
    Detached,
    Attached(Tape),
}

impl TapeHolder {
    /// This holder carries a tape.
    pub open spec fn is_attached(self) -> bool {
        match self {
            TapeHolder::Detached => false,
            TapeHolder::Attached(_) => true,
        }
    }

    /// The recorded backward rules (none when detached).
    pub open spec fn ops(self) -> Seq<OpRecord> {
        match self {
            TapeHolder::Detached => Seq::<OpRecord>::empty(),
            TapeHolder::Attached(t) => t.ops(),
        }
    }

    /// The gradient store contents (empty when detached).
    pub open spec fn grads(self) -> Map<u64, Seq<int>> {
        match self {
            TapeHolder::Detached => Map::<u64, Seq<int>>::empty(),
            TapeHolder::Attached(t) => t.grads@,
        }
    }

    /// Append one backward record; on a detached holder this does nothing.
    pub fn add_operation(&mut self, op: OpRecord)
        ensures
            final(self).is_attached() == old(self).is_attached(),
            old(self).is_attached() ==> final(self).ops() == old(self).ops().push(op),
            !old(self).is_attached() ==> *final(self) == *old(self),
            final(self).grads() == old(self).grads(),
    {
        match self {
            TapeHolder::Detached => {},
            TapeHolder::Attached(t) => {
                t.records.push(op);
            },
        }
    }
}

/// Replay one record against the store.  Fails, exactly when some
/// intermediate leaves the `i64` range or a recorded gradient length
/// disagrees, without promising anything about the partial state.
pub fn apply_record(store: &mut GradStore, op: &OpRecord) -> (ok: bool)
    ensures
        ok ==> step_fits(old(store)@, *op) && final(store)@ == apply(old(store)@, *op),
        !ok ==> !step_fits(old(store)@, *op),
{
    match op {
        OpRecord::Elementwise { lhs_id, rhs_id, out_id, lhs_coeff, rhs_coeff } => {
            if rhs_coeff.len() != lhs_coeff.len() {
                return false;
            }
            let grad = match store.read_or_zeros(*out_id, lhs_coeff.len()) {
                None => { return false; },
                Some(g) => g,
            };
            let dl = match ew_mul(lhs_coeff, &grad) {
                None => { return false; },
                Some(d) => d,
            };
            if !store.accumulate(*lhs_id, &dl) {
                return false;
            }
            let dr = match ew_mul(rhs_coeff, &grad) {
                None => { return false; },
                Some(d) => d,
            };
            store.accumulate(*rhs_id, &dr)
        },
        OpRecord::MatMul { lhs_id, rhs_id, out_id, m, n, o, lhs_t, rhs_t } => {
            let mo = match m.checked_mul(*o) {
                None => { return false; },
                Some(v) => v,
            };
            let grad = match store.read_or_zeros(*out_id, mo) {
                None => { return false; },
                Some(g) => g,
            };
            let rtl = rhs_t.len();
            let rt_len_ok = match o.checked_mul(*n) {
                None => false,
                Some(on) => rtl == on,
            };
            if !rt_len_ok {
                return false;
            }
            let dl = match matmul(&grad, rhs_t, *m, *o, *n) {
                None => { return false; },
                Some(d) => d,
            };
            if !store.accumulate(*lhs_id, &dl) {
                return false;
            }
            let ltl = lhs_t.len();
            let lt_len_ok = match n.checked_mul(*m) {
                None => false,
                Some(nm) => ltl == nm,
            };
            if !lt_len_ok {
                return false;
            }
            let dr = match matmul(lhs_t, &grad, *n, *m, *o) {
                None => { return false; },
                Some(d) => d,
            };
            store.accumulate(*rhs_id, &dr)
        },
        OpRecord::BroadcastAdd { lhs_id, rhs_id, out_id, m, n } => {
            let mn = match m.checked_mul(*n) {
                None => { return false; },
                Some(v) => v,
            };
            let grad = match store.read_or_zeros(*out_id, mn) {
                None => { return false; },
                Some(g) => g,
            };
            if !store.accumulate(*lhs_id, &grad) {
                return false;
            }
            let dr = match col_sums(&grad, *m, *n) {
                None => { return false; },
                Some(d) => d,
            };
            proof {
                assert(iv(dr@) =~= Seq::new(
                    *n as nat,
                    |j: int| csum(lookup(old(store)@, *out_id, (*m * *n) as nat), *m as int, *n as int, j),
                ));
            }
            store.accumulate(*rhs_id, &dr)
        },
        OpRecord::BroadcastSub { lhs_id, rhs_id, out_id, outer, inner } => {
            let oi = match outer.checked_mul(*inner) {
                None => { return false; },
                Some(v) => v,
            };
            let grad = match store.read_or_zeros(*out_id, oi) {
                None => { return false; },
                Some(g) => g,
            };
            if !store.accumulate(*lhs_id, &grad) {
                return false;
            }
            let dr = match neg_group_sums(&grad, *outer, *inner) {
                None => { return false; },
                Some(d) => d,
            };
            proof {
                assert(iv(dr@) =~= Seq::new(
                    *outer as nat,
                    |gg: int| nrsum(
                        lookup(old(store)@, *out_id, (*outer * *inner) as nat),
                        gg,
                        *inner as int,
                        *inner as int,
                    ),
                ));
            }
            store.accumulate(*rhs_id, &dr)
        },
        OpRecord::SumAll { in_id, out_id, n } => {
            let grad = match store.read_or_zeros(*out_id, 1) {
                None => { return false; },
                Some(g) => g,
            };
            let seed = grad[0];
            let contribution = const_vec(*n, seed);
            proof {
                assert(iv(contribution@) =~= const_int(
                    *n as nat,
                    lookup(old(store)@, *out_id, 1)[0],
                ));
            }
            store.accumulate(*in_id, &contribution)
        },
    }
}

} // verus!
