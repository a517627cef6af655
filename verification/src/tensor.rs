//! Tensor values: a fixed-shape `i64` buffer, a process-unique identity
//! token drawn from an [`IdGen`], and a tape holder that says whether the
//! value participates in gradient tracking.  A phantom identity keeps only
//! the identity and shape of a tensor, which is what a backward record needs
//! to refer to a tensor without retaining its payload.

use vstd::prelude::*;

use crate::nums::prod;
use crate::tape::{Tape, TapeHolder};

verus! {

/// A source of identity tokens.  Tokens are handed out in strictly
/// increasing order, so no two tensors drawn from the same generator ever
/// share one.
pub struct IdGen {
    pub next: u64,
}

impl IdGen {
    /// A generator whose first token is zero.
    pub fn new() -> (r: IdGen)
        ensures
            r.next == 0,
    {
        IdGen { next: 0 }
    }

    /// The next identity token; every later call returns a strictly larger
    /// one.
    pub fn fresh(&mut self) -> (id: u64)
        requires
            old(self).next < u64::MAX,
        ensures
            id == old(self).next,
            final(self).next == old(self).next + 1,
    {
        let id = self.next;
        self.next = self.next + 1;
        id
    }
}

/// The identity and shape of a tensor with its data dropped; what a
/// backward record captures to name a tensor without owning its payload.
pub struct PhantomTensor {
    pub id: u64,
    pub shape: Vec<usize>,
}

/// A fixed-shape tensor of `i64` elements, stored flat in row-major order,
/// with rank at most four.
pub struct Tensor {
    pub data: Vec<i64>,
    pub shape: Vec<usize>,
    pub id: u64,
    pub holder: TapeHolder,
}

impl Tensor {
    /// The element count matches the dimensions, and the rank is at most
    /// four.
    pub open spec fn wf(self) -> bool {
        self.data@.len() == prod(self.shape@) && self.shape@.len() <= 4
    }

    /// A fresh detached tensor with the given data and dimensions, carrying
    /// a new identity token.  Rejected exactly when the rank exceeds four or
    /// the element count does not match the dimensions.
    #[verifier::loop_isolation(false)]
    pub fn new(data: Vec<i64>, shape: Vec<usize>, gen: &mut IdGen) -> (r: Option<Tensor>)
        requires
            old(gen).next < u64::MAX,
        ensures
            match r {
                Some(t) => {
                    &&& t.wf()
                    &&& t.data@ == data@
                    &&& t.shape@ == shape@
                    &&& t.id == old(gen).next
                    &&& final(gen).next == old(gen).next + 1
                    &&& !t.holder.is_attached()
                },
                None => (shape@.len() > 4 || data@.len() != prod(shape@)) && *final(gen) == *old(
                    gen,
                ),
            },
    {
        let _dlen = data.len();
        if shape.len() > 4 {
            return None;
        }
        let mut all_pos = true;
        let mut i: usize = 0;
        while i < shape.len()
            invariant
                i <= shape@.len(),
                all_pos <==> (forall|k: int| 0 <= k < i ==> shape@[k] >= 1),
            decreases shape@.len() - i,
        {
            if shape[i] == 0 {
                all_pos = false;
            }
            i += 1;
        }
        if !all_pos {
            proof {
                let k = choose|k: int| 0 <= k < shape@.len() && !(shape@[k] >= 1);
                crate::nums::lemma_prod_zero(shape@, k);
            }
            if data.len() != 0 {
                return None;
            }
            let id = gen.fresh();
            return Some(Tensor { data, shape, id, holder: TapeHolder::Detached });
        }
        let mut count: usize = 1;
        let mut j: usize = 0;
        while j < shape.len()
            invariant
                j <= shape@.len(),
                count == prod(shape@.take(j as int)),
                forall|k: int| 0 <= k < shape@.len() ==> shape@[k] >= 1,
            decreases shape@.len() - j,
        {
            proof {
                assert(shape@.take(j + 1).drop_last() =~= shape@.take(j as int));
            }
            count = match count.checked_mul(shape[j]) {
                Some(c) => c,
                None => {
                    proof {
                        assert(prod(shape@.take(j + 1)) > usize::MAX);
                        crate::nums::lemma_prod_prefix_mono(shape@, j + 1);
                    }
                    return None;
                },
            };
            j += 1;
        }
        proof {
            assert(shape@.take(shape@.len() as int) =~= shape@);
        }
        if data.len() != count {
            return None;
        }
        let id = gen.fresh();
        Some(Tensor { data, shape, id, holder: TapeHolder::Detached })
    }

    /// Attach a fresh, empty tape: the tensor becomes the tracked root of a
    /// new computation.
    pub fn trace(self) -> (r: Tensor)
        ensures
            r.data@ == self.data@,
            r.shape@ == self.shape@,
            r.id == self.id,
            r.holder.is_attached(),
            r.holder.ops() == Seq::<crate::tape::OpRecord>::empty(),
            r.holder.grads() == Map::<u64, Seq<int>>::empty(),
    {
        Tensor {
            data: self.data,
            shape: self.shape,
            id: self.id,
            holder: TapeHolder::Attached(Tape::new()),
        }
    }

    /// Split into the bare (detached) tensor and its tape holder, moving
    /// tape ownership out of the value.
    pub fn split_tape_holder(self) -> (r: (Tensor, TapeHolder))
        ensures
            r.0.data@ == self.data@,
            r.0.shape@ == self.shape@,
            r.0.id == self.id,
            !r.0.holder.is_attached(),
            r.1 == self.holder,
    {
        let Tensor { data, shape, id, holder } = self;
        (Tensor { data, shape, id, holder: TapeHolder::Detached }, holder)
    }

    /// Wrap this tensor's data, shape and identity with the given tape
    /// holder.
    pub fn with_tape_holder(self, holder: TapeHolder) -> (r: Tensor)
        ensures
            r.data@ == self.data@,
            r.shape@ == self.shape@,
            r.id == self.id,
            r.holder == holder,
    {
        Tensor { data: self.data, shape: self.shape, id: self.id, holder }
    }

    /// The phantom identity: this tensor's identity token and shape, with
    /// the data left behind.
    pub fn phantom(&self) -> (r: PhantomTensor)
        ensures
            r.id == self.id,
            r.shape@ == self.shape@,
    {
        PhantomTensor { id: self.id, shape: copy_shape(&self.shape) }
    }

    /// The flat row-major element buffer.
    pub fn data(&self) -> (r: &Vec<i64>)
        ensures
            r@ == self.data@,
    {
        &self.data
    }

    /// The identity token.
    pub fn id(&self) -> (r: u64)
        ensures
            r == self.id,
    {
        self.id
    }
}

/// A fresh buffer with the same dimensions.
#[verifier::loop_isolation(false)]
pub fn copy_shape(v: &Vec<usize>) -> (r: Vec<usize>)
    ensures
        r@ == v@,
{
    let mut r: Vec<usize> = Vec::new();
    let mut i: usize = 0;
    while i < v.len()
        invariant
            i <= v@.len(),
            r@ == v@.take(i as int),
        decreases v@.len() - i,
    {
        r.push(v[i]);
        proof {
            assert(r@ =~= v@.take(i + 1));
        }
        i += 1;
    }
    proof {
        assert(v@.take(v@.len() as int) =~= v@);
    }
    r
}

} // verus!
