//! The gradient store: a ledger from tensor identity tokens to accumulated
//! gradient buffers.  An identity that was never written reads as an
//! all-zero gradient of the requested length, and accumulation adds a
//! contribution elementwise on top of whatever is already recorded.

use std::collections::HashMap;

use vstd::prelude::*;

use crate::kernels::{const_vec, copy_vec, ew_add};
use crate::nums::{add_fits, add_seqs, const_int, iv};

verus! {

broadcast use vstd::std_specs::hash::group_hash_axioms;

/// The gradient recorded for `id`, or the all-zero gradient of length `n`
/// when none was recorded.
pub open spec fn lookup(g: Map<u64, Seq<int>>, id: u64, n: nat) -> Seq<int> {
    if g.contains_key(id) {
        g[id]
    } else {
        const_int(n, 0)
    }
}

/// A read of length `n` agrees with what is recorded for `id`.
pub open spec fn read_fits(g: Map<u64, Seq<int>>, id: u64, n: nat) -> bool {
    g.contains_key(id) ==> g[id].len() == n
}

/// The store after adding the contribution `c` elementwise onto the entry
/// for `id` (an absent entry counts as all zeros).
pub open spec fn accum(g: Map<u64, Seq<int>>, id: u64, c: Seq<int>) -> Map<u64, Seq<int>> {
    g.insert(id, add_seqs(lookup(g, id, c.len()), c))
}

/// Accumulating `c` onto the entry for `id` meets the recorded length and
/// every elementwise sum stays representable.
pub open spec fn accum_fits(g: Map<u64, Seq<int>>, id: u64, c: Seq<int>) -> bool {
    read_fits(g, id, c.len()) && add_fits(lookup(g, id, c.len()), c)
}

/// A ledger from identity tokens to gradient buffers.
pub struct GradStore {
    m: HashMap<u64, Vec<i64>>,
}

impl View for GradStore {
    type V = Map<u64, Seq<int>>;

    closed spec fn view(&self) -> Map<u64, Seq<int>> {
        self.m@.map_values(|v: Vec<i64>| iv(v@))
    }
}

impl GradStore {
    /// An empty ledger.
    pub fn new() -> (r: GradStore)
        ensures
            r@ == Map::<u64, Seq<int>>::empty(),
    {
        let r = GradStore { m: HashMap::new() };
        proof {
            assert(r@ =~= Map::<u64, Seq<int>>::empty());
        }
        r
    }

    /// The gradient recorded for `id`, or a fresh all-zero gradient of
    /// length `n` when none was recorded.  Fails only when a recorded
    /// gradient has a length other than `n`.
    pub fn read_or_zeros(&self, id: u64, n: usize) -> (r: Option<Vec<i64>>)
        ensures
            match r {
                Some(v) => read_fits(self@, id, n as nat) && v@.len() == n && iv(v@) == lookup(
                    self@,
                    id,
                    n as nat,
                ),
                None => !read_fits(self@, id, n as nat),
            },
    {
        match self.m.get(&id) {
            Some(v) => {
                if v.len() == n {
                    Some(copy_vec(v))
                } else {
                    None
                }
            },
            None => {
                let z = const_vec(n, 0);
                proof {
                    assert(iv(z@) == const_int(n as nat, 0));
                    assert(!self@.contains_key(id));
                }
                Some(z)
            },
        }
    }

    /// Record `v` as the gradient for `id`, replacing any previous entry.
    pub fn insert_grad(&mut self, id: u64, v: Vec<i64>)
        ensures
            final(self)@ == old(self)@.insert(id, iv(v@)),
    {
        let ghost oldm = self.m@;
        self.m.insert(id, v);
        proof {
            assert(self@ =~= oldm.map_values(|w: Vec<i64>| iv(w@)).insert(id, iv(v@)));
        }
    }

    /// Add the contribution `c` elementwise onto the entry for `id`,
    /// treating a missing entry as all zeros.  Fails, leaving the store
    /// unchanged, exactly when the entry length disagrees with `c` or some
    /// elementwise sum leaves the `i64` range.
    pub fn accumulate(&mut self, id: u64, c: &Vec<i64>) -> (ok: bool)
        ensures
            ok ==> accum_fits(old(self)@, id, iv(c@)) && final(self)@ == accum(
                old(self)@,
                id,
                iv(c@),
            ),
            !ok ==> !accum_fits(old(self)@, id, iv(c@)) && *final(self) == *old(self),
    {
        match self.read_or_zeros(id, c.len()) {
            None => false,
            Some(cur) => {
                match ew_add(&cur, c) {
                    None => false,
                    Some(sum) => {
                        self.insert_grad(id, sum);
                        true
                    },
                }
            },
        }
    }

    /// The gradient accumulated for `id`, when one was recorded.
    pub fn gradient_for(&self, id: u64) -> (r: Option<&Vec<i64>>)
        ensures
            match r {
                Some(v) => self@.contains_key(id) && iv(v@) == self@[id],
                None => !self@.contains_key(id),
            },
    {
        self.m.get(&id)
    }
}

} // verus!
