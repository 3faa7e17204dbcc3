//! Tensor shapes: an ordered list of non-batch extents plus a batch count.
//!
//! `volume` is the product of the non-batch extents, `size` is
//! `volume * batch`, and `lower_volume(d)` — the product of the extents below
//! axis `d` — is the linear stride between consecutive coordinates of axis
//! `d`.  All launch planning is arithmetic over these quantities.

use vstd::prelude::*;
use vstd::arithmetic::mul::lemma_mul_inequality;

verus! {

/// Product of the extents `dims[0], ..., dims[k-1]`.
pub open spec fn prod_prefix(dims: Seq<u32>, k: int) -> nat
    decreases k,
{
    if k <= 0 {
        1
    } else {
        prod_prefix(dims, k - 1) * dims[k - 1] as nat
    }
}

/// Product of the extents `dims[k], ..., dims[len-1]`.
pub open spec fn prod_suffix(dims: Seq<u32>, k: int) -> nat
    decreases dims.len() - k,
{
    if k < 0 || k >= dims.len() {
        1
    } else {
        dims[k] as nat * prod_suffix(dims, k + 1)
    }
}

pub open spec fn all_extents_positive(dims: Seq<u32>) -> bool {
    forall|i: int| 0 <= i < dims.len() ==> dims[i] >= 1
}

/// Every prefix product divides into the full product; with positive extents
/// the prefix can only grow.
pub proof fn lemma_prod_prefix_mono(dims: Seq<u32>, k1: int, k2: int)
    requires
        all_extents_positive(dims),
        0 <= k1 <= k2 <= dims.len(),
    ensures
        prod_prefix(dims, k1) <= prod_prefix(dims, k2),
    decreases k2,
{
    if k1 < k2 {
        lemma_prod_prefix_mono(dims, k1, k2 - 1);
        assert(prod_prefix(dims, k2) == prod_prefix(dims, k2 - 1) * dims[k2 - 1] as nat);
        lemma_mul_inequality(1, dims[k2 - 1] as int, prod_prefix(dims, k2 - 1) as int);
        assert(prod_prefix(dims, k2 - 1) * 1 <= prod_prefix(dims, k2 - 1) * dims[k2 - 1] as nat)
            by (nonlinear_arith)
            requires dims[k2 - 1] >= 1;
    }
}

/// The full product splits at any axis: prefix times suffix.
pub proof fn lemma_prod_split(dims: Seq<u32>, k: int)
    requires
        0 <= k <= dims.len(),
    ensures
        prod_prefix(dims, dims.len() as int) == prod_prefix(dims, k) * prod_suffix(dims, k),
    decreases dims.len() - k,
{
    if k == dims.len() {
        assert(prod_suffix(dims, k) == 1);
    } else {
        lemma_prod_split(dims, k + 1);
        assert(prod_prefix(dims, k + 1) == prod_prefix(dims, k) * dims[k] as nat);
        assert(prod_suffix(dims, k) == dims[k] as nat * prod_suffix(dims, k + 1));
        assert(prod_prefix(dims, k) * dims[k] as nat * prod_suffix(dims, k + 1)
            == prod_prefix(dims, k) * (dims[k] as nat * prod_suffix(dims, k + 1)))
            by (nonlinear_arith);
    }
}

/// The stride below an axis times that axis's extent never exceeds the
/// per-batch volume, and every stride is at least 1.
pub proof fn lemma_lower_volume_bounds(s: &Shape, d: int)
    requires
        s.wf(),
        d >= 0,
    ensures
        1 <= s.spec_lower_volume(d),
        s.spec_lower_volume(d) * s.spec_at(d) as nat <= s.spec_volume(),
        s.spec_lower_volume(d) <= s.spec_volume(),
        s.spec_volume() >= 1,
        s.spec_volume() <= s.spec_size(),
        s.spec_size() >= 1,
{
    let dims = s.dims@;
    let len = dims.len() as int;
    lemma_prod_prefix_mono(dims, 0, len);
    lemma_mul_inequality(1, s.batch as int, s.spec_volume() as int);
    assert(s.spec_volume() * 1 <= s.spec_volume() * s.batch as nat) by (nonlinear_arith)
        requires s.batch >= 1, s.spec_volume() >= 1;
    assert(s.spec_size() >= 1) by (nonlinear_arith)
        requires s.spec_volume() >= 1, s.batch >= 1,
            s.spec_size() == s.spec_volume() * s.batch as nat;
    if d < len {
        lemma_prod_prefix_mono(dims, 0, d);
        lemma_prod_prefix_mono(dims, d, len);
        lemma_prod_split(dims, d + 1);
        assert(prod_prefix(dims, d + 1) == prod_prefix(dims, d) * dims[d] as nat);
        lemma_prod_prefix_mono(dims, d + 1, len);
    } else {
        assert(s.spec_lower_volume(d) == s.spec_volume());
        assert(s.spec_at(d) == 1);
        assert(s.spec_volume() * 1 == s.spec_volume());
    }
}

/// Multiplying the stride below an axis by that axis's extent gives the
/// stride below the next axis; beyond the stored rank both settle at the
/// per-batch volume.
pub proof fn lemma_lower_volume_step(s: &Shape, d: int)
    requires
        s.wf(),
        d >= 0,
    ensures
        s.spec_lower_volume(d) * s.spec_at(d) as nat == s.spec_lower_volume(d + 1),
{
    let dims = s.dims@;
    let len = dims.len() as int;
    if d < len {
        assert(prod_prefix(dims, d + 1) == prod_prefix(dims, d) * dims[d] as nat);
    } else {
        assert(s.spec_at(d) == 1);
        assert(s.spec_volume() * 1 == s.spec_volume());
    }
}

/// A shape: non-batch extents plus a batch count.  Well-formed shapes have
/// only positive extents, a positive batch count, and a total element count
/// that fits the device's 32-bit size arguments.
#[derive(Clone)]
pub struct Shape {
    pub dims: Vec<u32>,
    pub batch: u32,
}

impl Shape {
    pub open spec fn spec_volume(&self) -> nat {
        prod_prefix(self.dims@, self.dims@.len() as int)
    }

    pub open spec fn spec_size(&self) -> nat {
        self.spec_volume() * self.batch as nat
    }

    /// Extent of axis `d`; axes beyond the stored rank read as extent 1.
    pub open spec fn spec_at(&self, d: int) -> u32 {
        if 0 <= d < self.dims@.len() {
            self.dims@[d]
        } else {
            1
        }
    }

    /// Product of the extents below axis `d`.
    pub open spec fn spec_lower_volume(&self, d: int) -> nat {
        if d < self.dims@.len() {
            prod_prefix(self.dims@, d)
        } else {
            self.spec_volume()
        }
    }

    pub open spec fn wf(&self) -> bool {
        &&& self.batch >= 1
        &&& all_extents_positive(self.dims@)
        &&& self.spec_size() <= u32::MAX
    }

    pub open spec fn spec_has_batch(&self) -> bool {
        self.batch > 1
    }

    proof fn lemma_volume_fits(&self)
        requires
            self.wf(),
        ensures
            self.spec_volume() <= u32::MAX,
            forall|k: int| 0 <= k <= self.dims@.len()
                ==> #[trigger] prod_prefix(self.dims@, k) <= u32::MAX,
    {
        lemma_mul_inequality(1, self.batch as int, self.spec_volume() as int);
        assert(self.spec_volume() * 1 <= self.spec_volume() * self.batch as nat)
            by (nonlinear_arith)
            requires self.batch >= 1;
        assert forall|k: int| 0 <= k <= self.dims@.len()
            implies #[trigger] prod_prefix(self.dims@, k) <= u32::MAX by {
            lemma_prod_prefix_mono(self.dims@, k, self.dims@.len() as int);
        }
    }

    /// Validates extents and batch count; rejects shapes whose element count
    /// would overflow the device's 32-bit size arguments.
    pub fn new(dims: Vec<u32>, batch: u32) -> (r: Option<Shape>)
        ensures
            match r {
                Some(s) => s.wf() && s.dims@ == dims@ && s.batch == batch,
                None => !(Shape { dims, batch }).wf(),
            },
    {
        if batch == 0 {
            return None;
        }
        let ghost all = dims@;
        let mut acc: u64 = 1;
        let mut i: usize = 0;
        while i < dims.len()
            invariant
                0 <= i <= dims.len(),
                dims@ == all,
                acc == prod_prefix(all, i as int),
                acc <= u32::MAX,
                all_extents_positive(all.subrange(0, i as int)),
            decreases dims.len() - i,
        {
            let d = dims[i];
            if d == 0 {
                assert(!all_extents_positive(all));
                return None;
            }
            assert(acc * d as u64 <= u32::MAX as u64 * u32::MAX as u64) by (nonlinear_arith)
                requires acc <= u32::MAX, d <= u32::MAX;
            let next: u64 = acc * d as u64;
            assert(next == prod_prefix(all, i as int + 1));
            if next > u32::MAX as u64 {
                proof {
                    let s = Shape { dims, batch };
                    if s.wf() {
                        lemma_prod_prefix_mono(all, i as int + 1, all.len() as int);
                        lemma_mul_inequality(1, batch as int, s.spec_volume() as int);
                        assert(s.spec_volume() * 1 <= s.spec_volume() * batch as nat)
                            by (nonlinear_arith)
                            requires batch >= 1;
                    }
                }
                return None;
            }
            acc = next;
            i = i + 1;
            proof {
                assert(all.subrange(0, i as int)
                    == all.subrange(0, i as int - 1).push(all[i as int - 1]));
            }
        }
        proof {
            assert(all.subrange(0, all.len() as int) == all);
        }
        assert(acc * batch as u64 <= u32::MAX as u64 * u32::MAX as u64) by (nonlinear_arith)
            requires acc <= u32::MAX, batch <= u32::MAX;
        let total: u64 = acc * batch as u64;
        if total > u32::MAX as u64 {
            return None;
        }
        Some(Shape { dims, batch })
    }

    pub fn ndims(&self) -> (r: usize)
        ensures
            r == self.dims@.len(),
    {
        self.dims.len()
    }

    pub fn batch(&self) -> (r: u32)
        ensures
            r == self.batch,
    {
        self.batch
    }

    pub fn has_batch(&self) -> (r: bool)
        ensures
            r == self.spec_has_batch(),
    {
        self.batch > 1
    }

    pub fn at(&self, d: u32) -> (r: u32)
        ensures
            r == self.spec_at(d as int),
    {
        if (d as usize) < self.dims.len() {
            self.dims[d as usize]
        } else {
            1
        }
    }

    pub fn volume(&self) -> (r: u32)
        requires
            self.wf(),
        ensures
            r == self.spec_volume(),
    {
        proof {
            self.lemma_volume_fits();
        }
        let mut acc: u32 = 1;
        let mut i: usize = 0;
        while i < self.dims.len()
            invariant
                self.wf(),
                0 <= i <= self.dims@.len(),
                acc == prod_prefix(self.dims@, i as int),
                forall|k: int| 0 <= k <= self.dims@.len()
                    ==> #[trigger] prod_prefix(self.dims@, k) <= u32::MAX,
            decreases self.dims.len() - i,
        {
            proof {
                lemma_prod_prefix_mono(self.dims@, i as int + 1, self.dims@.len() as int);
            }
            acc = acc * self.dims[i];
            i = i + 1;
        }
        acc
    }

    pub fn size(&self) -> (r: u32)
        requires
            self.wf(),
        ensures
            r == self.spec_size(),
    {
        let v = self.volume();
        v * self.batch
    }

    pub fn lower_volume(&self, d: u32) -> (r: u32)
        requires
            self.wf(),
        ensures
            r == self.spec_lower_volume(d as int),
    {
        proof {
            self.lemma_volume_fits();
        }
        let stop: usize = if (d as usize) < self.dims.len() {
            d as usize
        } else {
            self.dims.len()
        };
        let mut acc: u32 = 1;
        let mut i: usize = 0;
        while i < stop
            invariant
                self.wf(),
                stop <= self.dims@.len(),
                0 <= i <= stop,
                acc == prod_prefix(self.dims@, i as int),
                forall|k: int| 0 <= k <= self.dims@.len()
                    ==> #[trigger] prod_prefix(self.dims@, k) <= u32::MAX,
            decreases stop - i,
        {
            proof {
                lemma_prod_prefix_mono(self.dims@, i as int + 1, self.dims@.len() as int);
            }
            acc = acc * self.dims[i];
            i = i + 1;
        }
        acc
    }
}

} // verus!
