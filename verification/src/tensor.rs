//! Quantized tensors: a flat buffer of fixed-point values plus a shape.

use vstd::prelude::*;

verus! {

/// Mathematical product of a shape's extents.
pub open spec fn dims_product(dims: Seq<usize>) -> int
    decreases dims.len(),
{
    if dims.len() == 0 {
        1
    } else {
        dims[0] * dims_product(dims.skip(1))
    }
}

/// Copies a vector of copyable elements.
pub fn clone_flat<T: Copy>(v: &Vec<T>) -> (r: Vec<T>)
    ensures
        r@ == v@,
{
    let mut r: Vec<T> = Vec::new();
    let mut i: usize = 0;
    while i < v.len()
        invariant
            i <= v@.len(),
            r@ == v@.take(i as int),
        decreases v@.len() - i,
    {
        r.push(v[i]);
        proof {
            assert(r@ =~= v@.take(i as int + 1));
        }
        i = i + 1;
    }
    proof {
        assert(v@.take(v@.len() as int) =~= v@);
    }
    r
}

/// Compares two shapes.
pub fn dims_eq(a: &Vec<usize>, b: &Vec<usize>) -> (r: bool)
    ensures
        r == (a@ == b@),
{
    if a.len() != b.len() {
        return false;
    }
    let mut i: usize = 0;
    while i < a.len()
        invariant
            i <= a@.len(),
            a@.len() == b@.len(),
            forall|j: int| 0 <= j < i ==> a@[j] == b@[j],
        decreases a@.len() - i,
    {
        if a[i] != b[i] {
            return false;
        }
        i = i + 1;
    }
    proof {
        assert(a@ =~= b@);
    }
    true
}

/// A tensor of fixed-point values: a shape and a flat row-major buffer.
#[derive(Debug)]
pub struct Tensor {
    /// Extents of each axis.
    pub dims: Vec<usize>,
    /// Flat buffer; its length is the product of the extents.
    pub inner: Vec<i128>,
}

impl Clone for Tensor {
    /// Copies the tensor, keeping shape and values.
    fn clone(&self) -> (r: Self)
        ensures
            r.dims@ == self.dims@,
            r.inner@ == self.inner@,
    {
        Tensor { dims: clone_flat(&self.dims), inner: clone_flat(&self.inner) }
    }
}

impl Tensor {
    /// A tensor is well formed when the buffer length matches the shape.
    pub open spec fn wf(self) -> bool {
        self.inner@.len() == dims_product(self.dims@)
    }

    /// Builds a tensor when the buffer length matches the shape's product.
    pub fn new(dims: Vec<usize>, inner: Vec<i128>) -> (r: Option<Tensor>)
        ensures
            r matches Some(t) ==> t.wf() && t.dims@ == dims@ && t.inner@ == inner@,
            r is None <==> inner@.len() != dims_product(dims@),
    {
        let n = checked_dims_product(&dims);
        match n {
            Some(p) => {
                if p == inner.len() {
                    Some(Tensor { dims, inner })
                } else {
                    None
                }
            },
            None => {
                let l = inner.len();
                proof {
                    assert(l <= usize::MAX);
                }
                None
            },
        }
    }

    /// Reshapes the tensor to a new shape of the same total size.
    pub fn reshape(&mut self, dims: &Vec<usize>)
        requires
            dims_product(dims@) == old(self).inner@.len(),
        ensures
            final(self).dims@ == dims@,
            final(self).inner@ == old(self).inner@,
            final(self).wf(),
    {
        self.dims = dims.clone();
    }
}

/// The shape product is never negative.
pub proof fn lemma_dims_product_nonneg(dims: Seq<usize>)
    ensures
        dims_product(dims) >= 0,
    decreases dims.len(),
{
    if dims.len() > 0 {
        lemma_dims_product_nonneg(dims.skip(1));
    }
}

/// A zero extent collapses the whole product.
pub proof fn lemma_dims_product_zero(dims: Seq<usize>, i: int)
    requires
        0 <= i < dims.len(),
        dims[i] == 0,
    ensures
        dims_product(dims) == 0,
    decreases dims.len(),
{
    if i == 0 {
        lemma_dims_product_nonneg(dims.skip(1));
    } else {
        lemma_dims_product_zero(dims.skip(1), i - 1);
    }
}

/// With every extent positive, the product over a longer prefix is at
/// least the product over its suffix.
proof fn lemma_dims_product_mono(dims: Seq<usize>, i: int, j: int)
    requires
        0 <= i <= j <= dims.len(),
        forall|k: int| 0 <= k < dims.len() ==> dims[k] >= 1,
    ensures
        dims_product(dims.skip(i)) >= dims_product(dims.skip(j)),
        dims_product(dims.skip(i)) >= 0,
    decreases j - i,
{
    lemma_dims_product_nonneg(dims.skip(i));
    if i < j {
        lemma_dims_product_mono(dims, i + 1, j);
        assert(dims.skip(i)[0] == dims[i]);
        assert(dims.skip(i).skip(1) =~= dims.skip(i + 1));
        vstd::arithmetic::mul::lemma_mul_inequality(
            1,
            dims[i] as int,
            dims_product(dims.skip(i + 1)),
        );
        vstd::arithmetic::mul::lemma_mul_is_commutative(
            dims[i] as int,
            dims_product(dims.skip(i + 1)),
        );
    }
}

/// Product of a shape's extents; `None` exactly when it exceeds `usize`.
pub fn checked_dims_product(dims: &Vec<usize>) -> (r: Option<usize>)
    ensures
        r matches Some(p) ==> p == dims_product(dims@),
        r is None <==> dims_product(dims@) > usize::MAX,
{
    let mut z: usize = 0;
    while z < dims.len()
        invariant
            z <= dims@.len(),
            forall|k: int| 0 <= k < z ==> dims@[k] >= 1,
        decreases dims@.len() - z,
    {
        if dims[z] == 0 {
            proof {
                lemma_dims_product_zero(dims@, z as int);
            }
            return Some(0);
        }
        z = z + 1;
    }
    let mut acc: usize = 1;
    let mut i: usize = dims.len();
    proof {
        assert(dims@.skip(i as int) =~= Seq::<usize>::empty());
    }
    while i > 0
        invariant
            i <= dims@.len(),
            acc == dims_product(dims@.skip(i as int)),
            forall|k: int| 0 <= k < dims@.len() ==> dims@[k] >= 1,
        decreases i,
    {
        i = i - 1;
        proof {
            lemma_dims_product_nonneg(dims@.skip(i as int + 1));
            assert(dims@.skip(i as int)[0] == dims@[i as int]);
            assert(dims@.skip(i as int).skip(1) =~= dims@.skip(i as int + 1));
        }
        let elem = dims[i];
        match elem.checked_mul(acc) {
            Some(p) => {
                acc = p;
            },
            None => {
                proof {
                    assert(dims_product(dims@.skip(i as int)) > usize::MAX);
                    lemma_dims_product_mono(dims@, 0, i as int);
                    assert(dims@.skip(0) =~= dims@);
                }
                return None;
            },
        }
    }
    proof {
        assert(dims@.skip(0) =~= dims@);
    }
    Some(acc)
}

} // verus!
