//! The `Flatten` operator: reshapes a tensor to two dimensions around an axis.
use vstd::prelude::*;
use crate::errors::TractError;
use crate::tensor::{checked_shape_product, shape_product, Tensor, TensorModel};

verus! {

/// Collapses the dimensions before `axis` into the first output dimension
/// and those from `axis` on into the second.
#[derive(Debug, Clone, Copy, PartialEq, Eq, Structural, Default)]
pub struct Flatten {
    pub axis: usize,
}

impl Flatten {
    /// The operator flattening around `axis`.
    pub fn new(axis: usize) -> (r: Flatten)
        ensures
            r.axis == axis,
    {
        Flatten { axis }
    }
}

/// The shape `shape` flattens to around `axis`.
pub open spec fn flattened(shape: Seq<usize>, axis: int) -> Seq<int> {
    seq![shape_product(shape.subrange(0, axis)), shape_product(shape.subrange(axis, shape.len() as int))]
}

impl Flatten {
    /// The input with its dimensions before `axis` merged into one and those
    /// from `axis` on merged into another; the elements stay in row-major
    /// order. Fails with `ShapeError` when `axis` exceeds the rank or a
    /// merged dimension overflows.
    pub fn eval(&self, input: Tensor) -> (r: Result<Tensor, TractError>)
        requires
            input@.wf(),
        ensures
            r matches Ok(t) ==> t@.wf() && crate::ops::flatten_model(input@, self.axis) == Ok::<TensorModel, TractError>(t@),
            r matches Err(e) ==> crate::ops::flatten_model(input@, self.axis) == Err::<TensorModel, TractError>(e),
    {
        if self.axis > input.shape.len() {
            return Err(TractError::ShapeError { expected: input.shape.len(), got: self.axis });
        }
        let head = part(&input.shape, 0, self.axis);
        let tail = part(&input.shape, self.axis, input.shape.len());
        let p0 = checked_shape_product(head.as_slice());
        let p1 = checked_shape_product(tail.as_slice());
        match (p0, p1) {
            (Some(a), Some(b)) => {
                proof { lemma_split_product(input@.shape, self.axis as int); }
                let shape = vec![a, b];
                proof {
                    let v = seq![a, b];
                    assert(shape@ =~= v);
                    assert(v.drop_last() =~= seq![a]);
                    assert(seq![a].drop_last() =~= Seq::<usize>::empty());
                    reveal_with_fuel(shape_product, 3);
                    assert(shape_product(v) == a * b);
                }
                input.into_shape(shape)
            },
            _ => Err(TractError::ShapeError { expected: usize::MAX, got: self.axis }),
        }
    }
}

/// The elements of `v` from `lo` to `hi`.
pub fn part(v: &Vec<usize>, lo: usize, hi: usize) -> (r: Vec<usize>)
    requires
        lo <= hi <= v@.len(),
    ensures
        r@ == v@.subrange(lo as int, hi as int),
{
    let mut r: Vec<usize> = Vec::new();
    let mut i: usize = lo;
    while i < hi
        invariant
            lo <= i <= hi,
            hi <= v@.len(),
            r@ =~= v@.subrange(lo as int, i as int),
        decreases hi - i,
    {
        r.push(v[i]);
        i += 1;
    }
    r
}

/// The product of a shape is the product of the products of its two parts.
pub proof fn lemma_split_product(s: Seq<usize>, k: int)
    requires
        0 <= k <= s.len(),
    ensures
        shape_product(s) == shape_product(s.subrange(0, k)) * shape_product(s.subrange(k, s.len() as int)),
    decreases s.len() - k,
{
    if k == s.len() {
        assert(s.subrange(0, k) =~= s);
        assert(s.subrange(k, s.len() as int) =~= Seq::<usize>::empty());
    } else {
        lemma_split_product(s.drop_last(), k);
        let a = shape_product(s.subrange(0, k));
        let b = shape_product(s.drop_last().subrange(k, s.len() - 1));
        assert(s.drop_last().subrange(0, k) =~= s.subrange(0, k));
        assert(s.subrange(k, s.len() as int).drop_last() =~= s.drop_last().subrange(k, s.len() - 1));
        assert(s.subrange(k, s.len() as int).last() == s.last());
        let d = s.last() as int;
        assert(a * b * d == a * (b * d)) by (nonlinear_arith);
    }
}

} // verus!
