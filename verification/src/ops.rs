//! The closed sets of operations a graph node may carry, and their
//! fixed-point integer semantics.

use vstd::prelude::*;

verus! {

/// Whether a mathematical integer is representable as an `i128`.
pub open spec fn in_i128(v: int) -> bool {
    i128::MIN <= v <= i128::MAX
}

/// A nonlinear operation realized in the circuit by a precomputed lookup table.
#[derive(Clone, Copy, Debug, PartialEq, Eq, Structural)]
pub enum LookupOp {
    /// Rectified linear unit: negative values clamp to zero.
    ReLU,
    /// Absolute value.
    Abs,
}

/// A polynomial operation, fusable with other same-bucket polynomial
/// operations into a single gate.
#[derive(Clone, Copy, Debug, PartialEq, Eq, Structural)]
pub enum PolyOp {
    /// Elementwise sum of all inputs.
    Add,
    /// Elementwise product of all inputs.
    Mult,
    /// Folds a tensor's elements into a single value in radix `base`;
    /// the second field records the active quantization scale.
    Pack(u32, u32),
}

/// Operation kind of a graph node.
#[derive(Clone, Copy, Debug, PartialEq, Eq, Structural)]
pub enum OpKind {
    /// External witness input; no producers.
    Input,
    /// Embedded constant; no producers and no execution bucket.
    Const,
    /// A fusable polynomial operation.
    Poly(PolyOp),
    /// A lookup-table operation.
    Lookup(LookupOp),
    /// An operation with no circuit realization.
    Unknown,
}

impl OpKind {
    pub open spec fn spec_is_input(self) -> bool {
        self is Input
    }

    pub open spec fn spec_is_const(self) -> bool {
        self is Const
    }

    pub open spec fn spec_is_poly(self) -> bool {
        self is Poly
    }

    pub open spec fn spec_is_lookup(self) -> bool {
        self is Lookup
    }

    pub fn is_input(&self) -> (r: bool)
        ensures
            r == self.spec_is_input(),
    {
        matches!(self, OpKind::Input)
    }

    pub fn is_const(&self) -> (r: bool)
        ensures
            r == self.spec_is_const(),
    {
        matches!(self, OpKind::Const)
    }

    pub fn is_poly(&self) -> (r: bool)
        ensures
            r == self.spec_is_poly(),
    {
        matches!(self, OpKind::Poly(_))
    }

    pub fn is_lookup(&self) -> (r: bool)
        ensures
            r == self.spec_is_lookup(),
    {
        matches!(self, OpKind::Lookup(_))
    }
}

/// Value of a lookup operation on one element, as a mathematical integer.
pub open spec fn lookup_op_val(op: LookupOp, x: i128) -> int {
    match op {
        LookupOp::ReLU => if x < 0 { 0int } else { x as int },
        LookupOp::Abs => if x < 0 { -(x as int) } else { x as int },
    }
}

/// Applies a lookup operation to one element; `None` exactly when the
/// mathematical result does not fit in an `i128`.
pub fn lookup_op_eval(op: LookupOp, x: i128) -> (r: Option<i128>)
    ensures
        r matches Some(v) ==> v as int == lookup_op_val(op, x) && in_i128(lookup_op_val(op, x)),
        r is None <==> !in_i128(lookup_op_val(op, x)),
{
    match op {
        LookupOp::ReLU => if x < 0 { Some(0) } else { Some(x) },
        LookupOp::Abs => {
            if x == i128::MIN {
                None
            } else if x < 0 {
                Some(-x)
            } else {
                Some(x)
            }
        },
    }
}

} // verus!
