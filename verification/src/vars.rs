//! Visibility policy and the typed pool of column resources carved up
//! among nodes during configuration.

use vstd::prelude::*;

verus! {

/// Whether a quantity is committed publicly or witnessed privately.
#[derive(Clone, Copy, Debug, PartialEq, Eq, Structural)]
pub enum Visibility {
    Public,
    Private,
}

impl Visibility {
    pub open spec fn spec_is_public(self) -> bool {
        self is Public
    }

    pub fn is_public(&self) -> (r: bool)
        ensures
            r == self.spec_is_public(),
    {
        matches!(self, Visibility::Public)
    }
}

/// Which of the model's inputs, parameters and outputs are public.
#[derive(Clone, Copy, Debug, PartialEq, Eq, Structural)]
pub struct VarVisibility {
    pub input: Visibility,
    pub params: Visibility,
    pub output: Visibility,
}

/// The kind of column resource a variable lives in.
#[derive(Clone, Copy, Debug, PartialEq, Eq, Structural)]
pub enum VarKind {
    /// General-purpose witness column.
    Advice,
    /// Compile-time-constant column.
    Fixed,
    /// Public commitment column.
    Instance,
}

/// A column resource reshaped to a tensor shape: the allocation unit the
/// configuration pass hands to circuit regions.
#[derive(Debug)]
pub struct VarTensor {
    /// Which pool the column comes from.
    pub kind: VarKind,
    /// Position of the column within its pool.
    pub index: usize,
    /// Shape the column is reshaped to.
    pub dims: Vec<usize>,
}

/// Two variable descriptors name the same column in the same shape.
pub open spec fn var_eqv(a: VarTensor, b: VarTensor) -> bool {
    a.kind == b.kind && a.index == b.index && a.dims@ == b.dims@
}

impl Clone for VarTensor {
    /// Copies the descriptor, keeping column identity and shape.
    fn clone(&self) -> (r: Self)
        ensures
            var_eqv(r, *self),
    {
        VarTensor {
            kind: self.kind,
            index: self.index,
            dims: crate::tensor::clone_flat(&self.dims),
        }
    }
}

/// The typed pool of column resources. Columns are identified by position;
/// reshaping one to a requested shape yields a [`VarTensor`] descriptor.
#[derive(Clone, Copy, Debug, PartialEq, Eq, Structural)]
pub struct ModelVars {
    /// Number of advice columns available.
    pub num_advices: usize,
    /// Number of fixed columns available.
    pub num_fixed: usize,
    /// Number of instance columns available.
    pub num_instances: usize,
}

impl ModelVars {
    /// Reshapes the advice column at `index` to the requested shape.
    pub fn advice(&self, index: usize, dims: &Vec<usize>) -> (r: VarTensor)
        requires
            index < self.num_advices,
        ensures
            r.kind == VarKind::Advice,
            r.index == index,
            r.dims@ == dims@,
    {
        VarTensor { kind: VarKind::Advice, index, dims: dims.clone() }
    }

    /// Reshapes the fixed column at `index` to the requested shape.
    pub fn fixed(&self, index: usize, dims: &Vec<usize>) -> (r: VarTensor)
        requires
            index < self.num_fixed,
        ensures
            r.kind == VarKind::Fixed,
            r.index == index,
            r.dims@ == dims@,
    {
        VarTensor { kind: VarKind::Fixed, index, dims: dims.clone() }
    }
}

} // verus!
