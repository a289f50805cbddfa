//! Fixed-point evaluation of the circuit operations on tensors, with
//! checked arithmetic: any value leaving the representable range is a
//! fatal error, never a silent wrap.

use vstd::prelude::*;
use crate::node::GraphError;
use crate::ops::LookupOp;
use crate::ops::PolyOp;
use crate::ops::in_i128;
use crate::ops::lookup_op_eval;
use crate::ops::lookup_op_val;
use crate::tensor::Tensor;

verus! {

/// A tensor at the specification level: its shape and its values.
pub open spec fn tview(t: Tensor) -> (Seq<usize>, Seq<i128>) {
    (t.dims@, t.inner@)
}

/// Views of a list of tensors.
pub open spec fn tviews(ts: Seq<Tensor>) -> Seq<(Seq<usize>, Seq<i128>)> {
    Seq::new(ts.len(), |k: int| tview(ts[k]))
}

/// The lookup operation applied elementwise; fails exactly when some
/// result leaves the representable range.
pub open spec fn spec_lookup_apply(op: LookupOp, t: (Seq<usize>, Seq<i128>)) -> Result<
    (Seq<usize>, Seq<i128>),
    GraphError,
> {
    if forall|j: int| 0 <= j < t.1.len() ==> in_i128(lookup_op_val(op, #[trigger] t.1[j])) {
        Result::Ok((t.0, Seq::new(t.1.len(), |j: int| lookup_op_val(op, t.1[j]) as i128)))
    } else {
        Result::Err(GraphError::Overflow)
    }
}

/// Elementwise sums of two buffers.
pub open spec fn sum2(a: Seq<i128>, b: Seq<i128>) -> Seq<i128> {
    Seq::new(a.len(), |j: int| (a[j] + b[j]) as i128)
}

/// Elementwise products of two buffers.
pub open spec fn prod2(a: Seq<i128>, b: Seq<i128>) -> Seq<i128> {
    Seq::new(a.len(), |j: int| (a[j] * b[j]) as i128)
}

/// All elementwise sums stay representable.
pub open spec fn sum2_fits(a: Seq<i128>, b: Seq<i128>) -> bool {
    forall|j: int| 0 <= j < a.len() ==> in_i128((#[trigger] a[j]) + b[j])
}

/// All elementwise products stay representable.
pub open spec fn prod2_fits(a: Seq<i128>, b: Seq<i128>) -> bool {
    forall|j: int| 0 <= j < a.len() ==> in_i128((#[trigger] a[j]) * b[j])
}

/// Left fold of the elementwise operation over the first `k` operands.
pub open spec fn spec_fold_bin(add: bool, ts: Seq<(Seq<usize>, Seq<i128>)>, k: int) -> Result<
    Seq<i128>,
    GraphError,
>
    decreases k,
{
    if k <= 1 {
        Result::Ok(ts[0].1)
    } else {
        match spec_fold_bin(add, ts, k - 1) {
            Result::Err(e) => Result::Err(e),
            Result::Ok(acc) => {
                let b = ts[k - 1].1;
                if add {
                    if sum2_fits(acc, b) {
                        Result::Ok(sum2(acc, b))
                    } else {
                        Result::Err(GraphError::Overflow)
                    }
                } else {
                    if prod2_fits(acc, b) {
                        Result::Ok(prod2(acc, b))
                    } else {
                        Result::Err(GraphError::Overflow)
                    }
                }
            },
        }
    }
}

/// The packed value of the buffer suffix starting at `i`, radix `base`.
pub open spec fn pack_val(s: Seq<i128>, base: int, i: int) -> int
    decreases s.len() - i,
{
    if i < 0 || i >= s.len() {
        0
    } else {
        s[i] + base * pack_val(s, base, i + 1)
    }
}

/// Every intermediate of the radix folding stays representable.
pub open spec fn pack_fits(s: Seq<i128>, base: int) -> bool {
    forall|i: int|
        0 <= i < s.len() ==> in_i128(base * pack_val(s, base, i + 1)) && in_i128(
            #[trigger] pack_val(s, base, i),
        )
}

/// A polynomial operation applied to resolved operands: elementwise sums
/// or products over same-shape operands, or the radix packing of one
/// operand into a single element.
pub open spec fn spec_poly_apply(op: PolyOp, ts: Seq<(Seq<usize>, Seq<i128>)>) -> Result<
    (Seq<usize>, Seq<i128>),
    GraphError,
> {
    match op {
        PolyOp::Add => {
            if ts.len() == 0 || !(forall|k: int| 0 <= k < ts.len() ==> (#[trigger] ts[k]).0 == ts[0].0
                && ts[k].1.len() == ts[0].1.len()) {
                Result::Err(GraphError::InvalidDims)
            } else {
                match spec_fold_bin(true, ts, ts.len() as int) {
                    Result::Ok(vals) => Result::Ok((ts[0].0, vals)),
                    Result::Err(e) => Result::Err(e),
                }
            }
        },
        PolyOp::Mult => {
            if ts.len() == 0 || !(forall|k: int| 0 <= k < ts.len() ==> (#[trigger] ts[k]).0 == ts[0].0
                && ts[k].1.len() == ts[0].1.len()) {
                Result::Err(GraphError::InvalidDims)
            } else {
                match spec_fold_bin(false, ts, ts.len() as int) {
                    Result::Ok(vals) => Result::Ok((ts[0].0, vals)),
                    Result::Err(e) => Result::Err(e),
                }
            }
        },
        PolyOp::Pack(base, _scale) => {
            if ts.len() != 1 {
                Result::Err(GraphError::InvalidDims)
            } else if pack_fits(ts[0].1, base as int) {
                Result::Ok((seq![1usize], seq![pack_val(ts[0].1, base as int, 0) as i128]))
            } else {
                Result::Err(GraphError::Overflow)
            }
        },
    }
}

/// Applies a lookup operation to a tensor.
#[verifier::rlimit(50)]
pub fn apply_lookup(op: LookupOp, t: &Tensor) -> (r: Result<Tensor, GraphError>)
    ensures
        match (r, spec_lookup_apply(op, tview(*t))) {
            (Result::Ok(out), Result::Ok(sv)) => tview(out) == sv,
            (Result::Err(e1), Result::Err(e2)) => e1 == e2,
            _ => false,
        },
{
    let mut vals: Vec<i128> = Vec::new();
    let mut j: usize = 0;
    while j < t.inner.len()
        invariant
            j <= t.inner@.len(),
            vals@.len() == j,
            forall|x: int| 0 <= x < j ==> in_i128(lookup_op_val(op, #[trigger] t.inner@[x])),
            forall|x: int|
                0 <= x < j ==> (#[trigger] vals@[x]) as int == lookup_op_val(op, t.inner@[x]),
        decreases t.inner@.len() - j,
    {
        match lookup_op_eval(op, t.inner[j]) {
            Some(v) => {
                vals.push(v);
            },
            None => {
                return Err(GraphError::Overflow);
            },
        }
        j = j + 1;
    }
    let out = Tensor { dims: crate::tensor::clone_flat(&t.dims), inner: vals };
    proof {
        let sv = spec_lookup_apply(op, tview(*t));
        assert(out.inner@ =~= sv->Ok_0.1);
    }
    Ok(out)
}

/// Applies a polynomial operation to resolved operands.
#[verifier::rlimit(100)]
pub fn apply_poly(op: PolyOp, ts: &Vec<Tensor>) -> (r: Result<Tensor, GraphError>)
    ensures
        match (r, spec_poly_apply(op, tviews(ts@))) {
            (Result::Ok(out), Result::Ok(sv)) => tview(out) == sv,
            (Result::Err(e1), Result::Err(e2)) => e1 == e2,
            _ => false,
        },
{
    let ghost tvs = tviews(ts@);
    match op {
        PolyOp::Add | PolyOp::Mult => {
            let add = matches!(op, PolyOp::Add);
            if ts.len() == 0 {
                return Err(GraphError::InvalidDims);
            }
            let mut k: usize = 0;
            while k < ts.len()
                invariant
                    k <= ts@.len(),
                    tvs == tviews(ts@),
                    ts@.len() > 0,
                    forall|x: int|
                        0 <= x < k ==> (#[trigger] tvs[x]).0 == tvs[0].0 && tvs[x].1.len()
                            == tvs[0].1.len(),
                decreases ts@.len() - k,
            {
                if !crate::tensor::dims_eq(&ts[k].dims, &ts[0].dims) || ts[k].inner.len()
                    != ts[0].inner.len() {
                    proof {
                        assert(tvs[k as int] == tview(ts@[k as int]));
                        assert(tvs[0] == tview(ts@[0]));
                    }
                    return Err(GraphError::InvalidDims);
                }
                proof {
                    assert(tvs[k as int] == tview(ts@[k as int]));
                    assert(tvs[0] == tview(ts@[0]));
                }
                k = k + 1;
            }
            let mut acc: Vec<i128> = crate::tensor::clone_flat(&ts[0].inner);
            let mut k: usize = 1;
            proof {
                assert(tvs[0] == tview(ts@[0]));
                assert(spec_fold_bin(add, tvs, 1) == Result::<Seq<i128>, GraphError>::Ok(
                    tvs[0].1,
                ));
            }
            while k < ts.len()
                invariant
                    1 <= k <= ts@.len(),
                    tvs == tviews(ts@),
                    add == (op == PolyOp::Add),
                    op == PolyOp::Add || op == PolyOp::Mult,
                    forall|x: int|
                        0 <= x < ts@.len() ==> (#[trigger] tvs[x]).0 == tvs[0].0 && tvs[x].1.len()
                            == tvs[0].1.len(),
                    spec_fold_bin(add, tvs, k as int) == Result::<Seq<i128>, GraphError>::Ok(acc@),
                    acc@.len() == tvs[0].1.len(),
                decreases ts@.len() - k,
            {
                proof {
                    assert(tvs[k as int] == tview(ts@[k as int]));
                }
                let b = &ts[k].inner;
                let mut next: Vec<i128> = Vec::new();
                let mut j: usize = 0;
                while j < acc.len()
                    invariant
                        j <= acc@.len(),
                        acc@.len() == b@.len(),
                        add == (op == PolyOp::Add),
                        op == PolyOp::Add || op == PolyOp::Mult,
                        tvs == tviews(ts@),
                        ts@.len() > 0,
                        1 <= k < ts@.len(),
                        b@ == tvs[k as int].1,
                        forall|x: int|
                            0 <= x < ts@.len() ==> (#[trigger] tvs[x]).0 == tvs[0].0
                                && tvs[x].1.len() == tvs[0].1.len(),
                        spec_fold_bin(add, tvs, k as int) == Result::<Seq<i128>, GraphError>::Ok(
                            acc@,
                        ),
                        next@.len() == j,
                        add ==> forall|x: int|
                            0 <= x < j ==> in_i128((#[trigger] acc@[x]) + b@[x]),
                        add ==> forall|x: int|
                            0 <= x < j ==> (#[trigger] next@[x]) as int == acc@[x] + b@[x],
                        !add ==> forall|x: int|
                            0 <= x < j ==> in_i128((#[trigger] acc@[x]) * b@[x]),
                        !add ==> forall|x: int|
                            0 <= x < j ==> (#[trigger] next@[x]) as int == acc@[x] * b@[x],
                    decreases acc@.len() - j,
                {
                    let combined = if add {
                        acc[j].checked_add(b[j])
                    } else {
                        acc[j].checked_mul(b[j])
                    };
                    match combined {
                        Some(v) => {
                            next.push(v);
                        },
                        None => {
                            proof {
                                if add {
                                    assert(!in_i128(acc@[j as int] + b@[j as int]));
                                    assert(!sum2_fits(acc@, b@));
                                } else {
                                    assert(!in_i128(acc@[j as int] * b@[j as int]));
                                    assert(!prod2_fits(acc@, b@));
                                }
                                assert(tvs[k as int] == tview(ts@[k as int]));
                                assert(tvs[k as int].1 == b@);
                                assert(spec_fold_bin(add, tvs, k as int + 1) == Result::<
                                    Seq<i128>,
                                    GraphError,
                                >::Err(GraphError::Overflow));
                                lemma_fold_bin_err(add, tvs, k as int + 1, ts@.len() as int);
                                assert(spec_fold_bin(add, tvs, ts@.len() as int) == Result::<
                                    Seq<i128>,
                                    GraphError,
                                >::Err(GraphError::Overflow));
                                assert(tvs.len() == ts@.len() && tvs.len() > 0);
                                assert(forall|x: int|
                                    0 <= x < tvs.len() ==> (#[trigger] tvs[x]).0 == tvs[0].0
                                        && tvs[x].1.len() == tvs[0].1.len());
                                assert(spec_poly_apply(op, tvs) == Result::<
                                    (Seq<usize>, Seq<i128>),
                                    GraphError,
                                >::Err(GraphError::Overflow));
                            }
                            return Err(GraphError::Overflow);
                        },
                    }
                    j = j + 1;
                }
                proof {
                    if add {
                        assert(next@ =~= sum2(acc@, b@));
                    } else {
                        assert(next@ =~= prod2(acc@, b@));
                    }
                }
                acc = next;
                k = k + 1;
            }
            proof {
                assert(tvs[0] == tview(ts@[0]));
            }
            let out = Tensor { dims: crate::tensor::clone_flat(&ts[0].dims), inner: acc };
            Ok(out)
        },
        PolyOp::Pack(base, scale0) => {
            if ts.len() != 1 {
                return Err(GraphError::InvalidDims);
            }
            proof {
                assert(tvs[0] == tview(ts@[0]));
            }
            let s = &ts[0].inner;
            let mut acc: i128 = 0;
            let mut i: usize = s.len();
            while i > 0
                invariant
                    i <= s@.len(),
                    tvs == tviews(ts@),
                    op == PolyOp::Pack(base, scale0),
                    ts@.len() == 1,
                    tvs[0].1 == s@,
                    acc as int == pack_val(s@, base as int, i as int),
                    forall|x: int|
                        i <= x < s@.len() ==> in_i128(base as int * (#[trigger] pack_val(
                            s@,
                            base as int,
                            x + 1,
                        ))),
                    forall|x: int|
                        i <= x < s@.len() ==> in_i128(#[trigger] pack_val(s@, base as int, x)),
                decreases i,
            {
                i = i - 1;
                proof {
                    assert(pack_val(s@, base as int, i as int) == s@[i as int] + base as int
                        * pack_val(s@, base as int, i as int + 1));
                }
                let scaled = (base as i128).checked_mul(acc);
                let v = match scaled {
                    Some(sc) => sc.checked_add(s[i]),
                    None => None,
                };
                match v {
                    Some(v2) => {
                        acc = v2;
                    },
                    None => {
                        proof {
                            assert(tviews(ts@)[0] == tview(ts@[0]));
                            if scaled is None {
                                assert(!in_i128(base as int * pack_val(s@, base as int, i as int
                                    + 1)));
                            } else {
                                assert(!in_i128(pack_val(s@, base as int, i as int)));
                            }
                            assert(!pack_fits(s@, base as int));
                            assert(spec_poly_apply(op, tvs) == Result::<
                                (Seq<usize>, Seq<i128>),
                                GraphError,
                            >::Err(GraphError::Overflow));
                        }
                        return Err(GraphError::Overflow);
                    },
                }
            }
            proof {
                assert(pack_fits(s@, base as int));
            }
            let mut dims: Vec<usize> = Vec::new();
            dims.push(1);
            let mut inner: Vec<i128> = Vec::new();
            inner.push(acc);
            let out = Tensor { dims, inner };
            proof {
                assert(out.dims@ =~= seq![1usize]);
                assert(out.inner@ =~= seq![pack_val(tvs[0].1, base as int, 0) as i128]);
            }
            Ok(out)
        },
    }
}

/// Once the fold has failed, longer folds report the same error.
proof fn lemma_fold_bin_err(add: bool, ts: Seq<(Seq<usize>, Seq<i128>)>, k0: int, k: int)
    requires
        1 <= k0 <= k,
        spec_fold_bin(add, ts, k0) is Err,
    ensures
        spec_fold_bin(add, ts, k) == spec_fold_bin(add, ts, k0),
    decreases k - k0,
{
    if k > k0 {
        lemma_fold_bin_err(add, ts, k0, k - 1);
    }
}


/// A packed value of nonnegative digits is nonnegative.
pub proof fn lemma_pack_nonneg(s: Seq<i128>, base: int, i: int)
    requires
        base >= 2,
        forall|j: int| 0 <= j < s.len() ==> 0 <= #[trigger] s[j],
    ensures
        pack_val(s, base, i) >= 0,
    decreases s.len() - i,
{
    if 0 <= i < s.len() {
        lemma_pack_nonneg(s, base, i + 1);
        vstd::arithmetic::mul::lemma_mul_inequality(0, pack_val(s, base, i + 1), base);
        assert(base * pack_val(s, base, i + 1) >= 0) by (nonlinear_arith)
            requires
                base >= 2,
                pack_val(s, base, i + 1) >= 0,
        ;
    }
}

/// Each digit and each tail of a packed value can be recovered by
/// remainder and quotient in the radix.
pub proof fn lemma_pack_digit(s: Seq<i128>, base: int, i: int)
    requires
        base >= 2,
        forall|j: int| 0 <= j < s.len() ==> 0 <= #[trigger] s[j] < base,
        0 <= i < s.len(),
    ensures
        pack_val(s, base, i) % base == s[i],
        pack_val(s, base, i) / base == pack_val(s, base, i + 1),
{
    lemma_pack_nonneg(s, base, i + 1);
    vstd::arithmetic::mul::lemma_mul_is_commutative(base, pack_val(s, base, i + 1));
    vstd::arithmetic::div_mod::lemma_fundamental_div_mod_converse(
        pack_val(s, base, i),
        base,
        pack_val(s, base, i + 1),
        s[i] as int,
    );
}

/// Packing is injective on in-range digit lists: two equal packed values
/// come from the same digits.
pub proof fn lemma_pack_injective(s1: Seq<i128>, s2: Seq<i128>, base: int)
    requires
        base >= 2,
        s1.len() == s2.len(),
        forall|j: int| 0 <= j < s1.len() ==> 0 <= #[trigger] s1[j] < base,
        forall|j: int| 0 <= j < s2.len() ==> 0 <= #[trigger] s2[j] < base,
        pack_val(s1, base, 0) == pack_val(s2, base, 0),
    ensures
        s1 =~= s2,
{
    lemma_pack_injective_from(s1, s2, base, 0);
    assert forall|j: int| 0 <= j < s1.len() implies s1[j] == s2[j] by {
        lemma_pack_injective_from(s1, s2, base, 0);
    };
}

/// Tails of equal packed values agree digit by digit.
proof fn lemma_pack_injective_from(s1: Seq<i128>, s2: Seq<i128>, base: int, i: int)
    requires
        base >= 2,
        s1.len() == s2.len(),
        forall|j: int| 0 <= j < s1.len() ==> 0 <= #[trigger] s1[j] < base,
        forall|j: int| 0 <= j < s2.len() ==> 0 <= #[trigger] s2[j] < base,
        0 <= i,
        pack_val(s1, base, i) == pack_val(s2, base, i),
    ensures
        forall|j: int| i <= j < s1.len() ==> s1[j] == s2[j],
    decreases s1.len() - i,
{
    if i < s1.len() {
        lemma_pack_digit(s1, base, i);
        lemma_pack_digit(s2, base, i);
        lemma_pack_injective_from(s1, s2, base, i + 1);
    }
}

/// The packed value of digits prepended with one more digit.
proof fn lemma_pack_shift(t: Seq<i128>, d: i128, base: int, i: int)
    requires
        i >= 0,
    ensures
        pack_val(seq![d] + t, base, i + 1) == pack_val(t, base, i),
    decreases t.len() - i,
{
    let s = seq![d] + t;
    if i < t.len() {
        assert(s[i + 1] == t[i]);
        lemma_pack_shift(t, d, base, i + 1);
    }
}

/// A packed value of in-range digits lies below the radix power.
pub proof fn lemma_pack_bound(s: Seq<i128>, base: int, i: int)
    requires
        base >= 2,
        forall|j: int| 0 <= j < s.len() ==> 0 <= #[trigger] s[j] < base,
        0 <= i <= s.len(),
    ensures
        pack_val(s, base, i) < vstd::arithmetic::power::pow(base, (s.len() - i) as nat),
    decreases s.len() - i,
{
    vstd::arithmetic::power::lemma_pow_positive(base, (s.len() - i) as nat);
    if i < s.len() {
        lemma_pack_bound(s, base, i + 1);
        lemma_pack_nonneg(s, base, i + 1);
        let q = pack_val(s, base, i + 1);
        let p = vstd::arithmetic::power::pow(base, (s.len() - i - 1) as nat);
        assert(vstd::arithmetic::power::pow(base, (s.len() - i) as nat) == base * p) by {
            vstd::arithmetic::power::lemma_pow1(base);
            vstd::arithmetic::power::lemma_pow_adds(base, 1nat, (s.len() - i - 1) as nat);
        };
        assert(base * q <= base * (p - 1)) by (nonlinear_arith)
            requires
                base >= 2,
                q <= p - 1,
        ;
        assert(s[i] + base * q < base * p) by (nonlinear_arith)
            requires
                s[i] < base,
                base * q <= base * (p - 1),
        ;
    }
}

/// Unpacks a value into `len` radix digits; the inverse of packing for
/// values in range.
pub fn unpack(v: i128, base: u32, len: usize) -> (r: Vec<i128>)
    requires
        base >= 2,
        0 <= v,
        v < vstd::arithmetic::power::pow(base as int, len as nat),
    ensures
        r@.len() == len,
        forall|j: int| 0 <= j < len ==> 0 <= #[trigger] r@[j] < base,
        pack_val(r@, base as int, 0) == v,
    decreases len,
{
    if len == 0 {
        let r: Vec<i128> = Vec::new();
        proof {
            vstd::arithmetic::power::lemma_pow0(base as int);
        }
        r
    } else {
        let d = v % (base as i128);
        let q = v / (base as i128);
        proof {
            vstd::arithmetic::div_mod::lemma_fundamental_div_mod(v as int, base as int);
            vstd::arithmetic::div_mod::lemma_mod_bound(v as int, base as int);
            vstd::arithmetic::div_mod::lemma_div_pos_is_pos(v as int, base as int);
            let p = vstd::arithmetic::power::pow(base as int, (len - 1) as nat);
            assert(vstd::arithmetic::power::pow(base as int, len as nat) == base * p) by {
                vstd::arithmetic::power::lemma_pow1(base as int);
                vstd::arithmetic::power::lemma_pow_adds(base as int, 1nat, (len - 1) as nat);
            };
            vstd::arithmetic::power::lemma_pow_positive(base as int, (len - 1) as nat);
            assert(v as int / (base as int) < p) by (nonlinear_arith)
                requires
                    v < base * p,
                    0 <= v,
                    base >= 2,
                    p > 0,
                    (base as int) * (v as int / (base as int)) + v as int % (base as int)
                        == v as int,
                    0 <= v as int % (base as int) < base,
            ;
        }
        let rest = unpack(q, base, len - 1);
        let mut r: Vec<i128> = Vec::new();
        r.push(d);
        let mut rest = rest;
        let ghost restv = rest@;
        r.append(&mut rest);
        proof {
            assert(r@ =~= seq![d] + restv);
            lemma_pack_shift(restv, d, base as int, 0);
            assert(pack_val(r@, base as int, 0) == d + base * pack_val(restv, base as int, 0));
        }
        r
    }
}

} // verus!
