use vstd::prelude::*;

verus! {

/// The arithmetic that a matrix needs of its elements.
///
/// Every executable operation is a pure function of its operands, named by the
/// specification function beside it. An implementation says what each of the
/// five is; the matrices are verified for whatever they are.
pub trait Scalar: Copy {
    /// The additive identity that a fresh accumulator starts from.
    spec fn spec_zero() -> Self;

    /// The value on the main diagonal of an identity matrix.
    spec fn spec_one() -> Self;

    spec fn spec_plus(self, rhs: Self) -> Self;

    spec fn spec_minus(self, rhs: Self) -> Self;

    spec fn spec_times(self, rhs: Self) -> Self;

    fn zero() -> (r: Self)
        ensures
            r == Self::spec_zero(),
    ;

    fn one() -> (r: Self)
        ensures
            r == Self::spec_one(),
    ;

    fn plus(self, rhs: Self) -> (r: Self)
        ensures
            r == self.spec_plus(rhs),
    ;

    fn minus(self, rhs: Self) -> (r: Self)
        ensures
            r == self.spec_minus(rhs),
    ;

    fn times(self, rhs: Self) -> (r: Self)
        ensures
            r == self.spec_times(rhs),
    ;
}

/// An operation that is carried out position by position.
#[derive(Debug)]
pub enum ElementOp<T: Scalar> {
    /// The left element plus the right one.
    Plus,
    /// The left element minus the right one.
    Minus,
    /// The left element times a fixed scalar; the right element is not read.
    Times(T),
}

impl<T: Scalar> Clone for ElementOp<T> {
    fn clone(&self) -> (r: Self)
        ensures
            r == *self,
    {
        *self
    }
}

impl<T: Scalar> Copy for ElementOp<T> {

}

impl<T: Scalar> ElementOp<T> {
    pub open spec fn spec_apply(self, x: T, y: T) -> T {
        match self {
            ElementOp::Plus => x.spec_plus(y),
            ElementOp::Minus => x.spec_minus(y),
            ElementOp::Times(scalar) => x.spec_times(scalar),
        }
    }

    pub fn apply(self, x: T, y: T) -> (r: T)
        ensures
            r == self.spec_apply(x, y),
    {
        match self {
            ElementOp::Plus => x.plus(y),
            ElementOp::Minus => x.minus(y),
            ElementOp::Times(scalar) => x.times(scalar),
        }
    }
}

/// The identities of a ring that the identity law of multiplication rests on:
/// zero is neutral for addition on both sides, one is neutral for multiplication
/// on the right, and zero absorbs on the right.
pub open spec fn has_ring_identities<T: Scalar>() -> bool {
    &&& forall|x: T| #[trigger] T::spec_zero().spec_plus(x) == x
    &&& forall|x: T| #[trigger] x.spec_plus(T::spec_zero()) == x
    &&& forall|x: T| #[trigger] x.spec_times(T::spec_one()) == x
    &&& forall|x: T| #[trigger] x.spec_times(T::spec_zero()) == T::spec_zero()
}

/// Two's-complement integers: addition, subtraction and multiplication wrap, so
/// no operand overflows and the ring identities hold without exception.
impl Scalar for i64 {
    open spec fn spec_zero() -> Self {
        0i64
    }

    open spec fn spec_one() -> Self {
        1i64
    }

    open spec fn spec_plus(self, rhs: Self) -> Self {
        vstd::wrapping::i64_specs::wrapping_add(self, rhs)
    }

    open spec fn spec_minus(self, rhs: Self) -> Self {
        vstd::wrapping::i64_specs::wrapping_sub(self, rhs)
    }

    open spec fn spec_times(self, rhs: Self) -> Self {
        vstd::wrapping::i64_specs::wrapping_mul(self, rhs)
    }

    fn zero() -> (r: Self) {
        0i64
    }

    fn one() -> (r: Self) {
        1i64
    }

    fn plus(self, rhs: Self) -> (r: Self) {
        self.wrapping_add(rhs)
    }

    fn minus(self, rhs: Self) -> (r: Self) {
        self.wrapping_sub(rhs)
    }

    fn times(self, rhs: Self) -> (r: Self) {
        self.wrapping_mul(rhs)
    }
}

/// Wrapping 64-bit integers satisfy the ring identities.
pub proof fn lemma_i64_has_ring_identities()
    ensures
        has_ring_identities::<i64>(),
{
    assert forall|x: i64| #[trigger] x.spec_times(1i64) == x by {
        assert(x * 1 == x) by (nonlinear_arith);
        if x >= 0 {
            assert((x as int) % 0x1_0000_0000_0000_0000 == x as int) by (nonlinear_arith)
                requires
                    0 <= x as int,
                    (x as int) < 0x1_0000_0000_0000_0000,
            ;
        } else {
            assert((x as int) % 0x1_0000_0000_0000_0000 == x as int + 0x1_0000_0000_0000_0000)
                by (nonlinear_arith)
                requires
                    -0x1_0000_0000_0000_0000 < x as int,
                    (x as int) < 0,
            ;
        }
    }
    assert forall|x: i64| #[trigger] x.spec_times(0i64) == 0i64 by {
        assert(x * 0 == 0) by (nonlinear_arith);
    }
}

} // verus!
