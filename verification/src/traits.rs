use vstd::prelude::*;

verus! {

/// Error taxonomy of the streaming runtime.
///
/// `InvalidInput` rejects zero-length transfers and contradictory stream
/// configuration; `WouldBlock` reports an operation that cannot proceed
/// without waiting; `Closed` reports a write against a closed stream;
/// `Driver` and `Format` carry hardware and codec failures in from the
/// unverified edges of a program.
#[derive(Clone, Copy, Debug, PartialEq, Eq, Structural)]
pub enum SdrError {
    InvalidInput,
    WouldBlock,
    Closed,
    Driver,
    Format,
}

/// A block that produces samples into a caller-supplied buffer.
pub trait Source<I> {
    fn read(&mut self, dst: &mut Vec<I>) -> Result<(), SdrError>;
}

/// A streaming transducer: consumes an input slice, replaces `output` with
/// the produced samples.
pub trait Filter<I, O> {
    fn filter(&mut self, input: &[I], output: &mut Vec<O>) -> Result<(), SdrError>;
}

/// A block that consumes samples, honouring back-pressure as it sees fit.
pub trait Sink<O> {
    fn write(&mut self, src: &[O]) -> Result<(), SdrError>;
}

/// The numeric capability set the filter blocks need from a sample type:
/// zero, one, addition and multiplication, each pinned to its own
/// specification function so that filter contracts can speak about the exact
/// values produced.
pub trait Arithmetic: Sized + Copy {
    spec fn zero_spec() -> Self;

    spec fn one_spec() -> Self;

    spec fn add_spec(a: Self, b: Self) -> Self;

    spec fn mul_spec(a: Self, b: Self) -> Self;

    fn zero() -> (r: Self)
        ensures
            r == Self::zero_spec(),
    ;

    fn one() -> (r: Self)
        ensures
            r == Self::one_spec(),
    ;

    fn add(a: Self, b: Self) -> (r: Self)
        ensures
            r == Self::add_spec(a, b),
    ;

    fn mul(a: Self, b: Self) -> (r: Self)
        ensures
            r == Self::mul_spec(a, b),
    ;
}

impl Arithmetic for i64 {
    open spec fn zero_spec() -> i64 {
        0
    }

    open spec fn one_spec() -> i64 {
        1
    }

    open spec fn add_spec(a: i64, b: i64) -> i64 {
        a.wrapping_add(b)
    }

    open spec fn mul_spec(a: i64, b: i64) -> i64 {
        a.wrapping_mul(b)
    }

    fn zero() -> (r: i64) {
        0
    }

    fn one() -> (r: i64) {
        1
    }

    fn add(a: i64, b: i64) -> (r: i64) {
        a.wrapping_add(b)
    }

    fn mul(a: i64, b: i64) -> (r: i64) {
        a.wrapping_mul(b)
    }
}

/// A complex sample in exact integer arithmetic: the real and imaginary parts
/// of an IQ pair.  Arithmetic is componentwise wrapping addition and the
/// usual complex product.
#[derive(Clone, Copy, Debug, PartialEq, Eq, Structural)]
pub struct Cplx {
    pub re: i64,
    pub im: i64,
}

impl Arithmetic for Cplx {
    open spec fn zero_spec() -> Cplx {
        Cplx { re: 0, im: 0 }
    }

    open spec fn one_spec() -> Cplx {
        Cplx { re: 1, im: 0 }
    }

    open spec fn add_spec(a: Cplx, b: Cplx) -> Cplx {
        Cplx { re: a.re.wrapping_add(b.re), im: a.im.wrapping_add(b.im) }
    }

    open spec fn mul_spec(a: Cplx, b: Cplx) -> Cplx {
        Cplx {
            re: a.re.wrapping_mul(b.re).wrapping_sub(a.im.wrapping_mul(b.im)),
            im: a.re.wrapping_mul(b.im).wrapping_add(a.im.wrapping_mul(b.re)),
        }
    }

    fn zero() -> (r: Cplx) {
        Cplx { re: 0, im: 0 }
    }

    fn one() -> (r: Cplx) {
        Cplx { re: 1, im: 0 }
    }

    fn add(a: Cplx, b: Cplx) -> (r: Cplx) {
        Cplx { re: a.re.wrapping_add(b.re), im: a.im.wrapping_add(b.im) }
    }

    fn mul(a: Cplx, b: Cplx) -> (r: Cplx) {
        Cplx {
            re: a.re.wrapping_mul(b.re).wrapping_sub(a.im.wrapping_mul(b.im)),
            im: a.re.wrapping_mul(b.im).wrapping_add(a.im.wrapping_mul(b.re)),
        }
    }
}

} // verus!
