//! The computations that the hub's clients hand to a worker: Fibonacci
//! numbers and factorials of any size.
//!
//! The numbers are held as sequences of 32-bit limbs. The arithmetic on
//! them is `num_bigint`'s; what is proved here is that the two loops
//! compute what they are named after.

use num_bigint::BigUint;
use vstd::prelude::*;

verus! {

/// The number that `limbs` writes in base 2^32, least significant limb
/// first.
pub open spec fn limbs_value(limbs: Seq<u32>) -> nat
    decreases limbs.len(),
{
    if limbs.len() == 0 {
        0
    } else {
        limbs[0] as nat + 0x1_0000_0000 * limbs_value(limbs.drop_first())
    }
}

/// The Fibonacci numbers: 0, 1, and from there on the sum of the two
/// before.
pub open spec fn fibonacci_number(n: nat) -> nat
    decreases n,
{
    if n == 0 {
        0
    } else if n == 1 {
        1
    } else {
        fibonacci_number((n - 1) as nat) + fibonacci_number((n - 2) as nat)
    }
}

/// The product of the numbers from 1 to `n`.
pub open spec fn factorial_number(n: nat) -> nat
    decreases n,
{
    if n == 0 {
        1
    } else {
        n * factorial_number((n - 1) as nat)
    }
}

/// The sum of two numbers given by their limbs: `num_bigint`'s addition of
/// two `BigUint`s (`Add::add`), between `BigUint::from_slice`, which reads
/// limbs of base 2^32, least significant first, and
/// `BigUint::to_u32_digits`, which writes them so. Not proved here: that
/// the limbs returned write the sum of the numbers that `a` and `b` write.
#[verifier::external_body]
fn limbs_add(a: &Vec<u32>, b: &Vec<u32>) -> (sum: Vec<u32>)
    ensures
        limbs_value(sum@) == limbs_value(a@) + limbs_value(b@),
{
    (BigUint::from_slice(a) + BigUint::from_slice(b)).to_u32_digits()
}

/// The product of a number given by its limbs and a 64-bit number:
/// `num_bigint`'s multiplication of a `BigUint` by a `u64` (`Mul::mul`),
/// between `BigUint::from_slice` and `BigUint::to_u32_digits` as in
/// `limbs_add`. Not proved here: that the limbs returned write the product
/// of the number that `a` writes and `factor`.
#[verifier::external_body]
fn limbs_mul(a: &Vec<u32>, factor: u64) -> (product: Vec<u32>)
    ensures
        limbs_value(product@) == limbs_value(a@) * factor,
{
    (BigUint::from_slice(a) * factor).to_u32_digits()
}

/// A natural number of any size.
#[derive(Debug)]
pub struct Natural {
    /// The number in base 2^32, least significant limb first.
    limbs: Vec<u32>,
}

impl View for Natural {
    type V = nat;

    closed spec fn view(&self) -> nat {
        limbs_value(self.limbs@)
    }
}

impl Natural {
    /// The limbs of the number in base 2^32, least significant first.
    pub closed spec fn limbs_view(&self) -> Seq<u32> {
        self.limbs@
    }

    /// The number zero.
    pub fn zero() -> (number: Self)
        ensures
            number@ == 0,
    {
        Natural { limbs: Vec::new() }
    }

    /// The number one.
    pub fn one() -> (number: Self)
        ensures
            number@ == 1,
    {
        let mut limbs: Vec<u32> = Vec::new();
        limbs.push(1);
        proof {
            assert(limbs@.drop_first() =~= Seq::<u32>::empty());
            assert(limbs_value(limbs@.drop_first()) == 0);
        }
        Natural { limbs }
    }

    /// The sum of this number and `other`.
    pub fn plus(&self, other: &Natural) -> (sum: Natural)
        ensures
            sum@ == self@ + other@,
    {
        Natural { limbs: limbs_add(&self.limbs, &other.limbs) }
    }

    /// The product of this number and `factor`.
    pub fn times(&self, factor: u64) -> (product: Natural)
        ensures
            product@ == self@ * factor,
    {
        Natural { limbs: limbs_mul(&self.limbs, factor) }
    }

    /// The limbs of the number in base 2^32, least significant first.
    pub fn limbs(&self) -> (limbs: &Vec<u32>)
        ensures
            limbs@ == self.limbs_view(),
            limbs_value(limbs@) == self@,
    {
        &self.limbs
    }
}

/// The Fibonacci number of index `n`.
pub fn fibonacci(n: u64) -> (number: Natural)
    ensures
        number@ == fibonacci_number(n as nat),
{
    let mut current = Natural::zero();
    let mut following = Natural::one();
    let mut i: u64 = 0;
    while i < n
        invariant
            i <= n,
            current@ == fibonacci_number(i as nat),
            following@ == fibonacci_number((i + 1) as nat),
        decreases n - i,
    {
        let sum = current.plus(&following);
        current = following;
        following = sum;
        i = i + 1;
    }
    current
}

/// The factorial of `n`.
pub fn factorial(n: u64) -> (number: Natural)
    ensures
        number@ == factorial_number(n as nat),
{
    let mut product = Natural::one();
    let mut i: u64 = 0;
    while i < n
        invariant
            i <= n,
            product@ == factorial_number(i as nat),
        decreases n - i,
    {
        i = i + 1;
        product = product.times(i);
        proof {
            assert(product@ == factorial_number((i - 1) as nat) * i);
            assert(factorial_number(i as nat) == i * factorial_number((i - 1) as nat));
            assert(factorial_number((i - 1) as nat) * i == i * factorial_number((i - 1) as nat))
                by (nonlinear_arith);
        }
    }
    product
}

} // verus!
