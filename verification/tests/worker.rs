use chat_hub::worker::{factorial, fibonacci, Natural};
use num_bigint::BigUint;

fn value(number: &Natural) -> BigUint {
    BigUint::new(number.limbs().clone())
}

#[test]
fn small_naturals() {
    assert_eq!(value(&Natural::zero()), BigUint::from(0u32));
    assert_eq!(value(&Natural::one()), BigUint::from(1u32));
    let two = Natural::one().plus(&Natural::one());
    assert_eq!(two.limbs(), &vec![2u32]);
    assert_eq!(two.times(21).limbs(), &vec![42u32]);
    assert_eq!(value(&two.times(0)), BigUint::from(0u32));
}

#[test]
fn natural_arithmetic_carries_over_limbs() {
    let mut number = Natural::one();
    for _ in 0..32 {
        number = number.plus(&number);
    }
    assert_eq!(number.limbs(), &vec![0u32, 1u32]);
    let large = number.times(u64::MAX);
    assert_eq!(
        value(&large),
        (BigUint::from(1u64 << 32)) * BigUint::from(u64::MAX)
    );
    assert_eq!(large.limbs(), &vec![0u32, u32::MAX, u32::MAX]);
}

#[test]
fn first_fibonacci_numbers() {
    let expected: [u32; 13] = [0, 1, 1, 2, 3, 5, 8, 13, 21, 34, 55, 89, 144];
    for (n, number) in expected.iter().enumerate() {
        assert_eq!(value(&fibonacci(n as u64)), BigUint::from(*number));
    }
}

#[test]
fn large_fibonacci_number() {
    let expected = "354224848179261915075".parse::<BigUint>().unwrap();
    assert_eq!(value(&fibonacci(100)), expected);
    assert_eq!(
        value(&fibonacci(123)).to_string(),
        "22698374052006863956975682"
    );
}

#[test]
fn first_factorials() {
    let expected: [u32; 8] = [1, 1, 2, 6, 24, 120, 720, 5040];
    for (n, number) in expected.iter().enumerate() {
        assert_eq!(value(&factorial(n as u64)), BigUint::from(*number));
    }
}

#[test]
fn large_factorial() {
    assert_eq!(
        value(&factorial(20)),
        BigUint::from(2432902008176640000u64)
    );
    assert_eq!(
        value(&factorial(30)).to_string(),
        "265252859812191058636308480000000"
    );
}
