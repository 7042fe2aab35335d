use tilings::numerics::primes::nth_prime;

#[test]
fn the_first_primes() {
    let expected = [2, 3, 5, 7, 11, 13, 17, 19, 23, 29];
    for (i, &prime) in expected.iter().enumerate() {
        assert_eq!(nth_prime(i + 1), Some(prime));
    }
    assert_eq!(nth_prime(100), Some(541));
    assert_eq!(nth_prime(1000), Some(7919));
}
