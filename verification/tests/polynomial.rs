use tilings::math::polynomial::Polynomial;

fn test_new(coefficients: &[i64], expected: &[i64]) {
    let polynomial = Polynomial::new(coefficients.to_vec());
    let actual = polynomial.coefficients();
    assert_eq!(actual, expected);
}

fn test_eval(polynomial: Polynomial<i64>, value: i64, expected: i64) {
    let actual = polynomial.eval(value);
    assert_eq!(actual, expected);
}

fn test_display(polynomial: Polynomial<i64>, expected: &str) {
    let actual = polynomial.to_string();
    assert_eq!(actual, expected);
}

fn test_operation(
    lhs: Polynomial<i64>,
    rhs: Polynomial<i64>,
    expected: Polynomial<i64>,
    operation: fn(&Polynomial<i64>, &Polynomial<i64>) -> Polynomial<i64>,
) {
    let forward = operation(&lhs, &rhs);
    assert_eq!(forward, expected);

    let backward = operation(&rhs, &lhs);
    assert_eq!(backward, expected);
}

fn test_addition(lhs: Polynomial<i64>, rhs: Polynomial<i64>, expected: Polynomial<i64>) {
    test_operation(lhs, rhs, expected, |a, b| a + b);
}

fn test_multiplication(lhs: Polynomial<i64>, rhs: Polynomial<i64>, expected: Polynomial<i64>) {
    test_operation(lhs, rhs, expected, |a, b| a * b);
}

#[test]
fn singular_zero_coefficients() {
    test_new(&[0], &[])
}

#[test]
fn multiple_zero_coefficients() {
    test_new(&[0, 0, 0], &[])
}

#[test]
fn trailing_zero_coefficients() {
    test_new(&[1, 2, 0], &[1, 2])
}

#[test]
fn polynomial_zero() {
    let polynomial = Polynomial::<i64>::zero();
    let actual = polynomial.coefficients();
    assert_eq!(actual, &[]);

    test_eval(Polynomial::<i64>::zero(), 1, 0);
    test_display(Polynomial::<i64>::zero(), "0");
}

#[test]
fn polynomial_one() {
    let polynomial = Polynomial::<i64>::one();
    let actual = polynomial.coefficients();
    assert_eq!(actual, &[1]);

    test_eval(Polynomial::<i64>::one(), 0, 1);
    test_display(Polynomial::<i64>::one(), "1");
}

#[test]
fn polynomial_constant() {
    test_eval(Polynomial::new(vec![5]), 0, 5);
    test_display(Polynomial::new(vec![3]), "3");
}

#[test]
fn linear_at_zero() {
    test_eval(Polynomial::new(vec![2, 3]), 0, 2);
}

#[test]
fn linear_at_one() {
    test_eval(Polynomial::new(vec![2, 3]), 1, 5);
}

#[test]
fn linear_at_constant() {
    test_eval(Polynomial::new(vec![2, 3]), 2, 8);
}

#[test]
fn quadratic_at_zero() {
    test_eval(Polynomial::new(vec![3, 6, 9]), 0, 3);
}

#[test]
fn quadratic_at_one() {
    test_eval(Polynomial::new(vec![3, 6, 9]), 1, 18);
}

#[test]
fn quadratic_at_constant() {
    test_eval(Polynomial::new(vec![3, 6, 9]), 2, 51);
}

#[test]
fn linear() {
    test_display(Polynomial::new(vec![1, 9]), "9x + 1");
}

#[test]
fn quadratic() {
    test_display(Polynomial::new(vec![0, 2, -3]), "-3x^2 + 2x");
}

#[test]
fn cubic() {
    test_display(Polynomial::new(vec![-4, 0, -7, 1]), "x^3 - 7x^2 - 4");
}

#[test]
fn zero_plus_zero() {
    test_addition(Polynomial::zero(), Polynomial::zero(), Polynomial::zero());
}

#[test]
fn zero_plus_constant() {
    test_addition(
        Polynomial::zero(),
        Polynomial::new(vec![5]),
        Polynomial::new(vec![5]),
    );
}

#[test]
fn zero_plus_linear() {
    test_addition(
        Polynomial::zero(),
        Polynomial::new(vec![5, 7]),
        Polynomial::new(vec![5, 7]),
    );
}

#[test]
fn one_plus_constant() {
    test_addition(
        Polynomial::one(),
        Polynomial::new(vec![3]),
        Polynomial::new(vec![4]),
    );
}

#[test]
fn one_plus_linear() {
    test_addition(
        Polynomial::one(),
        Polynomial::new(vec![2, 3]),
        Polynomial::new(vec![3, 3]),
    );
}

#[test]
fn constant_plus_constant() {
    test_addition(
        Polynomial::new(vec![2]),
        Polynomial::new(vec![3]),
        Polynomial::new(vec![5]),
    );
}

#[test]
fn constant_plus_linear() {
    test_addition(
        Polynomial::new(vec![2]),
        Polynomial::new(vec![2, 3]),
        Polynomial::new(vec![4, 3]),
    );
}

#[test]
fn linear_plus_linear() {
    test_addition(
        Polynomial::new(vec![2, 1]),
        Polynomial::new(vec![5, 3]),
        Polynomial::new(vec![7, 4]),
    );
}

#[test]
fn quadratic_plus_quadratic() {
    test_addition(
        Polynomial::new(vec![6, 2, 4]),
        Polynomial::new(vec![3, 1, 5]),
        Polynomial::new(vec![9, 3, 9]),
    );
}

#[test]
fn zero_times_zero() {
    test_multiplication(Polynomial::zero(), Polynomial::zero(), Polynomial::zero());
}

#[test]
fn zero_times_constant() {
    test_multiplication(
        Polynomial::zero(),
        Polynomial::new(vec![5]),
        Polynomial::zero(),
    );
}

#[test]
fn zero_times_linear() {
    test_multiplication(
        Polynomial::zero(),
        Polynomial::new(vec![5, 7]),
        Polynomial::zero(),
    );
}

#[test]
fn one_times_constant() {
    test_multiplication(
        Polynomial::one(),
        Polynomial::new(vec![3]),
        Polynomial::new(vec![3]),
    );
}

#[test]
fn one_times_linear() {
    test_multiplication(
        Polynomial::one(),
        Polynomial::new(vec![2, 3]),
        Polynomial::new(vec![2, 3]),
    );
}

#[test]
fn constant_times_constant() {
    test_multiplication(
        Polynomial::new(vec![2]),
        Polynomial::new(vec![3]),
        Polynomial::new(vec![6]),
    );
}

#[test]
fn constant_times_linear() {
    test_multiplication(
        Polynomial::new(vec![2]),
        Polynomial::new(vec![2, 3]),
        Polynomial::new(vec![4, 6]),
    );
}

#[test]
fn linear_times_linear() {
    test_multiplication(
        Polynomial::new(vec![2, 1]),
        Polynomial::new(vec![5, 3]),
        Polynomial::new(vec![10, 11, 3]),
    );
}

#[test]
fn quadratic_times_quadratic() {
    test_multiplication(
        Polynomial::new(vec![6, 2, 4]),
        Polynomial::new(vec![3, 1, 5]),
        Polynomial::new(vec![18, 12, 44, 14, 20]),
    );
}

#[test]
fn order_counts_the_coefficients_that_are_kept() {
    assert_eq!(Polynomial::<i64>::zero().order(), 0);
    assert_eq!(Polynomial::new(vec![0, 0, 7, 0, 0]).order(), 3);
    assert_eq!(Polynomial::new(vec![0, 0, 7, 0, 0]).coefficients(), &[0, 0, 7]);
    assert!(Polynomial::new(vec![0, 0]).is_zero());
    assert!(!Polynomial::new(vec![0, 1]).is_zero());
}

#[test]
fn sums_and_products_lose_the_zeros_at_their_end() {
    let sum = Polynomial::new(vec![1, 2, 3]).sum(&Polynomial::new(vec![4, -2, -3]));
    assert_eq!(sum.coefficients(), &[5]);
    let cancelled = Polynomial::new(vec![1, 2]).sum(&Polynomial::new(vec![-1, -2]));
    assert!(cancelled.is_zero());
    let product = Polynomial::new(vec![1, 1]).product(&Polynomial::new(vec![-1, 1]));
    assert_eq!(product.coefficients(), &[-1, 0, 1]);
}

#[test]
fn value_at_a_negative_number() {
    // 4 - 3x + 2x^2 - x^3 at -2 is 4 + 6 + 8 + 8.
    test_eval(Polynomial::new(vec![4, -3, 2, -1]), -2, 26);
    // The last power that is needed is the last that is computed.
    test_eval(Polynomial::new(vec![0, 1]), i64::MAX, i64::MAX);
}

#[test]
fn text_of_signs_ones_and_gaps() {
    test_display(Polynomial::new(vec![-1]), "-1");
    test_display(Polynomial::new(vec![0, -1]), "-x");
    test_display(Polynomial::new(vec![1, 1]), "x + 1");
    test_display(Polynomial::new(vec![-1, -1, -1]), "-x^2 - x - 1");
    test_display(Polynomial::new(vec![0, 0, 0, 0, 0, 0, 0, 0, 0, 0, 0, 0, 5]), "5x^12");
    test_display(Polynomial::new(vec![i64::MIN, i64::MAX]), "9223372036854775807x - 9223372036854775808");
}

#[test]
fn arithmetic_that_leaves_the_range_is_refused() {
    assert_eq!(Polynomial::new(vec![0, 1]).checked_eval(i64::MAX), Some(i64::MAX));
    assert_eq!(Polynomial::new(vec![1, 1]).checked_eval(i64::MAX), None);
    assert_eq!(Polynomial::new(vec![0, 0, 1]).checked_eval(1 << 32), None);
    assert_eq!(Polynomial::new(vec![3, 6, 9]).checked_eval(2), Some(51));
    assert_eq!(Polynomial::<i64>::zero().checked_eval(i64::MIN), Some(0));

    let largest = Polynomial::new(vec![5, i64::MAX]);
    assert_eq!(largest.checked_sum(&Polynomial::new(vec![0, 1])), None);
    assert_eq!(
        largest.checked_sum(&Polynomial::new(vec![-5, -1])),
        Some(Polynomial::new(vec![0, i64::MAX - 1]))
    );
    assert_eq!(largest.checked_product(&Polynomial::new(vec![2])), None);
    assert_eq!(
        largest.checked_product(&Polynomial::new(vec![0, 1])),
        Some(Polynomial::new(vec![0, 5, i64::MAX]))
    );
    assert_eq!(
        largest.checked_product(&Polynomial::zero()),
        Some(Polynomial::zero())
    );
}

#[test]
fn operators_take_values_and_references() {
    let a = Polynomial::new(vec![2, 1]);
    let b = Polynomial::new(vec![5, 3]);
    let sum = Polynomial::new(vec![7, 4]);
    let product = Polynomial::new(vec![10, 11, 3]);
    assert_eq!(&a + &b, sum);
    assert_eq!(a.clone() + &b, sum);
    assert_eq!(&a + b.clone(), sum);
    assert_eq!(a.clone() + b.clone(), sum);
    assert_eq!(&a * &b, product);
    assert_eq!(a.clone() * &b, product);
    assert_eq!(&a * b.clone(), product);
    assert_eq!(a * b, product);
}
