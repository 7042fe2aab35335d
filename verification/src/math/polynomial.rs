//! Polynomials in one variable, as the list of their coefficients from the constant
//! term upwards. Arithmetic is given for coefficients of type `i64` and is exact: the
//! `checked_` functions give `None` where a step leaves the range of `i64`, and the
//! others, with the operators `+` and `*`, ask that none does.

use crate::geometry::separated::append_text;
use crate::numerics::characters::string_of;
use crate::numerics::decimal::{number_text, write_number};
use num_traits::{One, Zero};
use vstd::prelude::*;

verus! {

/// A polynomial, held as its coefficients from the constant term upwards.
#[derive(Debug, PartialEq, Clone)]
pub struct Polynomial<T> {
    coefficients: Vec<T>,
}

impl<T> View for Polynomial<T> {
    type V = Seq<T>;

    /// The coefficients, from the constant term upwards.
    closed spec fn view(&self) -> Seq<T> {
        self.coefficients@
    }
}

/// `num_traits::Zero::zero` for `i64` is the number 0.
pub assume_specification[ <i64 as Zero>::zero ]() -> (zero: i64)
    ensures
        zero == 0,
;

/// `num_traits::Zero::is_zero` for `i64` says whether the number is 0.
pub assume_specification[ <i64 as Zero>::is_zero ](value: &i64) -> (is_zero: bool)
    ensures
        is_zero == (*value == 0),
;

/// `num_traits::One::one` for `i64` is the number 1.
pub assume_specification[ <i64 as One>::one ]() -> (one: i64)
    ensures
        one == 1,
;

/// `num_traits::One::is_one` for `u64` says whether the number is 1.
pub assume_specification[ <u64 as One>::is_one ](value: &u64) -> (is_one: bool)
    ensures
        is_one == (*value == 1),
;

/// `coefficients` without the zeros at its end.
pub open spec fn trim(coefficients: Seq<i64>) -> Seq<i64>
    decreases coefficients.len(),
{
    if coefficients.len() == 0 || coefficients.last() != 0 {
        coefficients
    } else {
        trim(coefficients.drop_last())
    }
}

/// Whether `v` is in the range of `i64`.
pub open spec fn fits(v: int) -> bool {
    i64::MIN <= v <= i64::MAX
}

/// The coefficient of degree `i`, which is 0 from the length of the list on.
pub open spec fn coefficient(coefficients: Seq<i64>, i: int) -> int {
    if 0 <= i < coefficients.len() {
        coefficients[i] as int
    } else {
        0
    }
}

/// `x` to the power `k`.
pub open spec fn power(x: int, k: nat) -> int
    decreases k,
{
    if k == 0 {
        1
    } else {
        power(x, (k - 1) as nat) * x
    }
}

/// The value at `x` of the terms of degree below `count`.
pub open spec fn value_of_first(coefficients: Seq<i64>, x: int, count: nat) -> int
    decreases count,
{
    if count == 0 {
        0
    } else {
        value_of_first(coefficients, x, (count - 1) as nat) + coefficients[count - 1] * power(
            x,
            (count - 1) as nat,
        )
    }
}

/// The value of the polynomial at `x`.
pub open spec fn value_at(coefficients: Seq<i64>, x: int) -> int {
    value_of_first(coefficients, x, coefficients.len())
}

/// Whether the term of degree `k` can be added to the terms below it within `i64`:
/// the power, the term and the sum up to it all fit.
pub open spec fn term_fits(coefficients: Seq<i64>, x: int, k: int) -> bool {
    &&& fits(power(x, k as nat))
    &&& fits(coefficients[k] * power(x, k as nat))
    &&& fits(value_of_first(coefficients, x, (k + 1) as nat))
}

/// Whether the polynomial can be evaluated at `x` term by term within `i64`.
pub open spec fn can_evaluate(coefficients: Seq<i64>, x: int) -> bool {
    forall|k: int| 0 <= k < coefficients.len() ==> #[trigger] term_fits(coefficients, x, k)
}

/// The sum of the coefficients of degree `i`.
pub open spec fn sum_at(left: Seq<i64>, right: Seq<i64>, i: int) -> int {
    coefficient(left, i) + coefficient(right, i)
}

/// The longer of two lengths.
pub open spec fn longer(a: nat, b: nat) -> nat {
    if a >= b {
        a
    } else {
        b
    }
}

/// Whether two polynomials can be added within `i64`.
pub open spec fn can_add(left: Seq<i64>, right: Seq<i64>) -> bool {
    forall|i: int| 0 <= i < longer(left.len(), right.len()) ==> fits(#[trigger] sum_at(left, right, i))
}

/// The sum of two polynomials: the sums of their coefficients, without zeros at the end.
pub open spec fn sum_of(left: Seq<i64>, right: Seq<i64>) -> Seq<i64> {
    trim(Seq::new(longer(left.len(), right.len()), |i: int| sum_at(left, right, i) as i64))
}

/// What the coefficient of degree `i` of `left` adds to the coefficient of degree `k`
/// of the product.
pub open spec fn product_term(left: Seq<i64>, right: Seq<i64>, k: int, i: int) -> int {
    if 0 <= i < left.len() && 0 <= k - i < right.len() {
        left[i] * right[k - i]
    } else {
        0
    }
}

/// What the first `count` coefficients of `left` add to the coefficient of degree `k`
/// of the product.
pub open spec fn product_of_first(left: Seq<i64>, right: Seq<i64>, k: int, count: nat) -> int
    decreases count,
{
    if count == 0 {
        0
    } else {
        product_of_first(left, right, k, (count - 1) as nat) + product_term(
            left,
            right,
            k,
            count - 1,
        )
    }
}

/// The coefficient of degree `k` of the product.
pub open spec fn product_at(left: Seq<i64>, right: Seq<i64>, k: int) -> int {
    product_of_first(left, right, k, left.len())
}

/// The number of coefficients of a product before zeros are taken from its end.
pub open spec fn product_len(left: Seq<i64>, right: Seq<i64>) -> nat {
    if left.len() == 0 || right.len() == 0 {
        0
    } else {
        (left.len() + right.len() - 1) as nat
    }
}

/// Whether the step for the coefficient of degree `i` of `left` stays within `i64`
/// while the coefficient of degree `k` of the product is summed up.
pub open spec fn product_step_fits(left: Seq<i64>, right: Seq<i64>, k: int, i: int) -> bool {
    &&& fits(product_term(left, right, k, i))
    &&& fits(product_of_first(left, right, k, (i + 1) as nat))
}

/// Whether two polynomials can be multiplied within `i64`, each coefficient of the
/// product being summed up from the lowest degree of `left`.
pub open spec fn can_multiply(left: Seq<i64>, right: Seq<i64>) -> bool {
    forall|k: int, i: int|
        0 <= k < product_len(left, right) && 0 <= i < left.len() ==> #[trigger] product_step_fits(
            left,
            right,
            k,
            i,
        )
}

/// The product of two polynomials, without zeros at the end.
pub open spec fn product_of(left: Seq<i64>, right: Seq<i64>) -> Seq<i64> {
    trim(Seq::new(product_len(left, right), |k: int| product_at(left, right, k) as i64))
}

/// A list and the list with a zero more at its end trim to the same.
proof fn lemma_trim_drops_zero(coefficients: Seq<i64>)
    requires
        coefficients.len() > 0,
        coefficients.last() == 0,
    ensures
        trim(coefficients) == trim(coefficients.drop_last()),
{
}

impl<T> Polynomial<T> {
    /// The coefficients, from the constant term upwards.
    pub fn coefficients(&self) -> (coefficients: &[T])
        ensures
            coefficients@ == self@,
    {
        self.coefficients.as_slice()
    }

    /// The number of coefficients.
    pub fn order(&self) -> (order: usize)
        ensures
            order == self@.len(),
    {
        self.coefficients.len()
    }
}

impl Polynomial<i64> {
    /// The polynomial with the given coefficients; zeros at the end of the list are
    /// dropped.
    pub fn new(coefficients: Vec<i64>) -> (polynomial: Self)
        ensures
            polynomial@ == trim(coefficients@),
    {
        let mut coefficients = coefficients;
        let ghost given = coefficients@;
        while coefficients.len() > 0 && coefficients[coefficients.len() - 1].is_zero()
            invariant
                trim(coefficients@) == trim(given),
            decreases coefficients.len(),
        {
            proof {
                lemma_trim_drops_zero(coefficients@);
            }
            coefficients.pop();
        }
        Polynomial { coefficients }
    }

    /// The polynomial without terms.
    pub fn zero() -> (polynomial: Self)
        ensures
            polynomial@ == Seq::<i64>::empty(),
    {
        Polynomial::new(Vec::new())
    }

    /// Whether the polynomial has no terms.
    pub fn is_zero(&self) -> (is_zero: bool)
        ensures
            is_zero == (self@.len() == 0),
    {
        self.coefficients.len() == 0
    }

    /// The constant polynomial 1.
    pub fn one() -> (polynomial: Self)
        ensures
            polynomial@ == seq![1i64],
    {
        let mut coefficients: Vec<i64> = Vec::new();
        coefficients.push(i64::one());
        assert(coefficients@ =~= seq![1i64]);
        Polynomial::new(coefficients)
    }

    /// The value of the polynomial at `value`, summed up from the constant term, or
    /// `None` where a step leaves the range of `i64`.
    pub fn checked_eval(&self, value: i64) -> (result: Option<i64>)
        ensures
            result is Some <==> can_evaluate(self@, value as int),
            result matches Some(v) ==> v == value_at(self@, value as int),
    {
        let mut result: i64 = i64::zero();
        let mut power_of_value: i64 = i64::one();
        let mut i: usize = 0;
        while i < self.coefficients.len()
            invariant
                i <= self.coefficients.len(),
                forall|k: int| 0 <= k < i ==> #[trigger] term_fits(self@, value as int, k),
                result == value_of_first(self@, value as int, i as nat),
                i < self.coefficients.len() ==> power_of_value == power(value as int, i as nat),
            decreases self.coefficients.len() - i,
        {
            let term = match self.coefficients[i].checked_mul(power_of_value) {
                Some(term) => term,
                None => {
                    assert(!term_fits(self@, value as int, i as int));
                    return None;
                },
            };
            result = match result.checked_add(term) {
                Some(sum) => sum,
                None => {
                    assert(!term_fits(self@, value as int, i as int));
                    return None;
                },
            };
            assert(term_fits(self@, value as int, i as int));
            if i + 1 < self.coefficients.len() {
                power_of_value = match power_of_value.checked_mul(value) {
                    Some(next) => next,
                    None => {
                        assert(!term_fits(self@, value as int, i + 1));
                        return None;
                    },
                };
            }
            i += 1;
        }
        Some(result)
    }

    /// The value of the polynomial at `value`.
    pub fn eval(&self, value: i64) -> (result: i64)
        requires
            can_evaluate(self@, value as int),
        ensures
            result == value_at(self@, value as int),
    {
        self.checked_eval(value).unwrap()
    }

    /// The sum of two polynomials, or `None` where the sum of two coefficients leaves
    /// the range of `i64`.
    pub fn checked_sum(&self, rhs: &Polynomial<i64>) -> (sum: Option<Polynomial<i64>>)
        ensures
            sum is Some <==> can_add(self@, rhs@),
            sum matches Some(polynomial) ==> polynomial@ == sum_of(self@, rhs@),
    {
        let size = if self.coefficients.len() >= rhs.coefficients.len() {
            self.coefficients.len()
        } else {
            rhs.coefficients.len()
        };
        let mut sums: Vec<i64> = Vec::new();
        let mut i: usize = 0;
        while i < size
            invariant
                i <= size,
                size == longer(self@.len(), rhs@.len()),
                sums@.len() == i,
                forall|k: int| 0 <= k < i ==> fits(#[trigger] sum_at(self@, rhs@, k)),
                forall|k: int| 0 <= k < i ==> sums@[k] == sum_at(self@, rhs@, k),
            decreases size - i,
        {
            let left = if i < self.coefficients.len() {
                self.coefficients[i]
            } else {
                i64::zero()
            };
            let right = if i < rhs.coefficients.len() {
                rhs.coefficients[i]
            } else {
                i64::zero()
            };
            match left.checked_add(right) {
                Some(sum) => {
                    sums.push(sum);
                },
                None => {
                    assert(!fits(sum_at(self@, rhs@, i as int)));
                    return None;
                },
            }
            i += 1;
        }
        assert(sums@ =~= Seq::new(
            longer(self@.len(), rhs@.len()),
            |i: int| sum_at(self@, rhs@, i) as i64,
        ));
        Some(Polynomial::new(sums))
    }

    /// The sum of two polynomials.
    pub fn sum(&self, rhs: &Polynomial<i64>) -> (sum: Polynomial<i64>)
        requires
            can_add(self@, rhs@),
        ensures
            sum@ == sum_of(self@, rhs@),
    {
        self.checked_sum(rhs).unwrap()
    }
}

/// The distance of `c` from 0.
pub open spec fn absolute(c: int) -> nat {
    if c < 0 {
        (-c) as nat
    } else {
        c as nat
    }
}

/// What stands before a term: a minus sign before a negative first term, nothing
/// before another first term, and a sign between spaces before every later term.
pub open spec fn sign_text(negative: bool, leading: bool) -> Seq<char> {
    if leading {
        if negative {
            seq!['-']
        } else {
            Seq::<char>::empty()
        }
    } else if negative {
        seq![' ', '-', ' ']
    } else {
        seq![' ', '+', ' ']
    }
}

/// The variable with its exponent: nothing for degree 0, `x` for degree 1.
pub open spec fn variable_text(degree: nat) -> Seq<char> {
    if degree == 0 {
        Seq::<char>::empty()
    } else if degree == 1 {
        seq!['x']
    } else {
        seq!['x', '^'] + number_text(degree)
    }
}

/// A term: its sign, its coefficient without sign (left out where it is 1 and a
/// variable follows), and its variable.
pub open spec fn term_text(c: i64, degree: nat, leading: bool) -> Seq<char> {
    sign_text(c < 0, leading) + (if absolute(c as int) != 1 || degree == 0 {
        number_text(absolute(c as int))
    } else {
        Seq::<char>::empty()
    }) + variable_text(degree)
}

/// Whether the term of the given degree is left out: its coefficient is 0, and it is
/// not the only coefficient.
pub open spec fn is_blank(coefficients: Seq<i64>, degree: int) -> bool {
    coefficients[degree] == 0 && (degree > 0 || coefficients.len() > 1)
}

/// The terms of degree below `count`, from the highest down. The term of the highest
/// degree of all counts as the first.
pub open spec fn terms_text(coefficients: Seq<i64>, count: nat) -> Seq<char>
    decreases count,
{
    if count == 0 {
        Seq::<char>::empty()
    } else {
        let degree = (count - 1) as nat;
        (if is_blank(coefficients, degree as int) {
            Seq::<char>::empty()
        } else {
            term_text(coefficients[degree as int], degree, degree == coefficients.len() - 1)
        }) + terms_text(coefficients, degree)
    }
}

/// The text of a polynomial: `0` without coefficients, else its terms from the
/// highest degree down.
pub open spec fn polynomial_text(coefficients: Seq<i64>) -> Seq<char> {
    if coefficients.len() == 0 {
        seq!['0']
    } else {
        terms_text(coefficients, coefficients.len())
    }
}

/// The distance of `c` from 0.
pub fn magnitude(c: i64) -> (m: u64)
    ensures
        m == absolute(c as int),
{
    if c >= 0 {
        c as u64
    } else {
        (-(c + 1)) as u64 + 1
    }
}

/// Writes one term at the end of `out`.
fn write_term(out: &mut Vec<char>, c: i64, degree: usize, leading: bool)
    ensures
        final(out)@ == old(out)@ + term_text(c, degree as nat, leading),
{
    let ghost before = out@;
    if leading {
        if c < 0 {
            out.push('-');
        }
    } else {
        out.push(' ');
        out.push(if c < 0 {
            '-'
        } else {
            '+'
        });
        out.push(' ');
    }
    assert(out@ =~= before + sign_text(c < 0, leading));
    let size = magnitude(c);
    if !size.is_one() || degree == 0 {
        let digits = write_number(size);
        append_text(out, &digits);
    }
    let ghost with_number = out@;
    if degree >= 1 {
        out.push('x');
        if degree >= 2 {
            out.push('^');
            let digits = write_number(degree as u64);
            append_text(out, &digits);
        }
    }
    assert(out@ =~= with_number + variable_text(degree as nat));
    assert(out@ =~= before + term_text(c, degree as nat, leading));
}

impl Polynomial<i64> {
    /// The product of two polynomials, or `None` where their lengths together do not
    /// fit in `usize` or a step leaves the range of `i64`.
    pub fn checked_product(&self, rhs: &Polynomial<i64>) -> (product: Option<Polynomial<i64>>)
        ensures
            product is Some <==> self@.len() + rhs@.len() <= usize::MAX && can_multiply(
                self@,
                rhs@,
            ),
            product matches Some(polynomial) ==> polynomial@ == product_of(self@, rhs@),
    {
        let total_len = match self.coefficients.len().checked_add(rhs.coefficients.len()) {
            Some(total_len) => total_len,
            None => {
                return None;
            },
        };
        let size = if self.coefficients.len() == 0 || rhs.coefficients.len() == 0 {
            0
        } else {
            total_len - 1
        };
        let mut products: Vec<i64> = Vec::new();
        let mut k: usize = 0;
        while k < size
            invariant
                k <= size,
                size == product_len(self@, rhs@),
                products@.len() == k,
                forall|j: int, i: int|
                    0 <= j < k && 0 <= i < self@.len() ==> #[trigger] product_step_fits(
                        self@,
                        rhs@,
                        j,
                        i,
                    ),
                forall|j: int| 0 <= j < k ==> products@[j] == product_at(self@, rhs@, j),
            decreases size - k,
        {
            let mut total: i64 = i64::zero();
            let mut i: usize = 0;
            while i < self.coefficients.len()
                invariant
                    i <= self.coefficients.len(),
                    k < size,
                    size == product_len(self@, rhs@),
                    forall|m: int|
                        0 <= m < i ==> #[trigger] product_step_fits(self@, rhs@, k as int, m),
                    total == product_of_first(self@, rhs@, k as int, i as nat),
                decreases self.coefficients.len() - i,
            {
                if i <= k && k - i < rhs.coefficients.len() {
                    let term = match self.coefficients[i].checked_mul(rhs.coefficients[k - i]) {
                        Some(term) => term,
                        None => {
                            assert(!product_step_fits(self@, rhs@, k as int, i as int));
                            return None;
                        },
                    };
                    total = match total.checked_add(term) {
                        Some(sum) => sum,
                        None => {
                            assert(!product_step_fits(self@, rhs@, k as int, i as int));
                            return None;
                        },
                    };
                }
                assert(product_step_fits(self@, rhs@, k as int, i as int));
                i += 1;
            }
            products.push(total);
            k += 1;
        }
        assert(products@ =~= Seq::new(
            product_len(self@, rhs@),
            |k: int| product_at(self@, rhs@, k) as i64,
        ));
        Some(Polynomial::new(products))
    }

    /// The product of two polynomials.
    pub fn product(&self, rhs: &Polynomial<i64>) -> (product: Polynomial<i64>)
        requires
            self@.len() + rhs@.len() <= usize::MAX,
            can_multiply(self@, rhs@),
        ensures
            product@ == product_of(self@, rhs@),
    {
        self.checked_product(rhs).unwrap()
    }

    /// The polynomial as text, such as `x^3 - 7x^2 - 4`.
    pub fn to_string(&self) -> (text: String)
        ensures
            text@ == polynomial_text(self@),
    {
        let mut out: Vec<char> = Vec::new();
        if self.coefficients.len() == 0 {
            out.push('0');
            assert(out@ =~= seq!['0']);
            return string_of(&out);
        }
        let count = self.coefficients.len();
        let mut degree: usize = count;
        assert(out@ + terms_text(self@, degree as nat) =~= terms_text(self@, count as nat));
        while degree > 0
            invariant
                degree <= count,
                count == self@.len(),
                out@ + terms_text(self@, degree as nat) == terms_text(self@, count as nat),
            decreases degree,
        {
            let ghost before = out@;
            let ghost rest = terms_text(self@, degree as nat);
            degree -= 1;
            let c = self.coefficients[degree];
            if !(c.is_zero() && (degree > 0 || count > 1)) {
                write_term(&mut out, c, degree, degree == count - 1);
            }
            assert(out@ + terms_text(self@, degree as nat) =~= before + rest);
        }
        assert(out@ + terms_text(self@, 0) =~= out@);
        string_of(&out)
    }
}

/// `&a + &b` is the sum of two polynomials that can be added within `i64`.
impl<'lhs, 'rhs> std::ops::Add<&'rhs Polynomial<i64>> for &'lhs Polynomial<i64> {
    type Output = Polynomial<i64>;

    fn add(self, rhs: &'rhs Polynomial<i64>) -> (sum: Polynomial<i64>)
        ensures
            sum@ == sum_of(self@, rhs@),
    {
        Polynomial::sum(self, rhs)
    }
}

impl<'lhs, 'rhs> vstd::std_specs::ops::AddSpecImpl<&'rhs Polynomial<i64>> for &'lhs Polynomial<i64> {
    /// The sum is stated by its coefficients, in the `ensures` of `add`.
    open spec fn obeys_add_spec() -> bool {
        false
    }

    open spec fn add_req(self, rhs: &'rhs Polynomial<i64>) -> bool {
        can_add(self@, rhs@)
    }

    open spec fn add_spec(self, rhs: &'rhs Polynomial<i64>) -> Polynomial<i64> {
        *self
    }
}

/// `&a * &b` is the product of two polynomials that can be multiplied within `i64`.
impl<'lhs, 'rhs> std::ops::Mul<&'rhs Polynomial<i64>> for &'lhs Polynomial<i64> {
    type Output = Polynomial<i64>;

    fn mul(self, rhs: &'rhs Polynomial<i64>) -> (product: Polynomial<i64>)
        ensures
            product@ == product_of(self@, rhs@),
    {
        Polynomial::product(self, rhs)
    }
}

impl<'lhs, 'rhs> vstd::std_specs::ops::MulSpecImpl<&'rhs Polynomial<i64>> for &'lhs Polynomial<i64> {
    /// The product is stated by its coefficients, in the `ensures` of `mul`.
    open spec fn obeys_mul_spec() -> bool {
        false
    }

    open spec fn mul_req(self, rhs: &'rhs Polynomial<i64>) -> bool {
        self@.len() + rhs@.len() <= usize::MAX && can_multiply(self@, rhs@)
    }

    open spec fn mul_spec(self, rhs: &'rhs Polynomial<i64>) -> Polynomial<i64> {
        *self
    }
}

/// `a + b` is the sum of two polynomials.
impl std::ops::Add<Polynomial<i64>> for Polynomial<i64> {
    type Output = Polynomial<i64>;

    fn add(self, rhs: Polynomial<i64>) -> (sum: Polynomial<i64>)
        ensures
            sum@ == sum_of(self@, rhs@),
    {
        Polynomial::sum(&self, &rhs)
    }
}

impl vstd::std_specs::ops::AddSpecImpl<Polynomial<i64>> for Polynomial<i64> {
    /// The sum is stated by its coefficients, in the `ensures` of `add`.
    open spec fn obeys_add_spec() -> bool {
        false
    }

    open spec fn add_req(self, rhs: Polynomial<i64>) -> bool {
        can_add(self@, rhs@)
    }

    open spec fn add_spec(self, rhs: Polynomial<i64>) -> Polynomial<i64> {
        self
    }
}

/// `a + &b` is the sum of two polynomials.
impl<'rhs> std::ops::Add<&'rhs Polynomial<i64>> for Polynomial<i64> {
    type Output = Polynomial<i64>;

    fn add(self, rhs: &'rhs Polynomial<i64>) -> (sum: Polynomial<i64>)
        ensures
            sum@ == sum_of(self@, rhs@),
    {
        Polynomial::sum(&self, rhs)
    }
}

impl<'rhs> vstd::std_specs::ops::AddSpecImpl<&'rhs Polynomial<i64>> for Polynomial<i64> {
    /// The sum is stated by its coefficients, in the `ensures` of `add`.
    open spec fn obeys_add_spec() -> bool {
        false
    }

    open spec fn add_req(self, rhs: &'rhs Polynomial<i64>) -> bool {
        can_add(self@, rhs@)
    }

    open spec fn add_spec(self, rhs: &'rhs Polynomial<i64>) -> Polynomial<i64> {
        self
    }
}

/// `&a + b` is the sum of two polynomials.
impl<'lhs> std::ops::Add<Polynomial<i64>> for &'lhs Polynomial<i64> {
    type Output = Polynomial<i64>;

    fn add(self, rhs: Polynomial<i64>) -> (sum: Polynomial<i64>)
        ensures
            sum@ == sum_of(self@, rhs@),
    {
        Polynomial::sum(self, &rhs)
    }
}

impl<'lhs> vstd::std_specs::ops::AddSpecImpl<Polynomial<i64>> for &'lhs Polynomial<i64> {
    /// The sum is stated by its coefficients, in the `ensures` of `add`.
    open spec fn obeys_add_spec() -> bool {
        false
    }

    open spec fn add_req(self, rhs: Polynomial<i64>) -> bool {
        can_add(self@, rhs@)
    }

    open spec fn add_spec(self, rhs: Polynomial<i64>) -> Polynomial<i64> {
        *self
    }
}

/// `a * b` is the product of two polynomials.
impl std::ops::Mul<Polynomial<i64>> for Polynomial<i64> {
    type Output = Polynomial<i64>;

    fn mul(self, rhs: Polynomial<i64>) -> (product: Polynomial<i64>)
        ensures
            product@ == product_of(self@, rhs@),
    {
        Polynomial::product(&self, &rhs)
    }
}

impl vstd::std_specs::ops::MulSpecImpl<Polynomial<i64>> for Polynomial<i64> {
    /// The product is stated by its coefficients, in the `ensures` of `mul`.
    open spec fn obeys_mul_spec() -> bool {
        false
    }

    open spec fn mul_req(self, rhs: Polynomial<i64>) -> bool {
        self@.len() + rhs@.len() <= usize::MAX && can_multiply(self@, rhs@)
    }

    open spec fn mul_spec(self, rhs: Polynomial<i64>) -> Polynomial<i64> {
        self
    }
}

/// `a * &b` is the product of two polynomials.
impl<'rhs> std::ops::Mul<&'rhs Polynomial<i64>> for Polynomial<i64> {
    type Output = Polynomial<i64>;

    fn mul(self, rhs: &'rhs Polynomial<i64>) -> (product: Polynomial<i64>)
        ensures
            product@ == product_of(self@, rhs@),
    {
        Polynomial::product(&self, rhs)
    }
}

impl<'rhs> vstd::std_specs::ops::MulSpecImpl<&'rhs Polynomial<i64>> for Polynomial<i64> {
    /// The product is stated by its coefficients, in the `ensures` of `mul`.
    open spec fn obeys_mul_spec() -> bool {
        false
    }

    open spec fn mul_req(self, rhs: &'rhs Polynomial<i64>) -> bool {
        self@.len() + rhs@.len() <= usize::MAX && can_multiply(self@, rhs@)
    }

    open spec fn mul_spec(self, rhs: &'rhs Polynomial<i64>) -> Polynomial<i64> {
        self
    }
}

/// `&a * b` is the product of two polynomials.
impl<'lhs> std::ops::Mul<Polynomial<i64>> for &'lhs Polynomial<i64> {
    type Output = Polynomial<i64>;

    fn mul(self, rhs: Polynomial<i64>) -> (product: Polynomial<i64>)
        ensures
            product@ == product_of(self@, rhs@),
    {
        Polynomial::product(self, &rhs)
    }
}

impl<'lhs> vstd::std_specs::ops::MulSpecImpl<Polynomial<i64>> for &'lhs Polynomial<i64> {
    /// The product is stated by its coefficients, in the `ensures` of `mul`.
    open spec fn obeys_mul_spec() -> bool {
        false
    }

    open spec fn mul_req(self, rhs: Polynomial<i64>) -> bool {
        self@.len() + rhs@.len() <= usize::MAX && can_multiply(self@, rhs@)
    }

    open spec fn mul_spec(self, rhs: Polynomial<i64>) -> Polynomial<i64> {
        *self
    }
}

} // verus!
