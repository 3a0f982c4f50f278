use vstd::prelude::*;
use num::bigint::BigUint;
use num::integer::Integer;

verus! {

/// Error raised when a decimal string does not denote a non-negative integer.
#[derive(Clone, Copy, Debug, PartialEq, Eq, Structural)]
pub enum DecodeError {
    NotADecimalInteger,
}

/// Error raised by arithmetic with an impossible operand.
#[derive(Clone, Copy, Debug, PartialEq, Eq, Structural)]
pub enum MathError {
    DivisionByZero,
}

/// Every entry of `s` is a base-10 digit value.
pub open spec fn digits_all_valid(s: Seq<u8>) -> bool {
    forall|i: int| 0 <= i < s.len() ==> s[i] < 10
}

/// Canonical big-endian digit form: non-empty, all entries digits, and no
/// leading zero except for the one-digit representation of zero itself.
pub open spec fn digits_wf(s: Seq<u8>) -> bool {
    &&& s.len() >= 1
    &&& digits_all_valid(s)
    &&& (s.len() > 1 ==> s[0] != 0)
}

/// The natural number denoted by big-endian base-10 digits.
pub open spec fn digits_value(s: Seq<u8>) -> nat
    decreases s.len(),
{
    if s.len() == 0 {
        0
    } else {
        digits_value(s.drop_last()) * 10 + (s.last() as nat)
    }
}

/// The canonical big-endian digits of a natural number.
pub open spec fn digits_of(n: nat) -> Seq<u8>
    decreases n,
{
    if n < 10 {
        seq![n as u8]
    } else {
        digits_of(n / 10).push((n % 10) as u8)
    }
}

/// Strips leading zeros, keeping at least one digit.
pub open spec fn canon(s: Seq<u8>) -> Seq<u8>
    decreases s.len(),
{
    if s.len() <= 1 {
        s
    } else if s[0] == 0 {
        canon(s.drop_first())
    } else {
        s
    }
}

/// `c` is one of the characters '0' through '9'.
pub open spec fn is_digit_char(c: char) -> bool {
    48 <= c as int <= 57
}

/// The digit value of a decimal character.
pub open spec fn digit_of_char(c: char) -> u8 {
    (c as int - 48) as u8
}

/// The character for a digit value.
pub open spec fn digit_char(d: u8) -> char {
    if d == 0 { '0' }
    else if d == 1 { '1' }
    else if d == 2 { '2' }
    else if d == 3 { '3' }
    else if d == 4 { '4' }
    else if d == 5 { '5' }
    else if d == 6 { '6' }
    else if d == 7 { '7' }
    else if d == 8 { '8' }
    else { '9' }
}

/// The digit values of a sequence of decimal characters.
pub open spec fn digit_seq(s: Seq<char>) -> Seq<u8>
    decreases s.len(),
{
    if s.len() == 0 {
        Seq::empty()
    } else {
        digit_seq(s.drop_last()).push(digit_of_char(s.last()))
    }
}

/// The decimal characters of a sequence of digit values.
pub open spec fn chars_of(s: Seq<u8>) -> Seq<char>
    decreases s.len(),
{
    if s.len() == 0 {
        Seq::empty()
    } else {
        chars_of(s.drop_last()).push(digit_char(s.last()))
    }
}

/// The decimal text of a natural number.
pub open spec fn dec_chars(n: nat) -> Seq<char> {
    chars_of(digits_of(n))
}

/// A non-empty string of decimal digits: the only shape `BigNum::parse` accepts.
pub open spec fn valid_decimal(s: Seq<char>) -> bool {
    &&& s.len() >= 1
    &&& forall|i: int| 0 <= i < s.len() ==> is_digit_char(s[i])
}

/// Strips leading '0' characters, keeping at least one character.
pub open spec fn normalize_decimal(s: Seq<char>) -> Seq<char>
    decreases s.len(),
{
    if s.len() <= 1 {
        s
    } else if s[0] == '0' {
        normalize_decimal(s.drop_first())
    } else {
        s
    }
}

/// Arbitrary-precision non-negative integer, stored as canonical big-endian
/// base-10 digit values.
#[derive(Debug, PartialEq, Eq)]
pub struct BigNum {
    pub digits: Vec<u8>,
}

impl View for BigNum {
    type V = nat;

    open spec fn view(&self) -> nat {
        digits_value(self.digits@)
    }
}

impl BigNum {
    pub open spec fn wf(&self) -> bool {
        digits_wf(self.digits@)
    }

    pub open spec fn value(&self) -> nat {
        digits_value(self.digits@)
    }
}

/// The sum of the values of a list of numbers.
pub open spec fn sum_values(s: Seq<BigNum>) -> nat
    decreases s.len(),
{
    if s.len() == 0 {
        0
    } else {
        sum_values(s.drop_last()) + s.last().value()
    }
}

/// A digit string denotes zero exactly when every digit is zero.
pub proof fn lemma_value_zero_iff(s: Seq<u8>)
    ensures
        digits_value(s) == 0 <==> (forall|i: int| 0 <= i < s.len() ==> s[i] == 0),
    decreases s.len(),
{
    if s.len() == 0 {
    } else {
        lemma_value_zero_iff(s.drop_last());
        assert(forall|i: int| 0 <= i < s.len() - 1 ==> s.drop_last()[i] == s[i]);
        assert(s.last() == s[s.len() - 1]);
        if digits_value(s) == 0 {
            assert(digits_value(s.drop_last()) == 0 && s.last() == 0);
        }
        if forall|i: int| 0 <= i < s.len() ==> s[i] == 0 {
            assert(forall|i: int| 0 <= i < s.drop_last().len() ==> s.drop_last()[i] == 0);
        }
    }
}

/// A leading zero digit does not change the denoted number.
pub proof fn lemma_value_drop_leading_zero(s: Seq<u8>)
    requires
        s.len() >= 1,
        s[0] == 0,
    ensures
        digits_value(s) == digits_value(s.drop_first()),
    decreases s.len(),
{
    if s.len() == 1 {
        assert(s.drop_first() =~= Seq::<u8>::empty());
        assert(s.drop_last() =~= Seq::<u8>::empty());
        assert(s.last() == 0);
    } else {
        let t = s.drop_last();
        assert(t[0] == s[0]);
        lemma_value_drop_leading_zero(t);
        assert(s.drop_first().drop_last() =~= t.drop_first());
        assert(s.drop_first().last() == s.last());
        assert(s.drop_first().len() >= 1);
    }
}

/// Stripping leading zeros yields the canonical form of the same number.
pub proof fn lemma_canon_ok(s: Seq<u8>)
    requires
        s.len() >= 1,
        digits_all_valid(s),
    ensures
        digits_wf(canon(s)),
        digits_value(canon(s)) == digits_value(s),
    decreases s.len(),
{
    if s.len() == 1 {
    } else if s[0] == 0 {
        lemma_value_drop_leading_zero(s);
        assert(digits_all_valid(s.drop_first())) by {
            assert(forall|i: int| 0 <= i < s.drop_first().len() ==> s.drop_first()[i] == s[i + 1]);
        }
        lemma_canon_ok(s.drop_first());
    } else {
    }
}

/// Canonical digit strings are the unique representation of their number.
pub proof fn lemma_digits_of_value(s: Seq<u8>)
    requires
        digits_wf(s),
    ensures
        digits_of(digits_value(s)) == s,
    decreases s.len(),
{
    if s.len() == 1 {
        assert(s.drop_last() =~= Seq::<u8>::empty());
        assert(digits_value(Seq::<u8>::empty()) == 0);
        assert(s.last() == s[0]);
        assert(digits_value(s) == s[0]);
        assert(digits_of(digits_value(s)) =~= s);
    } else {
        let t = s.drop_last();
        assert(digits_wf(t)) by {
            assert(forall|i: int| 0 <= i < t.len() ==> t[i] == s[i]);
        }
        lemma_digits_of_value(t);
        lemma_value_zero_iff(t);
        assert(t[0] != 0);
        assert(digits_value(t) > 0);
        let v = digits_value(s);
        assert(v == digits_value(t) * 10 + (s.last() as nat));
        assert(v >= 10);
        assert(v / 10 == digits_value(t) && v % 10 == s.last() as nat) by (nonlinear_arith)
            requires
                v == digits_value(t) * 10 + (s.last() as nat),
                (s.last() as nat) < 10,
        ;
        assert(digits_of(v) == digits_of(digits_value(t)).push((v % 10) as u8));
        assert(digits_of(v) =~= s);
    }
}

/// The number denoted by a prefix never exceeds the number denoted by the whole.
pub proof fn lemma_value_take_le(s: Seq<u8>, i: int)
    requires
        0 <= i <= s.len(),
    ensures
        digits_value(s.take(i)) <= digits_value(s),
    decreases s.len() - i,
{
    if i == s.len() {
        assert(s.take(i) =~= s);
    } else {
        lemma_value_take_le(s, i + 1);
        assert(s.take(i + 1).drop_last() =~= s.take(i));
        assert(s.take(i + 1).last() == s[i]);
    }
}

/// `chars_of` maps digit values to digit characters position by position.
pub proof fn lemma_chars_of_props(s: Seq<u8>)
    ensures
        chars_of(s).len() == s.len(),
        forall|i: int| 0 <= i < s.len() ==> chars_of(s)[i] == digit_char(s[i]),
    decreases s.len(),
{
    if s.len() == 0 {
    } else {
        lemma_chars_of_props(s.drop_last());
        assert(forall|i: int| 0 <= i < s.len() - 1 ==> s.drop_last()[i] == s[i]);
    }
}

/// `digit_seq` maps digit characters to digit values position by position.
pub proof fn lemma_digit_seq_props(s: Seq<char>)
    ensures
        digit_seq(s).len() == s.len(),
        forall|i: int| 0 <= i < s.len() ==> digit_seq(s)[i] == digit_of_char(s[i]),
    decreases s.len(),
{
    if s.len() == 0 {
    } else {
        lemma_digit_seq_props(s.drop_last());
        assert(forall|i: int| 0 <= i < s.len() - 1 ==> s.drop_last()[i] == s[i]);
    }
}

/// Law: for every valid decimal string, parsing and then formatting gives the
/// same text as parsing the string with its leading zeros stripped — the
/// round trip preserves the numeric value, not the literal spelling.
/// `BigNum::parse` returns exactly `canon(digit_seq(s))` as digits and
/// `BigNum::format` returns exactly `chars_of` of those digits.
pub proof fn lemma_parse_format_normalized(s: Seq<char>)
    requires
        valid_decimal(s),
    ensures
        valid_decimal(normalize_decimal(s)),
        canon(digit_seq(normalize_decimal(s))) == canon(digit_seq(s)),
        chars_of(canon(digit_seq(normalize_decimal(s)))) == chars_of(canon(digit_seq(s))),
        digits_value(digit_seq(normalize_decimal(s))) == digits_value(digit_seq(s)),
    decreases s.len(),
{
    lemma_digit_seq_props(s);
    if s.len() <= 1 {
    } else if s[0] == '0' {
        let t = s.drop_first();
        assert(valid_decimal(t)) by {
            assert(forall|i: int| 0 <= i < t.len() ==> t[i] == s[i + 1]);
        }
        lemma_digit_seq_props(t);
        assert(digit_seq(t) =~= digit_seq(s).drop_first());
        assert(digit_seq(s)[0] == digit_of_char('0'));
        assert(digit_of_char('0') == 0);
        assert(canon(digit_seq(s)) == canon(digit_seq(s).drop_first()));
        lemma_value_drop_leading_zero(digit_seq(s));
        lemma_parse_format_normalized(t);
        assert(normalize_decimal(s) == normalize_decimal(t));
    } else {
        assert(normalize_decimal(s) == s);
    }
}

/// Relies on num's `BigUint::from_radix_be` (reads big-endian base-10 digit
/// values) and `to_radix_be` (returns canonical big-endian digits, `[0]` for
/// zero): the result denotes the sum of the two inputs.
#[verifier::external_body]
fn add_digits(a: &Vec<u8>, b: &Vec<u8>) -> (r: Vec<u8>)
    requires
        digits_wf(a@),
        digits_wf(b@),
    ensures
        digits_wf(r@),
        digits_value(r@) == digits_value(a@) + digits_value(b@),
{
    let x = BigUint::from_radix_be(a, 10).unwrap();
    let y = BigUint::from_radix_be(b, 10).unwrap();
    (x + y).to_radix_be(10)
}

/// Relies on num's `BigUint` scalar multiplication, with the same digit
/// conversions as `add_digits`: the result denotes the product.
#[verifier::external_body]
fn mul_digits_u64(a: &Vec<u8>, k: u64) -> (r: Vec<u8>)
    requires
        digits_wf(a@),
    ensures
        digits_wf(r@),
        digits_value(r@) == digits_value(a@) * k,
{
    (BigUint::from_radix_be(a, 10).unwrap() * k).to_radix_be(10)
}

/// Relies on num's `Integer::div_floor` for `BigUint` (floored quotient,
/// panics on a zero divisor, which the precondition rules out), with the same
/// digit conversions as `add_digits`.
#[verifier::external_body]
fn div_digits(a: &Vec<u8>, b: &Vec<u8>) -> (r: Vec<u8>)
    requires
        digits_wf(a@),
        digits_wf(b@),
        digits_value(b@) != 0,
    ensures
        digits_wf(r@),
        digits_value(r@) == digits_value(a@) / digits_value(b@),
{
    let x = BigUint::from_radix_be(a, 10).unwrap();
    let y = BigUint::from_radix_be(b, 10).unwrap();
    Integer::div_floor(&x, &y).to_radix_be(10)
}

/// Relies on num's `Integer::mod_floor` for `BigUint` (remainder of floored
/// division, panics on a zero divisor, which the precondition rules out), with
/// the same digit conversions as `add_digits`.
#[verifier::external_body]
fn mod_digits(a: &Vec<u8>, b: &Vec<u8>) -> (r: Vec<u8>)
    requires
        digits_wf(a@),
        digits_wf(b@),
        digits_value(b@) != 0,
    ensures
        digits_wf(r@),
        digits_value(r@) == digits_value(a@) % digits_value(b@),
{
    let x = BigUint::from_radix_be(a, 10).unwrap();
    let y = BigUint::from_radix_be(b, 10).unwrap();
    Integer::mod_floor(&x, &y).to_radix_be(10)
}

/// Relies on num's `Ord` for `BigUint`, which compares numeric values, with
/// the digit conversions of `add_digits`.
#[verifier::external_body]
fn lt_digits(a: &Vec<u8>, b: &Vec<u8>) -> (r: bool)
    requires
        digits_wf(a@),
        digits_wf(b@),
    ensures
        r == (digits_value(a@) < digits_value(b@)),
{
    BigUint::from_radix_be(a, 10).unwrap() < BigUint::from_radix_be(b, 10).unwrap()
}

/// Relies on num's `BigUint::from` for `u64` and `to_radix_be` (canonical
/// big-endian digits): the result denotes `k`.
#[verifier::external_body]
fn from_u64_digits(k: u64) -> (r: Vec<u8>)
    ensures
        digits_wf(r@),
        digits_value(r@) == k,
{
    BigUint::from(k).to_radix_be(10)
}

fn clone_digits(v: &Vec<u8>) -> (r: Vec<u8>)
    ensures
        r@ == v@,
{
    let mut r: Vec<u8> = Vec::new();
    let mut i: usize = 0;
    while i < v.len()
        invariant
            i <= v.len(),
            r@ == v@.take(i as int),
        decreases v.len() - i,
    {
        r.push(v[i]);
        proof {
            assert(v@.take(i + 1) =~= v@.take(i as int).push(v@[i as int]));
        }
        i += 1;
    }
    proof {
        assert(v@.take(v@.len() as int) =~= v@);
    }
    r
}

impl BigNum {
    /// The number zero.
    pub fn zero() -> (r: BigNum)
        ensures
            r.wf(),
            r.value() == 0,
    {
        let digits: Vec<u8> = vec![0u8];
        proof {
            assert(digits@ =~= seq![0u8]);
            let s = seq![0u8];
            assert(s.drop_last() =~= Seq::<u8>::empty());
            assert(digits_value(Seq::<u8>::empty()) == 0);
            assert(s.last() == 0u8);
            assert(digits_value(s) == digits_value(s.drop_last()) * 10 + (s.last() as nat));
        }
        BigNum { digits }
    }

    /// The number `k`.
    pub fn from_u64(k: u64) -> (r: BigNum)
        ensures
            r.wf(),
            r.value() == k,
    {
        BigNum { digits: from_u64_digits(k) }
    }

    /// An identical copy.
    pub fn duplicate(&self) -> (r: BigNum)
        ensures
            r.digits@ == self.digits@,
            r.wf() == self.wf(),
            r.value() == self.value(),
    {
        BigNum { digits: clone_digits(&self.digits) }
    }

    /// Whether this number is zero.
    pub fn is_zero(&self) -> (r: bool)
        requires
            self.wf(),
        ensures
            r == (self.value() == 0),
    {
        proof {
            lemma_value_zero_iff(self.digits@);
        }
        self.digits.len() == 1 && self.digits[0] == 0
    }

    /// Exact sum.
    pub fn add(&self, other: &BigNum) -> (r: BigNum)
        requires
            self.wf(),
            other.wf(),
        ensures
            r.wf(),
            r.value() == self.value() + other.value(),
    {
        BigNum { digits: add_digits(&self.digits, &other.digits) }
    }

    /// Exact product with an unsigned scalar.
    pub fn multiply(&self, k: u64) -> (r: BigNum)
        requires
            self.wf(),
        ensures
            r.wf(),
            r.value() == self.value() * k,
    {
        BigNum { digits: mul_digits_u64(&self.digits, k) }
    }

    /// Floored quotient; the divisor must be non-zero.
    pub(crate) fn div_unchecked(&self, other: &BigNum) -> (r: BigNum)
        requires
            self.wf(),
            other.wf(),
            other.value() != 0,
        ensures
            r.wf(),
            r.value() == self.value() / other.value(),
    {
        BigNum { digits: div_digits(&self.digits, &other.digits) }
    }

    /// Remainder of floored division; the divisor must be non-zero.
    pub(crate) fn mod_unchecked(&self, other: &BigNum) -> (r: BigNum)
        requires
            self.wf(),
            other.wf(),
            other.value() != 0,
        ensures
            r.wf(),
            r.value() == self.value() % other.value(),
    {
        BigNum { digits: mod_digits(&self.digits, &other.digits) }
    }

    /// Floored division, rejecting a zero divisor.
    pub fn floor_div(&self, other: &BigNum) -> (r: Result<BigNum, MathError>)
        requires
            self.wf(),
            other.wf(),
        ensures
            other.value() == 0 <==> (r matches Err(e) && e == MathError::DivisionByZero),
            other.value() != 0 ==> (r matches Ok(q) && q.wf() && q.value() == self.value()
                / other.value()),
    {
        if other.is_zero() {
            Err(MathError::DivisionByZero)
        } else {
            Ok(self.div_unchecked(other))
        }
    }

    /// Whether this number is strictly below `other`.
    pub fn lt(&self, other: &BigNum) -> (r: bool)
        requires
            self.wf(),
            other.wf(),
        ensures
            r == (self.value() < other.value()),
    {
        lt_digits(&self.digits, &other.digits)
    }

    /// Reads a non-negative base-10 integer literal; any other string is a
    /// decode error. Leading zeros are accepted and dropped.
    pub fn parse(s: &str) -> (r: Result<BigNum, DecodeError>)
        ensures
            valid_decimal(s@) <==> r is Ok,
            r matches Ok(b) ==> b.wf() && b.digits@ == canon(digit_seq(s@)) && b.value()
                == digits_value(digit_seq(s@)),
            r matches Err(e) ==> e == DecodeError::NotADecimalInteger,
    {
        let n = s.unicode_len();
        if n == 0 {
            return Err(DecodeError::NotADecimalInteger);
        }
        let mut ds: Vec<u8> = Vec::new();
        let mut i: usize = 0;
        while i < n
            invariant
                n == s@.len(),
                i <= n,
                ds@ == digit_seq(s@.take(i as int)),
                ds@.len() == i,
                forall|j: int| 0 <= j < i ==> is_digit_char(s@[j]),
                digits_all_valid(ds@),
            decreases n - i,
        {
            let c = s.get_char(i);
            let x = c as u32;
            if x < 48 || x > 57 {
                return Err(DecodeError::NotADecimalInteger);
            }
            ds.push((x - 48) as u8);
            proof {
                assert(s@.take(i + 1).drop_last() =~= s@.take(i as int));
                assert(s@.take(i + 1).last() == s@[i as int]);
            }
            i += 1;
        }
        proof {
            assert(s@.take(n as int) =~= s@);
            assert(ds@.subrange(0, ds@.len() as int) =~= ds@);
        }
        let mut j: usize = 0;
        while j + 1 < ds.len() && ds[j] == 0
            invariant
                ds@.len() >= 1,
                j < ds.len(),
                digits_all_valid(ds@),
                canon(ds@) == canon(ds@.subrange(j as int, ds@.len() as int)),
            decreases ds.len() - j,
        {
            proof {
                let sub = ds@.subrange(j as int, ds@.len() as int);
                assert(sub.len() >= 2);
                assert(sub[0] == 0);
                assert(sub.drop_first() =~= ds@.subrange(j + 1, ds@.len() as int));
            }
            j += 1;
        }
        proof {
            let sub = ds@.subrange(j as int, ds@.len() as int);
            if j + 1 >= ds@.len() {
                assert(sub.len() == 1);
            } else {
                assert(sub[0] != 0);
            }
            assert(canon(sub) == sub);
        }
        let mut out: Vec<u8> = Vec::new();
        let mut k: usize = j;
        while k < ds.len()
            invariant
                j <= k <= ds@.len(),
                out@ == ds@.subrange(j as int, k as int),
            decreases ds.len() - k,
        {
            out.push(ds[k]);
            proof {
                assert(ds@.subrange(j as int, k + 1) =~= ds@.subrange(j as int, k as int).push(
                    ds@[k as int],
                ));
            }
            k += 1;
        }
        proof {
            lemma_canon_ok(ds@);
        }
        Ok(BigNum { digits: out })
    }

    /// The decimal text of this number, without leading zeros.
    pub fn format(&self) -> (r: String)
        requires
            self.wf(),
        ensures
            r@ == chars_of(self.digits@),
            r@ == dec_chars(self.value()),
    {
        proof {
            lemma_digits_of_value(self.digits@);
        }
        let mut out = String::new();
        let mut i: usize = 0;
        while i < self.digits.len()
            invariant
                self.wf(),
                i <= self.digits.len(),
                out@ == chars_of(self.digits@.take(i as int)),
            decreases self.digits.len() - i,
        {
            let d = self.digits[i];
            let piece: &str = if d == 0 {
                "0"
            } else if d == 1 {
                "1"
            } else if d == 2 {
                "2"
            } else if d == 3 {
                "3"
            } else if d == 4 {
                "4"
            } else if d == 5 {
                "5"
            } else if d == 6 {
                "6"
            } else if d == 7 {
                "7"
            } else if d == 8 {
                "8"
            } else {
                "9"
            };
            out.append(piece);
            proof {
                reveal_strlit("0");
                reveal_strlit("1");
                reveal_strlit("2");
                reveal_strlit("3");
                reveal_strlit("4");
                reveal_strlit("5");
                reveal_strlit("6");
                reveal_strlit("7");
                reveal_strlit("8");
                reveal_strlit("9");
                assert(d < 10);
                assert(piece@ =~= seq![digit_char(d)]);
                assert(self.digits@.take(i + 1).drop_last() =~= self.digits@.take(i as int));
                assert(self.digits@.take(i + 1).last() == d);
            }
            i += 1;
        }
        proof {
            assert(self.digits@.take(self.digits@.len() as int) =~= self.digits@);
        }
        out
    }

    /// Exact sum of a list of numbers.
    pub fn sum(xs: &Vec<BigNum>) -> (r: BigNum)
        requires
            forall|i: int| 0 <= i < xs@.len() ==> (#[trigger] xs@[i]).wf(),
        ensures
            r.wf(),
            r.value() == sum_values(xs@),
    {
        let mut acc = BigNum::zero();
        let mut i: usize = 0;
        while i < xs.len()
            invariant
                forall|t: int| 0 <= t < xs@.len() ==> (#[trigger] xs@[t]).wf(),
                i <= xs@.len(),
                acc.wf(),
                acc.value() == sum_values(xs@.take(i as int)),
            decreases xs.len() - i,
        {
            acc = acc.add(&xs[i]);
            proof {
                assert(xs@.take(i + 1).drop_last() =~= xs@.take(i as int));
                assert(xs@.take(i + 1).last() == xs@[i as int]);
            }
            i += 1;
        }
        proof {
            assert(xs@.take(xs@.len() as int) =~= xs@);
        }
        acc
    }

    /// The exact value, for numbers small enough for a machine word.
    pub fn to_u64(&self) -> (r: u64)
        requires
            self.wf(),
            self.value() <= u64::MAX,
        ensures
            r == self.value(),
    {
        let mut acc: u64 = 0;
        let mut i: usize = 0;
        while i < self.digits.len()
            invariant
                self.wf(),
                self.value() <= u64::MAX,
                i <= self.digits.len(),
                acc == digits_value(self.digits@.take(i as int)),
            decreases self.digits.len() - i,
        {
            proof {
                lemma_value_take_le(self.digits@, i + 1);
                assert(self.digits@.take(i + 1).drop_last() =~= self.digits@.take(i as int));
                assert(self.digits@.take(i + 1).last() == self.digits@[i as int]);
            }
            let d = self.digits[i];
            acc = acc * 10 + (d as u64);
            i += 1;
        }
        proof {
            assert(self.digits@.take(self.digits@.len() as int) =~= self.digits@);
        }
        acc
    }
}

} // verus!

