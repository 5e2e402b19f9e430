//! Bijective base-26 codec over lowercase strings.
//!
//! A value string `s` over `a..=z` denotes the number
//! `fold(acc, c) = acc * 26 + (c - 'a' + 1)`: digits run 1..=26, so the
//! empty string denotes 0 and every positive integer has exactly one
//! representation. `from_num` is the inverse, with `from_num(0) == "a"`
//! serving as the identity/floor value. Arithmetic decodes, computes and
//! re-encodes; additions and multiplications saturate at `u64::MAX`,
//! subtraction and division floor at the value 1 (the string `"a"`).

use vstd::prelude::*;

verus! {

use vstd::arithmetic::div_mod::lemma_fundamental_div_mod_converse;
use crate::text::push_char;

/// The character range that value strings are made of.
pub open spec fn is_lower_char(c: char) -> bool {
    'a' <= c && c <= 'z'
}

/// A value string: every character is a lowercase ASCII letter.
pub open spec fn is_lower(s: Seq<char>) -> bool {
    forall|i: int| 0 <= i < s.len() ==> is_lower_char(s[i])
}

/// The digit a lowercase letter stands for: 'a' is 1, ..., 'z' is 26.
pub open spec fn digit_of(c: char) -> int {
    c as int - 96
}

/// The lowercase letter standing for digit offset `d` (0 is 'a', 25 is 'z').
pub open spec fn letter_of(d: int) -> char {
    ((d + 97) as u8) as char
}

/// The number a lowercase string denotes, most significant digit first.
pub open spec fn to_num_spec(s: Seq<char>) -> int
    decreases s.len(),
{
    if s.len() == 0 {
        0
    } else {
        to_num_spec(s.drop_last()) * 26 + digit_of(s.last())
    }
}

/// The unique lowercase encoding of `n` (empty for 0).
pub open spec fn from_num_spec(n: nat) -> Seq<char>
    decreases n,
{
    if n == 0 {
        Seq::empty()
    } else {
        from_num_spec((((n - 1) as int) / 26) as nat).push(letter_of(((n - 1) as int) % 26))
    }
}

/// What the executable decoder returns: the denoted number, saturated
/// at the largest representable value.
pub open spec fn clamp(n: int) -> int {
    if n > u64::MAX {
        u64::MAX as int
    } else {
        n
    }
}

/// The decoded value as the executable codec sees it.
pub open spec fn to_num_clamped(s: Seq<char>) -> int {
    clamp(to_num_spec(s))
}

/// What the executable encoder returns: 0 is mapped to the identity
/// value "a" rather than to the empty string.
pub open spec fn from_num_total(n: nat) -> Seq<char> {
    if n == 0 {
        seq!['a']
    } else {
        from_num_spec(n)
    }
}

proof fn lemma_digit_range(c: char)
    requires
        is_lower_char(c),
    ensures
        1 <= digit_of(c) <= 26,
        letter_of(digit_of(c) - 1) == c,
{
}

proof fn lemma_qr(n: nat)
    requires
        n >= 1,
    ensures
        0 <= ((n - 1) as int) % 26 < 26,
        0 <= ((n - 1) as int) / 26 <= n - 1,
{
    vstd::arithmetic::div_mod::lemma_mod_bound((n - 1) as int, 26);
    vstd::arithmetic::div_mod::lemma_div_pos_is_pos((n - 1) as int, 26);
    vstd::arithmetic::div_mod::lemma_div_nonincreasing((n - 1) as int, 26);
}

proof fn lemma_letter_lower(d: int)
    requires
        0 <= d < 26,
    ensures
        is_lower_char(letter_of(d)),
        digit_of(letter_of(d)) == d + 1,
{
}

/// The denoted number is never negative, and a non-empty string denotes
/// at least 1.
pub proof fn lemma_to_num_nonneg(s: Seq<char>)
    requires
        is_lower(s),
    ensures
        to_num_spec(s) >= 0,
        s.len() > 0 ==> to_num_spec(s) >= 1,
    decreases s.len(),
{
    if s.len() > 0 {
        assert(is_lower(s.drop_last()));
        lemma_to_num_nonneg(s.drop_last());
        lemma_digit_range(s.last());
        assert(to_num_spec(s.drop_last()) * 26 >= 0) by (nonlinear_arith)
            requires
                to_num_spec(s.drop_last()) >= 0,
        ;
    }
}

/// Every encoding is a lowercase string, non-empty for a positive number.
pub proof fn lemma_from_num_lower(n: nat)
    ensures
        is_lower(from_num_spec(n)),
        n > 0 ==> from_num_spec(n).len() > 0,
    decreases n,
{
    if n > 0 {
        let q = (((n - 1) as int) / 26) as nat;
        let r = ((n - 1) as int) % 26;
        lemma_qr(n);
        lemma_from_num_lower(q);
        lemma_letter_lower(r);
        assert(is_lower(from_num_spec(q).push(letter_of(r))));
    }
}

/// Encoding then decoding gives the number back: the codec loses nothing.
pub proof fn lemma_to_from_roundtrip(n: nat)
    ensures
        to_num_spec(from_num_spec(n)) == n,
    decreases n,
{
    if n > 0 {
        let q = (((n - 1) as int) / 26) as nat;
        let r = ((n - 1) as int) % 26;
        lemma_qr(n);
        lemma_to_from_roundtrip(q);
        lemma_letter_lower(r);
        let s = from_num_spec(n);
        assert(s == from_num_spec(q).push(letter_of(r)));
        assert(s.drop_last() == from_num_spec(q));
        assert(s.last() == letter_of(r));
        vstd::arithmetic::div_mod::lemma_fundamental_div_mod((n - 1) as int, 26);
        assert(to_num_spec(s) == q * 26 + (r + 1));
        assert(q * 26 + r == n - 1);
    }
}

/// Decoding then encoding gives the string back: every non-empty
/// lowercase string is the canonical encoding of its number.
pub proof fn lemma_from_to_roundtrip(s: Seq<char>)
    requires
        is_lower(s),
        s.len() > 0,
    ensures
        from_num_spec(to_num_spec(s) as nat) == s,
        to_num_spec(s) >= 1,
    decreases s.len(),
{
    lemma_to_num_nonneg(s);
    let hd = s.drop_last();
    let d = digit_of(s.last());
    lemma_digit_range(s.last());
    assert(is_lower(hd));
    lemma_to_num_nonneg(hd);
    let a = to_num_spec(hd);
    let n = to_num_spec(s);
    assert(n == a * 26 + d);
    assert(n >= 1) by (nonlinear_arith)
        requires
            a >= 0,
            1 <= d,
            n == a * 26 + d,
    ;
    lemma_fundamental_div_mod_converse(n - 1, 26, a, d - 1);
    assert(((n - 1) as int) / 26 == a);
    assert(((n - 1) as int) % 26 == d - 1);
    assert(from_num_spec(n as nat) == from_num_spec(a as nat).push(letter_of(d - 1)));
    assert(letter_of(d - 1) == s.last());
    if hd.len() == 0 {
        assert(a == 0);
        assert(from_num_spec(n as nat) =~= s);
    } else {
        lemma_from_to_roundtrip(hd);
        assert(from_num_spec(a as nat) == hd);
        assert(from_num_spec(n as nat) =~= s);
    }
}

/// Whether every character of `s` is a lowercase ASCII letter, i.e.
/// whether `s` is a value string the codec is defined on.
pub fn is_lower_str(s: &str) -> (r: bool)
    ensures
        r == is_lower(s@),
{
    let len = s.unicode_len();
    let mut i: usize = 0;
    while i < len
        invariant
            0 <= i <= len,
            len == s@.len(),
            forall|j: int| 0 <= j < i ==> is_lower_char(s@[j]),
        decreases len - i,
    {
        let c = s.get_char(i);
        if !('a' <= c && c <= 'z') {
            return false;
        }
        i += 1;
    }
    true
}

/// Decode a lowercase string to its number, saturating at `u64::MAX`.
pub fn to_num(s: &str) -> (r: u64)
    requires
        is_lower(s@),
    ensures
        r == to_num_clamped(s@),
{
    let len = s.unicode_len();
    let mut acc: u64 = 0;
    let mut i: usize = 0;
    while i < len
        invariant
            0 <= i <= len,
            len == s@.len(),
            is_lower(s@),
            acc == clamp(to_num_spec(s@.subrange(0, i as int))),
        decreases len - i,
    {
        let c = s.get_char(i);
        assert(is_lower_char(c));
        let d: u64 = c as u64 - 96;
        proof {
            let pre = s@.subrange(0, i as int);
            let post = s@.subrange(0, i + 1);
            assert(post.drop_last() =~= pre);
            assert(post.last() == s@[i as int]);
            assert(is_lower(pre));
            lemma_to_num_nonneg(pre);
            let a = to_num_spec(pre);
            if a > u64::MAX {
                assert(a * 26 + d >= a) by (nonlinear_arith)
                    requires
                        a >= 0,
                        d >= 1,
                ;
            } else {
                assert(acc == a);
            }
        }
        let next: u64 = if acc > u64::MAX / 26 {
            proof {
                let a = to_num_spec(s@.subrange(0, i as int));
                assert(a * 26 + d > u64::MAX) by (nonlinear_arith)
                    requires
                        a >= acc,
                        acc > u64::MAX / 26,
                        d >= 1,
                        u64::MAX / 26 == 709490156681136600,
                ;
            }
            u64::MAX
        } else {
            let m = acc * 26;
            proof {
                let a = to_num_spec(s@.subrange(0, i as int));
                if a <= u64::MAX {
                    assert(a * 26 == m);
                } else {
                    assert(false);
                }
            }
            if m > u64::MAX - d {
                u64::MAX
            } else {
                m + d
            }
        };
        proof {
            let a = to_num_spec(s@.subrange(0, i as int));
            let post = s@.subrange(0, i + 1);
            assert(to_num_spec(post) == a * 26 + d);
            if a > u64::MAX {
                assert(a * 26 + d > u64::MAX) by (nonlinear_arith)
                    requires
                        a > u64::MAX,
                        d >= 1,
                ;
            }
        }
        acc = next;
        i += 1;
    }
    proof {
        assert(s@.subrange(0, len as int) =~= s@);
    }
    acc
}

/// Encode a number as its lowercase string; 0 encodes as "a".
pub fn from_num(num: u64) -> (r: String)
    ensures
        r@ == from_num_total(num as nat),
        is_lower(r@),
        r@.len() > 0,
{
    proof {
        lemma_from_num_lower(num as nat);
    }
    if num == 0 {
        let mut out = String::new();
        push_char(&mut out, 'a');
        assert(out@ =~= seq!['a']);
        return out;
    }
    let mut digits: Vec<char> = Vec::new();
    let mut n: u64 = num;
    while n > 0
        invariant
            from_num_spec(num as nat) =~= from_num_spec(n as nat) + digits@.reverse(),
        decreases n,
    {
        proof {
            lemma_qr(n as nat);
        }
        let d: u64 = (n - 1) % 26;
        let c: char = (97 + d as u8) as char;
        let ghost old_digits = digits@;
        let ghost old_n = n as nat;
        digits.push(c);
        n = (n - 1) / 26;
        proof {
            assert(c == letter_of(((old_n - 1) as int) % 26));
            assert(from_num_spec(old_n) == from_num_spec(n as nat).push(c));
            assert(digits@ =~= old_digits.push(c));
            assert(digits@.reverse() =~= seq![c] + old_digits.reverse());
            assert(from_num_spec(n as nat).push(c) + old_digits.reverse() =~= from_num_spec(
                n as nat,
            ) + digits@.reverse());
        }
    }
    assert(from_num_spec(num as nat) =~= digits@.reverse());
    let mut out = String::new();
    let k = digits.len();
    let mut i: usize = 0;
    while i < k
        invariant
            0 <= i <= k,
            k == digits@.len(),
            out@ =~= digits@.reverse().subrange(0, i as int),
        decreases k - i,
    {
        let c = digits[k - 1 - i];
        push_char(&mut out, c);
        proof {
            assert(digits@.reverse()[i as int] == digits@[k - 1 - i]);
            assert(out@ =~= digits@.reverse().subrange(0, i + 1));
        }
        i += 1;
    }
    proof {
        assert(digits@.reverse().subrange(0, k as int) =~= digits@.reverse());
        lemma_from_num_lower(num as nat);
    }
    out
}

/// The value `add` returns: the clamped sum, re-encoded.
pub open spec fn add_spec(l: Seq<char>, r: Seq<char>) -> Seq<char> {
    from_num_total(clamp(to_num_clamped(l) + to_num_clamped(r)) as nat)
}

/// The value `sub` returns: the difference floored at 1, so the result
/// never falls below the identity value "a".
pub open spec fn sub_spec(l: Seq<char>, r: Seq<char>) -> Seq<char> {
    let d = to_num_clamped(l) - to_num_clamped(r);
    from_num_total((if d < 1 { 1int } else { d }) as nat)
}

/// The value `mul` returns: the clamped product, re-encoded.
pub open spec fn mul_spec(l: Seq<char>, r: Seq<char>) -> Seq<char> {
    from_num_total(clamp(to_num_clamped(l) * to_num_clamped(r)) as nat)
}

/// The value `div` returns: "a" for a divisor that decodes to 0, and
/// otherwise the quotient floored at 1.
pub open spec fn div_spec(l: Seq<char>, r: Seq<char>) -> Seq<char> {
    if to_num_clamped(r) == 0 {
        seq!['a']
    } else {
        let q = to_num_clamped(l) / to_num_clamped(r);
        from_num_total((if q < 1 { 1int } else { q }) as nat)
    }
}

/// Base-26 addition: decode both sides, add with saturation, re-encode.
pub fn add(left: &str, right: &str) -> (r: String)
    requires
        is_lower(left@),
        is_lower(right@),
    ensures
        r@ == add_spec(left@, right@),
        is_lower(r@),
        r@.len() > 0,
{
    let left_num = to_num(left);
    let right_num = to_num(right);
    from_num(left_num.saturating_add(right_num))
}

/// Base-26 subtraction, floored at the identity value "a".
pub fn sub(left: &str, right: &str) -> (r: String)
    requires
        is_lower(left@),
        is_lower(right@),
    ensures
        r@ == sub_spec(left@, right@),
        is_lower(r@),
        r@.len() > 0,
{
    let left_num = to_num(left);
    let right_num = to_num(right);
    let d = left_num.saturating_sub(right_num);
    from_num(if d < 1 { 1 } else { d })
}

/// Base-26 multiplication: decode both sides, multiply with saturation,
/// re-encode.
pub fn mul(left: &str, right: &str) -> (r: String)
    requires
        is_lower(left@),
        is_lower(right@),
    ensures
        r@ == mul_spec(left@, right@),
        is_lower(r@),
        r@.len() > 0,
{
    let left_num = to_num(left);
    let right_num = to_num(right);
    let p: u64 = if right_num != 0 && left_num > u64::MAX / right_num {
        proof {
            lemma_sat_mul(left_num as int, right_num as int);
        }
        u64::MAX
    } else {
        if right_num == 0 {
            proof {
                assert(left_num * 0 == 0) by (nonlinear_arith);
            }
            0
        } else {
            proof {
                lemma_mul_fits(left_num as int, right_num as int);
            }
            left_num * right_num
        }
    };
    from_num(p)
}

proof fn lemma_sat_mul(a: int, b: int)
    requires
        0 <= a <= u64::MAX,
        0 < b <= u64::MAX,
        a > (u64::MAX as int) / b,
    ensures
        a * b > u64::MAX,
{
    let m = u64::MAX as int;
    vstd::arithmetic::div_mod::lemma_fundamental_div_mod(m, b);
    assert(a >= m / b + 1);
    assert(a * b >= (m / b + 1) * b) by (nonlinear_arith)
        requires
            a >= (m / b) + 1,
            b > 0,
    ;
    assert((m / b + 1) * b == (m / b) * b + b) by (nonlinear_arith);
    assert((m / b) * b + b > m) by {
        assert(m == b * (m / b) + m % b);
        assert(m % b < b) by {
            vstd::arithmetic::div_mod::lemma_mod_bound(m, b);
        }
        assert((m / b) * b == b * (m / b)) by (nonlinear_arith);
    }
}

proof fn lemma_mul_fits(a: int, b: int)
    requires
        0 <= a,
        0 < b <= u64::MAX,
        a <= (u64::MAX as int) / b,
    ensures
        a * b <= u64::MAX,
{
    let m = u64::MAX as int;
    assert(a * b <= (m / b) * b) by (nonlinear_arith)
        requires
            a <= m / b,
            b > 0,
    ;
    assert((m / b) * b <= m) by {
        assert(m == b * (m / b) + m % b) by {
            vstd::arithmetic::div_mod::lemma_fundamental_div_mod(m, b);
        }
        assert(m % b >= 0) by {
            vstd::arithmetic::div_mod::lemma_mod_bound(m, b);
        }
        assert((m / b) * b == b * (m / b)) by (nonlinear_arith);
    }
}

/// Base-26 division: a divisor decoding to 0 gives "a", and the
/// quotient is floored at 1.
pub fn div(left: &str, right: &str) -> (r: String)
    requires
        is_lower(left@),
        is_lower(right@),
    ensures
        r@ == div_spec(left@, right@),
        is_lower(r@),
        r@.len() > 0,
{
    let left_num = to_num(left);
    let right_num = to_num(right);
    if right_num == 0 {
        return from_num(0);
    }
    let q = left_num / right_num;
    from_num(if q < 1 { 1 } else { q })
}

/// Equality of the decoded values.
pub fn compare_eq(left: &str, right: &str) -> (r: bool)
    requires
        is_lower(left@),
        is_lower(right@),
    ensures
        r == (to_num_clamped(left@) == to_num_clamped(right@)),
{
    to_num(left) == to_num(right)
}

/// Inequality of the decoded values.
pub fn compare_ne(left: &str, right: &str) -> (r: bool)
    requires
        is_lower(left@),
        is_lower(right@),
    ensures
        r == (to_num_clamped(left@) != to_num_clamped(right@)),
{
    to_num(left) != to_num(right)
}

/// Strict order of the decoded values.
pub fn compare_lt(left: &str, right: &str) -> (r: bool)
    requires
        is_lower(left@),
        is_lower(right@),
    ensures
        r == (to_num_clamped(left@) < to_num_clamped(right@)),
{
    to_num(left) < to_num(right)
}

/// Strict reverse order of the decoded values.
pub fn compare_gt(left: &str, right: &str) -> (r: bool)
    requires
        is_lower(left@),
        is_lower(right@),
    ensures
        r == (to_num_clamped(left@) > to_num_clamped(right@)),
{
    to_num(left) > to_num(right)
}

/// Non-strict order of the decoded values.
pub fn compare_le(left: &str, right: &str) -> (r: bool)
    requires
        is_lower(left@),
        is_lower(right@),
    ensures
        r == (to_num_clamped(left@) <= to_num_clamped(right@)),
{
    to_num(left) <= to_num(right)
}

/// Non-strict reverse order of the decoded values.
pub fn compare_ge(left: &str, right: &str) -> (r: bool)
    requires
        is_lower(left@),
        is_lower(right@),
    ensures
        r == (to_num_clamped(left@) >= to_num_clamped(right@)),
{
    to_num(left) >= to_num(right)
}

/// For value strings whose numbers are representable, the clamped
/// numbers the executable comparisons decide on agree with the true
/// denoted numbers, so each comparison decides exactly the numeric
/// order of its operands.
pub proof fn lemma_compare_exact(a: Seq<char>, b: Seq<char>)
    requires
        is_lower(a),
        is_lower(b),
        to_num_spec(a) <= u64::MAX,
        to_num_spec(b) <= u64::MAX,
    ensures
        (to_num_clamped(a) == to_num_clamped(b)) == (to_num_spec(a) == to_num_spec(b)),
        (to_num_clamped(a) != to_num_clamped(b)) == (to_num_spec(a) != to_num_spec(b)),
        (to_num_clamped(a) < to_num_clamped(b)) == (to_num_spec(a) < to_num_spec(b)),
        (to_num_clamped(a) > to_num_clamped(b)) == (to_num_spec(a) > to_num_spec(b)),
        (to_num_clamped(a) <= to_num_clamped(b)) == (to_num_spec(a) <= to_num_spec(b)),
        (to_num_clamped(a) >= to_num_clamped(b)) == (to_num_spec(a) >= to_num_spec(b)),
{
}

/// The comparisons are each other's mirrors: swapping the operands
/// turns strict less-than into strict greater-than and non-strict
/// less-than into non-strict greater-than, equality and inequality are
/// symmetric, and each non-strict order is the negation of the opposite
/// strict order.
pub proof fn lemma_compare_duality(a: Seq<char>, b: Seq<char>)
    ensures
        (to_num_clamped(a) < to_num_clamped(b)) == (to_num_clamped(b) > to_num_clamped(a)),
        (to_num_clamped(a) <= to_num_clamped(b)) == (to_num_clamped(b) >= to_num_clamped(a)),
        (to_num_clamped(a) == to_num_clamped(b)) == (to_num_clamped(b) == to_num_clamped(a)),
        (to_num_clamped(a) != to_num_clamped(b)) == !(to_num_clamped(a) == to_num_clamped(b)),
        (to_num_clamped(a) <= to_num_clamped(b)) == !(to_num_clamped(a) > to_num_clamped(b)),
        (to_num_clamped(a) >= to_num_clamped(b)) == !(to_num_clamped(a) < to_num_clamped(b)),
{
}

/// Addition saturates: when the true sum does not fit in the
/// representable range, `add` returns the encoding of the largest
/// representable value instead of wrapping.
pub proof fn lemma_add_saturates(a: Seq<char>, b: Seq<char>)
    requires
        is_lower(a),
        is_lower(b),
        to_num_spec(a) + to_num_spec(b) > u64::MAX,
    ensures
        add_spec(a, b) == from_num_spec(u64::MAX as nat),
{
    lemma_to_num_nonneg(a);
    lemma_to_num_nonneg(b);
}

/// Multiplication saturates: when the true product does not fit in the
/// representable range, `mul` returns the encoding of the largest
/// representable value instead of wrapping.
pub proof fn lemma_mul_saturates(a: Seq<char>, b: Seq<char>)
    requires
        is_lower(a),
        is_lower(b),
        to_num_spec(a) * to_num_spec(b) > u64::MAX,
    ensures
        mul_spec(a, b) == from_num_spec(u64::MAX as nat),
{
    lemma_to_num_nonneg(a);
    lemma_to_num_nonneg(b);
    let ta = to_num_spec(a);
    let tb = to_num_spec(b);
    let ca = to_num_clamped(a);
    let cb = to_num_clamped(b);
    assert(tb >= 1 && ta >= 1) by (nonlinear_arith)
        requires
            ta * tb > u64::MAX,
            ta >= 0,
            tb >= 0,
    ;
    if ta <= u64::MAX && tb <= u64::MAX {
        assert(ca * cb > u64::MAX);
    } else {
        assert(ca >= 1 && cb >= 1 && (ca == u64::MAX || cb == u64::MAX));
        assert(ca * cb >= u64::MAX) by (nonlinear_arith)
            requires
                ca >= 1,
                cb >= 1,
                ca == u64::MAX || cb == u64::MAX,
        ;
    }
    assert(clamp(ca * cb) == u64::MAX);
}

/// Subtraction floors at the identity value: subtracting a value from
/// itself gives "a", and no difference ever decodes below 1.
pub proof fn lemma_sub_floor(a: Seq<char>, b: Seq<char>)
    requires
        is_lower(a),
        is_lower(b),
    ensures
        sub_spec(a, a) == seq!['a'],
        to_num_spec(sub_spec(a, b)) >= 1,
{
    assert(from_num_spec(1) =~= seq!['a']) by {
        assert(from_num_spec(1) == from_num_spec(0).push(letter_of(0)));
    }
    let d = to_num_clamped(a) - to_num_clamped(b);
    let f = if d < 1 { 1int } else { d };
    lemma_to_from_roundtrip(f as nat);
}

/// Division by a value that decodes to 0 returns the identity value
/// "a". Under the canonical digit range 1..=26 only the empty string
/// decodes to 0: "a" itself decodes to 1.
pub proof fn lemma_div_by_zero(a: Seq<char>, b: Seq<char>)
    requires
        is_lower(b),
        to_num_spec(b) == 0,
    ensures
        div_spec(a, b) == seq!['a'],
{
}

/// The executable codec round-trips: for a value string whose number is
/// representable, decoding (which then does not clamp) and re-encoding
/// returns exactly the original string.
pub proof fn lemma_exec_roundtrip(s: Seq<char>)
    requires
        is_lower(s),
        s.len() > 0,
        to_num_spec(s) <= u64::MAX,
    ensures
        from_num_total(to_num_clamped(s) as nat) == s,
        to_num_clamped(s) == to_num_spec(s),
{
    lemma_from_to_roundtrip(s);
}

} // verus!
