//! Decimal digits: the spec-level value of a digit string, and verified
//! rendering of integers to their minimal decimal form.

use vstd::prelude::*;

verus! {

/// `c` is one of `'0'..='9'`.
pub open spec fn is_digit(c: char) -> bool {
    '0' <= c && c <= '9'
}

/// Numeric value of a digit character; meaningful only when `is_digit(c)`.
pub open spec fn digit_val(c: char) -> int {
    (c as u32) - ('0' as u32)
}

/// The digit character for a value in `0..=9`.
pub open spec fn digit_char(d: int) -> char {
    if d == 0 { '0' }
    else if d == 1 { '1' }
    else if d == 2 { '2' }
    else if d == 3 { '3' }
    else if d == 4 { '4' }
    else if d == 5 { '5' }
    else if d == 6 { '6' }
    else if d == 7 { '7' }
    else if d == 8 { '8' }
    else { '9' }
}

/// Every character of `s` is a decimal digit.
pub open spec fn all_digits(s: Seq<char>) -> bool {
    forall|i: int| 0 <= i < s.len() ==> is_digit(#[trigger] s[i])
}

/// The numeric value of a digit string, most significant digit first.
pub open spec fn digits_val(s: Seq<char>) -> int
    decreases s.len(),
{
    if s.len() == 0 {
        0
    } else {
        digits_val(s.drop_last()) * 10 + digit_val(s.last())
    }
}

/// 10 to the `k`.
pub open spec fn pow10(k: nat) -> int
    decreases k,
{
    if k == 0 {
        1
    } else {
        10 * pow10((k - 1) as nat)
    }
}

/// The minimal decimal rendering of `n`: no leading zero unless `n` is `0`
/// itself.
pub open spec fn spec_digits_of(n: nat) -> Seq<char>
    decreases n,
{
    if n < 10 {
        seq![digit_char(n as int)]
    } else {
        spec_digits_of(n / 10).push(digit_char((n % 10) as int))
    }
}

pub proof fn lemma_pow10_pos(k: nat)
    ensures
        pow10(k) >= 1,
    decreases k,
{
    if k > 0 {
        lemma_pow10_pos((k - 1) as nat);
    }
}

pub proof fn lemma_pow10_mono(j: nat, k: nat)
    requires
        j <= k,
    ensures
        pow10(j) <= pow10(k),
    decreases k,
{
    if j < k {
        lemma_pow10_mono(j, (k - 1) as nat);
        lemma_pow10_pos((k - 1) as nat);
    }
}

/// Powers of ten multiply by adding exponents.
pub proof fn lemma_pow10_add(a: nat, b: nat)
    ensures
        pow10(a + b) == pow10(a) * pow10(b),
    decreases a,
{
    if a == 0 {
    } else {
        lemma_pow10_add((a - 1) as nat, b);
        assert(10 * (pow10((a - 1) as nat) * pow10(b)) == (10 * pow10((a - 1) as nat)) * pow10(
            b,
        )) by (nonlinear_arith);
    }
}

/// Appending one digit multiplies the value by ten and adds the digit.
pub proof fn lemma_digits_val_snoc(s: Seq<char>, c: char)
    ensures
        digits_val(s.push(c)) == digits_val(s) * 10 + digit_val(c),
{
    assert(s.push(c).drop_last() =~= s);
    assert(s.push(c).last() == c);
}

/// The value of a concatenation of digit strings.
pub proof fn lemma_digits_val_concat(a: Seq<char>, b: Seq<char>)
    ensures
        digits_val(a + b) == digits_val(a) * pow10(b.len()) + digits_val(b),
    decreases b.len(),
{
    if b.len() == 0 {
        assert(a + b =~= a);
    } else {
        let b0 = b.drop_last();
        let c = b.last();
        lemma_digits_val_concat(a, b0);
        assert(a + b =~= (a + b0).push(c));
        lemma_digits_val_snoc(a + b0, c);
        assert(b =~= b0.push(c));
        lemma_digits_val_snoc(b0, c);
        assert(digits_val(a) * pow10(b0.len()) * 10 + digits_val(b0) * 10
            == digits_val(a) * pow10(b.len()) + digits_val(b0) * 10) by (nonlinear_arith)
            requires
                pow10(b.len()) == 10 * pow10(b0.len()),
        ;
    }
}

/// A digit string's value is non-negative and below `pow10` of its length.
pub proof fn lemma_digits_val_bounds(s: Seq<char>)
    requires
        all_digits(s),
    ensures
        0 <= digits_val(s),
        digits_val(s) < pow10(s.len()),
    decreases s.len(),
{
    if s.len() > 0 {
        let s0 = s.drop_last();
        assert(all_digits(s0));
        lemma_digits_val_bounds(s0);
        assert(is_digit(s.last()));
        assert(0 <= digit_val(s.last()) <= 9);
        assert(digits_val(s0) * 10 <= (pow10(s0.len()) - 1) * 10) by (nonlinear_arith)
            requires
                digits_val(s0) <= pow10(s0.len()) - 1,
        ;
        assert(digits_val(s0) * 10 >= 0) by (nonlinear_arith)
            requires
                digits_val(s0) >= 0,
        ;
    }
}

/// The minimal rendering really denotes `n`, is made of digits, and has no
/// leading zero unless it is the single digit `0`.
pub proof fn lemma_digits_of_val(n: nat)
    ensures
        digits_val(spec_digits_of(n)) == n,
        all_digits(spec_digits_of(n)),
        spec_digits_of(n).len() >= 1,
        n > 0 ==> spec_digits_of(n)[0] != '0',
        n == 0 ==> spec_digits_of(n) =~= seq!['0'],
    decreases n,
{
    if n < 10 {
        let s = spec_digits_of(n);
        assert(s =~= seq![digit_char(n as int)]);
        assert(s.len() == 1);
        assert(s.drop_last() =~= Seq::<char>::empty());
        assert(digits_val(s.drop_last()) == 0);
        assert(s.last() == digit_char(n as int));
        assert(digits_val(s) == digits_val(s.drop_last()) * 10 + digit_val(s.last()));
        assert(digits_val(s) == digit_val(digit_char(n as int)));
        assert(is_digit(s[0]));
    } else {
        lemma_digits_of_val(n / 10);
        let s0 = spec_digits_of(n / 10);
        let c = digit_char((n % 10) as int);
        lemma_digits_val_snoc(s0, c);
        assert((n / 10) * 10 + n % 10 == n) by (nonlinear_arith)
            requires
                n >= 10,
        ;
        assert(is_digit(c));
        assert forall|i: int| 0 <= i < s0.push(c).len() implies is_digit(#[trigger] s0.push(c)[i]) by {
            if i < s0.len() {
                assert(s0.push(c)[i] == s0[i]);
            }
        }
        assert(spec_digits_of(n)[0] == s0[0]);
    }
}

/// Relies on std's `String::push`: appends exactly one character.
#[verifier::external_body]
pub fn push_char(s: &mut String, c: char)
    ensures
        final(s)@ == old(s)@.push(c),
{
    s.push(c);
}

/// Turns a digit value into its character.
pub fn digit_to_char(d: u8) -> (c: char)
    requires
        d < 10,
    ensures
        c == digit_char(d as int),
        is_digit(c),
{
    match d {
        0 => '0',
        1 => '1',
        2 => '2',
        3 => '3',
        4 => '4',
        5 => '5',
        6 => '6',
        7 => '7',
        8 => '8',
        _ => '9',
    }
}

/// The digit value of `c`, or `None` when `c` is not a digit.
pub fn char_digit(c: char) -> (r: Option<u8>)
    ensures
        match r {
            Some(d) => is_digit(c) && d < 10 && d as int == digit_val(c),
            None => !is_digit(c),
        },
{
    if '0' <= c && c <= '9' {
        Some(((c as u32) - ('0' as u32)) as u8)
    } else {
        None
    }
}

/// Renders `n` in its minimal decimal form.
pub fn render_u64(n: u64) -> (r: String)
    ensures
        r@ == spec_digits_of(n as nat),
{
    let mut out = String::new();
    if n == 0 {
        push_char(&mut out, '0');
        proof {
            assert(out@ =~= seq!['0']);
            assert(spec_digits_of(0) =~= seq!['0']);
        }
        return out;
    }
    let mut rev: Vec<char> = Vec::new();
    let mut m: u64 = n;
    proof {
        assert(rev@.reverse() =~= Seq::<char>::empty());
        assert(spec_digits_of(n as nat) =~= spec_digits_of(m as nat) + rev@.reverse());
    }
    while m > 0
        invariant
            m == 0 ==> spec_digits_of(n as nat) =~= rev@.reverse(),
            m > 0 ==> spec_digits_of(n as nat) =~= spec_digits_of(m as nat) + rev@.reverse(),
        decreases m,
    {
        let d: u8 = (m % 10) as u8;
        let c = digit_to_char(d);
        proof {
            let prev = rev@;
            assert(prev.push(c).reverse() =~= seq![c] + prev.reverse());
            if m >= 10 {
                assert(spec_digits_of(m as nat) =~= spec_digits_of((m as nat) / 10) + seq![c]);
                assert(spec_digits_of((m as nat) / 10) + seq![c] + prev.reverse()
                    =~= spec_digits_of((m as nat) / 10) + (seq![c] + prev.reverse()));
                assert((m / 10) as nat == (m as nat) / 10);
            } else {
                assert(spec_digits_of(m as nat) =~= seq![c]);
                assert(seq![c] + prev.reverse() =~= prev.push(c).reverse());
            }
        }
        rev.push(c);
        m = m / 10;
    }
    let len = rev.len();
    let mut i: usize = len;
    while i > 0
        invariant
            i <= len,
            len == rev@.len(),
            spec_digits_of(n as nat) =~= rev@.reverse(),
            out@ =~= rev@.reverse().subrange(0, len - i),
        decreases i,
    {
        let c = rev[i - 1];
        proof {
            assert(rev@.reverse()[len - i] == rev@[i - 1]);
            assert(rev@.reverse().subrange(0, len - i).push(c)
                =~= rev@.reverse().subrange(0, len - (i - 1)));
        }
        push_char(&mut out, c);
        i = i - 1;
    }
    proof {
        assert(rev@.reverse().subrange(0, len as int) =~= rev@.reverse());
    }
    out
}

} // verus!
