//! Fixed-point conversion between wire decimal strings and integer tick
//! counts.
//!
//! A [`Tick`] is the resolution of a price or size: the number of ticks in
//! one unit, always a power of ten. Converting never touches floating
//! point: a decimal string is exact in ticks or it is rejected.

use vstd::prelude::*;
use crate::digits::{
    all_digits, digit_val, digits_val, is_digit, pow10, spec_digits_of, char_digit,
    digit_to_char, push_char, render_u64, lemma_digits_val_concat, lemma_digits_val_bounds,
    lemma_digits_of_val, lemma_digits_val_snoc, lemma_pow10_pos, lemma_pow10_mono,
};
use crate::errors::ConversionError;
use vstd::string::StrSliceExecFns;
use vstd::string::StringExecFns;

verus! {

/// `i` splits `s` into a non-empty run of integer digits, a dot, and a
/// non-empty run of fractional digits.
pub open spec fn valid_split(s: Seq<char>, i: int) -> bool {
    &&& 1 <= i
    &&& i + 2 <= s.len()
    &&& s[i] == '.'
    &&& all_digits(s.subrange(0, i))
    &&& all_digits(s.subrange(i + 1, s.len() as int))
}

/// `s` is a decimal number: `digits` or `digits.digits`.
pub open spec fn decimal_shape(s: Seq<char>) -> bool {
    (s.len() > 0 && all_digits(s)) || (exists|i: int| valid_split(s, i))
}

/// Where the dot of `s` stands; meaningful only when `s` has a dot split.
pub open spec fn split_at(s: Seq<char>) -> int {
    choose|i: int| valid_split(s, i)
}

/// The digits before the dot (all of `s` when there is no dot).
pub open spec fn int_digits(s: Seq<char>) -> Seq<char> {
    if s.len() > 0 && all_digits(s) {
        s
    } else {
        s.subrange(0, split_at(s))
    }
}

/// The digits after the dot (empty when there is no dot).
pub open spec fn frac_digits(s: Seq<char>) -> Seq<char> {
    if s.len() > 0 && all_digits(s) {
        Seq::<char>::empty()
    } else {
        s.subrange(split_at(s) + 1, s.len() as int)
    }
}

/// Every character of `s` is the digit zero.
pub open spec fn all_zero(s: Seq<char>) -> bool {
    forall|i: int| 0 <= i < s.len() ==> #[trigger] s[i] == '0'
}

/// A run of `z` zero digits.
pub open spec fn zeros(z: nat) -> Seq<char> {
    Seq::new(z, |i: int| '0')
}

/// The fraction of `s` carries no more than `e` places of real precision:
/// beyond place `e` only zeros stand.
pub open spec fn precision_ok(s: Seq<char>, e: nat) -> bool {
    frac_digits(s).len() <= e || all_zero(frac_digits(s).subrange(e as int, frac_digits(s).len() as int))
}

/// The fraction of `s` brought to exactly `e` places: padded with zeros or
/// cut after place `e` (sound only when `precision_ok`).
pub open spec fn norm_frac(s: Seq<char>, e: nat) -> Seq<char> {
    let f = frac_digits(s);
    if f.len() <= e {
        f + zeros((e - f.len()) as nat)
    } else {
        f.subrange(0, e as int)
    }
}

/// The tick count a decimal string denotes at resolution `10^e` ticks per
/// unit, or `None` when the string is not a decimal, carries too much
/// precision, or leaves the `i64` range.
pub open spec fn spec_ticked(s: Seq<char>, e: nat) -> Option<int> {
    if !decimal_shape(s) {
        None
    } else if !precision_ok(s, e) {
        None
    } else {
        let v = digits_val(int_digits(s) + norm_frac(s, e));
        if v <= i64::MAX {
            Some(v)
        } else {
            None
        }
    }
}

/// The largest tick count: `i64::MAX`, as the wider type used while
/// converting.
pub const TICK_MAX: u128 = 9223372036854775807;

/// `f` without its trailing zero digits.
pub open spec fn strip_zeros(f: Seq<char>) -> Seq<char>
    decreases f.len(),
{
    if f.len() > 0 && f.last() == '0' {
        strip_zeros(f.drop_last())
    } else {
        f
    }
}

/// The canonical decimal rendering of a tick count `t` at resolution
/// `10^e`: the unit part in minimal digits, then, only when the tick
/// remainder is not zero, a dot and the fraction with no trailing zeros.
pub open spec fn spec_to_decimal(t: int, e: nat) -> Seq<char> {
    let q = t / pow10(e);
    let rem = t % pow10(e);
    if rem == 0 {
        spec_digits_of(q as nat)
    } else {
        let d = spec_digits_of(rem as nat);
        let fr = zeros((e - d.len()) as nat) + d;
        spec_digits_of(q as nat) + seq!['.'] + strip_zeros(fr)
    }
}

/// A value below `pow10(j)` renders in at most `j` digits.
proof fn lemma_digits_of_len(n: nat, j: nat)
    requires
        n < pow10(j),
        j >= 1,
    ensures
        spec_digits_of(n).len() <= j,
    decreases n,
{
    if n >= 10 {
        if j == 1 {
            reveal_with_fuel(pow10, 3);
            assert(false);
        }
        assert(n / 10 < pow10((j - 1) as nat)) by (nonlinear_arith)
            requires
                n < pow10(j),
                pow10(j) == 10 * pow10((j - 1) as nat),
                n >= 10,
        ;
        lemma_digits_of_len(n / 10, (j - 1) as nat);
    }
}

/// What stripping trailing zeros keeps: a digit prefix with the same value
/// up to a power of ten, ending in a nonzero digit.
proof fn lemma_strip_zeros(f: Seq<char>)
    requires
        all_digits(f),
    ensures
        strip_zeros(f).len() <= f.len(),
        strip_zeros(f) =~= f.subrange(0, strip_zeros(f).len() as int),
        f =~= strip_zeros(f) + zeros((f.len() - strip_zeros(f).len()) as nat),
        digits_val(f) == digits_val(strip_zeros(f)) * pow10(
            (f.len() - strip_zeros(f).len()) as nat,
        ),
        all_digits(strip_zeros(f)),
        strip_zeros(f).len() > 0 ==> strip_zeros(f).last() != '0',
        strip_zeros(f).len() == 0 ==> digits_val(f) == 0,
    decreases f.len(),
{
    let g = strip_zeros(f);
    if f.len() > 0 && f.last() == '0' {
        let f0 = f.drop_last();
        assert(all_digits(f0));
        lemma_strip_zeros(f0);
        let z = (f0.len() - g.len()) as nat;
        lemma_zeros_val(z);
        lemma_zeros_val((z + 1) as nat);
        assert(f =~= g + zeros((z + 1) as nat)) by {
            assert(f =~= f0.push('0'));
            assert(f0 =~= g + zeros(z));
            assert((g + zeros(z)).push('0') =~= g + zeros((z + 1) as nat));
        }
        lemma_digits_val_snoc(f0, '0');
        assert(digit_val('0') == 0);
        assert(digits_val(g) * pow10(z) * 10 == digits_val(g) * pow10((z + 1) as nat))
            by (nonlinear_arith)
            requires
                pow10((z + 1) as nat) == 10 * pow10(z),
        ;
        assert(g =~= f.subrange(0, g.len() as int)) by {
            assert(g =~= f0.subrange(0, g.len() as int));
        }
    } else {
        lemma_zeros_val(0);
        assert(f =~= f + zeros(0));
        assert(g =~= f.subrange(0, f.len() as int));
    }
}

/// Stripping at a known last-nonzero point.
proof fn lemma_strip_point(f: Seq<char>, fe: int)
    requires
        1 <= fe <= f.len(),
        f[fe - 1] != '0',
        all_zero(f.subrange(fe, f.len() as int)),
    ensures
        strip_zeros(f) =~= f.subrange(0, fe),
    decreases f.len(),
{
    if f.len() == fe {
        assert(f.last() != '0');
        assert(f.subrange(0, fe) =~= f);
    } else {
        assert(f.last() == '0') by {
            assert(f.subrange(fe, f.len() as int)[f.len() - 1 - fe] == f.last());
        }
        let f0 = f.drop_last();
        assert(all_zero(f0.subrange(fe, f0.len() as int))) by {
            assert forall|w: int| 0 <= w < f0.len() - fe implies #[trigger] f0.subrange(
                fe,
                f0.len() as int,
            )[w] == '0' by {
                assert(f0.subrange(fe, f0.len() as int)[w] == f[fe + w]);
                assert(f.subrange(fe, f.len() as int)[w] == f[fe + w]);
            }
        }
        assert(f0[fe - 1] == f[fe - 1]);
        lemma_strip_point(f0, fe);
        assert(f0.subrange(0, fe) =~= f.subrange(0, fe));
    }
}

/// The fraction of a decimal, once trailing zeros are stripped and its
/// stripped value is known, fixes the normalized fraction's value.
proof fn lemma_norm_frac_shape(s: Seq<char>, e: nat, dot: int, fe: int, kp: nat, fval: int)
    requires
        decimal_shape(s),
        kp <= e,
        dot == s.len() ==> s.len() > 0 && all_digits(s) && kp == 0 && fval == 0,
        dot < s.len() ==> valid_split(s, dot) && dot + 1 <= fe <= s.len() && kp == fe - dot - 1
            && all_zero(s.subrange(fe, s.len() as int)) && fval == digits_val(
            s.subrange(dot + 1, fe),
        ),
        dot <= s.len(),
    ensures
        norm_frac(s, e).len() == e,
        digits_val(norm_frac(s, e)) == fval * pow10((e - kp) as nat),
        precision_ok(s, e),
{
    let f = frac_digits(s);
    if dot == s.len() {
        lemma_no_split_of_digits(s);
        assert(f =~= Seq::<char>::empty());
        lemma_zeros_val(e);
        assert(norm_frac(s, e) =~= zeros(e));
    } else {
        assert(valid_split(s, split_at(s)));
        lemma_split_unique(s, split_at(s), dot);
        assert(!(s.len() > 0 && all_digits(s))) by {
            assert(s[dot] == '.');
            assert(!is_digit(s[dot]));
        }
        assert(f =~= s.subrange(dot + 1, s.len() as int));
        let fp = s.subrange(dot + 1, fe);
        let z = (e - kp) as nat;
        lemma_zeros_val(z);
        assert(norm_frac(s, e) =~= fp + zeros(z)) by {
            if f.len() <= e {
                let pad = zeros((e - f.len()) as nat);
                lemma_zeros_val((e - f.len()) as nat);
                assert forall|w: int| 0 <= w < e implies (f + pad)[w] == (fp + zeros(z))[w] by {
                    if w < kp {
                        assert((f + pad)[w] == f[w]);
                        assert(f[w] == s[dot + 1 + w]);
                        assert((fp + zeros(z))[w] == fp[w]);
                    } else if w < f.len() {
                        assert((f + pad)[w] == f[w]);
                        assert(f[w] == s[dot + 1 + w]);
                        assert(s.subrange(fe, s.len() as int)[dot + 1 + w - fe] == s[dot + 1 + w]);
                        assert((fp + zeros(z))[w] == '0');
                    } else {
                        assert((f + pad)[w] == '0');
                        assert((fp + zeros(z))[w] == '0');
                    }
                }
                assert((f + pad).len() == e);
                assert((fp + zeros(z)).len() == e);
            } else {
                let cut = f.subrange(0, e as int);
                assert forall|w: int| 0 <= w < e implies cut[w] == (fp + zeros(z))[w] by {
                    assert(cut[w] == f[w]);
                    assert(f[w] == s[dot + 1 + w]);
                    if w < kp {
                        assert((fp + zeros(z))[w] == fp[w]);
                    } else {
                        assert(s.subrange(fe, s.len() as int)[dot + 1 + w - fe] == s[dot + 1 + w]);
                        assert((fp + zeros(z))[w] == '0');
                    }
                }
                assert(cut.len() == e);
                assert((fp + zeros(z)).len() == e);
            }
        }
        lemma_digits_val_concat(fp, zeros(z));
        if f.len() > e {
            assert(all_zero(f.subrange(e as int, f.len() as int))) by {
                assert forall|w: int| 0 <= w < f.len() - e implies #[trigger] f.subrange(
                    e as int,
                    f.len() as int,
                )[w] == '0' by {
                    assert(f.subrange(e as int, f.len() as int)[w] == s[dot + 1 + e + w]);
                    assert(s.subrange(fe, s.len() as int)[dot + 1 + e + w - fe] == s[dot + 1 + e
                        + w]);
                }
            }
        }
    }
}

/// The normalized fraction of a decimal is made of digits.
proof fn lemma_norm_frac_digits(s: Seq<char>, e: nat)
    requires
        decimal_shape(s),
    ensures
        all_digits(norm_frac(s, e)),
{
    let f = frac_digits(s);
    assert(all_digits(f)) by {
        if s.len() > 0 && all_digits(s) {
        } else {
            assert(valid_split(s, split_at(s)));
            assert(f =~= s.subrange(split_at(s) + 1, s.len() as int));
        }
    }
    if f.len() <= e {
        let z = (e - f.len()) as nat;
        lemma_zeros_val(z);
        assert forall|w: int| 0 <= w < norm_frac(s, e).len() implies is_digit(
            #[trigger] norm_frac(s, e)[w],
        ) by {
            if w < f.len() {
                assert(norm_frac(s, e)[w] == f[w]);
            } else {
                assert(norm_frac(s, e)[w] == zeros(z)[w - f.len()]);
            }
        }
    } else {
        assert forall|w: int| 0 <= w < norm_frac(s, e).len() implies is_digit(
            #[trigger] norm_frac(s, e)[w],
        ) by {
            assert(norm_frac(s, e)[w] == f[w]);
        }
    }
}

/// The resolution of a price or size: `pow10(exp)` ticks make one unit.
#[derive(Copy, Clone, PartialEq, Eq, Structural, Hash, Debug)]
pub struct Tick {
    pub exp: u8,
}

impl Tick {
    /// The resolution exponent is small enough that a unit count in ticks
    /// stays computable.
    pub open spec fn valid(self) -> bool {
        self.exp <= 18
    }

    pub open spec fn spec_exp(self) -> nat {
        self.exp as nat
    }

    /// A resolution of `ticks_per_unit` ticks in one unit. Only powers of
    /// ten up to `10^18` are exactly representable resolutions.
    pub fn new(ticks_per_unit: u64) -> (r: Option<Tick>)
        ensures
            match r {
                Some(t) => t.valid() && pow10(t.spec_exp()) == ticks_per_unit,
                None => forall|e: nat| e <= 18 ==> pow10(e) != ticks_per_unit,
            },
    {
        let mut e: u8 = 0;
        let mut v: u64 = 1;
        while v < ticks_per_unit && e < 18
            invariant
                e <= 18,
                v == pow10(e as nat),
                1 <= v,
                forall|j: nat| j < e ==> pow10(j) < ticks_per_unit,
            decreases 18 - e,
        {
            proof {
                lemma_pow10_pos(e as nat);
                lemma_pow10_mono(e as nat, 18);
                lemma_pow10_18();
            }
            v = v * 10;
            e = e + 1;
            proof {
                assert forall|j: nat| j < e implies pow10(j) < ticks_per_unit by {
                    if j < e - 1 {
                    } else {
                        lemma_pow10_mono(j, (e - 1) as nat);
                    }
                }
            }
        }
        if v == ticks_per_unit {
            Some(Tick { exp: e })
        } else {
            proof {
                assert forall|j: nat| j <= 18 implies pow10(j) != ticks_per_unit by {
                    if j >= e {
                        lemma_pow10_mono(e as nat, j);
                    }
                }
            }
            None
        }
    }

    /// Converts the decimal string `s` to an exact count of ticks at this
    /// resolution. `NotParseable`: `s` is not of the form `digits` or
    /// `digits.digits`. `TooPrecise`: a nonzero fractional digit stands
    /// beyond the resolution. `Overflow`: the exact tick count leaves the
    /// `i64` range.
    pub fn ticked(&self, s: &str) -> (r: Result<i64, ConversionError>)
        requires
            self.valid(),
        ensures
            match r {
                Ok(v) => 0 <= v && spec_ticked(s@, self.spec_exp()) == Some(v as int),
                Err(ConversionError::NotParseable) => !decimal_shape(s@),
                Err(ConversionError::TooPrecise) => decimal_shape(s@) && !precision_ok(
                    s@,
                    self.spec_exp(),
                ),
                Err(ConversionError::Overflow) => decimal_shape(s@) && precision_ok(
                    s@,
                    self.spec_exp(),
                ) && digits_val(int_digits(s@) + norm_frac(s@, self.spec_exp())) > i64::MAX,
            },
    {
        let ghost e: nat = self.spec_exp();
        let n = s.unicode_len();
        if n == 0 {
            return Err(ConversionError::NotParseable);
        }
        // one pass: find the dot, check every other character is a digit
        let mut dot: usize = n;
        let mut i: usize = 0;
        while i < n
            invariant
                i <= n,
                n == s@.len(),
                dot == n || (dot < i && s@[dot as int] == '.'),
                dot == n ==> all_digits(s@.subrange(0, i as int)),
                dot < n ==> all_digits(s@.subrange(0, dot as int)) && all_digits(
                    s@.subrange(dot as int + 1, i as int),
                ),
            decreases n - i,
        {
            let c = s.get_char(i);
            match char_digit(c) {
                Some(_) => {
                    proof {
                        if dot == n {
                            assert(s@.subrange(0, i as int + 1) =~= s@.subrange(
                                0,
                                i as int,
                            ).push(s@[i as int]));
                        } else {
                            assert(s@.subrange(dot as int + 1, i as int + 1) =~= s@.subrange(
                                dot as int + 1,
                                i as int,
                            ).push(s@[i as int]));
                        }
                    }
                },
                None => {
                    if c == '.' && dot == n {
                        dot = i;
                        proof {
                            assert(s@.subrange(dot as int + 1, i as int + 1).len() == 0);
                        }
                    } else {
                        proof {
                            assert(!is_digit(s@[i as int]));
                            assert(!all_digits(s@)) by {
                                if dot < n {
                                    assert(s@[dot as int] == '.');
                                    assert(!is_digit(s@[dot as int]));
                                } else {
                                    assert(!is_digit(s@[i as int]));
                                }
                            }
                            assert forall|sp: int| !valid_split(s@, sp) by {
                                if valid_split(s@, sp) {
                                    if dot < n {
                                        // both `dot` and `i` would have to be the dot
                                        if sp < dot {
                                            assert(is_digit(s@.subrange(0, dot as int)[sp]));
                                            assert(false);
                                        } else if sp > dot {
                                            assert(is_digit(s@.subrange(0, sp)[dot as int]));
                                            assert(false);
                                        } else {
                                            assert(is_digit(s@.subrange(sp + 1, s@.len() as int)[
                                                i as int - sp - 1]));
                                            assert(false);
                                        }
                                    } else {
                                        if sp < i {
                                            assert(is_digit(s@.subrange(0, i as int)[sp]));
                                            assert(false);
                                        } else if sp > i {
                                            assert(is_digit(s@.subrange(0, sp)[i as int]));
                                            assert(false);
                                        } else {
                                            assert(s@[sp] == '.');
                                            assert(false);
                                        }
                                    }
                                }
                            }
                        }
                        return Err(ConversionError::NotParseable);
                    }
                },
            }
            i = i + 1;
        }
        if dot < n && (dot == 0 || dot + 1 == n) {
            proof {
                assert(!all_digits(s@)) by {
                    assert(!is_digit(s@[dot as int]));
                }
                assert forall|sp: int| !valid_split(s@, sp) by {
                    if valid_split(s@, sp) {
                        if sp < dot {
                            assert(is_digit(s@.subrange(0, dot as int)[sp]));
                            assert(false);
                        } else if sp > dot {
                            assert(is_digit(s@.subrange(0, sp)[dot as int]));
                            assert(false);
                        } else {
                            assert(false);
                        }
                    }
                }
            }
            return Err(ConversionError::NotParseable);
        }
        proof {
            if dot == n {
                assert(s@.subrange(0, n as int) =~= s@);
                lemma_no_split_of_digits(s@);
                assert(decimal_shape(s@));
                assert(int_digits(s@) =~= s@);
                assert(frac_digits(s@) =~= Seq::<char>::empty());
            } else {
                assert(valid_split(s@, dot as int));
                assert(decimal_shape(s@));
                assert(valid_split(s@, split_at(s@)));
                lemma_split_unique(s@, split_at(s@), dot as int);
                assert(int_digits(s@) =~= s@.subrange(0, dot as int));
                assert(frac_digits(s@) =~= s@.subrange(dot as int + 1, n as int));
            }
        }
        let ie: usize = if dot < n { dot } else { n };
        proof {
            assert(int_digits(s@) =~= s@.subrange(0, ie as int));
        }
        // the integer digits, with an exact overflow flag
        let mut intval: u128 = 0;
        let mut big: bool = false;
        let mut j: usize = 0;
        while j < ie
            invariant
                j <= ie,
                ie <= n,
                n == s@.len(),
                all_digits(s@.subrange(0, ie as int)),
                !big ==> intval == digits_val(s@.subrange(0, j as int)) && intval <= TICK_MAX,
                big ==> digits_val(s@.subrange(0, j as int)) > TICK_MAX,
            decreases ie - j,
        {
            let c = s.get_char(j);
            proof {
                assert(is_digit(s@.subrange(0, ie as int)[j as int]));
            }
            let d = match char_digit(c) {
                Some(d) => d,
                None => {
                    proof {
                        assert(false);
                    }
                    0
                },
            };
            proof {
                assert(s@.subrange(0, j as int + 1) =~= s@.subrange(0, j as int).push(
                    s@[j as int],
                ));
                lemma_digits_val_snoc(s@.subrange(0, j as int), s@[j as int]);
            }
            if big {
            } else {
                let nv: u128 = intval * 10 + (d as u128);
                if nv > TICK_MAX {
                    big = true;
                } else {
                    intval = nv;
                }
            }
            j = j + 1;
        }
        // the fractional digits: strip trailing zeros, measure the precision
        let mut fe: usize = n;
        let mut fval: u128 = 0;
        let mut kp: usize = 0;
        if dot < n {
            // find the last nonzero fractional digit
            let mut lnz: usize = dot;
            let mut p: usize = dot + 1;
            while p < n
                invariant
                    dot < p <= n,
                    dot <= lnz < p,
                    n == s@.len(),
                    lnz == dot ==> all_zero(s@.subrange(dot as int + 1, p as int)),
                    lnz > dot ==> s@[lnz as int] != '0' && all_zero(
                        s@.subrange(lnz as int + 1, p as int),
                    ),
                decreases n - p,
            {
                let c = s.get_char(p);
                if c != '0' {
                    lnz = p;
                    proof {
                        assert(s@.subrange(lnz as int + 1, p as int + 1).len() == 0);
                    }
                } else {
                    proof {
                        let lo = if lnz == dot {
                            dot as int + 1
                        } else {
                            lnz as int + 1
                        };
                        assert(s@.subrange(lo, p as int + 1) =~= s@.subrange(lo, p as int).push(
                            s@[p as int],
                        ));
                        assert(all_zero(s@.subrange(lo, p as int + 1))) by {
                            assert forall|w: int| 0 <= w < p + 1 - lo implies #[trigger] s@.subrange(
                                lo,
                                p as int + 1,
                            )[w] == '0' by {
                                if w < p - lo {
                                    assert(s@.subrange(lo, p as int)[w] == s@.subrange(
                                        lo,
                                        p as int + 1,
                                    )[w]);
                                }
                            }
                        }
                    }
                }
                p = p + 1;
            }
            fe = if lnz > dot {
                lnz + 1
            } else {
                dot + 1
            };
            proof {
                assert(all_zero(s@.subrange(fe as int, n as int)));
                assert(fe > dot + 1 ==> s@[fe as int - 1] != '0');
            }
            kp = fe - dot - 1;
            let e_us: usize = self.exp as usize;
            if kp > e_us {
                proof {
                    let f = frac_digits(s@);
                    assert(f[kp as int - 1] == s@[fe as int - 1]);
                    assert(s@[fe as int - 1] != '0');
                    assert(f.len() > e);
                    assert(!all_zero(f.subrange(e as int, f.len() as int))) by {
                        assert(f.subrange(e as int, f.len() as int)[kp - 1 - e] == f[
                            kp as int - 1]);
                    }
                    assert(!precision_ok(s@, e));
                }
                return Err(ConversionError::TooPrecise);
            }
            // parse the stripped fraction
            let mut q: usize = dot + 1;
            while q < fe
                invariant
                    dot + 1 <= q <= fe,
                    fe <= n,
                    n == s@.len(),
                    dot < n,
                    all_digits(s@.subrange(dot as int + 1, n as int)),
                    fval == digits_val(s@.subrange(dot as int + 1, q as int)),
                    fval < pow10((q - dot - 1) as nat),
                    fe - dot - 1 <= 18,
                decreases fe - q,
            {
                let c = s.get_char(q);
                proof {
                    assert(is_digit(s@.subrange(dot as int + 1, n as int)[q - dot - 1]));
                }
                let d = match char_digit(c) {
                    Some(d) => d,
                    None => {
                        proof {
                            assert(false);
                        }
                        0
                    },
                };
                proof {
                    assert(s@.subrange(dot as int + 1, q as int + 1) =~= s@.subrange(
                        dot as int + 1,
                        q as int,
                    ).push(s@[q as int]));
                    lemma_digits_val_snoc(s@.subrange(dot as int + 1, q as int), s@[q as int]);
                    assert(all_digits(s@.subrange(dot as int + 1, q as int + 1)));
                    lemma_digits_val_bounds(s@.subrange(dot as int + 1, q as int + 1));
                    lemma_pow10_mono((q + 1 - dot - 1) as nat, 18);
                    lemma_pow10_18();
                }
                fval = fval * 10 + (d as u128);
                q = q + 1;
            }
        }
        // combine: v == digits_val(int_digits + norm_frac)
        let ghost id = int_digits(s@);
        let ghost nf = norm_frac(s@, e);
        proof {
            lemma_norm_frac_shape(s@, e, dot as int, fe as int, kp as nat, fval as int);
            lemma_digits_val_concat(id, nf);
        }
        if big {
            proof {
                assert(digits_val(id) > TICK_MAX);
                assert(digits_val(nf) >= 0) by {
                    lemma_norm_frac_digits(s@, e);
                    lemma_digits_val_bounds(nf);
                }
                lemma_pow10_pos(e);
                assert(digits_val(id) * pow10(e) >= digits_val(id)) by (nonlinear_arith)
                    requires
                        digits_val(id) >= 0,
                        pow10(e) >= 1,
                ;
            }
            return Err(ConversionError::Overflow);
        }
        let pe: u64 = pow10_u64(self.exp);
        let scale: u64 = pow10_u64(self.exp - (kp as u8));
        proof {
            lemma_pow10_18();
            lemma_pow10_mono(e, 18);
            lemma_pow10_mono((e - kp) as nat, 18);
            lemma_pow10_pos((e - kp) as nat);
            assert(intval * (pe as u128) <= 9223372036854775807 * 1000000000000000000)
                by (nonlinear_arith)
                requires
                    intval <= 9223372036854775807,
                    pe <= 1000000000000000000,
            ;
            crate::digits::lemma_pow10_add(kp as nat, (e - kp) as nat);
            assert(fval * (scale as u128) < pow10(e)) by (nonlinear_arith)
                requires
                    fval < pow10(kp as nat),
                    scale == pow10((e - kp) as nat),
                    pow10(kp as nat) * pow10((e - kp) as nat) == pow10(e),
                    pow10((e - kp) as nat) >= 1,
            ;
            assert(fval * (scale as u128) == digits_val(nf) as u128);
        }
        let v128: u128 = intval * (pe as u128) + fval * (scale as u128);
        proof {
            assert(v128 == digits_val(id) * pow10(e) + digits_val(nf));
            assert(v128 == digits_val(id + nf));
        }
        if v128 > TICK_MAX {
            return Err(ConversionError::Overflow);
        }
        proof {
            assert(digits_val(id + nf) <= i64::MAX);
            lemma_norm_frac_digits(s@, e);
            assert(all_digits(id + nf)) by {
                assert forall|w: int| 0 <= w < (id + nf).len() implies is_digit(
                    #[trigger] (id + nf)[w],
                ) by {
                    if w < id.len() {
                        assert((id + nf)[w] == id[w]);
                    } else {
                        assert((id + nf)[w] == nf[w - id.len()]);
                    }
                }
            }
            lemma_digits_val_bounds(id + nf);
        }
        Ok(v128 as i64)
    }

    /// The number of ticks in one unit.
    pub fn ticks_per_unit(&self) -> (r: u64)
        requires
            self.valid(),
        ensures
            r == pow10(self.spec_exp()),
    {
        pow10_u64(self.exp)
    }

    /// Renders a tick count back to its canonical decimal string: minimal
    /// digits, no trailing fractional zeros, no dot for a whole number of
    /// units.
    pub fn to_decimal(&self, t: i64) -> (r: String)
        requires
            self.valid(),
            0 <= t,
        ensures
            r@ == spec_to_decimal(t as int, self.spec_exp()),
    {
        let ghost e: nat = self.spec_exp();
        let pe: u64 = pow10_u64(self.exp);
        proof {
            lemma_pow10_pos(e);
        }
        let tu: u64 = t as u64;
        let q: u64 = tu / pe;
        let rem: u64 = tu % pe;
        let mut out = render_u64(q);
        if rem == 0 {
            return out;
        }
        let ghost aa = spec_digits_of(q as nat);
        push_char(&mut out, '.');
        proof {
            assert(out@ =~= aa + seq!['.']);
        }
        let ds = render_u64(rem);
        let dn = ds.as_str().unicode_len();
        proof {
            lemma_pow10_pos(e);
            if e == 0 {
                assert(pow10(0) == 1);
                assert(false);
            }
            lemma_digits_of_len(rem as nat, e);
            lemma_digits_of_val(rem as nat);
        }
        let ghost dd = spec_digits_of(rem as nat);
        let e_us: usize = self.exp as usize;
        let z: usize = e_us - dn;
        // zeros that place the digits of the remainder at the right depth
        let mut w: usize = 0;
        while w < z
            invariant
                w <= z,
                out@ =~= aa + seq!['.'] + zeros(w as nat),
            decreases z - w,
        {
            push_char(&mut out, '0');
            proof {
                lemma_zeros_val((w + 1) as nat);
                assert((aa + seq!['.'] + zeros(w as nat)).push('0') =~= aa + seq!['.'] + zeros(
                    (w + 1) as nat,
                ));
            }
            w = w + 1;
        }
        // the digits of the remainder, with trailing zeros stripped
        let mut lnz: usize = 0;
        let mut p: usize = 1;
        proof {
            assert(dd[0] != '0');
        }
        while p < dn
            invariant
                1 <= p <= dn,
                lnz < p,
                dn == dd.len(),
                ds@ == dd,
                dd[lnz as int] != '0',
                all_zero(dd.subrange(lnz as int + 1, p as int)),
            decreases dn - p,
        {
            let c = ds.as_str().get_char(p);
            if c != '0' {
                lnz = p;
                proof {
                    assert(dd.subrange(lnz as int + 1, p as int + 1).len() == 0);
                }
            } else {
                proof {
                    assert(dd.subrange(lnz as int + 1, p as int + 1) =~= dd.subrange(
                        lnz as int + 1,
                        p as int,
                    ).push(dd[p as int]));
                    assert(all_zero(dd.subrange(lnz as int + 1, p as int + 1))) by {
                        assert forall|v: int| 0 <= v < p + 1 - (lnz + 1) implies #[trigger]
                            dd.subrange(lnz as int + 1, p as int + 1)[v] == '0' by {
                            if v < p - (lnz + 1) {
                                assert(dd.subrange(lnz as int + 1, p as int)[v] == dd.subrange(
                                    lnz as int + 1,
                                    p as int + 1,
                                )[v]);
                            }
                        }
                    }
                }
            }
            p = p + 1;
        }
        let fe: usize = lnz + 1;
        let mut w2: usize = 0;
        while w2 < fe
            invariant
                w2 <= fe,
                fe <= dn,
                dn == dd.len(),
                ds@ == dd,
                out@ =~= aa + seq!['.'] + zeros(z as nat) + dd.subrange(0, w2 as int),
            decreases fe - w2,
        {
            let c = ds.as_str().get_char(w2);
            push_char(&mut out, c);
            proof {
                assert((aa + seq!['.'] + zeros(z as nat) + dd.subrange(0, w2 as int)).push(
                    dd[w2 as int],
                ) =~= aa + seq!['.'] + zeros(z as nat) + dd.subrange(0, w2 as int + 1));
            }
            w2 = w2 + 1;
        }
        proof {
            let fr = zeros(z as nat) + dd;
            lemma_zeros_val(z as nat);
            assert(fr[z + fe - 1] == dd[fe - 1]);
            assert(dd[fe - 1] != '0');
            assert(all_zero(fr.subrange(z + fe, fr.len() as int))) by {
                assert forall|v: int| 0 <= v < fr.len() - (z + fe) implies #[trigger] fr.subrange(
                    z + fe as int,
                    fr.len() as int,
                )[v] == '0' by {
                    assert(fr.subrange(z + fe as int, fr.len() as int)[v] == dd[fe + v]);
                    assert(dd.subrange(fe as int, dn as int)[fe + v - fe] == dd[fe + v]);
                    assert(all_zero(dd.subrange(fe as int, dn as int))) by {
                        assert forall|u: int| 0 <= u < dn - fe implies #[trigger] dd.subrange(
                            fe as int,
                            dn as int,
                        )[u] == '0' by {
                            assert(dd.subrange(lnz as int + 1, dn as int)[u] == dd[fe + u]);
                        }
                    }
                }
            }
            lemma_strip_point(fr, z + fe);
            assert(strip_zeros(fr) =~= zeros(z as nat) + dd.subrange(0, fe as int)) by {
                assert forall|v: int| 0 <= v < z + fe implies fr.subrange(0, z + fe as int)[v] == (
                    zeros(z as nat) + dd.subrange(0, fe as int))[v] by {}
            }
            assert(out@ =~= aa + seq!['.'] + strip_zeros(fr));
        }
        out
    }
}

/// The numeric value of the largest power of ten a resolution may use.
proof fn lemma_pow10_18()
    ensures
        pow10(18) == 1_000_000_000_000_000_000,
{
    reveal_with_fuel(pow10, 20);
}

/// Computes `10^e` for `e <= 18`.
pub fn pow10_u64(e: u8) -> (r: u64)
    requires
        e <= 18,
    ensures
        r == pow10(e as nat),
{
    let mut i: u8 = 0;
    let mut v: u64 = 1;
    while i < e
        invariant
            i <= e,
            e <= 18,
            v == pow10(i as nat),
        decreases e - i,
    {
        proof {
            lemma_pow10_mono((i + 1) as nat, 18);
            lemma_pow10_18();
            lemma_pow10_pos(i as nat);
        }
        v = v * 10;
        i = i + 1;
    }
    v
}

/// Round-trip exactness: the canonical decimal rendering of any tick count
/// converts back to exactly that tick count at the same resolution.
pub proof fn lemma_tick_round_trip(t: int, e: nat)
    requires
        0 <= t <= i64::MAX,
        e <= 18,
    ensures
        spec_ticked(spec_to_decimal(t, e), e) == Some(t),
{
    let p = pow10(e);
    lemma_pow10_pos(e);
    vstd::arithmetic::div_mod::lemma_fundamental_div_mod(t, p);
    vstd::arithmetic::div_mod::lemma_mod_bound(t, p);
    vstd::arithmetic::div_mod::lemma_div_pos_is_pos(t, p);
    let q = t / p;
    let rem = t % p;
    assert(q * p <= t) by (nonlinear_arith)
        requires
            t == p * q + rem,
            rem >= 0,
            p >= 1,
            q >= 0,
    ;
    assert(q <= q * p) by (nonlinear_arith)
        requires
            p >= 1,
            q >= 0,
    ;
    lemma_digits_of_val(q as nat);
    let aa = spec_digits_of(q as nat);
    if rem == 0 {
        let s = spec_to_decimal(t, e);
        assert(s == aa);
        lemma_no_split_of_digits(s);
        assert(decimal_shape(s));
        assert(int_digits(s) == s);
        assert(frac_digits(s) =~= Seq::<char>::empty());
        lemma_zeros_val(e);
        assert(norm_frac(s, e) =~= zeros(e));
        lemma_digits_val_concat(s, norm_frac(s, e));
        assert(digits_val(int_digits(s) + norm_frac(s, e)) == q * p);
        assert(q * p == t);
    } else {
        let d = spec_digits_of(rem as nat);
        lemma_digits_of_val(rem as nat);
        if e == 0 {
            assert(pow10(0) == 1);
            assert(false);
        }
        lemma_digits_of_len(rem as nat, e);
        let z = (e - d.len()) as nat;
        let fr = zeros(z) + d;
        lemma_zeros_val(z);
        assert(all_digits(fr)) by {
            assert forall|w: int| 0 <= w < fr.len() implies is_digit(#[trigger] fr[w]) by {
                if w < z {
                    assert(fr[w] == zeros(z)[w]);
                } else {
                    assert(fr[w] == d[w - z]);
                }
            }
        }
        lemma_digits_val_concat(zeros(z), d);
        assert(digits_val(fr) == rem);
        lemma_strip_zeros(fr);
        let g = strip_zeros(fr);
        assert(g.len() > 0) by {
            if g.len() == 0 {
                assert(digits_val(fr) == 0);
            }
        }
        let s = spec_to_decimal(t, e);
        assert(s == aa + seq!['.'] + g);
        let i = aa.len() as int;
        assert(valid_split(s, i)) by {
            assert(s[i] == '.') by {
                assert((aa + seq!['.'])[i] == '.');
                assert(s[i] == (aa + seq!['.'])[i]);
            }
            assert(s.subrange(0, i) =~= aa);
            assert(s.subrange(i + 1, s.len() as int) =~= g);
        }
        assert(decimal_shape(s));
        assert(!all_digits(s)) by {
            assert(s[i] == '.');
            assert(!is_digit(s[i]));
        }
        assert(valid_split(s, split_at(s)));
        lemma_split_unique(s, split_at(s), i);
        assert(int_digits(s) =~= aa);
        assert(frac_digits(s) =~= g);
        assert(g.len() <= e);
        assert(precision_ok(s, e));
        let z2 = (e - g.len()) as nat;
        lemma_zeros_val(z2);
        assert(norm_frac(s, e) =~= g + zeros(z2));
        lemma_digits_val_concat(g, zeros(z2));
        assert(fr.len() == e);
        assert(digits_val(g) * pow10(z2) == rem);
        assert(digits_val(norm_frac(s, e)) == rem);
        lemma_digits_val_concat(int_digits(s), norm_frac(s, e));
        assert(digits_val(int_digits(s)) == q) by {
            assert(int_digits(s) =~= aa);
        }
        assert(norm_frac(s, e).len() == e);
        assert(digits_val(int_digits(s) + norm_frac(s, e)) == q * pow10(e) + rem);
        assert(q * p + rem == t);
    }
}

/// A run of zero digits is made of digits and denotes zero.
pub proof fn lemma_zeros_val(z: nat)
    ensures
        zeros(z).len() == z,
        all_digits(zeros(z)),
        all_zero(zeros(z)),
        digits_val(zeros(z)) == 0,
    decreases z,
{
    if z > 0 {
        lemma_zeros_val((z - 1) as nat);
        assert(zeros(z).drop_last() =~= zeros((z - 1) as nat));
        assert(zeros(z).last() == '0');
    }
}

/// A dot splits a decimal string in only one way.
pub proof fn lemma_split_unique(s: Seq<char>, i: int, j: int)
    requires
        valid_split(s, i),
        valid_split(s, j),
    ensures
        i == j,
{
    if i < j {
        assert(s.subrange(i + 1, s.len() as int)[j - i - 1] == s[j]);
        assert(is_digit(s[j]));
    }
    if j < i {
        assert(s.subrange(j + 1, s.len() as int)[i - j - 1] == s[i]);
        assert(is_digit(s[i]));
    }
}

/// A string of digits has no dot split.
pub proof fn lemma_no_split_of_digits(s: Seq<char>)
    requires
        all_digits(s),
    ensures
        forall|i: int| !valid_split(s, i),
{
    assert forall|i: int| !valid_split(s, i) by {
        if 0 <= i < s.len() {
            assert(is_digit(s[i]));
        }
    }
}

} // verus!
