use vstd::prelude::*;

use crate::envelope::WeightRangeEnc;

verus! {

/// Whether every byte of `t` is a decimal digit and there is at least one.
pub open spec fn spec_all_digits(t: Seq<u8>) -> bool {
    t.len() > 0 && (forall|i: int| 0 <= i < t.len() ==> 48 <= #[trigger] t[i] <= 57)
}

/// The value of a sequence of decimal digits, most significant first.
pub open spec fn spec_digits_val(t: Seq<u8>) -> nat
    decreases t.len(),
{
    if t.len() == 0 {
        0
    } else {
        spec_digits_val(t.drop_last()) * 10 + (t.last() - 48) as nat
    }
}

/// Whether `t` is a signed decimal integer token: an optional leading
/// minus sign followed by at least one digit.
pub open spec fn spec_int_token(t: Seq<u8>) -> bool {
    if t.len() > 0 && t[0] == 45 {
        spec_all_digits(t.subrange(1, t.len() as int))
    } else {
        spec_all_digits(t)
    }
}

/// The integer a signed decimal token denotes.
pub open spec fn spec_int_val(t: Seq<u8>) -> int {
    if t.len() > 0 && t[0] == 45 {
        -(spec_digits_val(t.subrange(1, t.len() as int)) as int)
    } else {
        spec_digits_val(t) as int
    }
}

/// Exact comparison of the rationals `an / ad` and `bn / bd` with positive
/// denominators, by cross multiplication.
pub open spec fn spec_rat_le(an: int, ad: int, bn: int, bd: int) -> bool {
    an * bd <= bn * ad
}

/// A digit prefix never denotes more than the whole digit string.
pub proof fn lemma_digits_val_prefix_le(t: Seq<u8>, i: int)
    requires
        0 <= i <= t.len(),
    ensures
        spec_digits_val(t.subrange(0, i)) <= spec_digits_val(t),
    decreases t.len(),
{
    if i < t.len() {
        let s = t.drop_last();
        assert(t.subrange(0, i) =~= s.subrange(0, i));
        lemma_digits_val_prefix_le(s, i);
    } else {
        assert(t.subrange(0, i) =~= t);
    }
}

/// Read an unsigned decimal digit string. Returns its exact value when
/// every byte is a digit and the value fits in a 64-bit integer, and
/// nothing otherwise.
pub fn parse_digits_u64(t: &Vec<u8>, from: usize) -> (r: Option<u64>)
    requires
        from <= t@.len(),
    ensures
        r matches Some(v) ==> spec_all_digits(t@.subrange(from as int, t@.len() as int))
            && v as nat == spec_digits_val(t@.subrange(from as int, t@.len() as int)),
        (spec_all_digits(t@.subrange(from as int, t@.len() as int)) && spec_digits_val(
            t@.subrange(from as int, t@.len() as int),
        ) <= u64::MAX) ==> r is Some,
{
    let ghost whole = t@.subrange(from as int, t@.len() as int);
    if t.len() == from {
        return None;
    }
    let mut v: u64 = 0;
    let mut i: usize = from;
    while i < t.len()
        invariant
            from <= i <= t@.len(),
            from < t@.len(),
            whole == t@.subrange(from as int, t@.len() as int),
            spec_all_digits(t@.subrange(from as int, i as int)) || i == from,
            v as nat == spec_digits_val(t@.subrange(from as int, i as int)),
        decreases t@.len() - i,
    {
        let b = t[i];
        if b < 48 || b > 57 {
            proof {
                assert(whole[i - from] == b);
            }
            return None;
        }
        let d = (b - 48) as u64;
        if v > (u64::MAX - d) / 10 {
            proof {
                let pre = t@.subrange(from as int, i + 1 as int);
                assert(pre.drop_last() =~= t@.subrange(from as int, i as int));
                assert(spec_digits_val(pre) == v * 10 + d);
                assert(spec_digits_val(pre) > u64::MAX) by {
                    assert(v >= (u64::MAX - d) / 10 + 1);
                    assert((((u64::MAX - d) / 10 + 1) * 10 + d) > u64::MAX) by (nonlinear_arith)
                        requires
                            d <= 9,
                    ;
                    assert(v * 10 + d >= ((u64::MAX - d) / 10 + 1) * 10 + d) by (nonlinear_arith)
                        requires
                            v >= (u64::MAX - d) / 10 + 1,
                    ;
                }
                if spec_all_digits(whole) {
                    lemma_digits_val_prefix_le(whole, i + 1 - from);
                    assert(whole.subrange(0, i + 1 - from) =~= pre);
                }
            }
            return None;
        }
        v = v * 10 + d;
        proof {
            let pre = t@.subrange(from as int, i + 1 as int);
            assert(pre.drop_last() =~= t@.subrange(from as int, i as int));
            assert(pre.last() == b);
        }
        i = i + 1;
    }
    proof {
        assert(t@.subrange(from as int, i as int) =~= whole);
    }
    Some(v)
}

/// Read a signed decimal integer token. Returns its exact value when the
/// token is well-formed and its magnitude fits in a 63-bit integer.
pub fn parse_int_token(t: &Vec<u8>) -> (r: Option<i64>)
    ensures
        r matches Some(v) ==> spec_int_token(t@) && v as int == spec_int_val(t@),
        (spec_int_token(t@) && -(i64::MAX as int) <= spec_int_val(t@) <= i64::MAX as int) ==> r
            is Some,
{
    if t.len() > 0 && t[0] == 45 {
        match parse_digits_u64(t, 1) {
            Some(v) => {
                if v <= (i64::MAX as u64) {
                    Some(-(v as i64))
                } else {
                    None
                }
            },
            None => None,
        }
    } else {
        match parse_digits_u64(t, 0) {
            Some(v) => {
                if v <= (i64::MAX as u64) {
                    proof {
                        assert(t@.subrange(0, t@.len() as int) =~= t@);
                    }
                    Some(v as i64)
                } else {
                    proof {
                        assert(t@.subrange(0, t@.len() as int) =~= t@);
                    }
                    None
                }
            },
            None => {
                proof {
                    assert(t@.subrange(0, t@.len() as int) =~= t@);
                }
                None
            },
        }
    }
}

/// Compare two exact rationals given as signed numerator and positive
/// denominator, without rounding: `an / ad <= bn / bd`.
pub fn rat_le(an: i64, ad: i64, bn: i64, bd: i64) -> (r: bool)
    requires
        ad > 0,
        bd > 0,
    ensures
        r == spec_rat_le(an as int, ad as int, bn as int, bd as int),
{
    proof {
        assert((an as i128) * (bd as i128) <= i128::MAX && (an as i128) * (bd as i128)
            >= i128::MIN) by (nonlinear_arith)
            requires
                -0x8000_0000_0000_0000 <= an as i128 <= 0x7fff_ffff_ffff_ffff,
                0 < bd as i128 <= 0x7fff_ffff_ffff_ffff,
        ;
        assert((bn as i128) * (ad as i128) <= i128::MAX && (bn as i128) * (ad as i128)
            >= i128::MIN) by (nonlinear_arith)
            requires
                -0x8000_0000_0000_0000 <= bn as i128 <= 0x7fff_ffff_ffff_ffff,
                0 < ad as i128 <= 0x7fff_ffff_ffff_ffff,
        ;
    }
    let lhs: i128 = (an as i128) * (bd as i128);
    let rhs: i128 = (bn as i128) * (ad as i128);
    lhs <= rhs
}

/// Whether a token is a well-formed signed integer whose magnitude fits a
/// 63-bit integer.
pub open spec fn spec_token_fits(t: Seq<u8>) -> bool {
    spec_int_token(t) && -(i64::MAX as int) <= spec_int_val(t) <= i64::MAX as int
}

/// The exact ordering of a weight bound's ends, decided from their four
/// exact integer tokens. The comparison is owed — and exact — whenever all
/// four tokens are well-formed, the denominators are positive, and every
/// value fits in a 63-bit integer; outside that nothing is returned.
pub fn tokens_rat_le(ln: &Vec<u8>, ld: &Vec<u8>, un: &Vec<u8>, ud: &Vec<u8>) -> (r: Option<bool>)
    ensures
        (spec_token_fits(ln@) && spec_token_fits(ld@) && spec_token_fits(un@) && spec_token_fits(
            ud@,
        ) && spec_int_val(ld@) > 0 && spec_int_val(ud@) > 0) ==> r is Some,
        r matches Some(b) ==> {
            &&& spec_int_token(ln@) && spec_int_token(ld@) && spec_int_token(un@)
                && spec_int_token(ud@)
            &&& spec_int_val(ld@) > 0 && spec_int_val(ud@) > 0
            &&& b == spec_rat_le(spec_int_val(ln@), spec_int_val(ld@), spec_int_val(un@),
            spec_int_val(ud@))
        },
{
    let lnv = match parse_int_token(ln) {
        Some(v) => v,
        None => {
            return None;
        },
    };
    let ldv = match parse_int_token(ld) {
        Some(v) => v,
        None => {
            return None;
        },
    };
    let unv = match parse_int_token(un) {
        Some(v) => v,
        None => {
            return None;
        },
    };
    let udv = match parse_int_token(ud) {
        Some(v) => v,
        None => {
            return None;
        },
    };
    if ldv <= 0 || udv <= 0 {
        return None;
    }
    Some(rat_le(lnv, ldv, unv, udv))
}

/// The exact ordering of an encoded weight bound: whether the lower end,
/// reconstructed from its exact numerator and denominator tokens, is at
/// most the upper end. Owed, and decided without rounding, wherever the
/// four values fit in a 63-bit integer and the denominators are positive;
/// left undecided otherwise.
pub fn weight_range_ordered(w: &WeightRangeEnc) -> (r: Option<bool>)
    ensures
        (spec_token_fits(w.ln@) && spec_token_fits(w.ld@) && spec_token_fits(w.un@)
            && spec_token_fits(w.ud@) && spec_int_val(w.ld@) > 0 && spec_int_val(w.ud@) > 0) ==> r
            is Some,
        r matches Some(b) ==> {
            &&& spec_int_token(w.ln@) && spec_int_token(w.ld@) && spec_int_token(w.un@)
                && spec_int_token(w.ud@)
            &&& spec_int_val(w.ld@) > 0 && spec_int_val(w.ud@) > 0
            &&& b == spec_rat_le(spec_int_val(w.ln@), spec_int_val(w.ld@), spec_int_val(w.un@),
            spec_int_val(w.ud@))
        },
{
    tokens_rat_le(&w.ln, &w.ld, &w.un, &w.ud)
}

} // verus!
