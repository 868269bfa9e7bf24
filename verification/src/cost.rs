//! Fixed-point cost accounting: a cost is carried as plain decimal
//! text and modelled in microunits, so the store can sum it without
//! floating point.

use vstd::prelude::*;
use vstd::string::*;

verus! {

/// Cap on the integer part of a parsed cost, in currency units; a
/// larger written value saturates here.
pub const COST_UNIT_CAP: u64 = 1_000_000_000_000;

/// An ASCII decimal digit.
pub open spec fn is_digit(b: u8) -> bool {
    0x30 <= b <= 0x39
}

/// First index at or after `i` that does not hold a decimal digit.
pub open spec fn digits_end(h: Seq<u8>, i: int) -> int
    decreases h.len() - i,
    when 0 <= i <= h.len()
{
    if i >= h.len() {
        i
    } else if is_digit(h[i]) {
        digits_end(h, i + 1)
    } else {
        i
    }
}

/// Numeric value of the decimal digits `h[i..j]`.
pub open spec fn digits_val(h: Seq<u8>, i: int, j: int) -> int
    decreases j - i,
{
    if j <= i {
        0
    } else {
        digits_val(h, i, j - 1) * 10 + (h[j - 1] - 0x30)
    }
}

/// Ten to the `k`th power.
pub open spec fn pow10(k: int) -> int
    decreases k,
{
    if k <= 0 {
        1
    } else {
        10 * pow10(k - 1)
    }
}

/// Microunit value of a cost written as plain unsigned decimal text:
/// zero when the text opens with no digit, the integer part saturated
/// at [`COST_UNIT_CAP`], and the fraction read to microunit
/// precision. The model reads plain decimals only: a number in
/// exponent form keeps just its leading digits, and a negative number
/// reads as zero.
pub open spec fn spec_decimal_micros(h: Seq<u8>) -> int {
    let ie = digits_end(h, 0);
    if ie == 0 {
        0
    } else {
        let dv = digits_val(h, 0, ie);
        let iv = if dv > COST_UNIT_CAP as int {
            COST_UNIT_CAP as int
        } else {
            dv
        };
        if ie < h.len() && h[ie] == 0x2e {
            let fs = ie + 1;
            let fe = digits_end(h, fs);
            let tk = if fe - fs > 6 {
                6
            } else {
                fe - fs
            };
            iv * 1_000_000 + digits_val(h, fs, fs + tk) * pow10(6 - tk)
        } else {
            iv * 1_000_000
        }
    }
}

/// The largest value `spec_decimal_micros` can take.
pub open spec fn cost_micros_bound() -> int {
    COST_UNIT_CAP as int * 1_000_000 + 999_999
}

/// Every index the scan to `digits_end` passes holds a digit, and the
/// scan stops at a non-digit or the end.
pub proof fn lemma_digits_range(h: Seq<u8>, i: int)
    requires
        0 <= i <= h.len(),
    ensures
        i <= digits_end(h, i) <= h.len(),
        forall|m: int| i <= m < digits_end(h, i) ==> is_digit(#[trigger] h[m]),
        digits_end(h, i) < h.len() ==> !is_digit(h[digits_end(h, i)]),
    decreases h.len() - i,
{
    if i < h.len() && is_digit(h[i]) {
        lemma_digits_range(h, i + 1);
    }
}

/// The value of at most `k` digit bytes lies in `[0, pow10(k))`.
pub proof fn lemma_digits_val_bound(h: Seq<u8>, i: int, j: int, k: int)
    requires
        i <= j,
        j - i <= k,
        forall|m: int| i <= m < j ==> is_digit(#[trigger] h[m]),
    ensures
        0 <= digits_val(h, i, j) <= pow10(k) - 1,
    decreases j - i,
{
    lemma_pow10_pos(k);
    if j > i {
        lemma_digits_val_bound(h, i, j - 1, k - 1);
        assert(pow10(k) == 10 * pow10(k - 1));
        assert(is_digit(h[j - 1]));
    }
}

/// The small powers of ten, spelled out.
pub proof fn lemma_pow10_concrete()
    ensures
        pow10(0) == 1,
        pow10(1) == 10,
        pow10(2) == 100,
        pow10(3) == 1_000,
        pow10(4) == 10_000,
        pow10(5) == 100_000,
        pow10(6) == 1_000_000,
{
    assert(pow10(0) == 1);
    assert(pow10(1) == 10);
    assert(pow10(2) == 100);
    assert(pow10(3) == 1_000);
    assert(pow10(4) == 10_000);
    assert(pow10(5) == 100_000);
    assert(pow10(6) == 1_000_000);
}

proof fn lemma_pow10_pos(k: int)
    ensures
        pow10(k) >= 1,
    decreases k,
{
    if k > 0 {
        lemma_pow10_pos(k - 1);
    }
}

proof fn lemma_pow10_add(a: int, b: int)
    requires
        a >= 0,
        b >= 0,
    ensures
        pow10(a) * pow10(b) == pow10(a + b),
    decreases a,
{
    if a <= 0 {
    } else {
        lemma_pow10_add(a - 1, b);
        assert(pow10(a) == 10 * pow10(a - 1));
        assert(pow10(a) * pow10(b) == 10 * (pow10(a - 1) * pow10(b))) by (nonlinear_arith)
            requires
                pow10(a) == 10 * pow10(a - 1),
        ;
        assert(pow10(a + b) == 10 * pow10(a + b - 1));
    }
}

proof fn lemma_frac_bound(h: Seq<u8>, fs: int, tk: int)
    requires
        0 <= tk <= 6,
        0 <= fs,
        fs + tk <= h.len(),
        forall|m: int| fs <= m < fs + tk ==> is_digit(#[trigger] h[m]),
    ensures
        0 <= digits_val(h, fs, fs + tk) * pow10(6 - tk) <= 999_999,
{
    lemma_digits_val_bound(h, fs, fs + tk, tk);
    lemma_pow10_pos(6 - tk);
    let dv = digits_val(h, fs, fs + tk);
    let pw = pow10(6 - tk);
    assert(pow10(tk) * pow10(6 - tk) == pow10(6)) by {
        lemma_pow10_add(tk, 6 - tk);
    }
    lemma_pow10_concrete();
    assert(dv * pw <= (pow10(tk) - 1) * pw) by (nonlinear_arith)
        requires
            dv <= pow10(tk) - 1,
            pw >= 1,
            dv >= 0,
    ;
    assert((pow10(tk) - 1) * pw == pow10(tk) * pw - pw) by (nonlinear_arith);
    assert(dv * pw >= 0) by (nonlinear_arith)
        requires
            dv >= 0,
            pw >= 1,
    ;
}

/// Every decimal text's microunit value stays under the fixed bound.
pub proof fn lemma_decimal_micros_bounded(h: Seq<u8>)
    ensures
        0 <= spec_decimal_micros(h) <= cost_micros_bound(),
{
    let ie = digits_end(h, 0);
    lemma_digits_range(h, 0);
    if ie != 0 {
        lemma_digits_val_bound(h, 0, ie, ie);
        if ie < h.len() && h[ie] == 0x2e {
            let fs = ie + 1;
            let fe = digits_end(h, fs);
            lemma_digits_range(h, fs);
            let tk = if fe - fs > 6 {
                6int
            } else {
                fe - fs
            };
            lemma_frac_bound(h, fs, tk);
        }
    }
}

/// First index at or after `i` in `h` that holds no decimal digit.
pub(crate) fn scan_digits(h: &[u8], i: usize) -> (r: usize)
    requires
        i <= h@.len(),
    ensures
        r == digits_end(h@, i as int),
        i <= r <= h@.len(),
{
    broadcast use vstd::slice::group_slice_axioms;

    let n = h.len();
    let mut j = i;
    loop
        invariant
            n == h@.len(),
            i <= j <= n,
            digits_end(h@, i as int) == digits_end(h@, j as int),
        decreases n - j,
    {
        if j >= n {
            return j;
        }
        let b = h[j];
        if b < 0x30 || b > 0x39 {
            return j;
        }
        j = j + 1;
    }
}

/// Value of the digit run `h[i..j]`, saturated at the cap.
pub(crate) fn digits_to_value(h: &[u8], i: usize, j: usize, cap: u64) -> (r: u64)
    requires
        i <= j <= h@.len(),
        cap <= COST_UNIT_CAP,
        forall|m: int| i <= m < j ==> is_digit(#[trigger] h@[m]),
    ensures
        digits_val(h@, i as int, j as int) <= cap as int ==> r == digits_val(
            h@,
            i as int,
            j as int,
        ),
        digits_val(h@, i as int, j as int) > cap as int ==> r == cap,
        r <= cap,
{
    broadcast use vstd::slice::group_slice_axioms;

    let mut v: u64 = 0;
    let mut k = i;
    while k < j
        invariant
            i <= k <= j <= h@.len(),
            cap <= COST_UNIT_CAP,
            forall|m: int| i <= m < j ==> is_digit(#[trigger] h@[m]),
            digits_val(h@, i as int, k as int) <= cap as int ==> v == digits_val(
                h@,
                i as int,
                k as int,
            ),
            digits_val(h@, i as int, k as int) > cap as int ==> v == cap,
            v <= cap,
        decreases j - k,
    {
        let ghost dv = digits_val(h@, i as int, k as int);
        let ghost dv2 = digits_val(h@, i as int, k as int + 1);
        let d = h[k] - 0x30;
        let w = v * 10 + d as u64;
        proof {
            assert(dv2 == dv * 10 + (h@[k as int] - 0x30));
            if dv > cap as int {
                assert(dv2 >= dv * 10) by (nonlinear_arith)
                    requires
                        dv2 == dv * 10 + (h@[k as int] - 0x30),
                        is_digit(h@[k as int]),
                        dv >= 0,
                ;
                assert(dv * 10 >= dv) by (nonlinear_arith)
                    requires
                        dv >= 0,
                ;
            } else {
                lemma_digits_val_bound(h@, i as int, k as int, k - i);
            }
        }
        v = if w > cap {
            cap
        } else {
            w
        };
        k = k + 1;
    }
    v
}

/// Microunit value of a plain decimal text, as
/// [`spec_decimal_micros`] defines it.
pub fn decimal_micros(text: &str) -> (r: u64)
    ensures
        r == spec_decimal_micros(text.spec_bytes()),
        r as int <= cost_micros_bound(),
{
    broadcast use vstd::slice::group_slice_axioms;

    let h = text.as_bytes();
    proof {
        lemma_decimal_micros_bounded(h@);
    }
    let ie = scan_digits(h, 0);
    if ie == 0 {
        return 0;
    }
    proof {
        lemma_digits_range(h@, 0);
    }
    let iv = digits_to_value(h, 0, ie, COST_UNIT_CAP);
    if ie < h.len() && h[ie] == 0x2e {
        let fs = ie + 1;
        let fe = scan_digits(h, fs);
        let tk = if fe - fs > 6 {
            6
        } else {
            fe - fs
        };
        proof {
            lemma_digits_range(h@, fs as int);
            lemma_digits_val_bound(h@, fs as int, fs + tk as int, tk as int);
            lemma_pow10_concrete();
        }
        let fv = digits_to_value(h, fs, fs + tk, COST_UNIT_CAP);
        proof {
            assert(digits_val(h@, fs as int, fs + tk as int) < pow10(6));
            assert(pow10(6) < COST_UNIT_CAP as int);
        }
        let scale = pow10_u64(6 - tk);
        proof {
            lemma_frac_bound(h@, fs as int, tk as int);
            assert(fv as int * scale as int == digits_val(h@, fs as int, fs + tk as int) * pow10(
                6 - tk as int,
            ));
        }
        iv * 1_000_000 + fv * scale
    } else {
        iv * 1_000_000
    }
}

/// Ten to a small power, for scaling fraction digits to microunits.
fn pow10_u64(k: usize) -> (r: u64)
    requires
        k <= 6,
    ensures
        r as int == pow10(k as int),
{
    let r: u64 = match k {
        0 => 1,
        1 => 10,
        2 => 100,
        3 => 1_000,
        4 => 10_000,
        5 => 100_000,
        _ => 1_000_000,
    };
    proof {
        lemma_pow10_concrete();
    }
    r
}

} // verus!
