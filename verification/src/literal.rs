use vstd::prelude::*;

verus! {

pub open spec fn is_digit(c: char) -> bool {
    48 <= c as u32 <= 57
}

pub open spec fn digit_val(c: char) -> int {
    c as u32 - 48
}

pub open spec fn all_digits(s: Seq<char>) -> bool {
    forall|i: int| 0 <= i < s.len() ==> is_digit(#[trigger] s[i])
}

/// The number that a digit string denotes, most significant digit first.
pub open spec fn digits_val(s: Seq<char>) -> int
    decreases s.len(),
{
    if s.len() == 0 {
        0
    } else {
        digits_val(s.drop_last()) * 10 + digit_val(s.last())
    }
}

/// Whether a literal starts with a minus sign.
pub open spec fn sign_neg(s: Seq<char>) -> bool {
    s.len() > 0 && s[0] == '-'
}

/// A literal with its one optional leading sign removed.
pub open spec fn sign_body(s: Seq<char>) -> Seq<char> {
    if s.len() > 0 && (s[0] == '+' || s[0] == '-') {
        s.drop_first()
    } else {
        s
    }
}

/// One or more digits and nothing else.
pub open spec fn int_body(s: Seq<char>) -> bool {
    s.len() > 0 && all_digits(s)
}

/// The signed number an integer literal denotes.
pub open spec fn int_value(s: Seq<char>) -> int {
    if sign_neg(s) {
        -digits_val(sign_body(s))
    } else {
        digits_val(sign_body(s))
    }
}

/// The 32-bit integer a leaf atom denotes, if any: an optional sign, then
/// one or more digits, denoting a number within the `i32` range.
pub open spec fn int_literal(s: Seq<char>) -> Option<i32> {
    if int_body(sign_body(s)) && i32::MIN <= int_value(s) <= i32::MAX {
        Some(int_value(s) as i32)
    } else {
        None
    }
}

pub proof fn lemma_digits_val_nonneg(s: Seq<char>)
    requires
        all_digits(s),
    ensures
        digits_val(s) >= 0,
    decreases s.len(),
{
    if s.len() > 0 {
        assert(all_digits(s.drop_last())) by {
            assert(forall|i: int| 0 <= i < s.len() - 1 ==> s.drop_last()[i] == s[i]);
        }
        lemma_digits_val_nonneg(s.drop_last());
    }
}

/// Appending more digits never shrinks the denoted number.
pub proof fn lemma_digits_val_prefix(s: Seq<char>, k: int)
    requires
        all_digits(s),
        0 <= k <= s.len(),
    ensures
        digits_val(s) >= digits_val(s.subrange(0, k)),
    decreases s.len() - k,
{
    if k < s.len() {
        lemma_digits_val_prefix(s, k + 1);
        let p1 = s.subrange(0, k + 1);
        assert(p1.drop_last() =~= s.subrange(0, k));
        assert(all_digits(s.subrange(0, k))) by {
            assert(forall|i: int| 0 <= i < k ==> s.subrange(0, k)[i] == s[i]);
        }
        lemma_digits_val_nonneg(s.subrange(0, k));
        assert(digits_val(p1) == digits_val(s.subrange(0, k)) * 10 + digit_val(s[k]));
    } else {
        assert(s.subrange(0, k) =~= s);
    }
}

/// Reads a leaf atom as a 32-bit integer exactly as the literal grammar
/// allows, reporting `None` for any other text and for numbers out of range.
pub fn parse_i32(s: &str) -> (r: Option<i32>)
    ensures
        r == int_literal(s@),
{
    let len = s.unicode_len();
    if len == 0 {
        return None;
    }
    let c0 = s.get_char(0);
    let neg = c0 == '-';
    let has_sign = c0 == '-' || c0 == '+';
    let start: usize = if has_sign {
        1
    } else {
        0
    };
    let ghost b = sign_body(s@);
    proof {
        if has_sign {
            assert(b =~= s@.subrange(start as int, len as int));
        } else {
            assert(b =~= s@.subrange(start as int, len as int));
        }
    }
    if start == len {
        return None;
    }
    let mut i: usize = start;
    let mut acc: u64 = 0;
    while i < len
        invariant
            start <= i <= len,
            len == s@.len(),
            start <= 1,
            b == sign_body(s@),
            neg == sign_neg(s@),
            b =~= s@.subrange(start as int, len as int),
            all_digits(s@.subrange(start as int, i as int)),
            acc == digits_val(s@.subrange(start as int, i as int)),
            acc <= 2147483648,
        decreases len - i,
    {
        let c = s.get_char(i);
        let cu = c as u32;
        let ghost pre = s@.subrange(start as int, i as int);
        let ghost pre1 = s@.subrange(start as int, i + 1);
        proof {
            assert(pre1.drop_last() =~= pre);
            assert(pre1.last() == s@[i as int]);
        }
        if cu < 48 || cu > 57 {
            proof {
                assert(0 <= i - start < b.len());
                assert(b[i - start] == s@[i as int]);
                assert(!is_digit(b[i - start]));
                assert(!all_digits(b));
                assert(!int_body(b));
            }
            return None;
        }
        let d = (cu - 48) as u64;
        if acc > 214748364 || (acc == 214748364 && d > 8) {
            proof {
                assert(digits_val(pre1) == acc * 10 + d > 2147483648);
                if all_digits(b) {
                    assert(b.subrange(0, i + 1 - start) =~= pre1);
                    lemma_digits_val_prefix(b, i + 1 - start);
                    assert(digits_val(b) > 2147483648);
                    if sign_neg(s@) {
                        assert(int_value(s@) == -digits_val(b));
                        assert(int_value(s@) < i32::MIN);
                    } else {
                        assert(int_value(s@) == digits_val(b));
                        assert(int_value(s@) > i32::MAX);
                    }
                    assert(int_literal(s@) is None);
                } else {
                    assert(!int_body(b));
                    assert(int_literal(s@) is None);
                }
            }
            return None;
        }
        acc = acc * 10 + d;
        i += 1;
    }
    proof {
        assert(s@.subrange(start as int, len as int) =~= b);
        assert(acc == digits_val(b));
        assert(int_body(b));
    }
    if neg {
        proof {
            assert(int_value(s@) == -(acc as int));
        }
        if acc == 2147483648 {
            Some(i32::MIN)
        } else {
            Some(-(acc as i32))
        }
    } else {
        if acc > 2147483647 {
            proof {
                assert(int_value(s@) > i32::MAX);
            }
            None
        } else {
            Some(acc as i32)
        }
    }
}

pub open spec fn is_dot(c: char) -> bool {
    c == '.'
}

pub open spec fn count_dots(s: Seq<char>) -> int
    decreases s.len(),
{
    if s.len() == 0 {
        0
    } else {
        count_dots(s.drop_last()) + if is_dot(s.last()) {
            1int
        } else {
            0int
        }
    }
}

pub open spec fn has_digit(s: Seq<char>) -> bool {
    exists|i: int| 0 <= i < s.len() && is_digit(#[trigger] s[i])
}

pub open spec fn mantissa_chars(s: Seq<char>) -> bool {
    forall|i: int| 0 <= i < s.len() ==> is_digit(#[trigger] s[i]) || is_dot(s[i])
}

/// Digits with at most one point among them and at least one digit.
pub open spec fn is_mantissa(s: Seq<char>) -> bool {
    s.len() > 0 && mantissa_chars(s) && has_digit(s) && count_dots(s) <= 1
}

pub open spec fn is_exp_marker(c: char) -> bool {
    c == 'e' || c == 'E'
}

/// An exponent: an optional sign, then one or more digits.
pub open spec fn is_exp_part(s: Seq<char>) -> bool {
    int_body(sign_body(s))
}

/// The first index at or after `i` holding an exponent marker.
pub open spec fn find_exp_from(s: Seq<char>, i: int) -> Option<int>
    decreases s.len() - i,
{
    if i < 0 || i >= s.len() {
        None
    } else if is_exp_marker(s[i]) {
        Some(i)
    } else {
        find_exp_from(s, i + 1)
    }
}

/// The character's code with an ASCII capital folded to its small letter.
pub open spec fn lower_code(c: char) -> u32 {
    if 65 <= c as u32 <= 90 {
        (c as u32 + 32) as u32
    } else {
        c as u32
    }
}

/// Letter-case-blind equality of two character sequences.
pub open spec fn ci_eq(a: Seq<char>, b: Seq<char>) -> bool {
    a.len() == b.len() && forall|i: int|
        0 <= i < a.len() ==> lower_code(#[trigger] a[i]) == lower_code(b[i])
}

/// The three named floating-point values, in any letter case.
pub open spec fn is_special(s: Seq<char>) -> bool {
    ||| ci_eq(s, seq!['i', 'n', 'f'])
    ||| ci_eq(s, seq!['i', 'n', 'f', 'i', 'n', 'i', 't', 'y'])
    ||| ci_eq(s, seq!['n', 'a', 'n'])
}

/// A mantissa, optionally followed by an exponent marker and an exponent.
pub open spec fn is_number_body(s: Seq<char>) -> bool {
    match find_exp_from(s, 0) {
        None => is_mantissa(s),
        Some(i) => is_mantissa(s.subrange(0, i)) && is_exp_part(
            s.subrange(i + 1, s.len() as int),
        ),
    }
}

/// A leaf atom that reads as a floating-point literal: an optional sign,
/// then `inf`, `infinity` or `nan` in any letter case, or digits with at
/// most one point and an optional exponent.
pub open spec fn is_float_literal(s: Seq<char>) -> bool {
    is_special(sign_body(s)) || is_number_body(sign_body(s))
}

fn lower_of(c: char) -> (r: u32)
    ensures
        r == lower_code(c),
{
    let u = c as u32;
    if 65 <= u && u <= 90 {
        u + 32
    } else {
        u
    }
}

fn all_digits_range(s: &str, a: usize, e: usize) -> (r: bool)
    requires
        a <= e,
        e <= s@.len(),
    ensures
        r == all_digits(s@.subrange(a as int, e as int)),
{
    let ghost reg = s@.subrange(a as int, e as int);
    let mut i: usize = a;
    while i < e
        invariant
            a <= i <= e <= s@.len(),
            reg == s@.subrange(a as int, e as int),
            forall|j: int| 0 <= j < i - a ==> is_digit(#[trigger] reg[j]),
        decreases e - i,
    {
        let c = s.get_char(i);
        let cu = c as u32;
        if cu < 48 || cu > 57 {
            proof {
                assert(reg[i - a] == s@[i as int]);
                assert(!is_digit(reg[i - a]));
            }
            return false;
        }
        proof {
            assert(reg[i - a] == s@[i as int]);
        }
        i += 1;
    }
    true
}

fn check_exp(s: &str, a: usize, e: usize) -> (r: bool)
    requires
        a <= e,
        e <= s@.len(),
    ensures
        r == is_exp_part(s@.subrange(a as int, e as int)),
{
    let ghost reg = s@.subrange(a as int, e as int);
    if a == e {
        return false;
    }
    let c0 = s.get_char(a);
    let a2: usize = if c0 == '+' || c0 == '-' {
        a + 1
    } else {
        a
    };
    proof {
        assert(reg[0] == s@[a as int]);
        assert(sign_body(reg) =~= s@.subrange(a2 as int, e as int));
    }
    if a2 == e {
        return false;
    }
    all_digits_range(s, a2, e)
}

fn check_mantissa(s: &str, a: usize, e: usize) -> (r: bool)
    requires
        a <= e,
        e <= s@.len(),
    ensures
        r == is_mantissa(s@.subrange(a as int, e as int)),
{
    let ghost reg = s@.subrange(a as int, e as int);
    if a == e {
        return false;
    }
    let mut i: usize = a;
    let mut dots: u64 = 0;
    let mut seen: bool = false;
    while i < e
        invariant
            a <= i <= e <= s@.len(),
            reg == s@.subrange(a as int, e as int),
            dots <= i - a,
            dots == count_dots(s@.subrange(a as int, i as int)),
            seen == has_digit(s@.subrange(a as int, i as int)),
            mantissa_chars(s@.subrange(a as int, i as int)),
        decreases e - i,
    {
        let c = s.get_char(i);
        let cu = c as u32;
        let ghost pre = s@.subrange(a as int, i as int);
        let ghost pre1 = s@.subrange(a as int, i + 1);
        proof {
            assert(pre1.drop_last() =~= pre);
            assert(pre1.last() == s@[i as int]);
            assert(forall|j: int| 0 <= j < pre.len() ==> #[trigger] pre1[j] == pre[j]);
        }
        if (48 <= cu && cu <= 57) || c == '.' {
            if 48 <= cu && cu <= 57 {
                seen = true;
            } else {
                proof {
                    assert(dots < i - a + 1);
                }
                dots = dots + 1;
            }
            proof {
                assert(is_digit(s@[i as int]) || is_dot(s@[i as int]));
                assert(mantissa_chars(pre1));
                assert(has_digit(pre) ==> has_digit(pre1)) by {
                    if has_digit(pre) {
                        let w = choose|w: int| 0 <= w < pre.len() && is_digit(#[trigger] pre[w]);
                        assert(pre1[w] == pre[w]);
                    }
                }
                assert(is_digit(s@[i as int]) ==> has_digit(pre1)) by {
                    assert(pre1[i - a] == s@[i as int]);
                }
                assert(has_digit(pre1) ==> has_digit(pre) || is_digit(s@[i as int])) by {
                    if has_digit(pre1) {
                        let w = choose|w: int| 0 <= w < pre1.len() && is_digit(#[trigger] pre1[w]);
                        if w < pre.len() {
                            assert(pre[w] == pre1[w]);
                        }
                    }
                }
            }
            i += 1;
        } else {
            proof {
                assert(reg[i - a] == s@[i as int]);
                assert(!(is_digit(reg[i - a]) || is_dot(reg[i - a])));
                assert(!mantissa_chars(reg));
            }
            return false;
        }
    }
    proof {
        assert(s@.subrange(a as int, i as int) =~= reg);
    }
    seen && dots <= 1
}

/// Decides whether a leaf atom reads as a floating-point literal.
pub fn is_float_text(s: &str) -> (r: bool)
    ensures
        r == is_float_literal(s@),
{
    let len = s.unicode_len();
    if len == 0 {
        proof {
            assert(sign_body(s@) =~= s@);
            assert(!is_mantissa(s@));
        }
        return false;
    }
    let c0 = s.get_char(0);
    let start: usize = if c0 == '+' || c0 == '-' {
        1
    } else {
        0
    };
    let ghost b = sign_body(s@);
    proof {
        assert(b =~= s@.subrange(start as int, len as int));
    }
    let m = len - start;
    if m == 3 {
        let l0 = lower_of(s.get_char(start));
        let l1 = lower_of(s.get_char(start + 1));
        let l2 = lower_of(s.get_char(start + 2));
        let inf_ok = l0 == 105 && l1 == 110 && l2 == 102;
        let nan_ok = l0 == 110 && l1 == 97 && l2 == 110;
        proof {
            let pi = seq!['i', 'n', 'f'];
            let pn = seq!['n', 'a', 'n'];
            assert(b.len() == 3);
            assert(b[0] == s@[start as int]);
            assert(b[1] == s@[start as int + 1]);
            assert(b[2] == s@[start as int + 2]);
            assert(lower_code(pi[0]) == 105 && lower_code(pi[1]) == 110 && lower_code(pi[2])
                == 102);
            assert(lower_code(pn[0]) == 110 && lower_code(pn[1]) == 97 && lower_code(pn[2])
                == 110);
            assert(inf_ok ==> ci_eq(b, pi));
            assert(nan_ok ==> ci_eq(b, pn));
            assert(ci_eq(b, pi) ==> inf_ok) by {
                if ci_eq(b, pi) {
                    assert(lower_code(b[0]) == lower_code(pi[0]));
                    assert(lower_code(b[1]) == lower_code(pi[1]));
                    assert(lower_code(b[2]) == lower_code(pi[2]));
                }
            }
            assert(ci_eq(b, pn) ==> nan_ok) by {
                if ci_eq(b, pn) {
                    assert(lower_code(b[0]) == lower_code(pn[0]));
                    assert(lower_code(b[1]) == lower_code(pn[1]));
                    assert(lower_code(b[2]) == lower_code(pn[2]));
                }
            }
            assert((inf_ok || nan_ok) == is_special(b));
        }
        if inf_ok || nan_ok {
            return true;
        }
    } else if m == 8 {
        let l0 = lower_of(s.get_char(start));
        let l1 = lower_of(s.get_char(start + 1));
        let l2 = lower_of(s.get_char(start + 2));
        let l3 = lower_of(s.get_char(start + 3));
        let l4 = lower_of(s.get_char(start + 4));
        let l5 = lower_of(s.get_char(start + 5));
        let l6 = lower_of(s.get_char(start + 6));
        let l7 = lower_of(s.get_char(start + 7));
        let infy_ok = l0 == 105 && l1 == 110 && l2 == 102 && l3 == 105 && l4 == 110 && l5 == 105
            && l6 == 116 && l7 == 121;
        proof {
            let py = seq!['i', 'n', 'f', 'i', 'n', 'i', 't', 'y'];
            assert(b.len() == 8);
            assert(b[0] == s@[start as int]);
            assert(b[1] == s@[start as int + 1]);
            assert(b[2] == s@[start as int + 2]);
            assert(b[3] == s@[start as int + 3]);
            assert(b[4] == s@[start as int + 4]);
            assert(b[5] == s@[start as int + 5]);
            assert(b[6] == s@[start as int + 6]);
            assert(b[7] == s@[start as int + 7]);
            assert(lower_code(py[0]) == 105 && lower_code(py[1]) == 110 && lower_code(py[2]) == 102
                && lower_code(py[3]) == 105 && lower_code(py[4]) == 110 && lower_code(py[5]) == 105
                && lower_code(py[6]) == 116 && lower_code(py[7]) == 121);
            assert(infy_ok ==> ci_eq(b, py));
            assert(ci_eq(b, py) ==> infy_ok) by {
                if ci_eq(b, py) {
                    assert(lower_code(b[0]) == lower_code(py[0]));
                    assert(lower_code(b[1]) == lower_code(py[1]));
                    assert(lower_code(b[2]) == lower_code(py[2]));
                    assert(lower_code(b[3]) == lower_code(py[3]));
                    assert(lower_code(b[4]) == lower_code(py[4]));
                    assert(lower_code(b[5]) == lower_code(py[5]));
                    assert(lower_code(b[6]) == lower_code(py[6]));
                    assert(lower_code(b[7]) == lower_code(py[7]));
                }
            }
            assert(infy_ok == is_special(b));
        }
        if infy_ok {
            return true;
        }
    }
    proof {
        assert(!is_special(b));
    }
    let mut mark: usize = len;
    let mut k: usize = start;
    while k < len && mark == len
        invariant
            start <= k <= len,
            len == s@.len(),
            b == sign_body(s@),
            b =~= s@.subrange(start as int, len as int),
            mark == len || (start <= mark && mark < len),
            if mark == len {
                find_exp_from(b, 0) == find_exp_from(b, k - start)
            } else {
                find_exp_from(b, 0) == Some(mark - start)
            },
        decreases len - k + if mark == len {
            1int
        } else {
            0int
        },
    {
        let c = s.get_char(k);
        proof {
            assert(b[k - start] == s@[k as int]);
        }
        if c == 'e' || c == 'E' {
            mark = k;
        } else {
            k += 1;
        }
    }
    if mark == len {
        proof {
            assert(find_exp_from(b, 0) == None::<int>);
        }
        let r = check_mantissa(s, start, len);
        proof {
            assert(s@.subrange(start as int, len as int) =~= b);
        }
        r
    } else {
        proof {
            assert(b.subrange(0, mark - start) =~= s@.subrange(start as int, mark as int));
            assert(b.subrange(mark - start + 1, b.len() as int) =~= s@.subrange(
                mark as int + 1,
                len as int,
            ));
        }
        let mant_ok = check_mantissa(s, start, mark);
        let exp_ok = check_exp(s, mark + 1, len);
        mant_ok && exp_ok
    }
}

} // verus!
