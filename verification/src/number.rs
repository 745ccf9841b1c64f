//! Numeric literals.
//!
//! A `number`-tagged span is kept as its decimal literal text. This module
//! defines which texts are acceptable — the grammar that `f64::from_str`
//! documents: an optional sign, then `inf`, `infinity`, `nan` (any case) or
//! digits with an optional point and an optional exponent — and the
//! normalization applied to extreme exponents: a literal whose magnitude is
//! below 10^-324 underflows to zero when read as an IEEE-754 double, so the
//! reducer stores it as `0`.
use vstd::prelude::*;

verus! {

pub open spec fn is_digit(c: char) -> bool {
    '0' <= c && c <= '9'
}

pub open spec fn is_sign(c: char) -> bool {
    c == '+' || c == '-'
}

pub open spec fn all_digits(s: Seq<char>) -> bool {
    forall|i: int| 0 <= i < s.len() ==> is_digit(#[trigger] s[i])
}

/// The text with a leading sign removed, if any.
pub open spec fn strip_sign(s: Seq<char>) -> Seq<char> {
    if s.len() > 0 && is_sign(s[0]) {
        s.subrange(1, s.len() as int)
    } else {
        s
    }
}

/// The first position at or after `i` holding an exponent marker, or the
/// length if there is none.
pub open spec fn marker_index_from(s: Seq<char>, i: int) -> int
    decreases s.len() - i,
{
    if i < 0 || i >= s.len() {
        s.len() as int
    } else if s[i] == 'e' || s[i] == 'E' {
        i
    } else {
        marker_index_from(s, i + 1)
    }
}

/// The first position at or after `i` holding a decimal point, or the
/// length if there is none.
pub open spec fn dot_index_from(s: Seq<char>, i: int) -> int
    decreases s.len() - i,
{
    if i < 0 || i >= s.len() {
        s.len() as int
    } else if s[i] == '.' {
        i
    } else {
        dot_index_from(s, i + 1)
    }
}

/// The first position at or after `i` holding a digit other than `0`, or
/// the length if there is none.
pub open spec fn nonzero_index_from(s: Seq<char>, i: int) -> int
    decreases s.len() - i,
{
    if i < 0 || i >= s.len() {
        s.len() as int
    } else if s[i] != '0' {
        i
    } else {
        nonzero_index_from(s, i + 1)
    }
}

/// `c` is the given lower-case letter, in either case.
pub open spec fn ic(c: char, l: char) -> bool {
    c == l || c as u32 == l as u32 - 32
}

/// `inf`, `infinity` or `nan`, in any mix of cases.
pub open spec fn is_special(t: Seq<char>) -> bool {
    ||| (t.len() == 3 && ic(t[0], 'i') && ic(t[1], 'n') && ic(t[2], 'f'))
    ||| (t.len() == 8 && ic(t[0], 'i') && ic(t[1], 'n') && ic(t[2], 'f') && ic(t[3], 'i') && ic(
        t[4],
        'n',
    ) && ic(t[5], 'i') && ic(t[6], 't') && ic(t[7], 'y'))
    ||| (t.len() == 3 && ic(t[0], 'n') && ic(t[1], 'a') && ic(t[2], 'n'))
}

/// Digits with an optional decimal point: at least one digit in all, and a
/// point may not stand alone.
pub open spec fn is_mantissa(m: Seq<char>) -> bool {
    let d = dot_index_from(m, 0);
    if d == m.len() {
        m.len() > 0 && all_digits(m)
    } else {
        all_digits(m.subrange(0, d)) && all_digits(m.subrange(d + 1, m.len() as int)) && (d > 0
            || m.len() > 1)
    }
}

/// An exponent after its marker: an optional sign, then at least one digit.
pub open spec fn is_exp_tail(s: Seq<char>) -> bool {
    strip_sign(s).len() > 0 && all_digits(strip_sign(s))
}

/// A signless number: a mantissa, optionally followed by an exponent.
pub open spec fn is_number_body(t: Seq<char>) -> bool {
    let e = marker_index_from(t, 0);
    is_mantissa(t.subrange(0, e)) && (e == t.len() || is_exp_tail(
        t.subrange(e + 1, t.len() as int),
    ))
}

/// The grammar that `f64::from_str` documents.
pub open spec fn is_float_literal(s: Seq<char>) -> bool {
    is_special(strip_sign(s)) || is_number_body(strip_sign(s))
}

/// One step of reading an exponent's digits, saturated at 10^9 so that an
/// absurdly long exponent still yields a definite answer.
pub open spec fn sat_step(acc: int, c: char) -> int {
    let x = acc * 10 + (c as u32 - '0' as u32);
    if x > 1000000000 {
        1000000000int
    } else {
        x
    }
}

/// The saturated value of a run of exponent digits, starting from `acc`.
pub open spec fn exp_digits_val(d: Seq<char>, i: int, acc: int) -> int
    decreases d.len() - i,
{
    if i < 0 || i >= d.len() {
        acc
    } else {
        exp_digits_val(d, i + 1, sat_step(acc, d[i]))
    }
}

/// The signed, saturated value of an exponent tail.
pub open spec fn exp_value(s: Seq<char>) -> int {
    if s.len() > 0 && s[0] == '-' {
        -exp_digits_val(strip_sign(s), 0, 0)
    } else {
        exp_digits_val(strip_sign(s), 0, 0)
    }
}

/// The number body is zero, or so small in magnitude that an IEEE-754
/// double rounds it to zero: writing it as d.dd… × 10^k with a leading
/// nonzero digit, k ≤ -325 guarantees a magnitude below 10^-324. The bound
/// is conservative: a literal with k == -324, such as `2e-324`, also reads
/// as zero in double precision but is kept as its text.
pub open spec fn body_is_zero_or_tiny(t: Seq<char>) -> bool {
    let e = marker_index_from(t, 0);
    let m = t.subrange(0, e);
    let d = dot_index_from(m, 0);
    let intd = m.subrange(0, if d < m.len() { d } else { m.len() as int });
    let frac = if d < m.len() {
        m.subrange(d + 1, m.len() as int)
    } else {
        Seq::<char>::empty()
    };
    let dg = intd + frac;
    let p = nonzero_index_from(dg, 0);
    if p == dg.len() {
        true
    } else {
        let ev = if e == t.len() {
            0int
        } else {
            exp_value(t.subrange(e + 1, t.len() as int))
        };
        dg.len() - 1 - p + ev - frac.len() <= -325
    }
}

/// What the reducer stores for a `number` span: `0` for a literal that an
/// IEEE-754 double reads as zero, the literal text unchanged otherwise.
pub open spec fn normalize_number(s: Seq<char>) -> Seq<char> {
    if is_number_body(strip_sign(s)) && body_is_zero_or_tiny(strip_sign(s)) {
        seq!['0']
    } else {
        s
    }
}

fn find_marker(s: &str) -> (r: usize)
    ensures
        r == marker_index_from(s@, 0),
        r <= s@.len(),
{
    let n = s.unicode_len();
    let mut i: usize = 0;
    while i < n
        invariant
            i <= n,
            n == s@.len(),
            marker_index_from(s@, 0) == marker_index_from(s@, i as int),
        decreases n - i,
    {
        let c = s.get_char(i);
        if c == 'e' || c == 'E' {
            return i;
        }
        i = i + 1;
    }
    i
}

fn find_dot(s: &str) -> (r: usize)
    ensures
        r == dot_index_from(s@, 0),
        r <= s@.len(),
{
    let n = s.unicode_len();
    let mut i: usize = 0;
    while i < n
        invariant
            i <= n,
            n == s@.len(),
            dot_index_from(s@, 0) == dot_index_from(s@, i as int),
        decreases n - i,
    {
        let c = s.get_char(i);
        if c == '.' {
            return i;
        }
        i = i + 1;
    }
    i
}

fn find_nonzero(s: &str) -> (r: usize)
    ensures
        r == nonzero_index_from(s@, 0),
        r <= s@.len(),
{
    let n = s.unicode_len();
    let mut i: usize = 0;
    while i < n
        invariant
            i <= n,
            n == s@.len(),
            nonzero_index_from(s@, 0) == nonzero_index_from(s@, i as int),
        decreases n - i,
    {
        let c = s.get_char(i);
        if c != '0' {
            return i;
        }
        i = i + 1;
    }
    i
}

fn check_all_digits(s: &str) -> (r: bool)
    ensures
        r == all_digits(s@),
{
    let n = s.unicode_len();
    let mut i: usize = 0;
    while i < n
        invariant
            i <= n,
            n == s@.len(),
            forall|j: int| 0 <= j < i ==> is_digit(#[trigger] s@[j]),
        decreases n - i,
    {
        let c = s.get_char(i);
        let u = c as u32;
        if !(48 <= u && u <= 57) {
            assert(!is_digit(s@[i as int]));
            return false;
        }
        i = i + 1;
    }
    true
}

/// Compares a character with a lower-case letter, ignoring case.
fn ic_exec(c: char, l: char) -> (r: bool)
    requires
        32 <= l as u32,
    ensures
        r == ic(c, l),
{
    c == l || c as u32 + 32 == l as u32
}

fn is_special_exec(t: &str) -> (r: bool)
    ensures
        r == is_special(t@),
{
    let n = t.unicode_len();
    if n == 3 {
        let c0 = t.get_char(0);
        let c1 = t.get_char(1);
        let c2 = t.get_char(2);
        (ic_exec(c0, 'i') && ic_exec(c1, 'n') && ic_exec(c2, 'f')) || (ic_exec(c0, 'n') && ic_exec(
            c1,
            'a',
        ) && ic_exec(c2, 'n'))
    } else if n == 8 {
        ic_exec(t.get_char(0), 'i') && ic_exec(t.get_char(1), 'n') && ic_exec(t.get_char(2), 'f')
            && ic_exec(t.get_char(3), 'i') && ic_exec(t.get_char(4), 'n') && ic_exec(
            t.get_char(5),
            'i',
        ) && ic_exec(t.get_char(6), 't') && ic_exec(t.get_char(7), 'y')
    } else {
        false
    }
}

/// Reads an exponent tail: `None` if it is not `Sign? Digit+`, otherwise
/// its signed value, saturated at 10^9 in magnitude.
fn exp_tail_value(s: &str) -> (r: Option<i64>)
    ensures
        match r {
            Option::Some(v) => is_exp_tail(s@) && v as int == exp_value(s@),
            Option::None => !is_exp_tail(s@),
        },
{
    let n = s.unicode_len();
    let neg = n > 0 && s.get_char(0) == '-';
    let start: usize = if n > 0 {
        let c = s.get_char(0);
        if c == '+' || c == '-' {
            1
        } else {
            0
        }
    } else {
        0
    };
    let d = s.substring_char(start, n);
    proof {
        assert(d@ =~= strip_sign(s@));
    }
    let dn = d.unicode_len();
    if dn == 0 {
        return Option::None;
    }
    let mut i: usize = 0;
    let mut acc: i64 = 0;
    while i < dn
        invariant
            i <= dn,
            dn == d@.len(),
            d@ == strip_sign(s@),
            0 <= acc <= 1000000000,
            forall|j: int| 0 <= j < i ==> is_digit(#[trigger] d@[j]),
            exp_digits_val(d@, 0, 0) == exp_digits_val(d@, i as int, acc as int),
        decreases dn - i,
    {
        let c = d.get_char(i);
        let u = c as u32;
        if !(48 <= u && u <= 57) {
            proof {
                assert(!is_digit(strip_sign(s@)[i as int]));
                assert(!all_digits(strip_sign(s@))) by {
                    if all_digits(strip_sign(s@)) {
                        assert(is_digit(strip_sign(s@)[i as int]));
                    }
                }
            }
            return Option::None;
        }
        let x: i64 = acc * 10 + (u - 48) as i64;
        proof {
            assert(x as int == acc as int * 10 + (d@[i as int] as u32 - '0' as u32));
        }
        acc = if x > 1000000000 {
            1000000000
        } else {
            x
        };
        i = i + 1;
    }
    if neg {
        Option::Some(-acc)
    } else {
        Option::Some(acc)
    }
}

fn is_mantissa_exec(m: &str) -> (r: bool)
    ensures
        r == is_mantissa(m@),
{
    let mn = m.unicode_len();
    let d = find_dot(m);
    if d == mn {
        mn > 0 && check_all_digits(m)
    } else {
        let a = m.substring_char(0, d);
        let b = m.substring_char(d + 1, mn);
        proof {
            assert(a@ =~= m@.subrange(0, d as int));
            assert(b@ =~= m@.subrange(d as int + 1, m@.len() as int));
        }
        let ok_a = check_all_digits(a);
        let ok_b = check_all_digits(b);
        ok_a && ok_b && (d > 0 || mn > 1)
    }
}

fn is_number_body_exec(t: &str) -> (r: bool)
    ensures
        r == is_number_body(t@),
{
    let tn = t.unicode_len();
    let e = find_marker(t);
    let m = t.substring_char(0, e);
    proof {
        assert(m@ =~= t@.subrange(0, e as int));
    }
    if !is_mantissa_exec(m) {
        return false;
    }
    if e == tn {
        true
    } else {
        let tail = t.substring_char(e + 1, tn);
        proof {
            assert(tail@ =~= t@.subrange(e as int + 1, t@.len() as int));
        }
        exp_tail_value(tail).is_some()
    }
}

/// Whether the text matches the float grammar, exactly as `is_float_literal`
/// states it.
pub fn check_float_literal(s: &str) -> (r: bool)
    ensures
        r == is_float_literal(s@),
{
    let n = s.unicode_len();
    let start: usize = if n > 0 {
        let c = s.get_char(0);
        if c == '+' || c == '-' {
            1
        } else {
            0
        }
    } else {
        0
    };
    let t = s.substring_char(start, n);
    proof {
        assert(t@ =~= strip_sign(s@));
    }
    if is_special_exec(t) {
        return true;
    }
    is_number_body_exec(t)
}

/// The stored text for a `number` span: `0` when the literal reads as zero
/// in IEEE-754 double precision, the input unchanged otherwise.
pub fn normalize_number_text(s: &str) -> (r: String)
    ensures
        r@ == normalize_number(s@),
{
    let n = s.unicode_len();
    let start: usize = if n > 0 {
        let c = s.get_char(0);
        if c == '+' || c == '-' {
            1
        } else {
            0
        }
    } else {
        0
    };
    let t = s.substring_char(start, n);
    proof {
        assert(t@ =~= strip_sign(s@));
    }
    if !is_number_body_exec(t) {
        return s.to_owned();
    }
    let tn = t.unicode_len();
    let e = find_marker(t);
    let m = t.substring_char(0, e);
    proof {
        assert(m@ =~= t@.subrange(0, e as int));
    }
    let mn = m.unicode_len();
    let d = find_dot(m);
    let intd = m.substring_char(0, if d < mn { d } else { mn });
    let frac = if d < mn {
        m.substring_char(d + 1, mn)
    } else {
        m.substring_char(mn, mn)
    };
    proof {
        assert(intd@ =~= m@.subrange(0, if d < mn { d as int } else { mn as int }));
        if d < mn {
            assert(frac@ =~= m@.subrange(d as int + 1, m@.len() as int));
        } else {
            assert(frac@ =~= Seq::<char>::empty());
        }
    }
    let mut dg = intd.to_owned();
    dg.append(frac);
    let p = find_nonzero(dg.as_str());
    let dgn = dg.as_str().unicode_len();
    let fn_len = frac.unicode_len();
    if p == dgn {
        let z = String::from_str("0");
        proof {
            reveal_strlit("0");
            assert(z@ =~= seq!['0']);
        }
        return z;
    }
    let ev: i64 = if e == tn {
        0
    } else {
        let tail = t.substring_char(e + 1, tn);
        proof {
            assert(tail@ =~= t@.subrange(e as int + 1, t@.len() as int));
        }
        match exp_tail_value(tail) {
            Option::Some(v) => v,
            Option::None => {
                proof {
                    assert(false);
                }
                0
            },
        }
    };
    let k: i128 = dgn as i128 - 1 - p as i128 + ev as i128 - fn_len as i128;
    if k <= -325 {
        let z = String::from_str("0");
        proof {
            reveal_strlit("0");
            assert(z@ =~= seq!['0']);
        }
        z
    } else {
        s.to_owned()
    }
}

} // verus!
