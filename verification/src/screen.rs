//! Screening of grammar text before it is handed to the grammar compiler.
//!
//! The compiler aborts the process on two shapes of input instead of
//! reporting them: a `\u{…}` escape whose 2–6 hex digits name a value that
//! is no Unicode scalar (a surrogate, or above 0x10FFFF), and an integer in
//! a `PEEK` slice bound beyond the 32-bit range. `grammar_text_safe` rules
//! both out, and `compile` rejects unsafe text with an error of its own
//! before calling the compiler. The check is conservative: it reads the
//! raw text without tokenizing. An oversized integer can only abort inside
//! a `PEEK` slice, which needs the word `PEEK` in the text, so digit runs
//! are only screened when that word occurs — but then anywhere, including
//! inside string literals. An offending `\u{…}` spelling is screened
//! wherever it stands, including inside a comment or behind an escaped
//! backslash, where the compiler itself would take no offence.
use vstd::prelude::*;

use crate::number::is_digit;

verus! {

pub open spec fn is_hex_digit(c: char) -> bool {
    ('0' <= c && c <= '9') || ('a' <= c && c <= 'f') || ('A' <= c && c <= 'F')
}

/// The value of one hex digit; zero for any other character.
pub open spec fn hex_digit_value(c: char) -> int {
    if '0' <= c && c <= '9' {
        c as u32 - '0' as u32
    } else if 'a' <= c && c <= 'f' {
        c as u32 - 'a' as u32 + 10
    } else if 'A' <= c && c <= 'F' {
        c as u32 - 'A' as u32 + 10
    } else {
        0
    }
}

/// The first position at or after `i` that holds no hex digit, or the
/// length.
pub open spec fn hex_end_from(s: Seq<char>, i: int) -> int
    decreases s.len() - i,
{
    if i < 0 || i >= s.len() {
        s.len() as int
    } else if !is_hex_digit(s[i]) {
        i
    } else {
        hex_end_from(s, i + 1)
    }
}

/// The first position at or after `i` that holds no decimal digit, or the
/// length.
pub open spec fn digit_end_from(s: Seq<char>, i: int) -> int
    decreases s.len() - i,
{
    if i < 0 || i >= s.len() {
        s.len() as int
    } else if !is_digit(s[i]) {
        i
    } else {
        digit_end_from(s, i + 1)
    }
}

/// The value of the hex digits in `s[i..j)`, saturated at 0x110000.
pub open spec fn hex_value_from(s: Seq<char>, i: int, j: int, acc: int) -> int
    decreases j - i,
{
    if i >= j || i < 0 || i >= s.len() {
        acc
    } else {
        let x = acc * 16 + hex_digit_value(s[i]);
        hex_value_from(s, i + 1, j, if x > 0x110000 { 0x110000int } else { x })
    }
}

/// The value of the decimal digits in `s[i..j)`, saturated at 3·10^9.
pub open spec fn dec_value_from(s: Seq<char>, i: int, j: int, acc: int) -> int
    decreases j - i,
{
    if i >= j || i < 0 || i >= s.len() {
        acc
    } else {
        let x = acc * 10 + (s[i] as u32 - '0' as u32);
        dec_value_from(s, i + 1, j, if x > 3000000000 { 3000000000int } else { x })
    }
}

/// A Unicode scalar value: what `char` can carry.
pub open spec fn scalar_value(v: int) -> bool {
    0 <= v <= 0x10FFFF && !(0xD800 <= v <= 0xDFFF)
}

/// No `\u{…}` escape starting at `i` with 2–6 hex digits names a value
/// outside the scalar range.
pub open spec fn escape_ok_at(s: Seq<char>, i: int) -> bool {
    if 0 <= i && i + 2 < s.len() && s[i] == '\\' && s[i + 1] == 'u' && s[i + 2] == '{' {
        let j = hex_end_from(s, i + 3);
        if 2 <= j - (i + 3) <= 6 && j < s.len() && s[j] == '}' {
            scalar_value(hex_value_from(s, i + 3, j, 0))
        } else {
            true
        }
    } else {
        true
    }
}

/// No maximal digit run starting at `i` exceeds the 32-bit integer range.
pub open spec fn integer_ok_at(s: Seq<char>, i: int) -> bool {
    if 0 <= i < s.len() && is_digit(s[i]) && (i == 0 || !is_digit(s[i - 1])) {
        dec_value_from(s, i, digit_end_from(s, i), 0) <= 2147483647
    } else {
        true
    }
}

/// The word `PEEK` starts at `i`. A `PEEK` slice — the one place whose
/// integers can make the compiler abort — cannot be parsed without it.
pub open spec fn peek_word_at(s: Seq<char>, i: int) -> bool {
    0 <= i && i + 3 < s.len() && s[i] == 'P' && s[i + 1] == 'E' && s[i + 2] == 'E' && s[i + 3]
        == 'K'
}

/// Text the grammar compiler is known to handle without aborting.
pub open spec fn grammar_text_safe(s: Seq<char>) -> bool {
    &&& forall|i: int| #[trigger] escape_ok_at(s, i)
    &&& (exists|i: int| #[trigger] peek_word_at(s, i)) ==> forall|i: int|
        #[trigger] integer_ok_at(s, i)
}

fn hex_end_exec(s: &str, from: usize) -> (r: usize)
    requires
        from <= s@.len(),
    ensures
        r == hex_end_from(s@, from as int),
        from <= r <= s@.len(),
{
    let n = s.unicode_len();
    let mut i: usize = from;
    while i < n
        invariant
            from <= i <= n,
            n == s@.len(),
            hex_end_from(s@, from as int) == hex_end_from(s@, i as int),
        decreases n - i,
    {
        let c = s.get_char(i);
        let u = c as u32;
        if !((48 <= u && u <= 57) || (97 <= u && u <= 102) || (65 <= u && u <= 70)) {
            return i;
        }
        i = i + 1;
    }
    i
}

fn digit_end_exec(s: &str, from: usize) -> (r: usize)
    requires
        from <= s@.len(),
    ensures
        r == digit_end_from(s@, from as int),
        from <= r <= s@.len(),
{
    let n = s.unicode_len();
    let mut i: usize = from;
    while i < n
        invariant
            from <= i <= n,
            n == s@.len(),
            digit_end_from(s@, from as int) == digit_end_from(s@, i as int),
        decreases n - i,
    {
        let c = s.get_char(i);
        let u = c as u32;
        if !(48 <= u && u <= 57) {
            return i;
        }
        i = i + 1;
    }
    i
}

fn hex_value_exec(s: &str, from: usize, to: usize) -> (r: i64)
    requires
        from <= to <= s@.len(),
    ensures
        r == hex_value_from(s@, from as int, to as int, 0),
        0 <= r <= 0x110000,
{
    let mut i: usize = from;
    let mut acc: i64 = 0;
    while i < to
        invariant
            from <= i <= to <= s@.len(),
            0 <= acc <= 0x110000,
            hex_value_from(s@, from as int, to as int, 0) == hex_value_from(
                s@,
                i as int,
                to as int,
                acc as int,
            ),
        decreases to - i,
    {
        let c = s.get_char(i);
        let hv: i64 = {
            let u = c as u32;
            if 48 <= u && u <= 57 {
                (u - 48) as i64
            } else if 97 <= u && u <= 102 {
                (u - 97 + 10) as i64
            } else if 65 <= u && u <= 70 {
                (u - 65 + 10) as i64
            } else {
                0
            }
        };
        proof {
            assert(hv as int == hex_digit_value(s@[i as int]));
        }
        let x: i64 = acc * 16 + hv;
        acc = if x > 0x110000 {
            0x110000
        } else {
            x
        };
        i = i + 1;
    }
    acc
}

proof fn lemma_digit_end(s: Seq<char>, i: int)
    requires
        0 <= i <= s.len(),
    ensures
        i <= digit_end_from(s, i) <= s.len(),
        forall|j: int| i <= j < digit_end_from(s, i) ==> is_digit(#[trigger] s[j]),
    decreases s.len() - i,
{
    if i < s.len() && is_digit(s[i]) {
        lemma_digit_end(s, i + 1);
    }
}

fn dec_value_exec(s: &str, from: usize, to: usize) -> (r: i64)
    requires
        from <= to <= s@.len(),
        forall|j: int| from <= j < to ==> is_digit(#[trigger] s@[j]),
    ensures
        r == dec_value_from(s@, from as int, to as int, 0),
{
    let mut i: usize = from;
    let mut acc: i64 = 0;
    while i < to
        invariant
            from <= i <= to <= s@.len(),
            forall|j: int| from <= j < to ==> is_digit(#[trigger] s@[j]),
            0 <= acc <= 3000000000,
            dec_value_from(s@, from as int, to as int, 0) == dec_value_from(
                s@,
                i as int,
                to as int,
                acc as int,
            ),
        decreases to - i,
    {
        let c = s.get_char(i);
        let u = c as u32;
        proof {
            assert(is_digit(s@[i as int]));
        }
        let dv: i64 = (u - 48) as i64;
        let x: i64 = acc * 10 + dv;
        acc = if x > 3000000000 {
            3000000000
        } else {
            x
        };
        i = i + 1;
    }
    acc
}

/// Whether the word `PEEK` occurs anywhere in the text.
fn has_peek_word(s: &str) -> (r: bool)
    ensures
        r == exists|i: int| peek_word_at(s@, i),
{
    let n = s.unicode_len();
    if n < 4 {
        return false;
    }
    let mut i: usize = 0;
    while i + 3 < n
        invariant
            n >= 4,
            i <= n - 3,
            n == s@.len(),
            forall|j: int| j < i ==> !#[trigger] peek_word_at(s@, j),
        decreases n - i,
    {
        if s.get_char(i) == 'P' && s.get_char(i + 1) == 'E' && s.get_char(i + 2) == 'E'
            && s.get_char(i + 3) == 'K' {
            proof {
                assert(peek_word_at(s@, i as int));
            }
            return true;
        }
        i = i + 1;
    }
    false
}

/// Whether the text passes the screen, exactly as `grammar_text_safe`
/// states it.
pub fn check_grammar_text(s: &str) -> (r: bool)
    ensures
        r == grammar_text_safe(s@),
{
    let has_peek = has_peek_word(s);
    let n = s.unicode_len();
    let mut i: usize = 0;
    let mut prev_digit = false;
    while i < n
        invariant
            i <= n,
            n == s@.len(),
            has_peek == exists|j: int| #[trigger] peek_word_at(s@, j),
            prev_digit == (i > 0 && is_digit(s@[i as int - 1])),
            forall|j: int| j < i ==> #[trigger] escape_ok_at(s@, j),
            has_peek ==> forall|j: int| j < i ==> #[trigger] integer_ok_at(s@, j),
        decreases n - i,
    {
        let c = s.get_char(i);
        if c == '\\' && n - i > 2 {
            if s.get_char(i + 1) == 'u' && s.get_char(i + 2) == '{' {
                let j = hex_end_exec(s, i + 3);
                let len: usize = j - (i + 3);
                if 2 <= len && len <= 6 && j < n && s.get_char(j) == '}' {
                    let v = hex_value_exec(s, i + 3, j);
                    if !(v <= 0x10FFFF && !(0xD800 <= v && v <= 0xDFFF)) {
                        proof {
                            assert(!escape_ok_at(s@, i as int));
                        }
                        return false;
                    }
                }
            }
        }
        let u = c as u32;
        let is_d = 48 <= u && u <= 57;
        if has_peek && is_d && !prev_digit {
            let j = digit_end_exec(s, i + 1);
            proof {
                assert(is_digit(s@[i as int]));
                assert(digit_end_from(s@, i as int) == digit_end_from(s@, i as int + 1));
                lemma_digit_end(s@, i as int);
            }
            let v = dec_value_exec(s, i, j);
            if v > 2147483647 {
                proof {
                    assert(!integer_ok_at(s@, i as int));
                }
                return false;
            }
        }
        proof {
            assert(escape_ok_at(s@, i as int));
            if has_peek {
                assert(integer_ok_at(s@, i as int));
            }
        }
        prev_digit = is_d;
        i = i + 1;
    }
    proof {
        assert forall|j: int| #[trigger] escape_ok_at(s@, j) by {
            if 0 <= j < s@.len() {
            }
        }
        if has_peek {
            assert forall|j: int| #[trigger] integer_ok_at(s@, j) by {
                if 0 <= j < s@.len() {
                }
            }
        }
    }
    true
}

} // verus!
