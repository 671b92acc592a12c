//! Coercion of textual numeric fields.
//!
//! Price and market-cap values arrive from the API as text. A well-formed
//! value is kept as it is; a malformed one is replaced by the default `"0"`,
//! so that a record with a bad numeric field still contributes its identity
//! and metadata rather than blocking ingestion.
//!
//! Well-formed means the decimal floating-point literal syntax the standard
//! library's numeric parser accepts: an optional sign, then either one of the
//! special words `inf`, `infinity`, `nan` (in any letter case), or a mantissa
//! — digits, optionally with a decimal point before, inside or after them,
//! with at least one digit — optionally followed by an exponent part
//! (`e`/`E`, an optional sign, one or more digits).

use vstd::prelude::*;

verus! {

/// An ASCII decimal digit, `'0'` through `'9'`.
pub open spec fn is_digit(c: char) -> bool {
    48 <= c as int && c as int <= 57
}

/// An ASCII sign, `'+'` or `'-'`.
pub open spec fn is_sign(c: char) -> bool {
    c == '+' || c == '-'
}

/// `c` equals the lowercase ASCII letter `lower`, in either letter case.
pub open spec fn eq_ci(c: char, lower: char) -> bool {
    c == lower || c as int + 32 == lower as int
}

/// How many digits the text starts with.
pub open spec fn leading_digits(s: Seq<char>) -> int
    decreases s.len(),
{
    if s.len() == 0 || !is_digit(s[0]) {
        0
    } else {
        1 + leading_digits(s.skip(1))
    }
}

/// The word `inf`, in any letter case.
pub open spec fn is_inf(s: Seq<char>) -> bool {
    s.len() == 3 && eq_ci(s[0], 'i') && eq_ci(s[1], 'n') && eq_ci(s[2], 'f')
}

/// The word `infinity`, in any letter case.
pub open spec fn is_infinity(s: Seq<char>) -> bool {
    s.len() == 8 && eq_ci(s[0], 'i') && eq_ci(s[1], 'n') && eq_ci(s[2], 'f') && eq_ci(s[3], 'i')
        && eq_ci(s[4], 'n') && eq_ci(s[5], 'i') && eq_ci(s[6], 't') && eq_ci(s[7], 'y')
}

/// The word `nan`, in any letter case.
pub open spec fn is_nan(s: Seq<char>) -> bool {
    s.len() == 3 && eq_ci(s[0], 'n') && eq_ci(s[1], 'a') && eq_ci(s[2], 'n')
}

/// One of the special non-finite words.
pub open spec fn is_special(s: Seq<char>) -> bool {
    is_inf(s) || is_infinity(s) || is_nan(s)
}

/// An exponent tail: an optional sign, then one or more digits and nothing
/// else.
pub open spec fn is_exp_tail(t: Seq<char>) -> bool {
    let u = if t.len() > 0 && is_sign(t[0]) {
        t.skip(1)
    } else {
        t
    };
    u.len() >= 1 && leading_digits(u) == u.len()
}

/// An exponent part: `e` or `E`, then an exponent tail.
pub open spec fn is_exp(s: Seq<char>) -> bool {
    s.len() >= 1 && (s[0] == 'e' || s[0] == 'E') && is_exp_tail(s.skip(1))
}

/// An unsigned number: a mantissa with at least one digit and at most one
/// decimal point, then an optional exponent part.
pub open spec fn is_number(b: Seq<char>) -> bool {
    let k = leading_digits(b);
    let rest = b.skip(k);
    if rest.len() == 0 {
        k >= 1
    } else if rest[0] == '.' {
        let f = leading_digits(rest.skip(1));
        let rest2 = rest.skip(1 + f);
        (k >= 1 || f >= 1) && (rest2.len() == 0 || is_exp(rest2))
    } else {
        k >= 1 && is_exp(rest)
    }
}

/// The whole text is a well-formed floating-point literal.
pub open spec fn is_float_literal(s: Seq<char>) -> bool {
    let b = if s.len() > 0 && is_sign(s[0]) {
        s.skip(1)
    } else {
        s
    };
    is_special(b) || is_number(b)
}

/// The default text substituted for a malformed numeric field; it denotes
/// zero.
pub open spec fn default_numeric_text() -> Seq<char> {
    seq!['0']
}

/// A numeric field after coercion: kept when well-formed, else the default.
pub open spec fn coerced(s: Seq<char>) -> Seq<char> {
    if is_float_literal(s) {
        s
    } else {
        default_numeric_text()
    }
}

/// `leading_digits` is exactly the length of the all-digit prefix that a scan
/// finds.
proof fn lemma_leading_digits_of_scan(t: Seq<char>, k: int)
    requires
        0 <= k <= t.len(),
        forall|j: int| 0 <= j < k ==> is_digit(#[trigger] t[j]),
        k == t.len() || !is_digit(t[k]),
    ensures
        leading_digits(t) == k,
    decreases k,
{
    if k == 0 {
    } else {
        assert(forall|j: int| 0 <= j < k - 1 ==> is_digit(#[trigger] t.skip(1)[j]));
        lemma_leading_digits_of_scan(t.skip(1), k - 1);
    }
}

/// Count the digits of `s` starting at character position `from`.
fn count_digits(s: &str, from: usize) -> (k: usize)
    requires
        from <= s@.len(),
    ensures
        from + k <= s@.len(),
        k == leading_digits(s@.skip(from as int)),
{
    let n = s.unicode_len();
    let mut i: usize = from;
    let mut stop: bool = false;
    while !stop
        invariant
            from <= i <= n,
            n == s@.len(),
            forall|j: int| from <= j < i ==> is_digit(#[trigger] s@[j]),
            stop ==> i == n || !is_digit(s@[i as int]),
        decreases n - i + (if stop {
            0int
        } else {
            1int
        }),
    {
        if i < n {
            let c = s.get_char(i);
            let u = c as u32;
            if 48 <= u && u <= 57 {
                i = i + 1;
            } else {
                stop = true;
            }
        } else {
            stop = true;
        }
    }
    proof {
        let t = s@.skip(from as int);
        assert(forall|j: int| 0 <= j < i - from ==> is_digit(#[trigger] t[j]));
        lemma_leading_digits_of_scan(t, i - from);
    }
    i - from
}

/// `c` equals the lowercase ASCII letter `lower`, in either letter case.
fn char_eq_ci(c: char, lower: char) -> (r: bool)
    requires
        97 <= lower as int <= 122,
    ensures
        r == eq_ci(c, lower),
{
    c == lower || (c as u32) + 32 == (lower as u32)
}

/// Does the text from position `from` on spell one of the special words?
fn matches_special(s: &str, from: usize) -> (r: bool)
    requires
        from <= s@.len(),
    ensures
        r == is_special(s@.skip(from as int)),
{
    let n = s.unicode_len();
    let rem = n - from;
    let b = Ghost(s@.skip(from as int));
    if rem == 3 {
        let c0 = s.get_char(from);
        let c1 = s.get_char(from + 1);
        let c2 = s.get_char(from + 2);
        let inf = char_eq_ci(c0, 'i') && char_eq_ci(c1, 'n') && char_eq_ci(c2, 'f');
        let nan = char_eq_ci(c0, 'n') && char_eq_ci(c1, 'a') && char_eq_ci(c2, 'n');
        proof {
            assert(b@[0] == s@[from as int] && b@[1] == s@[from + 1int] && b@[2] == s@[from
                + 2int]);
        }
        inf || nan
    } else if rem == 8 {
        let ok = char_eq_ci(s.get_char(from), 'i') && char_eq_ci(s.get_char(from + 1), 'n')
            && char_eq_ci(s.get_char(from + 2), 'f') && char_eq_ci(s.get_char(from + 3), 'i')
            && char_eq_ci(s.get_char(from + 4), 'n') && char_eq_ci(s.get_char(from + 5), 'i')
            && char_eq_ci(s.get_char(from + 6), 't') && char_eq_ci(s.get_char(from + 7), 'y');
        proof {
            assert(forall|j: int| 0 <= j < 8 ==> b@[j] == s@[from + j]);
        }
        ok
    } else {
        false
    }
}

/// Does the text from position `from` on form an exponent part?
fn is_exp_from(s: &str, from: usize) -> (r: bool)
    requires
        from <= s@.len(),
    ensures
        r == is_exp(s@.skip(from as int)),
{
    let n = s.unicode_len();
    if from == n {
        return false;
    }
    let c = s.get_char(from);
    if !(c == 'e' || c == 'E') {
        return false;
    }
    let mut j = from + 1;
    if j < n {
        let c2 = s.get_char(j);
        if c2 == '+' || c2 == '-' {
            j = j + 1;
        }
    }
    let k = count_digits(s, j);
    proof {
        let b = s@.skip(from as int);
        let t = b.skip(1);
        assert(t =~= s@.skip(from + 1int));
        let u = if t.len() > 0 && is_sign(t[0]) {
            t.skip(1)
        } else {
            t
        };
        assert(u =~= s@.skip(j as int));
    }
    k >= 1 && j + k == n
}

/// Does the text from position `from` on form an unsigned number?
fn is_number_from(s: &str, from: usize) -> (r: bool)
    requires
        from <= s@.len(),
    ensures
        r == is_number(s@.skip(from as int)),
{
    let ghost b = s@.skip(from as int);
    let n = s.unicode_len();
    let k = count_digits(s, from);
    let i1 = from + k;
    proof {
        assert(b.skip(k as int) =~= s@.skip(i1 as int));
    }
    if i1 == n {
        return k >= 1;
    }
    let c = s.get_char(i1);
    if c == '.' {
        let f = count_digits(s, i1 + 1);
        let i2 = i1 + 1 + f;
        proof {
            let rest = b.skip(k as int);
            assert(rest.skip(1) =~= s@.skip(i1 + 1int));
            assert(rest.skip(1 + f as int) =~= s@.skip(i2 as int));
        }
        if !(k >= 1 || f >= 1) {
            return false;
        }
        if i2 == n {
            return true;
        }
        is_exp_from(s, i2)
    } else {
        if k == 0 {
            return false;
        }
        is_exp_from(s, i1)
    }
}

/// Is the whole text a well-formed floating-point literal?
pub fn is_float_text(s: &str) -> (r: bool)
    ensures
        r == is_float_literal(s@),
{
    let n = s.unicode_len();
    let start: usize = if n > 0 {
        let c = s.get_char(0);
        if c == '+' || c == '-' {
            1
        } else {
            0
        }
    } else {
        0
    };
    proof {
        if start == 0 {
            assert(s@.skip(0) =~= s@);
        }
    }
    matches_special(s, start) || is_number_from(s, start)
}

/// Coerce a textual numeric field: keep it when it is a well-formed literal,
/// else substitute the default `"0"`.
pub fn coerce_numeric(s: &str) -> (r: String)
    ensures
        r@ == coerced(s@),
{
    if is_float_text(s) {
        s.to_owned()
    } else {
        proof {
            reveal_strlit("0");
            assert("0"@ =~= default_numeric_text());
        }
        "0".to_owned()
    }
}

} // verus!
