//! Number texts as the command line accepts them: the grammar of `i64` and
//! of floating-point texts that the standard parsers accept, decided without
//! floating-point arithmetic.
use vstd::prelude::*;
use crate::text::chars_of;

verus! {

pub open spec fn is_digit(c: char) -> bool {
    '0' <= c && c <= '9'
}

pub open spec fn is_sign(c: char) -> bool {
    c == '+' || c == '-'
}

pub open spec fn all_digits(s: Seq<char>) -> bool {
    forall|i: int| 0 <= i < s.len() ==> is_digit(#[trigger] s[i])
}

pub open spec fn digit_value(c: char) -> int {
    (c as u32) - ('0' as u32)
}

/// The value of a numeral written with decimal digits, most significant first.
pub open spec fn digits_value(s: Seq<char>) -> int
    decreases s.len(),
{
    if s.len() == 0 {
        0
    } else {
        10 * digits_value(s.drop_last()) + digit_value(s.last())
    }
}

/// The text after an optional leading sign.
pub open spec fn unsigned_part(s: Seq<char>) -> Seq<char> {
    if s.len() > 0 && is_sign(s[0]) {
        s.drop_first()
    } else {
        s
    }
}

/// The integer an integer text denotes: an optional `+` or `-`, then one or
/// more decimal digits and nothing else.
pub open spec fn integer_text_value(s: Seq<char>) -> Option<int> {
    let body = unsigned_part(s);
    if body.len() > 0 && all_digits(body) {
        if s[0] == '-' {
            Some(-digits_value(body))
        } else {
            Some(digits_value(body))
        }
    } else {
        None
    }
}

/// What `str::parse::<i64>` gives: the value of an integer text when it lies
/// in the range of `i64`, and nothing otherwise.
pub open spec fn i64_text_value(s: Seq<char>) -> Option<i64> {
    match integer_text_value(s) {
        Some(v) => if i64::MIN <= v <= i64::MAX {
            Some(v as i64)
        } else {
            None
        },
        None => None,
    }
}

proof fn lemma_digits_value_nonneg(s: Seq<char>)
    requires
        all_digits(s),
    ensures
        digits_value(s) >= 0,
    decreases s.len(),
{
    if s.len() > 0 {
        lemma_digits_value_nonneg(s.drop_last());
    }
}

proof fn lemma_digits_value_prefix(s: Seq<char>, k: int)
    requires
        all_digits(s),
        0 <= k <= s.len(),
    ensures
        digits_value(s.take(k)) <= digits_value(s),
    decreases s.len(),
{
    if k < s.len() {
        assert(s.take(k) == s.drop_last().take(k));
        lemma_digits_value_prefix(s.drop_last(), k);
        lemma_digits_value_nonneg(s.drop_last());
    } else {
        assert(s.take(k) == s);
    }
}

/// Parses a signed decimal integer as `str::parse::<i64>` does.
pub fn parse_i64(s: &str) -> (r: Option<i64>)
    ensures
        r == i64_text_value(s@),
{
    let v = chars_of(s);
    let n = v.len();
    let neg = n > 0 && v[0] == '-';
    let start: usize = if n > 0 && (v[0] == '+' || v[0] == '-') {
        1
    } else {
        0
    };
    let ghost body = unsigned_part(s@);
    assert(body == v@.skip(start as int));
    if start == n {
        return None;
    }
    let limit: u128 = 0x8000_0000_0000_0000;
    let mut acc: u128 = 0;
    let mut i: usize = start;
    while i < n
        invariant
            v@ == s@,
            n == v@.len(),
            start <= i <= n,
            body == v@.skip(start as int),
            body == unsigned_part(s@),
            neg == (s@.len() > 0 && s@[0] == '-'),
            all_digits(body.take(i - start)),
            acc == digits_value(body.take(i - start)),
            acc <= limit,
            limit == 0x8000_0000_0000_0000,
        decreases n - i,
    {
        let c = v[i];
        if !('0' <= c && c <= '9') {
            assert(body[i - start] == c);
            assert(!is_digit(body[i - start]));
            return None;
        }
        let d = (c as u32 - '0' as u32) as u128;
        assert(body.take(i + 1 - start).drop_last() == body.take(i - start));
        assert(body.take(i + 1 - start).last() == c);
        acc = acc * 10 + d;
        i = i + 1;
        assert(all_digits(body.take(i - start))) by {
            assert forall|j: int| 0 <= j < i - start implies is_digit(
                #[trigger] body.take(i - start)[j],
            ) by {
                if j < i - 1 - start {
                    assert(body.take(i - start)[j] == body.take(i - 1 - start)[j]);
                }
            }
        }
        if acc > limit {
            proof {
                if all_digits(body) {
                    lemma_digits_value_prefix(body, i - start);
                }
            }
            return None;
        }
    }
    assert(body.take(n - start) == body);
    if neg {
        if acc == limit {
            Some(i64::MIN)
        } else {
            Some(-(acc as i64))
        }
    } else if acc == limit {
        None
    } else {
        Some(acc as i64)
    }
}

/// ASCII letters in lower case; other characters unchanged.
pub open spec fn lower_ascii(c: char) -> char {
    if 'A' <= c && c <= 'Z' {
        ((c as u32) + 32) as char
    } else {
        c
    }
}

/// `s` equals the lower-case word `w` when ASCII letters are lowered.
pub open spec fn equals_word_ignoring_case(s: Seq<char>, w: Seq<char>) -> bool {
    s.len() == w.len() && forall|i: int| 0 <= i < s.len() ==> lower_ascii(#[trigger] s[i]) == w[i]
}

pub open spec fn is_special_float_word(s: Seq<char>) -> bool {
    ||| equals_word_ignoring_case(s, seq!['i', 'n', 'f'])
    ||| equals_word_ignoring_case(s, seq!['i', 'n', 'f', 'i', 'n', 'i', 't', 'y'])
    ||| equals_word_ignoring_case(s, seq!['n', 'a', 'n'])
}

pub open spec fn is_exponent_mark(c: char) -> bool {
    c == 'e' || c == 'E'
}

/// Index of the first exponent mark, or the length when there is none.
pub open spec fn exponent_start(s: Seq<char>) -> int
    decreases s.len(),
{
    if s.len() == 0 {
        0
    } else if is_exponent_mark(s[0]) {
        0
    } else {
        1 + exponent_start(s.drop_first())
    }
}

/// Digits with at most one decimal point, and at least one digit.
pub open spec fn is_mantissa(m: Seq<char>) -> bool {
    &&& forall|i: int| 0 <= i < m.len() ==> (is_digit(#[trigger] m[i]) || m[i] == '.')
    &&& forall|i: int, j: int| 0 <= i < j < m.len() ==> !(#[trigger] m[i] == '.' && #[trigger] m[j] == '.')
    &&& exists|i: int| 0 <= i < m.len() && is_digit(#[trigger] m[i])
}

/// Empty, or an exponent mark, an optional sign and one or more digits.
pub open spec fn is_exponent(x: Seq<char>) -> bool {
    x.len() == 0 || (is_exponent_mark(x[0]) && {
        let d = unsigned_part(x.drop_first());
        d.len() > 0 && all_digits(d)
    })
}

/// The grammar that `str::parse::<f64>` documents, after an optional sign:
/// `inf`, `infinity` or `nan` in any case, or a mantissa of digits with an
/// optional decimal point and at least one digit, followed by an optional
/// exponent. No whitespace is allowed anywhere.
pub open spec fn is_float_text(s: Seq<char>) -> bool {
    let b = unsigned_part(s);
    let e = exponent_start(b);
    is_special_float_word(b) || (is_mantissa(b.take(e)) && is_exponent(b.skip(e)))
}

proof fn lemma_exponent_start(s: Seq<char>)
    ensures
        0 <= exponent_start(s) <= s.len(),
        forall|j: int| 0 <= j < exponent_start(s) ==> !is_exponent_mark(#[trigger] s[j]),
        exponent_start(s) < s.len() ==> is_exponent_mark(s[exponent_start(s)]),
    decreases s.len(),
{
    if s.len() > 0 && !is_exponent_mark(s[0]) {
        lemma_exponent_start(s.drop_first());
        assert forall|j: int| 0 <= j < exponent_start(s) implies !is_exponent_mark(
            #[trigger] s[j],
        ) by {
            if j > 0 {
                assert(s[j] == s.drop_first()[j - 1]);
            }
        }
    }
}

fn lower_ascii_exec(c: char) -> (r: char)
    ensures
        r == lower_ascii(c),
{
    if 'A' <= c && c <= 'Z' {
        let u = c as u32 + 32;
        assert(0x61 <= u <= 0x7a);
        proof {
            assert(((c as u32) + 32) as char == u as char);
        }
        char_from_ascii(u)
    } else {
        c
    }
}

fn char_from_ascii(u: u32) -> (c: char)
    requires
        0x61 <= u <= 0x7a,
    ensures
        c == u as char,
{
    let b = u as u8;
    assert(b as char == u as char);
    b as char
}

/// `v[from..]` equals the lower-case word `w`, ignoring ASCII case.
fn word_at_ignoring_case(v: &Vec<char>, from: usize, w: &Vec<char>) -> (r: bool)
    requires
        from <= v@.len(),
    ensures
        r == equals_word_ignoring_case(v@.skip(from as int), w@),
{
    let n = v.len();
    if n - from != w.len() {
        return false;
    }
    let mut i: usize = 0;
    while i < w.len()
        invariant
            n == v@.len(),
            from <= n,
            n - from == w@.len(),
            i <= w@.len(),
            forall|j: int| 0 <= j < i ==> lower_ascii(#[trigger] v@.skip(from as int)[j]) == w@[j],
        decreases w@.len() - i,
    {
        assert(v@.skip(from as int)[i as int] == v@[from + i]);
        if lower_ascii_exec(v[from + i]) != w[i] {
            return false;
        }
        i = i + 1;
    }
    true
}

/// Whether `str::parse::<f64>` accepts the text, decided by its grammar.
pub fn float_text_valid(s: &str) -> (r: bool)
    ensures
        r == is_float_text(s@),
{
    let v = chars_of(s);
    let n = v.len();
    let start: usize = if n > 0 && (v[0] == '+' || v[0] == '-') {
        1
    } else {
        0
    };
    let ghost b = unsigned_part(s@);
    assert(b == v@.skip(start as int));
    let inf = vec!['i', 'n', 'f'];
    let infinity = vec!['i', 'n', 'f', 'i', 'n', 'i', 't', 'y'];
    let nan = vec!['n', 'a', 'n'];
    assert(inf@ == seq!['i', 'n', 'f']);
    assert(infinity@ == seq!['i', 'n', 'f', 'i', 'n', 'i', 't', 'y']);
    assert(nan@ == seq!['n', 'a', 'n']);
    if word_at_ignoring_case(&v, start, &inf) || word_at_ignoring_case(&v, start, &infinity)
        || word_at_ignoring_case(&v, start, &nan) {
        return true;
    }
    assert(!is_special_float_word(b));
    proof {
        lemma_exponent_start(b);
    }
    // the mantissa: v[start..e]
    let mut i: usize = start;
    let mut seen_dot = false;
    let mut seen_digit = false;
    while i < n && v[i] != 'e' && v[i] != 'E'
        invariant
            v@ == s@,
            n == v@.len(),
            start <= i <= n,
            b == v@.skip(start as int),
            b == unsigned_part(s@),
            b.len() == n - start,
            !is_special_float_word(b),
            0 <= exponent_start(b) <= b.len(),
            forall|j: int| 0 <= j < exponent_start(b) ==> !is_exponent_mark(#[trigger] b[j]),
            exponent_start(b) < b.len() ==> is_exponent_mark(b[exponent_start(b)]),
            forall|j: int| 0 <= j < i - start ==> !is_exponent_mark(#[trigger] b[j]),
            forall|j: int| 0 <= j < i - start ==> (is_digit(#[trigger] b[j]) || b[j] == '.'),
            forall|j: int, k: int|
                0 <= j < k < i - start ==> !(#[trigger] b[j] == '.' && #[trigger] b[k] == '.'),
            seen_dot == (exists|j: int| 0 <= j < i - start && #[trigger] b[j] == '.'),
            seen_digit == (exists|j: int| 0 <= j < i - start && is_digit(#[trigger] b[j])),
        decreases n - i,
    {
        let c = v[i];
        assert(b[i - start] == c);
        let ghost e = exponent_start(b);
        assert(i - start < e) by {
            if e <= i - start {
                if e < i - start {
                    assert(!is_exponent_mark(b[e]));
                }
            }
        }
        if c == '.' {
            if seen_dot {
                let ghost j = choose|j: int| 0 <= j < i - start && #[trigger] b[j] == '.';
                proof {
                    assert(b.take(e)[j] == '.' && b.take(e)[i - start] == '.');
                }
                return false;
            }
            seen_dot = true;
        } else if '0' <= c && c <= '9' {
            seen_digit = true;
        } else {
            proof {
                assert(b.take(e)[i - start] == c);
                assert(!(is_digit(b.take(e)[i - start]) || b.take(e)[i - start] == '.'));
            }
            return false;
        }
        i = i + 1;
    }
    let ghost e = exponent_start(b);
    assert(i - start == e) by {
        if e < i - start {
            assert(!is_exponent_mark(b[e]));
        }
        if e > i - start {
            assert(is_exponent_mark(b[i - start]));
        }
    }
    assert(b.take(e) == v@.subrange(start as int, i as int));
    if !seen_digit {
        proof {
            assert forall|j: int| 0 <= j < e implies !is_digit(#[trigger] b.take(e)[j]) by {
                assert(b.take(e)[j] == b[j]);
            }
        }
        return false;
    }
    proof {
        let j = choose|j: int| 0 <= j < i - start && is_digit(#[trigger] b[j]);
        assert(b.take(e)[j] == b[j]);
        assert(is_mantissa(b.take(e)));
    }
    // the exponent: v[i..]
    let ghost x = b.skip(e);
    assert(x == v@.skip(i as int));
    if i == n {
        return true;
    }
    let mut k: usize = i + 1;
    if k < n && (v[k] == '+' || v[k] == '-') {
        k = k + 1;
    }
    let k0 = k;
    let ghost d = unsigned_part(x.drop_first());
    assert(d == v@.skip(k0 as int));
    if k == n {
        return false;
    }
    while k < n
        invariant
            v@ == s@,
            n == v@.len(),
            k0 <= k <= n,
            d == v@.skip(k0 as int),
            b == unsigned_part(s@),
            !is_special_float_word(b),
            is_mantissa(b.take(exponent_start(b))),
            x == b.skip(exponent_start(b)),
            x.len() > 0,
            is_exponent_mark(x[0]),
            d == unsigned_part(x.drop_first()),
            forall|j: int| 0 <= j < k - k0 ==> is_digit(#[trigger] d[j]),
        decreases n - k,
    {
        assert(d[k - k0] == v[k as int]);
        if !('0' <= v[k] && v[k] <= '9') {
            assert(!is_digit(d[k - k0]));
            return false;
        }
        k = k + 1;
    }
    true
}

} // verus!
