//! Text utilities over Unicode scalar values: character access, whitespace,
//! trimming, comparison and decimal rendering.
use vstd::prelude::*;

verus! {

broadcast use vstd::string::group_string_axioms;

/// The characters of `s`, in order.
pub fn chars_of(s: &str) -> (v: Vec<char>)
    ensures
        v@ == s@,
{
    let mut v: Vec<char> = Vec::new();
    for c in it: s.chars()
        invariant
            v@ == it.seq().take(it.index() as int),
    {
        v.push(c);
    }
    v
}

/// Appends one character to a string (`String::push`); the string gains
/// exactly that character at its end.
#[verifier::external_body]
pub(crate) fn push_char(s: &mut String, c: char)
    ensures
        final(s)@ == old(s)@.push(c),
{
    s.push(c);
}

/// Appends a whole string slice.
pub fn push_text(s: &mut String, t: &str)
    ensures
        final(s)@ == old(s)@ + t@,
{
    s.append(t);
}

/// Whether two texts hold the same characters.
pub fn same_text(a: &str, b: &str) -> (r: bool)
    ensures
        r == (a@ == b@),
{
    let x = String::from_str(a);
    let y = String::from_str(b);
    x == y
}

/// The Unicode `White_Space` property, the set that `char::is_whitespace`
/// and `str::trim` use.
pub open spec fn is_white_space(c: char) -> bool {
    let u = c as u32;
    ||| 0x09 <= u <= 0x0D
    ||| u == 0x20
    ||| u == 0x85
    ||| u == 0xA0
    ||| u == 0x1680
    ||| 0x2000 <= u <= 0x200A
    ||| u == 0x2028
    ||| u == 0x2029
    ||| u == 0x202F
    ||| u == 0x205F
    ||| u == 0x3000
}

pub fn char_is_white_space(c: char) -> (r: bool)
    ensures
        r == is_white_space(c),
{
    let u = c as u32;
    (0x09 <= u && u <= 0x0D) || u == 0x20 || u == 0x85 || u == 0xA0 || u == 0x1680 || (0x2000
        <= u && u <= 0x200A) || u == 0x2028 || u == 0x2029 || u == 0x202F || u == 0x205F || u
        == 0x3000
}

/// A text made only of whitespace (the empty text included): what
/// `text.trim().is_empty()` tests.
pub open spec fn is_blank(s: Seq<char>) -> bool {
    forall|i: int| 0 <= i < s.len() ==> is_white_space(#[trigger] s[i])
}

/// Index of the first character that is not whitespace (`s.len()` if none).
pub open spec fn first_solid(s: Seq<char>) -> int
    decreases s.len(),
{
    if s.len() == 0 {
        0
    } else if is_white_space(s[0]) {
        1 + first_solid(s.drop_first())
    } else {
        0
    }
}

/// One past the index of the last character that is not whitespace (0 if none).
pub open spec fn last_solid_end(s: Seq<char>) -> int
    decreases s.len(),
{
    if s.len() == 0 {
        0
    } else if is_white_space(s.last()) {
        last_solid_end(s.drop_last())
    } else {
        s.len() as int
    }
}

/// `s` with leading and trailing whitespace removed, as `str::trim` does.
pub open spec fn trimmed(s: Seq<char>) -> Seq<char> {
    if is_blank(s) {
        Seq::empty()
    } else {
        s.subrange(first_solid(s), last_solid_end(s))
    }
}

pub fn text_is_blank(s: &str) -> (r: bool)
    ensures
        r == is_blank(s@),
{
    let v = chars_of(s);
    let mut i: usize = 0;
    while i < v.len()
        invariant
            v@ == s@,
            i <= v@.len(),
            forall|j: int| 0 <= j < i ==> is_white_space(#[trigger] v@[j]),
        decreases v@.len() - i,
    {
        if !char_is_white_space(v[i]) {
            return false;
        }
        i = i + 1;
    }
    true
}

proof fn lemma_first_solid(s: Seq<char>)
    ensures
        0 <= first_solid(s) <= s.len(),
        forall|j: int| 0 <= j < first_solid(s) ==> is_white_space(#[trigger] s[j]),
        first_solid(s) < s.len() ==> !is_white_space(s[first_solid(s)]),
    decreases s.len(),
{
    if s.len() > 0 && is_white_space(s[0]) {
        lemma_first_solid(s.drop_first());
        assert forall|j: int| 0 <= j < first_solid(s) implies is_white_space(#[trigger] s[j]) by {
            if j > 0 {
                assert(s[j] == s.drop_first()[j - 1]);
            }
        }
    }
}

proof fn lemma_last_solid_end(s: Seq<char>)
    ensures
        0 <= last_solid_end(s) <= s.len(),
        forall|j: int| last_solid_end(s) <= j < s.len() ==> is_white_space(#[trigger] s[j]),
        last_solid_end(s) > 0 ==> !is_white_space(s[last_solid_end(s) - 1]),
    decreases s.len(),
{
    if s.len() > 0 && is_white_space(s.last()) {
        lemma_last_solid_end(s.drop_last());
        assert forall|j: int| last_solid_end(s) <= j < s.len() implies is_white_space(
            #[trigger] s[j],
        ) by {
            if j < s.len() - 1 {
                assert(s[j] == s.drop_last()[j]);
            }
        }
    }
}

/// What `str::trim` gives: `s` without its leading and trailing whitespace.
pub fn trim_text(s: &str) -> (r: String)
    ensures
        r@ == trimmed(s@),
{
    let v = chars_of(s);
    let n = v.len();
    let mut start: usize = 0;
    while start < n && char_is_white_space(v[start])
        invariant
            v@ == s@,
            n == v@.len(),
            start <= n,
            forall|j: int| 0 <= j < start ==> is_white_space(#[trigger] v@[j]),
        decreases n - start,
    {
        start = start + 1;
    }
    proof {
        lemma_first_solid(s@);
        lemma_last_solid_end(s@);
    }
    if start == n {
        assert(is_blank(s@));
        return String::new();
    }
    let mut end: usize = n;
    while end > start && char_is_white_space(v[end - 1])
        invariant
            v@ == s@,
            n == v@.len(),
            start < end <= n || end == start,
            start < n,
            !is_white_space(v@[start as int]),
            forall|j: int| end <= j < n ==> is_white_space(#[trigger] v@[j]),
        decreases end,
    {
        end = end - 1;
    }
    proof {
        assert(!is_blank(s@));
        // first_solid is the first non-whitespace index, which is `start`
        if first_solid(s@) < start {
            assert(is_white_space(v@[first_solid(s@)]));
        }
        if first_solid(s@) > start {
            assert(is_white_space(s@[start as int]));
        }
        if last_solid_end(s@) < end {
            assert(is_white_space(v@[end - 1]));
        }
        if last_solid_end(s@) > end {
            assert(is_white_space(s@[last_solid_end(s@) - 1]));
        }
    }
    let t = s.substring_char(start, end);
    String::from_str(t)
}

/// Position of the first occurrence of `c` in `s`.
pub open spec fn first_index_of(s: Seq<char>, c: char) -> Option<int>
    decreases s.len(),
{
    if s.len() == 0 {
        None
    } else if s[0] == c {
        Some(0)
    } else {
        match first_index_of(s.drop_first(), c) {
            Some(i) => Some(i + 1),
            None => None,
        }
    }
}

pub proof fn lemma_first_index_of(s: Seq<char>, c: char)
    ensures
        first_index_of(s, c) matches Some(i) ==> 0 <= i < s.len() && s[i] == c && forall|j: int|
            0 <= j < i ==> s[j] != c,
        first_index_of(s, c) is None ==> forall|j: int| 0 <= j < s.len() ==> s[j] != c,
    decreases s.len(),
{
    if s.len() > 0 && s[0] != c {
        lemma_first_index_of(s.drop_first(), c);
        assert forall|j: int| 0 < j < s.len() implies s[j] == s.drop_first()[j - 1] by {}
    }
}

/// The character of a decimal digit `d` (0 to 9).
pub open spec fn digit_char(d: int) -> char {
    if d == 0 {
        '0'
    } else if d == 1 {
        '1'
    } else if d == 2 {
        '2'
    } else if d == 3 {
        '3'
    } else if d == 4 {
        '4'
    } else if d == 5 {
        '5'
    } else if d == 6 {
        '6'
    } else if d == 7 {
        '7'
    } else if d == 8 {
        '8'
    } else {
        '9'
    }
}

/// The decimal numeral of `n`, without sign or leading zeros, as `{}` prints it.
pub open spec fn decimal_text(n: nat) -> Seq<char>
    decreases n,
{
    if n < 10 {
        seq![digit_char(n as int)]
    } else {
        decimal_text(n / 10).push(digit_char((n % 10) as int))
    }
}

fn digit_of(d: u128) -> (c: char)
    requires
        d < 10,
    ensures
        c == digit_char(d as int),
{
    if d == 0 {
        '0'
    } else if d == 1 {
        '1'
    } else if d == 2 {
        '2'
    } else if d == 3 {
        '3'
    } else if d == 4 {
        '4'
    } else if d == 5 {
        '5'
    } else if d == 6 {
        '6'
    } else if d == 7 {
        '7'
    } else if d == 8 {
        '8'
    } else {
        '9'
    }
}

/// Appends the decimal numeral of `n` to `s`.
pub fn push_decimal(s: &mut String, n: u128)
    ensures
        final(s)@ == old(s)@ + decimal_text(n as nat),
    decreases n,
{
    if n < 10 {
        push_char(s, digit_of(n));
    } else {
        push_decimal(s, n / 10);
        push_char(s, digit_of(n % 10));
    }
}

/// The decimal numeral of `n`.
pub fn decimal_string(n: u128) -> (s: String)
    ensures
        s@ == decimal_text(n as nat),
{
    let mut s = String::new();
    push_decimal(&mut s, n);
    s
}


/// Trimming removes exactly the surrounding whitespace, as `str::trim`
/// does: the result is a stretch of the text, everything before and after
/// it has the Unicode `White_Space` property (U+0009 tab, U+000A line feed,
/// U+000B, U+000C, U+000D carriage return, U+0020 space, U+0085, U+00A0,
/// U+1680, U+2000 to U+200A, U+2028, U+2029, U+202F, U+205F, U+3000), and a non-empty result
/// begins and ends with a character that has not. A text is blank exactly
/// when all its characters have that property.
pub proof fn law_trim_removes_surrounding_white_space(s: Seq<char>)
    ensures
        ({
            let w = |c: char|
                (c as u32) == 0x09 || (c as u32) == 0x0A || (c as u32) == 0x0B || (c as u32) == 0x0C
                    || (c as u32) == 0x0D || (c as u32) == 0x20 || (c as u32) == 0x85 || (c as u32)
                    == 0xA0 || (c as u32) == 0x1680 || (0x2000 <= (c as u32) && (c as u32) <= 0x200A)
                    || (c as u32) == 0x2028 || (c as u32) == 0x2029 || (c as u32) == 0x202F || (c
                    as u32) == 0x205F || (c as u32) == 0x3000;
            &&& is_blank(s) == (forall|i: int| 0 <= i < s.len() ==> w(#[trigger] s[i]))
            &&& exists|a: int, b: int|
                0 <= a <= b <= s.len() && trimmed(s) == #[trigger] s.subrange(a, b) && (forall|i: int|
                    0 <= i < a ==> w(#[trigger] s[i])) && (forall|i: int|
                    b <= i < s.len() ==> w(#[trigger] s[i])) && (a < b ==> !w(s[a]) && !w(
                    s[b - 1]))
        }),
{
    let w = |c: char|
        (c as u32) == 0x09 || (c as u32) == 0x0A || (c as u32) == 0x0B || (c as u32) == 0x0C || (c
            as u32) == 0x0D || (c as u32) == 0x20 || (c as u32) == 0x85 || (c as u32) == 0xA0 || (c
            as u32) == 0x1680 || (0x2000 <= (c as u32) && (c as u32) <= 0x200A) || (c as u32)
            == 0x2028 || (c as u32) == 0x2029 || (c as u32) == 0x202F || (c as u32) == 0x205F || (c
            as u32) == 0x3000;
    assert forall|c: char| is_white_space(c) == w(c) by {}
    lemma_first_solid(s);
    lemma_last_solid_end(s);
    if is_blank(s) {
        assert(trimmed(s) =~= s.subrange(0, 0));
        assert forall|i: int| 0 <= i < s.len() implies w(#[trigger] s[i]) by {
            assert(is_white_space(s[i]));
        }
    } else {
        let a = first_solid(s);
        let b = last_solid_end(s);
        let j = choose|j: int| 0 <= j < s.len() && !is_white_space(#[trigger] s[j]);
        assert(a <= j) by {
            if a > j {
                assert(is_white_space(s[j]));
            }
        }
        assert(j < b) by {
            if j >= b {
                assert(is_white_space(s[j]));
            }
        }
        assert(trimmed(s) == s.subrange(a, b));
        assert(!w(s[a]) && !w(s[b - 1]));
        assert forall|i: int| 0 <= i < a implies w(#[trigger] s[i]) by {
            assert(is_white_space(s[i]));
        }
        assert forall|i: int| b <= i < s.len() implies w(#[trigger] s[i]) by {
            assert(is_white_space(s[i]));
        }
    }
}

} // verus!
