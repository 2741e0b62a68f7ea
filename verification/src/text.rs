//! Small verified string helpers shared by the document modules.

use vstd::prelude::*;
use vstd::string::StrSliceExecFns;
use vstd::string::StringExecFns;

verus! {

broadcast use vstd::utf8::encode_utf8_decode_utf8;

/// Character-exact equality of two string slices.
pub fn str_eq(a: &str, b: &str) -> (r: bool)
    ensures
        r == (a@ == b@),
{
    let ab = a.as_bytes();
    let bb = b.as_bytes();
    if ab.len() != bb.len() {
        return false;
    }
    let mut i: usize = 0;
    while i < ab.len()
        invariant
            ab@ == vstd::utf8::encode_utf8(a@),
            bb@ == vstd::utf8::encode_utf8(b@),
            ab@.len() == bb@.len(),
            i <= ab@.len(),
            forall|j: int| 0 <= j < i ==> ab@[j] == bb@[j],
        decreases ab@.len() - i,
    {
        if ab[i] != bb[i] {
            return false;
        }
        i = i + 1;
    }
    assert(ab@ =~= bb@);
    assert(vstd::utf8::decode_utf8(ab@) == a@);
    true
}

/// An owned copy of a string slice.
pub fn owned(s: &str) -> (r: String)
    ensures
        r@ == s@,
{
    String::from_str(s)
}

/// `a` followed by `b`, as a new string.
pub fn concat2(a: &str, b: &str) -> (r: String)
    ensures
        r@ == a@ + b@,
{
    let mut s = String::from_str(a);
    s.append(b);
    s
}

/// Copy of characters `from..to` of `s`.
pub fn char_slice(s: &str, from: usize, to: usize) -> (r: String)
    requires
        from <= to <= s@.len(),
    ensures
        r@ == s@.subrange(from as int, to as int),
{
    String::from_str(s.substring_char(from, to))
}


/// Unicode `White_Space` property (what `char::is_whitespace` and
/// `str::trim` use).
pub open spec fn is_unicode_whitespace(c: char) -> bool {
    let u = c as u32;
    (0x09 <= u <= 0x0d) || u == 0x20 || u == 0x85 || u == 0xa0 || u == 0x1680 || (0x2000 <= u
        <= 0x200a) || u == 0x2028 || u == 0x2029 || u == 0x202f || u == 0x205f || u == 0x3000
}

pub fn char_is_whitespace(c: char) -> (r: bool)
    ensures
        r == is_unicode_whitespace(c),
{
    let u = c as u32;
    (0x09 <= u && u <= 0x0d) || u == 0x20 || u == 0x85 || u == 0xa0 || u == 0x1680 || (0x2000 <= u
        && u <= 0x200a) || u == 0x2028 || u == 0x2029 || u == 0x202f || u == 0x205f || u == 0x3000
}

/// Every character of `s` is white space (so `s.trim()` is empty).
pub open spec fn is_blank(s: Seq<char>) -> bool {
    forall|i: int| 0 <= i < s.len() ==> is_unicode_whitespace(#[trigger] s[i])
}

pub fn str_is_blank(s: &str) -> (r: bool)
    ensures
        r == is_blank(s@),
{
    let n = s.unicode_len();
    let mut i: usize = 0;
    while i < n
        invariant
            n == s@.len(),
            i <= n,
            forall|j: int| 0 <= j < i ==> is_unicode_whitespace(#[trigger] s@[j]),
        decreases n - i,
    {
        if !char_is_whitespace(s.get_char(i)) {
            return false;
        }
        i = i + 1;
    }
    true
}

pub open spec fn is_ascii_digit(c: char) -> bool {
    '0' <= c && c <= '9'
}

/// Value of a string of decimal digits.
pub open spec fn digits_value(s: Seq<char>) -> nat
    decreases s.len(),
{
    if s.len() == 0 {
        0
    } else {
        digits_value(s.drop_last()) * 10 + ((s.last() as u32) - 48) as nat
    }
}

pub open spec fn all_digits(d: Seq<char>) -> bool {
    forall|i: int| 0 <= i < d.len() ==> is_ascii_digit(#[trigger] d[i])
}

/// The text after an optional leading `+`.
pub open spec fn unsigned_digits(s: Seq<char>) -> Seq<char> {
    if s.len() > 0 && s[0] == '+' {
        s.drop_first()
    } else {
        s
    }
}

/// What `str::parse::<usize>` gives: an optional `+`, then at least one
/// ASCII digit and nothing else, with a value that fits in `usize`.
pub open spec fn spec_parse_usize(s: Seq<char>) -> Option<usize> {
    let d = unsigned_digits(s);
    if d.len() == 0 || !all_digits(d) {
        None
    } else if digits_value(d) <= usize::MAX {
        Some(digits_value(d) as usize)
    } else {
        None
    }
}

proof fn lemma_digits_value_grows(s: Seq<char>, k: int)
    requires
        0 <= k <= s.len(),
        forall|i: int| 0 <= i < s.len() ==> is_ascii_digit(#[trigger] s[i]),
    ensures
        digits_value(s.take(k)) <= digits_value(s),
    decreases s.len() - k,
{
    if k < s.len() {
        lemma_digits_value_grows(s, k + 1);
        assert(s.take(k + 1).drop_last() =~= s.take(k));
        assert(is_ascii_digit(s[k]));
    } else {
        assert(s.take(k) =~= s);
    }
}

/// Parses the characters of `s` from position `start` on as `str::parse::<usize>` does.
pub fn parse_usize_from(s: &str, start: usize) -> (r: Option<usize>)
    requires
        start <= s@.len(),
    ensures
        r == spec_parse_usize(s@.skip(start as int)),
{
    let n = s.unicode_len();
    let ghost t = s@.skip(start as int);
    let mut i = start;
    if i < n && s.get_char(i) == '+' {
        i = i + 1;
    }
    let ghost d = unsigned_digits(t);
    assert(d =~= s@.skip(i as int));
    if i == n {
        return None;
    }
    // First check that every character is a digit.
    let mut j = i;
    while j < n
        invariant
            n == s@.len(),
            i <= j <= n,
            d =~= s@.skip(i as int),
            t == s@.skip(start as int),
            d == unsigned_digits(t),
            forall|q: int| i <= q < j ==> is_ascii_digit(#[trigger] s@[q]),
        decreases n - j,
    {
        let c = s.get_char(j);
        if !('0' <= c && c <= '9') {
            assert(!is_ascii_digit(d[j - i]));
            return None;
        }
        j = j + 1;
    }
    assert(forall|q: int| 0 <= q < d.len() ==> is_ascii_digit(#[trigger] d[q])) by {
        assert forall|q: int| 0 <= q < d.len() implies is_ascii_digit(#[trigger] d[q]) by {
            assert(d[q] == s@[i + q]);
        }
    }
    let mut v: usize = 0;
    let mut k = i;
    while k < n
        invariant
            n == s@.len(),
            i <= k <= n,
            d =~= s@.skip(i as int),
            t == s@.skip(start as int),
            d == unsigned_digits(t),
            forall|q: int| 0 <= q < d.len() ==> is_ascii_digit(#[trigger] d[q]),
            v as nat == digits_value(d.take(k - i)),
        decreases n - k,
    {
        let c = s.get_char(k);
        assert(c == d[k - i]);
        let digit = (c as u32 - 48) as usize;
        assert(d.take(k - i + 1).drop_last() =~= d.take(k - i));
        if v > (usize::MAX - digit) / 10 {
            proof {
                lemma_digits_value_grows(d, k - i + 1);
                assert(digits_value(d.take(k - i + 1)) == v * 10 + digit) by (nonlinear_arith)
                    requires
                        digits_value(d.take(k - i + 1)) == digits_value(d.take(k - i)) * 10 + digit,
                        v as nat == digits_value(d.take(k - i)),
                ;
                assert(v * 10 + digit > usize::MAX) by (nonlinear_arith)
                    requires
                        v > (usize::MAX - digit) / 10,
                        digit <= 9,
                ;
            }
            return None;
        }
        assert(v * 10 + digit <= usize::MAX) by (nonlinear_arith)
            requires
                v <= (usize::MAX - digit) / 10,
                digit <= 9,
        ;
        v = v * 10 + digit;
        k = k + 1;
    }
    assert(d.take(n - i) =~= d);
    Some(v)
}


/// `String::push`: appends one character.
#[verifier::external_body]
pub(crate) fn string_push(s: &mut String, c: char)
    ensures
        final(s)@ == old(s)@.push(c),
{
    s.push(c)
}

/// The characters of a string slice, in order.
pub fn chars_vec(s: &str) -> (r: Vec<char>)
    ensures
        r@ == s@,
{
    broadcast use vstd::string::group_string_axioms;
    let n = s.unicode_len();
    let mut r: Vec<char> = Vec::new();
    let mut i: usize = 0;
    while i < n
        invariant
            n == s@.len(),
            i <= n,
            r@ == s@.take(i as int),
        decreases n - i,
    {
        let c = s.get_char(i);
        r.push(c);
        assert(s@.take(i + 1) =~= s@.take(i as int).push(c));
        i = i + 1;
    }
    assert(s@.take(n as int) =~= s@);
    r
}

/// Decimal digit character of a value below 10.
pub open spec fn digit_char(d: nat) -> char {
    ((d + 48) as u8) as char
}

/// Decimal text of a natural number (no leading zeros).
pub open spec fn decimal(n: nat) -> Seq<char>
    decreases n,
{
    if n < 10 {
        seq![digit_char(n)]
    } else {
        decimal(n / 10).push(digit_char(n % 10))
    }
}

/// Decimal text of `n`, as `format!("{}", n)` writes it.
pub fn usize_to_decimal(n: usize) -> (r: String)
    ensures
        r@ == decimal(n as nat),
    decreases n,
{
    let d = n % 10;
    let c = ((d as u8) + 48) as char;
    if n < 10 {
        let mut r = String::new();
        string_push(&mut r, c);
        assert(r@ =~= decimal(n as nat));
        r
    } else {
        let mut r = usize_to_decimal(n / 10);
        string_push(&mut r, c);
        r
    }
}

/// Index of the first character of `s` from `from` on that is not white space.
pub open spec fn skip_unicode_ws(s: Seq<char>, from: int) -> int
    decreases s.len() - from,
{
    if 0 <= from < s.len() && is_unicode_whitespace(s[from]) {
        skip_unicode_ws(s, from + 1)
    } else {
        from
    }
}

/// One past the last character of `s` before `to` that is not white space.
pub open spec fn trim_end_index(s: Seq<char>, to: int) -> int
    decreases to,
{
    if 0 < to <= s.len() && is_unicode_whitespace(s[to - 1]) {
        trim_end_index(s, to - 1)
    } else {
        to
    }
}

/// `str::trim`: `s` without leading and trailing white space.
pub open spec fn trimmed(s: Seq<char>) -> Seq<char> {
    let a = skip_unicode_ws(s, 0);
    if a >= s.len() {
        Seq::empty()
    } else {
        s.subrange(a, trim_end_index(s, s.len() as int))
    }
}

proof fn lemma_trim_end_bounds(s: Seq<char>, to: int, a: int)
    requires
        0 <= a < to <= s.len(),
        !is_unicode_whitespace(s[a]),
    ensures
        a < trim_end_index(s, to) <= to,
    decreases to,
{
    if is_unicode_whitespace(s[to - 1]) {
        lemma_trim_end_bounds(s, to - 1, a);
    }
}

proof fn lemma_trim_end_le(s: Seq<char>, to: int)
    requires
        0 <= to <= s.len(),
    ensures
        trim_end_index(s, to) <= to,
    decreases to,
{
    if 0 < to && is_unicode_whitespace(s[to - 1]) {
        lemma_trim_end_le(s, to - 1);
    }
}

/// `str::trim`, as a new string.
pub fn trim_str(s: &str) -> (r: String)
    ensures
        r@ == trimmed(s@),
{
    let n = s.unicode_len();
    let mut a: usize = 0;
    while a < n && char_is_whitespace(s.get_char(a))
        invariant
            n == s@.len(),
            a <= n,
            skip_unicode_ws(s@, 0) == skip_unicode_ws(s@, a as int),
        decreases n - a,
    {
        a = a + 1;
    }
    if a >= n {
        return String::new();
    }
    assert(skip_unicode_ws(s@, a as int) == a);
    let mut b: usize = n;
    proof {
        lemma_trim_end_bounds(s@, n as int, a as int);
    }
    while b > a && char_is_whitespace(s.get_char(b - 1))
        invariant
            n == s@.len(),
            a < n,
            !is_unicode_whitespace(s@[a as int]),
            a <= b <= n,
            trim_end_index(s@, n as int) == trim_end_index(s@, b as int),
        decreases b,
    {
        b = b - 1;
    }
    proof {
        if b == a {
            lemma_trim_end_bounds(s@, n as int, a as int);
            assert(trim_end_index(s@, a as int) <= a) by {
                if a > 0 && is_unicode_whitespace(s@[a - 1]) {
                    lemma_trim_end_le(s@, a - 1);
                }
            }
            assert(false);
        }
        assert(trim_end_index(s@, b as int) == b);
    }
    char_slice(s, a, b)
}

/// `t` occurs in `s` (as `str::contains` with a string pattern).
pub open spec fn has_sub(s: Seq<char>, t: Seq<char>) -> bool {
    exists|i: int| 0 <= i && i + t.len() <= s.len() && #[trigger] s.subrange(i, i + t.len()) == t
}

/// Whether `t` occurs in `s`.
pub fn str_contains(s: &str, t: &str) -> (r: bool)
    ensures
        r == has_sub(s@, t@),
{
    let sv = chars_vec(s);
    let tv = chars_vec(t);
    let n = sv.len();
    let m = tv.len();
    if m > n {
        assert forall|i: int| 0 <= i && i + m <= n implies #[trigger] s@.subrange(i, i + t@.len()) != t@ by {}
        return false;
    }
    let last = n - m;
    let mut i: usize = 0;
    while i <= last
        invariant
            last == n - m,
            sv@ == s@,
            tv@ == t@,
            n == s@.len(),
            m == t@.len(),
            m <= n,
            i <= last + 1,
            forall|k: int| 0 <= k < i ==> #[trigger] s@.subrange(k, k + m) != t@,
        decreases last + 1 - i,
    {
        let mut j: usize = 0;
        while j < m && sv[i + j] == tv[j]
            invariant
                sv@ == s@,
                tv@ == t@,
                n == s@.len(),
                m == t@.len(),
                i + m <= n,
                j <= m,
                forall|x: int| 0 <= x < j ==> s@[i + x] == t@[x],
            decreases m - j,
        {
            j = j + 1;
        }
        if j == m {
            assert(s@.subrange(i as int, i + m) =~= t@);
            return true;
        }
        assert(s@.subrange(i as int, i + m)[j as int] != t@[j as int]);
        i = i + 1;
    }
    false
}

} // verus!
