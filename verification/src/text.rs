//! Small text helpers: decimal digits, string comparison and ASCII case.

use vstd::prelude::*;

verus! {

/// The ASCII character of decimal digit `d`.
pub open spec fn digit_char(d: int) -> char {
    (48 + d) as char
}

/// Decimal digits of `n`, most significant first, without leading zeros.
pub open spec fn decimal_digits(n: nat) -> Seq<char>
    decreases n,
{
    if n < 10 {
        seq![digit_char(n as int)]
    } else {
        decimal_digits(n / 10).push(digit_char((n % 10) as int))
    }
}

/// Decimal text of `v`, with a leading `-` when negative.
pub open spec fn decimal_text(v: int) -> Seq<char> {
    if v < 0 {
        seq!['-'] + decimal_digits((-v) as nat)
    } else {
        decimal_digits(v as nat)
    }
}

/// The one-character string of decimal digit `d`.
pub fn digit_str(d: u32) -> (r: &'static str)
    requires
        d < 10,
    ensures
        r@ == seq![digit_char(d as int)],
{
    proof {
        reveal_strlit("0");
        reveal_strlit("1");
        reveal_strlit("2");
        reveal_strlit("3");
        reveal_strlit("4");
        reveal_strlit("5");
        reveal_strlit("6");
        reveal_strlit("7");
        reveal_strlit("8");
        reveal_strlit("9");
    }
    let r = if d == 0 {
        "0"
    } else if d == 1 {
        "1"
    } else if d == 2 {
        "2"
    } else if d == 3 {
        "3"
    } else if d == 4 {
        "4"
    } else if d == 5 {
        "5"
    } else if d == 6 {
        "6"
    } else if d == 7 {
        "7"
    } else if d == 8 {
        "8"
    } else {
        "9"
    };
    assert(r@ =~= seq![digit_char(d as int)]);
    r
}

fn push_digits(s: &mut String, n: u64)
    ensures
        final(s)@ == old(s)@ + decimal_digits(n as nat),
    decreases n,
{
    if n >= 10 {
        push_digits(s, n / 10);
    }
    s.append(digit_str((n % 10) as u32));
    proof {
        if n >= 10 {
            assert(final(s)@ =~= old(s)@ + decimal_digits(n as nat));
        } else {
            assert(final(s)@ =~= old(s)@ + decimal_digits(n as nat));
        }
    }
}

/// Appends the decimal text of `v`.
pub fn push_decimal(s: &mut String, v: i32)
    ensures
        final(s)@ == old(s)@ + decimal_text(v as int),
{
    if v < 0 {
        proof {
            reveal_strlit("-");
        }
        s.append("-");
        let n: u64 = (-(v as i64)) as u64;
        push_digits(s, n);
        assert(final(s)@ =~= old(s)@ + decimal_text(v as int));
    } else {
        push_digits(s, v as u64);
    }
}

/// Appends the decimal text of an unsigned `v`.
pub fn push_decimal_u32(s: &mut String, v: u32)
    ensures
        final(s)@ == old(s)@ + decimal_text(v as int),
{
    push_digits(s, v as u64);
}

/// Appends the decimal text of an unsigned 64-bit `v`.
pub fn push_decimal_u64(s: &mut String, v: u64)
    ensures
        final(s)@ == old(s)@ + decimal_text(v as int),
{
    push_digits(s, v);
}

/// Whether two strings hold the same characters.
pub fn str_eq(a: &str, b: &str) -> (r: bool)
    ensures
        r == (a@ == b@),
{
    let n = a.unicode_len();
    if n != b.unicode_len() {
        return false;
    }
    let mut i: usize = 0;
    while i < n
        invariant
            0 <= i <= n,
            n == a@.len(),
            n == b@.len(),
            forall|j: int| 0 <= j < i ==> a@[j] == b@[j],
        decreases n - i,
    {
        if a.get_char(i) != b.get_char(i) {
            return false;
        }
        i = i + 1;
    }
    assert(a@ =~= b@);
    true
}

/// Whether `s` starts with the characters of `prefix`.
pub open spec fn has_prefix(s: Seq<char>, prefix: Seq<char>) -> bool {
    prefix.len() <= s.len() && s.subrange(0, prefix.len() as int) == prefix
}

/// Whether `s` starts with `prefix`.
pub fn starts_with(s: &str, prefix: &str) -> (r: bool)
    ensures
        r == has_prefix(s@, prefix@),
{
    let n = prefix.unicode_len();
    if n > s.unicode_len() {
        return false;
    }
    let mut i: usize = 0;
    while i < n
        invariant
            0 <= i <= n,
            n == prefix@.len(),
            n <= s@.len(),
            forall|j: int| 0 <= j < i ==> s@[j] == prefix@[j],
        decreases n - i,
    {
        if s.get_char(i) != prefix.get_char(i) {
            assert(s@.subrange(0, n as int)[i as int] != prefix@[i as int]);
            return false;
        }
        i = i + 1;
    }
    assert(s@.subrange(0, n as int) =~= prefix@);
    true
}

/// ASCII lower case of a character (other characters unchanged).
pub open spec fn ascii_lower(c: char) -> char {
    if 'A' <= c && c <= 'Z' {
        ((c as int) + 32) as char
    } else {
        c
    }
}

/// ASCII lower case of every character of `s`.
pub open spec fn ascii_lower_seq(s: Seq<char>) -> Seq<char> {
    Seq::new(s.len(), |i: int| ascii_lower(s[i]))
}

fn ascii_lower_char(c: char) -> (r: char)
    ensures
        r == ascii_lower(c),
{
    if 'A' <= c && c <= 'Z' {
        let u = (c as u32 + 32) as u8;
        u as char
    } else {
        c
    }
}

/// Whether the ASCII lower case of `s` is exactly `lit`.
pub fn eq_ascii_lowercase(s: &str, lit: &str) -> (r: bool)
    ensures
        r == (ascii_lower_seq(s@) == lit@),
{
    let n = s.unicode_len();
    if n != lit.unicode_len() {
        assert(ascii_lower_seq(s@).len() != lit@.len());
        return false;
    }
    let mut i: usize = 0;
    while i < n
        invariant
            0 <= i <= n,
            n == s@.len(),
            n == lit@.len(),
            forall|j: int| 0 <= j < i ==> ascii_lower(s@[j]) == lit@[j],
        decreases n - i,
    {
        if ascii_lower_char(s.get_char(i)) != lit.get_char(i) {
            assert(ascii_lower_seq(s@)[i as int] != lit@[i as int]);
            return false;
        }
        i = i + 1;
    }
    assert(ascii_lower_seq(s@) =~= lit@);
    true
}

/// The lower case of a string as `str::to_lowercase` computes it (Unicode
/// case mapping).
pub uninterp spec fn lowercase_of(s: Seq<char>) -> Seq<char>;

/// Calls `str::to_lowercase`.  The contract only names the result: it is a
/// function of the characters.
#[verifier::external_body]
pub(crate) fn to_lowercase(s: &str) -> (r: String)
    ensures
        r@ == lowercase_of(s@),
{
    s.to_lowercase()
}

/// Whether `char::is_alphanumeric` holds of a character (Unicode
/// alphabetic or numeric).
pub uninterp spec fn is_alphanumeric_of(c: char) -> bool;

/// Calls `char::is_alphanumeric`.  The contract only names the result: it
/// is a function of the character.
#[verifier::external_body]
pub(crate) fn is_alphanumeric(c: char) -> (r: bool)
    ensures
        r == is_alphanumeric_of(c),
{
    c.is_alphanumeric()
}

/// Calls `String::push`, which appends one character.
#[verifier::external_body]
pub(crate) fn push_char(s: &mut String, c: char)
    ensures
        final(s)@ == old(s)@.push(c),
{
    s.push(c)
}

/// ASCII lower case of a string.
pub fn ascii_lowercase(s: &str) -> (r: String)
    ensures
        r@ == ascii_lower_seq(s@),
{
    let n = s.unicode_len();
    let mut out = String::new();
    let mut i: usize = 0;
    while i < n
        invariant
            0 <= i <= n,
            n == s@.len(),
            out@ == ascii_lower_seq(s@.subrange(0, i as int)),
        decreases n - i,
    {
        let c = ascii_lower_char(s.get_char(i));
        push_char(&mut out, c);
        assert(out@ =~= ascii_lower_seq(s@.subrange(0, (i + 1) as int)));
        i = i + 1;
    }
    assert(s@.subrange(0, n as int) =~= s@);
    out
}

/// Whether `c` has the Unicode `White_Space` property, which is what
/// `char::is_whitespace` tests.
pub open spec fn is_white_space(c: char) -> bool {
    let u = c as u32;
    (0x09 <= u <= 0x0D) || u == 0x20 || u == 0x85 || u == 0xA0 || u == 0x1680 || (0x2000 <= u <= 0x200A)
        || u == 0x2028 || u == 0x2029 || u == 0x202F || u == 0x205F || u == 0x3000
}

fn white_space(c: char) -> (r: bool)
    ensures
        r == is_white_space(c),
{
    let u = c as u32;
    (0x09 <= u && u <= 0x0D) || u == 0x20 || u == 0x85 || u == 0xA0 || u == 0x1680 || (0x2000 <= u && u
        <= 0x200A) || u == 0x2028 || u == 0x2029 || u == 0x202F || u == 0x205F || u == 0x3000
}

/// Position of the first non-white-space character at or after `i`
/// (`s.len()` when there is none).
pub open spec fn first_non_ws(s: Seq<char>, i: int) -> int
    decreases s.len() - i,
{
    if i >= s.len() {
        s.len() as int
    } else if !is_white_space(s[i]) {
        i
    } else {
        first_non_ws(s, i + 1)
    }
}

/// One past the last non-white-space character before `j` (0 when there
/// is none).
pub open spec fn end_non_ws(s: Seq<char>, j: int) -> int
    decreases j,
{
    if j <= 0 {
        0
    } else if !is_white_space(s[j - 1]) {
        j
    } else {
        end_non_ws(s, j - 1)
    }
}

/// A string without its leading and trailing white space, as `str::trim`
/// computes it.
pub open spec fn trim_spec(s: Seq<char>) -> Seq<char> {
    let a = first_non_ws(s, 0);
    let b = end_non_ws(s, s.len() as int);
    if a < b {
        s.subrange(a, b)
    } else {
        Seq::empty()
    }
}

/// `s` without leading and trailing white space.
pub fn trim(s: &str) -> (r: &str)
    ensures
        r@ == trim_spec(s@),
{
    let n = s.unicode_len();
    let mut a: usize = 0;
    while a < n && white_space(s.get_char(a))
        invariant
            0 <= a <= n,
            n == s@.len(),
            first_non_ws(s@, 0) == first_non_ws(s@, a as int),
            forall|k: int| 0 <= k < a ==> is_white_space(#[trigger] s@[k]),
        decreases n - a,
    {
        a = a + 1;
    }
    let mut b: usize = n;
    while b > a && white_space(s.get_char(b - 1))
        invariant
            a <= b <= n,
            n == s@.len(),
            end_non_ws(s@, n as int) == end_non_ws(s@, b as int),
            first_non_ws(s@, 0) == first_non_ws(s@, a as int),
            forall|k: int| 0 <= k < a ==> is_white_space(#[trigger] s@[k]),
            a == n || !is_white_space(s@[a as int]),
        decreases b,
    {
        b = b - 1;
    }
    proof {
        if a < n {
            assert(first_non_ws(s@, a as int) == a);
        }
        if b > a {
            assert(end_non_ws(s@, b as int) == b);
        } else {
            lemma_end_non_ws_bound(s@, b as int, a as int);
        }
    }
    s.substring_char(a, b)
}

/// Below the first non-white-space character, `end_non_ws` gives nothing
/// past it.
proof fn lemma_end_non_ws_bound(s: Seq<char>, j: int, a: int)
    requires
        0 <= j <= a,
        a <= s.len(),
        first_non_ws(s, 0) == first_non_ws(s, a),
        forall|k: int| 0 <= k < a ==> is_white_space(#[trigger] s[k]),
    ensures
        end_non_ws(s, j) == 0,
    decreases j,
{
    if j > 0 {
        lemma_end_non_ws_bound(s, j - 1, a);
    }
}

} // verus!
