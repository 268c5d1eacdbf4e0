//! Character classes and small conversions: case folding, white space,
//! padding, and decimal numerals.

use crate::text::{chars_of, string_of};
use vstd::prelude::*;
use vstd::string::*;

verus! {

/// The lower-case form of an ASCII capital letter; any other character is
/// left as it is.
pub open spec fn lower_char(c: char) -> char {
    if 'A' <= c && c <= 'Z' {
        ((c as u8) + 32) as char
    } else {
        c
    }
}

/// `s` with its ASCII capital letters in lower case.
pub open spec fn lower(s: Seq<char>) -> Seq<char> {
    Seq::new(s.len(), |i: int| lower_char(s[i]))
}

/// `a` and `b` are the same text but for the case of ASCII letters.
pub open spec fn same_ignoring_case(a: Seq<char>, b: Seq<char>) -> bool {
    lower(a) == lower(b)
}

/// Every character of `s` is an ASCII character.
pub open spec fn is_ascii_text(s: Seq<char>) -> bool {
    forall|i: int| 0 <= i < s.len() ==> (#[trigger] s[i]) as u32 <= 0x7F
}

/// The text that `str::to_lowercase` gives for `s`: its lower-case form by
/// the case mappings of Unicode.
pub uninterp spec fn unicode_lower(s: Seq<char>) -> Seq<char>;

/// The lower-case form of a name. ASCII text is folded letter by letter,
/// so that its lower-case form is stated in full; text that holds other
/// characters is folded as Unicode maps it.
pub open spec fn lower_name(s: Seq<char>) -> Seq<char> {
    if is_ascii_text(s) {
        lower(s)
    } else {
        unicode_lower(s)
    }
}

/// `a` and `b` are the same name but for the case of their letters.
pub open spec fn same_name(a: Seq<char>, b: Seq<char>) -> bool {
    lower_name(a) == lower_name(b)
}

/// The characters that count as white space: those with the Unicode
/// property `White_Space`.
pub open spec fn is_space(c: char) -> bool {
    let n = c as u32;
    ||| 0x09 <= n <= 0x0D
    ||| n == 0x20
    ||| n == 0x85
    ||| n == 0xA0
    ||| n == 0x1680
    ||| 0x2000 <= n <= 0x200A
    ||| n == 0x2028
    ||| n == 0x2029
    ||| n == 0x202F
    ||| n == 0x205F
    ||| n == 0x3000
}

/// `s` holds nothing but white space, so that nothing is left of it after
/// trimming.
pub open spec fn is_blank(s: Seq<char>) -> bool {
    forall|i: int| 0 <= i < s.len() ==> is_space(#[trigger] s[i])
}

/// `s` without the NUL characters at its end.
pub open spec fn without_padding(s: Seq<char>) -> Seq<char>
    decreases s.len(),
{
    if s.len() > 0 && s.last() == '\0' {
        without_padding(s.drop_last())
    } else {
        s
    }
}

/// The character for one decimal digit.
pub open spec fn digit(d: nat) -> char
    recommends
        d < 10,
{
    ((48 + d) as u8) as char
}

/// The decimal numeral of `n`, without leading zeros.
pub open spec fn decimal(n: nat) -> Seq<char>
    decreases n,
{
    if n < 10 {
        seq![digit(n)]
    } else {
        decimal(n / 10).push(digit(n % 10))
    }
}

/// The lower-case form of an ASCII capital letter.
pub fn to_lower_char(c: char) -> (out: char)
    ensures
        out == lower_char(c),
{
    if 'A' <= c && c <= 'Z' {
        ((c as u8) + 32) as char
    } else {
        c
    }
}

/// `s` with its ASCII capital letters in lower case.
pub fn to_lower(s: &[char]) -> (out: Vec<char>)
    ensures
        out@ == lower(s@),
{
    let mut out: Vec<char> = Vec::new();
    let mut i: usize = 0;
    while i < s.len()
        invariant
            i <= s.len(),
            out@ == lower(s@).subrange(0, i as int),
        decreases s.len() - i,
    {
        out.push(to_lower_char(s[i]));
        proof {
            assert(out@ =~= lower(s@).subrange(0, i + 1));
        }
        i += 1;
    }
    proof {
        assert(lower(s@).subrange(0, s.len() as int) =~= lower(s@));
    }
    out
}

/// Whether every character of `s` is an ASCII character.
pub fn is_ascii(s: &[char]) -> (out: bool)
    ensures
        out == is_ascii_text(s@),
{
    let mut i: usize = 0;
    while i < s.len()
        invariant
            i <= s.len(),
            forall|j: int| 0 <= j < i ==> (#[trigger] s@[j]) as u32 <= 0x7F,
        decreases s.len() - i,
    {
        let code: u32 = s[i] as u32;
        if code > 0x7F {
            return false;
        }
        i += 1;
    }
    true
}

/// Calls `str::to_lowercase`, which gives the lower-case form of a text by
/// the case mappings of Unicode. That form depends on the text alone; it
/// is named here, not spelled out.
#[verifier::external_body]
fn unicode_lowercase(s: &str) -> (out: String)
    ensures
        out@ == unicode_lower(s@),
{
    s.to_lowercase()
}

/// The lower-case form of a name.
pub fn to_lower_name(s: &[char]) -> (out: Vec<char>)
    ensures
        out@ == lower_name(s@),
{
    if is_ascii(s) {
        to_lower(s)
    } else {
        let text = string_of(s);
        let folded = unicode_lowercase(text.as_str());
        chars_of(folded.as_str())
    }
}

/// Whether `a` and `b` are the same text but for the case of ASCII letters.
pub fn eq_ignoring_case(a: &[char], b: &[char]) -> (same: bool)
    ensures
        same == same_ignoring_case(a@, b@),
{
    if a.len() != b.len() {
        proof {
            assert(lower(a@).len() != lower(b@).len());
        }
        return false;
    }
    let mut i: usize = 0;
    while i < a.len()
        invariant
            i <= a.len(),
            a.len() == b.len(),
            forall|j: int| 0 <= j < i ==> lower_char(a@[j]) == lower_char(b@[j]),
        decreases a.len() - i,
    {
        if to_lower_char(a[i]) != to_lower_char(b[i]) {
            proof {
                assert(lower(a@)[i as int] != lower(b@)[i as int]);
            }
            return false;
        }
        i += 1;
    }
    proof {
        assert(lower(a@) =~= lower(b@));
    }
    true
}

/// Whether `c` is white space.
pub fn char_is_space(c: char) -> (out: bool)
    ensures
        out == is_space(c),
{
    let n: u32 = c as u32;
    (0x09 <= n && n <= 0x0D) || n == 0x20 || n == 0x85 || n == 0xA0 || n == 0x1680 || (0x2000 <= n
        && n <= 0x200A) || n == 0x2028 || n == 0x2029 || n == 0x202F || n == 0x205F || n == 0x3000
}

/// Whether `s` holds nothing but white space.
pub fn blank(s: &[char]) -> (out: bool)
    ensures
        out == is_blank(s@),
{
    let mut i: usize = 0;
    while i < s.len()
        invariant
            i <= s.len(),
            forall|j: int| 0 <= j < i ==> is_space(#[trigger] s@[j]),
        decreases s.len() - i,
    {
        if !char_is_space(s[i]) {
            return false;
        }
        i += 1;
    }
    true
}

/// How many characters of `s` are left once the NUL characters at its end
/// are taken away.
pub fn unpadded_len(s: &[char]) -> (n: usize)
    ensures
        n <= s.len(),
        s@.subrange(0, n as int) == without_padding(s@),
{
    let mut n: usize = s.len();
    proof {
        assert(s@.subrange(0, n as int) =~= s@);
    }
    while n > 0 && s[n - 1] == '\0'
        invariant
            n <= s.len(),
            without_padding(s@.subrange(0, n as int)) == without_padding(s@),
        decreases n,
    {
        proof {
            assert(s@.subrange(0, n as int).drop_last() =~= s@.subrange(0, n - 1));
        }
        n -= 1;
    }
    n
}

/// The decimal numeral of `n`.
pub fn to_decimal(n: usize) -> (out: Vec<char>)
    ensures
        out@ == decimal(n as nat),
    decreases n,
{
    if n < 10 {
        let d: u8 = 48 + (n as u8);
        vec![d as char]
    } else {
        let mut out = to_decimal(n / 10);
        let d: u8 = 48 + ((n % 10) as u8);
        out.push(d as char);
        out
    }
}

} // verus!
