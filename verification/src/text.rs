//! Character classes and small string operations shared by the team logic.
//!
//! Strings are reasoned about through their `Seq<char>` views. The few
//! standard-library string operations the team code relies on (ASCII classes,
//! Unicode `White_Space`, `trim`) are stated here as spec functions and
//! implemented against those statements.
use vstd::prelude::*;
use vstd::string::StrSliceExecFns;

verus! {

/// ASCII `a..=z`.
pub open spec fn is_ascii_lower(c: char) -> bool {
    'a' <= c && c <= 'z'
}

/// ASCII `0..=9`.
pub open spec fn is_ascii_digit(c: char) -> bool {
    '0' <= c && c <= '9'
}

/// ASCII hexadecimal digit, either case.
pub open spec fn is_ascii_hex(c: char) -> bool {
    is_ascii_digit(c) || ('a' <= c && c <= 'f') || ('A' <= c && c <= 'F')
}

/// ASCII lower-casing restricted to the hexadecimal letters `A..=F`
/// (the only upper-case letters a hexadecimal digit can be).
pub open spec fn hex_to_lower(c: char) -> char {
    if c == 'A' {
        'a'
    } else if c == 'B' {
        'b'
    } else if c == 'C' {
        'c'
    } else if c == 'D' {
        'd'
    } else if c == 'E' {
        'e'
    } else if c == 'F' {
        'f'
    } else {
        c
    }
}

/// The Unicode `White_Space` property, which `char::is_whitespace` and
/// `str::trim` use.
pub open spec fn is_white_space(c: char) -> bool {
    ('\u{9}' <= c && c <= '\u{d}') || c == ' ' || c == '\u{85}' || c == '\u{a0}' || c
        == '\u{1680}' || ('\u{2000}' <= c && c <= '\u{200a}') || c == '\u{2028}' || c
        == '\u{2029}' || c == '\u{202f}' || c == '\u{205f}' || c == '\u{3000}'
}

/// Index of the first character at or after `i` that is not white space
/// (`s.len()` when there is none).
pub open spec fn first_non_space(s: Seq<char>, i: int) -> int
    decreases s.len() - i,
{
    if i >= s.len() {
        s.len() as int
    } else if !is_white_space(s[i]) {
        i
    } else {
        first_non_space(s, i + 1)
    }
}

/// One past the last character before `j` that is not white space
/// (`0` when there is none).
pub open spec fn end_non_space(s: Seq<char>, j: int) -> int
    decreases j,
{
    if j <= 0 {
        0
    } else if !is_white_space(s[j - 1]) {
        j
    } else {
        end_non_space(s, j - 1)
    }
}

/// `str::trim`: the string without leading and trailing white space.
pub open spec fn trim_view(s: Seq<char>) -> Seq<char> {
    let a = first_non_space(s, 0);
    let b = end_non_space(s, s.len() as int);
    if b <= a {
        Seq::empty()
    } else {
        s.subrange(a, b)
    }
}

/// True when the string has no character other than white space.
pub open spec fn is_blank_view(s: Seq<char>) -> bool {
    forall|i: int| 0 <= i < s.len() ==> is_white_space(#[trigger] s[i])
}

pub fn char_is_ascii_lower(c: char) -> (b: bool)
    ensures
        b == is_ascii_lower(c),
{
    'a' <= c && c <= 'z'
}

pub fn char_is_ascii_digit(c: char) -> (b: bool)
    ensures
        b == is_ascii_digit(c),
{
    '0' <= c && c <= '9'
}

pub fn char_is_ascii_hex(c: char) -> (b: bool)
    ensures
        b == is_ascii_hex(c),
{
    ('0' <= c && c <= '9') || ('a' <= c && c <= 'f') || ('A' <= c && c <= 'F')
}

pub fn char_hex_to_lower(c: char) -> (r: char)
    ensures
        r == hex_to_lower(c),
{
    if c == 'A' {
        'a'
    } else if c == 'B' {
        'b'
    } else if c == 'C' {
        'c'
    } else if c == 'D' {
        'd'
    } else if c == 'E' {
        'e'
    } else if c == 'F' {
        'f'
    } else {
        c
    }
}

pub fn char_is_white_space(c: char) -> (b: bool)
    ensures
        b == is_white_space(c),
{
    ('\u{9}' <= c && c <= '\u{d}') || c == ' ' || c == '\u{85}' || c == '\u{a0}' || c
        == '\u{1680}' || ('\u{2000}' <= c && c <= '\u{200a}') || c == '\u{2028}' || c
        == '\u{2029}' || c == '\u{202f}' || c == '\u{205f}' || c == '\u{3000}'
}

/// `String::push`: appends one character to the end of the string.
#[verifier::external_body]
fn push_char(s: &mut String, c: char)
    ensures
        final(s)@ == old(s)@.push(c),
{
    s.push(c);
}

/// The characters of `s`, in order.
pub fn chars_of(s: &str) -> (v: Vec<char>)
    ensures
        v@ == s@,
{
    let n = s.unicode_len();
    let mut v: Vec<char> = Vec::new();
    let mut i: usize = 0;
    while i < n
        invariant
            n == s@.len(),
            i <= n,
            v@ == s@.subrange(0, i as int),
        decreases n - i,
    {
        let c = s.get_char(i);
        v.push(c);
        i = i + 1;
        assert(v@ =~= s@.subrange(0, i as int));
    }
    assert(v@ =~= s@);
    v
}

/// A string holding exactly the characters `v[from..to]`.
pub fn string_from_chars(v: &Vec<char>, from: usize, to: usize) -> (s: String)
    requires
        from <= to <= v.len(),
    ensures
        s@ == v@.subrange(from as int, to as int),
{
    let mut s = String::new();
    let mut i: usize = from;
    while i < to
        invariant
            from <= i <= to,
            to <= v.len(),
            s@ == v@.subrange(from as int, i as int),
        decreases to - i,
    {
        push_char(&mut s, v[i]);
        i = i + 1;
        assert(s@ =~= v@.subrange(from as int, i as int));
    }
    s
}

/// An owned copy of `s`.
pub fn owned(s: &str) -> (r: String)
    ensures
        r@ == s@,
{
    String::from_str(s)
}

/// `a + b` as a new string.
pub fn concat_str(a: &str, b: &str) -> (r: String)
    ensures
        r@ == a@ + b@,
{
    let mut r = String::from_str(a);
    r.append(b);
    r
}

/// Character-wise equality of two string slices.
pub fn str_eq(a: &str, b: &str) -> (r: bool)
    ensures
        r == (a@ == b@),
{
    let x = String::from_str(a);
    let y = String::from_str(b);
    x == y
}

/// `s.trim()`, as a new string.
pub fn trim(s: &str) -> (r: String)
    ensures
        r@ == trim_view(s@),
{
    let v = chars_of(s);
    let n = v.len();
    let mut a: usize = 0;
    while a < n && char_is_white_space(v[a])
        invariant
            n == v@.len(),
            a <= n,
            first_non_space(v@, a as int) == first_non_space(v@, 0),
        decreases n - a,
    {
        a = a + 1;
    }
    let mut b: usize = n;
    while b > 0 && char_is_white_space(v[b - 1])
        invariant
            n == v@.len(),
            b <= n,
            end_non_space(v@, b as int) == end_non_space(v@, n as int),
        decreases b,
    {
        b = b - 1;
    }
    if b <= a {
        String::new()
    } else {
        string_from_chars(&v, a, b)
    }
}

/// True when `s` holds nothing but white space (`s.trim().is_empty()`).
pub fn is_blank(s: &str) -> (r: bool)
    ensures
        r == is_blank_view(s@),
        r == (trim_view(s@).len() == 0),
{
    let v = chars_of(s);
    let n = v.len();
    let mut i: usize = 0;
    while i < n
        invariant
            n == v@.len(),
            i <= n,
            v@ == s@,
            forall|k: int| 0 <= k < i ==> is_white_space(#[trigger] v@[k]),
        decreases n - i,
    {
        if !char_is_white_space(v[i]) {
            proof {
                lemma_trim_nonempty_at(v@, i as int);
            }
            return false;
        }
        i = i + 1;
    }
    proof {
        lemma_trim_of_blank(v@);
    }
    true
}

proof fn lemma_end_non_space_bounds(s: Seq<char>, j: int)
    requires
        0 <= j <= s.len(),
    ensures
        0 <= end_non_space(s, j) <= j,
        end_non_space(s, j) > 0 ==> !is_white_space(s[end_non_space(s, j) - 1]),
        forall|k: int| end_non_space(s, j) <= k < j ==> is_white_space(#[trigger] s[k]),
    decreases j,
{
    if j > 0 && is_white_space(s[j - 1]) {
        lemma_end_non_space_bounds(s, j - 1);
    }
}

proof fn lemma_first_non_space_bounds(s: Seq<char>, i: int)
    requires
        0 <= i <= s.len(),
    ensures
        i <= first_non_space(s, i) <= s.len(),
        first_non_space(s, i) < s.len() ==> !is_white_space(s[first_non_space(s, i)]),
        forall|k: int| i <= k < first_non_space(s, i) ==> is_white_space(#[trigger] s[k]),
    decreases s.len() - i,
{
    if i < s.len() && is_white_space(s[i]) {
        lemma_first_non_space_bounds(s, i + 1);
    }
}

proof fn lemma_trim_nonempty_at(s: Seq<char>, i: int)
    requires
        0 <= i < s.len(),
        !is_white_space(s[i]),
    ensures
        trim_view(s).len() > 0,
{
    lemma_first_non_space_bounds(s, 0);
    lemma_end_non_space_bounds(s, s.len() as int);
    let a = first_non_space(s, 0);
    let b = end_non_space(s, s.len() as int);
    assert(a <= i);
    assert(i < b);
}

proof fn lemma_trim_of_blank(s: Seq<char>)
    requires
        is_blank_view(s),
    ensures
        trim_view(s).len() == 0,
{
    lemma_first_non_space_bounds(s, 0);
    lemma_end_non_space_bounds(s, s.len() as int);
}

/// What `format!("{:?}", items)` prints for a list of strings: the items,
/// each quoted with its characters escaped for debugging, between brackets
/// and separated by `, `.
pub uninterp spec fn debug_list_view(items: Seq<Seq<char>>) -> Seq<char>;

/// `format!("{:?}", items)` (the standard `Debug` rendering of a
/// `Vec<String>`): claimed to be a function of the items alone, named by
/// `debug_list_view`; its characters are not stated.
#[verifier::external_body]
pub(crate) fn debug_list(items: &Vec<String>) -> (s: String)
    ensures
        s@ == debug_list_view(items.deep_view()),
{
    format!("{:?}", items)
}

} // verus!
