//! Character-level text model: every string is viewed as its `Seq<char>`.
//! This module holds the specifications of trimming, ASCII case folding,
//! decimal numerals and searching, and their executable counterparts.
use vstd::prelude::*;
use vstd::string::StringExecFns;

verus! {

// ---------------------------------------------------------------------------
// Character classes
// ---------------------------------------------------------------------------

pub open spec fn is_ascii_upper(c: char) -> bool {
    65 <= (c as u32) && (c as u32) <= 90
}

pub open spec fn is_ascii_lower(c: char) -> bool {
    97 <= (c as u32) && (c as u32) <= 122
}

pub open spec fn is_ascii_alpha(c: char) -> bool {
    is_ascii_upper(c) || is_ascii_lower(c)
}

pub open spec fn is_ascii_digit(c: char) -> bool {
    48 <= (c as u32) && (c as u32) <= 57
}

/// Unicode `White_Space`, the set that `char::is_whitespace` and `str::trim` use.
pub open spec fn is_white_space(c: char) -> bool {
    let u = c as u32;
    (9 <= u && u <= 13) || u == 32 || u == 0x85 || u == 0xA0 || u == 0x1680 || (0x2000 <= u
        && u <= 0x200A) || u == 0x2028 || u == 0x2029 || u == 0x202F || u == 0x205F || u
        == 0x3000
}

pub open spec fn ascii_upper(c: char) -> char {
    if is_ascii_lower(c) {
        ((c as u32) - 32) as char
    } else {
        c
    }
}

pub open spec fn ascii_lower(c: char) -> char {
    if is_ascii_upper(c) {
        ((c as u32) + 32) as char
    } else {
        c
    }
}

pub open spec fn ascii_lower_seq(s: Seq<char>) -> Seq<char> {
    Seq::new(s.len(), |i: int| ascii_lower(s[i]))
}

pub open spec fn ascii_upper_seq(s: Seq<char>) -> Seq<char> {
    Seq::new(s.len(), |i: int| ascii_upper(s[i]))
}

pub fn char_is_ascii_alpha(c: char) -> (r: bool)
    ensures
        r == is_ascii_alpha(c),
{
    let u = c as u32;
    (65 <= u && u <= 90) || (97 <= u && u <= 122)
}

pub fn char_is_ascii_digit(c: char) -> (r: bool)
    ensures
        r == is_ascii_digit(c),
{
    let u = c as u32;
    48 <= u && u <= 57
}

pub fn char_is_white_space(c: char) -> (r: bool)
    ensures
        r == is_white_space(c),
{
    let u = c as u32;
    (9 <= u && u <= 13) || u == 32 || u == 0x85 || u == 0xA0 || u == 0x1680 || (0x2000 <= u
        && u <= 0x200A) || u == 0x2028 || u == 0x2029 || u == 0x202F || u == 0x205F || u
        == 0x3000
}

pub fn char_to_ascii_upper(c: char) -> (r: char)
    ensures
        r == ascii_upper(c),
{
    let u = c as u32;
    if 97 <= u && u <= 122 {
        let b: u8 = (u - 32) as u8;
        let r = b as char;
        r
    } else {
        c
    }
}

pub fn char_to_ascii_lower(c: char) -> (r: char)
    ensures
        r == ascii_lower(c),
{
    let u = c as u32;
    if 65 <= u && u <= 90 {
        let b: u8 = (u + 32) as u8;
        let r = b as char;
        r
    } else {
        c
    }
}

// ---------------------------------------------------------------------------
// Conversions between strings and character vectors
// ---------------------------------------------------------------------------

/// The characters of a string slice, in order.
pub fn str_chars(s: &str) -> (v: Vec<char>)
    ensures
        v@ == s@,
{
    broadcast use vstd::string::axiom_spec_iter;
    let mut v: Vec<char> = Vec::new();
    for c in it: s.chars()
        invariant
            v@ == it.seq().subrange(0, it.index() as int),
            it.seq() == s@,
    {
        v.push(c);
    }
    v
}

/// A string made of the given characters, in order (`FromIterator<&char>` for `String`).
#[verifier::external_body]
pub(crate) fn string_from_chars(v: &[char]) -> (s: String)
    ensures
        s@ == v@,
{
    v.iter().collect()
}

/// Equality of two string slices.
pub fn str_eq(a: &str, b: &str) -> (r: bool)
    ensures
        r == (a@ == b@),
{
    let va = str_chars(a);
    let vb = str_chars(b);
    vec_eq(&va, &vb)
}

/// The text that `{:?}` writes for a string: std's `Debug` for `str`.
pub uninterp spec fn str_debug_text(s: Seq<char>) -> Seq<char>;

/// A character that `Debug` for `str` writes as it is: printable ASCII other
/// than the double quote and the backslash.
pub open spec fn debug_plain_char(c: char) -> bool {
    0x20 <= (c as u32) <= 0x7e && c != '"' && c != '\\'
}

/// `format!("{s:?}")`. std's `Debug` for `str` writes the text between double
/// quotes, escaping each character as `char::escape_debug` does; printable
/// ASCII other than `"` and `\` is written unchanged. Stated: the result is the
/// name applied to `s`, and for a text made only of such characters it is the
/// text between two double quotes. How other characters are escaped is left
/// to the name.
#[verifier::external_body]
pub(crate) fn debug_quoted(s: &str) -> (r: String)
    ensures
        r@ == str_debug_text(s@),
        (forall|i: int| 0 <= i < s@.len() ==> debug_plain_char(#[trigger] s@[i])) ==> r@ == seq!['"']
            + s@ + seq!['"'],
{
    format!("{s:?}")
}

/// The text that `{:?}` writes for a character: std's `Debug` for `char`.
pub uninterp spec fn char_debug_text(c: char) -> Seq<char>;

/// `format!("{c:?}")`. std's `Debug` for `char` writes the character between
/// single quotes, escaped as `char::escape_debug` does; printable ASCII other
/// than `'` and `\` is written unchanged. Stated: the result is the name
/// applied to `c`, and for such a character it is the character between two
/// single quotes. How other characters are escaped is left to the name.
#[verifier::external_body]
pub(crate) fn debug_quoted_char(c: char) -> (r: String)
    ensures
        r@ == char_debug_text(c),
        0x20 <= (c as u32) <= 0x7e && c != '\'' && c != '\\' ==> r@ == seq!['\'', c, '\''],
{
    format!("{c:?}")
}

pub fn to_string(s: &str) -> (r: String)
    ensures
        r@ == s@,
{
    String::from_str(s)
}

pub fn concat2(a: &str, b: &str) -> (r: String)
    ensures
        r@ == a@ + b@,
{
    let mut r = String::from_str(a);
    r.append(b);
    r
}

pub fn concat3(a: &str, b: &str, c: &str) -> (r: String)
    ensures
        r@ == a@ + b@ + c@,
{
    let mut r = String::from_str(a);
    r.append(b);
    r.append(c);
    r
}

pub fn concat4(a: &str, b: &str, c: &str, d: &str) -> (r: String)
    ensures
        r@ == a@ + b@ + c@ + d@,
{
    let mut r = String::from_str(a);
    r.append(b);
    r.append(c);
    r.append(d);
    r
}

pub fn concat5(a: &str, b: &str, c: &str, d: &str, e: &str) -> (r: String)
    ensures
        r@ == a@ + b@ + c@ + d@ + e@,
{
    let mut r = String::from_str(a);
    r.append(b);
    r.append(c);
    r.append(d);
    r.append(e);
    r
}

// ---------------------------------------------------------------------------
// Trimming
// ---------------------------------------------------------------------------

/// Index of the first non-white-space character at or after `i` (or `s.len()`).
pub open spec fn first_non_ws_from(s: Seq<char>, i: int) -> int
    decreases s.len() - i,
{
    if i < 0 || i >= s.len() {
        s.len() as int
    } else if !is_white_space(s[i]) {
        i
    } else {
        first_non_ws_from(s, i + 1)
    }
}

/// One past the last non-white-space character before `j`, but not below `lo`.
pub open spec fn last_non_ws_before(s: Seq<char>, j: int, lo: int) -> int
    decreases j - lo,
{
    if j <= lo || j > s.len() {
        lo
    } else if !is_white_space(s[j - 1]) {
        j
    } else {
        last_non_ws_before(s, j - 1, lo)
    }
}

pub open spec fn trim_start_index(s: Seq<char>) -> int {
    first_non_ws_from(s, 0)
}

pub open spec fn trim_end_index(s: Seq<char>) -> int {
    last_non_ws_before(s, s.len() as int, trim_start_index(s))
}

/// `str::trim`: white space removed from both ends.
pub open spec fn trim(s: Seq<char>) -> Seq<char> {
    s.subrange(trim_start_index(s), trim_end_index(s))
}

/// The text without its trailing white space.
pub open spec fn trim_end(s: Seq<char>) -> Seq<char> {
    s.subrange(0, last_non_ws_before(s, s.len() as int, 0))
}

pub proof fn lemma_first_non_ws_bounds(s: Seq<char>, i: int)
    requires
        0 <= i <= s.len(),
    ensures
        i <= first_non_ws_from(s, i) <= s.len(),
        forall|k: int| i <= k < first_non_ws_from(s, i) ==> is_white_space(#[trigger] s[k]),
        first_non_ws_from(s, i) < s.len() ==> !is_white_space(s[first_non_ws_from(s, i)]),
    decreases s.len() - i,
{
    if i < s.len() && is_white_space(s[i]) {
        lemma_first_non_ws_bounds(s, i + 1);
    }
}

pub proof fn lemma_last_non_ws_bounds(s: Seq<char>, j: int, lo: int)
    requires
        0 <= lo <= j <= s.len(),
    ensures
        lo <= last_non_ws_before(s, j, lo) <= j,
        forall|k: int| last_non_ws_before(s, j, lo) <= k < j ==> is_white_space(#[trigger] s[k]),
        last_non_ws_before(s, j, lo) > lo ==> !is_white_space(
            s[last_non_ws_before(s, j, lo) - 1],
        ),
    decreases j - lo,
{
    if j > lo && is_white_space(s[j - 1]) {
        lemma_last_non_ws_bounds(s, j - 1, lo);
    }
}

pub proof fn lemma_trim_bounds(s: Seq<char>)
    ensures
        0 <= trim_start_index(s) <= trim_end_index(s) <= s.len(),
{
    lemma_first_non_ws_bounds(s, 0);
    lemma_last_non_ws_bounds(s, s.len() as int, trim_start_index(s));
}

/// Bounds of the trimmed part of `v`, as `(start, end)` indices.
pub fn trim_bounds(v: &Vec<char>) -> (r: (usize, usize))
    ensures
        r.0 == trim_start_index(v@),
        r.1 == trim_end_index(v@),
        r.0 <= r.1 <= v.len(),
{
    let n = v.len();
    let mut i: usize = 0;
    while i < n && char_is_white_space(v[i])
        invariant
            n == v.len(),
            0 <= i <= n,
            first_non_ws_from(v@, i as int) == first_non_ws_from(v@, 0),
        decreases n - i,
    {
        i = i + 1;
    }
    let mut j: usize = n;
    while j > i && char_is_white_space(v[j - 1])
        invariant
            n == v.len(),
            i <= j <= n,
            i == trim_start_index(v@),
            last_non_ws_before(v@, j as int, i as int) == last_non_ws_before(v@, n as int, i as int),
        decreases j - i,
    {
        j = j - 1;
    }
    proof {
        lemma_trim_bounds(v@);
    }
    (i, j)
}

/// The length of `v` without its trailing white space (`str::trim_end`).
pub fn trim_end_len(v: &Vec<char>) -> (r: usize)
    ensures
        r == last_non_ws_before(v@, v@.len() as int, 0),
        r <= v.len(),
{
    let n = v.len();
    let mut j: usize = n;
    while j > 0 && char_is_white_space(v[j - 1])
        invariant
            n == v.len(),
            j <= n,
            last_non_ws_before(v@, j as int, 0) == last_non_ws_before(v@, n as int, 0),
        decreases j,
    {
        j = j - 1;
    }
    j
}

/// Appends every character of `p` to `out`.
pub fn push_all(out: &mut Vec<char>, p: &Vec<char>)
    ensures
        final(out)@ == old(out)@ + p@,
{
    let mut i: usize = 0;
    while i < p.len()
        invariant
            0 <= i <= p.len(),
            out@ == old(out)@ + p@.subrange(0, i as int),
        decreases p.len() - i,
    {
        out.push(p[i]);
        i = i + 1;
    }
    proof {
        assert(p@.subrange(0, p@.len() as int) =~= p@);
    }
}

/// The characters of `s` with white space removed from both ends.
pub fn trim_chars(s: &str) -> (r: Vec<char>)
    ensures
        r@ == trim(s@),
{
    let v = str_chars(s);
    let (a, b) = trim_bounds(&v);
    slice_vec(&v, a, b)
}

/// `str::trim` as an owned string.
pub fn trim_string(s: &str) -> (r: String)
    ensures
        r@ == trim(s@),
{
    let v = trim_chars(s);
    string_from_chars(v.as_slice())
}

pub fn slice_vec(v: &Vec<char>, a: usize, b: usize) -> (r: Vec<char>)
    requires
        a <= b <= v.len(),
    ensures
        r@ == v@.subrange(a as int, b as int),
{
    let mut r: Vec<char> = Vec::new();
    let mut i = a;
    while i < b
        invariant
            a <= i <= b <= v.len(),
            r@ == v@.subrange(a as int, i as int),
        decreases b - i,
    {
        r.push(v[i]);
        i = i + 1;
    }
    r
}

// ---------------------------------------------------------------------------
// Searching
// ---------------------------------------------------------------------------

/// Index of the first `c` at or after `i`, or -1.
pub open spec fn find_from(s: Seq<char>, c: char, i: int) -> int
    decreases s.len() - i,
{
    if i < 0 || i >= s.len() {
        -1
    } else if s[i] == c {
        i
    } else {
        find_from(s, c, i + 1)
    }
}

pub open spec fn contains_char(s: Seq<char>, c: char) -> bool {
    exists|i: int| 0 <= i < s.len() && s[i] == c
}

pub proof fn lemma_find_from(s: Seq<char>, c: char, i: int)
    requires
        0 <= i <= s.len(),
    ensures
        find_from(s, c, i) == -1 || (i <= find_from(s, c, i) < s.len() && s[find_from(s, c, i)]
            == c),
        forall|k: int|
            i <= k < s.len() && (find_from(s, c, i) == -1 || k < find_from(s, c, i)) ==> s[k]
                != c,
    decreases s.len() - i,
{
    if i < s.len() && s[i] != c {
        lemma_find_from(s, c, i + 1);
    }
}

pub proof fn lemma_find_contains(s: Seq<char>, c: char)
    ensures
        (find_from(s, c, 0) == -1) == !contains_char(s, c),
{
    lemma_find_from(s, c, 0);
    if find_from(s, c, 0) != -1 {
        assert(s[find_from(s, c, 0)] == c);
    }
}

/// Position of the first `c` in `v` at or after `from`.
pub fn vec_find_char(v: &Vec<char>, c: char, from: usize) -> (r: Option<usize>)
    requires
        from <= v.len(),
    ensures
        r is Some ==> r.unwrap() as int == find_from(v@, c, from as int),
        r is None ==> find_from(v@, c, from as int) == -1,
{
    let mut i = from;
    while i < v.len()
        invariant
            from <= i <= v.len(),
            find_from(v@, c, i as int) == find_from(v@, c, from as int),
        decreases v.len() - i,
    {
        if v[i] == c {
            return Some(i);
        }
        i = i + 1;
    }
    None
}

/// Whether `c` occurs in `v`.
pub fn vec_contains_char(v: &Vec<char>, c: char) -> (r: bool)
    ensures
        r == contains_char(v@, c),
{
    proof {
        lemma_find_contains(v@, c);
    }
    vec_find_char(v, c, 0).is_some()
}

/// Whether the characters `v` equal the string `s`.
pub fn vec_eq_str(v: &Vec<char>, s: &str) -> (r: bool)
    ensures
        r == (v@ == s@),
{
    let w = str_chars(s);
    vec_eq(v, &w)
}

pub fn vec_eq(a: &Vec<char>, b: &Vec<char>) -> (r: bool)
    ensures
        r == (a@ == b@),
{
    if a.len() != b.len() {
        return false;
    }
    let mut i: usize = 0;
    while i < a.len()
        invariant
            a.len() == b.len(),
            0 <= i <= a.len(),
            forall|k: int| 0 <= k < i ==> a@[k] == b@[k],
        decreases a.len() - i,
    {
        if a[i] != b[i] {
            return false;
        }
        i = i + 1;
    }
    assert(a@ =~= b@);
    true
}

/// Whether `v` starts with the characters of `p`.
pub fn vec_starts_with(v: &Vec<char>, p: &Vec<char>) -> (r: bool)
    ensures
        r == (p@.len() <= v@.len() && v@.subrange(0, p@.len() as int) == p@),
{
    if p.len() > v.len() {
        return false;
    }
    let mut i: usize = 0;
    while i < p.len()
        invariant
            p.len() <= v.len(),
            0 <= i <= p.len(),
            forall|k: int| 0 <= k < i ==> v@[k] == p@[k],
        decreases p.len() - i,
    {
        if v[i] != p[i] {
            assert(v@.subrange(0, p@.len() as int)[i as int] != p@[i as int]);
            return false;
        }
        i = i + 1;
    }
    assert(v@.subrange(0, p@.len() as int) =~= p@);
    true
}

/// Whether `v` ends with the characters of `p`.
pub fn vec_ends_with(v: &Vec<char>, p: &Vec<char>) -> (r: bool)
    ensures
        r == (p@.len() <= v@.len() && v@.subrange(v@.len() - p@.len(), v@.len() as int) == p@),
{
    if p.len() > v.len() {
        return false;
    }
    let off = v.len() - p.len();
    let mut i: usize = 0;
    while i < p.len()
        invariant
            p.len() <= v.len(),
            off == v.len() - p.len(),
            0 <= i <= p.len(),
            forall|k: int| 0 <= k < i ==> v@[off + k] == p@[k],
        decreases p.len() - i,
    {
        if v[off + i] != p[i] {
            assert(v@.subrange(off as int, v@.len() as int)[i as int] != p@[i as int]);
            return false;
        }
        i = i + 1;
    }
    assert(v@.subrange(off as int, v@.len() as int) =~= p@);
    true
}

// ---------------------------------------------------------------------------
// Decimal numerals
// ---------------------------------------------------------------------------

pub open spec fn digit_value(c: char) -> nat {
    ((c as u32) - 48) as nat
}

pub open spec fn all_digits(s: Seq<char>) -> bool {
    forall|i: int| 0 <= i < s.len() ==> is_ascii_digit(#[trigger] s[i])
}

/// The value of a string of decimal digits.
pub open spec fn digits_value(s: Seq<char>) -> nat
    decreases s.len(),
{
    if s.len() == 0 {
        0
    } else {
        digits_value(s.drop_last()) * 10 + digit_value(s.last())
    }
}

/// The digits of an unsigned integer as `str::parse` reads them: an optional `+`.
pub open spec fn unsigned_digits(s: Seq<char>) -> Seq<char> {
    if s.len() > 0 && s[0] == '+' {
        s.drop_first()
    } else {
        s
    }
}

/// `str::parse::<u32>`.
pub open spec fn parse_u32_spec(s: Seq<char>) -> Option<u32> {
    let d = unsigned_digits(s);
    if d.len() > 0 && all_digits(d) && digits_value(d) <= u32::MAX {
        Some(digits_value(d) as u32)
    } else {
        None
    }
}

/// `str::parse::<i64>`: an optional sign, then decimal digits, within range.
pub open spec fn parse_i64_spec(s: Seq<char>) -> Option<i64> {
    if s.len() > 0 && s[0] == '-' {
        let d = s.drop_first();
        if d.len() > 0 && all_digits(d) && digits_value(d) <= 0x8000_0000_0000_0000 {
            Some((-(digits_value(d) as int)) as i64)
        } else {
            None
        }
    } else {
        let d = unsigned_digits(s);
        if d.len() > 0 && all_digits(d) && digits_value(d) <= i64::MAX {
            Some(digits_value(d) as i64)
        } else {
            None
        }
    }
}

pub open spec fn min_nat(a: nat, b: nat) -> nat {
    if a <= b {
        a
    } else {
        b
    }
}

/// The value of the digits `v[from..to]`, capped at `cap`.
fn capped_digits_value(v: &Vec<char>, from: usize, to: usize, cap: u64) -> (r: Option<u64>)
    requires
        from <= to <= v.len(),
        0 < cap,
    ensures
        r.is_some() <==> all_digits(v@.subrange(from as int, to as int)),
        r.is_some() ==> r.unwrap() == min_nat(
            digits_value(v@.subrange(from as int, to as int)),
            cap as nat,
        ),
{
    let mut acc: u64 = 0;
    let mut i = from;
    while i < to
        invariant
            from <= i <= to <= v.len(),
            0 < cap,
            all_digits(v@.subrange(from as int, i as int)),
            acc == min_nat(digits_value(v@.subrange(from as int, i as int)), cap as nat),
        decreases to - i,
    {
        let c = v[i];
        if !char_is_ascii_digit(c) {
            proof {
                let s = v@.subrange(from as int, to as int);
                assert(s[i - from] == c);
            }
            return None;
        }
        let d: u64 = (c as u32 - 48) as u64;
        let ghost prev = v@.subrange(from as int, i as int);
        let ghost next = v@.subrange(from as int, i + 1);
        proof {
            assert(next.drop_last() =~= prev);
            assert(next.last() == c);
            assert(digits_value(next) == digits_value(prev) * 10 + digit_value(c));
            assert forall|k: int| 0 <= k < next.len() implies is_ascii_digit(#[trigger] next[k]) by {
                if k < prev.len() {
                    assert(next[k] == prev[k]);
                }
            }
        }
        if acc >= cap {
            proof {
                assert(digits_value(prev) >= cap);
                assert(digits_value(next) >= digits_value(prev)) by (nonlinear_arith)
                    requires
                        digits_value(next) == digits_value(prev) * 10 + digit_value(c),
                ;
            }
        } else {
            let t: u128 = acc as u128 * 10 + d as u128;
            if t >= cap as u128 {
                acc = cap;
            } else {
                acc = t as u64;
            }
        }
        i = i + 1;
    }
    Some(acc)
}

/// The value of the digits `v[from..to]`, capped at `cap` (wide accumulator).
fn capped_digits_value_wide(v: &Vec<char>, from: usize, to: usize, cap: u128) -> (r: Option<u128>)
    requires
        from <= to <= v.len(),
        0 < cap <= 0x1_0000_0000_0000_0000_0000,
    ensures
        r.is_some() <==> all_digits(v@.subrange(from as int, to as int)),
        r.is_some() ==> r.unwrap() == min_nat(
            digits_value(v@.subrange(from as int, to as int)),
            cap as nat,
        ),
{
    let mut acc: u128 = 0;
    let mut i = from;
    while i < to
        invariant
            from <= i <= to <= v.len(),
            0 < cap <= 0x1_0000_0000_0000_0000_0000,
            all_digits(v@.subrange(from as int, i as int)),
            acc == min_nat(digits_value(v@.subrange(from as int, i as int)), cap as nat),
        decreases to - i,
    {
        let c = v[i];
        if !char_is_ascii_digit(c) {
            proof {
                let s = v@.subrange(from as int, to as int);
                assert(s[i - from] == c);
            }
            return None;
        }
        let d: u128 = (c as u32 - 48) as u128;
        let ghost prev = v@.subrange(from as int, i as int);
        let ghost next = v@.subrange(from as int, i + 1);
        proof {
            assert(next.drop_last() =~= prev);
            assert(next.last() == c);
            assert(digits_value(next) == digits_value(prev) * 10 + digit_value(c));
            assert forall|k: int| 0 <= k < next.len() implies is_ascii_digit(#[trigger] next[k]) by {
                if k < prev.len() {
                    assert(next[k] == prev[k]);
                }
            }
        }
        if acc >= cap {
            proof {
                assert(digits_value(prev) >= cap);
                assert(digits_value(next) >= digits_value(prev)) by (nonlinear_arith)
                    requires
                        digits_value(next) == digits_value(prev) * 10 + digit_value(c),
                ;
            }
        } else {
            let t: u128 = acc * 10 + d;
            if t >= cap {
                acc = cap;
            } else {
                acc = t;
            }
        }
        i = i + 1;
    }
    Some(acc)
}

/// `str::parse::<usize>`: an optional `+`, then decimal digits, within range.
pub open spec fn parse_usize_spec(s: Seq<char>) -> Option<usize> {
    let d = unsigned_digits(s);
    if d.len() > 0 && all_digits(d) && digits_value(d) <= usize::MAX {
        Some(digits_value(d) as usize)
    } else {
        None
    }
}

/// `str::parse::<usize>`.
pub fn parse_usize(s: &str) -> (r: Option<usize>)
    ensures
        r == parse_usize_spec(s@),
{
    let v = str_chars(s);
    let to = v.len();
    let ghost whole = v@.subrange(0, to as int);
    proof {
        assert(whole =~= s@);
    }
    let mut start: usize = 0;
    if to > 0 && v[0] == '+' {
        start = 1;
        proof {
            assert(whole.drop_first() =~= v@.subrange(1, to as int));
        }
    }
    if start == to {
        return None;
    }
    let cap: u128 = 0x1_0000_0000_0000_0000;
    match capped_digits_value_wide(&v, start, to, cap) {
        Some(x) => {
            if x > usize::MAX as u128 {
                None
            } else {
                Some(x as usize)
            }
        },
        None => None,
    }
}

/// `str::parse::<u32>` on the characters `v[from..to]`.
pub fn parse_u32_chars(v: &Vec<char>, from: usize, to: usize) -> (r: Option<u32>)
    requires
        from <= to <= v.len(),
    ensures
        r == parse_u32_spec(v@.subrange(from as int, to as int)),
{
    let ghost s = v@.subrange(from as int, to as int);
    let mut start = from;
    if from < to && v[from] == '+' {
        start = from + 1;
        proof {
            assert(s.drop_first() =~= v@.subrange(start as int, to as int));
        }
    }
    if start == to {
        return None;
    }
    let cap: u64 = 0x1_0000_0000;
    match capped_digits_value(v, start, to, cap) {
        Some(x) => {
            if x >= cap {
                None
            } else {
                Some(x as u32)
            }
        },
        None => None,
    }
}

/// `str::parse::<u32>`.
pub fn parse_u32(s: &str) -> (r: Option<u32>)
    ensures
        r == parse_u32_spec(s@),
{
    let v = str_chars(s);
    proof {
        assert(v@.subrange(0, v@.len() as int) =~= v@);
    }
    parse_u32_chars(&v, 0, v.len())
}

/// `str::parse::<i64>`.
pub fn parse_i64(s: &str) -> (r: Option<i64>)
    ensures
        r == parse_i64_spec(s@),
{
    let v = str_chars(s);
    let n = v.len();
    if n > 0 && v[0] == '-' {
        proof {
            assert(v@.drop_first() =~= v@.subrange(1, n as int));
        }
        if n == 1 {
            return None;
        }
        let cap: u64 = 0x8000_0000_0000_0001;
        match capped_digits_value(&v, 1, n, cap) {
            Some(x) => {
                if x == cap {
                    None
                } else if x == 0x8000_0000_0000_0000 {
                    proof {
                        assert((-(0x8000_0000_0000_0000int)) as i64 == i64::MIN);
                    }
                    Some(i64::MIN)
                } else {
                    Some(-(x as i64))
                }
            },
            None => None,
        }
    } else {
        let mut start: usize = 0;
        if n > 0 && v[0] == '+' {
            start = 1;
            proof {
                assert(v@.drop_first() =~= v@.subrange(1, n as int));
            }
        } else {
            proof {
                assert(v@ =~= v@.subrange(0, n as int));
            }
        }
        if start == n {
            return None;
        }
        let cap: u64 = 0x8000_0000_0000_0000;
        match capped_digits_value(&v, start, n, cap) {
            Some(x) => {
                if x >= cap {
                    None
                } else {
                    Some(x as i64)
                }
            },
            None => None,
        }
    }
}

pub open spec fn digit_char(d: nat) -> char {
    ((48 + d) as u8) as char
}

/// Decimal representation of a natural number, without leading zeros.
pub open spec fn decimal(n: nat) -> Seq<char>
    decreases n,
{
    if n < 10 {
        seq![digit_char(n)]
    } else {
        decimal(n / 10).push(digit_char(n % 10))
    }
}

/// Decimal representation of a signed integer (`i64::to_string`).
pub open spec fn decimal_int(n: int) -> Seq<char> {
    if n < 0 {
        seq!['-'] + decimal((-n) as nat)
    } else {
        decimal(n as nat)
    }
}

pub proof fn lemma_digit_char(d: nat)
    requires
        d < 10,
    ensures
        is_ascii_digit(digit_char(d)),
        digit_value(digit_char(d)) == d,
        is_ascii_upper(digit_char(d)) == false,
        is_ascii_lower(digit_char(d)) == false,
        !is_white_space(digit_char(d)),
{
}

/// A decimal numeral is a non-empty string of digits whose value is the number.
pub proof fn lemma_decimal(n: nat)
    ensures
        decimal(n).len() > 0,
        all_digits(decimal(n)),
        digits_value(decimal(n)) == n,
    decreases n,
{
    lemma_digit_char(n % 10);
    if n < 10 {
        assert(decimal(n).drop_last() =~= Seq::<char>::empty());
        assert(decimal(n).last() == digit_char(n));
        assert(digits_value(decimal(n)) == digits_value(Seq::<char>::empty()) * 10 + n);
    } else {
        lemma_decimal(n / 10);
        let s = decimal(n);
        assert(s.drop_last() =~= decimal(n / 10));
        assert(s.last() == digit_char(n % 10));
        assert((n / 10) * 10 + n % 10 == n) by (nonlinear_arith);
        assert forall|i: int| 0 <= i < s.len() implies is_ascii_digit(#[trigger] s[i]) by {
            if i < s.len() - 1 {
                assert(s[i] == decimal(n / 10)[i]);
            }
        }
    }
}

/// Reading back a written `u32` gives the number.
pub proof fn lemma_parse_decimal_u32(n: u32)
    ensures
        parse_u32_spec(decimal(n as nat)) == Some(n),
{
    lemma_decimal(n as nat);
    let s = decimal(n as nat);
    assert(is_ascii_digit(s[0]));
}

/// Reading back a written non-negative `i64` gives the number.
pub proof fn lemma_parse_decimal_i64(n: i64)
    requires
        n >= 0,
    ensures
        parse_i64_spec(decimal_int(n as int)) == Some(n),
{
    lemma_decimal(n as nat);
    let s = decimal(n as nat);
    assert(is_ascii_digit(s[0]));
    assert(decimal_int(n as int) == s);
    assert(unsigned_digits(s) == s);
}

fn push_decimal(out: &mut Vec<char>, n: u64)
    ensures
        final(out)@ == old(out)@ + decimal(n as nat),
    decreases n,
{
    if n >= 10 {
        push_decimal(out, n / 10);
    }
    let d: u8 = (n % 10) as u8;
    let c = (48u8 + d) as char;
    out.push(c);
    proof {
        assert(c == digit_char((n % 10) as nat));
        if n >= 10 {
            assert(decimal(n as nat) == decimal((n / 10) as nat).push(digit_char((n % 10) as nat)));
        }
    }
}

/// `u64::to_string`.
pub fn u64_to_string(n: u64) -> (r: String)
    ensures
        r@ == decimal(n as nat),
{
    let mut v: Vec<char> = Vec::new();
    push_decimal(&mut v, n);
    proof {
        assert(v@ =~= decimal(n as nat));
    }
    string_from_chars(v.as_slice())
}

/// `u32::to_string`.
pub fn u32_to_string(n: u32) -> (r: String)
    ensures
        r@ == decimal(n as nat),
{
    u64_to_string(n as u64)
}

/// `i64::to_string`.
pub fn i64_to_string(n: i64) -> (r: String)
    ensures
        r@ == decimal_int(n as int),
{
    let mut v: Vec<char> = Vec::new();
    if n < 0 {
        v.push('-');
        let m: u64 = if n == i64::MIN {
            0x8000_0000_0000_0000u64
        } else {
            (-n) as u64
        };
        push_decimal(&mut v, m);
        proof {
            assert(v@ =~= seq!['-'] + decimal((-n) as nat));
        }
    } else {
        push_decimal(&mut v, n as u64);
        proof {
            assert(v@ =~= decimal(n as nat));
        }
    }
    string_from_chars(v.as_slice())
}

} // verus!

verus! {

// ---------------------------------------------------------------------------
// Prefixes
// ---------------------------------------------------------------------------

pub open spec fn has_prefix(s: Seq<char>, p: Seq<char>) -> bool {
    p.len() <= s.len() && s.subrange(0, p.len() as int) == p
}

pub open spec fn has_suffix(s: Seq<char>, p: Seq<char>) -> bool {
    p.len() <= s.len() && s.subrange(s.len() - p.len(), s.len() as int) == p
}

/// `str::trim_start_matches` with a non-empty pattern: every leading copy removed.
pub open spec fn strip_all_prefix(s: Seq<char>, p: Seq<char>) -> Seq<char>
    decreases s.len(),
{
    if p.len() > 0 && has_prefix(s, p) {
        strip_all_prefix(s.subrange(p.len() as int, s.len() as int), p)
    } else {
        s
    }
}

/// `str::strip_prefix`: the rest after `p`, when `s` starts with it.
pub open spec fn strip_prefix_spec(s: Seq<char>, p: Seq<char>) -> Option<Seq<char>> {
    if has_prefix(s, p) {
        Some(s.subrange(p.len() as int, s.len() as int))
    } else {
        None
    }
}

pub fn vec_strip_all_prefix(v: &Vec<char>, p: &Vec<char>) -> (r: Vec<char>)
    requires
        p.len() > 0,
    ensures
        r@ == strip_all_prefix(v@, p@),
{
    let mut start: usize = 0;
    assert(v@.subrange(0, v.len() as int) =~= v@);
    loop
        invariant
            0 <= start <= v.len(),
            p.len() > 0,
            strip_all_prefix(v@.subrange(start as int, v.len() as int), p@) == strip_all_prefix(v@, p@),
        decreases v.len() - start,
    {
        let rest = slice_vec(v, start, v.len());
        if vec_starts_with(&rest, p) {
            proof {
                assert(rest@.subrange(p.len() as int, rest.len() as int) =~= v@.subrange(
                    start + p.len(),
                    v.len() as int,
                ));
            }
            start = start + p.len();
        } else {
            if start == 0 {
                assert(v@.subrange(0, v.len() as int) =~= v@);
            }
            return rest;
        }
    }
}

/// `str::trim_start_matches` on a string, as characters.
pub fn str_strip_all_prefix(s: &str, p: &str) -> (r: Vec<char>)
    requires
        p@.len() > 0,
    ensures
        r@ == strip_all_prefix(s@, p@),
{
    let v = str_chars(s);
    let pv = str_chars(p);
    vec_strip_all_prefix(&v, &pv)
}

/// `str::strip_prefix` on characters.
pub fn vec_strip_prefix(v: &Vec<char>, p: &str) -> (r: Option<Vec<char>>)
    ensures
        r is Some <==> strip_prefix_spec(v@, p@) is Some,
        r is Some ==> r.unwrap()@ == strip_prefix_spec(v@, p@).unwrap(),
{
    let pv = str_chars(p);
    if vec_starts_with(v, &pv) {
        Some(slice_vec(v, pv.len(), v.len()))
    } else {
        None
    }
}

/// The characters of `v` as a string equal to the given text.
pub fn chars_eq_str(v: &Vec<char>, s: &str) -> (r: bool)
    ensures
        r == (v@ == s@),
{
    vec_eq_str(v, s)
}

pub fn vec_to_string(v: &Vec<char>) -> (r: String)
    ensures
        r@ == v@,
{
    string_from_chars(v.as_slice())
}


/// `str::replace` with a non-empty pattern: every occurrence, left to right
/// and without overlap, replaced.
pub open spec fn replace_all(s: Seq<char>, p: Seq<char>, q: Seq<char>) -> Seq<char>
    decreases s.len(),
{
    if s.len() == 0 || p.len() == 0 {
        s
    } else if has_prefix(s, p) {
        q + replace_all(s.subrange(p.len() as int, s.len() as int), p, q)
    } else {
        seq![s[0]] + replace_all(s.drop_first(), p, q)
    }
}

/// Every occurrence of `p` in `s` replaced by `q`, left to right.
pub fn replace_str(s: &str, p: &str, q: &str) -> (r: String)
    requires
        p@.len() > 0,
    ensures
        r@ == replace_all(s@, p@, q@),
{
    let v = str_chars(s);
    let pv = str_chars(p);
    let qv = str_chars(q);
    let mut out: Vec<char> = Vec::new();
    let mut i: usize = 0;
    proof {
        assert(v@.subrange(0, v@.len() as int) =~= v@);
    }
    while i < v.len()
        invariant
            0 <= i <= v.len(),
            pv@ == p@,
            qv@ == q@,
            pv@.len() > 0,
            v@ == s@,
            out@ + replace_all(v@.subrange(i as int, v@.len() as int), p@, q@) == replace_all(s@, p@, q@),
        decreases v.len() - i,
    {
        let rest = slice_vec(&v, i, v.len());
        let ghost before = out@;
        if vec_starts_with(&rest, &pv) {
            push_all(&mut out, &qv);
            proof {
                assert(rest@.subrange(p@.len() as int, rest@.len() as int) =~= v@.subrange(
                    i + pv@.len(),
                    v@.len() as int,
                ));
                assert(out@ =~= before + q@);
            }
            i = i + pv.len();
        } else {
            out.push(v[i]);
            proof {
                assert(rest@.drop_first() =~= v@.subrange(i + 1, v@.len() as int));
                assert(out@ =~= before + seq![rest@[0]]);
            }
            i = i + 1;
        }
    }
    proof {
        assert(v@.subrange(v@.len() as int, v@.len() as int) =~= Seq::<char>::empty());
        assert(out@ + Seq::<char>::empty() =~= out@);
    }
    string_from_chars(out.as_slice())
}


/// `str::to_ascii_lowercase` of the trimmed text.
pub fn trim_lower(s: &str) -> (r: Vec<char>)
    ensures
        r@ == ascii_lower_seq(trim(s@)),
{
    let t = trim_chars(s);
    let mut out: Vec<char> = Vec::new();
    let mut i: usize = 0;
    while i < t.len()
        invariant
            0 <= i <= t.len(),
            out@ == ascii_lower_seq(t@.subrange(0, i as int)),
        decreases t.len() - i,
    {
        out.push(char_to_ascii_lower(t[i]));
        proof {
            assert(out@ =~= ascii_lower_seq(t@.subrange(0, i + 1)));
        }
        i = i + 1;
    }
    proof {
        assert(t@.subrange(0, t@.len() as int) =~= t@);
    }
    out
}

/// Whether a text is blank (empty after trimming).
pub open spec fn is_blank(s: Seq<char>) -> bool {
    trim(s).len() == 0
}

/// Whether an optional text is given and not blank.
pub open spec fn present(o: Option<&str>) -> bool {
    match o {
        Some(s) => !is_blank(s@),
        None => false,
    }
}

/// `Option::is_some_and(|v| !v.trim().is_empty())`.
pub fn is_present(o: Option<&str>) -> (r: bool)
    ensures
        r == present(o),
{
    match o {
        Some(s) => trim_chars(s).len() > 0,
        None => false,
    }
}


/// The first index at or after `i` where `p` occurs in `s`, or -1.
pub open spec fn find_seq_from(s: Seq<char>, p: Seq<char>, i: int) -> int
    decreases s.len() + 1 - i,
{
    if i < 0 || i + p.len() > s.len() {
        -1
    } else if s.subrange(i, i + p.len()) == p {
        i
    } else {
        find_seq_from(s, p, i + 1)
    }
}

pub proof fn lemma_find_seq_from(s: Seq<char>, p: Seq<char>, i: int)
    requires
        0 <= i,
    ensures
        find_seq_from(s, p, i) == -1 || (i <= find_seq_from(s, p, i) && find_seq_from(s, p, i) + p.len() <= s.len()
            && s.subrange(find_seq_from(s, p, i), find_seq_from(s, p, i) + p.len()) == p),
    decreases s.len() + 1 - i,
{
    if !(i + p.len() > s.len()) && s.subrange(i, i + p.len()) != p {
        lemma_find_seq_from(s, p, i + 1);
    }
}

/// The first index at or after `from` where `p` occurs in `v`.
pub fn vec_find_seq(v: &Vec<char>, p: &Vec<char>, from: usize) -> (r: Option<usize>)
    ensures
        r is Some ==> r.unwrap() as int == find_seq_from(v@, p@, from as int),
        r is None ==> find_seq_from(v@, p@, from as int) == -1,
{
    if p.len() > v.len() || from > v.len() - p.len() {
        return None;
    }
    let last = v.len() - p.len();
    let mut i = from;
    loop
        invariant
            from <= i <= last,
            last == v.len() - p.len(),
            find_seq_from(v@, p@, i as int) == find_seq_from(v@, p@, from as int),
        decreases last - i,
    {
        if crate::xml::vec_matches_at(v, p, i) {
            return Some(i);
        }
        if i == last {
            proof {
                assert(find_seq_from(v@, p@, i + 1) == -1);
            }
            return None;
        }
        i = i + 1;
    }
}


/// Whether two texts agree once ASCII letters are lowered
/// (`str::eq_ignore_ascii_case`).
pub fn str_eq_ignore_ascii_case(a: &str, b: &str) -> (r: bool)
    ensures
        r == (ascii_lower_seq(a@) == ascii_lower_seq(b@)),
{
    let av = str_chars(a);
    let bv = str_chars(b);
    if av.len() != bv.len() {
        proof {
            assert(ascii_lower_seq(a@).len() != ascii_lower_seq(b@).len());
        }
        return false;
    }
    let mut i: usize = 0;
    while i < av.len()
        invariant
            0 <= i <= av.len(),
            av.len() == bv.len(),
            av@ == a@,
            bv@ == b@,
            forall|k: int| 0 <= k < i ==> ascii_lower(#[trigger] av@[k]) == ascii_lower(bv@[k]),
        decreases av.len() - i,
    {
        if char_to_ascii_lower(av[i]) != char_to_ascii_lower(bv[i]) {
            proof {
                assert(ascii_lower_seq(a@)[i as int] != ascii_lower_seq(b@)[i as int]);
            }
            return false;
        }
        i = i + 1;
    }
    proof {
        assert(ascii_lower_seq(a@) =~= ascii_lower_seq(b@));
    }
    true
}

} // verus!
