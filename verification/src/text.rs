//! Small text utilities shared by every stage: character-level comparison,
//! appending, and decimal rendering of integers.

use vstd::prelude::*;

verus! {

/// Append one character to a string.
///
/// Trusted: `String::push` appends exactly the given character and leaves the
/// earlier contents untouched, as its documentation states.
#[verifier::external_body]
pub(crate) fn push_char(s: &mut String, c: char)
    ensures
        final(s)@ == old(s)@.push(c),
{
    s.push(c);
}

/// Append a string slice (a verified-spec'd `String::append`).
pub fn push_str(s: &mut String, t: &str)
    ensures
        final(s)@ == old(s)@ + t@,
{
    s.append(t);
}

/// Whether two string slices hold the same characters.
pub fn str_eq(a: &str, b: &str) -> (r: bool)
    ensures
        r == (a@ == b@),
{
    let n = a.unicode_len();
    let m = b.unicode_len();
    if n != m {
        return false;
    }
    let mut i: usize = 0;
    while i < n
        invariant
            n == a@.len(),
            m == b@.len(),
            n == m,
            i <= n,
            forall|j: int| 0 <= j < i ==> a@[j] == b@[j],
        decreases n - i,
    {
        if a.get_char(i) != b.get_char(i) {
            assert(a@[i as int] != b@[i as int]);
            return false;
        }
        i = i + 1;
    }
    assert(a@ =~= b@);
    true
}

/// Whether a string holds the same characters as a string slice.
pub fn string_is(a: &String, b: &str) -> (r: bool)
    ensures
        r == (a@ == b@),
{
    str_eq(a.as_str(), b)
}

/// A copy of a string with the same characters.
pub fn copy_string(s: &String) -> (r: String)
    ensures
        r == *s,
{
    s.clone()
}

/// An owned string holding the characters of a slice.
pub fn owned(s: &str) -> (r: String)
    ensures
        r@ == s@,
{
    String::from_str(s)
}

/// The decimal digit character for `d < 10`.
pub open spec fn digit_char(d: nat) -> char {
    if d == 0 { '0' }
    else if d == 1 { '1' }
    else if d == 2 { '2' }
    else if d == 3 { '3' }
    else if d == 4 { '4' }
    else if d == 5 { '5' }
    else if d == 6 { '6' }
    else if d == 7 { '7' }
    else if d == 8 { '8' }
    else { '9' }
}

/// The decimal rendering of a natural number, most significant digit first.
pub open spec fn decimal(n: nat) -> Seq<char>
    decreases n,
{
    if n < 10 {
        seq![digit_char(n)]
    } else {
        decimal(n / 10).push(digit_char(n % 10))
    }
}

/// The decimal rendering of an integer, with a leading `-` when negative.
pub open spec fn int_decimal(i: int) -> Seq<char> {
    if i < 0 {
        seq!['-'] + decimal((-i) as nat)
    } else {
        decimal(i as nat)
    }
}

pub fn digit(d: u64) -> (c: char)
    requires
        d < 10,
    ensures
        c == digit_char(d as nat),
{
    if d == 0 { '0' }
    else if d == 1 { '1' }
    else if d == 2 { '2' }
    else if d == 3 { '3' }
    else if d == 4 { '4' }
    else if d == 5 { '5' }
    else if d == 6 { '6' }
    else if d == 7 { '7' }
    else if d == 8 { '8' }
    else { '9' }
}

/// Append the decimal rendering of `n` to `s`.
pub fn push_u64(s: &mut String, n: u64)
    ensures
        final(s)@ == old(s)@ + decimal(n as nat),
    decreases n,
{
    if n < 10 {
        push_char(s, digit(n));
        assert(old(s)@.push(digit_char(n as nat)) =~= old(s)@ + decimal(n as nat));
    } else {
        push_u64(s, n / 10);
        push_char(s, digit(n % 10));
        assert(old(s)@ + decimal((n / 10) as nat) + seq![digit_char((n % 10) as nat)]
            =~= old(s)@ + decimal(n as nat));
    }
}

/// Append the decimal rendering of a `usize`.
pub fn push_usize(s: &mut String, n: usize)
    ensures
        final(s)@ == old(s)@ + decimal(n as nat),
{
    push_u64(s, n as u64);
}

/// Append the decimal rendering of a signed integer.
pub fn push_i64(s: &mut String, n: i64)
    ensures
        final(s)@ == old(s)@ + int_decimal(n as int),
{
    if n < 0 {
        push_char(s, '-');
        let m: u64 = (0i128 - (n as i128)) as u64;
        push_u64(s, m);
        assert(old(s)@.push('-') + decimal(m as nat) =~= old(s)@ + int_decimal(n as int));
    } else {
        push_u64(s, n as u64);
    }
}

/// The decimal rendering of a `usize` as a fresh string.
pub fn usize_text(n: usize) -> (s: String)
    ensures
        s@ == decimal(n as nat),
{
    let mut s = String::new();
    push_usize(&mut s, n);
    assert(s@ =~= decimal(n as nat));
    s
}

/// The decimal rendering of an `i64` as a fresh string.
pub fn i64_text(n: i64) -> (s: String)
    ensures
        s@ == int_decimal(n as int),
{
    let mut s = String::new();
    push_i64(&mut s, n);
    assert(s@ =~= int_decimal(n as int));
    s
}

/// The character sequences a list of strings holds.
pub open spec fn names_view(v: Seq<String>) -> Seq<Seq<char>> {
    v.map_values(|s: String| s@)
}

/// Whether a list of strings holds `name`.
pub fn contains_str(v: &Vec<String>, name: &str) -> (r: bool)
    ensures
        r == names_view(v@).contains(name@),
{
    let n = v.len();
    let mut i: usize = 0;
    while i < n
        invariant
            n == v@.len(),
            i <= n,
            forall|j: int| 0 <= j < i ==> v@[j]@ != name@,
        decreases n - i,
    {
        if string_is(&v[i], name) {
            assert(names_view(v@)[i as int] == name@);
            return true;
        }
        i = i + 1;
    }
    assert(!names_view(v@).contains(name@));
    false
}

/// The concatenation of a list of string slices, in order.
pub fn cat(parts: &[&str]) -> (s: String)
    ensures
        s@ == joined(parts@.map_values(|p: &str| p@)),
{
    let ghost vs = parts@.map_values(|p: &str| p@);
    let mut s = String::new();
    let n = parts.len();
    let mut i: usize = 0;
    assert(vs.subrange(0, 0) =~= Seq::<Seq<char>>::empty());
    while i < n
        invariant
            n == parts@.len(),
            vs == parts@.map_values(|p: &str| p@),
            i <= n,
            s@ == joined(vs.subrange(0, i as int)),
        decreases n - i,
    {
        push_str(&mut s, parts[i]);
        assert(vs.subrange(0, i + 1).drop_last() =~= vs.subrange(0, i as int));
        i = i + 1;
    }
    assert(vs.subrange(0, n as int) =~= vs);
    s
}

/// The concatenation of a list of character sequences.
pub open spec fn joined(ps: Seq<Seq<char>>) -> Seq<char>
    decreases ps.len(),
{
    if ps.len() == 0 {
        Seq::empty()
    } else {
        joined(ps.drop_last()) + ps.last()
    }
}

} // verus!
