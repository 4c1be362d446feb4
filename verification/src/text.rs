//! Verified text utilities: string equality by contents, substring search,
//! last-occurrence search, and hexadecimal parsing of 16-bit identifiers.
//! All positions and lengths count characters, not bytes.

use vstd::prelude::*;

verus! {

/// String equality, by contents.
pub fn string_eq(a: &String, b: &String) -> (r: bool)
    ensures
        r == (a@ == b@),
{
    a.eq(b)
}

/// Does the pattern occur in `s` at position `i`?
pub open spec fn matches_at(s: Seq<char>, pat: Seq<char>, i: int) -> bool {
    0 <= i && i + pat.len() <= s.len() && s.subrange(i, i + pat.len()) == pat
}

/// The position of the first occurrence of the pattern at or after `k`.
pub open spec fn find_from(s: Seq<char>, pat: Seq<char>, k: int) -> Option<int>
    decreases s.len() - k + 1,
{
    if k < 0 || k + pat.len() > s.len() {
        None
    } else if matches_at(s, pat, k) {
        Some(k)
    } else {
        find_from(s, pat, k + 1)
    }
}

/// The position of the first occurrence of the pattern, if any.
pub open spec fn spec_find(s: Seq<char>, pat: Seq<char>) -> Option<int> {
    find_from(s, pat, 0)
}

/// What a successful search means: a match there, and none earlier.
pub proof fn lemma_find_some(s: Seq<char>, pat: Seq<char>, k: int, i: int)
    requires
        0 <= k,
        find_from(s, pat, k) == Some(i),
    ensures
        k <= i,
        i + pat.len() <= s.len(),
        s.subrange(i, i + pat.len()) == pat,
        forall|j: int| k <= j < i ==> !matches_at(s, pat, j),
    decreases s.len() - k + 1,
{
    if k + pat.len() <= s.len() {
        if matches_at(s, pat, k) {
        } else {
            lemma_find_some(s, pat, k + 1, i);
        }
    }
}

/// Does the pattern's text stand at position `k` of `s`?
fn match_at(s: &str, pat: &str, k: usize) -> (r: bool)
    requires
        k + pat@.len() <= s@.len(),
    ensures
        r == matches_at(s@, pat@, k as int),
{
    let n = s.unicode_len();
    let m = pat.unicode_len();
    let mut j: usize = 0;
    while j < m
        invariant
            j <= m,
            m == pat@.len(),
            n == s@.len(),
            k + m <= n,
            forall|t: int| 0 <= t < j ==> s@[k + t] == pat@[t],
        decreases m - j,
    {
        if s.get_char(k + j) != pat.get_char(j) {
            proof {
                if matches_at(s@, pat@, k as int) {
                    assert(s@.subrange(k as int, k + m as int)[j as int] == pat@[j as int]);
                }
            }
            return false;
        }
        j = j + 1;
    }
    proof {
        assert(s@.subrange(k as int, k + m as int) =~= pat@);
    }
    true
}

/// First occurrence of `pat` in `s`, by character position.
pub fn find_str(s: &str, pat: &str) -> (r: Option<usize>)
    ensures
        match r {
            Some(i) => spec_find(s@, pat@) == Some(i as int),
            None => spec_find(s@, pat@) is None,
        },
{
    let n = s.unicode_len();
    let m = pat.unicode_len();
    if m > n {
        return None;
    }
    if m == 0 {
        proof {
            assert(s@.subrange(0, 0) =~= pat@);
        }
        return Some(0);
    }
    let mut k: usize = 0;
    while k <= n - m
        invariant
            1 <= m <= n,
            n == s@.len(),
            m == pat@.len(),
            k <= n - m + 1,
            find_from(s@, pat@, 0) == find_from(s@, pat@, k as int),
        decreases n - m - k + 1,
    {
        if match_at(s, pat, k) {
            return Some(k);
        }
        k = k + 1;
    }
    None
}

/// Does the character occur in `s`?
pub open spec fn has_char(s: Seq<char>, c: char) -> bool {
    exists|i: int| 0 <= i < s.len() && s[i] == c
}

/// Is the character anywhere in `s`?
pub fn contains_char(s: &str, c: char) -> (r: bool)
    ensures
        r == has_char(s@, c),
{
    let n = s.unicode_len();
    for i in 0..n
        invariant
            n == s@.len(),
            forall|t: int| 0 <= t < i ==> s@[t] != c,
    {
        if s.get_char(i) == c {
            return true;
        }
    }
    false
}

/// The position of the last occurrence of the character before position `k`.
pub open spec fn last_index_of(s: Seq<char>, c: char, k: int) -> Option<int>
    decreases k,
{
    if k <= 0 {
        None
    } else if s[k - 1] == c {
        Some(k - 1)
    } else {
        last_index_of(s, c, k - 1)
    }
}

/// What the last-occurrence search yields: that position holds the
/// character and nothing later does; absence means the character is nowhere
/// before `k`.
pub proof fn lemma_last_index_of(s: Seq<char>, c: char, k: int)
    requires
        k <= s.len(),
    ensures
        match last_index_of(s, c, k) {
            Some(i) => 0 <= i < k && s[i] == c && forall|j: int| i < j < k ==> s[j] != c,
            None => forall|j: int| 0 <= j < k ==> s[j] != c,
        },
    decreases k,
{
    if k > 0 && s[k - 1] != c {
        lemma_last_index_of(s, c, k - 1);
    }
}

/// Position of the last occurrence of the character, if any.
pub fn rfind_char(s: &str, c: char) -> (r: Option<usize>)
    ensures
        match r {
            Some(i) => last_index_of(s@, c, s@.len() as int) == Some(i as int),
            None => last_index_of(s@, c, s@.len() as int) is None,
        },
{
    let n = s.unicode_len();
    let mut k: usize = n;
    while k > 0
        invariant
            k <= n,
            n == s@.len(),
            last_index_of(s@, c, n as int) == last_index_of(s@, c, k as int),
        decreases k,
    {
        if s.get_char(k - 1) == c {
            return Some(k - 1);
        }
        k = k - 1;
    }
    None
}

/// Is the character a hexadecimal digit?
pub open spec fn is_hex_digit(c: char) -> bool {
    ('0' as u32 <= c as u32 && c as u32 <= '9' as u32) || ('a' as u32 <= c as u32 && c as u32
        <= 'f' as u32) || ('A' as u32 <= c as u32 && c as u32 <= 'F' as u32)
}

/// The numeric value of a hexadecimal digit.
pub open spec fn hex_digit_val(c: char) -> nat {
    if '0' as u32 <= c as u32 && c as u32 <= '9' as u32 {
        (c as u32 - '0' as u32) as nat
    } else if 'a' as u32 <= c as u32 && c as u32 <= 'f' as u32 {
        (c as u32 - 'a' as u32 + 10) as nat
    } else if 'A' as u32 <= c as u32 && c as u32 <= 'F' as u32 {
        (c as u32 - 'A' as u32 + 10) as nat
    } else {
        0
    }
}

/// The shape a hexadecimal unsigned number must have: an optional leading
/// plus sign, then at least one hexadecimal digit and nothing else.
pub open spec fn hex_shape(s: Seq<char>) -> bool {
    if s.len() > 0 && s[0] == '+' {
        s.len() >= 2 && forall|i: int| 1 <= i < s.len() ==> is_hex_digit(s[i])
    } else {
        s.len() >= 1 && forall|i: int| 0 <= i < s.len() ==> is_hex_digit(s[i])
    }
}

/// The digit characters of such a number, with the sign stripped.
pub open spec fn hex_digits(s: Seq<char>) -> Seq<char> {
    if s.len() > 0 && s[0] == '+' {
        s.drop_first()
    } else {
        s
    }
}

/// The numeric value of a digit sequence, most significant first.
pub open spec fn hex_value(ds: Seq<char>) -> nat
    decreases ds.len(),
{
    if ds.len() == 0 {
        0
    } else {
        hex_value(ds.drop_last()) * 16 + hex_digit_val(ds.last())
    }
}

/// Appending digits never shrinks the value.
pub proof fn lemma_hex_value_monotone(ds: Seq<char>, k: int)
    requires
        0 <= k <= ds.len(),
    ensures
        hex_value(ds) >= hex_value(ds.take(k)),
    decreases ds.len() - k,
{
    if k == ds.len() {
        assert(ds.take(k) =~= ds);
    } else {
        lemma_hex_value_monotone(ds, k + 1);
        assert(ds.take(k + 1).drop_last() =~= ds.take(k));
        assert(hex_value(ds.take(k + 1)) == hex_value(ds.take(k)) * 16 + hex_digit_val(
            ds.take(k + 1).last(),
        ));
    }
}

/// Parse a 16-bit unsigned number written in hexadecimal, as the standard
/// library's radix-16 string-to-integer conversion does: an optional leading
/// plus sign, then one or more hexadecimal digits of either case; anything
/// else, or a value over sixteen bits, yields nothing.
pub fn parse_hex_u16(s: &str) -> (r: Option<u16>)
    ensures
        match r {
            Some(v) => hex_shape(s@) && hex_value(hex_digits(s@)) <= 0xFFFF && v == hex_value(
                hex_digits(s@),
            ),
            None => !hex_shape(s@) || hex_value(hex_digits(s@)) > 0xFFFF,
        },
{
    let n = s.unicode_len();
    if n == 0 {
        return None;
    }
    let first = s.get_char(0);
    let start: usize = if first == '+' {
        1
    } else {
        0
    };
    if n == start {
        return None;
    }
    proof {
        assert(hex_digits(s@) =~= s@.subrange(start as int, n as int));
    }
    let mut acc: u32 = 0;
    let mut i: usize = start;
    while i < n
        invariant
            start <= i <= n,
            n == s@.len(),
            start == 1 ==> s@[0] == '+',
            start == 0 || start == 1,
            hex_digits(s@) =~= s@.subrange(start as int, n as int),
            forall|t: int| start <= t < i ==> is_hex_digit(s@[t]),
            acc == hex_value(s@.subrange(start as int, i as int)),
            acc <= 0xFFFF,
        decreases n - i,
    {
        let c = s.get_char(i);
        let cu = c as u32;
        let d: u32 = if 48 <= cu && cu <= 57 {
            cu - 48
        } else if 97 <= cu && cu <= 102 {
            cu - 97 + 10
        } else if 65 <= cu && cu <= 70 {
            cu - 65 + 10
        } else {
            proof {
                assert(!is_hex_digit(s@[i as int]));
            }
            return None;
        };
        proof {
            assert(is_hex_digit(s@[i as int]));
            assert(d == hex_digit_val(s@[i as int]));
            assert(d <= 15);
        }
        let next: u32 = acc * 16 + d;
        proof {
            assert(s@.subrange(start as int, i + 1 as int).drop_last() =~= s@.subrange(
                start as int,
                i as int,
            ));
            assert(s@.subrange(start as int, i + 1 as int).last() == s@[i as int]);
            assert(next == hex_value(s@.subrange(start as int, i + 1 as int)));
        }
        if next > 0xFFFF {
            proof {
                let ds = hex_digits(s@);
                lemma_hex_value_monotone(ds, i + 1 - start as int);
                assert(ds.take(i + 1 - start as int) =~= s@.subrange(start as int, i + 1 as int));
            }
            return None;
        }
        acc = next;
        i = i + 1;
    }
    proof {
        assert(hex_shape(s@));
        assert(acc == hex_value(hex_digits(s@)));
    }
    Some(acc as u16)
}

} // verus!
