//! Character-level string utilities with exact specifications: equality,
//! substring search, trimming, ASCII case folding and decimal formatting.
//! All contracts are stated over the `Seq<char>` views of `&str` / `String`.

use vstd::prelude::*;

verus! {

/// ASCII lower-casing of a single character; every other character is kept.
pub open spec fn lower_char(c: char) -> char {
    if c == 'A' { 'a' } else if c == 'B' { 'b' } else if c == 'C' { 'c' }
    else if c == 'D' { 'd' } else if c == 'E' { 'e' } else if c == 'F' { 'f' }
    else if c == 'G' { 'g' } else if c == 'H' { 'h' } else if c == 'I' { 'i' }
    else if c == 'J' { 'j' } else if c == 'K' { 'k' } else if c == 'L' { 'l' }
    else if c == 'M' { 'm' } else if c == 'N' { 'n' } else if c == 'O' { 'o' }
    else if c == 'P' { 'p' } else if c == 'Q' { 'q' } else if c == 'R' { 'r' }
    else if c == 'S' { 's' } else if c == 'T' { 't' } else if c == 'U' { 'u' }
    else if c == 'V' { 'v' } else if c == 'W' { 'w' } else if c == 'X' { 'x' }
    else if c == 'Y' { 'y' } else if c == 'Z' { 'z' } else { c }
}

pub open spec fn lower(s: Seq<char>) -> Seq<char> {
    s.map_values(|c: char| lower_char(c))
}

/// ASCII whitespace, the characters stripped by [`trim_spaces`].
pub open spec fn is_space(c: char) -> bool {
    c == ' ' || c == '\t' || c == '\n' || c == '\r'
}

pub open spec fn all_spaces(s: Seq<char>) -> bool {
    forall|i: int| 0 <= i < s.len() ==> is_space(#[trigger] s[i])
}

/// The decimal digit character for `d` (`0 <= d <= 9`).
pub open spec fn digit_char(d: int) -> char {
    if d == 0 { '0' } else if d == 1 { '1' } else if d == 2 { '2' }
    else if d == 3 { '3' } else if d == 4 { '4' } else if d == 5 { '5' }
    else if d == 6 { '6' } else if d == 7 { '7' } else if d == 8 { '8' }
    else { '9' }
}

/// Decimal representation of a non-negative integer, most significant digit first.
pub open spec fn dec_nat(n: nat) -> Seq<char>
    decreases n,
{
    if n < 10 {
        seq![digit_char(n as int)]
    } else {
        dec_nat(n / 10) + seq![digit_char((n % 10) as int)]
    }
}

/// Decimal representation of an integer, with a leading '-' when negative.
pub open spec fn dec_int(n: int) -> Seq<char> {
    if n < 0 {
        seq!['-'] + dec_nat((-n) as nat)
    } else {
        dec_nat(n as nat)
    }
}

/// `needle` occurs in `hay` starting at position `i`.
pub open spec fn match_at(hay: Seq<char>, needle: Seq<char>, i: int) -> bool {
    0 <= i && i + needle.len() <= hay.len() && hay.subrange(i, i + needle.len() as int)
        == needle
}

pub open spec fn contains_seq(hay: Seq<char>, needle: Seq<char>) -> bool {
    exists|i: int| match_at(hay, needle, i)
}

/// Index of the first non-space character, or the length if all are spaces.
pub open spec fn first_non_space(s: Seq<char>) -> int
    decreases s.len(),
{
    if s.len() == 0 {
        0
    } else if !is_space(s[0]) {
        0
    } else {
        1 + first_non_space(s.subrange(1, s.len() as int))
    }
}

/// One past the index of the last non-space character, or 0 if all are spaces.
pub open spec fn last_non_space_end(s: Seq<char>) -> int
    decreases s.len(),
{
    if s.len() == 0 {
        0
    } else if !is_space(s[s.len() - 1]) {
        s.len() as int
    } else {
        last_non_space_end(s.subrange(0, s.len() - 1))
    }
}

/// `s` with leading and trailing ASCII whitespace removed.
pub open spec fn trimmed(s: Seq<char>) -> Seq<char> {
    let a = first_non_space(s);
    let b = last_non_space_end(s);
    if a < b {
        s.subrange(a, b)
    } else {
        Seq::empty()
    }
}

/// Character-for-character string equality.
pub fn str_eq(a: &str, b: &str) -> (r: bool)
    ensures
        r == (a@ == b@),
{
    let alen = a.unicode_len();
    let blen = b.unicode_len();
    if alen != blen {
        proof {
            assert(a@ != b@);
        }
        return false;
    }
    let mut i: usize = 0;
    while i < alen
        invariant
            alen == a@.len(),
            alen == b@.len(),
            i <= alen,
            forall|k: int| 0 <= k < i ==> a@[k] == b@[k],
        decreases alen - i,
    {
        if a.get_char(i) != b.get_char(i) {
            proof {
                assert(a@ != b@);
            }
            return false;
        }
        i += 1;
    }
    proof {
        assert(a@ =~= b@);
    }
    true
}

/// `s` starts with `prefix`.
pub fn starts_with(s: &str, prefix: &str) -> (r: bool)
    ensures
        r == (s@.len() >= prefix@.len() && s@.subrange(0, prefix@.len() as int)
            == prefix@),
{
    let plen = prefix.unicode_len();
    let slen = s.unicode_len();
    if slen < plen {
        return false;
    }
    let mut i: usize = 0;
    while i < plen
        invariant
            plen == prefix@.len(),
            slen == s@.len(),
            plen <= slen,
            i <= plen,
            forall|k: int| 0 <= k < i ==> s@[k] == prefix@[k],
        decreases plen - i,
    {
        if s.get_char(i) != prefix.get_char(i) {
            proof {
                assert(s@.subrange(0, plen as int)[i as int] != prefix@[i as int]);
            }
            return false;
        }
        i += 1;
    }
    proof {
        assert(s@.subrange(0, plen as int) =~= prefix@);
    }
    true
}

/// `s` ends with `suffix`.
pub fn ends_with(s: &str, suffix: &str) -> (r: bool)
    ensures
        r == (s@.len() >= suffix@.len() && s@.subrange(
            s@.len() - suffix@.len(),
            s@.len() as int,
        ) == suffix@),
{
    let xlen = suffix.unicode_len();
    let slen = s.unicode_len();
    if slen < xlen {
        return false;
    }
    let base = slen - xlen;
    let mut i: usize = 0;
    while i < xlen
        invariant
            xlen == suffix@.len(),
            slen == s@.len(),
            base == slen - xlen,
            i <= xlen,
            forall|k: int| 0 <= k < i ==> s@[base + k] == suffix@[k],
        decreases xlen - i,
    {
        if s.get_char(base + i) != suffix.get_char(i) {
            proof {
                assert(s@.subrange(base as int, slen as int)[i as int]
                    != suffix@[i as int]);
            }
            return false;
        }
        i += 1;
    }
    proof {
        assert(s@.subrange(base as int, slen as int) =~= suffix@);
    }
    true
}

/// Position of the first occurrence of `needle` in `hay`, if any.
pub fn find_sub(hay: &str, needle: &str) -> (r: Option<usize>)
    ensures
        match r {
            Some(i) => match_at(hay@, needle@, i as int) && forall|k: int|
                0 <= k < i ==> !match_at(hay@, needle@, k),
            None => !contains_seq(hay@, needle@),
        },
{
    let hlen = hay.unicode_len();
    let nlen = needle.unicode_len();
    if nlen > hlen {
        proof {
            assert(forall|i: int| !match_at(hay@, needle@, i));
        }
        return None;
    }
    let mut i: usize = 0;
    while i <= hlen - nlen
        invariant
            hlen == hay@.len(),
            nlen == needle@.len(),
            nlen <= hlen,
            i <= hlen - nlen + 1,
            forall|k: int| 0 <= k < i ==> !match_at(hay@, needle@, k),
        decreases hlen - nlen - i + 1,
    {
        let mut j: usize = 0;
        let mut hit = true;
        loop
            invariant_except_break
                hlen == hay@.len(),
                nlen == needle@.len(),
                i + nlen <= hlen,
                j <= nlen,
                hit,
                forall|k: int| 0 <= k < j ==> hay@[i + k] == needle@[k],
            ensures
                hit ==> match_at(hay@, needle@, i as int),
                !hit ==> !match_at(hay@, needle@, i as int) && nlen >= 1,
            decreases nlen - j,
        {
            if j >= nlen {
                proof {
                    assert(hay@.subrange(i as int, i + nlen as int) =~= needle@);
                }
                break;
            }
            if hay.get_char(i + j) != needle.get_char(j) {
                proof {
                    assert(hay@.subrange(i as int, i + nlen as int)[j as int]
                        != needle@[j as int]);
                    assert(!match_at(hay@, needle@, i as int));
                }
                hit = false;
                break;
            }
            j += 1;
        }
        if hit {
            return Some(i);
        }
        i += 1;
    }
    proof {
        assert forall|k: int| !match_at(hay@, needle@, k) by {
            if 0 <= k <= hlen - nlen {
                assert(!match_at(hay@, needle@, k));
            }
        }
    }
    None
}

/// `needle` occurs somewhere in `hay`.
pub fn contains_sub(hay: &str, needle: &str) -> (r: bool)
    ensures
        r == contains_seq(hay@, needle@),
{
    match find_sub(hay, needle) {
        Some(_) => true,
        None => false,
    }
}

/// Every character of `s` is ASCII whitespace (true of the empty string).
pub fn is_blank(s: &str) -> (r: bool)
    ensures
        r == all_spaces(s@),
{
    let len = s.unicode_len();
    let mut i: usize = 0;
    while i < len
        invariant
            len == s@.len(),
            i <= len,
            forall|k: int| 0 <= k < i ==> is_space(#[trigger] s@[k]),
        decreases len - i,
    {
        let c = s.get_char(i);
        if !(c == ' ' || c == '\t' || c == '\n' || c == '\r') {
            return false;
        }
        i += 1;
    }
    true
}

/// `s` with leading and trailing ASCII whitespace removed.
pub fn trim_spaces(s: &str) -> (r: String)
    ensures
        r@ == trimmed(s@),
{
    let len = s.unicode_len();
    let mut a: usize = 0;
    loop
        invariant_except_break
            len == s@.len(),
            a <= len,
            forall|k: int| 0 <= k < a ==> is_space(#[trigger] s@[k]),
        ensures
            len == s@.len(),
            a <= len,
            forall|k: int| 0 <= k < a ==> is_space(#[trigger] s@[k]),
            a < len ==> !is_space(s@[a as int]),
        decreases len - a,
    {
        if a >= len {
            break;
        }
        let c = s.get_char(a);
        if !(c == ' ' || c == '\t' || c == '\n' || c == '\r') {
            break;
        }
        a += 1;
    }
    proof {
        lemma_first_non_space(s@, a as int);
    }
    if a == len {
        proof {
            lemma_last_non_space_end(s@, 0);
            assert(trimmed(s@) =~= Seq::<char>::empty());
        }
        return String::new();
    }
    let mut b: usize = len;
    loop
        invariant_except_break
            len == s@.len(),
            a < len,
            a <= b <= len,
            !is_space(s@[a as int]),
            forall|k: int| b <= k < len ==> is_space(#[trigger] s@[k]),
        ensures
            len == s@.len(),
            a <= b <= len,
            forall|k: int| b <= k < len ==> is_space(#[trigger] s@[k]),
            b > 0 ==> !is_space(s@[b - 1]),
        decreases b,
    {
        if b <= a {
            proof {
                assert(is_space(s@[a as int]));
            }
            break;
        }
        let c = s.get_char(b - 1);
        if !(c == ' ' || c == '\t' || c == '\n' || c == '\r') {
            break;
        }
        b -= 1;
    }
    proof {
        lemma_last_non_space_end(s@, b as int);
        assert(trimmed(s@) == s@.subrange(a as int, b as int));
    }
    String::from_str(s.substring_char(a, b))
}

proof fn lemma_first_non_space(s: Seq<char>, a: int)
    requires
        0 <= a <= s.len(),
        forall|k: int| 0 <= k < a ==> is_space(#[trigger] s[k]),
        a < s.len() ==> !is_space(s[a]),
    ensures
        first_non_space(s) == if a < s.len() {
            a
        } else {
            s.len() as int
        },
    decreases s.len(),
{
    if s.len() == 0 {
    } else if !is_space(s[0]) {
    } else {
        lemma_first_non_space(s.subrange(1, s.len() as int), a - 1);
    }
}

proof fn lemma_last_non_space_end(s: Seq<char>, b: int)
    requires
        0 <= b <= s.len(),
        forall|k: int| b <= k < s.len() ==> is_space(#[trigger] s[k]),
        b > 0 ==> !is_space(s[b - 1]),
    ensures
        last_non_space_end(s) == b,
    decreases s.len(),
{
    if s.len() == 0 {
    } else if !is_space(s[s.len() - 1]) {
    } else {
        let s2 = s.subrange(0, s.len() - 1);
        assert(forall|k: int| b <= k < s2.len() ==> is_space(#[trigger] s2[k]));
        lemma_last_non_space_end(s2, b);
    }
}

/// The one-character string for an ASCII lower-case letter produced by folding.
fn lower_letter_str(c: char) -> (r: &'static str)
    requires
        'A' <= c && c <= 'Z',
    ensures
        r@ =~= seq![lower_char(c)],
{
    let r: &'static str = if c == 'A' { "a" } else if c == 'B' { "b" }
    else if c == 'C' { "c" } else if c == 'D' { "d" } else if c == 'E' { "e" }
    else if c == 'F' { "f" } else if c == 'G' { "g" } else if c == 'H' { "h" }
    else if c == 'I' { "i" } else if c == 'J' { "j" } else if c == 'K' { "k" }
    else if c == 'L' { "l" } else if c == 'M' { "m" } else if c == 'N' { "n" }
    else if c == 'O' { "o" } else if c == 'P' { "p" } else if c == 'Q' { "q" }
    else if c == 'R' { "r" } else if c == 'S' { "s" } else if c == 'T' { "t" }
    else if c == 'U' { "u" } else if c == 'V' { "v" } else if c == 'W' { "w" }
    else if c == 'X' { "x" } else if c == 'Y' { "y" } else { "z" };
    proof {
        reveal_strlit("a"); reveal_strlit("b"); reveal_strlit("c");
        reveal_strlit("d"); reveal_strlit("e"); reveal_strlit("f");
        reveal_strlit("g"); reveal_strlit("h"); reveal_strlit("i");
        reveal_strlit("j"); reveal_strlit("k"); reveal_strlit("l");
        reveal_strlit("m"); reveal_strlit("n"); reveal_strlit("o");
        reveal_strlit("p"); reveal_strlit("q"); reveal_strlit("r");
        reveal_strlit("s"); reveal_strlit("t"); reveal_strlit("u");
        reveal_strlit("v"); reveal_strlit("w"); reveal_strlit("x");
        reveal_strlit("y"); reveal_strlit("z");
    }
    r
}

/// ASCII-fold `s` to lower case.
pub fn lower_ascii(s: &str) -> (r: String)
    ensures
        r@ == lower(s@),
{
    let len = s.unicode_len();
    let mut out = String::new();
    let mut i: usize = 0;
    while i < len
        invariant
            len == s@.len(),
            i <= len,
            out@ == lower(s@.subrange(0, i as int)),
        decreases len - i,
    {
        let c = s.get_char(i);
        if 'A' <= c && c <= 'Z' {
            out.append(lower_letter_str(c));
        } else {
            out.append(s.substring_char(i, i + 1));
        }
        proof {
            assert(s@.subrange(0, i + 1) =~= s@.subrange(0, i as int) + seq![s@[i as int]]);
            assert(lower(s@.subrange(0, i + 1)) =~= lower(s@.subrange(0, i as int))
                + seq![lower_char(s@[i as int])]);
            if !('A' <= c && c <= 'Z') {
                assert(s@.subrange(i as int, i + 1) =~= seq![s@[i as int]]);
                assert(lower_char(c) == c);
            }
        }
        i += 1;
    }
    proof {
        assert(s@.subrange(0, len as int) =~= s@);
    }
    out
}

/// The one-character string for a decimal digit value.
fn digit_str(d: u64) -> (r: &'static str)
    requires
        d < 10,
    ensures
        r@ =~= seq![digit_char(d as int)],
{
    let r: &'static str = if d == 0 { "0" } else if d == 1 { "1" }
    else if d == 2 { "2" } else if d == 3 { "3" } else if d == 4 { "4" }
    else if d == 5 { "5" } else if d == 6 { "6" } else if d == 7 { "7" }
    else if d == 8 { "8" } else { "9" };
    proof {
        reveal_strlit("0"); reveal_strlit("1"); reveal_strlit("2");
        reveal_strlit("3"); reveal_strlit("4"); reveal_strlit("5");
        reveal_strlit("6"); reveal_strlit("7"); reveal_strlit("8");
        reveal_strlit("9");
    }
    r
}

/// Decimal rendering of an unsigned integer.
pub fn u64_str(n: u64) -> (r: String)
    ensures
        r@ == dec_nat(n as nat),
    decreases n,
{
    if n < 10 {
        String::from_str(digit_str(n))
    } else {
        let mut head = u64_str(n / 10);
        head.append(digit_str(n % 10));
        head
    }
}

/// Decimal rendering of a signed integer, `-` first when negative.
pub fn i64_str(n: i64) -> (r: String)
    ensures
        r@ == dec_int(n as int),
{
    if n >= 0 {
        u64_str(n as u64)
    } else {
        let mag: u64 = ((-(n + 1)) as u64) + 1;
        proof {
            assert(mag as int == -(n as int));
        }
        let mut out = String::from_str("-");
        out.append(u64_str(mag).as_str());
        proof {
            reveal_strlit("-");
            assert(out@ =~= seq!['-'] + dec_nat(mag as nat));
        }
        out
    }
}

/// Decimal rendering of an `i32`.
pub fn i32_str(n: i32) -> (r: String)
    ensures
        r@ == dec_int(n as int),
{
    i64_str(n as i64)
}

/// Decimal rendering of a `u32`.
pub fn u32_str(n: u32) -> (r: String)
    ensures
        r@ == dec_nat(n as nat),
{
    u64_str(n as u64)
}

} // verus!
