//! A recursive-descent parser from JSON text to [`Json`] values, verified
//! against the spec-level grammar given by [`spec_document`]: each executable
//! function returns exactly what its specification function denotes.
//!
//! The grammar accepted is the JSON subset this crate emits: `null`, `true`,
//! `false`, 64-bit signed integers, strings (with the standard escapes, and
//! `\uXXXX` for ASCII code points), arrays and objects. Fractions, exponents,
//! and `\uXXXX` escapes at or above U+0080 are rejected, as is any text with
//! trailing garbage.

use vstd::prelude::*;

use vstd::arithmetic::div_mod::{lemma_div_is_ordered, lemma_div_multiples_vanish};

use crate::json::{entries_rest, entries_text, entry_text, esc_char, esc_seq, hex_char,
    items_rest, items_text, json_text, lemma_view_arr, lemma_view_obj, Json, JsonV};
use crate::text::{dec_int, dec_nat, is_space};

verus! {

/// The first position at or after `i` holding no whitespace.
pub open spec fn ws_end(s: Seq<char>, i: int) -> int
    decreases s.len() - i,
{
    if 0 <= i < s.len() && is_space(s[i]) {
        ws_end(s, i + 1)
    } else {
        i
    }
}

/// The value of a hexadecimal digit character, if it is one.
pub open spec fn spec_hex(c: char) -> Option<int> {
    if '0' <= c && c <= '9' {
        Some(c as int - 48)
    } else if 'a' <= c && c <= 'f' {
        Some(c as int - 87)
    } else if 'A' <= c && c <= 'F' {
        Some(c as int - 55)
    } else {
        None
    }
}

/// The rest of a string literal from `j`: plain characters and escapes
/// appended to `acc`, up to and past the closing quote.
pub open spec fn spec_string_body(s: Seq<char>, j: int, acc: Seq<char>) -> Option<
    (Seq<char>, int),
>
    decreases s.len() - j,
{
    if j < 0 || j >= s.len() {
        None
    } else if s[j] == '"' {
        Some((acc, j + 1))
    } else if s[j] == '\\' {
        if j + 1 >= s.len() {
            None
        } else {
            let e = s[j + 1];
            if e == '"' {
                spec_string_body(s, j + 2, acc.push('"'))
            } else if e == '\\' {
                spec_string_body(s, j + 2, acc.push('\\'))
            } else if e == '/' {
                spec_string_body(s, j + 2, acc.push('/'))
            } else if e == 'b' {
                spec_string_body(s, j + 2, acc.push('\u{8}'))
            } else if e == 'f' {
                spec_string_body(s, j + 2, acc.push('\u{c}'))
            } else if e == 'n' {
                spec_string_body(s, j + 2, acc.push('\n'))
            } else if e == 'r' {
                spec_string_body(s, j + 2, acc.push('\r'))
            } else if e == 't' {
                spec_string_body(s, j + 2, acc.push('\t'))
            } else if e == 'u' {
                if s.len() - j < 6 {
                    None
                } else {
                    match (spec_hex(s[j + 2]), spec_hex(s[j + 3]), spec_hex(s[j + 4]), spec_hex(
                        s[j + 5],
                    )) {
                        (Some(a), Some(b), Some(c), Some(d)) => {
                            let code = a * 4096 + b * 256 + c * 16 + d;
                            if code >= 128 {
                                None
                            } else {
                                spec_string_body(s, j + 6, acc.push(((code as u8) as char)))
                            }
                        },
                        _ => None,
                    }
                }
            } else {
                None
            }
        }
    } else {
        spec_string_body(s, j + 1, acc.push(s[j]))
    }
}

/// A string literal starting with its opening quote at `i`.
pub open spec fn spec_string(s: Seq<char>, i: int) -> Option<(Seq<char>, int)> {
    if 0 <= i < s.len() && s[i] == '"' {
        spec_string_body(s, i + 1, Seq::empty())
    } else {
        None
    }
}

/// Digits from `j` accumulated onto `value`, stopping before the first
/// non-digit; values beyond the 64-bit range are rejected.
pub open spec fn spec_digits(s: Seq<char>, j: int, value: int) -> Option<(int, int)>
    decreases s.len() - j,
{
    if j < 0 || j >= s.len() || !('0' <= s[j] && s[j] <= '9') {
        Some((value, j))
    } else {
        let d = s[j] as int - 48;
        if value > (0x7fff_ffff_ffff_ffff - d) / 10 {
            None
        } else {
            spec_digits(s, j + 1, value * 10 + d)
        }
    }
}

/// An optionally signed decimal integer at `i`; a following fraction or
/// exponent marks a number this model does not hold.
pub open spec fn spec_number(s: Seq<char>, i: int) -> Option<(int, int)> {
    let neg = 0 <= i < s.len() && s[i] == '-';
    let j0 = if neg {
        i + 1
    } else {
        i
    };
    if !(0 <= j0 < s.len() && '0' <= s[j0] && s[j0] <= '9') {
        None
    } else {
        match spec_digits(s, j0, 0) {
            Some((value, j)) => if j < s.len() && (s[j] == '.' || s[j] == 'e' || s[j] == 'E') {
                None
            } else {
                Some(
                    (
                        if neg {
                            -value
                        } else {
                            value
                        },
                        j,
                    ),
                )
            },
            None => None,
        }
    }
}

/// The word `w` occurs at position `i`.
pub open spec fn lit_at(s: Seq<char>, i: int, w: Seq<char>) -> bool {
    0 <= i && i + w.len() <= s.len() && s.subrange(i, i + w.len() as int) == w
}

/// One JSON value starting exactly at `i`.
pub open spec fn spec_value(s: Seq<char>, i: int) -> Option<(JsonV, int)>
    decreases s.len() - i, 0int,
{
    if i < 0 || i >= s.len() {
        None
    } else {
        let c = s[i];
        if c == 'n' {
            if lit_at(s, i, "null"@) {
                Some((JsonV::Null, i + 4))
            } else {
                None
            }
        } else if c == 't' {
            if lit_at(s, i, "true"@) {
                Some((JsonV::Bool(true), i + 4))
            } else {
                None
            }
        } else if c == 'f' {
            if lit_at(s, i, "false"@) {
                Some((JsonV::Bool(false), i + 5))
            } else {
                None
            }
        } else if c == '"' {
            match spec_string(s, i) {
                Some((t, j)) => Some((JsonV::Str(t), j)),
                None => None,
            }
        } else if c == '-' || ('0' <= c && c <= '9') {
            match spec_number(s, i) {
                Some((n, j)) => Some((JsonV::Int(n), j)),
                None => None,
            }
        } else if c == '[' {
            let j = ws_end(s, i + 1);
            if j < s.len() && s[j] == ']' {
                Some((JsonV::Arr(Seq::empty()), j + 1))
            } else if j <= i || j > s.len() {
                None
            } else {
                spec_elems(s, j, Seq::empty())
            }
        } else if c == '{' {
            let j = ws_end(s, i + 1);
            if j < s.len() && s[j] == '}' {
                Some((JsonV::Obj(Seq::empty()), j + 1))
            } else if j <= i || j > s.len() {
                None
            } else {
                spec_members(s, j, Seq::empty())
            }
        } else {
            None
        }
    }
}

/// The elements of an array from the start of one element at `j`.
pub open spec fn spec_elems(s: Seq<char>, j: int, acc: Seq<JsonV>) -> Option<(JsonV, int)>
    decreases s.len() - j, 1int,
{
    if j < 0 || j > s.len() {
        None
    } else {
        match spec_value(s, j) {
            None => None,
            Some((v, j2)) => if j2 <= j || j2 > s.len() {
                None
            } else {
                let j3 = ws_end(s, j2);
                if j3 >= s.len() {
                    None
                } else if s[j3] == ',' {
                    let j4 = ws_end(s, j3 + 1);
                    if j4 <= j || j4 > s.len() {
                        None
                    } else {
                        spec_elems(s, j4, acc.push(v))
                    }
                } else if s[j3] == ']' {
                    Some((JsonV::Arr(acc.push(v)), j3 + 1))
                } else {
                    None
                }
            },
        }
    }
}

/// The members of an object from the start of one key at `j`.
pub open spec fn spec_members(s: Seq<char>, j: int, acc: Seq<(Seq<char>, JsonV)>) -> Option<
    (JsonV, int),
>
    decreases s.len() - j, 1int,
{
    if j < 0 || j > s.len() {
        None
    } else {
        match spec_string(s, j) {
            None => None,
            Some((key, j2)) => if j2 <= j || j2 > s.len() {
                None
            } else {
                let j3 = ws_end(s, j2);
                if j3 >= s.len() || s[j3] != ':' {
                    None
                } else {
                    let j4 = ws_end(s, j3 + 1);
                    if j4 <= j || j4 > s.len() {
                        None
                    } else {
                        match spec_value(s, j4) {
                            None => None,
                            Some((v, j5)) => if j5 <= j4 || j5 > s.len() {
                                None
                            } else {
                                let j6 = ws_end(s, j5);
                                if j6 >= s.len() {
                                    None
                                } else if s[j6] == ',' {
                                    let j7 = ws_end(s, j6 + 1);
                                    if j7 <= j || j7 > s.len() {
                                        None
                                    } else {
                                        spec_members(s, j7, acc.push((key, v)))
                                    }
                                } else if s[j6] == '}' {
                                    Some((JsonV::Obj(acc.push((key, v))), j6 + 1))
                                } else {
                                    None
                                }
                            },
                        }
                    }
                }
            },
        }
    }
}

/// A complete document: one value, optionally surrounded by whitespace and
/// nothing else.
pub open spec fn spec_document(s: Seq<char>) -> Option<JsonV> {
    match spec_value(s, ws_end(s, 0)) {
        Some((v, j)) => if ws_end(s, j) == s.len() {
            Some(v)
        } else {
            None
        },
        None => None,
    }
}

/// Relies on `String::from_utf8`: a sequence of ASCII bytes is valid UTF-8
/// and decodes to the characters with the same code points.
#[verifier::external_body]
fn ascii_to_string(bytes: Vec<u8>) -> (r: String)
    requires
        forall|i: int| 0 <= i < bytes@.len() ==> bytes@[i] < 128,
    ensures
        r@.len() == bytes@.len(),
        forall|i: int| 0 <= i < bytes@.len() ==> r@[i] == bytes@[i] as char,
{
    String::from_utf8(bytes).unwrap_or_default()
}

/// The one-character string holding an ASCII code point.
fn ascii_char_string(code: u8) -> (r: String)
    requires
        code < 128,
    ensures
        r@ =~= seq![code as char],
{
    let mut bytes: Vec<u8> = Vec::new();
    bytes.push(code);
    ascii_to_string(bytes)
}

/// First index at or after `i` holding a non-whitespace character.
fn skip_ws(s: &str, i: usize) -> (r: usize)
    requires
        i <= s@.len(),
    ensures
        i <= r <= s@.len(),
        r < s@.len() ==> !is_space(s@[r as int]),
        r as int == ws_end(s@, i as int),
{
    let len = s.unicode_len();
    let mut j = i;
    loop
        invariant_except_break
            i <= j <= len,
            len == s@.len(),
            ws_end(s@, i as int) == ws_end(s@, j as int),
        ensures
            i <= j <= len,
            j < len ==> !is_space(s@[j as int]),
            ws_end(s@, i as int) == j,
        decreases len - j,
    {
        if j >= len {
            break;
        }
        let c = s.get_char(j);
        if !(c == ' ' || c == '\t' || c == '\n' || c == '\r') {
            break;
        }
        j += 1;
    }
    j
}

/// The literal `word` occurs in `s` starting at `i`.
fn has_lit_at(s: &str, i: usize, word: &str) -> (r: bool)
    requires
        i <= s@.len(),
    ensures
        r == lit_at(s@, i as int, word@),
{
    let len = s.unicode_len();
    let wlen = word.unicode_len();
    if wlen > len - i {
        return false;
    }
    let mut k: usize = 0;
    while k < wlen
        invariant
            len == s@.len(),
            wlen == word@.len(),
            i + wlen <= len,
            k <= wlen,
            forall|n: int| 0 <= n < k ==> s@[i + n] == word@[n],
        decreases wlen - k,
    {
        if s.get_char(i + k) != word.get_char(k) {
            proof {
                assert(s@.subrange(i as int, i + wlen as int)[k as int] != word@[k as int]);
            }
            return false;
        }
        k += 1;
    }
    proof {
        assert(s@.subrange(i as int, i + wlen as int) =~= word@);
    }
    true
}

/// The numeric value of a hexadecimal digit character, if it is one.
fn hex_val(c: char) -> (r: Option<u32>)
    ensures
        match r {
            Some(v) => v < 16 && spec_hex(c) == Some(v as int),
            None => spec_hex(c) is None,
        },
{
    if '0' <= c && c <= '9' {
        Some((c as u32) - ('0' as u32))
    } else if 'a' <= c && c <= 'f' {
        Some((c as u32) - ('a' as u32) + 10)
    } else if 'A' <= c && c <= 'F' {
        Some((c as u32) - ('A' as u32) + 10)
    } else {
        None
    }
}

/// Parse a string literal starting at the opening quote at `i`.
fn parse_string(s: &str, i: usize) -> (r: Option<(String, usize)>)
    requires
        i < s@.len(),
    ensures
        match r {
            Some(p) => i < p.1 <= s@.len() && spec_string(s@, i as int) == Some(
                (p.0@, p.1 as int),
            ),
            None => spec_string(s@, i as int) is None,
        },
{
    let len = s.unicode_len();
    if s.get_char(i) != '"' {
        return None;
    }
    let mut out = String::new();
    let mut j = i + 1;
    loop
        invariant
            i < j <= len,
            len == s@.len(),
            spec_string(s@, i as int) == spec_string_body(s@, j as int, out@),
        decreases len - j,
    {
        if j >= len {
            return None;
        }
        let c = s.get_char(j);
        if c == '"' {
            return Some((out, j + 1));
        }
        if c == '\\' {
            if j + 1 >= len {
                return None;
            }
            let e = s.get_char(j + 1);
            if e == '"' {
                let ghost pre = out@;
                out.append("\"");
                proof {
                    reveal_strlit("\"");
                    assert(out@ =~= pre.push('"'));
                }
                j += 2;
            } else if e == '\\' {
                let ghost pre = out@;
                out.append("\\");
                proof {
                    reveal_strlit("\\");
                    assert(out@ =~= pre.push('\\'));
                }
                j += 2;
            } else if e == '/' {
                let ghost pre = out@;
                out.append("/");
                proof {
                    reveal_strlit("/");
                    assert(out@ =~= pre.push('/'));
                }
                j += 2;
            } else if e == 'b' {
                let ghost pre = out@;
                out.append("\u{8}");
                proof {
                    reveal_strlit("\u{8}");
                    assert(out@ =~= pre.push('\u{8}'));
                }
                j += 2;
            } else if e == 'f' {
                let ghost pre = out@;
                out.append("\u{c}");
                proof {
                    reveal_strlit("\u{c}");
                    assert(out@ =~= pre.push('\u{c}'));
                }
                j += 2;
            } else if e == 'n' {
                let ghost pre = out@;
                out.append("\n");
                proof {
                    reveal_strlit("\n");
                    assert(out@ =~= pre.push('\n'));
                }
                j += 2;
            } else if e == 'r' {
                let ghost pre = out@;
                out.append("\r");
                proof {
                    reveal_strlit("\r");
                    assert(out@ =~= pre.push('\r'));
                }
                j += 2;
            } else if e == 't' {
                let ghost pre = out@;
                out.append("\t");
                proof {
                    reveal_strlit("\t");
                    assert(out@ =~= pre.push('\t'));
                }
                j += 2;
            } else if e == 'u' {
                if len - j < 6 {
                    return None;
                }
                let h1 = hex_val(s.get_char(j + 2));
                let h2 = hex_val(s.get_char(j + 3));
                let h3 = hex_val(s.get_char(j + 4));
                let h4 = hex_val(s.get_char(j + 5));
                match (h1, h2, h3, h4) {
                    (Some(a), Some(b), Some(c2), Some(d)) => {
                        let code = a * 4096 + b * 256 + c2 * 16 + d;
                        if code >= 128 {
                            return None;
                        }
                        let ghost pre = out@;
                        let piece = ascii_char_string(code as u8);
                        out.append(piece.as_str());
                        proof {
                            assert(out@ =~= pre.push((code as u8) as char));
                        }
                        j += 6;
                    },
                    _ => {
                        return None;
                    },
                }
            } else {
                return None;
            }
        } else {
            let ghost pre = out@;
            out.append(s.substring_char(j, j + 1));
            proof {
                assert(s@.subrange(j as int, j + 1) =~= seq![s@[j as int]]);
                assert(out@ =~= pre.push(s@[j as int]));
            }
            j += 1;
        }
    }
}

/// Parse an optionally signed decimal integer starting at `i`.
fn parse_number(s: &str, i: usize) -> (r: Option<(i64, usize)>)
    requires
        i < s@.len(),
    ensures
        match r {
            Some(p) => i < p.1 <= s@.len() && spec_number(s@, i as int) == Some(
                (p.0 as int, p.1 as int),
            ),
            None => spec_number(s@, i as int) is None,
        },
{
    let len = s.unicode_len();
    let mut j = i;
    let mut neg = false;
    if s.get_char(j) == '-' {
        neg = true;
        j += 1;
    }
    if j >= len {
        return None;
    }
    let first = s.get_char(j);
    if !('0' <= first && first <= '9') {
        return None;
    }
    let ghost j0 = j as int;
    let mut value: i64 = 0;
    loop
        invariant_except_break
            i <= j0 <= j <= len,
            i < len,
            len == s@.len(),
            neg == (s@[i as int] == '-'),
            j0 == if neg {
                i + 1
            } else {
                i as int
            },
            j0 < len && '0' <= s@[j0] && s@[j0] <= '9',
            value >= 0,
            spec_digits(s@, j0, 0) == spec_digits(s@, j as int, value as int),
        ensures
            i <= j0 <= j <= len,
            i < len,
            neg == (s@[i as int] == '-'),
            j0 == if neg {
                i + 1
            } else {
                i as int
            },
            j0 < len && '0' <= s@[j0] && s@[j0] <= '9',
            j0 < j,
            value >= 0,
            spec_digits(s@, j0, 0) == Some((value as int, j as int)),
        decreases len - j,
    {
        if j >= len {
            break;
        }
        let c = s.get_char(j);
        if !('0' <= c && c <= '9') {
            break;
        }
        let d = ((c as u32) - ('0' as u32)) as i64;
        if value > (i64::MAX - d) / 10 {
            return None;
        }
        value = value * 10 + d;
        j += 1;
    }
    if j < len {
        let c = s.get_char(j);
        if c == '.' || c == 'e' || c == 'E' {
            return None;
        }
    }
    if neg {
        Some((-value, j))
    } else {
        Some((value, j))
    }
}

/// Parse one JSON value starting exactly at `i`.
fn parse_value(s: &str, i: usize) -> (r: Option<(Json, usize)>)
    requires
        i <= s@.len(),
    ensures
        match r {
            Some(p) => i < p.1 <= s@.len() && spec_value(s@, i as int) == Some(
                (p.0@, p.1 as int),
            ),
            None => spec_value(s@, i as int) is None,
        },
    decreases s@.len() - i,
{
    let len = s.unicode_len();
    if i >= len {
        return None;
    }
    let c = s.get_char(i);
    if c == 'n' {
        proof {
            reveal_strlit("null");
        }
        if has_lit_at(s, i, "null") {
            Some((Json::Null, i + 4))
        } else {
            None
        }
    } else if c == 't' {
        proof {
            reveal_strlit("true");
        }
        if has_lit_at(s, i, "true") {
            Some((Json::Bool(true), i + 4))
        } else {
            None
        }
    } else if c == 'f' {
        proof {
            reveal_strlit("false");
        }
        if has_lit_at(s, i, "false") {
            Some((Json::Bool(false), i + 5))
        } else {
            None
        }
    } else if c == '"' {
        match parse_string(s, i) {
            Some((text, j)) => Some((Json::Str(text), j)),
            None => None,
        }
    } else if c == '-' || ('0' <= c && c <= '9') {
        match parse_number(s, i) {
            Some((n, j)) => Some((Json::Int(n), j)),
            None => None,
        }
    } else if c == '[' {
        let mut items: Vec<Json> = Vec::new();
        let mut j = skip_ws(s, i + 1);
        if j < len && s.get_char(j) == ']' {
            let r = Json::Arr(items);
            proof {
                lemma_view_arr(r->Arr_0);
                assert(r@ == JsonV::Arr(Seq::<JsonV>::empty())) by {
                    assert(r@->Arr_0 =~= Seq::<JsonV>::empty());
                }
            }
            return Some((r, j + 1));
        }
        proof {
            assert(Seq::new(items@.len(), |k: int| items@[k]@) =~= Seq::<JsonV>::empty());
        }
        loop
            invariant
                i < j <= len,
                len == s@.len(),
                spec_value(s@, i as int) == spec_elems(
                    s@,
                    j as int,
                    Seq::new(items@.len(), |k: int| items@[k]@),
                ),
            decreases len - j,
        {
            let ghost iv = Seq::new(items@.len(), |k: int| items@[k]@);
            match parse_value(s, j) {
                Some((item, j2)) => {
                    let ghost itemv = item@;
                    items.push(item);
                    proof {
                        assert(Seq::new(items@.len(), |k: int| items@[k]@) =~= iv.push(
                            itemv,
                        ));
                    }
                    let j3 = skip_ws(s, j2);
                    if j3 >= len {
                        return None;
                    }
                    let sep = s.get_char(j3);
                    if sep == ',' {
                        j = skip_ws(s, j3 + 1);
                    } else if sep == ']' {
                        let r = Json::Arr(items);
                        proof {
                            lemma_view_arr(r->Arr_0);
                            assert(r@ == JsonV::Arr(iv.push(itemv))) by {
                                assert(r@->Arr_0 =~= iv.push(itemv));
                            }
                        }
                        return Some((r, j3 + 1));
                    } else {
                        return None;
                    }
                },
                None => {
                    return None;
                },
            }
        }
    } else if c == '{' {
        let mut entries: Vec<(String, Json)> = Vec::new();
        let mut j = skip_ws(s, i + 1);
        if j < len && s.get_char(j) == '}' {
            let r = Json::Obj(entries);
            proof {
                lemma_view_obj(r->Obj_0);
                assert(r@ == JsonV::Obj(Seq::<(Seq<char>, JsonV)>::empty())) by {
                    assert(r@->Obj_0 =~= Seq::<(Seq<char>, JsonV)>::empty());
                }
            }
            return Some((r, j + 1));
        }
        proof {
            assert(Seq::new(entries@.len(), |k: int| (entries@[k].0@, entries@[k].1@))
                =~= Seq::<(Seq<char>, JsonV)>::empty());
        }
        loop
            invariant
                i < j <= len,
                len == s@.len(),
                spec_value(s@, i as int) == spec_members(
                    s@,
                    j as int,
                    Seq::new(entries@.len(), |k: int| (entries@[k].0@, entries@[k].1@)),
                ),
            decreases len - j,
        {
            let ghost ev = Seq::new(entries@.len(), |k: int| (entries@[k].0@, entries@[k].1@));
            if j >= len {
                return None;
            }
            match parse_string(s, j) {
                Some((key, j2)) => {
                    let j3 = skip_ws(s, j2);
                    if j3 >= len || s.get_char(j3) != ':' {
                        return None;
                    }
                    let j4 = skip_ws(s, j3 + 1);
                    match parse_value(s, j4) {
                        Some((value, j5)) => {
                            let ghost keyv = key@;
                            let ghost valv = value@;
                            entries.push((key, value));
                            proof {
                                assert(Seq::new(
                                    entries@.len(),
                                    |k: int| (entries@[k].0@, entries@[k].1@),
                                ) =~= ev.push((keyv, valv)));
                            }
                            let j6 = skip_ws(s, j5);
                            if j6 >= len {
                                return None;
                            }
                            let sep = s.get_char(j6);
                            if sep == ',' {
                                j = skip_ws(s, j6 + 1);
                            } else if sep == '}' {
                                let r = Json::Obj(entries);
                                proof {
                                    lemma_view_obj(r->Obj_0);
                                    assert(r@ == JsonV::Obj(ev.push((keyv, valv)))) by {
                                        assert(r@->Obj_0 =~= ev.push((keyv, valv)));
                                    }
                                }
                                return Some((r, j6 + 1));
                            } else {
                                return None;
                            }
                        },
                        None => {
                            return None;
                        },
                    }
                },
                None => {
                    return None;
                },
            }
        }
    } else {
        None
    }
}

/// Parse a complete JSON document: exactly the values [`spec_document`]
/// denotes are accepted, and the result is that value.
pub fn parse_json(s: &str) -> (r: Option<Json>)
    ensures
        match r {
            Some(v) => spec_document(s@) == Some(v@),
            None => spec_document(s@) is None,
        },
{
    let start = skip_ws(s, 0);
    match parse_value(s, start) {
        Some((v, j)) => {
            let end = skip_ws(s, j);
            if end == s.unicode_len() {
                Some(v)
            } else {
                None
            }
        },
        None => None,
    }
}


/// A separator the serializer can place after a value.
pub open spec fn sep_ok(c: char) -> bool {
    c == ',' || c == ']' || c == '}'
}

/// What may follow a complete value without changing how it reads: a
/// separator or whitespace.
pub open spec fn after_value_ok(c: char) -> bool {
    sep_ok(c) || is_space(c)
}

/// Every character of a decimal rendering is a digit.
proof fn lemma_dec_nat_digits(n: nat)
    ensures
        dec_nat(n).len() >= 1,
        forall|k: int| 0 <= k < dec_nat(n).len() ==> '0' <= #[trigger] dec_nat(n)[k]
            && dec_nat(n)[k] <= '9',
    decreases n,
{
    if n >= 10 {
        lemma_dec_nat_digits(n / 10);
        assert forall|k: int| 0 <= k < dec_nat(n).len() implies '0' <= #[trigger] dec_nat(
            n,
        )[k] && dec_nat(n)[k] <= '9' by {
            if k < dec_nat(n / 10).len() {
                assert(dec_nat(n)[k] == dec_nat(n / 10)[k]);
            }
        }
    }
}

/// The value of a digit run folded onto an accumulator, leftmost first.
spec fn fold_digits(r: Seq<char>, acc: int) -> int
    decreases r.len(),
{
    if r.len() == 0 {
        acc
    } else {
        fold_digits(r.subrange(1, r.len() as int), acc * 10 + (r[0] as int - 48))
    }
}

proof fn lemma_fold_ge(r: Seq<char>, acc: int)
    requires
        0 <= acc,
        forall|k: int| 0 <= k < r.len() ==> '0' <= #[trigger] r[k] && r[k] <= '9',
    ensures
        fold_digits(r, acc) >= acc,
    decreases r.len(),
{
    if r.len() > 0 {
        let r2 = r.subrange(1, r.len() as int);
        assert(forall|k: int| 0 <= k < r2.len() ==> '0' <= #[trigger] r2[k] && r2[k] <= '9');
        lemma_fold_ge(r2, acc * 10 + (r[0] as int - 48));
    }
}

proof fn lemma_fold_append(r: Seq<char>, d: char, acc: int)
    ensures
        fold_digits(r.push(d), acc) == fold_digits(r, acc) * 10 + (d as int - 48),
    decreases r.len(),
{
    let p = r.push(d);
    if r.len() == 0 {
        assert(p.subrange(1, p.len() as int) =~= Seq::<char>::empty());
        assert(p[0] == d);
        assert(fold_digits(p, acc) == fold_digits(
            p.subrange(1, p.len() as int),
            acc * 10 + (d as int - 48),
        ));
        assert(fold_digits(p.subrange(1, p.len() as int), acc * 10 + (d as int - 48)) == acc
            * 10 + (d as int - 48));
        assert(fold_digits(r, acc) == acc);
    } else {
        assert(p[0] == r[0]);
        assert(p.subrange(1, p.len() as int) =~= r.subrange(1, r.len() as int).push(d));
        assert(fold_digits(p, acc) == fold_digits(
            p.subrange(1, p.len() as int),
            acc * 10 + (r[0] as int - 48),
        ));
        lemma_fold_append(r.subrange(1, r.len() as int), d, acc * 10 + (r[0] as int - 48));
    }
}

proof fn lemma_fold_dec_nat(n: nat)
    ensures
        fold_digits(dec_nat(n), 0) == n,
    decreases n,
{
    if n < 10 {
        let r = dec_nat(n);
        assert(r =~= seq![crate::text::digit_char(n as int)]);
        assert(r[0] as int - 48 == n);
        assert(r.subrange(1, r.len() as int) =~= Seq::<char>::empty());
        assert(fold_digits(r, 0) == fold_digits(r.subrange(1, r.len() as int), r[0] as int
            - 48));
        assert(fold_digits(r.subrange(1, r.len() as int), r[0] as int - 48) == r[0] as int
            - 48);
    } else {
        lemma_fold_dec_nat(n / 10);
        assert(dec_nat(n) =~= dec_nat(n / 10).push(crate::text::digit_char((n % 10) as int)));
        lemma_fold_append(dec_nat(n / 10), crate::text::digit_char((n % 10) as int), 0);
        assert(crate::text::digit_char((n % 10) as int) as int - 48 == n % 10);
        assert((n / 10) * 10 + n % 10 == n) by {
            vstd::arithmetic::div_mod::lemma_fundamental_div_mod(n as int, 10);
        }
    }
}

/// A digit run with a non-digit (or the end) after it is consumed whole.
proof fn lemma_digits_region(s: Seq<char>, i: int, r: Seq<char>, acc: int)
    requires
        0 <= i,
        i + r.len() <= s.len(),
        s.subrange(i, i + r.len() as int) == r,
        forall|k: int| 0 <= k < r.len() ==> '0' <= #[trigger] r[k] && r[k] <= '9',
        0 <= acc,
        fold_digits(r, acc) <= 0x7fff_ffff_ffff_ffff,
        i + r.len() == s.len() || !('0' <= s[i + r.len()] && s[i + r.len()] <= '9'),
    ensures
        spec_digits(s, i, acc) == Some((fold_digits(r, acc), i + r.len())),
    decreases r.len(),
{
    if r.len() == 0 {
    } else {
        assert(s[i] == s.subrange(i, i + r.len() as int)[0]);
        let d = r[0] as int - 48;
        let r2 = r.subrange(1, r.len() as int);
        assert(forall|k: int| 0 <= k < r2.len() ==> '0' <= #[trigger] r2[k] && r2[k] <= '9');
        lemma_fold_ge(r2, acc * 10 + d);
        // the machine guard passes: the whole value fits
        assert(acc * 10 + d <= 0x7fff_ffff_ffff_ffff);
        lemma_div_is_ordered(acc * 10, 0x7fff_ffff_ffff_ffff - d, 10);
        lemma_div_multiples_vanish(acc, 10);
        assert(acc <= (0x7fff_ffff_ffff_ffff - d) / 10);
        assert(s.subrange(i + 1, i + 1 + r2.len() as int) =~= r2) by {
            assert(forall|k: int| 0 <= k < r2.len() ==> #[trigger] s.subrange(
                i + 1,
                i + 1 + r2.len() as int,
            )[k] == s.subrange(i, i + r.len() as int)[k + 1]);
        }
        lemma_digits_region(s, i + 1, r2, acc * 10 + d);
    }
}

/// A rendered integer in the machine range, with a separator or the end
/// after it, parses back to itself.
proof fn lemma_number_round(n: int, s: Seq<char>, i: int)
    requires
        -0x7fff_ffff_ffff_ffff <= n <= 0x7fff_ffff_ffff_ffff,
        0 <= i,
        i + dec_int(n).len() <= s.len(),
        s.subrange(i, i + dec_int(n).len() as int) == dec_int(n),
        i + dec_int(n).len() == s.len() || after_value_ok(s[i + dec_int(n).len()]),
    ensures
        spec_number(s, i) == Some((n, i + dec_int(n).len())),
{
    let e = i + dec_int(n).len();
    if n >= 0 {
        lemma_dec_nat_digits(n as nat);
        lemma_fold_dec_nat(n as nat);
        assert(s[i] == s.subrange(i, e)[0]);
        lemma_digits_region(s, i, dec_nat(n as nat), 0);
    } else {
        let m = (-n) as nat;
        lemma_dec_nat_digits(m);
        lemma_fold_dec_nat(m);
        assert(s[i] == s.subrange(i, e)[0]);
        assert(s[i] == '-');
        assert(s.subrange(i + 1, i + 1 + dec_nat(m).len() as int) =~= dec_nat(m)) by {
            assert(forall|k: int| 0 <= k < dec_nat(m).len() ==> #[trigger] s.subrange(
                i + 1,
                i + 1 + dec_nat(m).len() as int,
            )[k] == s.subrange(i, e)[k + 1]);
        }
        assert(s[i + 1] == dec_nat(m)[0]);
        lemma_digits_region(s, i + 1, dec_nat(m), 0);
    }
}


proof fn lemma_hex_of_hex_char(d: int)
    requires
        0 <= d < 16,
    ensures
        spec_hex(hex_char(d)) == Some(d),
{
}

/// A rendered string body followed by its closing quote is consumed whole,
/// yielding the original characters.
proof fn lemma_string_body_round(t: Seq<char>, s: Seq<char>, j: int, acc: Seq<char>)
    requires
        0 <= j,
        j + esc_seq(t).len() + 1 <= s.len(),
        s.subrange(j, j + esc_seq(t).len() + 1) == esc_seq(t) + seq!['"'],
    ensures
        spec_string_body(s, j, acc) == Some((acc + t, j + esc_seq(t).len() + 1)),
    decreases t.len(),
{
    let whole = esc_seq(t) + seq!['"'];
    assert(forall|k: int| 0 <= k < whole.len() ==> #[trigger] s[j + k] == whole[k]) by {
        assert(forall|k: int| 0 <= k < whole.len() ==> s[j + k] == #[trigger] s.subrange(
            j,
            j + esc_seq(t).len() + 1,
        )[k]);
    }
    if t.len() == 0 {
        assert(esc_seq(t) =~= Seq::<char>::empty());
        assert(s[j + 0] == '"');
        assert(acc + t =~= acc);
    } else {
        let c = t[0];
        let t2 = t.subrange(1, t.len() as int);
        let ec = esc_char(c);
        assert(esc_seq(t) == ec + esc_seq(t2));
        assert(forall|k: int| 0 <= k < ec.len() ==> #[trigger] whole[k] == ec[k]);
        let j2 = j + ec.len();
        assert forall|k: int| 0 <= k < esc_seq(t2).len() + 1 implies #[trigger] s.subrange(
            j2,
            j + esc_seq(t).len() + 1,
        )[k] == (esc_seq(t2) + seq!['"'])[k] by {
            assert(s[j + (ec.len() + k)] == whole[ec.len() + k]);
            assert(s.subrange(j2, j + esc_seq(t).len() + 1)[k] == s[j2 + k]);
            assert(j2 + k == j + (ec.len() + k));
            assert(whole[ec.len() + k] == (esc_seq(t2) + seq!['"'])[k]);
        }
        assert(s.subrange(j2, j + esc_seq(t).len() + 1) =~= esc_seq(t2) + seq!['"']);
        lemma_string_body_round(t2, s, j2 as int, acc.push(c));
        assert(acc.push(c) + t2 =~= acc + t);
        if c == '"' || c == '\\' || c == '\u{8}' || c == '\u{c}' || c == '\n' || c == '\r'
            || c == '\t' {
            assert(s[j + 0] == '\\');
            assert(s[j + 1] == ec[1]);
        } else if (c as u32) < 32 {
            assert(s[j + 0] == '\\');
            assert(s[j + 1] == 'u');
            assert(s[j + 2] == '0');
            assert(s[j + 3] == '0');
            assert(s[j + 4] == hex_char((c as u32) as int / 16));
            assert(s[j + 5] == hex_char((c as u32) as int % 16));
            assert(spec_hex('0') == Some(0int));
            lemma_hex_of_hex_char((c as u32) as int / 16);
            lemma_hex_of_hex_char((c as u32) as int % 16);
            let code = 0 * 4096 + 0 * 256 + ((c as u32) as int / 16) * 16 + (c as u32) as int
                % 16;
            assert(code == (c as u32) as int) by {
                vstd::arithmetic::div_mod::lemma_fundamental_div_mod((c as u32) as int, 16);
            }
            let cp = ((code as u8) as char);
            assert((code as u8) as u32 == code);
            assert(cp as u32 == (code as u8) as u32);
            assert(cp as u32 == c as u32);
            assert(((cp as u32) as char) == cp) by {
                vstd::utf8::char_u32_cast(cp, cp as u32);
            }
            assert(((c as u32) as char) == c) by {
                vstd::utf8::char_u32_cast(c, c as u32);
            }
            assert(cp == c);
        } else {
            assert(ec =~= seq![c]);
            assert(s[j + 0] == c);
            assert(c != '"' && c != '\\');
        }
    }
}

/// A rendered string literal parses back to its characters.
proof fn lemma_string_round(t: Seq<char>, s: Seq<char>, i: int)
    requires
        0 <= i,
        i + esc_seq(t).len() + 2 <= s.len(),
        s.subrange(i, i + esc_seq(t).len() + 2) == seq!['"'] + esc_seq(t) + seq!['"'],
    ensures
        spec_string(s, i) == Some((t, i + esc_seq(t).len() + 2)),
{
    let whole = seq!['"'] + esc_seq(t) + seq!['"'];
    assert(forall|k: int| 0 <= k < whole.len() ==> #[trigger] s[i + k] == whole[k]) by {
        assert(forall|k: int| 0 <= k < whole.len() ==> s[i + k] == #[trigger] s.subrange(
            i,
            i + esc_seq(t).len() + 2,
        )[k]);
    }
    assert(s[i + 0] == '"');
    assert forall|k: int| 0 <= k < esc_seq(t).len() + 1 implies #[trigger] s.subrange(
        i + 1,
        i + 1 + esc_seq(t).len() + 1,
    )[k] == (esc_seq(t) + seq!['"'])[k] by {
        assert(s[i + (1 + k)] == whole[1 + k]);
        assert(s.subrange(i + 1, i + 1 + esc_seq(t).len() + 1)[k] == s[i + 1 + k]);
        assert(i + 1 + k == i + (1 + k));
        assert(whole[1 + k] == (esc_seq(t) + seq!['"'])[k]);
    }
    assert(s.subrange(i + 1, i + 1 + esc_seq(t).len() + 1) =~= esc_seq(t) + seq!['"']);
    lemma_string_body_round(t, s, i + 1, Seq::empty());
    assert(Seq::<char>::empty() + t =~= t);
}


/// Splitting a matched region at a concatenation boundary.
proof fn lemma_region_shift(s: Seq<char>, i: int, a: Seq<char>, b: Seq<char>)
    requires
        0 <= i,
        i + a.len() + b.len() <= s.len(),
        s.subrange(i, i + a.len() + b.len()) == a + b,
    ensures
        s.subrange(i, i + a.len() as int) == a,
        s.subrange(i + a.len(), i + a.len() + b.len()) == b,
        forall|k: int| 0 <= k < a.len() + b.len() ==> #[trigger] s[i + k] == (a + b)[k],
{
    assert forall|k: int| 0 <= k < a.len() + b.len() implies #[trigger] s[i + k] == (a
        + b)[k] by {
        assert(s[i + k] == s.subrange(i, i + a.len() + b.len())[k]);
    }
    assert forall|k: int| 0 <= k < a.len() implies #[trigger] s.subrange(
        i,
        i + a.len() as int,
    )[k] == a[k] by {
        assert(s.subrange(i, i + a.len() as int)[k] == s[i + k]);
    }
    assert(s.subrange(i, i + a.len() as int) =~= a);
    assert forall|k: int| 0 <= k < b.len() implies #[trigger] s.subrange(
        i + a.len(),
        i + a.len() + b.len(),
    )[k] == b[k] by {
        assert(s.subrange(i + a.len(), i + a.len() + b.len())[k] == s[i + a.len() + k]);
        assert(i + a.len() + k == i + (a.len() + k));
        assert(s[i + (a.len() + k)] == (a + b)[a.len() + k]);
    }
    assert(s.subrange(i + a.len(), i + a.len() + b.len()) =~= b);
}

/// Values whose integers the machine range holds (the renderings the parser
/// re-reads).
pub open spec fn machine_ints(v: JsonV) -> bool
    decreases v, 0int,
{
    match v {
        JsonV::Int(n) => -0x7fff_ffff_ffff_ffff <= n <= 0x7fff_ffff_ffff_ffff,
        JsonV::Arr(items) => machine_items(items),
        JsonV::Obj(entries) => machine_entries(entries),
        _ => true,
    }
}

pub open spec fn machine_items(items: Seq<JsonV>) -> bool
    decreases items, 1int,
{
    items.len() == 0 || (machine_ints(items[0]) && machine_items(
        items.subrange(1, items.len() as int),
    ))
}

pub open spec fn machine_entries(entries: Seq<(Seq<char>, JsonV)>) -> bool
    decreases entries, 1int,
{
    entries.len() == 0 || (machine_ints(entries[0].1) && machine_entries(
        entries.subrange(1, entries.len() as int),
    ))
}

/// A rendering is never empty and never opens with whitespace or a closer.
proof fn lemma_text_first(v: JsonV)
    ensures
        json_text(v).len() >= 1,
        !is_space(json_text(v)[0]),
        json_text(v)[0] != ']',
        json_text(v)[0] != '}',
    decreases v,
{
    reveal_strlit("null");
    reveal_strlit("true");
    reveal_strlit("false");
    match v {
        JsonV::Int(n) => {
            if n >= 0 {
                lemma_dec_nat_digits(n as nat);
            } else {
                lemma_dec_nat_digits((-n) as nat);
            }
        },
        _ => {},
    }
}

/// A rendered value, with a separator or the end after it, parses back to
/// itself. This is the parser half of the round trip with the serializer:
/// the text of [`json_text`] always re-reads as the value it came from.
pub proof fn lemma_parse_of_text(v: JsonV, s: Seq<char>, i: int)
    requires
        machine_ints(v),
        0 <= i,
        i + json_text(v).len() <= s.len(),
        s.subrange(i, i + json_text(v).len() as int) == json_text(v),
        i + json_text(v).len() == s.len() || after_value_ok(s[i + json_text(v).len()]),
    ensures
        spec_value(s, i) == Some((v, i + json_text(v).len())),
    decreases v, 0int,
{
    let tv = json_text(v);
    lemma_text_first(v);
    assert forall|k: int| 0 <= k < tv.len() implies #[trigger] s[i + k] == tv[k] by {
        assert(s[i + k] == s.subrange(i, i + tv.len() as int)[k]);
    }
    assert(s[i + 0] == tv[0]);
    reveal_strlit("null");
    reveal_strlit("true");
    reveal_strlit("false");
    match v {
        JsonV::Null => {
            assert(s.subrange(i, i + 4) =~= "null"@);
        },
        JsonV::Bool(b) => {
            if b {
                assert(s.subrange(i, i + 4) =~= "true"@);
            } else {
                assert(s.subrange(i, i + 5) =~= "false"@);
            }
        },
        JsonV::Int(n) => {
            if n >= 0 {
                lemma_dec_nat_digits(n as nat);
            } else {
                lemma_dec_nat_digits((-n) as nat);
            }
            lemma_number_round(n, s, i);
        },
        JsonV::Str(t) => {
            lemma_string_round(t, s, i);
        },
        JsonV::Arr(items) => {
            if items.len() == 0 {
                assert(items =~= Seq::<JsonV>::empty());
                assert(items_text(items) =~= Seq::<char>::empty());
                assert(tv =~= seq!['[', ']']);
                assert(s[i + 1] == ']');
                assert(ws_end(s, i + 1) == i + 1);
            } else {
                assert(tv =~= seq!['['] + (items_text(items) + seq![']']));
                lemma_region_shift(s, i, seq!['['], items_text(items) + seq![']']);
                assert(items_text(items) == json_text(items[0]) + items_rest(
                    items.subrange(1, items.len() as int),
                ));
                lemma_text_first(items[0]);
                assert((items_text(items) + seq![']'])[0] == json_text(items[0])[0]);
                assert(s[i + 1] == json_text(items[0])[0]);
                assert(ws_end(s, i + 1) == i + 1);
                lemma_elems_round(items, Seq::empty(), s, i + 1);
                assert(Seq::<JsonV>::empty() + items =~= items);
            }
            assert(spec_value(s, i) == Some((v, i + json_text(v).len())));
        },
        JsonV::Obj(entries) => {
            if entries.len() == 0 {
                assert(entries =~= Seq::<(Seq<char>, JsonV)>::empty());
                assert(entries_text(entries) =~= Seq::<char>::empty());
                assert(tv =~= seq!['{', '}']);
                assert(s[i + 1] == '}');
                assert(ws_end(s, i + 1) == i + 1);
            } else {
                assert(tv =~= seq!['{'] + (entries_text(entries) + seq!['}']));
                lemma_region_shift(s, i, seq!['{'], entries_text(entries) + seq!['}']);
                assert(entries_text(entries) == entry_text(entries[0]) + entries_rest(
                    entries.subrange(1, entries.len() as int),
                ));
                assert(entry_text(entries[0])[0] == '"');
                assert((entries_text(entries) + seq!['}'])[0] == '"');
                assert(s[i + 1] == '"');
                assert(ws_end(s, i + 1) == i + 1);
                lemma_members_round(entries, Seq::empty(), s, i + 1);
                assert(Seq::<(Seq<char>, JsonV)>::empty() + entries =~= entries);
            }
            assert(spec_value(s, i) == Some((v, i + json_text(v).len())));
        },
    }
}

/// Rendered array elements followed by the closing bracket are consumed
/// whole, in order.
#[verifier::rlimit(60)]
proof fn lemma_elems_round(items: Seq<JsonV>, acc: Seq<JsonV>, s: Seq<char>, j: int)
    requires
        items.len() >= 1,
        machine_items(items),
        0 <= j,
        j + items_text(items).len() + 1 <= s.len(),
        s.subrange(j, j + items_text(items).len() + 1) == items_text(items) + seq![']'],
    ensures
        spec_elems(s, j, acc) == Some(
            (JsonV::Arr(acc + items), j + items_text(items).len() + 1),
        ),
    decreases items, 1int,
{
    let t0 = json_text(items[0]);
    let rest = items.subrange(1, items.len() as int);
    assert(items_text(items) == t0 + items_rest(rest));
    lemma_text_first(items[0]);
    if rest.len() == 0 {
        assert(items_rest(rest) =~= Seq::<char>::empty());
        assert(items_text(items) + seq![']'] =~= t0 + seq![']']);
        lemma_region_shift(s, j, t0, seq![']']);
        lemma_parse_of_text(items[0], s, j);
        assert(s[j + t0.len()] == ']');
        assert(ws_end(s, j + t0.len()) == j + t0.len());
        assert(acc + items =~= acc.push(items[0]));
    } else {
        assert(items_rest(rest) == seq![','] + json_text(rest[0]) + items_rest(
            rest.subrange(1, rest.len() as int),
        ));
        assert(items_rest(rest) =~= seq![','] + items_text(rest)) by {
            assert(items_text(rest) == json_text(rest[0]) + items_rest(
                rest.subrange(1, rest.len() as int),
            ));
        }
        assert(items_text(items) + seq![']'] =~= t0 + (seq![','] + (items_text(rest)
            + seq![']'])));
        lemma_region_shift(s, j, t0, seq![','] + (items_text(rest) + seq![']']));
        lemma_parse_of_text(items[0], s, j);
        let j2 = j + t0.len();
        assert(s[j2 + 0] == ',');
        assert(ws_end(s, j2) == j2);
        lemma_region_shift(s, j2, seq![','], items_text(rest) + seq![']']);
        let j4 = j2 + 1;
        lemma_text_first(rest[0]);
        assert((items_text(rest) + seq![']'])[0] == json_text(rest[0])[0]);
        assert(s[j4 + 0] == json_text(rest[0])[0]) by {
            assert(s.subrange(j4, j4 + items_text(rest).len() + 1)[0] == s[j4 + 0]);
        }
        assert(ws_end(s, j4) == j4);
        assert(machine_items(rest));
        lemma_elems_round(rest, acc.push(items[0]), s, j4);
        assert(acc.push(items[0]) + rest =~= acc + items);
    }
}

/// Rendered object members followed by the closing brace are consumed
/// whole, in order.
/// The parse positions of one rendered object member followed by `tail`.
#[verifier::rlimit(100)]
#[verifier::spinoff_prover]
proof fn lemma_member_prefix(key: Seq<char>, val: JsonV, s: Seq<char>, j: int, tail: Seq<char>)
    requires
        machine_ints(val),
        0 <= j,
        j + entry_text((key, val)).len() + tail.len() <= s.len(),
        s.subrange(j, j + entry_text((key, val)).len() + tail.len() as int) == entry_text(
            (key, val),
        ) + tail,
        tail.len() >= 1,
        sep_ok(tail[0]),
    ensures
        spec_string(s, j) == Some((key, j + esc_seq(key).len() + 2)),
        ws_end(s, j + esc_seq(key).len() + 2) == j + esc_seq(key).len() + 2,
        s[j + esc_seq(key).len() + 2] == ':',
        ws_end(s, j + esc_seq(key).len() + 3) == j + esc_seq(key).len() + 3,
        spec_value(s, j + esc_seq(key).len() + 3) == Some(
            (val, j + entry_text((key, val)).len()),
        ),
        ws_end(s, j + entry_text((key, val)).len()) == j + entry_text((key, val)).len(),
        s[j + entry_text((key, val)).len()] == tail[0],
        s.subrange(
            j + entry_text((key, val)).len(),
            j + entry_text((key, val)).len() + tail.len() as int,
        ) == tail,
    decreases val, 1int,
{
    let e0 = entry_text((key, val));
    let keypart = seq!['"'] + esc_seq(key) + seq!['"'];
    let vt = json_text(val);
    assert(e0 =~= keypart + (seq![':'] + vt));
    assert(e0 + tail =~= keypart + ((seq![':'] + vt) + tail));
    lemma_region_shift(s, j, keypart, (seq![':'] + vt) + tail);
    lemma_string_round(key, s, j);
    let j2 = j + keypart.len();
    assert(((seq![':'] + vt) + tail)[0] == ':');
    assert(s[j2 + 0] == ':') by {
        assert(s.subrange(j2, j2 + ((seq![':'] + vt) + tail).len() as int)[0] == s[j2 + 0]);
    }
    assert(ws_end(s, j2) == j2);
    assert((seq![':'] + vt) + tail =~= seq![':'] + (vt + tail));
    lemma_region_shift(s, j2, seq![':'], vt + tail);
    let j4 = j2 + 1;
    lemma_text_first(val);
    assert((vt + tail)[0] == vt[0]);
    assert(s[j4 + 0] == vt[0]) by {
        assert(s.subrange(j4, j4 + (vt + tail).len() as int)[0] == s[j4 + 0]);
    }
    assert(ws_end(s, j4) == j4);
    lemma_region_shift(s, j4, vt, tail);
    lemma_parse_of_text(val, s, j4);
    let j5 = j4 + vt.len();
    assert(s[j5 + 0] == tail[0]) by {
        assert(s.subrange(j5, j5 + tail.len() as int)[0] == s[j5 + 0]);
    }
    assert(ws_end(s, j5) == j5);
}

/// Rendered object members followed by the closing brace are consumed
/// whole, in order.
#[verifier::rlimit(100)]
#[verifier::spinoff_prover]
proof fn lemma_members_round(
    entries: Seq<(Seq<char>, JsonV)>,
    acc: Seq<(Seq<char>, JsonV)>,
    s: Seq<char>,
    j: int,
)
    requires
        entries.len() >= 1,
        machine_entries(entries),
        0 <= j,
        j + entries_text(entries).len() + 1 <= s.len(),
        s.subrange(j, j + entries_text(entries).len() + 1) == entries_text(entries)
            + seq!['}'],
    ensures
        spec_members(s, j, acc) == Some(
            (JsonV::Obj(acc + entries), j + entries_text(entries).len() + 1),
        ),
    decreases entries, 1int,
{
    let key = entries[0].0;
    let val = entries[0].1;
    let e0 = entry_text(entries[0]);
    let rest = entries.subrange(1, entries.len() as int);
    assert(entries_text(entries) == e0 + entries_rest(rest));
    assert((key, val) == entries[0]);
    let tail: Seq<char> = if rest.len() == 0 {
        seq!['}']
    } else {
        entries_rest(rest) + seq!['}']
    };
    if rest.len() == 0 {
        assert(entries_rest(rest) =~= Seq::<char>::empty());
        assert(entries_text(entries) + seq!['}'] =~= e0 + tail);
    } else {
        assert(entries_rest(rest) == seq![','] + entry_text(rest[0]) + entries_rest(
            rest.subrange(1, rest.len() as int),
        ));
        assert(tail[0] == ',');
        assert(entries_text(entries) + seq!['}'] =~= e0 + tail);
    }
    assert(decreases_to!(entries => entries[0]));
    assert(decreases_to!(entries[0] => entries[0].1));
    lemma_member_prefix(key, val, s, j, tail);
    let j5 = j + e0.len();
    if rest.len() == 0 {
        assert(acc + entries =~= acc.push((key, val)));
    } else {
        assert(entries_rest(rest) =~= seq![','] + entries_text(rest)) by {
            assert(entries_text(rest) == entry_text(rest[0]) + entries_rest(
                rest.subrange(1, rest.len() as int),
            ));
        }
        assert(tail =~= seq![','] + (entries_text(rest) + seq!['}']));
        lemma_region_shift(s, j5, seq![','], entries_text(rest) + seq!['}']);
        let j7 = j5 + 1;
        assert(entry_text(rest[0])[0] == '"');
        assert((entries_text(rest) + seq!['}'])[0] == '"');
        assert(s[j7 + 0] == '"') by {
            assert(s.subrange(j7, j7 + entries_text(rest).len() + 1)[0] == s[j7 + 0]);
        }
        assert(ws_end(s, j7) == j7);
        assert(machine_entries(rest));
        lemma_members_round(rest, acc.push((key, val)), s, j7);
        assert(acc.push((key, val)) + rest =~= acc + entries);
    }
}

proof fn lemma_ws_skip(s: Seq<char>, i: int, e: int)
    requires
        0 <= i <= e <= s.len(),
        forall|k: int| i <= k < e ==> is_space(#[trigger] s[k]),
        e == s.len() || !is_space(s[e]),
    ensures
        ws_end(s, i) == e,
    decreases e - i,
{
    if i < e {
        lemma_ws_skip(s, i + 1, e);
    }
}

/// The round trip with the serializer: a rendering of any value whose
/// integers the machine range holds parses back to exactly that value.
pub proof fn lemma_document_of_text(v: JsonV)
    requires
        machine_ints(v),
    ensures
        spec_document(json_text(v)) == Some(v),
{
    let s = json_text(v);
    lemma_text_first(v);
    assert(ws_end(s, 0) == 0);
    assert(s.subrange(0, s.len() as int) =~= s);
    lemma_parse_of_text(v, s, 0);
    assert(ws_end(s, s.len() as int) == s.len());
}

/// The round trip survives surrounding whitespace: a rendering wrapped in
/// any whitespace padding still parses back to its value.
pub proof fn lemma_document_of_padded_text(v: JsonV, pad1: Seq<char>, pad2: Seq<char>)
    requires
        machine_ints(v),
        crate::text::all_spaces(pad1),
        crate::text::all_spaces(pad2),
    ensures
        spec_document(pad1 + json_text(v) + pad2) == Some(v),
{
    let tv = json_text(v);
    let s = pad1 + tv + pad2;
    lemma_text_first(v);
    assert(s.subrange(0, s.len() as int) =~= (pad1 + tv) + pad2);
    lemma_region_shift(s, 0, pad1 + tv, pad2);
    assert(s.subrange(0, pad1.len() + tv.len() as int) =~= pad1 + tv);
    lemma_region_shift(s, 0, pad1, tv);
    assert forall|k: int| 0 <= k < pad1.len() implies is_space(#[trigger] s[k]) by {
        assert(s[0 + k] == (pad1 + tv)[k]);
    }
    assert(s[0 + pad1.len() as int] == (pad1 + tv)[pad1.len() as int]);
    assert(s[pad1.len() as int] == tv[0]);
    lemma_ws_skip(s, 0, pad1.len() as int);
    let i = pad1.len() as int;
    if pad2.len() > 0 {
        assert(s[0 + (pad1.len() + tv.len()) as int] == pad2[0]);
        assert(after_value_ok(s[i + tv.len()]));
    }
    lemma_parse_of_text(v, s, i);
    assert forall|k: int| i + tv.len() <= k < s.len() implies is_space(#[trigger] s[k]) by {
        assert(s[0 + k] == ((pad1 + tv) + pad2)[k]);
        assert(((pad1 + tv) + pad2)[k] == pad2[k - (pad1.len() + tv.len())]);
    }
    lemma_ws_skip(s, i + tv.len(), s.len() as int);
}

} // verus!
